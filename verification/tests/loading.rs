use repox::loader::manifests_of;
use repox::loader::LoadError;
use repox::loader::LoadEvent;
use repox::loader::Loader;
use repox::manifest::Include;
use repox::manifest::Manifest;
use repox::manifest::Remote;

fn text(s: &str) -> String {
    s.to_string()
}

fn naming(files: &[&str], mark: &str) -> Manifest {
    let mut doc = Manifest::empty();
    doc.includes = Some(files.iter().map(|name| Include { name: text(name) }).collect());
    doc.remote = Some(vec![Remote {
        name: text(mark),
        alias: None,
        fetch: text("https://one.example"),
        pushurl: None,
        review: None,
        revision: None,
    }]);
    doc
}

fn contents(path: &str) -> LoadEvent {
    match path {
        "/m/default.xml" => LoadEvent::Parsed(naming(&["a.xml", "b.xml"], "root")),
        "/m/a.xml" => LoadEvent::Parsed(naming(&["c.xml"], "a")),
        "/m/b.xml" => LoadEvent::Parsed(naming(&[], "b")),
        "/m/c.xml" => LoadEvent::Parsed(naming(&[], "c")),
        "/m/loop.xml" => LoadEvent::Parsed(naming(&["back.xml"], "loop")),
        "/m/back.xml" => LoadEvent::Parsed(naming(&["loop.xml"], "back")),
        "/m/lonely.xml" => LoadEvent::Parsed(naming(&["nowhere.xml"], "lonely")),
        "/m/broken.xml" => LoadEvent::Malformed(text("unexpected end of file")),
        "/m/twice.xml" => LoadEvent::Parsed(naming(&["c.xml", "c.xml"], "twice")),
        _ => LoadEvent::Missing,
    }
}

fn load(name: &str) -> (Result<Vec<String>, LoadError>, Vec<String>) {
    let mut loader = Loader::start(text("/m"), &text(name));
    let mut asked = Vec::new();
    loop {
        let path = match loader.wanted() {
            Some(path) => path.clone(),
            None => break,
        };
        asked.push(path.clone());
        loader.feed(contents(&path));
    }
    let outcome = loader.finish().unwrap().map(|documents| {
        let marks = manifests_of(&documents);
        assert_eq!(marks.len(), documents.len());
        documents.iter().map(|document| document.path.clone()).collect()
    });
    (outcome, asked)
}

#[test]
fn named_files_come_before_the_file_that_names_them() {
    let (outcome, asked) = load("default.xml");
    assert_eq!(
        outcome,
        Ok(vec![text("/m/c.xml"), text("/m/a.xml"), text("/m/b.xml"), text("/m/default.xml")])
    );
    assert_eq!(
        asked,
        vec![text("/m/default.xml"), text("/m/a.xml"), text("/m/c.xml"), text("/m/b.xml")]
    );
}

#[test]
fn file_that_names_nothing_is_one_document() {
    let (outcome, asked) = load("b.xml");
    assert_eq!(outcome, Ok(vec![text("/m/b.xml")]));
    assert_eq!(asked.len(), 1);
}

#[test]
fn file_named_twice_is_loaded_twice() {
    let (outcome, _) = load("twice.xml");
    assert_eq!(outcome, Ok(vec![text("/m/c.xml"), text("/m/c.xml"), text("/m/twice.xml")]));
}

#[test]
fn cycle_is_reported_with_its_chain() {
    let (outcome, asked) = load("loop.xml");
    assert_eq!(
        outcome,
        Err(LoadError::CyclicInclude {
            chain: vec![text("/m/loop.xml"), text("/m/back.xml"), text("/m/loop.xml")]
        })
    );
    assert_eq!(asked, vec![text("/m/loop.xml"), text("/m/back.xml")]);
}

#[test]
fn missing_file_is_reported_with_the_file_that_names_it() {
    let (outcome, _) = load("lonely.xml");
    assert_eq!(
        outcome,
        Err(LoadError::IncludeNotFound {
            path: text("/m/nowhere.xml"),
            including: Some(text("/m/lonely.xml"))
        })
    );
    let (outcome, _) = load("absent.xml");
    assert_eq!(
        outcome,
        Err(LoadError::IncludeNotFound { path: text("/m/absent.xml"), including: None })
    );
}

#[test]
fn malformed_file_is_reported() {
    let (outcome, _) = load("broken.xml");
    assert_eq!(
        outcome,
        Err(LoadError::ManifestParseError {
            path: text("/m/broken.xml"),
            detail: text("unexpected end of file")
        })
    );
}

#[test]
fn nothing_is_given_while_a_file_is_wanted() {
    let loader = Loader::start(text("/m"), &text("default.xml"));
    assert_eq!(loader.wanted(), Some(&text("/m/default.xml")));
    assert_eq!(loader.including(), None);
    assert!(loader.finish().is_none());
}

#[test]
fn event_without_a_wanted_file_changes_nothing() {
    let mut loader = Loader::start(text("/m"), &text("b.xml"));
    loader.feed(contents("/m/b.xml"));
    assert_eq!(loader.wanted(), None);
    loader.feed(LoadEvent::Missing);
    let documents = loader.finish().unwrap().unwrap();
    assert_eq!(documents.len(), 1);
}

#[test]
fn load_errors_say_what_went_wrong() {
    assert_eq!(
        load("loop.xml").0.unwrap_err().message(),
        text("cyclic include: /m/loop.xml -> /m/back.xml -> /m/loop.xml")
    );
    assert_eq!(
        load("lonely.xml").0.unwrap_err().message(),
        text("manifest not found: /m/nowhere.xml (included from /m/lonely.xml)")
    );
    assert_eq!(
        load("absent.xml").0.unwrap_err().message(),
        text("manifest not found: /m/absent.xml")
    );
    assert_eq!(
        load("broken.xml").0.unwrap_err().message(),
        text("malformed manifest /m/broken.xml: unexpected end of file")
    );
}

#[test]
fn loading_starts_in_the_directory_of_the_manifest() {
    assert_eq!(Loader::start_at("/m/default.xml").wanted(), Some(&text("/m/default.xml")));
    assert_eq!(Loader::start_at("default.xml").wanted(), Some(&text("./default.xml")));
    assert_eq!(Loader::start_at("a/b/c.xml").wanted(), Some(&text("a/b/c.xml")));
    assert_eq!(Loader::start_at("/c.xml").wanted(), Some(&text("/c.xml")));
    let mut loader = Loader::start_at("/m/a.xml");
    loader.feed(contents("/m/a.xml"));
    assert_eq!(loader.wanted(), Some(&text("/m/c.xml")));
    assert_eq!(loader.including(), Some(&text("/m/a.xml")));
}
