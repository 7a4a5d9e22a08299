use repox::manifest::Manifest;
use repox::manifest::Project;
use repox::manifest::Remote;

fn text(s: &str) -> String {
    s.to_string()
}

fn project(name: &str) -> Project {
    Project {
        annotation: None,
        project: None,
        copyfile: None,
        linkfile: None,
        name: text(name),
        path: None,
        remote: None,
        revision: None,
        dest_branch: None,
        groups: None,
        sync_c: None,
        sync_s: None,
        sync_tags: None,
        upstream: None,
        clone_depth: None,
        force_path: None,
    }
}

#[test]
fn manifest_without_elements_lists_nothing() {
    let doc = Manifest::empty();
    assert!(doc.projects().is_empty());
    assert!(doc.remotes().is_empty());
}

#[test]
fn manifest_lists_its_elements_in_order() {
    let mut doc = Manifest::empty();
    let origin = Remote {
        name: text("origin"),
        alias: Some(text("o")),
        fetch: text("https://one.example"),
        pushurl: None,
        review: None,
        revision: Some(text("main")),
    };
    let mut outer = project("outer");
    outer.project = Some(vec![project("inner")]);
    doc.remote = Some(vec![origin.clone()]);
    doc.project = Some(vec![outer.clone(), project("second")]);
    assert_eq!(doc.remotes(), vec![origin]);
    assert_eq!(doc.projects(), vec![outer, project("second")]);
    assert_eq!(doc.clone(), doc);
}
