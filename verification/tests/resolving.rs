use repox::manifest::Defaults;
use repox::manifest::ExtendProject;
use repox::manifest::Manifest;
use repox::manifest::Project;
use repox::manifest::Remote;
use repox::manifest::RemoveProject;
use repox::resolver::resolve;
use repox::resolver::ResolveError;

fn text(s: &str) -> String {
    s.to_string()
}

fn remote(name: &str, fetch: &str) -> Remote {
    Remote {
        name: text(name),
        alias: None,
        fetch: text(fetch),
        pushurl: None,
        review: None,
        revision: None,
    }
}

fn project(name: &str) -> Project {
    Project {
        annotation: None,
        project: None,
        copyfile: None,
        linkfile: None,
        name: text(name),
        path: None,
        remote: None,
        revision: None,
        dest_branch: None,
        groups: None,
        sync_c: None,
        sync_s: None,
        sync_tags: None,
        upstream: None,
        clone_depth: None,
        force_path: None,
    }
}

fn default_remote(name: &str) -> Defaults {
    let mut record = Defaults::empty();
    record.remote = Some(text(name));
    record
}

fn document(remotes: Vec<Remote>, default: Option<Defaults>, projects: Vec<Project>) -> Manifest {
    let mut doc = Manifest::empty();
    doc.remote = Some(remotes);
    doc.default = default;
    doc.project = Some(projects);
    doc
}

#[test]
fn later_remote_of_a_name_replaces_the_earlier() {
    let first = document(vec![remote("origin", "https://one.example")], None, vec![]);
    let second = document(vec![remote("origin", "https://two.example")], None, vec![]);
    let resolved = resolve(&vec![first, second]).unwrap();
    assert_eq!(resolved.remotes().len(), 1);
    assert_eq!(resolved.remotes()[0], remote("origin", "https://two.example"));
}

#[test]
fn remote_revision_is_inherited() {
    let mut origin = remote("origin", "https://one.example");
    origin.revision = Some(text("stable"));
    let doc = document(vec![origin], Some(default_remote("origin")), vec![project("foo")]);
    let resolved = resolve(&vec![doc]).unwrap();
    assert_eq!(resolved.count(), 1);
    let foo = &resolved.projects()[0];
    assert_eq!(foo.remote, Some(text("origin")));
    assert_eq!(foo.revision, Some(text("stable")));
    assert_eq!(foo.path, text("foo"));
}

#[test]
fn extend_project_adds_groups() {
    let mut foo = project("foo");
    foo.groups = Some(text("all,name:foo"));
    let mut doc = document(
        vec![remote("origin", "https://one.example")],
        Some(default_remote("origin")),
        vec![foo],
    );
    doc.extend_project = Some(vec![ExtendProject {
        name: text("foo"),
        path: None,
        groups: Some(text("extra")),
        revision: None,
        remote: None,
    }]);
    let resolved = resolve(&vec![doc]).unwrap();
    assert_eq!(
        resolved.projects()[0].groups,
        vec![text("all"), text("name:foo"), text("extra")]
    );
}

#[test]
fn removed_project_can_be_defined_again() {
    let base = document(
        vec![remote("origin", "https://one.example")],
        Some(default_remote("origin")),
        vec![project("foo"), project("bar")],
    );
    let mut removal = Manifest::empty();
    removal.remove_project = Some(vec![RemoveProject { name: text("foo") }]);
    let mut again = project("foo");
    again.revision = Some(text("next"));
    let local = document(vec![], None, vec![again]);
    let gone = resolve(&vec![base.clone(), removal.clone()]).unwrap();
    assert_eq!(gone.count(), 1);
    assert!(gone.project(&text("foo")).is_none());
    let resolved = resolve(&vec![base, removal, local]).unwrap();
    assert_eq!(resolved.count(), 2);
    let foo = resolved.project(&text("foo")).unwrap();
    assert_eq!(foo.revision, Some(text("next")));
    assert_eq!(resolved.projects()[1].name, text("foo"));
}

#[test]
fn project_without_remote_is_refused() {
    let doc = document(vec![remote("origin", "https://one.example")], None, vec![project("foo")]);
    assert_eq!(resolve(&vec![doc]).unwrap_err(), ResolveError::UnresolvedRemote(text("foo")));
}

#[test]
fn blank_in_revision_is_refused() {
    let mut foo = project("foo");
    foo.revision = Some(text("my branch"));
    let doc = document(
        vec![remote("origin", "https://one.example")],
        Some(default_remote("origin")),
        vec![foo],
    );
    assert_eq!(resolve(&vec![doc]).unwrap_err(), ResolveError::MalformedRevision(text("foo")));
}

#[test]
fn nested_project_takes_prefix_and_inherits() {
    let mut outer = project("platform");
    outer.path = Some(text("src/platform"));
    outer.revision = Some(text("main"));
    outer.groups = Some(text("tools build"));
    let mut inner = project("lib");
    inner.path = Some(text("third_party/lib"));
    outer.project = Some(vec![inner]);
    let doc = document(
        vec![remote("origin", "https://one.example")],
        Some(default_remote("origin")),
        vec![outer],
    );
    let resolved = resolve(&vec![doc]).unwrap();
    assert_eq!(resolved.count(), 2);
    let inner = &resolved.projects()[1];
    assert_eq!(inner.name, text("platform/lib"));
    assert_eq!(inner.path, text("src/platform/third_party/lib"));
    assert_eq!(inner.revision, Some(text("main")));
    assert_eq!(inner.groups, vec![text("tools"), text("build")]);
}

#[test]
fn two_documents_resolve_as_their_combination() {
    let mut origin = remote("origin", "https://one.example");
    origin.revision = Some(text("stable"));
    let first = document(vec![origin], Some(default_remote("origin")), vec![project("foo")]);
    let mut foo = project("foo");
    foo.groups = Some(text("tools"));
    let mut second = document(
        vec![remote("origin", "https://two.example"), remote("mirror", "https://m.example")],
        None,
        vec![foo.clone(), project("bar")],
    );
    second.extend_project = Some(vec![ExtendProject {
        name: text("bar"),
        path: None,
        groups: None,
        revision: Some(text("next")),
        remote: Some(text("mirror")),
    }]);
    let mut combined = document(
        vec![
            first.remotes()[0].clone(),
            remote("origin", "https://two.example"),
            remote("mirror", "https://m.example"),
        ],
        Some(default_remote("origin")),
        vec![project("foo"), foo, project("bar")],
    );
    combined.extend_project = second.extend_project.clone();
    let apart = resolve(&vec![first, second]).unwrap();
    let together = resolve(&vec![combined]).unwrap();
    assert_eq!(apart.remotes(), together.remotes());
    assert_eq!(apart.defaults(), together.defaults());
    assert_eq!(apart.projects(), together.projects());
    assert_eq!(apart.count(), 2);
    assert_eq!(apart.projects()[0].groups, vec![text("tools")]);
    assert_eq!(apart.projects()[1].remote, Some(text("mirror")));
    assert_eq!(apart.projects()[1].revision, Some(text("next")));
}

#[test]
fn document_without_elements_changes_nothing() {
    let doc = document(
        vec![remote("origin", "https://one.example")],
        Some(default_remote("origin")),
        vec![project("foo")],
    );
    let alone = resolve(&vec![doc.clone()]).unwrap();
    let padded = resolve(&vec![Manifest::empty(), doc, Manifest::empty()]).unwrap();
    assert_eq!(alone.remotes(), padded.remotes());
    assert_eq!(alone.projects(), padded.projects());
    let nothing = resolve(&vec![]).unwrap();
    assert_eq!(nothing.count(), 0);
    assert!(nothing.remotes().is_empty());
    assert_eq!(nothing.defaults(), &Defaults::empty());
}

#[test]
fn remote_that_is_not_registered_is_refused() {
    let mut foo = project("foo");
    foo.remote = Some(text("elsewhere"));
    let doc = document(
        vec![remote("origin", "https://one.example")],
        Some(default_remote("origin")),
        vec![project("fine"), foo, project("late")],
    );
    assert_eq!(resolve(&vec![doc]).unwrap_err(), ResolveError::UnresolvedRemote(text("foo")));
}

#[test]
fn default_record_fills_what_a_project_leaves_open() {
    let mut record = default_remote("origin");
    record.revision = Some(text("main"));
    record.dest_branch = Some(text("review"));
    record.sync_c = Some(text("true"));
    let mut own = project("own");
    own.dest_branch = Some(text("mine"));
    own.revision = Some(text("refs/tags/v1"));
    let doc = document(
        vec![remote("origin", "https://one.example")],
        Some(record),
        vec![project("plain"), own],
    );
    let resolved = resolve(&vec![doc]).unwrap();
    let plain = resolved.project(&text("plain")).unwrap();
    assert_eq!(plain.revision, Some(text("main")));
    assert_eq!(plain.dest_branch, Some(text("review")));
    assert_eq!(plain.sync_c, Some(text("true")));
    let own = resolved.project(&text("own")).unwrap();
    assert_eq!(own.revision, Some(text("refs/tags/v1")));
    assert_eq!(own.dest_branch, Some(text("mine")));
    assert!(resolved.remote(&text("origin")).is_some());
    assert!(resolved.remote(&text("mirror")).is_none());
}

#[test]
fn extend_project_with_a_path_changes_that_project_only() {
    let mut here = project("foo");
    here.path = Some(text("a/foo"));
    let mut there = project("foo");
    there.path = Some(text("b/foo"));
    let mut doc = document(
        vec![remote("origin", "https://one.example")],
        Some(default_remote("origin")),
        vec![here, there],
    );
    doc.extend_project = Some(vec![ExtendProject {
        name: text("foo"),
        path: Some(text("b/foo")),
        groups: Some(text("extra")),
        revision: Some(text("next")),
        remote: None,
    }]);
    let resolved = resolve(&vec![doc]).unwrap();
    let here = resolved.project(&text("a/foo")).unwrap();
    assert!(here.groups.is_empty());
    assert_eq!(here.revision, None);
    let there = resolved.project(&text("b/foo")).unwrap();
    assert_eq!(there.groups, vec![text("extra")]);
    assert_eq!(there.revision, Some(text("next")));
}

#[test]
fn resolve_errors_say_what_went_wrong() {
    assert_eq!(
        ResolveError::UnresolvedRemote(text("foo")).message(),
        text("no remote can be resolved for project foo")
    );
    assert_eq!(
        ResolveError::MalformedRevision(text("foo")).message(),
        text("malformed revision for project foo")
    );
    assert_eq!(ResolveError::UnresolvedRemote(text("foo")).clone().message().len(), 41);
}
