use repox::manifest::Copyfile;
use repox::manifest::LinkFile;
use repox::manifest::Project;
use repox::overlay::check_step;
use repox::overlay::is_within;
use repox::overlay::place;
use repox::overlay::plan_overlay;
use repox::overlay::plan_step;
use repox::overlay::resolve_path;
use repox::overlay::NodeKind;
use repox::overlay::OverlayError;
use repox::overlay::OverlayKind;
use repox::overlay::OverlayStep;
use repox::overlay::Probe;
use repox::project::make_row;

fn text(s: &str) -> String {
    s.to_string()
}

fn probe(src_kind: NodeKind, dest_kind: NodeKind) -> Probe {
    Probe {
        src_kind,
        dest_kind,
        src_real: text("/w/src/app/build/Makefile"),
        dest_real: text("/w/Makefile"),
        project_real: text("/w/src/app"),
        root_real: text("/w"),
    }
}

fn copy_step() -> OverlayStep {
    OverlayStep {
        kind: OverlayKind::Copy,
        src: text("/w/src/app/build/Makefile"),
        dest: text("/w/Makefile"),
    }
}

#[test]
fn paths_are_resolved_below_their_root() {
    assert_eq!(resolve_path("a/b"), Some(vec![text("a"), text("b")]));
    assert_eq!(resolve_path("a/./b/../c"), Some(vec![text("a"), text("c")]));
    assert_eq!(resolve_path("a//b/"), Some(vec![text("a"), text("b")]));
    assert_eq!(resolve_path("a/.."), Some(vec![]));
    assert_eq!(resolve_path(""), Some(vec![]));
    assert_eq!(resolve_path("..."), Some(vec![text("...")]));
}

#[test]
fn paths_that_leave_their_root_are_refused() {
    assert_eq!(resolve_path(".."), None);
    assert_eq!(resolve_path("../../etc/passwd"), None);
    assert_eq!(resolve_path("a/../../b"), None);
    assert_eq!(resolve_path("a/../../a/b"), None);
    assert_eq!(resolve_path("/etc/passwd"), None);
}

#[test]
fn places_are_below_the_base() {
    assert_eq!(place(&text("/w"), &vec![text("a"), text("b")]), text("/w/a/b"));
    assert_eq!(place(&text("/w"), &vec![]), text("/w"));
}

#[test]
fn copy_out_of_the_project_is_a_path_escape() {
    let outcome = plan_step(
        OverlayKind::Copy,
        &text("../../etc/passwd"),
        &text("passwd"),
        &text("/w"),
        &text("src/app"),
    );
    assert_eq!(
        outcome,
        Err(OverlayError::PathEscape { src: text("../../etc/passwd"), dest: text("passwd") })
    );
    let outcome = plan_step(
        OverlayKind::Link,
        &text("file"),
        &text("../outside"),
        &text("/w"),
        &text("src/app"),
    );
    assert_eq!(
        outcome,
        Err(OverlayError::PathEscape { src: text("file"), dest: text("../outside") })
    );
}

#[test]
fn plan_has_one_outcome_for_each_pair() {
    let project = Project {
        annotation: None,
        project: None,
        copyfile: Some(vec![
            Copyfile { src: text("build/Makefile"), dest: text("Makefile") },
            Copyfile { src: text("../../etc/passwd"), dest: text("passwd") },
        ]),
        linkfile: Some(vec![LinkFile { src: text("./docs"), dest: text("doc/app") }]),
        name: text("app"),
        path: Some(text("src/app")),
        remote: None,
        revision: None,
        dest_branch: None,
        groups: None,
        sync_c: None,
        sync_s: None,
        sync_tags: None,
        upstream: None,
        clone_depth: None,
        force_path: None,
    };
    let plan = plan_overlay(&make_row(&project, None), &text("/w"));
    assert_eq!(
        plan,
        vec![
            Ok(copy_step()),
            Err(OverlayError::PathEscape { src: text("../../etc/passwd"), dest: text("passwd") }),
            Ok(OverlayStep {
                kind: OverlayKind::Link,
                src: text("/w/src/app/docs"),
                dest: text("/w/doc/app"),
            }),
        ]
    );
}

#[test]
fn places_within_a_base_are_told() {
    assert!(is_within("/w", "/w/a"));
    assert!(is_within("/w", "/w"));
    assert!(is_within("/w/", "/w//a"));
    assert!(is_within("/", "/anything"));
    assert!(!is_within("/w", "/wide/a"));
    assert!(!is_within("/w/a", "/w"));
    assert!(!is_within("/w", "/etc/passwd"));
}

#[test]
fn copy_needs_regular_files() {
    let step = copy_step();
    assert_eq!(check_step(&step, &probe(NodeKind::File, NodeKind::Missing)), Ok(()));
    assert_eq!(check_step(&step, &probe(NodeKind::File, NodeKind::File)), Ok(()));
    assert_eq!(
        check_step(&step, &probe(NodeKind::Missing, NodeKind::Missing)),
        Err(OverlayError::MissingSource { src: text("/w/src/app/build/Makefile") })
    );
    assert_eq!(
        check_step(&step, &probe(NodeKind::Directory, NodeKind::Missing)),
        Err(OverlayError::NotAFile { path: text("/w/src/app/build/Makefile") })
    );
    assert_eq!(
        check_step(&step, &probe(NodeKind::Symlink, NodeKind::Missing)),
        Err(OverlayError::NotAFile { path: text("/w/src/app/build/Makefile") })
    );
    assert_eq!(
        check_step(&step, &probe(NodeKind::File, NodeKind::Symlink)),
        Err(OverlayError::NotAFile { path: text("/w/Makefile") })
    );
    assert_eq!(
        check_step(&step, &probe(NodeKind::File, NodeKind::Directory)),
        Err(OverlayError::NotAFile { path: text("/w/Makefile") })
    );
}

#[test]
fn link_needs_a_regular_file_as_a_copy_does() {
    let mut step = copy_step();
    step.kind = OverlayKind::Link;
    assert_eq!(check_step(&step, &probe(NodeKind::File, NodeKind::Missing)), Ok(()));
    assert_eq!(check_step(&step, &probe(NodeKind::File, NodeKind::File)), Ok(()));
    assert_eq!(
        check_step(&step, &probe(NodeKind::Missing, NodeKind::Missing)),
        Err(OverlayError::MissingSource { src: text("/w/src/app/build/Makefile") })
    );
    for kind in [NodeKind::Directory, NodeKind::Symlink, NodeKind::Other] {
        assert_eq!(
            check_step(&step, &probe(kind, NodeKind::Missing)),
            Err(OverlayError::NotAFile { path: text("/w/src/app/build/Makefile") })
        );
    }
    for kind in [NodeKind::Directory, NodeKind::Other] {
        assert_eq!(
            check_step(&step, &probe(NodeKind::File, kind)),
            Err(OverlayError::NotAFile { path: text("/w/Makefile") })
        );
    }
}

#[test]
fn link_may_stand_where_a_link_was_made_before() {
    let mut step = copy_step();
    step.kind = OverlayKind::Link;
    assert_eq!(check_step(&step, &probe(NodeKind::File, NodeKind::Symlink)), Ok(()));
    step.kind = OverlayKind::Copy;
    assert_eq!(
        check_step(&step, &probe(NodeKind::File, NodeKind::Symlink)),
        Err(OverlayError::NotAFile { path: text("/w/Makefile") })
    );
}

#[test]
fn symbolic_link_out_of_the_workspace_is_a_path_escape() {
    let step = copy_step();
    let mut found = probe(NodeKind::File, NodeKind::Missing);
    found.src_real = text("/etc/passwd");
    assert_eq!(
        check_step(&step, &found),
        Err(OverlayError::PathEscape {
            src: text("/w/src/app/build/Makefile"),
            dest: text("/w/Makefile")
        })
    );
    let mut found = probe(NodeKind::File, NodeKind::Missing);
    found.dest_real = text("/tmp/Makefile");
    assert!(check_step(&step, &found).is_err());
}

#[test]
fn overlay_errors_say_what_went_wrong() {
    assert_eq!(
        OverlayError::PathEscape { src: text("../x"), dest: text("y") }.message(),
        text("path escape: ../x -> y")
    );
    assert_eq!(
        OverlayError::MissingSource { src: text("/w/a") }.message(),
        text("missing source: /w/a")
    );
    assert_eq!(OverlayError::NotAFile { path: text("/w/a") }.message(), text("not a file: /w/a"));
}
