use repox::command::InitArgs;
use repox::command::RunConfig;
use repox::command::SyncArgs;
use repox::filter::GroupExpr;
use repox::filter::Platform;
use repox::manifest::Project;
use repox::manifest::Remote;
use repox::project::make_row;
use repox::project::ProjectSpec;

fn text(s: &str) -> String {
    s.to_string()
}

fn options() -> InitArgs {
    InitArgs {
        verbose: false,
        quiet: false,
        manifest_url: text("https://git.example/manifest"),
        manifest_branch: text("HEAD"),
        manifest_path: text("default.xml"),
        groups: None,
        platform: None,
        submodules: true,
        standalone_manifest: false,
        manifest_depth: 0,
        current_branch: true,
        no_current_branch: None,
        tags: None,
        no_tags: None,
        mirror: None,
        archive: None,
        worktree: None,
        reference: None,
        dissociate: None,
        depth: None,
        partial_clone: None,
        no_partial_clone: None,
        partial_clone_exclude: None,
        clone_filter: None,
        use_superproject: None,
        no_use_superproject: None,
        clone_bundle: None,
        no_clone_bundle: None,
        git_lfs: None,
        no_git_lfs: None,
        repo_url: None,
        repo_rev: None,
        no_repo_verify: None,
        config_name: None,
        outer_manifest: None,
        no_outer_manifest: None,
        this_manifest_only: None,
        no_this_manifest_only: None,
        all_manifests: None,
    }
}

fn row(name: &str, path: &str) -> ProjectSpec {
    make_row(
        &Project {
            annotation: None,
            project: None,
            copyfile: None,
            linkfile: None,
            name: text(name),
            path: Some(text(path)),
            remote: None,
            revision: None,
            dest_branch: None,
            groups: None,
            sync_c: None,
            sync_s: None,
            sync_tags: None,
            upstream: None,
            clone_depth: None,
            force_path: None,
        },
        None,
    )
}

#[test]
fn group_options_are_read_in_a_row() {
    let mut args = options();
    assert!(args.config().group_exprs().is_empty());
    args.groups = Some(vec![text("G1,G2"), text("-G3"), text("")]);
    assert_eq!(
        args.config().group_exprs(),
        vec![
            GroupExpr::Wanted(text("G1")),
            GroupExpr::Wanted(text("G2")),
            GroupExpr::Unwanted(text("G3"))
        ]
    );
}

#[test]
fn last_platform_option_counts() {
    let host = text("linux");
    let mut args = options();
    assert_eq!(args.config().platform_for(&host), Platform::Named(text("linux")));
    args.platform = Some(vec![]);
    assert_eq!(args.config().platform_for(&host), Platform::Named(text("linux")));
    args.platform = Some(vec![text("darwin"), text("all")]);
    assert_eq!(args.config().platform_for(&host), Platform::Every);
    args.platform = Some(vec![text("all"), text("darwin")]);
    assert_eq!(args.config().platform_for(&host), Platform::Named(text("darwin")));
    args.platform = Some(vec![text("none")]);
    assert_eq!(args.config().platform_for(&host), Platform::Neither);
}

#[test]
fn depth_of_the_manifest_goes_first() {
    let mut args = options();
    assert_eq!(args.config().depth_for(None), None);
    assert_eq!(args.config().depth_for(Some(3)), Some(3));
    args.depth = Some(5);
    assert_eq!(args.config().depth_for(None), Some(5));
    assert_eq!(args.config().depth_for(Some(3)), Some(3));
    args.depth = Some(0);
    assert_eq!(args.config().depth_for(None), None);
}

#[test]
fn sync_is_narrowed_to_the_projects_asked_for() {
    let set = vec![row("app", "src/app"), row("lib", "src/lib"), row("doc", "doc")];
    let names = |set: &Vec<ProjectSpec>| -> Vec<String> {
        set.iter().map(|p| p.name.clone()).collect()
    };
    let every = SyncArgs { projects: None };
    assert_eq!(names(&every.narrow(&set)), vec![text("app"), text("lib"), text("doc")]);
    let every = SyncArgs { projects: Some(vec![]) };
    assert_eq!(every.narrow(&set).len(), 3);
    let some = SyncArgs { projects: Some(vec![text("doc"), text("src/app"), text("nothing")]) };
    assert_eq!(names(&some.narrow(&set)), vec![text("app"), text("doc")]);
    assert_eq!(some.clone(), some);
}

#[test]
fn remote_has_a_label_and_a_push_prefix() {
    let mut origin = Remote {
        name: text("origin"),
        alias: None,
        fetch: text("https://git.example"),
        pushurl: None,
        review: None,
        revision: None,
    };
    assert_eq!(origin.label(), &text("origin"));
    assert_eq!(origin.push_prefix(), &text("https://git.example"));
    origin.alias = Some(text("upstream"));
    origin.pushurl = Some(text("ssh://git.example"));
    assert_eq!(origin.label(), &text("upstream"));
    assert_eq!(origin.push_prefix(), &text("ssh://git.example"));
}

#[test]
fn options_give_the_run_configuration() {
    let mut args = options();
    assert_eq!(
        args.config(),
        RunConfig {
            manifest_path: text("default.xml"),
            groups: vec![],
            platform: vec![],
            depth: None
        }
    );
    args.manifest_path = text("m/local.xml");
    args.groups = Some(vec![text("a,b"), text("-c")]);
    args.platform = Some(vec![text("linux")]);
    args.depth = Some(2);
    assert_eq!(
        args.config(),
        RunConfig {
            manifest_path: text("m/local.xml"),
            groups: vec![text("a,b"), text("-c")],
            platform: vec![text("linux")],
            depth: Some(2)
        }
    );
}

#[test]
fn run_configuration_is_kept_as_four_lines() {
    let config = RunConfig {
        manifest_path: text("m/default.xml"),
        groups: vec![text("tools"), text("-docs")],
        platform: vec![text("linux")],
        depth: Some(120),
    };
    assert_eq!(config.render(), text("m/default.xml\ntools,-docs\nlinux\n120\n"));
    assert_eq!(RunConfig::parse(&config.render()), config);
    assert_eq!(config.clone(), config);
    let bare = RunConfig {
        manifest_path: text("default.xml"),
        groups: vec![],
        platform: vec![],
        depth: None,
    };
    assert_eq!(bare.render(), text("default.xml\n\n\n\n"));
    assert_eq!(RunConfig::parse(&bare.render()), bare);
}

#[test]
fn run_configuration_is_read_from_any_text() {
    let empty = RunConfig { manifest_path: text(""), groups: vec![], platform: vec![], depth: None };
    assert_eq!(RunConfig::parse(""), empty);
    assert_eq!(
        RunConfig::parse("x.xml\na, b\n\nmany"),
        RunConfig {
            manifest_path: text("x.xml"),
            groups: vec![text("a"), text("b")],
            platform: vec![],
            depth: None
        }
    );
    assert_eq!(RunConfig::parse("x.xml\n\nall\n0\nmore").depth, Some(0));
    assert_eq!(RunConfig::parse("x.xml\n\n\n99999999999999999999999").depth, None);
}
