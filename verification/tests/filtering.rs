use repox::filter::has_prefix;
use repox::filter::is_in_group;
use repox::filter::is_required;
use repox::filter::is_selected;
use repox::filter::parse_group_expr;
use repox::filter::parse_group_request;
use repox::filter::parse_platform;
use repox::filter::select;
use repox::filter::GroupExpr;
use repox::filter::Platform;
use repox::manifest::Defaults;
use repox::manifest::Manifest;
use repox::manifest::Project;
use repox::manifest::Remote;
use repox::project::make_row;
use repox::project::ProjectSpec;
use repox::resolver::resolve;

fn text(s: &str) -> String {
    s.to_string()
}

fn project(name: &str, groups: Option<&str>) -> Project {
    Project {
        annotation: None,
        project: None,
        copyfile: None,
        linkfile: None,
        name: text(name),
        path: Some(format!("src/{}", name)),
        remote: None,
        revision: None,
        dest_branch: None,
        groups: groups.map(text),
        sync_c: None,
        sync_s: None,
        sync_tags: None,
        upstream: None,
        clone_depth: None,
        force_path: None,
    }
}

fn row(name: &str, groups: Option<&str>) -> ProjectSpec {
    make_row(&project(name, groups), None)
}

fn names(set: &Vec<ProjectSpec>) -> Vec<String> {
    set.iter().map(|p| p.name.clone()).collect()
}

fn table() -> repox::resolver::ResolvedManifest {
    let mut doc = Manifest::empty();
    doc.remote = Some(vec![Remote {
        name: text("origin"),
        alias: None,
        fetch: text("https://one.example"),
        pushurl: None,
        review: None,
        revision: None,
    }]);
    let mut record = Defaults::empty();
    record.remote = Some(text("origin"));
    doc.default = Some(record);
    doc.project = Some(vec![
        project("core", None),
        project("tools", Some("tools")),
        project("extra", Some("notdefault,extra")),
        project("mac", Some("notdefault,platform:darwin")),
        project("lin", Some("notdefault,platform:linux")),
    ]);
    resolve(&vec![doc]).unwrap()
}

#[test]
fn group_expressions_are_read() {
    assert_eq!(parse_group_expr("tools"), GroupExpr::Wanted(text("tools")));
    assert_eq!(parse_group_expr("-tools"), GroupExpr::Unwanted(text("tools")));
    assert_eq!(parse_group_expr("-"), GroupExpr::Unwanted(text("")));
    assert_eq!(
        parse_group_request("G1,G2 -G3"),
        vec![
            GroupExpr::Wanted(text("G1")),
            GroupExpr::Wanted(text("G2")),
            GroupExpr::Unwanted(text("G3"))
        ]
    );
    assert!(parse_group_request("").is_empty());
}

#[test]
fn platform_options_are_read() {
    let host = text("linux");
    assert_eq!(parse_platform(&text("all"), &host), Platform::Every);
    assert_eq!(parse_platform(&text("none"), &host), Platform::Neither);
    assert_eq!(parse_platform(&text("auto"), &host), Platform::Named(text("linux")));
    assert_eq!(parse_platform(&text("darwin"), &host), Platform::Named(text("darwin")));
}

#[test]
fn every_project_has_its_implied_groups() {
    let core = row("core", Some("tools"));
    assert!(is_in_group(&core, &text("all")));
    assert!(is_in_group(&core, &text("default")));
    assert!(is_in_group(&core, &text("name:core")));
    assert!(is_in_group(&core, &text("path:src/core")));
    assert!(is_in_group(&core, &text("tools")));
    assert!(!is_in_group(&core, &text("name:tools")));
    assert!(!is_in_group(&core, &text("path:core")));
    assert!(!is_in_group(&core, &text("notdefault")));
    let extra = row("extra", Some("notdefault"));
    assert!(!is_in_group(&extra, &text("default")));
    assert!(is_in_group(&extra, &text("all")));
    assert!(is_required(&core));
    assert!(!is_required(&extra));
}

#[test]
fn prefix_is_found() {
    assert!(has_prefix("platform:linux", "platform:"));
    assert!(has_prefix("platform:", "platform:"));
    assert!(!has_prefix("platform", "platform:"));
    assert!(!has_prefix("xplatform:linux", "platform:"));
    assert!(has_prefix("anything", ""));
}

#[test]
fn without_a_request_the_default_group_is_taken() {
    let set = select(&table(), &vec![], &Platform::Neither);
    assert_eq!(names(&set), vec![text("core"), text("tools")]);
}

#[test]
fn requested_groups_select_in_table_order() {
    let manifest = table();
    let set = select(&manifest, &parse_group_request("extra,tools"), &Platform::Neither);
    assert_eq!(names(&set), vec![text("tools"), text("extra")]);
    let set = select(&manifest, &parse_group_request("name:extra"), &Platform::Neither);
    assert_eq!(names(&set), vec![text("extra")]);
    let set = select(&manifest, &parse_group_request("all"), &Platform::Neither);
    assert_eq!(set.len(), 5);
}

#[test]
fn unwanted_groups_leave_projects_out() {
    let manifest = table();
    let set = select(&manifest, &parse_group_request("-tools"), &Platform::Neither);
    assert_eq!(names(&set), vec![text("core")]);
    let set = select(&manifest, &parse_group_request("all,-notdefault"), &Platform::Neither);
    assert_eq!(names(&set), vec![text("core"), text("tools")]);
    let set = select(&manifest, &parse_group_request("tools,-tools"), &Platform::Neither);
    assert!(set.is_empty());
}

#[test]
fn platform_adds_its_group() {
    let manifest = table();
    let set = select(&manifest, &vec![], &Platform::Named(text("linux")));
    assert_eq!(names(&set), vec![text("core"), text("tools"), text("lin")]);
    let set = select(&manifest, &vec![], &Platform::Every);
    assert_eq!(names(&set), vec![text("core"), text("tools"), text("mac"), text("lin")]);
    let set = select(&manifest, &parse_group_request("tools"), &Platform::Named(text("darwin")));
    assert_eq!(names(&set), vec![text("tools"), text("mac")]);
    let mac = row("mac", Some("notdefault,platform:darwin"));
    assert!(!is_selected(&mac, &vec![], &Platform::Named(text("linux"))));
    assert!(!is_selected(
        &mac,
        &parse_group_request("-platform:darwin"),
        &Platform::Named(text("darwin"))
    ));
}
