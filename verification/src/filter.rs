//! Narrowing the project table to the sync set: the projects that a list of
//! requested groups and a platform select, in table order.

use crate::manifest::views_of;
use crate::project::holds_text;
use crate::project::ProjectSpec;
use crate::project::ProjectSpecView;
use crate::resolver::ResolvedManifest;
use crate::text::chars_of;
use crate::text::concat_text;
use crate::text::split_tokens;
use crate::text::texts;
use crate::text::tokens;
use crate::text::Separator;
use vstd::prelude::*;
use vstd::string::StrSliceExecFns;
use vstd::string::StringExecFns;

verus! {

/// One requested group: wanted, or with a leading `-` unwanted.
#[derive(Debug, PartialEq, Eq)]
pub enum GroupExpr {
    /// Projects of this group are wanted.
    Wanted(String),
    /// Projects of this group are left out.
    Unwanted(String),
}

/// The view of a `GroupExpr`: its texts as characters and its lists as
/// sequences.
pub enum GroupExprView {
    Wanted(Seq<char>),
    Unwanted(Seq<char>),
}

impl View for GroupExpr {
    type V = GroupExprView;

    open spec fn view(&self) -> GroupExprView {
        match self {
            GroupExpr::Wanted(group) => GroupExprView::Wanted(group@),
            GroupExpr::Unwanted(group) => GroupExprView::Unwanted(group@),
        }
    }
}

impl Clone for GroupExpr {
    fn clone(&self) -> (copy: Self)
        ensures
            copy@ == self@,
    {
        match self {
            GroupExpr::Wanted(group) => GroupExpr::Wanted(group.clone()),
            GroupExpr::Unwanted(group) => GroupExpr::Unwanted(group.clone()),
        }
    }
}

/// What an item of a group request asks for: with a leading `-`, that the
/// group named by the rest be left out; else that the group be taken.
pub open spec fn group_expr(item: Seq<char>) -> GroupExprView {
    if item.len() > 0 && item[0] == '-' {
        GroupExprView::Unwanted(item.subrange(1, item.len() as int))
    } else {
        GroupExprView::Wanted(item)
    }
}

/// Reads one item of a group request.
pub fn parse_group_expr(item: &str) -> (expr: GroupExpr)
    ensures
        expr@ == group_expr(item@),
{
    let n = item.unicode_len();
    if n > 0 && item.get_char(0) == '-' {
        GroupExpr::Unwanted(String::from_str(item.substring_char(1, n)))
    } else {
        GroupExpr::Wanted(String::from_str(item))
    }
}

/// What a group request asks for: one expression for each of its items,
/// which commas or white space divide.
pub open spec fn group_request(text: Seq<char>) -> Seq<GroupExprView> {
    tokens(text, Separator::List).map_values(|item: Seq<char>| group_expr(item))
}

/// Reads a group request such as `G1,G2,-G3`.
pub fn parse_group_request(text: &str) -> (exprs: Vec<GroupExpr>)
    ensures
        views_of(exprs@) == group_request(text@),
{
    let items = split_tokens(text, Separator::List);
    let mut exprs: Vec<GroupExpr> = Vec::new();
    let mut i: usize = 0;
    while i < items.len()
        invariant
            i <= items.len(),
            exprs.len() == i,
            forall|j: int| 0 <= j < i ==> (#[trigger] exprs[j])@ == group_expr(items[j]@),
        decreases items.len() - i,
    {
        exprs.push(parse_group_expr(items[i].as_str()));
        i = i + 1;
    }
    proof {
        assert(views_of(exprs@) =~= texts(items@).map_values(|item: Seq<char>| group_expr(item)));
    }
    exprs
}

/// The platforms that a run selects projects for.
#[derive(Debug, PartialEq, Eq)]
pub enum Platform {
    /// Every platform.
    Every,
    /// No platform.
    Neither,
    /// The platform of this name.
    Named(String),
}

/// The view of a `Platform`: its texts as characters and its lists as
/// sequences.
pub enum PlatformView {
    Every,
    Neither,
    Named(Seq<char>),
}

impl View for Platform {
    type V = PlatformView;

    open spec fn view(&self) -> PlatformView {
        match self {
            Platform::Every => PlatformView::Every,
            Platform::Neither => PlatformView::Neither,
            Platform::Named(name) => PlatformView::Named(name@),
        }
    }
}

impl Clone for Platform {
    fn clone(&self) -> (copy: Self)
        ensures
            copy@ == self@,
    {
        match self {
            Platform::Every => Platform::Every,
            Platform::Neither => Platform::Neither,
            Platform::Named(name) => Platform::Named(name.clone()),
        }
    }
}

/// What a platform option selects: `all` every platform, `none` no
/// platform, `auto` the platform of the host, any other text the platform
/// of that name.
pub open spec fn platform_of(option: Seq<char>, host: Seq<char>) -> PlatformView {
    if option == "all"@ {
        PlatformView::Every
    } else if option == "none"@ {
        PlatformView::Neither
    } else if option == "auto"@ {
        PlatformView::Named(host)
    } else {
        PlatformView::Named(option)
    }
}

/// Reads a platform option; `host` names the platform that the run is on.
pub fn parse_platform(option: &String, host: &String) -> (platform: Platform)
    ensures
        platform@ == platform_of(option@, host@),
{
    if *option == String::from_str("all") {
        Platform::Every
    } else if *option == String::from_str("none") {
        Platform::Neither
    } else if *option == String::from_str("auto") {
        Platform::Named(host.clone())
    } else {
        Platform::Named(option.clone())
    }
}

/// Whether `text` begins with `prefix`.
pub open spec fn begins_with(text: Seq<char>, prefix: Seq<char>) -> bool {
    prefix.len() <= text.len() && text.take(prefix.len() as int) == prefix
}

/// Whether `text` begins with `prefix`.
pub fn has_prefix(text: &str, prefix: &str) -> (found: bool)
    ensures
        found == begins_with(text@, prefix@),
{
    let whole = chars_of(text);
    let head = chars_of(prefix);
    if head.len() > whole.len() {
        return false;
    }
    let mut i: usize = 0;
    while i < head.len()
        invariant
            i <= head.len() <= whole.len(),
            whole@ == text@,
            head@ == prefix@,
            forall|j: int| 0 <= j < i ==> text@[j] == prefix@[j],
        decreases head.len() - i,
    {
        if whole[i] != head[i] {
            assert(text@.take(prefix@.len() as int)[i as int] != prefix@[i as int]);
            return false;
        }
        i = i + 1;
    }
    proof {
        assert(text@.take(prefix@.len() as int) =~= prefix@);
    }
    true
}

/// Whether a project belongs to a group. A project belongs to the groups
/// declared for it, to `all`, to `name:` with its name and to `path:` with
/// its path, and to `default` unless `notdefault` is declared for it.
pub open spec fn in_group(project: ProjectSpecView, group: Seq<char>) -> bool {
    ||| project.groups.contains(group)
    ||| group == "all"@
    ||| group == "name:"@ + project.name
    ||| group == "path:"@ + project.path
    ||| (group == "default"@ && !project.groups.contains("notdefault"@))
}

/// Whether a project belongs to a group.
pub fn is_in_group(project: &ProjectSpec, group: &String) -> (found: bool)
    ensures
        found == in_group(project@, group@),
{
    if holds_text(&project.groups, group) {
        return true;
    }
    if *group == String::from_str("all") {
        return true;
    }
    if *group == concat_text("name:", project.name.as_str()) {
        return true;
    }
    if *group == concat_text("path:", project.path.as_str()) {
        return true;
    }
    *group == String::from_str("default") && !holds_text(
        &project.groups,
        &String::from_str("notdefault"),
    )
}

/// Whether a project must succeed for the run to succeed: `notdefault` is
/// not declared for it.
pub open spec fn required(project: ProjectSpecView) -> bool {
    !project.groups.contains("notdefault"@)
}

/// Whether a project must succeed for the run to succeed.
pub fn is_required(project: &ProjectSpec) -> (needed: bool)
    ensures
        needed == required(project@),
{
    !holds_text(&project.groups, &String::from_str("notdefault"))
}

/// Whether the request names a group to take.
pub open spec fn asks_for_some(exprs: Seq<GroupExprView>) -> bool {
    exists|i: int| 0 <= i < exprs.len() && #[trigger] exprs[i] is Wanted
}

/// Whether the project belongs to a group that the request takes.
pub open spec fn in_wanted(project: ProjectSpecView, exprs: Seq<GroupExprView>) -> bool {
    exists|i: int|
        0 <= i < exprs.len() && #[trigger] exprs[i] is Wanted && in_group(
            project,
            exprs[i]->Wanted_0,
        )
}

/// Whether the project belongs to a group that the request leaves out.
pub open spec fn in_unwanted(project: ProjectSpecView, exprs: Seq<GroupExprView>) -> bool {
    exists|i: int|
        0 <= i < exprs.len() && #[trigger] exprs[i] is Unwanted && in_group(
            project,
            exprs[i]->Unwanted_0,
        )
}

/// Whether the project belongs to the group of a selected platform: the
/// group `platform:` with the platform's name, or with any name where every
/// platform is selected.
pub open spec fn on_platform(project: ProjectSpecView, platform: PlatformView) -> bool {
    match platform {
        PlatformView::Every => exists|i: int|
            0 <= i < project.groups.len() && begins_with(
                #[trigger] project.groups[i],
                "platform:"@,
            ),
        PlatformView::Neither => false,
        PlatformView::Named(name) => in_group(project, "platform:"@ + name),
    }
}

/// Whether a project is selected. It is when it belongs to a group that
/// the request takes, or to `default` where the request takes none, or to
/// the group of a selected platform; and belongs to no group that the
/// request leaves out.
pub open spec fn selected(
    project: ProjectSpecView,
    exprs: Seq<GroupExprView>,
    platform: PlatformView,
) -> bool {
    let by_group = if asks_for_some(exprs) {
        in_wanted(project, exprs)
    } else {
        in_group(project, "default"@)
    };
    (by_group || on_platform(project, platform)) && !in_unwanted(project, exprs)
}

/// Whether the request names a group to take.
fn any_wanted(exprs: &Vec<GroupExpr>) -> (found: bool)
    ensures
        found == asks_for_some(views_of(exprs@)),
{
    let mut i: usize = 0;
    while i < exprs.len()
        invariant
            i <= exprs.len(),
            forall|j: int| 0 <= j < i ==> !(#[trigger] views_of(exprs@)[j] is Wanted),
        decreases exprs.len() - i,
    {
        match &exprs[i] {
            GroupExpr::Wanted(_) => {
                assert(views_of(exprs@)[i as int] is Wanted);
                return true;
            },
            GroupExpr::Unwanted(_) => {},
        }
        i = i + 1;
    }
    false
}

/// Whether the project belongs to a group that the request takes, and
/// whether it belongs to one that the request leaves out.
fn group_matches(project: &ProjectSpec, exprs: &Vec<GroupExpr>) -> (found: (bool, bool))
    ensures
        found.0 == in_wanted(project@, views_of(exprs@)),
        found.1 == in_unwanted(project@, views_of(exprs@)),
{
    let mut wanted = false;
    let mut unwanted = false;
    let mut i: usize = 0;
    while i < exprs.len()
        invariant
            i <= exprs.len(),
            wanted == (exists|j: int|
                0 <= j < i && #[trigger] views_of(exprs@)[j] is Wanted && in_group(
                    project@,
                    views_of(exprs@)[j]->Wanted_0,
                )),
            unwanted == (exists|j: int|
                0 <= j < i && #[trigger] views_of(exprs@)[j] is Unwanted && in_group(
                    project@,
                    views_of(exprs@)[j]->Unwanted_0,
                )),
        decreases exprs.len() - i,
    {
        let ghost at = views_of(exprs@)[i as int];
        match &exprs[i] {
            GroupExpr::Wanted(group) => {
                if is_in_group(project, group) {
                    wanted = true;
                }
            },
            GroupExpr::Unwanted(group) => {
                if is_in_group(project, group) {
                    unwanted = true;
                }
            },
        }
        i = i + 1;
    }
    (wanted, unwanted)
}

/// Whether the project belongs to the group of a selected platform.
fn platform_matches(project: &ProjectSpec, platform: &Platform) -> (found: bool)
    ensures
        found == on_platform(project@, platform@),
{
    match platform {
        Platform::Every => {
            let mut i: usize = 0;
            while i < project.groups.len()
                invariant
                    i <= project.groups.len(),
                    platform@ == PlatformView::Every,
                    forall|j: int|
                        0 <= j < i ==> !begins_with(#[trigger] project@.groups[j], "platform:"@),
                decreases project.groups.len() - i,
            {
                if has_prefix(project.groups[i].as_str(), "platform:") {
                    proof {
                        let groups = project@.groups;
                        assert(groups.len() == project.groups.len());
                        assert(groups[i as int] == project.groups[i as int]@);
                        assert(0 <= i < groups.len() && begins_with(
                            #[trigger] groups[i as int],
                            "platform:"@,
                        ));
                    }
                    return true;
                }
                i = i + 1;
            }
            false
        },
        Platform::Neither => false,
        Platform::Named(name) => {
            let group = concat_text("platform:", name.as_str());
            is_in_group(project, &group)
        },
    }
}

/// Whether a project is selected by a group request and a platform.
pub fn is_selected(project: &ProjectSpec, exprs: &Vec<GroupExpr>, platform: &Platform) -> (chosen:
    bool)
    ensures
        chosen == selected(project@, views_of(exprs@), platform@),
{
    let (wanted, unwanted) = group_matches(project, exprs);
    if unwanted {
        return false;
    }
    let by_group = if any_wanted(exprs) {
        wanted
    } else {
        is_in_group(project, &String::from_str("default"))
    };
    by_group || platform_matches(project, platform)
}

/// The selected rows of a table, in their order.
pub open spec fn sync_set(
    rows: Seq<ProjectSpecView>,
    exprs: Seq<GroupExprView>,
    platform: PlatformView,
) -> Seq<ProjectSpecView>
    decreases rows.len(),
{
    if rows.len() == 0 {
        Seq::empty()
    } else if selected(rows.last(), exprs, platform) {
        sync_set(rows.drop_last(), exprs, platform).push(rows.last())
    } else {
        sync_set(rows.drop_last(), exprs, platform)
    }
}

/// The sync set is the selection: it holds selected rows of the table
/// only, and every selected row of the table; and no path stands twice in
/// it where none does in the table.
pub proof fn law_sync_set_is_the_selection(
    rows: Seq<ProjectSpecView>,
    exprs: Seq<GroupExprView>,
    platform: PlatformView,
)
    ensures
        sync_set(rows, exprs, platform).len() <= rows.len(),
        forall|j: int|
            0 <= j < sync_set(rows, exprs, platform).len() ==> selected(
                #[trigger] sync_set(rows, exprs, platform)[j],
                exprs,
                platform,
            ) && rows.contains(sync_set(rows, exprs, platform)[j]),
        forall|i: int|
            0 <= i < rows.len() && selected(#[trigger] rows[i], exprs, platform) ==> sync_set(
                rows,
                exprs,
                platform,
            ).contains(rows[i]),
        crate::table::distinct(rows) ==> crate::table::distinct(sync_set(rows, exprs, platform)),
    decreases rows.len(),
{
    let set = sync_set(rows, exprs, platform);
    if rows.len() > 0 {
        let shorter = rows.drop_last();
        let before = sync_set(shorter, exprs, platform);
        law_sync_set_is_the_selection(shorter, exprs, platform);
        assert forall|j: int| 0 <= j < set.len() implies selected(#[trigger] set[j], exprs, platform)
            && rows.contains(set[j]) by {
            if j < before.len() {
                assert(set[j] == before[j]);
                assert(shorter.contains(before[j]));
                let i = choose|i: int| 0 <= i < shorter.len() && shorter[i] == before[j];
                assert(rows[i] == set[j]);
            } else {
                assert(set[j] == rows[rows.len() - 1]);
            }
        }
        assert forall|i: int| 0 <= i < rows.len() && selected(
            #[trigger] rows[i],
            exprs,
            platform,
        ) implies set.contains(rows[i]) by {
            if i < shorter.len() {
                assert(shorter[i] == rows[i]);
                assert(before.contains(shorter[i]));
                let j = choose|j: int| 0 <= j < before.len() && before[j] == shorter[i];
                assert(set[j] == rows[i]);
            } else {
                assert(set[set.len() - 1] == rows[i]);
            }
        }
        if crate::table::distinct(rows) {
            assert forall|i: int, j: int| 0 <= i < j < shorter.len() implies crate::table::Keyed::key(
                #[trigger] shorter[i],
            ) != crate::table::Keyed::key(#[trigger] shorter[j]) by {
                assert(crate::table::Keyed::key(rows[i]) != crate::table::Keyed::key(rows[j]));
            }
            assert forall|i: int, j: int| 0 <= i < j < set.len() implies crate::table::Keyed::key(
                #[trigger] set[i],
            ) != crate::table::Keyed::key(#[trigger] set[j]) by {
                if j < before.len() {
                    assert(crate::table::Keyed::key(before[i]) != crate::table::Keyed::key(
                        before[j],
                    ));
                } else {
                    assert(set[i] == before[i]);
                    assert(shorter.contains(before[i]));
                    let k = choose|k: int| 0 <= k < shorter.len() && shorter[k] == before[i];
                    assert(crate::table::Keyed::key(rows[k]) != crate::table::Keyed::key(
                        rows[rows.len() - 1],
                    ));
                }
            }
        }
    }
}

/// The sync set of a resolved manifest: copies of the projects that the
/// request and the platform select, in table order.
pub fn select(manifest: &ResolvedManifest, exprs: &Vec<GroupExpr>, platform: &Platform) -> (set:
    Vec<ProjectSpec>)
    ensures
        views_of(set@) == sync_set(manifest@.projects, views_of(exprs@), platform@),
{
    let rows = manifest.projects();
    let mut set: Vec<ProjectSpec> = Vec::new();
    let mut i: usize = 0;
    proof {
        assert(views_of(rows@).take(0) =~= Seq::<ProjectSpecView>::empty());
        assert(views_of(set@) =~= Seq::<ProjectSpecView>::empty());
    }
    while i < rows.len()
        invariant
            i <= rows.len(),
            views_of(set@) == sync_set(
                views_of(rows@).take(i as int),
                views_of(exprs@),
                platform@,
            ),
        decreases rows.len() - i,
    {
        let ghost kept = views_of(set@);
        proof {
            assert(views_of(rows@).take(i + 1).drop_last() =~= views_of(rows@).take(i as int));
            assert(views_of(rows@).take(i + 1).last() == rows[i as int]@);
        }
        if is_selected(&rows[i], exprs, platform) {
            set.push(rows[i].clone());
            proof {
                assert(views_of(set@) =~= kept.push(rows[i as int]@));
            }
        }
        i = i + 1;
    }
    proof {
        assert(views_of(rows@).take(rows.len() as int) =~= views_of(rows@));
    }
    set
}

} // verus!
