//! The options of the commands, as plain values, and what they say about a
//! run: which groups and which platform select the projects, how deep the
//! clones are, and which projects a sync is narrowed to.

use crate::filter::group_request;
use crate::filter::parse_group_request;
use crate::filter::parse_platform;
use crate::filter::platform_of;
use crate::filter::GroupExpr;
use crate::filter::GroupExprView;
use crate::filter::Platform;
use crate::filter::PlatformView;
use crate::manifest::items_of;
use crate::manifest::views_of;
use crate::project::holds_text;
use crate::project::ProjectSpec;
use crate::project::ProjectSpecView;
use crate::text::decimal_text;
use crate::text::decimal_text_of;
use crate::text::decimal_value;
use crate::text::fields;
use crate::text::is_decimal;
use crate::text::is_digit;
use crate::text::lemma_decimal_text_reads_back;
use crate::text::lemma_fields_after_separator;
use crate::text::lemma_fields_of_joined;
use crate::text::lemma_fields_of_one;
use crate::text::lemma_joined_is_undivided;
use crate::text::lemma_nonempty_keeps_all;
use crate::text::nonempty;
use crate::text::undivided;
use crate::text::join;
use crate::text::joined;
use crate::text::parse_decimal;
use crate::text::split_fields;
use crate::text::split_tokens;
use crate::text::texts;
use crate::text::tokens;
use crate::text::Separator;
use vstd::string::StringExecFns;
use vstd::prelude::*;

verus! {

/// The options of the command that initialises a workspace.
#[derive(Debug, PartialEq, Eq)]
pub struct InitArgs {
    /// Show all output.
    pub verbose: bool,
    /// Show little output.
    pub quiet: bool,
    /// Where the manifest repository is.
    pub manifest_url: String,
    /// The branch or revision of the manifest repository.
    pub manifest_branch: String,
    /// The first manifest file.
    pub manifest_path: String,
    /// The groups that select the projects: `default`, `all`, or lists
    /// such as `G1,G2,-G3`.
    pub groups: Option<Vec<String>>,
    /// The platform that selects the projects: `auto`, `all`, `none` or a
    /// name such as `linux`.
    pub platform: Option<Vec<String>>,
    pub submodules: bool,
    pub standalone_manifest: bool,
    /// The depth of a shallow clone of the manifest repository; 0 for a
    /// full clone.
    pub manifest_depth: usize,
    pub current_branch: bool,
    pub no_current_branch: Option<bool>,
    pub tags: Option<bool>,
    pub no_tags: Option<bool>,
    pub mirror: Option<bool>,
    pub archive: Option<bool>,
    pub worktree: Option<bool>,
    pub reference: Option<String>,
    pub dissociate: Option<bool>,
    /// The depth of the shallow clones of the projects.
    pub depth: Option<usize>,
    pub partial_clone: Option<bool>,
    pub no_partial_clone: Option<bool>,
    pub partial_clone_exclude: Option<String>,
    pub clone_filter: Option<String>,
    pub use_superproject: Option<bool>,
    pub no_use_superproject: Option<bool>,
    pub clone_bundle: Option<bool>,
    pub no_clone_bundle: Option<bool>,
    pub git_lfs: Option<bool>,
    pub no_git_lfs: Option<bool>,
    pub repo_url: Option<String>,
    pub repo_rev: Option<String>,
    pub no_repo_verify: Option<bool>,
    pub config_name: Option<bool>,
    pub outer_manifest: Option<bool>,
    pub no_outer_manifest: Option<bool>,
    pub this_manifest_only: Option<bool>,
    pub no_this_manifest_only: Option<bool>,
    pub all_manifests: Option<bool>,
}

/// What a list of group requests asks for: what each of them asks for, in
/// a row.
pub open spec fn group_requests(list: Seq<Seq<char>>) -> Seq<GroupExprView>
    decreases list.len(),
{
    if list.len() == 0 {
        Seq::empty()
    } else {
        group_requests(list.drop_last()) + group_request(list.last())
    }
}

/// The platform that a list of platform options selects: that of the last
/// option, and that of the host where there is no option.
pub open spec fn platform_choice(options: Seq<Seq<char>>, host: Seq<char>) -> PlatformView {
    if options.len() == 0 {
        PlatformView::Named(host)
    } else {
        platform_of(options.last(), host)
    }
}

/// The depth of the clone of a project: the depth that the manifest gives
/// for the project, else the depth asked for where that is not zero, else
/// none, which stands for a full clone.
pub open spec fn shallow_depth(own: Option<u64>, asked: Option<usize>) -> Option<u64> {
    if own is Some {
        own
    } else if asked is Some && asked->0 > 0 {
        Some(asked->0 as u64)
    } else {
        None
    }
}

/// What a run needs to know of the options: kept in the workspace by the
/// command that initialises it, for the commands that follow.
#[derive(Debug, PartialEq, Eq)]
pub struct RunConfig {
    /// The first manifest file.
    pub manifest_path: String,
    /// The group requests, as they were given.
    pub groups: Vec<String>,
    /// The platform options, as they were given.
    pub platform: Vec<String>,
    /// The depth of the shallow clones of the projects.
    pub depth: Option<usize>,
}

/// The view of a `RunConfig`: its texts as characters and its lists as
/// sequences.
pub struct RunConfigView {
    pub manifest_path: Seq<char>,
    pub groups: Seq<Seq<char>>,
    pub platform: Seq<Seq<char>>,
    pub depth: Option<usize>,
}

impl View for RunConfig {
    type V = RunConfigView;

    open spec fn view(&self) -> RunConfigView {
        RunConfigView {
            manifest_path: self.manifest_path@,
            groups: texts(self.groups@),
            platform: texts(self.platform@),
            depth: self.depth,
        }
    }
}

impl Clone for RunConfig {
    fn clone(&self) -> (copy: Self)
        ensures
            copy@ == self@,
    {
        let copy = RunConfig {
            manifest_path: self.manifest_path.clone(),
            groups: self.groups.clone(),
            platform: self.platform.clone(),
            depth: self.depth,
        };
        proof {
            assert(copy@.groups =~= self@.groups);
            assert(copy@.platform =~= self@.platform);
        }
        copy
    }
}

/// What the options of the initialising command say about the runs.
pub open spec fn config_of(args: InitArgs) -> RunConfigView {
    RunConfigView {
        manifest_path: args.manifest_path@,
        groups: texts(items_of(args.groups)),
        platform: texts(items_of(args.platform)),
        depth: args.depth,
    }
}

impl InitArgs {
    /// What the options say about the runs.
    pub fn config(&self) -> (config: RunConfig)
        ensures
            config@ == config_of(*self),
    {
        let groups = match &self.groups {
            Some(list) => list.clone(),
            None => Vec::new(),
        };
        let platform = match &self.platform {
            Some(list) => list.clone(),
            None => Vec::new(),
        };
        let config = RunConfig {
            manifest_path: self.manifest_path.clone(),
            groups: groups,
            platform: platform,
            depth: self.depth,
        };
        proof {
            assert(config@.groups =~= config_of(*self).groups);
            assert(config@.platform =~= config_of(*self).platform);
        }
        config
    }
}

/// The line of the given number, or an empty line where the text has
/// fewer lines.
pub open spec fn line_of(lines: Seq<Seq<char>>, number: int) -> Seq<char> {
    if 0 <= number < lines.len() {
        lines[number]
    } else {
        Seq::empty()
    }
}

/// The depth that a line gives: its number where it is a decimal number
/// that fits, else none.
pub open spec fn depth_of(line: Seq<char>) -> Option<usize> {
    if is_decimal(line) && decimal_value(line) <= usize::MAX {
        Some(decimal_value(line) as usize)
    } else {
        None
    }
}

/// The text that a configuration is kept as: four lines, which hold the
/// manifest path, the group requests with commas between them, the
/// platform options with commas between them, and the depth in decimal
/// digits or nothing.
pub open spec fn rendered(config: RunConfigView) -> Seq<char> {
    let depth = match config.depth {
        Some(depth) => decimal_text_of(depth as nat),
        None => Seq::empty(),
    };
    config.manifest_path + seq!['\n'] + joined(config.groups, seq![',']) + seq!['\n'] + joined(
        config.platform,
        seq![','],
    ) + seq!['\n'] + depth + seq!['\n']
}

/// The configuration that a text gives: the manifest path is its first
/// line, the group requests are the items of its second line, the
/// platform options those of its third, and the depth is the number of its
/// fourth.
pub open spec fn parsed(text: Seq<char>) -> RunConfigView {
    let lines = fields(text, Separator::Line);
    RunConfigView {
        manifest_path: line_of(lines, 0),
        groups: tokens(line_of(lines, 1), Separator::List),
        platform: tokens(line_of(lines, 2), Separator::List),
        depth: depth_of(line_of(lines, 3)),
    }
}

/// Whether a configuration can be kept as text: the manifest path holds no
/// line feed, and every group request and every platform option holds a
/// character and neither a comma nor white space.
pub open spec fn keepable(config: RunConfigView) -> bool {
    &&& undivided(config.manifest_path, Separator::Line)
    &&& forall|i: int|
        0 <= i < config.groups.len() ==> (#[trigger] config.groups[i]).len() > 0 && undivided(
            config.groups[i],
            Separator::List,
        )
    &&& forall|i: int|
        0 <= i < config.platform.len() ==> (#[trigger] config.platform[i]).len() > 0
            && undivided(config.platform[i], Separator::List)
}

/// The items of a list that was joined with commas are the list, where
/// every item holds a character and no separator; and the joined text
/// holds no line feed.
proof fn lemma_joined_items_read_back(items: Seq<Seq<char>>)
    requires
        forall|i: int|
            0 <= i < items.len() ==> (#[trigger] items[i]).len() > 0 && undivided(
                items[i],
                Separator::List,
            ),
    ensures
        tokens(joined(items, seq![',']), Separator::List) == items,
        undivided(joined(items, seq![',']), Separator::Line),
{
    let text = joined(items, seq![',']);
    assert forall|i: int| 0 <= i < items.len() implies undivided(
        #[trigger] items[i],
        Separator::Line,
    ) by {
        let item = items[i];
        assert(undivided(item, Separator::List));
        assert forall|j: int| 0 <= j < item.len() implies !Separator::Line.divides(
            #[trigger] item[j],
        ) by {
            assert(!Separator::List.divides(item[j]));
        }
    }
    assert(undivided(seq![','], Separator::Line));
    lemma_joined_is_undivided(items, seq![','], Separator::Line);
    if items.len() == 0 {
        assert(text =~= Seq::<char>::empty());
        let only = fields(text, Separator::List);
        assert(only == seq![Seq::<char>::empty()]);
        assert(only.drop_last() =~= Seq::<Seq<char>>::empty());
        assert(nonempty(only.drop_last()) =~= Seq::<Seq<char>>::empty());
        assert(nonempty(only) =~= items);
    } else {
        assert forall|i: int| 0 <= i < items.len() implies undivided(
            #[trigger] items[i],
            Separator::List,
        ) by {}
        lemma_fields_of_joined(items, ',', Separator::List);
        assert forall|i: int| 0 <= i < items.len() implies (#[trigger] items[i]).len() > 0 by {}
        lemma_nonempty_keeps_all(items);
    }
}

/// What was kept reads back: the text of a configuration that can be kept
/// as text gives the same configuration.
pub proof fn law_kept_configuration_reads_back(config: RunConfigView)
    requires
        keepable(config),
    ensures
        parsed(rendered(config)) == config,
{
    let feed = '\n';
    let path = config.manifest_path;
    let groups = joined(config.groups, seq![',']);
    let platform = joined(config.platform, seq![',']);
    let depth = match config.depth {
        Some(depth) => decimal_text_of(depth as nat),
        None => Seq::empty(),
    };
    lemma_joined_items_read_back(config.groups);
    lemma_joined_items_read_back(config.platform);
    match config.depth {
        Some(number) => {
            lemma_decimal_text_reads_back(number as nat);
            assert forall|i: int| 0 <= i < depth.len() implies !Separator::Line.divides(
                #[trigger] depth[i],
            ) by {
                assert(is_digit(depth[i]));
            }
        },
        None => {},
    }
    let nothing = Seq::<char>::empty();
    lemma_fields_of_one(path, Separator::Line);
    lemma_fields_after_separator(path, feed, groups, Separator::Line);
    let one = path.push(feed) + groups;
    lemma_fields_after_separator(one, feed, platform, Separator::Line);
    let two = one.push(feed) + platform;
    lemma_fields_after_separator(two, feed, depth, Separator::Line);
    let three = two.push(feed) + depth;
    lemma_fields_after_separator(three, feed, nothing, Separator::Line);
    let all = three.push(feed) + nothing;
    assert(rendered(config) =~= all);
    let lines = fields(all, Separator::Line);
    assert(lines == seq![path].push(groups).push(platform).push(depth).push(nothing));
    assert(line_of(lines, 0) == path);
    assert(line_of(lines, 1) == groups);
    assert(line_of(lines, 2) == platform);
    assert(line_of(lines, 3) == depth);
    match config.depth {
        Some(number) => {
            assert(depth_of(depth) == Some(number));
        },
        None => {
            assert(!is_decimal(depth));
        },
    }
}

/// A copy of the line of the given number.
fn take_line(lines: &Vec<String>, number: usize) -> (line: String)
    ensures
        line@ == line_of(texts(lines@), number as int),
{
    if number < lines.len() {
        lines[number].clone()
    } else {
        String::new()
    }
}

impl RunConfig {
    /// Writes the configuration as text.
    pub fn render(&self) -> (text: String)
        ensures
            text@ == rendered(self@),
    {
        proof {
            reveal_strlit("\n");
            reveal_strlit(",");
            assert("\n"@ =~= seq!['\n']);
            assert(","@ =~= seq![',']);
        }
        let mut text = self.manifest_path.clone();
        text.append("\n");
        text.append(join(&self.groups, ",").as_str());
        text.append("\n");
        text.append(join(&self.platform, ",").as_str());
        text.append("\n");
        match self.depth {
            Some(depth) => {
                text.append(decimal_text(depth as u64).as_str());
            },
            None => {
                proof {
                    assert(text@ + Seq::<char>::empty() =~= text@);
                }
            },
        }
        text.append("\n");
        text
    }

    /// Reads a configuration from text.
    pub fn parse(text: &str) -> (config: RunConfig)
        ensures
            config@ == parsed(text@),
    {
        let lines = split_fields(text, Separator::Line);
        let depth = match parse_decimal(take_line(&lines, 3).as_str()) {
            Some(number) => if number <= usize::MAX as u64 {
                Some(number as usize)
            } else {
                None
            },
            None => None,
        };
        RunConfig {
            manifest_path: take_line(&lines, 0),
            groups: split_tokens(take_line(&lines, 1).as_str(), Separator::List),
            platform: split_tokens(take_line(&lines, 2).as_str(), Separator::List),
            depth: depth,
        }
    }

    /// The group expressions of the run.
    pub fn group_exprs(&self) -> (exprs: Vec<GroupExpr>)
        ensures
            views_of(exprs@) == group_requests(self@.groups),
    {
        let list = &self.groups;
        let mut exprs: Vec<GroupExpr> = Vec::new();
        let mut i: usize = 0;
        proof {
            assert(views_of(exprs@) =~= Seq::<GroupExprView>::empty());
            assert(texts(list@).take(0) =~= Seq::<Seq<char>>::empty());
        }
        while i < list.len()
            invariant
                i <= list.len(),
                views_of(exprs@) == group_requests(texts(list@).take(i as int)),
            decreases list.len() - i,
        {
            let ghost before = views_of(exprs@);
            proof {
                assert(texts(list@).take(i + 1).drop_last() =~= texts(list@).take(i as int));
                assert(texts(list@).take(i + 1).last() == list[i as int]@);
            }
            let mut more = parse_group_request(list[i].as_str());
            let ghost added = views_of(more@);
            exprs.append(&mut more);
            proof {
                assert(views_of(exprs@) =~= before + added);
            }
            i = i + 1;
        }
        proof {
            assert(texts(list@).take(list.len() as int) =~= texts(list@));
        }
        exprs
    }

    /// The platform of the run; `host` names the platform that the run is
    /// on.
    pub fn platform_for(&self, host: &String) -> (platform: Platform)
        ensures
            platform@ == platform_choice(self@.platform, host@),
    {
        if self.platform.len() > 0 {
            parse_platform(&self.platform[self.platform.len() - 1], host)
        } else {
            Platform::Named(host.clone())
        }
    }

    /// The depth of the clone of a project for which the manifest gives
    /// the depth `own`.
    pub fn depth_for(&self, own: Option<u64>) -> (depth: Option<u64>)
        ensures
            depth == shallow_depth(own, self.depth),
    {
        match own {
            Some(_) => own,
            None => match self.depth {
                Some(asked) => if asked > 0 {
                    Some(asked as u64)
                } else {
                    None
                },
                None => None,
            },
        }
    }
}

/// The options of the command that updates a workspace.
#[derive(Debug, PartialEq, Eq)]
pub struct SyncArgs {
    /// The names or paths of the projects to update; all projects of the
    /// sync set where there is none.
    pub projects: Option<Vec<String>>,
}

/// Whether a project is one of the projects that were asked for: nothing
/// was asked for, or its name or its path was.
pub open spec fn asked_for(project: ProjectSpecView, wanted: Seq<Seq<char>>) -> bool {
    wanted.len() == 0 || wanted.contains(project.name) || wanted.contains(project.path)
}

/// The projects of a sync set that were asked for, in their order.
pub open spec fn narrowed(set: Seq<ProjectSpecView>, wanted: Seq<Seq<char>>) -> Seq<
    ProjectSpecView,
>
    decreases set.len(),
{
    if set.len() == 0 {
        Seq::empty()
    } else if asked_for(set.last(), wanted) {
        narrowed(set.drop_last(), wanted).push(set.last())
    } else {
        narrowed(set.drop_last(), wanted)
    }
}

impl Clone for SyncArgs {
    fn clone(&self) -> (copy: Self)
        ensures
            texts(items_of(copy.projects)) == texts(items_of(self.projects)),
    {
        let copy = SyncArgs { projects: self.projects.clone() };
        proof {
            assert(texts(items_of(copy.projects)) =~= texts(items_of(self.projects)));
        }
        copy
    }
}

impl SyncArgs {
    /// Narrows a sync set to the projects that were asked for.
    pub fn narrow(&self, set: &Vec<ProjectSpec>) -> (kept: Vec<ProjectSpec>)
        ensures
            views_of(kept@) == narrowed(views_of(set@), texts(items_of(self.projects))),
    {
        let none: Vec<String> = Vec::new();
        let wanted = match &self.projects {
            Some(list) => list,
            None => &none,
        };
        let mut kept: Vec<ProjectSpec> = Vec::new();
        let mut i: usize = 0;
        proof {
            assert(texts(none@) =~= Seq::<Seq<char>>::empty());
            assert(views_of(set@).take(0) =~= Seq::<ProjectSpecView>::empty());
            assert(views_of(kept@) =~= Seq::<ProjectSpecView>::empty());
        }
        while i < set.len()
            invariant
                i <= set.len(),
                texts(wanted@) == texts(items_of(self.projects)),
                views_of(kept@) == narrowed(views_of(set@).take(i as int), texts(wanted@)),
            decreases set.len() - i,
        {
            let ghost before = views_of(kept@);
            proof {
                assert(views_of(set@).take(i + 1).drop_last() =~= views_of(set@).take(i as int));
                assert(views_of(set@).take(i + 1).last() == set[i as int]@);
            }
            if wanted.len() == 0 || holds_text(wanted, &set[i].name) || holds_text(
                wanted,
                &set[i].path,
            ) {
                kept.push(set[i].clone());
                proof {
                    assert(views_of(kept@) =~= before.push(set[i as int]@));
                }
            }
            i = i + 1;
        }
        proof {
            assert(views_of(set@).take(set.len() as int) =~= views_of(set@));
        }
        kept
    }
}

} // verus!
