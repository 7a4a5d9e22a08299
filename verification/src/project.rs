//! The flattened project record: one row of the project table. A project
//! element and the projects nested in it become one row each, the nested
//! ones with the name and path of their parent in front of their own and
//! with the attributes they do not set taken from it.

use crate::manifest::text_of;
use crate::manifest::views_of;
use crate::manifest::Annotation;
use crate::manifest::AnnotationView;
use crate::manifest::Copyfile;
use crate::manifest::FilePairView;
use crate::manifest::LinkFile;
use crate::manifest::Project;
use crate::manifest::ProjectView;
use crate::text::concat_text;
use crate::text::split_tokens;
use crate::text::texts;
use crate::text::tokens;
use crate::text::Separator;
use vstd::prelude::*;

verus! {

/// One row of the project table.
#[derive(Debug, PartialEq, Eq)]
pub struct ProjectSpec {
    /// The name, with the names of the enclosing projects in front.
    pub name: String,
    /// The path, with the paths of the enclosing projects in front: the key
    /// of the row.
    pub path: String,
    pub remote: Option<String>,
    pub revision: Option<String>,
    pub dest_branch: Option<String>,
    /// The groups that were declared for the project, each once.
    pub groups: Vec<String>,
    pub sync_c: Option<String>,
    pub sync_s: Option<String>,
    pub sync_tags: Option<String>,
    pub upstream: Option<String>,
    pub clone_depth: Option<String>,
    pub force_path: Option<String>,
    pub annotations: Vec<Annotation>,
    pub copyfiles: Vec<Copyfile>,
    pub linkfiles: Vec<LinkFile>,
}

/// The view of a `ProjectSpec`: its texts as characters and its lists as
/// sequences.
pub struct ProjectSpecView {
    pub name: Seq<char>,
    pub path: Seq<char>,
    pub remote: Option<Seq<char>>,
    pub revision: Option<Seq<char>>,
    pub dest_branch: Option<Seq<char>>,
    pub groups: Seq<Seq<char>>,
    pub sync_c: Option<Seq<char>>,
    pub sync_s: Option<Seq<char>>,
    pub sync_tags: Option<Seq<char>>,
    pub upstream: Option<Seq<char>>,
    pub clone_depth: Option<Seq<char>>,
    pub force_path: Option<Seq<char>>,
    pub annotations: Seq<AnnotationView>,
    pub copyfiles: Seq<FilePairView>,
    pub linkfiles: Seq<FilePairView>,
}

impl View for ProjectSpec {
    type V = ProjectSpecView;

    open spec fn view(&self) -> ProjectSpecView {
        ProjectSpecView {
            name: self.name@,
            path: self.path@,
            remote: text_of(self.remote),
            revision: text_of(self.revision),
            dest_branch: text_of(self.dest_branch),
            groups: texts(self.groups@),
            sync_c: text_of(self.sync_c),
            sync_s: text_of(self.sync_s),
            sync_tags: text_of(self.sync_tags),
            upstream: text_of(self.upstream),
            clone_depth: text_of(self.clone_depth),
            force_path: text_of(self.force_path),
            annotations: views_of(self.annotations@),
            copyfiles: views_of(self.copyfiles@),
            linkfiles: views_of(self.linkfiles@),
        }
    }
}

impl Clone for ProjectSpec {
    fn clone(&self) -> (copy: Self)
        ensures
            copy@ == self@,
    {
        let copy = ProjectSpec {
            name: self.name.clone(),
            path: self.path.clone(),
            remote: self.remote.clone(),
            revision: self.revision.clone(),
            dest_branch: self.dest_branch.clone(),
            groups: self.groups.clone(),
            sync_c: self.sync_c.clone(),
            sync_s: self.sync_s.clone(),
            sync_tags: self.sync_tags.clone(),
            upstream: self.upstream.clone(),
            clone_depth: self.clone_depth.clone(),
            force_path: self.force_path.clone(),
            annotations: self.annotations.clone(),
            copyfiles: self.copyfiles.clone(),
            linkfiles: self.linkfiles.clone(),
        };
        proof {
            assert(copy@.groups =~= self@.groups);
            assert(copy@.annotations =~= self@.annotations);
            assert(copy@.copyfiles =~= self@.copyfiles);
            assert(copy@.linkfiles =~= self@.linkfiles);
        }
        copy
    }
}

/// `own` where it is set, else `fallback`.
pub open spec fn or_else(own: Option<Seq<char>>, fallback: Option<Seq<char>>) -> Option<
    Seq<char>,
> {
    if own is Some {
        own
    } else {
        fallback
    }
}

/// A copy of `own` where it is set, else of `fallback`.
pub fn inherit(own: &Option<String>, fallback: &Option<String>) -> (chosen: Option<String>)
    ensures
        text_of(chosen) == or_else(text_of(*own), text_of(*fallback)),
{
    match own {
        Some(_) => own.clone(),
        None => fallback.clone(),
    }
}

/// `have`, followed by those of `more` that it does not hold yet, each once
/// and in their order.
pub open spec fn add_groups(have: Seq<Seq<char>>, more: Seq<Seq<char>>) -> Seq<Seq<char>>
    decreases more.len(),
{
    if more.len() == 0 {
        have
    } else {
        let sofar = add_groups(have, more.drop_last());
        if sofar.contains(more.last()) {
            sofar
        } else {
            sofar.push(more.last())
        }
    }
}

/// Adding groups keeps those that were there, in their places, and the
/// result holds a group exactly if `have` or `more` holds it.
pub proof fn lemma_add_groups(have: Seq<Seq<char>>, more: Seq<Seq<char>>)
    ensures
        have.len() <= add_groups(have, more).len(),
        add_groups(have, more).take(have.len() as int) == have,
        forall|g: Seq<char>|
            add_groups(have, more).contains(g) <==> have.contains(g) || more.contains(g),
        have.no_duplicates() ==> add_groups(have, more).no_duplicates(),
    decreases more.len(),
{
    if more.len() == 0 {
        assert(have.take(have.len() as int) =~= have);
    } else {
        let shorter = more.drop_last();
        let sofar = add_groups(have, shorter);
        let last = more.last();
        lemma_add_groups(have, shorter);
        let all = add_groups(have, more);
        assert(all.take(have.len() as int) =~= sofar.take(have.len() as int));
        assert forall|g: Seq<char>| all.contains(g) <==> have.contains(g) || more.contains(
            g,
        ) by {
            if more.contains(g) {
                let i = choose|i: int| 0 <= i < more.len() && more[i] == g;
                if i < shorter.len() {
                    assert(shorter[i] == g);
                    assert(shorter.contains(g));
                } else {
                    assert(g == last);
                }
            }
            if shorter.contains(g) {
                let i = choose|i: int| 0 <= i < shorter.len() && shorter[i] == g;
                assert(more[i] == g);
            }
            assert(more[more.len() - 1] == last);
            if !sofar.contains(last) {
                assert(all == sofar.push(last));
                assert(all[all.len() - 1] == last);
                if sofar.contains(g) {
                    let i = choose|i: int| 0 <= i < sofar.len() && sofar[i] == g;
                    assert(all[i] == g);
                }
                if all.contains(g) {
                    let i = choose|i: int| 0 <= i < all.len() && all[i] == g;
                    if i < sofar.len() {
                        assert(sofar[i] == g);
                    }
                }
            }
        }
    }
}

/// Whether `list` holds `text`.
pub fn holds_text(list: &Vec<String>, text: &String) -> (found: bool)
    ensures
        found == texts(list@).contains(text@),
{
    let mut i: usize = 0;
    while i < list.len()
        invariant
            i <= list.len(),
            forall|j: int| 0 <= j < i ==> texts(list@)[j] != text@,
        decreases list.len() - i,
    {
        if list[i] == *text {
            assert(texts(list@)[i as int] == text@);
            return true;
        }
        i = i + 1;
    }
    false
}

/// Appends to `have` those of `more` that it does not hold yet.
pub fn add_to_groups(have: &mut Vec<String>, more: &Vec<String>)
    ensures
        texts(final(have)@) == add_groups(texts(old(have)@), texts(more@)),
{
    let mut i: usize = 0;
    proof {
        assert(texts(more@).take(0) =~= Seq::<Seq<char>>::empty());
    }
    while i < more.len()
        invariant
            i <= more.len(),
            texts(have@) == add_groups(texts(old(have)@), texts(more@).take(i as int)),
        decreases more.len() - i,
    {
        let ghost sofar = texts(have@);
        proof {
            assert(texts(more@).take(i + 1).drop_last() =~= texts(more@).take(i as int));
            assert(texts(more@).take(i + 1).last() == more[i as int]@);
        }
        if !holds_text(have, &more[i]) {
            have.push(more[i].clone());
            proof {
                assert(texts(have@) =~= sofar.push(more[i as int]@));
            }
        }
        i = i + 1;
    }
    proof {
        assert(texts(more@).take(more.len() as int) =~= texts(more@));
    }
}

/// The groups that a groups attribute declares: its items, each once, in
/// the order in which they first stand. No attribute declares none.
pub open spec fn declared_groups(attribute: Option<Seq<char>>) -> Seq<Seq<char>> {
    match attribute {
        Some(text) => add_groups(Seq::empty(), tokens(text, Separator::List)),
        None => Seq::empty(),
    }
}

/// Reads a groups attribute.
pub fn parse_groups(attribute: &Option<String>) -> (groups: Vec<String>)
    ensures
        texts(groups@) == declared_groups(text_of(*attribute)),
{
    let mut groups: Vec<String> = Vec::new();
    proof {
        assert(texts(groups@) =~= Seq::<Seq<char>>::empty());
    }
    match attribute {
        Some(text) => {
            let items = split_tokens(text.as_str(), Separator::List);
            add_to_groups(&mut groups, &items);
        },
        None => {},
    }
    groups
}

/// `below` under `above`: the two with a slash between them.
pub open spec fn nested_text(above: Seq<char>, below: Seq<char>) -> Seq<char> {
    above + seq!['/'] + below
}

/// The row of a project element. `parent` is the row of the project that
/// the element is nested in, if it is nested.
pub open spec fn row_of(project: ProjectView, parent: Option<ProjectSpecView>) -> ProjectSpecView {
    let path = match project.path {
        Some(p) => p,
        None => project.name,
    };
    match parent {
        None => ProjectSpecView {
            name: project.name,
            path: path,
            remote: project.remote,
            revision: project.revision,
            dest_branch: project.dest_branch,
            groups: declared_groups(project.groups),
            sync_c: project.sync_c,
            sync_s: project.sync_s,
            sync_tags: project.sync_tags,
            upstream: project.upstream,
            clone_depth: project.clone_depth,
            force_path: project.force_path,
            annotations: project.annotations,
            copyfiles: project.copyfiles,
            linkfiles: project.linkfiles,
        },
        Some(up) => ProjectSpecView {
            name: nested_text(up.name, project.name),
            path: nested_text(up.path, path),
            remote: or_else(project.remote, up.remote),
            revision: or_else(project.revision, up.revision),
            dest_branch: or_else(project.dest_branch, up.dest_branch),
            groups: if project.groups is Some {
                declared_groups(project.groups)
            } else {
                up.groups
            },
            sync_c: or_else(project.sync_c, up.sync_c),
            sync_s: or_else(project.sync_s, up.sync_s),
            sync_tags: or_else(project.sync_tags, up.sync_tags),
            upstream: or_else(project.upstream, up.upstream),
            clone_depth: or_else(project.clone_depth, up.clone_depth),
            force_path: or_else(project.force_path, up.force_path),
            annotations: project.annotations,
            copyfiles: project.copyfiles,
            linkfiles: project.linkfiles,
        },
    }
}

/// The rows of a project element: its own, then those of the projects
/// nested in it, in their order.
pub open spec fn flatten(project: ProjectView, parent: Option<ProjectSpecView>) -> Seq<
    ProjectSpecView,
>
    decreases project, 1nat,
{
    let own = row_of(project, parent);
    seq![own] + flatten_list(project.children, Some(own))
}

/// The rows of a list of project elements that share a parent.
pub open spec fn flatten_list(list: Seq<ProjectView>, parent: Option<ProjectSpecView>) -> Seq<
    ProjectSpecView,
>
    decreases list, 0nat,
{
    if list.len() == 0 {
        Seq::empty()
    } else {
        flatten_list(list.drop_last(), parent) + flatten(list.last(), parent)
    }
}

/// The view of an optional reference to a row.
pub open spec fn parent_view(parent: Option<&ProjectSpec>) -> Option<ProjectSpecView> {
    match parent {
        Some(up) => Some(up@),
        None => None,
    }
}

/// `below` under `above`.
fn nest(above: &String, below: &String) -> (whole: String)
    ensures
        whole@ == nested_text(above@, below@),
{
    proof {
        reveal_strlit("/");
    }
    let mut whole = concat_text(above.as_str(), "/");
    assert(whole@ =~= above@ + seq!['/']);
    whole.append(below.as_str());
    whole
}

/// Builds the row of a project element.
pub fn make_row(project: &Project, parent: Option<&ProjectSpec>) -> (own: ProjectSpec)
    ensures
        own@ == row_of(project@, parent_view(parent)),
{
    let path = match &project.path {
        Some(p) => p.clone(),
        None => project.name.clone(),
    };
    let annotations = match &project.annotation {
        Some(list) => list.clone(),
        None => Vec::new(),
    };
    let copyfiles = match &project.copyfile {
        Some(list) => list.clone(),
        None => Vec::new(),
    };
    let linkfiles = match &project.linkfile {
        Some(list) => list.clone(),
        None => Vec::new(),
    };
    proof {
        assert(views_of(annotations@) =~= project@.annotations);
        assert(views_of(copyfiles@) =~= project@.copyfiles);
        assert(views_of(linkfiles@) =~= project@.linkfiles);
    }
    match parent {
        None => ProjectSpec {
            name: project.name.clone(),
            path: path,
            remote: project.remote.clone(),
            revision: project.revision.clone(),
            dest_branch: project.dest_branch.clone(),
            groups: parse_groups(&project.groups),
            sync_c: project.sync_c.clone(),
            sync_s: project.sync_s.clone(),
            sync_tags: project.sync_tags.clone(),
            upstream: project.upstream.clone(),
            clone_depth: project.clone_depth.clone(),
            force_path: project.force_path.clone(),
            annotations: annotations,
            copyfiles: copyfiles,
            linkfiles: linkfiles,
        },
        Some(up) => {
            let groups = match &project.groups {
                Some(_) => parse_groups(&project.groups),
                None => {
                    let inherited = up.groups.clone();
                    assert(texts(inherited@) =~= texts(up.groups@));
                    inherited
                },
            };
            ProjectSpec {
                name: nest(&up.name, &project.name),
                path: nest(&up.path, &path),
                remote: inherit(&project.remote, &up.remote),
                revision: inherit(&project.revision, &up.revision),
                dest_branch: inherit(&project.dest_branch, &up.dest_branch),
                groups: groups,
                sync_c: inherit(&project.sync_c, &up.sync_c),
                sync_s: inherit(&project.sync_s, &up.sync_s),
                sync_tags: inherit(&project.sync_tags, &up.sync_tags),
                upstream: inherit(&project.upstream, &up.upstream),
                clone_depth: inherit(&project.clone_depth, &up.clone_depth),
                force_path: inherit(&project.force_path, &up.force_path),
                annotations: annotations,
                copyfiles: copyfiles,
                linkfiles: linkfiles,
            }
        },
    }
}

/// Appends the rows of the elements of `list`, which share `parent`.
pub fn flatten_list_into(list: &Vec<Project>, parent: Option<&ProjectSpec>, rows: &mut Vec<ProjectSpec>)
    ensures
        views_of(final(rows)@) == views_of(old(rows)@) + flatten_list(
            views_of(list@),
            parent_view(parent),
        ),
    decreases list, 0nat,
{
    let mut i: usize = 0;
    proof {
        assert(views_of(list@).take(0) =~= Seq::<ProjectView>::empty());
        assert(views_of(rows@) + Seq::<ProjectSpecView>::empty() =~= views_of(rows@));
    }
    while i < list.len()
        invariant
            i <= list.len(),
            views_of(rows@) == views_of(old(rows)@) + flatten_list(
                views_of(list@).take(i as int),
                parent_view(parent),
            ),
        decreases list.len() - i,
    {
        let ghost before = flatten_list(views_of(list@).take(i as int), parent_view(parent));
        proof {
            vstd::std_specs::vec::axiom_vec_index_decreases(*list, i as int);
            assert(views_of(list@).take(i + 1).drop_last() =~= views_of(list@).take(i as int));
            assert(views_of(list@).take(i + 1).last() == list[i as int]@);
        }
        flatten_into(&list[i], parent, rows);
        proof {
            let added = flatten(list[i as int]@, parent_view(parent));
            assert(views_of(old(rows)@) + before + added =~= views_of(old(rows)@) + (before
                + added));
        }
        i = i + 1;
    }
    proof {
        assert(views_of(list@).take(list.len() as int) =~= views_of(list@));
    }
}

/// Appends the rows of `project`: its own, then those of the projects
/// nested in it.
pub fn flatten_into(project: &Project, parent: Option<&ProjectSpec>, rows: &mut Vec<ProjectSpec>)
    ensures
        views_of(final(rows)@) == views_of(old(rows)@) + flatten(project@, parent_view(parent)),
    decreases project, 1nat,
{
    let own = make_row(project, parent);
    let kept = own.clone();
    rows.push(own);
    proof {
        assert(views_of(rows@) =~= views_of(old(rows)@) + seq![kept@]);
    }
    match &project.project {
        Some(children) => {
            proof {
                assert(views_of(children@) =~= project@.children);
            }
            flatten_list_into(children, Some(&kept), rows);
            proof {
                let below = flatten_list(project@.children, Some(kept@));
                assert(views_of(old(rows)@) + seq![kept@] + below =~= views_of(old(rows)@) + (
                seq![kept@] + below));
            }
        },
        None => {
            proof {
                assert(project@.children =~= Seq::<ProjectView>::empty());
                assert(seq![kept@] + Seq::<ProjectSpecView>::empty() =~= seq![kept@]);
            }
        },
    }
}

} // verus!
