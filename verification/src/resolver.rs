//! Merging manifest documents into one resolved manifest. The documents are
//! taken in order; each one changes the remote registry, the default record
//! and the project table that the documents before it have left.

use crate::manifest::view_of;
use crate::manifest::views_of;
use crate::manifest::Defaults;
use crate::manifest::DefaultsView;
use crate::manifest::ExtendProject;
use crate::manifest::ExtendProjectView;
use crate::manifest::Manifest;
use crate::manifest::ManifestView;
use crate::manifest::Remote;
use crate::manifest::RemoteView;
use crate::manifest::RemoveProject;
use crate::project::add_groups;
use crate::project::add_to_groups;
use crate::project::declared_groups;
use crate::project::flatten_list;
use crate::project::flatten_list_into;
use crate::project::inherit;
use crate::project::or_else;
use crate::project::parse_groups;
use crate::project::ProjectSpec;
use crate::project::ProjectSpecView;
use crate::table::distinct;
use crate::table::lemma_put_all_distinct;
use crate::table::put;
use crate::table::put_all;
use crate::table::put_project;
use crate::table::put_remote;
use crate::table::Keyed;
use vstd::prelude::*;

verus! {

/// Whether the extend-project element `change` is about `row`: the row has
/// its name and, where it gives a path, that path.
pub open spec fn addresses(change: ExtendProjectView, row: ProjectSpecView) -> bool {
    row.name == change.name && (change.path is Some ==> row.path == change.path->0)
}

/// `row` after `change`: where the change is about the row, its groups are
/// added to those of the row, and its revision and remote, where given,
/// replace those of the row; any other row stays as it is.
pub open spec fn extended(row: ProjectSpecView, change: ExtendProjectView) -> ProjectSpecView {
    if addresses(change, row) {
        ProjectSpecView {
            groups: add_groups(row.groups, declared_groups(change.groups)),
            revision: or_else(change.revision, row.revision),
            remote: or_else(change.remote, row.remote),
            ..row
        }
    } else {
        row
    }
}

/// The table after one extend-project element.
pub open spec fn extend_rows(rows: Seq<ProjectSpecView>, change: ExtendProjectView) -> Seq<
    ProjectSpecView,
> {
    rows.map_values(|row: ProjectSpecView| extended(row, change))
}

/// The table after a list of extend-project elements, in order.
pub open spec fn extend_all(rows: Seq<ProjectSpecView>, changes: Seq<ExtendProjectView>) -> Seq<
    ProjectSpecView,
>
    decreases changes.len(),
{
    if changes.len() == 0 {
        rows
    } else {
        extend_rows(extend_all(rows, changes.drop_last()), changes.last())
    }
}

/// The rows whose name is not `name`, in their order.
pub open spec fn without_name(rows: Seq<ProjectSpecView>, name: Seq<char>) -> Seq<
    ProjectSpecView,
>
    decreases rows.len(),
{
    if rows.len() == 0 {
        Seq::empty()
    } else if rows.last().name == name {
        without_name(rows.drop_last(), name)
    } else {
        without_name(rows.drop_last(), name).push(rows.last())
    }
}

/// The table after a list of remove-project elements, in order.
pub open spec fn remove_all(rows: Seq<ProjectSpecView>, names: Seq<Seq<char>>) -> Seq<
    ProjectSpecView,
>
    decreases names.len(),
{
    if names.len() == 0 {
        rows
    } else {
        without_name(remove_all(rows, names.drop_last()), names.last())
    }
}

/// Extending keeps every path in its place.
pub proof fn lemma_extend_rows(rows: Seq<ProjectSpecView>, change: ExtendProjectView)
    ensures
        extend_rows(rows, change).len() == rows.len(),
        forall|i: int|
            0 <= i < rows.len() ==> (#[trigger] extend_rows(rows, change)[i]).path == rows[i].path
                && extend_rows(rows, change)[i].name == rows[i].name,
        distinct(rows) ==> distinct(extend_rows(rows, change)),
{
    let after = extend_rows(rows, change);
    if distinct(rows) {
        assert forall|i: int, j: int| 0 <= i < j < after.len() implies (#[trigger] after[i]).key()
            != (#[trigger] after[j]).key() by {
            assert(rows[i].key() != rows[j].key());
        }
    }
}

/// Extending a table gives a table.
pub proof fn lemma_extend_all_distinct(rows: Seq<ProjectSpecView>, changes: Seq<ExtendProjectView>)
    requires
        distinct(rows),
    ensures
        distinct(extend_all(rows, changes)),
    decreases changes.len(),
{
    if changes.len() > 0 {
        lemma_extend_all_distinct(rows, changes.drop_last());
        lemma_extend_rows(extend_all(rows, changes.drop_last()), changes.last());
    }
}

/// What is left after a removal are rows of the table, none of them of
/// the removed name, and every row of another name is left.
pub proof fn lemma_without_name(rows: Seq<ProjectSpecView>, name: Seq<char>)
    ensures
        forall|j: int|
            0 <= j < without_name(rows, name).len() ==> (#[trigger] without_name(rows, name)[j]).name
                != name && rows.contains(without_name(rows, name)[j]),
        forall|i: int|
            0 <= i < rows.len() && (#[trigger] rows[i]).name != name ==> without_name(
                rows,
                name,
            ).contains(rows[i]),
        distinct(rows) ==> distinct(without_name(rows, name)),
    decreases rows.len(),
{
    let left = without_name(rows, name);
    if rows.len() > 0 {
        let shorter = rows.drop_last();
        let before = without_name(shorter, name);
        lemma_without_name(shorter, name);
        assert forall|j: int| 0 <= j < left.len() implies (#[trigger] left[j]).name != name
            && rows.contains(left[j]) by {
            if j < before.len() {
                assert(left[j] == before[j]);
                assert(shorter.contains(before[j]));
                let i = choose|i: int| 0 <= i < shorter.len() && shorter[i] == before[j];
                assert(rows[i] == left[j]);
            } else {
                assert(left[j] == rows[rows.len() - 1]);
            }
        }
        assert forall|i: int| 0 <= i < rows.len() && (#[trigger] rows[i]).name
            != name implies left.contains(rows[i]) by {
            if i < shorter.len() {
                assert(shorter[i] == rows[i]);
                assert(before.contains(shorter[i]));
                let j = choose|j: int| 0 <= j < before.len() && before[j] == shorter[i];
                assert(left[j] == rows[i]);
            } else {
                assert(left[left.len() - 1] == rows[i]);
            }
        }
        if distinct(rows) {
            assert forall|i: int, j: int| 0 <= i < j < shorter.len() implies (
            #[trigger] shorter[i]).key() != (#[trigger] shorter[j]).key() by {
                assert(rows[i].key() != rows[j].key());
            }
            assert forall|i: int, j: int| 0 <= i < j < left.len() implies (#[trigger] left[i]).key()
                != (#[trigger] left[j]).key() by {
                if j < before.len() {
                    assert(before[i].key() != before[j].key());
                } else {
                    assert(left[i] == before[i]);
                    assert(shorter.contains(before[i]));
                    let k = choose|k: int| 0 <= k < shorter.len() && shorter[k] == before[i];
                    assert(rows[k].key() != rows[rows.len() - 1].key());
                }
            }
        }
    }
}

/// Removing from a table gives a table.
pub proof fn lemma_remove_all_distinct(rows: Seq<ProjectSpecView>, names: Seq<Seq<char>>)
    requires
        distinct(rows),
    ensures
        distinct(remove_all(rows, names)),
    decreases names.len(),
{
    if names.len() > 0 {
        lemma_remove_all_distinct(rows, names.drop_last());
        lemma_without_name(remove_all(rows, names.drop_last()), names.last());
    }
}

/// What the documents merged so far have left.
pub struct MergeView {
    pub remotes: Seq<RemoteView>,
    pub default: Option<DefaultsView>,
    pub projects: Seq<ProjectSpecView>,
}

impl MergeView {
    /// Before the first document.
    pub open spec fn empty() -> MergeView {
        MergeView { remotes: Seq::empty(), default: None, projects: Seq::empty() }
    }

    /// No remote name and no project path stands twice.
    pub open spec fn wf(self) -> bool {
        distinct(self.remotes) && distinct(self.projects)
    }
}

/// What one more document makes of what the documents before it have left.
/// Its remotes are put into the registry, each replacing a remote of its
/// name. Its default record, if it declares one, replaces the record. The
/// rows of its projects are put into the table, each replacing the row at
/// its path. Then its extend-project elements change the table, and last
/// its remove-project elements delete from it.
pub open spec fn merged(state: MergeView, doc: ManifestView) -> MergeView {
    MergeView {
        remotes: put_all(state.remotes, doc.remotes),
        default: if doc.default is Some {
            doc.default
        } else {
            state.default
        },
        projects: remove_all(
            extend_all(put_all(state.projects, flatten_list(doc.projects, None)), doc.extends),
            doc.removes,
        ),
    }
}

/// What a list of documents, taken in order, makes of `state`.
pub open spec fn merged_all(state: MergeView, docs: Seq<ManifestView>) -> MergeView
    decreases docs.len(),
{
    if docs.len() == 0 {
        state
    } else {
        merged(merged_all(state, docs.drop_last()), docs.last())
    }
}

/// Merging a document keeps the registry and the project table tables.
pub proof fn lemma_merged_wf(state: MergeView, doc: ManifestView)
    requires
        state.wf(),
    ensures
        merged(state, doc).wf(),
{
    lemma_put_all_distinct(state.remotes, doc.remotes);
    let put = put_all(state.projects, flatten_list(doc.projects, None));
    lemma_put_all_distinct(state.projects, flatten_list(doc.projects, None));
    lemma_extend_all_distinct(put, doc.extends);
    lemma_remove_all_distinct(extend_all(put, doc.extends), doc.removes);
}

/// Merging documents keeps the registry and the project table tables.
pub proof fn lemma_merged_all_wf(state: MergeView, docs: Seq<ManifestView>)
    requires
        state.wf(),
    ensures
        merged_all(state, docs).wf(),
    decreases docs.len(),
{
    if docs.len() > 0 {
        lemma_merged_all_wf(state, docs.drop_last());
        lemma_merged_wf(merged_all(state, docs.drop_last()), docs.last());
    }
}

/// Puts each remote of `more` into the registry, in order.
pub fn put_remotes(rows: &mut Vec<Remote>, more: &Vec<Remote>)
    requires
        distinct(views_of(old(rows)@)),
    ensures
        views_of(final(rows)@) == put_all(views_of(old(rows)@), views_of(more@)),
        distinct(views_of(final(rows)@)),
{
    let mut i: usize = 0;
    proof {
        assert(views_of(more@).take(0) =~= Seq::<RemoteView>::empty());
    }
    while i < more.len()
        invariant
            i <= more.len(),
            distinct(views_of(rows@)),
            views_of(rows@) == put_all(views_of(old(rows)@), views_of(more@).take(i as int)),
        decreases more.len() - i,
    {
        proof {
            assert(views_of(more@).take(i + 1).drop_last() =~= views_of(more@).take(i as int));
            assert(views_of(more@).take(i + 1).last() == more[i as int]@);
        }
        put_remote(rows, more[i].clone());
        i = i + 1;
    }
    proof {
        assert(views_of(more@).take(more.len() as int) =~= views_of(more@));
    }
}

/// Puts each row of `more` into the project table, in order.
pub fn put_projects(rows: &mut Vec<ProjectSpec>, more: &Vec<ProjectSpec>)
    requires
        distinct(views_of(old(rows)@)),
    ensures
        views_of(final(rows)@) == put_all(views_of(old(rows)@), views_of(more@)),
        distinct(views_of(final(rows)@)),
{
    let mut i: usize = 0;
    proof {
        assert(views_of(more@).take(0) =~= Seq::<ProjectSpecView>::empty());
    }
    while i < more.len()
        invariant
            i <= more.len(),
            distinct(views_of(rows@)),
            views_of(rows@) == put_all(views_of(old(rows)@), views_of(more@).take(i as int)),
        decreases more.len() - i,
    {
        proof {
            assert(views_of(more@).take(i + 1).drop_last() =~= views_of(more@).take(i as int));
            assert(views_of(more@).take(i + 1).last() == more[i as int]@);
        }
        put_project(rows, more[i].clone());
        i = i + 1;
    }
    proof {
        assert(views_of(more@).take(more.len() as int) =~= views_of(more@));
    }
}

/// Whether `change` is about `row`.
pub fn is_about(change: &ExtendProject, row: &ProjectSpec) -> (about: bool)
    ensures
        about == addresses(change@, row@),
{
    if !(row.name == change.name) {
        return false;
    }
    match &change.path {
        Some(path) => row.path == *path,
        None => true,
    }
}

/// A copy of `row` after `change`.
pub fn extend_row(row: &ProjectSpec, change: &ExtendProject) -> (after: ProjectSpec)
    ensures
        after@ == extended(row@, change@),
{
    let mut after = row.clone();
    if is_about(change, row) {
        let more = parse_groups(&change.groups);
        add_to_groups(&mut after.groups, &more);
        after.revision = inherit(&change.revision, &row.revision);
        after.remote = inherit(&change.remote, &row.remote);
    }
    after
}

/// Applies one extend-project element to the table.
pub fn extend_projects(rows: &mut Vec<ProjectSpec>, change: &ExtendProject)
    ensures
        views_of(final(rows)@) == extend_rows(views_of(old(rows)@), change@),
{
    let mut after: Vec<ProjectSpec> = Vec::new();
    let mut i: usize = 0;
    while i < rows.len()
        invariant
            i <= rows.len(),
            after.len() == i,
            forall|j: int| 0 <= j < i ==> (#[trigger] after[j])@ == extended(rows[j]@, change@),
        decreases rows.len() - i,
    {
        after.push(extend_row(&rows[i], change));
        i = i + 1;
    }
    proof {
        assert(views_of(after@) =~= extend_rows(views_of(rows@), change@));
    }
    *rows = after;
}

/// Deletes the rows named `name` from the table.
pub fn remove_projects(rows: &mut Vec<ProjectSpec>, name: &String)
    ensures
        views_of(final(rows)@) == without_name(views_of(old(rows)@), name@),
{
    let mut left: Vec<ProjectSpec> = Vec::new();
    let mut i: usize = 0;
    proof {
        assert(views_of(rows@).take(0) =~= Seq::<ProjectSpecView>::empty());
        assert(views_of(left@) =~= Seq::<ProjectSpecView>::empty());
    }
    while i < rows.len()
        invariant
            i <= rows.len(),
            views_of(left@) == without_name(views_of(rows@).take(i as int), name@),
        decreases rows.len() - i,
    {
        let ghost kept = views_of(left@);
        proof {
            assert(views_of(rows@).take(i + 1).drop_last() =~= views_of(rows@).take(i as int));
            assert(views_of(rows@).take(i + 1).last() == rows[i as int]@);
        }
        if !(rows[i].name == *name) {
            left.push(rows[i].clone());
            proof {
                assert(views_of(left@) =~= kept.push(rows[i as int]@));
            }
        }
        i = i + 1;
    }
    proof {
        assert(views_of(rows@).take(rows.len() as int) =~= views_of(rows@));
    }
    *rows = left;
}

/// Applies a list of extend-project elements to the table, in order.
pub fn extend_projects_all(rows: &mut Vec<ProjectSpec>, changes: &Vec<ExtendProject>)
    ensures
        views_of(final(rows)@) == extend_all(views_of(old(rows)@), views_of(changes@)),
{
    let mut i: usize = 0;
    proof {
        assert(views_of(changes@).take(0) =~= Seq::<ExtendProjectView>::empty());
    }
    while i < changes.len()
        invariant
            i <= changes.len(),
            views_of(rows@) == extend_all(views_of(old(rows)@), views_of(changes@).take(i as int)),
        decreases changes.len() - i,
    {
        proof {
            assert(views_of(changes@).take(i + 1).drop_last() =~= views_of(changes@).take(
                i as int,
            ));
            assert(views_of(changes@).take(i + 1).last() == changes[i as int]@);
        }
        extend_projects(rows, &changes[i]);
        i = i + 1;
    }
    proof {
        assert(views_of(changes@).take(changes.len() as int) =~= views_of(changes@));
    }
}

/// Applies a list of remove-project elements to the table, in order.
pub fn remove_projects_all(rows: &mut Vec<ProjectSpec>, removals: &Vec<RemoveProject>)
    ensures
        views_of(final(rows)@) == remove_all(views_of(old(rows)@), views_of(removals@)),
{
    let mut i: usize = 0;
    proof {
        assert(views_of(removals@).take(0) =~= Seq::<Seq<char>>::empty());
    }
    while i < removals.len()
        invariant
            i <= removals.len(),
            views_of(rows@) == remove_all(views_of(old(rows)@), views_of(removals@).take(i as int)),
        decreases removals.len() - i,
    {
        proof {
            assert(views_of(removals@).take(i + 1).drop_last() =~= views_of(removals@).take(
                i as int,
            ));
            assert(views_of(removals@).take(i + 1).last() == removals[i as int]@);
        }
        remove_projects(rows, &removals[i].name);
        i = i + 1;
    }
    proof {
        assert(views_of(removals@).take(removals.len() as int) =~= views_of(removals@));
    }
}

/// What the documents merged so far have left: the remote registry, the
/// default record and the project table.
#[derive(Debug)]
pub struct MergeState {
    pub remotes: Vec<Remote>,
    pub default: Option<Defaults>,
    pub projects: Vec<ProjectSpec>,
}

impl View for MergeState {
    type V = MergeView;

    open spec fn view(&self) -> MergeView {
        MergeView {
            remotes: views_of(self.remotes@),
            default: view_of(self.default),
            projects: views_of(self.projects@),
        }
    }
}

impl MergeState {
    /// The state before the first document.
    pub fn new() -> (state: MergeState)
        ensures
            state@ == MergeView::empty(),
            state@.wf(),
    {
        let state = MergeState { remotes: Vec::new(), default: None, projects: Vec::new() };
        proof {
            assert(state@.remotes =~= Seq::<RemoteView>::empty());
            assert(state@.projects =~= Seq::<ProjectSpecView>::empty());
        }
        state
    }

    /// Merges one more document into the state.
    pub fn merge_document(&mut self, doc: &Manifest)
        requires
            old(self)@.wf(),
        ensures
            final(self)@ == merged(old(self)@, doc@),
            final(self)@.wf(),
    {
        proof {
            lemma_merged_wf(self@, doc@);
        }
        match &doc.remote {
            Some(remotes) => {
                put_remotes(&mut self.remotes, remotes);
            },
            None => {},
        }
        match &doc.default {
            Some(record) => {
                self.default = Some(record.clone());
            },
            None => {},
        }
        let mut fresh: Vec<ProjectSpec> = Vec::new();
        proof {
            assert(views_of(fresh@) =~= Seq::<ProjectSpecView>::empty());
        }
        match &doc.project {
            Some(projects) => {
                flatten_list_into(projects, None, &mut fresh);
                proof {
                    assert(views_of(fresh@) =~= flatten_list(doc@.projects, None));
                }
            },
            None => {},
        }
        put_projects(&mut self.projects, &fresh);
        match &doc.extend_project {
            Some(changes) => {
                extend_projects_all(&mut self.projects, changes);
            },
            None => {},
        }
        match &doc.remove_project {
            Some(removals) => {
                remove_projects_all(&mut self.projects, removals);
            },
            None => {},
        }
    }
}

/// Why a merged manifest cannot be resolved. Each names the project.
#[derive(Debug, PartialEq, Eq)]
pub enum ResolveError {
    /// The project names no remote and the default record names none, or
    /// the registry holds no remote of the name.
    UnresolvedRemote(String),
    /// The revision that the project would be checked out at is empty or
    /// holds a blank or a control character.
    MalformedRevision(String),
}

/// The view of a `ResolveError`: its texts as characters and its lists as
/// sequences.
pub enum ResolveErrorView {
    UnresolvedRemote(Seq<char>),
    MalformedRevision(Seq<char>),
}

impl View for ResolveError {
    type V = ResolveErrorView;

    open spec fn view(&self) -> ResolveErrorView {
        match self {
            ResolveError::UnresolvedRemote(name) => ResolveErrorView::UnresolvedRemote(name@),
            ResolveError::MalformedRevision(name) => ResolveErrorView::MalformedRevision(name@),
        }
    }
}

impl Clone for ResolveError {
    fn clone(&self) -> (copy: Self)
        ensures
            copy@ == self@,
    {
        match self {
            ResolveError::UnresolvedRemote(name) => ResolveError::UnresolvedRemote(name.clone()),
            ResolveError::MalformedRevision(name) => ResolveError::MalformedRevision(name.clone()),
        }
    }
}

impl ResolveError {
    /// What the error says, as text.
    pub open spec fn message_text(error: ResolveErrorView) -> Seq<char> {
        match error {
            ResolveErrorView::UnresolvedRemote(name) => "no remote can be resolved for project "@
                + name,
            ResolveErrorView::MalformedRevision(name) => "malformed revision for project "@ + name,
        }
    }

    /// What the error says, as text.
    pub fn message(&self) -> (text: String)
        ensures
            text@ == Self::message_text(self@),
    {
        match self {
            ResolveError::UnresolvedRemote(name) => crate::text::concat_text(
                "no remote can be resolved for project ",
                name.as_str(),
            ),
            ResolveError::MalformedRevision(name) => crate::text::concat_text(
                "malformed revision for project ",
                name.as_str(),
            ),
        }
    }
}

/// Whether `c` may stand in a revision: it is neither a blank nor a control
/// character.
pub open spec fn revision_char(c: char) -> bool {
    c > ' ' && c != '\u{7f}'
}

/// Whether `revision` can name a revision: it is not empty and every
/// character may stand in a revision.
pub open spec fn well_formed_revision(revision: Seq<char>) -> bool {
    revision.len() > 0 && forall|i: int|
        0 <= i < revision.len() ==> revision_char(#[trigger] revision[i])
}

/// Whether `revision` can name a revision.
pub fn check_revision(revision: &String) -> (fine: bool)
    ensures
        fine == well_formed_revision(revision@),
{
    let chars = crate::text::chars_of(revision.as_str());
    if chars.len() == 0 {
        return false;
    }
    let mut i: usize = 0;
    while i < chars.len()
        invariant
            i <= chars.len(),
            chars@ == revision@,
            forall|j: int| 0 <= j < i ==> revision_char(#[trigger] revision@[j]),
        decreases chars.len() - i,
    {
        let c = chars[i];
        if !(c > ' ' && c != '\u{7f}') {
            assert(!revision_char(revision@[i as int]));
            return false;
        }
        i = i + 1;
    }
    true
}

/// The name of the remote that a row uses: its own, else the default's.
pub open spec fn remote_name_of(row: ProjectSpecView, default: DefaultsView) -> Option<Seq<char>> {
    or_else(row.remote, default.remote)
}

/// The revision that a row is checked out at: its own, else that of its
/// remote, else the default's. The row's remote is in the registry.
pub open spec fn revision_of(
    row: ProjectSpecView,
    remotes: Seq<RemoteView>,
    default: DefaultsView,
) -> Option<Seq<char>> {
    let remote = remotes[crate::table::place_of(remotes, remote_name_of(row, default)->0)];
    or_else(row.revision, or_else(remote.revision, default.revision))
}

/// What is wrong with a row, if anything: its remote is looked at first,
/// then its revision.
pub open spec fn fault_of(
    row: ProjectSpecView,
    remotes: Seq<RemoteView>,
    default: DefaultsView,
) -> Option<ResolveErrorView> {
    let remote = remote_name_of(row, default);
    if remote is None || !crate::table::holds_key(remotes, remote->0) {
        Some(ResolveErrorView::UnresolvedRemote(row.name))
    } else {
        let revision = revision_of(row, remotes, default);
        if revision is Some && !well_formed_revision(revision->0) {
            Some(ResolveErrorView::MalformedRevision(row.name))
        } else {
            None
        }
    }
}

/// A row with every attribute that it inherits filled in: the remote and
/// the revision as above; the destination branch, the upstream and the
/// three sync flags from the default record where the row sets none.
pub open spec fn effective(
    row: ProjectSpecView,
    remotes: Seq<RemoteView>,
    default: DefaultsView,
) -> ProjectSpecView {
    ProjectSpecView {
        remote: remote_name_of(row, default),
        revision: revision_of(row, remotes, default),
        dest_branch: or_else(row.dest_branch, default.dest_branch),
        upstream: or_else(row.upstream, default.upstream),
        sync_c: or_else(row.sync_c, default.sync_c),
        sync_s: or_else(row.sync_s, default.sync_s),
        sync_tags: or_else(row.sync_tags, default.sync_tags),
        ..row
    }
}

/// The fault of the first row, in table order, that has one.
pub open spec fn first_fault(
    rows: Seq<ProjectSpecView>,
    remotes: Seq<RemoteView>,
    default: DefaultsView,
) -> Option<ResolveErrorView>
    decreases rows.len(),
{
    if rows.len() == 0 {
        None
    } else {
        let earlier = first_fault(rows.drop_last(), remotes, default);
        if earlier is Some {
            earlier
        } else {
            fault_of(rows.last(), remotes, default)
        }
    }
}

/// The rows of a table, each with what it inherits filled in.
pub open spec fn effective_rows(
    rows: Seq<ProjectSpecView>,
    remotes: Seq<RemoteView>,
    default: DefaultsView,
) -> Seq<ProjectSpecView> {
    rows.map_values(|row: ProjectSpecView| effective(row, remotes, default))
}

/// The outcome of merging: the registry, the default record and the
/// project table with every inherited attribute filled in.
pub struct ResolvedView {
    pub remotes: Seq<RemoteView>,
    pub default: DefaultsView,
    pub projects: Seq<ProjectSpecView>,
}

impl ResolvedView {
    /// No remote name and no project path stands twice, and every project
    /// names a remote of the registry.
    pub open spec fn wf(self) -> bool {
        &&& distinct(self.remotes)
        &&& distinct(self.projects)
        &&& forall|i: int|
            0 <= i < self.projects.len() ==> (#[trigger] self.projects[i]).remote is Some
                && crate::table::holds_key(self.remotes, self.projects[i].remote->0)
    }
}

/// The default record that is in force: the one declared last, or one that
/// declares nothing.
pub open spec fn default_in_force(declared: Option<DefaultsView>) -> DefaultsView {
    match declared {
        Some(record) => record,
        None => DefaultsView::none(),
    }
}

/// What the merged documents resolve to: the fault of the first project
/// that has one, or else the resolved manifest.
pub open spec fn finalized(state: MergeView) -> Result<ResolvedView, ResolveErrorView> {
    let default = default_in_force(state.default);
    match first_fault(state.projects, state.remotes, default) {
        Some(fault) => Err(fault),
        None => Ok(
            ResolvedView {
                remotes: state.remotes,
                default: default,
                projects: effective_rows(state.projects, state.remotes, default),
            },
        ),
    }
}

/// What a list of documents, taken in order, resolves to.
pub open spec fn resolved(docs: Seq<ManifestView>) -> Result<ResolvedView, ResolveErrorView> {
    finalized(merged_all(MergeView::empty(), docs))
}

/// Where no row has a fault, no row of the table has one.
pub proof fn lemma_no_fault(
    rows: Seq<ProjectSpecView>,
    remotes: Seq<RemoteView>,
    default: DefaultsView,
)
    requires
        first_fault(rows, remotes, default) is None,
    ensures
        forall|i: int| 0 <= i < rows.len() ==> fault_of(#[trigger] rows[i], remotes, default) is None,
    decreases rows.len(),
{
    if rows.len() > 0 {
        lemma_no_fault(rows.drop_last(), remotes, default);
        assert forall|i: int| 0 <= i < rows.len() implies fault_of(
            #[trigger] rows[i],
            remotes,
            default,
        ) is None by {
            if i < rows.len() - 1 {
                assert(rows.drop_last()[i] == rows[i]);
            }
        }
    }
}

/// A resolved manifest is well formed.
pub proof fn lemma_finalized_wf(state: MergeView)
    requires
        state.wf(),
        finalized(state) is Ok,
    ensures
        finalized(state)->Ok_0.wf(),
{
    let default = default_in_force(state.default);
    let out = finalized(state)->Ok_0;
    lemma_no_fault(state.projects, state.remotes, default);
    assert forall|i: int, j: int| 0 <= i < j < out.projects.len() implies (
    #[trigger] out.projects[i]).key() != (#[trigger] out.projects[j]).key() by {
        assert(state.projects[i].key() != state.projects[j].key());
    }
    assert forall|i: int| 0 <= i < out.projects.len() implies (
    #[trigger] out.projects[i]).remote is Some && crate::table::holds_key(
        out.remotes,
        out.projects[i].remote->0,
    ) by {
        assert(fault_of(state.projects[i], state.remotes, default) is None);
    }
}

/// The merged, consistent manifest: a remote registry, one default record
/// and the flattened project table.
#[derive(Debug)]
pub struct ResolvedManifest {
    remotes: Vec<Remote>,
    default: Defaults,
    projects: Vec<ProjectSpec>,
    count: usize,
}

impl View for ResolvedManifest {
    type V = ResolvedView;

    closed spec fn view(&self) -> ResolvedView {
        ResolvedView {
            remotes: views_of(self.remotes@),
            default: self.default@,
            projects: views_of(self.projects@),
        }
    }
}

impl ResolvedManifest {
    /// The manifest is well formed as its view is, and its count is the
    /// number of its projects.
    pub closed spec fn wf(&self) -> bool {
        self@.wf() && self.count == self.projects.len()
    }

    /// What being well formed means for the view.
    pub proof fn lemma_wf(&self)
        requires
            self.wf(),
        ensures
            self@.wf(),
    {
    }

    /// The remote registry, in the order in which the names first came.
    pub fn remotes(&self) -> (list: &Vec<Remote>)
        ensures
            views_of(list@) == self@.remotes,
    {
        &self.remotes
    }

    /// The default record.
    pub fn defaults(&self) -> (record: &Defaults)
        ensures
            record@ == self@.default,
    {
        &self.default
    }

    /// The project table, in the order in which the paths first came.
    pub fn projects(&self) -> (list: &Vec<ProjectSpec>)
        ensures
            views_of(list@) == self@.projects,
    {
        &self.projects
    }

    /// The number of projects, for progress reports.
    pub fn count(&self) -> (n: usize)
        requires
            self.wf(),
        ensures
            n == self@.projects.len(),
    {
        self.count
    }

    /// The remote of the given name, if the registry holds one.
    pub fn remote(&self, name: &String) -> (found: Option<&Remote>)
        ensures
            found is Some <==> crate::table::holds_key(self@.remotes, name@),
            found is Some ==> self@.remotes.contains(found->0@) && found->0@.name == name@,
    {
        match crate::table::find_remote(&self.remotes, name) {
            Some(i) => {
                proof {
                    assert(views_of(self.remotes@)[i as int] == self.remotes[i as int]@);
                }
                Some(&self.remotes[i])
            },
            None => None,
        }
    }

    /// The project at the given path, if the table holds one.
    pub fn project(&self, path: &String) -> (found: Option<&ProjectSpec>)
        ensures
            found is Some <==> crate::table::holds_key(self@.projects, path@),
            found is Some ==> self@.projects.contains(found->0@) && found->0@.path == path@,
    {
        match crate::table::find_project(&self.projects, path) {
            Some(i) => {
                proof {
                    assert(views_of(self.projects@)[i as int] == self.projects[i as int]@);
                }
                Some(&self.projects[i])
            },
            None => None,
        }
    }
}

/// Resolves one row against the registry and the default record.
pub fn resolve_row(row: &ProjectSpec, remotes: &Vec<Remote>, default: &Defaults) -> (outcome:
    Result<ProjectSpec, ResolveError>)
    requires
        distinct(views_of(remotes@)),
    ensures
        match outcome {
            Ok(full) => fault_of(row@, views_of(remotes@), default@) is None && full@ == effective(
                row@,
                views_of(remotes@),
                default@,
            ),
            Err(fault) => fault_of(row@, views_of(remotes@), default@) == Some(fault@),
        },
{
    let remote_name = inherit(&row.remote, &default.remote);
    let name = match &remote_name {
        Some(name) => name,
        None => {
            return Err(ResolveError::UnresolvedRemote(row.name.clone()));
        },
    };
    let at = match crate::table::find_remote(remotes, name) {
        Some(at) => at,
        None => {
            return Err(ResolveError::UnresolvedRemote(row.name.clone()));
        },
    };
    proof {
        crate::table::lemma_place_is_unique(views_of(remotes@), at as int);
    }
    let fallback = inherit(&remotes[at].revision, &default.revision);
    let revision = inherit(&row.revision, &fallback);
    match &revision {
        Some(text) => {
            if !check_revision(text) {
                return Err(ResolveError::MalformedRevision(row.name.clone()));
            }
        },
        None => {},
    }
    let mut full = row.clone();
    full.remote = remote_name;
    full.revision = revision;
    full.dest_branch = inherit(&row.dest_branch, &default.dest_branch);
    full.upstream = inherit(&row.upstream, &default.upstream);
    full.sync_c = inherit(&row.sync_c, &default.sync_c);
    full.sync_s = inherit(&row.sync_s, &default.sync_s);
    full.sync_tags = inherit(&row.sync_tags, &default.sync_tags);
    Ok(full)
}

impl MergeState {
    /// Resolves what the documents have left: fills in what each project
    /// inherits, or reports the fault of the first project that has one.
    pub fn finish(self) -> (outcome: Result<ResolvedManifest, ResolveError>)
        requires
            self@.wf(),
        ensures
            match outcome {
                Ok(manifest) => finalized(self@) == Ok::<ResolvedView, ResolveErrorView>(manifest@)
                    && manifest.wf(),
                Err(fault) => finalized(self@) == Err::<ResolvedView, ResolveErrorView>(fault@),
            },
    {
        let default = match &self.default {
            Some(record) => record.clone(),
            None => Defaults::empty(),
        };
        let mut projects: Vec<ProjectSpec> = Vec::new();
        let mut i: usize = 0;
        proof {
            assert(views_of(self.projects@).take(0) =~= Seq::<ProjectSpecView>::empty());
        }
        while i < self.projects.len()
            invariant
                i <= self.projects.len(),
                distinct(views_of(self.remotes@)),
                default@ == default_in_force(self@.default),
                projects.len() == i,
                first_fault(
                    views_of(self.projects@).take(i as int),
                    views_of(self.remotes@),
                    default@,
                ) is None,
                forall|j: int|
                    0 <= j < i ==> (#[trigger] projects[j])@ == effective(
                        self.projects[j]@,
                        views_of(self.remotes@),
                        default@,
                    ),
            decreases self.projects.len() - i,
        {
            proof {
                assert(views_of(self.projects@).take(i + 1).drop_last() =~= views_of(
                    self.projects@,
                ).take(i as int));
                assert(views_of(self.projects@).take(i + 1).last() == self.projects[i as int]@);
            }
            match resolve_row(&self.projects[i], &self.remotes, &default) {
                Ok(full) => {
                    projects.push(full);
                },
                Err(fault) => {
                    proof {
                        lemma_first_fault_stays(
                            views_of(self.projects@),
                            views_of(self.remotes@),
                            default@,
                            i + 1,
                        );
                    }
                    return Err(fault);
                },
            }
            i = i + 1;
        }
        proof {
            assert(views_of(self.projects@).take(self.projects.len() as int) =~= views_of(
                self.projects@,
            ));
            assert(views_of(projects@) =~= effective_rows(
                views_of(self.projects@),
                views_of(self.remotes@),
                default@,
            ));
            lemma_finalized_wf(self@);
        }
        let count = projects.len();
        Ok(ResolvedManifest { remotes: self.remotes, default: default, projects: projects, count: count })
    }
}

/// A fault among the first `k` rows is the first fault of the table.
pub proof fn lemma_first_fault_stays(
    rows: Seq<ProjectSpecView>,
    remotes: Seq<RemoteView>,
    default: DefaultsView,
    k: int,
)
    requires
        0 <= k <= rows.len(),
        first_fault(rows.take(k), remotes, default) is Some,
    ensures
        first_fault(rows, remotes, default) == first_fault(rows.take(k), remotes, default),
    decreases rows.len() - k,
{
    if k == rows.len() {
        assert(rows.take(k) =~= rows);
    } else {
        assert(rows.take(k + 1).drop_last() =~= rows.take(k));
        lemma_first_fault_stays(rows, remotes, default, k + 1);
    }
}

/// Merges the documents in order and resolves what they leave.
pub fn resolve(docs: &Vec<Manifest>) -> (outcome: Result<ResolvedManifest, ResolveError>)
    ensures
        match outcome {
            Ok(manifest) => resolved(views_of(docs@)) == Ok::<ResolvedView, ResolveErrorView>(
                manifest@,
            ) && manifest.wf(),
            Err(fault) => resolved(views_of(docs@)) == Err::<ResolvedView, ResolveErrorView>(
                fault@,
            ),
        },
{
    let mut state = MergeState::new();
    let mut i: usize = 0;
    proof {
        assert(views_of(docs@).take(0) =~= Seq::<ManifestView>::empty());
    }
    while i < docs.len()
        invariant
            i <= docs.len(),
            state@.wf(),
            state@ == merged_all(MergeView::empty(), views_of(docs@).take(i as int)),
        decreases docs.len() - i,
    {
        proof {
            assert(views_of(docs@).take(i + 1).drop_last() =~= views_of(docs@).take(i as int));
            assert(views_of(docs@).take(i + 1).last() == docs[i as int]@);
        }
        state.merge_document(&docs[i]);
        i = i + 1;
    }
    proof {
        assert(views_of(docs@).take(docs.len() as int) =~= views_of(docs@));
    }
    state.finish()
}

} // verus!
