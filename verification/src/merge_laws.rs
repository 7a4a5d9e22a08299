//! What holds of merging whatever the documents are: merging is a
//! reduction over the documents, a document without elements changes
//! nothing, and two documents in a row can be written as one.

use crate::manifest::ManifestView;
use crate::project::flatten;
use crate::project::flatten_list;
use crate::project::ProjectSpecView;
use crate::manifest::ExtendProjectView;
use crate::manifest::ProjectView;
use crate::resolver::extend_all;
use crate::resolver::finalized;
use crate::resolver::merged;
use crate::resolver::merged_all;
use crate::resolver::remove_all;
use crate::resolver::resolved;
use crate::resolver::MergeView;
use crate::table::lemma_put_all_in_a_row;
use crate::table::put_all;
use vstd::prelude::*;

verus! {

/// The rows of two lists of project elements in a row are the rows of the
/// first followed by the rows of the second.
pub proof fn lemma_flatten_list_in_a_row(
    first: Seq<ProjectView>,
    second: Seq<ProjectView>,
    parent: Option<ProjectSpecView>,
)
    ensures
        flatten_list(first + second, parent) == flatten_list(first, parent) + flatten_list(
            second,
            parent,
        ),
    decreases second.len(),
{
    if second.len() == 0 {
        assert(first + second =~= first);
        assert(flatten_list(first, parent) + Seq::<ProjectSpecView>::empty() =~= flatten_list(
            first,
            parent,
        ));
    } else {
        lemma_flatten_list_in_a_row(first, second.drop_last(), parent);
        assert((first + second).drop_last() =~= first + second.drop_last());
        assert((first + second).last() == second.last());
        let a = flatten_list(first, parent);
        let b = flatten_list(second.drop_last(), parent);
        let c = flatten(second.last(), parent);
        assert((a + b) + c =~= a + (b + c));
    }
}

/// Merging is a reduction: merging a list of documents is merging its
/// first part and then, into what that leaves, the rest.
pub proof fn law_merging_in_parts(
    state: MergeView,
    first: Seq<ManifestView>,
    second: Seq<ManifestView>,
)
    ensures
        merged_all(state, first + second) == merged_all(merged_all(state, first), second),
    decreases second.len(),
{
    if second.len() == 0 {
        assert(first + second =~= first);
    } else {
        law_merging_in_parts(state, first, second.drop_last());
        assert((first + second).drop_last() =~= first + second.drop_last());
        assert((first + second).last() == second.last());
    }
}

/// Merging a list of one document is merging that document.
pub proof fn lemma_merging_one(state: MergeView, doc: ManifestView)
    ensures
        merged_all(state, seq![doc]) == merged(state, doc),
{
    let docs = seq![doc];
    assert(docs.drop_last() =~= Seq::<ManifestView>::empty());
    assert(docs.last() == doc);
    assert(merged_all(state, docs.drop_last()) == state);
}

/// Resolving one document alone is merging it into the empty state and
/// resolving what that leaves.
pub proof fn law_one_document(doc: ManifestView)
    ensures
        resolved(seq![doc]) == finalized(merged(MergeView::empty(), doc)),
{
    lemma_merging_one(MergeView::empty(), doc);
}

/// A document without remotes, default record, projects, extend-project
/// and remove-project elements changes nothing.
pub proof fn law_empty_document(state: MergeView, doc: ManifestView)
    requires
        doc.remotes.len() == 0,
        doc.default is None,
        doc.projects.len() == 0,
        doc.extends.len() == 0,
        doc.removes.len() == 0,
    ensures
        merged(state, doc) == state,
{
    assert(flatten_list(doc.projects, None) =~= Seq::<ProjectSpecView>::empty());
    assert(merged(state, doc).remotes =~= state.remotes);
    assert(merged(state, doc).projects =~= state.projects);
}

/// Two documents written as one: the elements of the first followed by
/// those of the second, kind by kind; of what at most one may stand in a
/// document, that of the second where it has one.
pub open spec fn combined(first: ManifestView, second: ManifestView) -> ManifestView {
    ManifestView {
        notice: first.notice || second.notice,
        remotes: first.remotes + second.remotes,
        default: if second.default is Some {
            second.default
        } else {
            first.default
        },
        manifest_server: if second.manifest_server is Some {
            second.manifest_server
        } else {
            first.manifest_server
        },
        removes: first.removes + second.removes,
        projects: first.projects + second.projects,
        extends: first.extends + second.extends,
        repo_hooks: if second.repo_hooks is Some {
            second.repo_hooks
        } else {
            first.repo_hooks
        },
        includes: first.includes + second.includes,
    }
}

/// Merging two documents one after the other leaves what merging the one
/// combined document leaves, where the first of the two has no
/// extend-project and no remove-project element.
pub proof fn law_merging_combined(state: MergeView, first: ManifestView, second: ManifestView)
    requires
        first.extends.len() == 0,
        first.removes.len() == 0,
    ensures
        merged(merged(state, first), second) == merged(state, combined(first, second)),
{
    let both = combined(first, second);
    lemma_put_all_in_a_row(state.remotes, first.remotes, second.remotes);
    lemma_flatten_list_in_a_row(first.projects, second.projects, None);
    lemma_put_all_in_a_row(
        state.projects,
        flatten_list(first.projects, None),
        flatten_list(second.projects, None),
    );
    assert(both.extends =~= second.extends);
    assert(both.removes =~= second.removes);
}

/// The merge identity: a list of documents resolves to the same manifest,
/// or to the same fault, when two of them that stand in a row are written
/// as one combined document, where the first of the two has no
/// extend-project and no remove-project element.
pub proof fn law_resolving_combined(
    before: Seq<ManifestView>,
    first: ManifestView,
    second: ManifestView,
    after: Seq<ManifestView>,
)
    requires
        first.extends.len() == 0,
        first.removes.len() == 0,
    ensures
        resolved(before + seq![first, second] + after) == resolved(
            before + seq![combined(first, second)] + after,
        ),
{
    let empty = MergeView::empty();
    let start = merged_all(empty, before);
    let two = seq![first, second];
    let one = seq![combined(first, second)];
    law_merging_in_parts(empty, before + two, after);
    law_merging_in_parts(empty, before, two);
    law_merging_in_parts(empty, before + one, after);
    law_merging_in_parts(empty, before, one);
    assert(two.drop_last() =~= seq![first]);
    assert(two.last() == second);
    lemma_merging_one(start, first);
    lemma_merging_one(start, combined(first, second));
    assert(merged_all(start, two) == merged(merged(start, first), second));
    law_merging_combined(start, first, second);
}

/// Remote uniqueness: after a document is merged, the registry holds each
/// name once, and under the name of a remote of the document the last
/// remote of that name that the document defines, whatever the registry
/// held under the name before.
pub proof fn law_last_remote_wins(state: MergeView, doc: ManifestView, i: int)
    requires
        state.wf(),
        0 <= i < doc.remotes.len(),
        forall|j: int| i < j < doc.remotes.len() ==> (#[trigger] doc.remotes[j]).name
            != doc.remotes[i].name,
    ensures
        crate::table::distinct(merged(state, doc).remotes),
        crate::table::holds_key(merged(state, doc).remotes, doc.remotes[i].name),
        merged(state, doc).remotes[crate::table::place_of(
            merged(state, doc).remotes,
            doc.remotes[i].name,
        )] == doc.remotes[i],
{
    crate::table::lemma_put_all_distinct(state.remotes, doc.remotes);
    assert forall|j: int| i < j < doc.remotes.len() implies crate::table::Keyed::key(
        #[trigger] doc.remotes[j],
    ) != crate::table::Keyed::key(doc.remotes[i]) by {
        assert(doc.remotes[j].name != doc.remotes[i].name);
    }
    crate::table::lemma_put_all_last_wins(state.remotes, doc.remotes, i);
}

/// A document leaves alone the remotes whose names it does not define: such
/// a name is in the registry after the document exactly if it was there
/// before, and with the same remote.
pub proof fn law_other_remotes_stay(state: MergeView, doc: ManifestView, name: Seq<char>)
    requires
        state.wf(),
        forall|j: int| 0 <= j < doc.remotes.len() ==> (#[trigger] doc.remotes[j]).name != name,
    ensures
        crate::table::holds_key(merged(state, doc).remotes, name) <==> crate::table::holds_key(
            state.remotes,
            name,
        ),
        crate::table::holds_key(state.remotes, name) ==> merged(
            state,
            doc,
        ).remotes[crate::table::place_of(merged(state, doc).remotes, name)]
            == state.remotes[crate::table::place_of(state.remotes, name)],
{
    assert forall|j: int| 0 <= j < doc.remotes.len() implies crate::table::Keyed::key(
        #[trigger] doc.remotes[j],
    ) != name by {
        assert(doc.remotes[j].name != name);
    }
    crate::table::lemma_put_all_keeps(state.remotes, doc.remotes, name);
}

/// A definition stands: after a document without extend-project and
/// remove-project elements is merged, the table holds under the path of a
/// row of the document the last row of that path that the document
/// defines, whatever the documents before it have defined or removed.
pub proof fn law_later_definition_stands(state: MergeView, doc: ManifestView, i: int)
    requires
        state.wf(),
        doc.extends.len() == 0,
        doc.removes.len() == 0,
        0 <= i < flatten_list(doc.projects, None).len(),
        forall|j: int|
            i < j < flatten_list(doc.projects, None).len() ==> (#[trigger] flatten_list(
                doc.projects,
                None,
            )[j]).path != flatten_list(doc.projects, None)[i].path,
    ensures
        crate::table::holds_key(
            merged(state, doc).projects,
            flatten_list(doc.projects, None)[i].path,
        ),
        merged(state, doc).projects[crate::table::place_of(
            merged(state, doc).projects,
            flatten_list(doc.projects, None)[i].path,
        )] == flatten_list(doc.projects, None)[i],
{
    let rows = flatten_list(doc.projects, None);
    assert forall|j: int| i < j < rows.len() implies crate::table::Keyed::key(#[trigger] rows[j])
        != crate::table::Keyed::key(rows[i]) by {
        assert(rows[j].path != rows[i].path);
    }
    crate::table::lemma_put_all_last_wins(state.projects, rows, i);
}

/// Removal: after a document is merged, the table holds no row of a name
/// that the document removes last.
pub proof fn law_removed_is_gone(state: MergeView, doc: ManifestView)
    requires
        doc.removes.len() > 0,
    ensures
        forall|j: int|
            0 <= j < merged(state, doc).projects.len() ==> (#[trigger] merged(
                state,
                doc,
            ).projects[j]).name != doc.removes.last(),
{
    let before = remove_all(
        extend_all(put_all(state.projects, flatten_list(doc.projects, None)), doc.extends),
        doc.removes.drop_last(),
    );
    crate::resolver::lemma_without_name(before, doc.removes.last());
}

/// Inheritance: a project that can be resolved and sets no revision is
/// checked out at the revision of its remote where the remote has one, and
/// else at the revision of the default record; a project that sets a
/// revision is checked out at that.
pub proof fn law_revision_is_inherited(
    row: ProjectSpecView,
    remotes: Seq<crate::manifest::RemoteView>,
    default: crate::manifest::DefaultsView,
)
    requires
        crate::resolver::fault_of(row, remotes, default) is None,
    ensures
        ({
            let name = crate::resolver::remote_name_of(row, default)->0;
            let remote = remotes[crate::table::place_of(remotes, name)];
            let full = crate::resolver::effective(row, remotes, default);
            &&& remote.name == name
            &&& full.remote == Some(name)
            &&& row.revision is Some ==> full.revision == row.revision
            &&& row.revision is None && remote.revision is Some ==> full.revision
                == remote.revision
            &&& row.revision is None && remote.revision is None ==> full.revision
                == default.revision
        }),
{
    let name = crate::resolver::remote_name_of(row, default)->0;
    assert(crate::table::holds_key(remotes, name));
    let at = crate::table::place_of(remotes, name);
    assert(crate::table::Keyed::key(remotes[at]) == name);
}

/// Additivity: an extend-project element that is about a project leaves
/// it every group it had, in its place, and adds the groups that the
/// element names and nothing else.
pub proof fn law_extend_is_additive(row: ProjectSpecView, change: ExtendProjectView)
    requires
        crate::resolver::addresses(change, row),
    ensures
        ({
            let after = crate::resolver::extended(row, change).groups;
            let named = match change.groups {
                Some(text) => crate::text::tokens(text, crate::text::Separator::List),
                None => Seq::empty(),
            };
            &&& row.groups.len() <= after.len()
            &&& after.take(row.groups.len() as int) == row.groups
            &&& forall|g: Seq<char>| after.contains(g) <==> row.groups.contains(g) || named.contains(g)
        }),
{
    let declared = crate::project::declared_groups(change.groups);
    crate::project::lemma_add_groups(row.groups, declared);
    match change.groups {
        Some(text) => {
            let named = crate::text::tokens(text, crate::text::Separator::List);
            crate::project::lemma_add_groups(Seq::empty(), named);
            assert forall|g: Seq<char>| declared.contains(g) <==> named.contains(g) by {
                assert(!Seq::<Seq<char>>::empty().contains(g));
            }
        },
        None => {
            assert forall|g: Seq<char>| !declared.contains(g) by {}
        },
    }
}

/// Merging keeps the tables: whatever the documents are, after them no
/// remote name stands twice in the registry and no path twice in the
/// project table.
pub proof fn law_merged_tables_are_tables(docs: Seq<ManifestView>)
    ensures
        merged_all(MergeView::empty(), docs).wf(),
{
    crate::resolver::lemma_merged_all_wf(MergeView::empty(), docs);
}

} // verus!
