//! Rows that are found by a key: the remote registry, keyed by name, and
//! the project table, keyed by path. A table holds each key at most once
//! and keeps its rows in the order in which their keys first came.

use crate::manifest::views_of;
use crate::manifest::Remote;
use crate::manifest::RemoteView;
use crate::project::ProjectSpec;
use crate::project::ProjectSpecView;
use vstd::prelude::*;

verus! {

/// A row with a key.
pub trait Keyed {
    /// The text by which the row is found.
    spec fn key(self) -> Seq<char>;
}

impl Keyed for RemoteView {
    open spec fn key(self) -> Seq<char> {
        self.name
    }
}

impl Keyed for ProjectSpecView {
    open spec fn key(self) -> Seq<char> {
        self.path
    }
}

/// Whether a row of `rows` has the key `k`.
pub open spec fn holds_key<T: Keyed>(rows: Seq<T>, k: Seq<char>) -> bool {
    exists|i: int| 0 <= i < rows.len() && (#[trigger] rows[i]).key() == k
}

/// The place of a row with the key `k`, where there is one.
pub open spec fn place_of<T: Keyed>(rows: Seq<T>, k: Seq<char>) -> int {
    choose|i: int| 0 <= i < rows.len() && (#[trigger] rows[i]).key() == k
}

/// No two rows have the same key.
pub open spec fn distinct<T: Keyed>(rows: Seq<T>) -> bool {
    forall|i: int, j: int|
        0 <= i < j < rows.len() ==> (#[trigger] rows[i]).key() != (#[trigger] rows[j]).key()
}

/// `rows` with `row` in the place of the row that has its key, or at the
/// end where no row has it.
pub open spec fn put<T: Keyed>(rows: Seq<T>, row: T) -> Seq<T> {
    if holds_key(rows, row.key()) {
        rows.update(place_of(rows, row.key()), row)
    } else {
        rows.push(row)
    }
}

/// `rows` after each row of `more` was put, in order.
pub open spec fn put_all<T: Keyed>(rows: Seq<T>, more: Seq<T>) -> Seq<T>
    decreases more.len(),
{
    if more.len() == 0 {
        rows
    } else {
        put(put_all(rows, more.drop_last()), more.last())
    }
}

/// In a table, the place of a key is the one place where it stands.
pub proof fn lemma_place_is_unique<T: Keyed>(rows: Seq<T>, i: int)
    requires
        distinct(rows),
        0 <= i < rows.len(),
    ensures
        holds_key(rows, rows[i].key()),
        place_of(rows, rows[i].key()) == i,
{
    let k = rows[i].key();
    assert(holds_key(rows, k));
    let j = place_of(rows, k);
    assert(0 <= j < rows.len() && rows[j].key() == k);
    if j < i {
        assert(rows[j].key() != rows[i].key());
    } else if i < j {
        assert(rows[i].key() != rows[j].key());
    }
}

/// Putting a row into a table gives a table that holds the row under its
/// key, and every other key as before.
pub proof fn lemma_put<T: Keyed>(rows: Seq<T>, row: T)
    requires
        distinct(rows),
    ensures
        distinct(put(rows, row)),
        holds_key(put(rows, row), row.key()),
        put(rows, row)[place_of(put(rows, row), row.key())] == row,
        forall|k: Seq<char>|
            k != row.key() ==> (holds_key(put(rows, row), k) <==> holds_key(rows, k)),
        forall|k: Seq<char>|
            k != row.key() && holds_key(rows, k) ==> put(rows, row)[place_of(put(rows, row), k)]
                == rows[place_of(rows, k)],
{
    let after = put(rows, row);
    let at = if holds_key(rows, row.key()) {
        place_of(rows, row.key())
    } else {
        rows.len() as int
    };
    assert(0 <= at < after.len());
    assert(after[at] == row);
    assert forall|i: int| 0 <= i < after.len() && i != at implies #[trigger] after[i]
        == rows[i] by {}
    assert forall|i: int| 0 <= i < after.len() && i != at implies (#[trigger] after[i]).key()
        != row.key() by {
        if holds_key(rows, row.key()) {
            if i < at {
                assert(rows[i].key() != rows[at].key());
            } else {
                assert(rows[at].key() != rows[i].key());
            }
        } else {
            assert(rows[i].key() != row.key());
        }
    }
    assert forall|i: int, j: int| 0 <= i < j < after.len() implies (#[trigger] after[i]).key() != (
    #[trigger] after[j]).key() by {
        if i != at && j != at {
            assert(rows[i].key() != rows[j].key());
        }
    }
    lemma_place_is_unique(after, at);
    assert forall|k: Seq<char>| k != row.key() implies (holds_key(after, k) <==> holds_key(
        rows,
        k,
    )) by {
        if holds_key(after, k) {
            let i = place_of(after, k);
            assert(after[i].key() == k);
            assert(rows[i].key() == k);
        }
        if holds_key(rows, k) {
            let i = place_of(rows, k);
            assert(rows[i].key() == k);
            assert(after[i].key() == k);
        }
    }
    assert forall|k: Seq<char>| k != row.key() && holds_key(rows, k) implies after[place_of(
        after,
        k,
    )] == rows[place_of(rows, k)] by {
        let i = place_of(rows, k);
        assert(rows[i].key() == k);
        assert(after[i].key() == k);
        lemma_place_is_unique(after, i);
    }
}

/// Putting rows into a table gives a table.
pub proof fn lemma_put_all_distinct<T: Keyed>(rows: Seq<T>, more: Seq<T>)
    requires
        distinct(rows),
    ensures
        distinct(put_all(rows, more)),
    decreases more.len(),
{
    if more.len() > 0 {
        lemma_put_all_distinct(rows, more.drop_last());
        lemma_put(put_all(rows, more.drop_last()), more.last());
    }
}

/// Putting two lists of rows one after the other is putting the two lists
/// in a row.
pub proof fn lemma_put_all_in_a_row<T: Keyed>(rows: Seq<T>, first: Seq<T>, second: Seq<T>)
    ensures
        put_all(put_all(rows, first), second) == put_all(rows, first + second),
    decreases second.len(),
{
    if second.len() == 0 {
        assert(first + second =~= first);
    } else {
        lemma_put_all_in_a_row(rows, first, second.drop_last());
        assert((first + second).drop_last() =~= first + second.drop_last());
        assert((first + second).last() == second.last());
    }
}

/// After rows were put into a table, the table holds under a key the last
/// of the rows that has the key.
pub proof fn lemma_put_all_last_wins<T: Keyed>(rows: Seq<T>, more: Seq<T>, i: int)
    requires
        distinct(rows),
        0 <= i < more.len(),
        forall|j: int| i < j < more.len() ==> (#[trigger] more[j]).key() != more[i].key(),
    ensures
        holds_key(put_all(rows, more), more[i].key()),
        put_all(rows, more)[place_of(put_all(rows, more), more[i].key())] == more[i],
    decreases more.len(),
{
    let shorter = more.drop_last();
    lemma_put_all_distinct(rows, shorter);
    lemma_put(put_all(rows, shorter), more.last());
    if i < more.len() - 1 {
        assert(shorter[i] == more[i]);
        assert forall|j: int| i < j < shorter.len() implies (#[trigger] shorter[j]).key()
            != shorter[i].key() by {
            assert(more[j].key() != more[i].key());
        }
        lemma_put_all_last_wins(rows, shorter, i);
        assert(more[more.len() - 1].key() != more[i].key());
    }
}

/// Putting rows into a table leaves every key that none of them has as it
/// was: in the table or not, and with the same row.
pub proof fn lemma_put_all_keeps<T: Keyed>(rows: Seq<T>, more: Seq<T>, k: Seq<char>)
    requires
        distinct(rows),
        forall|j: int| 0 <= j < more.len() ==> (#[trigger] more[j]).key() != k,
    ensures
        holds_key(put_all(rows, more), k) <==> holds_key(rows, k),
        holds_key(rows, k) ==> put_all(rows, more)[place_of(put_all(rows, more), k)]
            == rows[place_of(rows, k)],
    decreases more.len(),
{
    if more.len() > 0 {
        let shorter = more.drop_last();
        lemma_put_all_distinct(rows, shorter);
        assert forall|j: int| 0 <= j < shorter.len() implies (#[trigger] shorter[j]).key()
            != k by {
            assert(more[j].key() != k);
        }
        lemma_put_all_keeps(rows, shorter, k);
        assert(more[more.len() - 1].key() != k);
        lemma_put(put_all(rows, shorter), more.last());
    }
}

/// The first place of a remote named `name`, if there is one.
pub fn find_remote(rows: &Vec<Remote>, name: &String) -> (at: Option<usize>)
    ensures
        at is Some <==> holds_key(views_of(rows@), name@),
        at is Some ==> at->0 < rows.len() && rows[at->0 as int]@.name == name@,
        at is Some ==> forall|j: int| 0 <= j < at->0 ==> (#[trigger] rows[j])@.name != name@,
{
    let mut i: usize = 0;
    while i < rows.len()
        invariant
            i <= rows.len(),
            forall|j: int| 0 <= j < i ==> (#[trigger] views_of(rows@)[j]).key() != name@,
        decreases rows.len() - i,
    {
        if rows[i].name == *name {
            proof {
                assert(views_of(rows@)[i as int].key() == name@);
                assert forall|j: int| 0 <= j < i implies (#[trigger] rows[j])@.name != name@ by {
                    assert(views_of(rows@)[j].key() != name@);
                }
            }
            return Some(i);
        }
        i = i + 1;
    }
    None
}

/// The first place of a project at `path`, if there is one.
pub fn find_project(rows: &Vec<ProjectSpec>, path: &String) -> (at: Option<usize>)
    ensures
        at is Some <==> holds_key(views_of(rows@), path@),
        at is Some ==> at->0 < rows.len() && rows[at->0 as int]@.path == path@,
        at is Some ==> forall|j: int| 0 <= j < at->0 ==> (#[trigger] rows[j])@.path != path@,
{
    let mut i: usize = 0;
    while i < rows.len()
        invariant
            i <= rows.len(),
            forall|j: int| 0 <= j < i ==> (#[trigger] views_of(rows@)[j]).key() != path@,
        decreases rows.len() - i,
    {
        if rows[i].path == *path {
            proof {
                assert(views_of(rows@)[i as int].key() == path@);
                assert forall|j: int| 0 <= j < i implies (#[trigger] rows[j])@.path != path@ by {
                    assert(views_of(rows@)[j].key() != path@);
                }
            }
            return Some(i);
        }
        i = i + 1;
    }
    None
}

/// Puts `row` into the registry: in the place of the remote of its name, or
/// at the end.
pub fn put_remote(rows: &mut Vec<Remote>, row: Remote)
    requires
        distinct(views_of(old(rows)@)),
    ensures
        views_of(final(rows)@) == put(views_of(old(rows)@), row@),
        distinct(views_of(final(rows)@)),
{
    proof {
        lemma_put(views_of(rows@), row@);
    }
    match find_remote(rows, &row.name) {
        Some(i) => {
            proof {
                lemma_place_is_unique(views_of(rows@), i as int);
            }
            rows[i] = row;
            proof {
                assert(views_of(rows@) =~= views_of(old(rows)@).update(i as int, row@));
            }
        },
        None => {
            rows.push(row);
            proof {
                assert(views_of(rows@) =~= views_of(old(rows)@).push(row@));
            }
        },
    }
}

/// Puts `row` into the project table: in the place of the project at its
/// path, or at the end.
pub fn put_project(rows: &mut Vec<ProjectSpec>, row: ProjectSpec)
    requires
        distinct(views_of(old(rows)@)),
    ensures
        views_of(final(rows)@) == put(views_of(old(rows)@), row@),
        distinct(views_of(final(rows)@)),
{
    proof {
        lemma_put(views_of(rows@), row@);
    }
    match find_project(rows, &row.path) {
        Some(i) => {
            proof {
                lemma_place_is_unique(views_of(rows@), i as int);
            }
            rows[i] = row;
            proof {
                assert(views_of(rows@) =~= views_of(old(rows)@).update(i as int, row@));
            }
        },
        None => {
            rows.push(row);
            proof {
                assert(views_of(rows@) =~= views_of(old(rows)@).push(row@));
            }
        },
    }
}

} // verus!
