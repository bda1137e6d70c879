//! How the store's operations interact, stated over the store's
//! mathematical values and proved once for all inputs.

use crate::hero::{HeroView, NewHeroView};
use crate::store::{created, deleted, has_id, row_with_id, updated, TableView};
use vstd::prelude::*;

verus! {

/// Rows that all carry other ids hold no row with this one.
proof fn lemma_row_with_id_none(rows: Seq<HeroView>, id: int)
    requires
        forall|i: int| 0 <= i < rows.len() ==> (#[trigger] rows[i]).id != id,
    ensures
        row_with_id(rows, id) is None,
    decreases rows.len(),
{
    if rows.len() > 0 {
        assert(rows.first() == rows[0]);
        assert forall|i: int| 0 <= i < rows.drop_first().len() implies (#[trigger] rows.drop_first()[i]).id
            != id by {
            assert(rows.drop_first()[i] == rows[i + 1]);
        }
        lemma_row_with_id_none(rows.drop_first(), id);
    }
}

/// Appending a row under an id that no other row carries makes that row the
/// one a fetch of the id finds.
proof fn lemma_row_with_id_push_fresh(rows: Seq<HeroView>, x: HeroView, id: int)
    requires
        x.id == id,
        forall|i: int| 0 <= i < rows.len() ==> (#[trigger] rows[i]).id != id,
    ensures
        row_with_id(rows.push(x), id) == Some(x),
    decreases rows.len(),
{
    if rows.len() == 0 {
        assert(rows.push(x).first() == x);
    } else {
        assert(rows.push(x).first() == rows[0]);
        assert(rows.push(x).drop_first() =~= rows.drop_first().push(x));
        assert forall|i: int| 0 <= i < rows.drop_first().len() implies (#[trigger] rows.drop_first()[i]).id
            != id by {
            assert(rows.drop_first()[i] == rows[i + 1]);
        }
        lemma_row_with_id_push_fresh(rows.drop_first(), x, id);
    }
}

/// A delete keeps no row carrying the deleted id.
proof fn lemma_deleted_no_id(rows: Seq<HeroView>, id: int)
    ensures
        forall|j: int| 0 <= j < deleted(rows, id).len() ==> (#[trigger] deleted(rows, id)[j]).id != id,
    decreases rows.len(),
{
    if rows.len() > 0 {
        let rest = rows.drop_first();
        lemma_deleted_no_id(rest, id);
        if rows.first().id != id {
            assert forall|j: int| 0 <= j < deleted(rows, id).len() implies (#[trigger] deleted(
                rows,
                id,
            )[j]).id != id by {
                if j > 0 {
                    assert(deleted(rows, id)[j] == deleted(rest, id)[j - 1]);
                }
            }
        }
    }
}

/// A fetch finds a row exactly when some row carries the id, and the row it
/// finds carries that id and stands in the table.
pub proof fn lemma_fetch_finds_id(rows: Seq<HeroView>, id: int)
    ensures
        row_with_id(rows, id) is Some <==> has_id(rows, id),
        row_with_id(rows, id) matches Some(h) ==> h.id == id && rows.contains(h),
    decreases rows.len(),
{
    if rows.len() > 0 {
        let rest = rows.drop_first();
        lemma_fetch_finds_id(rest, id);
        assert(rows.first() == rows[0]);
        if rows.first().id == id {
            assert(has_id(rows, id));
        } else {
            if has_id(rows, id) {
                let w = choose|i: int| 0 <= i < rows.len() && (#[trigger] rows[i]).id == id;
                assert(rest[w - 1] == rows[w]);
                assert(has_id(rest, id));
            }
            if has_id(rest, id) {
                let w = choose|i: int| 0 <= i < rest.len() && (#[trigger] rest[i]).id == id;
                assert(rows[w + 1] == rest[w]);
                assert(has_id(rows, id));
            }
            if row_with_id(rows, id) is Some {
                let h = row_with_id(rows, id)->0;
                let w = choose|i: int| 0 <= i < rest.len() && rest[i] == h;
                assert(rows[w + 1] == rest[w]);
                assert(rows.contains(h));
            }
        }
    }
}

/// Creating a hero and then fetching the id the store assigned returns the
/// row made of exactly the created payload's fields under that id.
pub proof fn lemma_create_then_fetch(t: TableView, p: NewHeroView)
    requires
        t.wf(),
    ensures
        row_with_id(created(t, p).rows, t.next_id) == Some(p.with_id(t.next_id)),
        p.with_id(t.next_id).fields() == p,
{
    lemma_row_with_id_push_fresh(t.rows, p.with_id(t.next_id), t.next_id);
}

/// Deleting an id and then fetching it fails with not-found, whatever the
/// table held before.
pub proof fn lemma_delete_then_fetch(rows: Seq<HeroView>, id: int)
    ensures
        row_with_id(deleted(rows, id), id) is None,
{
    lemma_deleted_no_id(rows, id);
    lemma_row_with_id_none(deleted(rows, id), id);
}

/// A listing of a well-formed table is in non-decreasing id order, whatever
/// order the rows were inserted or changed in.
pub proof fn lemma_list_ordered(t: TableView)
    requires
        t.wf(),
    ensures
        forall|i: int, j: int|
            0 <= i <= j < t.rows.len() ==> (#[trigger] t.rows[i]).id <= (#[trigger] t.rows[j]).id,
{
}

/// Updating an existing id and then fetching it returns exactly the new
/// payload under that id: a full overwrite, never a partial merge.
pub proof fn lemma_update_then_fetch(rows: Seq<HeroView>, id: int, p: NewHeroView)
    requires
        has_id(rows, id),
    ensures
        row_with_id(updated(rows, id, p), id) == Some(p.with_id(id)),
        p.with_id(id).fields() == p,
    decreases rows.len(),
{
    let u = updated(rows, id, p);
    let w = choose|i: int| 0 <= i < rows.len() && (#[trigger] rows[i]).id == id;
    if rows.first().id == id {
        assert(u.first() == p.with_id(id));
    } else {
        assert(u.first() == rows.first());
        assert(u.drop_first() =~= updated(rows.drop_first(), id, p));
        assert(rows.drop_first()[w - 1] == rows[w]);
        assert(has_id(rows.drop_first(), id));
        lemma_update_then_fetch(rows.drop_first(), id, p);
    }
}

} // verus!
