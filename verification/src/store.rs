//! The hero table: rows in storage order, ids assigned by the store.

use crate::hero::{Hero, HeroView, NewHero, NewHeroView};
use vstd::prelude::*;

verus! {

/// The mathematical value of the store: the rows in storage order and the id
/// the next insert will be assigned.
pub struct TableView {
    pub rows: Seq<HeroView>,
    pub next_id: int,
}

impl TableView {
    /// Well-formedness: ids start at 1, stand strictly below the next id to
    /// assign, and grow strictly in storage order, so every id addresses at
    /// most one row and the stored order is ascending id order.
    pub open spec fn wf(self) -> bool {
        &&& 1 <= self.next_id <= i32::MAX as int
        &&& forall|i: int|
            0 <= i < self.rows.len() ==> 1 <= (#[trigger] self.rows[i]).id < self.next_id
        &&& forall|i: int, j: int|
            0 <= i < j < self.rows.len() ==> self.rows[i].id < self.rows[j].id
    }
}

/// The views of a sequence of rows.
pub open spec fn views_of(rows: Seq<Hero>) -> Seq<HeroView> {
    rows.map_values(|h: Hero| h@)
}

/// The first row in storage order carrying the given id, if any.
pub open spec fn row_with_id(rows: Seq<HeroView>, id: int) -> Option<HeroView>
    decreases rows.len(),
{
    if rows.len() == 0 {
        None
    } else if rows.first().id == id {
        Some(rows.first())
    } else {
        row_with_id(rows.drop_first(), id)
    }
}

/// Whether some row carries the given id.
pub open spec fn has_id(rows: Seq<HeroView>, id: int) -> bool {
    exists|i: int| 0 <= i < rows.len() && (#[trigger] rows[i]).id == id
}

/// The store after an insert: the payload is appended under the next id, and
/// the next id moves past it.
pub open spec fn created(t: TableView, p: NewHeroView) -> TableView {
    TableView { rows: t.rows.push(p.with_id(t.next_id)), next_id: t.next_id + 1 }
}

/// The rows after an update: every row carrying the given id has its payload
/// fields overwritten; every other row is unchanged.
pub open spec fn updated(rows: Seq<HeroView>, id: int, p: NewHeroView) -> Seq<HeroView> {
    rows.map_values(|r: HeroView| if r.id == id { p.with_id(id) } else { r })
}

/// The rows after a delete: the rows not carrying the given id, in order.
pub open spec fn deleted(rows: Seq<HeroView>, id: int) -> Seq<HeroView>
    decreases rows.len(),
{
    if rows.len() == 0 {
        Seq::empty()
    } else if rows.first().id == id {
        deleted(rows.drop_first(), id)
    } else {
        seq![rows.first()] + deleted(rows.drop_first(), id)
    }
}

/// The view of a fetch outcome.
pub open spec fn fetched(r: Option<Hero>) -> Option<HeroView> {
    match r {
        Some(h) => Some(h@),
        None => None,
    }
}

/// The table of hero rows. Rows are kept in the order their ids were
/// assigned; ids are never reused, even after a delete.
pub struct HeroTable {
    rows: Vec<Hero>,
    next_id: i32,
}

impl View for HeroTable {
    type V = TableView;

    closed spec fn view(&self) -> TableView {
        TableView { rows: views_of(self.rows@), next_id: self.next_id as int }
    }
}

impl HeroTable {
    /// An empty table; the first insert will be assigned id 1.
    pub fn new() -> (t: HeroTable)
        ensures
            t@.rows == Seq::<HeroView>::empty(),
            t@.next_id == 1,
            t@.wf(),
    {
        let t = HeroTable { rows: Vec::new(), next_id: 1 };
        proof {
            assert(t@.rows =~= Seq::<HeroView>::empty());
        }
        t
    }

    /// The id the next insert will be assigned.
    pub fn next_id(&self) -> (r: i32)
        ensures
            r as int == self@.next_id,
    {
        self.next_id
    }
}

impl Hero {
    /// Select the row carrying the given id; `None` when no row matches.
    pub fn fetch(id: i32, table: &HeroTable) -> (r: Option<Hero>)
        ensures
            fetched(r) == row_with_id(table@.rows, id as int),
    {
        let ghost rows: Seq<HeroView> = table@.rows;
        let n: usize = table.rows.len();
        let mut k: usize = 0;
        proof {
            assert(rows.skip(0) =~= rows);
        }
        while k < n
            invariant
                k <= n,
                n == rows.len(),
                rows == table@.rows,
                row_with_id(rows, id as int) == row_with_id(rows.skip(k as int), id as int),
            decreases n - k,
        {
            proof {
                assert(rows.skip(k as int).first() == rows[k as int]);
                assert(rows.skip(k as int).drop_first() =~= rows.skip(k as int + 1));
            }
            if table.rows[k].id == id {
                let h = table.rows[k].clone();
                return Some(h);
            }
            k = k + 1;
        }
        proof {
            assert(rows.skip(n as int) =~= Seq::<HeroView>::empty());
        }
        None
    }

    /// Insert the payload as a fresh row under the next id, and echo the
    /// payload back; the assigned id is not part of the result.
    pub fn create(hero: NewHero, table: &mut HeroTable) -> (r: NewHero)
        requires
            old(table)@.next_id < i32::MAX as int,
        ensures
            final(table)@ == created(old(table)@, hero@),
            old(table)@.wf() ==> final(table)@.wf(),
            r@ == hero@,
    {
        let row = Hero {
            id: table.next_id,
            name: hero.name.clone(),
            identity: hero.identity.clone(),
            hometown: hero.hometown.clone(),
            age: hero.age,
        };
        table.rows.push(row);
        table.next_id = table.next_id + 1;
        proof {
            assert(table@.rows =~= old(table)@.rows.push(hero@.with_id(old(table)@.next_id)));
            assert(table@ == created(old(table)@, hero@));
            if old(table)@.wf() {
                assert forall|i: int, j: int|
                    0 <= i < j < table@.rows.len() implies table@.rows[i].id
                    < table@.rows[j].id by {
                    if j < table@.rows.len() - 1 {
                        assert(old(table)@.rows[i].id < old(table)@.rows[j].id);
                    }
                }
            }
        }
        hero
    }

    /// All rows, in storage order: ascending id order on a well-formed table.
    pub fn read(table: &HeroTable) -> (r: Vec<Hero>)
        ensures
            views_of(r@) == table@.rows,
    {
        let n: usize = table.rows.len();
        let mut out: Vec<Hero> = Vec::new();
        let mut k: usize = 0;
        while k < n
            invariant
                k <= n,
                n == table.rows@.len(),
                out@.len() == k,
                forall|i: int| 0 <= i < k ==> (#[trigger] out@[i])@ == table@.rows[i],
            decreases n - k,
        {
            out.push(table.rows[k].clone());
            k = k + 1;
        }
        proof {
            assert(views_of(out@) =~= table@.rows);
        }
        out
    }

    /// Overwrite all payload fields of the row carrying the given id, keeping
    /// the id itself. The result is true whenever the statement executes,
    /// whether or not any row matched.
    pub fn update(id: i32, hero: NewHero, table: &mut HeroTable) -> (r: bool)
        ensures
            final(table)@.rows == updated(old(table)@.rows, id as int, hero@),
            final(table)@.next_id == old(table)@.next_id,
            old(table)@.wf() ==> final(table)@.wf(),
            r == true,
    {
        let ghost goal: Seq<HeroView> = updated(old(table)@.rows, id as int, hero@);
        let n: usize = table.rows.len();
        let mut out: Vec<Hero> = Vec::new();
        let mut k: usize = 0;
        while k < n
            invariant
                k <= n,
                n == table.rows@.len(),
                *table == *old(table),
                goal == updated(old(table)@.rows, id as int, hero@),
                out@.len() == k,
                forall|i: int| 0 <= i < k ==> (#[trigger] out@[i])@ == goal[i],
            decreases n - k,
        {
            if table.rows[k].id == id {
                out.push(
                    Hero {
                        id: id,
                        name: hero.name.clone(),
                        identity: hero.identity.clone(),
                        hometown: hero.hometown.clone(),
                        age: hero.age,
                    },
                );
            } else {
                out.push(table.rows[k].clone());
            }
            k = k + 1;
        }
        table.rows = out;
        proof {
            assert(table@.rows =~= goal);
            if old(table)@.wf() {
                assert forall|i: int| 0 <= i < table@.rows.len() implies 1 <= (
                #[trigger] table@.rows[i]).id < table@.next_id by {
                    assert(1 <= old(table)@.rows[i].id < old(table)@.next_id);
                }
                assert forall|i: int, j: int|
                    0 <= i < j < table@.rows.len() implies table@.rows[i].id
                    < table@.rows[j].id by {
                    assert(old(table)@.rows[i].id < old(table)@.rows[j].id);
                }
            }
        }
        true
    }

    /// Remove the row carrying the given id; rows with other ids keep their
    /// order, and the next id to assign does not move back. The result is
    /// true whether or not any row matched.
    pub fn delete(id: i32, table: &mut HeroTable) -> (r: bool)
        ensures
            final(table)@.rows == deleted(old(table)@.rows, id as int),
            final(table)@.next_id == old(table)@.next_id,
            old(table)@.wf() ==> final(table)@.wf(),
            r == true,
    {
        let ghost rows: Seq<HeroView> = old(table)@.rows;
        let n: usize = table.rows.len();
        let mut out: Vec<Hero> = Vec::new();
        let mut k: usize = 0;
        proof {
            assert(rows.skip(0) =~= rows);
            assert(views_of(out@) + deleted(rows, id as int) =~= deleted(rows, id as int));
        }
        while k < n
            invariant
                k <= n,
                n == table.rows@.len(),
                *table == *old(table),
                rows == old(table)@.rows,
                deleted(rows, id as int) == views_of(out@) + deleted(
                    rows.skip(k as int),
                    id as int,
                ),
            decreases n - k,
        {
            proof {
                assert(rows.skip(k as int).first() == rows[k as int]);
                assert(rows.skip(k as int).drop_first() =~= rows.skip(k as int + 1));
            }
            if table.rows[k].id != id {
                let ghost before: Seq<HeroView> = views_of(out@);
                out.push(table.rows[k].clone());
                proof {
                    assert(views_of(out@) =~= before + seq![rows[k as int]]);
                    assert((before + seq![rows[k as int]]) + deleted(
                        rows.skip(k as int + 1),
                        id as int,
                    ) =~= before + (seq![rows[k as int]] + deleted(
                        rows.skip(k as int + 1),
                        id as int,
                    )));
                }
            }
            k = k + 1;
        }
        proof {
            assert(rows.skip(n as int) =~= Seq::<HeroView>::empty());
            assert(views_of(out@) + Seq::<HeroView>::empty() =~= views_of(out@));
        }
        table.rows = out;
        proof {
            if old(table)@.wf() {
                lemma_deleted_wf(rows, id as int);
                assert forall|i: int| 0 <= i < table@.rows.len() implies 1 <= (
                #[trigger] table@.rows[i]).id < table@.next_id by {
                    let w = choose|w: int|
                        0 <= w < rows.len() && table@.rows[i] == #[trigger] rows[w];
                    assert(1 <= rows[w].id < old(table)@.next_id);
                }
            }
        }
        true
    }
}

/// Every row that a delete keeps is one of the original rows, and the kept
/// rows stay in strictly ascending id order when the original rows were.
pub proof fn lemma_deleted_wf(rows: Seq<HeroView>, id: int)
    requires
        forall|i: int, j: int| 0 <= i < j < rows.len() ==> rows[i].id < rows[j].id,
    ensures
        forall|j: int|
            0 <= j < deleted(rows, id).len() ==> exists|i: int|
                0 <= i < rows.len() && #[trigger] deleted(rows, id)[j] == rows[i],
        forall|i: int, j: int|
            0 <= i < j < deleted(rows, id).len() ==> deleted(rows, id)[i].id < deleted(
                rows,
                id,
            )[j].id,
    decreases rows.len(),
{
    if rows.len() == 0 {
    } else {
        let rest = rows.drop_first();
        let rec = deleted(rest, id);
        lemma_deleted_wf(rest, id);
        assert forall|j: int| 0 <= j < deleted(rows, id).len() implies exists|i: int|
            0 <= i < rows.len() && #[trigger] deleted(rows, id)[j] == rows[i] by {
            if rows.first().id == id {
                let w = choose|w: int| 0 <= w < rest.len() && deleted(rows, id)[j] == #[trigger] rest[w];
                assert(deleted(rows, id)[j] == rows[w + 1]);
            } else {
                if j == 0 {
                    assert(deleted(rows, id)[0] == rows[0]);
                } else {
                    assert(deleted(rows, id)[j] == rec[j - 1]);
                    let w = choose|w: int| 0 <= w < rest.len() && rec[j - 1] == #[trigger] rest[w];
                    assert(deleted(rows, id)[j] == rows[w + 1]);
                }
            }
        }
        assert forall|i: int, j: int|
            0 <= i < j < deleted(rows, id).len() implies deleted(rows, id)[i].id < deleted(
            rows,
            id,
        )[j].id by {
            if rows.first().id == id {
            } else {
                if i == 0 {
                    assert(deleted(rows, id)[j] == rec[j - 1]);
                    let w = choose|w: int| 0 <= w < rest.len() && rec[j - 1] == #[trigger] rest[w];
                    assert(rec[j - 1] == rows[w + 1]);
                    assert(rows[0].id < rows[w + 1].id);
                } else {
                    assert(deleted(rows, id)[i] == rec[i - 1]);
                    assert(deleted(rows, id)[j] == rec[j - 1]);
                }
            }
        }
    }
}

} // verus!
