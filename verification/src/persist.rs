//! Persistence planning: collapsing one cycle's classified updates into
//! a deduplicated transaction.
//!
//! The cycle's buffers may hold several sightings of the same module for
//! the same user (several subscriptions can cover one course). Before
//! anything is written, the sightings are collapsed to one row per
//! `(user_id, module_id)` key; the last classification observed wins.

use vstd::prelude::*;
use crate::diff::{Update, UpdateType};

verus! {

/// One row of the persistence transaction: the plain facts of one
/// classified sighting, without the module payload.
#[derive(Clone, Copy, Debug, PartialEq, Eq, Structural)]
pub struct PlanRow {
    pub update_type: UpdateType,
    pub user_id: u32,
    pub course_id: u32,
    pub module_id: u32,
}

/// The plan row of one classified update.
pub open spec fn plan_row_of(u: Update) -> PlanRow {
    PlanRow {
        update_type: u.update_type,
        user_id: u.user_id,
        course_id: u.course_id,
        module_id: u.module.id,
    }
}

/// The plan rows of a sequence of classified updates, in order.
pub open spec fn plan_rows(us: Seq<Update>) -> Seq<PlanRow> {
    us.map_values(|u: Update| plan_row_of(u))
}

/// The deduplication key of a row.
pub open spec fn row_key(r: PlanRow) -> (u32, u32) {
    (r.user_id, r.module_id)
}

/// Whether some row of `rs` has key `k`.
pub open spec fn key_in(rs: Seq<PlanRow>, k: (u32, u32)) -> bool {
    exists|i: int| 0 <= i < rs.len() && row_key(rs[i]) == k
}

/// Last-write-wins deduplication: a row is kept exactly when no later
/// row carries the same key, in order of the kept occurrences.
pub open spec fn dedup_last(rs: Seq<PlanRow>) -> Seq<PlanRow>
    decreases rs.len(),
{
    if rs.len() == 0 {
        Seq::empty()
    } else {
        let rest = dedup_last(rs.drop_first());
        if key_in(rs.drop_first(), row_key(rs[0])) {
            rest
        } else {
            seq![rs[0]] + rest
        }
    }
}

/// A key appears in the deduplicated rows exactly when it appears in the
/// input rows.
pub proof fn lemma_dedup_keys(rs: Seq<PlanRow>, k: (u32, u32))
    ensures
        key_in(dedup_last(rs), k) <==> key_in(rs, k),
    decreases rs.len(),
{
    if rs.len() == 0 {
    } else {
        lemma_dedup_keys(rs.drop_first(), k);
        let rest = dedup_last(rs.drop_first());
        if key_in(rs.drop_first(), row_key(rs[0])) {
            if key_in(rs, k) {
                let i = choose|i: int| 0 <= i < rs.len() && row_key(rs[i]) == k;
                if i == 0 {
                    assert(key_in(rs.drop_first(), k));
                } else {
                    assert(row_key(rs.drop_first()[i - 1]) == k);
                }
            }
            if key_in(rs.drop_first(), k) {
                let i = choose|i: int| 0 <= i < rs.drop_first().len() && row_key(
                    rs.drop_first()[i],
                ) == k;
                assert(row_key(rs[i + 1]) == k);
            }
        } else {
            if key_in(rs, k) {
                let i = choose|i: int| 0 <= i < rs.len() && row_key(rs[i]) == k;
                if i == 0 {
                    assert(row_key(dedup_last(rs)[0]) == k);
                } else {
                    assert(row_key(rs.drop_first()[i - 1]) == k);
                    assert(key_in(rest, k));
                    let j = choose|j: int| 0 <= j < rest.len() && row_key(rest[j]) == k;
                    assert(row_key(dedup_last(rs)[j + 1]) == k);
                }
            }
            if key_in(dedup_last(rs), k) {
                let i = choose|i: int| 0 <= i < dedup_last(rs).len() && row_key(
                    dedup_last(rs)[i],
                ) == k;
                if i == 0 {
                    assert(row_key(rs[0]) == k);
                } else {
                    assert(row_key(rest[i - 1]) == k);
                    assert(key_in(rs.drop_first(), k));
                    let j = choose|j: int| 0 <= j < rs.drop_first().len() && row_key(
                        rs.drop_first()[j],
                    ) == k;
                    assert(row_key(rs[j + 1]) == k);
                }
            }
        }
    }
}

/// No two deduplicated rows share a key.
pub proof fn lemma_dedup_unique_keys(rs: Seq<PlanRow>)
    ensures
        forall|i: int, j: int|
            0 <= i < j < dedup_last(rs).len() ==> row_key(dedup_last(rs)[i]) != row_key(
                dedup_last(rs)[j],
            ),
    decreases rs.len(),
{
    if rs.len() == 0 {
    } else {
        lemma_dedup_unique_keys(rs.drop_first());
        let rest = dedup_last(rs.drop_first());
        if !key_in(rs.drop_first(), row_key(rs[0])) {
            lemma_dedup_keys(rs.drop_first(), row_key(rs[0]));
            assert forall|i: int, j: int|
                0 <= i < j < dedup_last(rs).len() implies row_key(dedup_last(rs)[i]) != row_key(
                dedup_last(rs)[j],
            ) by {
                if i == 0 {
                    assert(dedup_last(rs)[j] == rest[j - 1]);
                    assert(row_key(rest[j - 1]) != row_key(rs[0])) by {
                        if row_key(rest[j - 1]) == row_key(rs[0]) {
                            assert(key_in(rest, row_key(rs[0])));
                        }
                    }
                } else {
                    assert(dedup_last(rs)[i] == rest[i - 1]);
                    assert(dedup_last(rs)[j] == rest[j - 1]);
                }
            }
        }
    }
}

/// Every deduplicated row is one of the input rows.
pub proof fn lemma_dedup_membership(rs: Seq<PlanRow>)
    ensures
        forall|i: int|
            0 <= i < dedup_last(rs).len() ==> exists|j: int|
                0 <= j < rs.len() && rs[j] == #[trigger] dedup_last(rs)[i],
    decreases rs.len(),
{
    if rs.len() == 0 {
    } else {
        lemma_dedup_membership(rs.drop_first());
        let rest = dedup_last(rs.drop_first());
        assert forall|i: int| 0 <= i < dedup_last(rs).len() implies exists|j: int|
            0 <= j < rs.len() && rs[j] == #[trigger] dedup_last(rs)[i] by {
            if key_in(rs.drop_first(), row_key(rs[0])) {
                let j = choose|j: int|
                    0 <= j < rs.drop_first().len() && rs.drop_first()[j] == rest[i];
                assert(rs[j + 1] == dedup_last(rs)[i]);
            } else {
                if i == 0 {
                    assert(rs[0] == dedup_last(rs)[0]);
                } else {
                    let j = choose|j: int|
                        0 <= j < rs.drop_first().len() && rs.drop_first()[j] == rest[i - 1];
                    assert(rs[j + 1] == dedup_last(rs)[i]);
                }
            }
        }
    }
}

/// Whether any row at or after `start` carries the key
/// `(user_id, module_id)`.
fn contains_key_from(rows: &Vec<PlanRow>, start: usize, user_id: u32, module_id: u32) -> (b: bool)
    requires
        start <= rows@.len(),
    ensures
        b == key_in(rows@.skip(start as int), (user_id, module_id)),
{
    let mut j: usize = start;
    while j < rows.len()
        invariant
            start <= j <= rows@.len(),
            forall|p: int| start <= p < j ==> row_key(rows@[p]) != (user_id, module_id),
        decreases rows@.len() - j,
    {
        let row = rows[j];
        if row.user_id == user_id && row.module_id == module_id {
            assert(row_key(rows@.skip(start as int)[j - start]) == (user_id, module_id));
            return true;
        }
        j += 1;
    }
    assert forall|i: int|
        0 <= i < rows@.skip(start as int).len() implies row_key(rows@.skip(start as int)[i]) != (
        user_id,
        module_id,
    ) by {
        assert(rows@.skip(start as int)[i] == rows@[start + i]);
    }
    false
}

/// Extracts the plan rows of the classified updates, in order.
fn to_plan_rows(updates: &Vec<Update>) -> (r: Vec<PlanRow>)
    ensures
        r@ == plan_rows(updates@),
{
    let mut r: Vec<PlanRow> = Vec::new();
    let mut i: usize = 0;
    while i < updates.len()
        invariant
            0 <= i <= updates@.len(),
            r@ =~= plan_rows(updates@.take(i as int)),
        decreases updates@.len() - i,
    {
        let u = &updates[i];
        r.push(
            PlanRow {
                update_type: u.update_type,
                user_id: u.user_id,
                course_id: u.course_id,
                module_id: u.module.id,
            },
        );
        assert(r@ =~= plan_rows(updates@.take(i as int + 1)));
        i += 1;
    }
    proof {
        assert(updates@.take(updates@.len() as int) =~= updates@);
    }
    r
}

/// Plans one cycle's persistence transaction: the classified updates,
/// collapsed to one row per `(user_id, module_id)` key, the last
/// classification observed winning.
pub fn plan_group_updates(updates: &Vec<Update>) -> (r: Vec<PlanRow>)
    ensures
        r@ == dedup_last(plan_rows(updates@)),
{
    let rows = to_plan_rows(updates);
    dedup_plan_rows(&rows)
}

/// Collapses plan rows to one per `(user_id, module_id)` key, the last
/// occurrence of each key winning.
pub fn dedup_plan_rows(rows: &Vec<PlanRow>) -> (r: Vec<PlanRow>)
    ensures
        r@ == dedup_last(rows@),
{
    let ghost all = rows@;
    let mut r: Vec<PlanRow> = Vec::new();
    let mut i: usize = 0;
    proof {
        assert(all.skip(0) =~= all);
    }
    while i < rows.len()
        invariant
            0 <= i <= all.len(),
            rows@ == all,
            dedup_last(all) == r@ + dedup_last(all.skip(i as int)),
        decreases all.len() - i,
    {
        let row = rows[i];
        proof {
            assert(all.skip(i as int)[0] == all[i as int]);
            assert(all.skip(i as int).drop_first() =~= all.skip(i as int + 1));
        }
        if !contains_key_from(rows, i + 1, row.user_id, row.module_id) {
            r.push(row);
            proof {
                assert((r@.drop_last() + seq![row]) + dedup_last(all.skip(i as int + 1)) =~= r@
                    .drop_last() + (seq![row] + dedup_last(all.skip(i as int + 1))));
                assert(r@.drop_last() + seq![row] =~= r@);
            }
        }
        i += 1;
    }
    proof {
        assert(all.skip(all.len() as int) =~= Seq::<PlanRow>::empty());
        assert(r@ + Seq::<PlanRow>::empty() =~= r@);
    }
    r
}

/// Deduplication never grows the row list.
pub proof fn lemma_dedup_len(rs: Seq<PlanRow>)
    ensures
        dedup_last(rs).len() <= rs.len(),
    decreases rs.len(),
{
    if rs.len() > 0 {
        lemma_dedup_len(rs.drop_first());
    }
}

} // verus!
