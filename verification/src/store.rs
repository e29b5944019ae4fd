//! In-memory model of the durable subscription store: the table of
//! previously seen modules and the table of subscriptions.
//!
//! The engine's decisions are verified against this model; the
//! surrounding application mirrors each operation onto the real store.

use vstd::prelude::*;
use crate::moodle::response::CourseSection;
use crate::diff::{flatten_sections, spec_diff, UpdateType};
use crate::persist::PlanRow;

verus! {

/// A durable fact: module `module_id` of `course_id` has been seen for
/// `user_id`. `id` is assigned by the store; `updated_at` is refreshed on
/// every subsequent sighting.
#[derive(Clone, Copy, Debug, PartialEq, Eq, Structural)]
pub struct ModuleRecord {
    pub id: u32,
    pub user_id: u32,
    pub course_id: u32,
    pub module_id: u32,
    pub updated_at: i64,
}

/// Whether some record covers module `module_id` of `course_id` for
/// `user_id`.
pub open spec fn spec_has_record(
    rs: Seq<ModuleRecord>,
    user_id: u32,
    course_id: u32,
    module_id: u32,
) -> bool {
    exists|i: int|
        0 <= i < rs.len() && rs[i].user_id == user_id && rs[i].course_id == course_id
            && rs[i].module_id == module_id
}

/// The records of one `(user, course)` pair, in table order.
pub open spec fn spec_matching_records(
    rs: Seq<ModuleRecord>,
    user_id: u32,
    course_id: u32,
) -> Seq<ModuleRecord>
    decreases rs.len(),
{
    if rs.len() == 0 {
        Seq::empty()
    } else {
        let rest = spec_matching_records(rs.drop_last(), user_id, course_id);
        if rs.last().user_id == user_id && rs.last().course_id == course_id {
            rest.push(rs.last())
        } else {
            rest
        }
    }
}

/// `rs` updated so that the record with id `record_id`, if any, carries
/// timestamp `now`.
pub open spec fn spec_touch(rs: Seq<ModuleRecord>, record_id: u32, now: i64) -> Seq<ModuleRecord> {
    Seq::new(
        rs.len(),
        |i: int|
            if rs[i].id == record_id {
                ModuleRecord { updated_at: now, ..rs[i] }
            } else {
                rs[i]
            },
    )
}

/// The table after committing the plan rows in order, with fresh record
/// ids handed out from `next_id`: an `Insert` row appends a new record
/// stamped `now`, an `Update` row refreshes the stamp of its record.
pub open spec fn spec_commit(
    rs: Seq<ModuleRecord>,
    plan: Seq<PlanRow>,
    now: i64,
    next_id: int,
) -> (Seq<ModuleRecord>, int)
    decreases plan.len(),
{
    if plan.len() == 0 {
        (rs, next_id)
    } else {
        let (prev, nid) = spec_commit(rs, plan.drop_last(), now, next_id);
        let row = plan.last();
        match row.update_type {
            crate::diff::UpdateType::Insert => (
                prev.push(
                    ModuleRecord {
                        id: nid as u32,
                        user_id: row.user_id,
                        course_id: row.course_id,
                        module_id: row.module_id,
                        updated_at: now,
                    },
                ),
                nid + 1,
            ),
            crate::diff::UpdateType::Update(record_id) => (spec_touch(prev, record_id, now), nid),
        }
    }
}

/// The table after recording every reportable module of `ms` that has no
/// record yet for `(user_id, course_id)`, in order, stamped `now`.
pub open spec fn spec_save(
    rs: Seq<ModuleRecord>,
    ms: Seq<crate::moodle::response::CourseModule>,
    user_id: u32,
    course_id: u32,
    now: i64,
    next_id: int,
) -> (Seq<ModuleRecord>, int)
    decreases ms.len(),
{
    if ms.len() == 0 {
        (rs, next_id)
    } else {
        let (prev, nid) = spec_save(rs, ms.drop_last(), user_id, course_id, now, next_id);
        let m = ms.last();
        if m.spec_is_reportable() && !spec_has_record(prev, user_id, course_id, m.id) {
            (
                prev.push(
                    ModuleRecord {
                        id: nid as u32,
                        user_id,
                        course_id,
                        module_id: m.id,
                        updated_at: now,
                    },
                ),
                nid + 1,
            )
        } else {
            (prev, nid)
        }
    }
}

/// The model of the durable `user_course_module` table: the recorded
/// sightings, and the next storage-assigned record id.
#[derive(Debug, Clone)]
pub struct ModuleTable {
    pub records: Vec<ModuleRecord>,
    pub next_id: u32,
}

impl ModuleTable {
    /// An empty table; record ids are handed out from 1, as a relational
    /// store would.
    pub fn new() -> (r: Self)
        ensures
            r.records@ == Seq::<ModuleRecord>::empty(),
            r.next_id == 1,
    {
        ModuleTable { records: Vec::new(), next_id: 1 }
    }

    /// Whether module `module_id` of `course_id` is recorded for
    /// `user_id`.
    #[verifier::loop_isolation(false)]
    pub fn has_record(&self, user_id: u32, course_id: u32, module_id: u32) -> (b: bool)
        ensures
            b == spec_has_record(self.records@, user_id, course_id, module_id),
    {
        let rs = &self.records;
        let mut i: usize = 0;
        while i < rs.len()
            invariant
                0 <= i <= rs@.len(),
                forall|p: int|
                    0 <= p < i ==> !(rs@[p].user_id == user_id && rs@[p].course_id == course_id
                        && rs@[p].module_id == module_id),
            decreases rs@.len() - i,
        {
            let rec = rs[i];
            if rec.user_id == user_id && rec.course_id == course_id && rec.module_id == module_id {
                assert(rs@[i as int].user_id == user_id && rs@[i as int].course_id == course_id
                    && rs@[i as int].module_id == module_id);
                return true;
            }
            i += 1;
        }
        false
    }

    /// Loads the records of one `(user, course)` pair, in table order.
    pub fn lookup_records(&self, user_id: u32, course_id: u32) -> (r: Vec<ModuleRecord>)
        ensures
            r@ == spec_matching_records(self.records@, user_id, course_id),
    {
        let rs = &self.records;
        let mut r: Vec<ModuleRecord> = Vec::new();
        let mut i: usize = 0;
        proof {
            assert(rs@.take(0) =~= Seq::<ModuleRecord>::empty());
        }
        while i < rs.len()
            invariant
                0 <= i <= rs@.len(),
                r@ == spec_matching_records(rs@.take(i as int), user_id, course_id),
            decreases rs@.len() - i,
        {
            let rec = rs[i];
            proof {
                assert(rs@.take(i as int + 1).drop_last() =~= rs@.take(i as int));
                assert(rs@.take(i as int + 1).last() == rs@[i as int]);
            }
            if rec.user_id == user_id && rec.course_id == course_id {
                r.push(rec);
            }
            i += 1;
        }
        proof {
            assert(rs@.take(rs@.len() as int) =~= rs@);
        }
        r
    }

    /// Records every reportable module of the content tree that has no
    /// record yet for `(user_id, course_id)`, stamped `now`. Called once
    /// when a subscription is created, so that existing content is not
    /// later announced as new.
    #[verifier::loop_isolation(false)]
    pub fn save_course_modules(
        &mut self,
        user_id: u32,
        course_id: u32,
        course_content: &Vec<CourseSection>,
        now: i64,
    )
        requires
            old(self).next_id + flatten_sections(course_content@).len() <= u32::MAX,
        ensures
            (final(self).records@, final(self).next_id as int) == spec_save(
                old(self).records@,
                flatten_sections(course_content@),
                user_id,
                course_id,
                now,
                old(self).next_id as int,
            ),
    {
        let ghost all = flatten_sections(course_content@);
        let ghost rs0 = self.records@;
        let ghost nid0 = self.next_id as int;
        let mut i: usize = 0;
        proof {
            assert(course_content@.take(0) =~= Seq::<CourseSection>::empty());
            assert(flatten_sections(course_content@.take(0)) =~= Seq::<
                crate::moodle::response::CourseModule,
            >::empty());
        }
        while i < course_content.len()
            invariant
                0 <= i <= course_content@.len(),
                nid0 + all.len() <= u32::MAX,
                (self.records@, self.next_id as int) == spec_save(
                    rs0,
                    flatten_sections(course_content@.take(i as int)),
                    user_id,
                    course_id,
                    now,
                    nid0,
                ),
            decreases course_content@.len() - i,
        {
            let section = &course_content[i];
            let ghost prefix = flatten_sections(course_content@.take(i as int));
            let mut j: usize = 0;
            proof {
                lemma_flatten_prefix_len(course_content@, i as int);
                assert(prefix + section.modules@.take(0) =~= prefix);
            }
            while j < section.modules.len()
                invariant
                    0 <= j <= section.modules@.len(),
                    section == course_content@[i as int],
                    0 <= i < course_content@.len(),
                    nid0 + all.len() <= u32::MAX,
                    prefix == flatten_sections(course_content@.take(i as int)),
                    (prefix + section.modules@.take(j as int)).len() <= all.len(),
                    (self.records@, self.next_id as int) == spec_save(
                        rs0,
                        prefix + section.modules@.take(j as int),
                        user_id,
                        course_id,
                        now,
                        nid0,
                    ),
                decreases section.modules@.len() - j,
            {
                let m = &section.modules[j];
                proof {
                    assert((prefix + section.modules@.take(j as int + 1)).drop_last() =~= prefix
                        + section.modules@.take(j as int));
                    assert((prefix + section.modules@.take(j as int + 1)).last()
                        == section.modules@[j as int]);
                    lemma_spec_save_next_id(
                        rs0,
                        prefix + section.modules@.take(j as int),
                        user_id,
                        course_id,
                        now,
                        nid0,
                    );
                    lemma_flatten_prefix_module_len(course_content@, i as int, j as int + 1);
                }
                match m.get_id() {
                    Some(module_id) => {
                        if !self.has_record(user_id, course_id, module_id) {
                            let rec = ModuleRecord {
                                id: self.next_id,
                                user_id,
                                course_id,
                                module_id,
                                updated_at: now,
                            };
                            self.records.push(rec);
                            self.next_id = self.next_id + 1;
                        }
                    }
                    None => {
                    }
                }
                j += 1;
            }
            proof {
                assert(section.modules@.take(section.modules@.len() as int) =~= section.modules@);
                assert(course_content@.take(i as int + 1).drop_last() =~= course_content@.take(
                    i as int,
                ));
                crate::diff::lemma_flatten_snoc(course_content@.take(i as int + 1));
                assert(course_content@.take(i as int + 1).last() == course_content@[i as int]);
            }
            i += 1;
        }
        proof {
            assert(course_content@.take(course_content@.len() as int) =~= course_content@);
        }
    }

    /// Commits one cycle's transaction: the plan rows, in order, against
    /// this table, all stamped `now`.
    pub fn commit_updates(&mut self, plan: &Vec<PlanRow>, now: i64)
        requires
            old(self).next_id + plan@.len() <= u32::MAX,
        ensures
            (final(self).records@, final(self).next_id as int) == spec_commit(
                old(self).records@,
                plan@,
                now,
                old(self).next_id as int,
            ),
    {
        let ghost rs0 = self.records@;
        let ghost nid0 = self.next_id as int;
        let mut i: usize = 0;
        proof {
            assert(plan@.take(0) =~= Seq::<PlanRow>::empty());
        }
        while i < plan.len()
            invariant
                0 <= i <= plan@.len(),
                nid0 + plan@.len() <= u32::MAX,
                (self.records@, self.next_id as int) == spec_commit(
                    rs0,
                    plan@.take(i as int),
                    now,
                    nid0,
                ),
            decreases plan@.len() - i,
        {
            let row = plan[i];
            proof {
                assert(plan@.take(i as int + 1).drop_last() =~= plan@.take(i as int));
                assert(plan@.take(i as int + 1).last() == plan@[i as int]);
                lemma_spec_commit_next_id(rs0, plan@.take(i as int), now, nid0);
            }
            match row.update_type {
                crate::diff::UpdateType::Insert => {
                    let rec = ModuleRecord {
                        id: self.next_id,
                        user_id: row.user_id,
                        course_id: row.course_id,
                        module_id: row.module_id,
                        updated_at: now,
                    };
                    self.records.push(rec);
                    self.next_id = self.next_id + 1;
                }
                crate::diff::UpdateType::Update(record_id) => {
                    self.touch(record_id, now);
                }
            }
            i += 1;
        }
        proof {
            assert(plan@.take(plan@.len() as int) =~= plan@);
        }
    }

    /// Commits one cycle's transaction stamped with the current
    /// wall-clock time, as the persistence step of a live cycle does.
    pub fn commit_updates_now(&mut self, plan: &Vec<PlanRow>)
        requires
            old(self).next_id + plan@.len() <= u32::MAX,
        ensures
            exists|now: i64|
                (final(self).records@, final(self).next_id as int) == spec_commit(
                    old(self).records@,
                    plan@,
                    now,
                    old(self).next_id as int,
                ),
    {
        let now = crate::clock::now_timestamp();
        self.commit_updates(plan, now);
    }

    /// Refreshes the timestamp of the record with id `record_id`, if it
    /// exists.
    fn touch(&mut self, record_id: u32, now: i64)
        ensures
            final(self).records@ == spec_touch(old(self).records@, record_id, now),
            final(self).next_id == old(self).next_id,
    {
        let ghost rs0 = self.records@;
        let mut out: Vec<ModuleRecord> = Vec::new();
        let mut i: usize = 0;
        while i < self.records.len()
            invariant
                0 <= i <= rs0.len(),
                self.records@ == rs0,
                self.next_id == old(self).next_id,
                out@.len() == i,
                forall|p: int|
                    0 <= p < i ==> out@[p] == (if rs0[p].id == record_id {
                        ModuleRecord { updated_at: now, ..rs0[p] }
                    } else {
                        rs0[p]
                    }),
            decreases rs0.len() - i,
        {
            let mut rec = self.records[i];
            if rec.id == record_id {
                rec.updated_at = now;
            }
            out.push(rec);
            i += 1;
        }
        self.records = out;
        proof {
            assert(final(self).records@ =~= spec_touch(rs0, record_id, now));
        }
    }
}

/// Saving never decreases the id counter, and advances it by at most one
/// per module.
pub proof fn lemma_spec_save_next_id(
    rs: Seq<ModuleRecord>,
    ms: Seq<crate::moodle::response::CourseModule>,
    user_id: u32,
    course_id: u32,
    now: i64,
    next_id: int,
)
    ensures
        next_id <= spec_save(rs, ms, user_id, course_id, now, next_id).1 <= next_id + ms.len(),
    decreases ms.len(),
{
    if ms.len() > 0 {
        lemma_spec_save_next_id(rs, ms.drop_last(), user_id, course_id, now, next_id);
    }
}

/// Committing never decreases the id counter, and advances it by at most
/// one per plan row.
pub proof fn lemma_spec_commit_next_id(
    rs: Seq<ModuleRecord>,
    plan: Seq<PlanRow>,
    now: i64,
    next_id: int,
)
    ensures
        next_id <= spec_commit(rs, plan, now, next_id).1 <= next_id + plan.len(),
    decreases plan.len(),
{
    if plan.len() > 0 {
        lemma_spec_commit_next_id(rs, plan.drop_last(), now, next_id);
    }
}

/// How many records cover module `module_id` of `course_id` for
/// `user_id`.
pub open spec fn spec_count_records(
    rs: Seq<ModuleRecord>,
    user_id: u32,
    course_id: u32,
    module_id: u32,
) -> nat
    decreases rs.len(),
{
    if rs.len() == 0 {
        0
    } else {
        spec_count_records(rs.drop_last(), user_id, course_id, module_id) + if rs.last().user_id
            == user_id && rs.last().course_id == course_id && rs.last().module_id == module_id {
            1nat
        } else {
            0nat
        }
    }
}

/// The records of a `(user, course)` pair are exactly the table's
/// records that carry that pair.
pub proof fn lemma_matching_records_elems(rs: Seq<ModuleRecord>, user_id: u32, course_id: u32)
    ensures
        forall|k: int|
            0 <= k < spec_matching_records(rs, user_id, course_id).len() ==> {
                let rec = #[trigger] spec_matching_records(rs, user_id, course_id)[k];
                rec.user_id == user_id && rec.course_id == course_id && rs.contains(rec)
            },
        forall|i: int|
            0 <= i < rs.len() && (#[trigger] rs[i]).user_id == user_id && rs[i].course_id
                == course_id ==> spec_matching_records(rs, user_id, course_id).contains(rs[i]),
    decreases rs.len(),
{
    if rs.len() > 0 {
        lemma_matching_records_elems(rs.drop_last(), user_id, course_id);
        let m = spec_matching_records(rs, user_id, course_id);
        let prev = spec_matching_records(rs.drop_last(), user_id, course_id);
        assert forall|k: int| 0 <= k < m.len() implies {
            let rec = #[trigger] m[k];
            rec.user_id == user_id && rec.course_id == course_id && rs.contains(rec)
        } by {
            if k < prev.len() {
                assert(m[k] == prev[k]);
                let i = choose|i: int| 0 <= i < rs.drop_last().len() && rs.drop_last()[i] == m[k];
                assert(rs[i] == m[k]);
            } else {
                assert(m[k] == rs.last());
                assert(rs[rs.len() - 1] == rs.last());
            }
        }
        assert forall|i: int|
            0 <= i < rs.len() && (#[trigger] rs[i]).user_id == user_id && rs[i].course_id
                == course_id implies m.contains(rs[i]) by {
            if i < rs.len() - 1 {
                assert(rs.drop_last()[i] == rs[i]);
                assert(prev.contains(rs[i]));
                let k = choose|k: int| 0 <= k < prev.len() && prev[k] == rs[i];
                assert(m[k] == rs[i]);
            } else {
                assert(m[m.len() - 1] == rs[i]);
            }
        }
    }
}

/// Refreshing a timestamp leaves the key fields of every record as they
/// were, so the per-key counts are unchanged.
pub proof fn lemma_touch_count(
    rs: Seq<ModuleRecord>,
    record_id: u32,
    now: i64,
    user_id: u32,
    course_id: u32,
    module_id: u32,
)
    ensures
        spec_count_records(spec_touch(rs, record_id, now), user_id, course_id, module_id)
            == spec_count_records(rs, user_id, course_id, module_id),
    decreases rs.len(),
{
    if rs.len() > 0 {
        assert(spec_touch(rs, record_id, now).drop_last() =~= spec_touch(
            rs.drop_last(),
            record_id,
            now,
        ));
        lemma_touch_count(rs.drop_last(), record_id, now, user_id, course_id, module_id);
    }
}

/// How many `Insert` rows of the plan carry the exact
/// `(user, course, module)` triple.
pub open spec fn spec_count_insert_rows(
    plan: Seq<PlanRow>,
    user_id: u32,
    course_id: u32,
    module_id: u32,
) -> nat
    decreases plan.len(),
{
    if plan.len() == 0 {
        0
    } else {
        spec_count_insert_rows(plan.drop_last(), user_id, course_id, module_id) + if plan.last()
            .update_type is Insert && plan.last().user_id == user_id && plan.last().course_id
            == course_id && plan.last().module_id == module_id {
            1nat
        } else {
            0nat
        }
    }
}

/// Committing adds one record per matching `Insert` row and otherwise
/// leaves the count of a `(user, course, module)` triple alone.
pub proof fn lemma_commit_count(
    rs: Seq<ModuleRecord>,
    plan: Seq<PlanRow>,
    now: i64,
    next_id: int,
    user_id: u32,
    course_id: u32,
    module_id: u32,
)
    ensures
        spec_count_records(spec_commit(rs, plan, now, next_id).0, user_id, course_id, module_id)
            == spec_count_records(rs, user_id, course_id, module_id) + spec_count_insert_rows(
            plan,
            user_id,
            course_id,
            module_id,
        ),
    decreases plan.len(),
{
    if plan.len() > 0 {
        lemma_commit_count(rs, plan.drop_last(), now, next_id, user_id, course_id, module_id);
        let (prev, nid) = spec_commit(rs, plan.drop_last(), now, next_id);
        match plan.last().update_type {
            crate::diff::UpdateType::Insert => {
                let rec = ModuleRecord {
                    id: nid as u32,
                    user_id: plan.last().user_id,
                    course_id: plan.last().course_id,
                    module_id: plan.last().module_id,
                    updated_at: now,
                };
                assert(prev.push(rec).drop_last() =~= prev);
            }
            crate::diff::UpdateType::Update(record_id) => {
                lemma_touch_count(prev, record_id, now, user_id, course_id, module_id);
            }
        }
    }
}

/// A record of the triple exists after a commit exactly when one
/// existed before or a matching `Insert` row was committed.
pub proof fn lemma_commit_has_record(
    rs: Seq<ModuleRecord>,
    plan: Seq<PlanRow>,
    now: i64,
    next_id: int,
    user_id: u32,
    course_id: u32,
    module_id: u32,
)
    ensures
        spec_has_record(spec_commit(rs, plan, now, next_id).0, user_id, course_id, module_id) == (
        spec_has_record(rs, user_id, course_id, module_id) || spec_count_insert_rows(
            plan,
            user_id,
            course_id,
            module_id,
        ) > 0),
{
    lemma_commit_count(rs, plan, now, next_id, user_id, course_id, module_id);
    lemma_count_has(rs, user_id, course_id, module_id);
    lemma_count_has(
        spec_commit(rs, plan, now, next_id).0,
        user_id,
        course_id,
        module_id,
    );
}

/// A record of the triple exists exactly when its count is positive.
pub proof fn lemma_count_has(rs: Seq<ModuleRecord>, user_id: u32, course_id: u32, module_id: u32)
    ensures
        spec_has_record(rs, user_id, course_id, module_id) == (spec_count_records(
            rs,
            user_id,
            course_id,
            module_id,
        ) > 0),
    decreases rs.len(),
{
    if rs.len() > 0 {
        lemma_count_has(rs.drop_last(), user_id, course_id, module_id);
        if spec_has_record(rs, user_id, course_id, module_id) {
            let i = choose|i: int|
                0 <= i < rs.len() && (#[trigger] rs[i]).user_id == user_id && rs[i].course_id
                    == course_id && rs[i].module_id == module_id;
            if i < rs.len() - 1 {
                assert(rs.drop_last()[i] == rs[i]);
                assert(spec_has_record(rs.drop_last(), user_id, course_id, module_id));
            }
        }
        if spec_has_record(rs.drop_last(), user_id, course_id, module_id) {
            let i = choose|i: int|
                0 <= i < rs.drop_last().len() && (#[trigger] rs.drop_last()[i]).user_id == user_id
                    && rs.drop_last()[i].course_id == course_id && rs.drop_last()[i].module_id
                    == module_id;
            assert(rs[i].user_id == user_id && rs[i].course_id == course_id && rs[i].module_id
                == module_id);
        }
        if spec_count_records(rs, user_id, course_id, module_id) > 0 && !(rs.last().user_id
            == user_id && rs.last().course_id == course_id && rs.last().module_id == module_id) {
            assert(spec_count_records(rs.drop_last(), user_id, course_id, module_id) > 0);
        }
        if rs.last().user_id == user_id && rs.last().course_id == course_id && rs.last().module_id
            == module_id {
            assert(rs[rs.len() - 1].user_id == user_id);
            assert(spec_has_record(rs, user_id, course_id, module_id));
        }
    }
}

/// A commit whose plan holds only `Update` rows refreshes the stamps of
/// exactly the touched record ids and changes nothing else.
pub proof fn lemma_commit_updates_only(
    rs: Seq<ModuleRecord>,
    plan: Seq<PlanRow>,
    now: i64,
    next_id: int,
)
    requires
        forall|i: int| 0 <= i < plan.len() ==> (#[trigger] plan[i].update_type) matches UpdateType::Update(_),
    ensures
        spec_commit(rs, plan, now, next_id).1 == next_id,
        spec_commit(rs, plan, now, next_id).0.len() == rs.len(),
        forall|p: int|
            0 <= p < rs.len() ==> #[trigger] spec_commit(rs, plan, now, next_id).0[p] == (if exists|
                i: int,
            |
                0 <= i < plan.len() && #[trigger] plan[i].update_type == UpdateType::Update(
                    rs[p].id,
                ) {
                ModuleRecord { updated_at: now, ..rs[p] }
            } else {
                rs[p]
            }),
    decreases plan.len(),
{
    if plan.len() > 0 {
        assert(plan[plan.len() - 1].update_type matches UpdateType::Update(_));
        lemma_commit_updates_only(rs, plan.drop_last(), now, next_id);
        let (prev, nid) = spec_commit(rs, plan.drop_last(), now, next_id);
        let rid = plan.last().update_type->Update_0;
        assert(plan.last().update_type == UpdateType::Update(rid));
        assert forall|p: int|
            0 <= p < rs.len() implies #[trigger] spec_commit(rs, plan, now, next_id).0[p] == (if
        exists|i: int|
            0 <= i < plan.len() && #[trigger] plan[i].update_type == UpdateType::Update(rs[p].id) {
            ModuleRecord { updated_at: now, ..rs[p] }
        } else {
            rs[p]
        }) by {
            assert(spec_commit(rs, plan, now, next_id).0[p] == (if prev[p].id == rid {
                ModuleRecord { updated_at: now, ..prev[p] }
            } else {
                prev[p]
            }));
            if exists|i: int|
                0 <= i < plan.drop_last().len() && #[trigger] plan.drop_last()[i].update_type
                    == UpdateType::Update(rs[p].id) {
                let i = choose|i: int|
                    0 <= i < plan.drop_last().len() && #[trigger] plan.drop_last()[i].update_type
                        == UpdateType::Update(rs[p].id);
                assert(plan[i].update_type == UpdateType::Update(rs[p].id));
            }
            if prev[p].id == rid {
                assert(rs[p].id == rid);
                assert(plan[plan.len() - 1].update_type == UpdateType::Update(rs[p].id));
            }
            if exists|i: int|
                0 <= i < plan.len() && #[trigger] plan[i].update_type == UpdateType::Update(
                    rs[p].id,
                ) {
                let i = choose|i: int|
                    0 <= i < plan.len() && #[trigger] plan[i].update_type == UpdateType::Update(
                        rs[p].id,
                    );
                if i < plan.len() - 1 {
                    assert(plan.drop_last()[i].update_type == UpdateType::Update(rs[p].id));
                } else {
                    assert(rs[p].id == rid);
                }
            }
        }
    }
}

/// A flattened prefix of the sections is no longer than the whole.
pub proof fn lemma_flatten_prefix_len(ss: Seq<CourseSection>, i: int)
    requires
        0 <= i <= ss.len(),
    ensures
        flatten_sections(ss.take(i)).len() <= flatten_sections(ss).len(),
    decreases ss.len() - i,
{
    if i < ss.len() {
        crate::diff::lemma_flatten_snoc(ss.take(i + 1));
        assert(ss.take(i + 1).drop_last() =~= ss.take(i));
        lemma_flatten_prefix_len(ss, i + 1);
        if i + 1 == ss.len() {
            assert(ss.take(i + 1) =~= ss);
        }
    } else {
        assert(ss.take(i) =~= ss);
    }
}

/// A flattened prefix extended by part of the next section is no longer
/// than the whole flattening.
pub proof fn lemma_flatten_prefix_module_len(ss: Seq<CourseSection>, i: int, j: int)
    requires
        0 <= i < ss.len(),
        0 <= j <= ss[i].modules@.len(),
    ensures
        (flatten_sections(ss.take(i)) + ss[i].modules@.take(j)).len() <= flatten_sections(
            ss,
        ).len(),
    decreases 0int,
{
    crate::diff::lemma_flatten_snoc(ss.take(i + 1));
    assert(ss.take(i + 1).drop_last() =~= ss.take(i));
    assert(ss.take(i + 1).last() == ss[i]);
    lemma_flatten_prefix_len(ss, i + 1);
}

/// An `Insert` row of the exact triple makes the insert count positive.
proof fn lemma_insert_rows_pos(
    plan: Seq<PlanRow>,
    w: int,
    user_id: u32,
    course_id: u32,
    module_id: u32,
)
    requires
        0 <= w < plan.len(),
        plan[w].update_type is Insert,
        plan[w].user_id == user_id,
        plan[w].course_id == course_id,
        plan[w].module_id == module_id,
    ensures
        spec_count_insert_rows(plan, user_id, course_id, module_id) > 0,
    decreases plan.len(),
{
    if w < plan.len() - 1 {
        assert(plan.drop_last()[w] == plan[w]);
        lemma_insert_rows_pos(plan.drop_last(), w, user_id, course_id, module_id);
    }
}

/// Without a row keyed `(user, module)` there is no matching insert.
proof fn lemma_insert_rows_none(plan: Seq<PlanRow>, user_id: u32, course_id: u32, module_id: u32)
    requires
        forall|i: int|
            0 <= i < plan.len() ==> crate::persist::row_key(#[trigger] plan[i]) != (
                user_id,
                module_id,
            ),
    ensures
        spec_count_insert_rows(plan, user_id, course_id, module_id) == 0,
    decreases plan.len(),
{
    if plan.len() > 0 {
        assert(plan.drop_last().len() < plan.len());
        assert forall|i: int|
            0 <= i < plan.drop_last().len() implies crate::persist::row_key(
            #[trigger] plan.drop_last()[i],
        ) != (user_id, module_id) by {
            assert(plan.drop_last()[i] == plan[i]);
        }
        lemma_insert_rows_none(plan.drop_last(), user_id, course_id, module_id);
        assert(crate::persist::row_key(plan[plan.len() - 1]) != (user_id, module_id));
    }
}

/// With unique keys, one matching `Insert` row is the only one.
proof fn lemma_insert_rows_once(plan: Seq<PlanRow>, user_id: u32, course_id: u32, module_id: u32)
    requires
        forall|i: int, j: int|
            0 <= i < j < plan.len() ==> crate::persist::row_key(plan[i])
                != crate::persist::row_key(plan[j]),
        exists|i: int|
            0 <= i < plan.len() && #[trigger] plan[i] == (PlanRow {
                update_type: UpdateType::Insert,
                user_id,
                course_id,
                module_id,
            }),
    ensures
        spec_count_insert_rows(plan, user_id, course_id, module_id) == 1,
    decreases plan.len(),
{
    let w = choose|i: int|
        0 <= i < plan.len() && #[trigger] plan[i] == (PlanRow {
            update_type: UpdateType::Insert,
            user_id,
            course_id,
            module_id,
        });
    if w == plan.len() - 1 {
        assert forall|i: int|
            0 <= i < plan.drop_last().len() implies crate::persist::row_key(
            #[trigger] plan.drop_last()[i],
        ) != (user_id, module_id) by {
            assert(plan.drop_last()[i] == plan[i]);
            assert(crate::persist::row_key(plan[i]) != crate::persist::row_key(plan[w]));
        }
        lemma_insert_rows_none(plan.drop_last(), user_id, course_id, module_id);
    } else {
        assert(plan.drop_last()[w] == plan[w]);
        assert forall|i: int, j: int|
            0 <= i < j < plan.drop_last().len() implies crate::persist::row_key(plan.drop_last()[i])
            != crate::persist::row_key(plan.drop_last()[j]) by {
            assert(plan.drop_last()[i] == plan[i]);
            assert(plan.drop_last()[j] == plan[j]);
        }
        lemma_insert_rows_once(plan.drop_last(), user_id, course_id, module_id);
        assert(crate::persist::row_key(plan[plan.len() - 1]) != crate::persist::row_key(plan[w]));
        assert(!(plan.last().update_type is Insert && plan.last().user_id == user_id
            && plan.last().course_id == course_id && plan.last().module_id == module_id));
    }
}

/// Deduplication law: when a cycle's deduplicated plan carries an
/// `Insert` of a `(user, course, module)` triple that has no record
/// yet, exactly one record of the triple exists after the commit —
/// however many subscriptions sighted the module in that cycle.
pub proof fn lemma_dedup_single_record(
    rs: Seq<ModuleRecord>,
    plan: Seq<PlanRow>,
    now: i64,
    next_id: int,
    user_id: u32,
    course_id: u32,
    module_id: u32,
)
    requires
        forall|i: int, j: int|
            0 <= i < j < plan.len() ==> crate::persist::row_key(plan[i])
                != crate::persist::row_key(plan[j]),
        exists|i: int|
            0 <= i < plan.len() && #[trigger] plan[i] == (PlanRow {
                update_type: UpdateType::Insert,
                user_id,
                course_id,
                module_id,
            }),
        spec_count_records(rs, user_id, course_id, module_id) == 0,
    ensures
        spec_count_records(
            spec_commit(rs, plan, now, next_id).0,
            user_id,
            course_id,
            module_id,
        ) == 1,
{
    lemma_insert_rows_once(plan, user_id, course_id, module_id);
    lemma_commit_count(rs, plan, now, next_id, user_id, course_id, module_id);
}

/// Idempotence law: checking the same course content twice commits no
/// new record in the second cycle — its diff classifies no module as
/// `Insert` — and the second commit refreshes the timestamp of every
/// reportable module of the content.
pub proof fn lemma_cycle_idempotent(
    rs0: Seq<ModuleRecord>,
    next_id0: int,
    ms: Seq<crate::moodle::response::CourseModule>,
    user_id: u32,
    course_id: u32,
    now1: i64,
    now2: i64,
)
    ensures
        ({
            let us1 = spec_diff(
                ms,
                spec_matching_records(rs0, user_id, course_id),
                user_id,
                course_id,
            );
            let rs1 = spec_commit(
                rs0,
                crate::persist::dedup_last(crate::persist::plan_rows(us1)),
                now1,
                next_id0,
            ).0;
            let us2 = spec_diff(
                ms,
                spec_matching_records(rs1, user_id, course_id),
                user_id,
                course_id,
            );
            forall|k: int| 0 <= k < us2.len() ==> !((#[trigger] us2[k]).update_type is Insert)
        }),
        ({
            let us1 = spec_diff(
                ms,
                spec_matching_records(rs0, user_id, course_id),
                user_id,
                course_id,
            );
            let c1 = spec_commit(
                rs0,
                crate::persist::dedup_last(crate::persist::plan_rows(us1)),
                now1,
                next_id0,
            );
            let us2 = spec_diff(
                ms,
                spec_matching_records(c1.0, user_id, course_id),
                user_id,
                course_id,
            );
            let rs2 = spec_commit(
                c1.0,
                crate::persist::dedup_last(crate::persist::plan_rows(us2)),
                now2,
                c1.1,
            ).0;
            forall|k: int|
                0 <= k < ms.len() && (#[trigger] ms[k]).spec_is_reportable() ==> exists|p: int|
                    0 <= p < rs2.len() && (#[trigger] rs2[p]).user_id == user_id
                        && rs2[p].course_id == course_id && rs2[p].module_id == ms[k].id
                        && rs2[p].updated_at == now2
        }),
{
    let records1 = spec_matching_records(rs0, user_id, course_id);
    let us1 = spec_diff(ms, records1, user_id, course_id);
    let rows1 = crate::persist::plan_rows(us1);
    let plan1 = crate::persist::dedup_last(rows1);
    let c1 = spec_commit(rs0, plan1, now1, next_id0);
    let rs1 = c1.0;
    let records2 = spec_matching_records(rs1, user_id, course_id);
    let us2 = spec_diff(ms, records2, user_id, course_id);
    let rows2 = crate::persist::plan_rows(us2);
    let plan2 = crate::persist::dedup_last(rows2);
    let rs2 = spec_commit(rs1, plan2, now2, c1.1).0;

    crate::diff::lemma_diff_uniform(ms, records1, user_id, course_id);
    crate::diff::lemma_diff_modules(ms, records1, user_id, course_id);
    crate::diff::lemma_diff_uniform(ms, records2, user_id, course_id);
    crate::diff::lemma_diff_modules(ms, records2, user_id, course_id);
    lemma_matching_records_elems(rs0, user_id, course_id);
    lemma_matching_records_elems(rs1, user_id, course_id);

    // Every reportable module of the content has a record after the
    // first commit.
    assert forall|k: int|
        0 <= k < ms.len() && (#[trigger] ms[k]).spec_is_reportable() implies spec_has_record(
        rs1,
        user_id,
        course_id,
        ms[k].id,
    ) by {
        let mid = ms[k].id;
        crate::diff::lemma_find_record(records1, mid);
        lemma_commit_has_record(rs0, plan1, now1, next_id0, user_id, course_id, mid);
        if crate::diff::spec_find_record(records1, mid) is Some {
            let r = crate::diff::spec_find_record(records1, mid)->0;
            assert(records1.contains(r));
            let q = choose|q: int| 0 <= q < records1.len() && records1[q] == r;
            let w = choose|w: int| 0 <= w < rs0.len() && rs0[w] == r;
            assert(rs0[w].user_id == user_id && rs0[w].course_id == course_id && rs0[w].module_id
                == mid);
            assert(spec_has_record(rs0, user_id, course_id, mid));
        } else {
            crate::diff::lemma_diff_covers(ms, records1, user_id, course_id, k);
            let j = choose|j: int|
                0 <= j < us1.len() && (#[trigger] us1[j]).module.id == mid;
            assert(rows1[j] == crate::persist::plan_row_of(us1[j]));
            assert(crate::persist::row_key(rows1[j]) == (user_id, mid));
            assert(crate::persist::key_in(rows1, (user_id, mid)));
            crate::persist::lemma_dedup_keys(rows1, (user_id, mid));
            let d = choose|d: int|
                0 <= d < plan1.len() && crate::persist::row_key(#[trigger] plan1[d]) == (
                    user_id,
                    mid,
                );
            crate::persist::lemma_dedup_membership(rows1);
            let e = choose|e: int| 0 <= e < rows1.len() && rows1[e] == plan1[d];
            assert(rows1[e] == crate::persist::plan_row_of(us1[e]));
            assert(us1[e].module.id == mid);
            assert(us1[e].update_type == crate::diff::spec_classify_type(records1, mid));
            assert(plan1[d].update_type is Insert && plan1[d].user_id == user_id
                && plan1[d].course_id == course_id && plan1[d].module_id == mid);
            lemma_insert_rows_pos(plan1, d, user_id, course_id, mid);
        }
    }

    // First claim: the second diff classifies nothing as an insert.
    assert forall|k: int|
        0 <= k < us2.len() implies !((#[trigger] us2[k]).update_type is Insert) by {
        let m = us2[k].module;
        let j = choose|j: int|
            0 <= j < ms.len() && #[trigger] ms[j] == (#[trigger] us2[k]).module
                && ms[j].spec_is_reportable();
        assert(spec_has_record(rs1, user_id, course_id, m.id));
        let w = choose|w: int|
            0 <= w < rs1.len() && rs1[w].user_id == user_id && rs1[w].course_id == course_id
                && rs1[w].module_id == m.id;
        assert(records2.contains(rs1[w]));
        let q = choose|q: int| 0 <= q < records2.len() && records2[q] == rs1[w];
        crate::diff::lemma_find_record(records2, m.id);
        assert(crate::diff::spec_find_record(records2, m.id) is Some);
        assert(us2[k].update_type == crate::diff::spec_classify_type(records2, m.id));
    }

    // Second claim: the second commit stamps every reportable module.
    assert forall|i: int|
        0 <= i < plan2.len() implies (#[trigger] plan2[i].update_type)
        matches UpdateType::Update(_) by {
        crate::persist::lemma_dedup_membership(rows2);
        let e = choose|e: int| 0 <= e < rows2.len() && rows2[e] == plan2[i];
        assert(rows2[e] == crate::persist::plan_row_of(us2[e]));
        assert(!(us2[e].update_type is Insert));
    }
    lemma_commit_updates_only(rs1, plan2, now2, c1.1);
    assert forall|k: int|
        0 <= k < ms.len() && (#[trigger] ms[k]).spec_is_reportable() implies exists|p: int|
        0 <= p < rs2.len() && (#[trigger] rs2[p]).user_id == user_id && rs2[p].course_id
            == course_id && rs2[p].module_id == ms[k].id && rs2[p].updated_at == now2 by {
        let mid = ms[k].id;
        crate::diff::lemma_find_record(records2, mid);
        assert(spec_has_record(rs1, user_id, course_id, mid));
        let w = choose|w: int|
            0 <= w < rs1.len() && rs1[w].user_id == user_id && rs1[w].course_id == course_id
                && rs1[w].module_id == mid;
        assert(records2.contains(rs1[w]));
        assert(crate::diff::spec_find_record(records2, mid) is Some) by {
            let q = choose|q: int| 0 <= q < records2.len() && records2[q] == rs1[w];
            assert(records2[q].module_id == mid);
        }
        let r1 = crate::diff::spec_find_record(records2, mid)->0;
        assert(records2.contains(r1) && r1.module_id == mid);
        let q1 = choose|q: int| 0 <= q < records2.len() && records2[q] == r1;
        assert(r1.user_id == user_id && r1.course_id == course_id);
        let p1 = choose|p: int| 0 <= p < rs1.len() && rs1[p] == r1;
        // The plan touches r1's id.
        crate::diff::lemma_diff_covers(ms, records2, user_id, course_id, k);
        let j = choose|j: int|
            0 <= j < us2.len() && (#[trigger] us2[j]).module.id == mid;
        assert(rows2[j] == crate::persist::plan_row_of(us2[j]));
        assert(crate::persist::key_in(rows2, (user_id, mid)));
        crate::persist::lemma_dedup_keys(rows2, (user_id, mid));
        let d = choose|d: int|
            0 <= d < plan2.len() && crate::persist::row_key(#[trigger] plan2[d]) == (
                user_id,
                mid,
            );
        crate::persist::lemma_dedup_membership(rows2);
        let e = choose|e: int| 0 <= e < rows2.len() && rows2[e] == plan2[d];
        assert(rows2[e] == crate::persist::plan_row_of(us2[e]));
        assert(us2[e].module.id == mid);
        assert(us2[e].update_type == crate::diff::spec_classify_type(records2, mid));
        assert(plan2[d].update_type == UpdateType::Update(r1.id));
        assert(rs1[p1].id == r1.id);
        assert(rs2[p1] == ModuleRecord { updated_at: now2, ..rs1[p1] });
        assert(rs2[p1].user_id == user_id && rs2[p1].course_id == course_id && rs2[p1].module_id
            == mid && rs2[p1].updated_at == now2);
    }
}

} // verus!
