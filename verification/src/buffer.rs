//! Per-target aggregation buffers for one cycle, and the notifications
//! drained from them.
//!
//! Workers append their results into a shared buffer keyed by
//! `(target, course)`. Appends are additive: results of several
//! subscriptions with the same key are concatenated. A content-fetch
//! failure poisons its key for the rest of the cycle: the first error
//! wins, and later results for that exact key are discarded.

use vstd::prelude::*;
use crate::cache::{CourseNameCache, NameCell, spec_cell_or_vacant};
use crate::diff::Update;
use crate::error::Error;
use crate::persist::{PlanRow, plan_rows};
use crate::tenant::Tenant;

verus! {

/// One buffer slot: the merged result of every worker that reported for
/// this `(target, course)` key so far.
#[derive(Debug)]
pub struct BufferEntry {
    pub tenant: Tenant,
    pub course_id: u32,
    pub result: Result<Vec<Update>, Error>,
}

/// The mathematical content of a buffer slot: the gathered updates, or
/// the first error that poisoned the key.
pub enum BufResult {
    Good(Seq<Update>),
    Poisoned(Error),
}

/// The mathematical content of one buffer slot.
pub struct BufView {
    pub tenant: Tenant,
    pub course_id: u32,
    pub result: BufResult,
}

/// The content of a worker's reported result.
pub open spec fn buf_result_of(r: Result<Vec<Update>, Error>) -> BufResult {
    match r {
        Result::Ok(v) => BufResult::Good(v@),
        Result::Err(e) => BufResult::Poisoned(e),
    }
}

impl View for BufferEntry {
    type V = BufView;

    open spec fn view(&self) -> BufView {
        BufView { tenant: self.tenant, course_id: self.course_id, result: buf_result_of(self.result) }
    }
}

/// The contents of all slots, in slot order.
pub open spec fn buf_views(es: Seq<BufferEntry>) -> Seq<BufView> {
    es.map_values(|e: BufferEntry| e@)
}

/// The index of the slot of `(tenant, course_id)`, or a negative value
/// if the buffers hold none.
pub open spec fn spec_buf_index(vs: Seq<BufView>, tenant: Tenant, course_id: u32) -> int
    decreases vs.len(),
{
    if vs.len() == 0 {
        -1
    } else if vs[0].tenant == tenant && vs[0].course_id == course_id {
        0
    } else {
        let r = spec_buf_index(vs.drop_first(), tenant, course_id);
        if r < 0 {
            -1
        } else {
            r + 1
        }
    }
}

/// One slot after a worker's result is merged into it: gathered updates
/// concatenate; a poisoned slot stays as it is, and a first error
/// poisons the slot.
pub open spec fn spec_merge(cur: BufResult, new: BufResult) -> BufResult {
    match cur {
        BufResult::Poisoned(e) => BufResult::Poisoned(e),
        BufResult::Good(xs) => match new {
            BufResult::Poisoned(e) => BufResult::Poisoned(e),
            BufResult::Good(ys) => BufResult::Good(xs + ys),
        },
    }
}

/// The buffers after one worker's result is appended under its
/// `(target, course)` key: a fresh key gains a slot at the end; an
/// existing slot is merged; no other slot is touched.
pub open spec fn spec_buf_append(
    vs: Seq<BufView>,
    tenant: Tenant,
    course_id: u32,
    new: BufResult,
) -> Seq<BufView> {
    let k = spec_buf_index(vs, tenant, course_id);
    if k < 0 {
        vs.push(BufView { tenant, course_id, result: new })
    } else {
        vs.update(k, BufView { tenant, course_id, result: spec_merge(vs[k].result, new) })
    }
}

/// The slot index is within bounds, carries the key, and no earlier
/// slot does.
pub proof fn lemma_buf_index(vs: Seq<BufView>, tenant: Tenant, course_id: u32)
    ensures
        spec_buf_index(vs, tenant, course_id) >= 0 ==> 0 <= spec_buf_index(vs, tenant, course_id)
            < vs.len() && vs[spec_buf_index(vs, tenant, course_id)].tenant == tenant && vs[spec_buf_index(vs, tenant, course_id)].course_id == course_id,
        forall|p: int|
            0 <= p < spec_buf_index(vs, tenant, course_id) ==> !(vs[p].tenant == tenant && vs[p].course_id == course_id),
        spec_buf_index(vs, tenant, course_id) < 0 ==> forall|p: int|
            0 <= p < vs.len() ==> !(vs[p].tenant == tenant && vs[p].course_id == course_id),
    decreases vs.len(),
{
    if vs.len() > 0 && !(vs[0].tenant == tenant && vs[0].course_id == course_id) {
        lemma_buf_index(vs.drop_first(), tenant, course_id);
        assert forall|p: int|
            0 <= p < spec_buf_index(vs, tenant, course_id) implies !(vs[p].tenant == tenant && vs[p].course_id == course_id) by {
            if p > 0 {
                assert(!(vs.drop_first()[p - 1].tenant == tenant && vs.drop_first()[p
                    - 1].course_id == course_id));
            }
        }
        if spec_buf_index(vs, tenant, course_id) < 0 {
            assert forall|p: int|
                0 <= p < vs.len() implies !(vs[p].tenant == tenant && vs[p].course_id == course_id) by {
                if p > 0 {
                    assert(!(vs.drop_first()[p - 1].tenant == tenant && vs.drop_first()[p
                        - 1].course_id == course_id));
                }
            }
        }
    }
}

/// The gathered updates of every unpoisoned slot, in slot order. Only
/// these reach the persistence transaction: a poisoned key's updates
/// are retried next cycle, since they were never marked seen.
pub open spec fn spec_ok_updates(vs: Seq<BufView>) -> Seq<Update>
    decreases vs.len(),
{
    if vs.len() == 0 {
        Seq::empty()
    } else {
        let prev = spec_ok_updates(vs.drop_last());
        match vs.last().result {
            BufResult::Good(xs) => prev + xs,
            BufResult::Poisoned(_) => prev,
        }
    }
}

/// How many updates a reported result carries.
pub open spec fn buf_len_of(r: BufResult) -> nat {
    match r {
        BufResult::Good(xs) => xs.len(),
        BufResult::Poisoned(_) => 0,
    }
}

/// Replacing one slot shifts the gathered total by the difference of
/// the two slots' contributions.
pub proof fn lemma_ok_updates_update(vs: Seq<BufView>, k: int, v2: BufView)
    requires
        0 <= k < vs.len(),
    ensures
        spec_ok_updates(vs.update(k, v2)).len() + buf_len_of(vs[k].result) == spec_ok_updates(
            vs,
        ).len() + buf_len_of(v2.result),
    decreases vs.len(),
{
    if k == vs.len() - 1 {
        assert(vs.update(k, v2).drop_last() =~= vs.drop_last());
        assert(vs.update(k, v2).last() == v2);
    } else {
        assert(vs.update(k, v2).drop_last() =~= vs.drop_last().update(k, v2));
        assert(vs.update(k, v2).last() == vs.last());
        lemma_ok_updates_update(vs.drop_last(), k, v2);
    }
}

/// One append grows the gathered total by at most the new result's
/// contribution.
pub proof fn lemma_ok_updates_append(vs: Seq<BufView>, tenant: Tenant, course_id: u32, new: BufResult)
    ensures
        spec_ok_updates(spec_buf_append(vs, tenant, course_id, new)).len() <= spec_ok_updates(
            vs,
        ).len() + buf_len_of(new),
{
    let k = spec_buf_index(vs, tenant, course_id);
    if k < 0 {
        let e = BufView { tenant, course_id, result: new };
        assert(vs.push(e).drop_last() =~= vs);
        assert(vs.push(e).last() == e);
    } else {
        lemma_buf_index(vs, tenant, course_id);
        let merged = spec_merge(vs[k].result, new);
        assert(buf_len_of(merged) <= buf_len_of(vs[k].result) + buf_len_of(new));
        lemma_ok_updates_update(vs, k, BufView { tenant, course_id, result: merged });
    }
}

/// The per-cycle buffers: one slot per `(target, course)` key seen this
/// cycle.
#[derive(Debug)]
pub struct CycleBuffers {
    pub entries: Vec<BufferEntry>,
}

impl View for CycleBuffers {
    type V = Seq<BufView>;

    open spec fn view(&self) -> Seq<BufView> {
        buf_views(self.entries@)
    }
}

impl CycleBuffers {
    /// Empty buffers, built at the start of a cycle.
    pub fn new() -> (r: Self)
        ensures
            r@ == Seq::<BufView>::empty(),
    {
        let r = CycleBuffers { entries: Vec::new() };
        proof {
            assert(r@ =~= Seq::<BufView>::empty());
        }
        r
    }

    /// Finds the position of the slot of `(tenant, course_id)`.
    #[verifier::loop_isolation(false)]
    fn find_index(&self, tenant: Tenant, course_id: u32) -> (r: Option<usize>)
        ensures
            r is Some ==> r->0 == spec_buf_index(self@, tenant, course_id) && spec_buf_index(
                self@,
                tenant,
                course_id,
            ) >= 0,
            r is None ==> spec_buf_index(self@, tenant, course_id) < 0,
    {
        let es = &self.entries;
        let mut i: usize = 0;
        while i < es.len()
            invariant
                0 <= i <= es@.len(),
                forall|p: int|
                    0 <= p < i ==> !(self@[p].tenant == tenant && self@[p].course_id == course_id),
            decreases es@.len() - i,
        {
            let hit = match es[i].tenant {
                Tenant::Group(qq) => match tenant {
                    Tenant::Group(qq2) => qq == qq2,
                    Tenant::SenderSelf => false,
                },
                Tenant::SenderSelf => match tenant {
                    Tenant::Group(_) => false,
                    Tenant::SenderSelf => true,
                },
            } && es[i].course_id == course_id;
            if hit {
                proof {
                    assert(self@[i as int].tenant == tenant && self@[i as int].course_id
                        == course_id);
                    lemma_buf_index(self@, tenant, course_id);
                    let k = spec_buf_index(self@, tenant, course_id);
                    if k < 0 {
                        assert(!(self@[i as int].tenant == tenant && self@[i as int].course_id
                            == course_id));
                    }
                    if k < i {
                        assert(!(self@[k].tenant == tenant && self@[k].course_id == course_id));
                    }
                    if k > i {
                        assert(!(self@[i as int].tenant == tenant && self@[i as int].course_id
                            == course_id));
                    }
                }
                return Some(i);
            }
            i += 1;
        }
        proof {
            lemma_buf_index(self@, tenant, course_id);
            if spec_buf_index(self@, tenant, course_id) >= 0 {
                let k = spec_buf_index(self@, tenant, course_id);
                assert(self@[k].tenant == tenant && self@[k].course_id == course_id);
            }
        }
        None
    }

    /// Appends one worker's result under its `(target, course)` key.
    /// Results concatenate under a key; the first error poisons the key
    /// and every later result for it is discarded. No other key is
    /// touched.
    #[verifier::loop_isolation(false)]
    pub fn append(&mut self, tenant: Tenant, course_id: u32, result: Result<Vec<Update>, Error>)
        ensures
            final(self)@ == spec_buf_append(old(self)@, tenant, course_id, buf_result_of(result)),
    {
        let k = match self.find_index(tenant, course_id) {
            Some(k) => k,
            None => {
                let ghost vs0 = self@;
                self.entries.push(BufferEntry { tenant, course_id, result });
                proof {
                    assert(final(self)@ =~= vs0.push(
                        BufView { tenant, course_id, result: buf_result_of(result) },
                    ));
                }
                return ;
            }
        };
        proof {
            lemma_buf_index(self@, tenant, course_id);
        }
        let ghost vs0 = self@;
        let entry = self.entries.remove(k);
        match entry.result {
            Result::Err(e) => {
                self.entries.insert(k, BufferEntry { tenant, course_id, result: Err(e) });
                proof {
                    assert(final(self)@ =~= spec_buf_append(
                        vs0,
                        tenant,
                        course_id,
                        buf_result_of(result),
                    ));
                }
            }
            Result::Ok(xs) => {
                match result {
                    Result::Err(e) => {
                        self.entries.insert(
                            k,
                            BufferEntry { tenant, course_id, result: Err(e) },
                        );
                        proof {
                            assert(final(self)@ =~= spec_buf_append(
                                vs0,
                                tenant,
                                course_id,
                                BufResult::Poisoned(e),
                            ));
                        }
                    }
                    Result::Ok(ys) => {
                        let mut xs = xs;
                        let mut ys = ys;
                        let ghost xs0 = xs@;
                        let ghost ys0 = ys@;
                        xs.append(&mut ys);
                        self.entries.insert(
                            k,
                            BufferEntry { tenant, course_id, result: Ok(xs) },
                        );
                        proof {
                            assert(final(self)@ =~= spec_buf_append(
                                vs0,
                                tenant,
                                course_id,
                                BufResult::Good(ys0),
                            ));
                        }
                    }
                }
            }
        }
    }

    /// Reads the plan rows of every gathered update in every unpoisoned
    /// slot, in order: the plain facts that the persistence transaction
    /// is planned from.
    #[verifier::loop_isolation(false)]
    pub fn collect_plan_rows(&self) -> (r: Vec<PlanRow>)
        ensures
            r@ == plan_rows(spec_ok_updates(self@)),
    {
        let es = &self.entries;
        let mut r: Vec<PlanRow> = Vec::new();
        let mut i: usize = 0;
        proof {
            assert(self@.take(0) =~= Seq::<BufView>::empty());
            assert(r@ =~= plan_rows(spec_ok_updates(self@.take(0))));
        }
        while i < es.len()
            invariant
                0 <= i <= es@.len(),
                r@ == plan_rows(spec_ok_updates(self@.take(i as int))),
            decreases es@.len() - i,
        {
            proof {
                assert(self@.take(i as int + 1).drop_last() =~= self@.take(i as int));
                assert(self@.take(i as int + 1).last() == self@[i as int]);
            }
            match &es[i].result {
                Result::Ok(xs) => {
                    let ghost target = spec_ok_updates(self@.take(i as int + 1));
                    let mut j: usize = 0;
                    proof {
                        assert(target =~= spec_ok_updates(self@.take(i as int)) + xs@);
                        assert(r@ =~= plan_rows(spec_ok_updates(self@.take(i as int)) + xs@.take(
                            0,
                        )));
                    }
                    while j < xs.len()
                        invariant
                            0 <= j <= xs@.len(),
                            r@ == plan_rows(
                                spec_ok_updates(self@.take(i as int)) + xs@.take(j as int),
                            ),
                        decreases xs@.len() - j,
                    {
                        let u = &xs[j];
                        r.push(
                            PlanRow {
                                update_type: u.update_type,
                                user_id: u.user_id,
                                course_id: u.course_id,
                                module_id: u.module.id,
                            },
                        );
                        proof {
                            assert(r@ =~= plan_rows(
                                spec_ok_updates(self@.take(i as int)) + xs@.take(j as int + 1),
                            ));
                        }
                        j += 1;
                    }
                    proof {
                        assert(xs@.take(xs@.len() as int) =~= xs@);
                        assert(r@ =~= plan_rows(spec_ok_updates(self@.take(i as int + 1))));
                    }
                }
                Result::Err(_) => {
                    proof {
                        assert(r@ =~= plan_rows(spec_ok_updates(self@.take(i as int + 1))));
                    }
                }
            }
            i += 1;
        }
        proof {
            assert(self@.take(es@.len() as int) =~= self@);
        }
        r
    }
}

/// One notification handed to the sink: a target, the course's display
/// name, and either the gathered updates or the error that stopped them.
#[derive(Debug)]
pub struct Notification {
    pub tenant: Tenant,
    pub user_qq: i64,
    pub course_name: String,
    pub modules: Result<Vec<Update>, Error>,
}

/// The mathematical content of one notification.
pub struct NotifView {
    pub tenant: Tenant,
    pub user_qq: i64,
    pub course_name: Seq<char>,
    pub result: BufResult,
}

impl View for Notification {
    type V = NotifView;

    open spec fn view(&self) -> NotifView {
        NotifView {
            tenant: self.tenant,
            user_qq: self.user_qq,
            course_name: self.course_name@,
            result: buf_result_of(self.modules),
        }
    }
}

/// The contents of a sequence of notifications.
pub open spec fn notif_views(ns: Seq<Notification>) -> Seq<NotifView> {
    ns.map_values(|n: Notification| n@)
}

/// The notifications drained from the buffers against a name cache: one
/// per slot whose course name is resolved, in slot order; a slot whose
/// name is still unresolved is skipped this cycle.
pub open spec fn spec_notifications(vs: Seq<BufView>, cache: Seq<crate::cache::NameEntry>) -> Seq<
    NotifView,
>
    decreases vs.len(),
{
    if vs.len() == 0 {
        Seq::empty()
    } else {
        let prev = spec_notifications(vs.drop_last(), cache);
        match spec_cell_or_vacant(cache, vs.last().course_id) {
            NameCell::Filled(name) => prev.push(
                NotifView {
                    tenant: vs.last().tenant,
                    user_qq: 0,
                    course_name: name@,
                    result: vs.last().result,
                },
            ),
            _ => prev,
        }
    }
}

/// Drains the buffers into notifications: one per slot whose course
/// name the cache has resolved, in slot order. A slot whose name is
/// still unresolved emits nothing this cycle.
#[verifier::loop_isolation(false)]
pub fn collect_notifications(buffers: CycleBuffers, cache: &CourseNameCache) -> (r: Vec<
    Notification,
>)
    ensures
        notif_views(r@) == spec_notifications(buffers@, cache.entries@),
{
    let ghost vs0 = buffers@;
    let mut entries = buffers.entries;
    let mut r: Vec<Notification> = Vec::new();
    proof {
        assert(vs0.take(0) =~= Seq::<BufView>::empty());
        assert(notif_views(r@) =~= spec_notifications(vs0.take(0), cache.entries@));
    }
    while entries.len() > 0
        invariant
            entries@.len() <= vs0.len(),
            buf_views(entries@) =~= vs0.skip(vs0.len() - entries@.len()),
            notif_views(r@) == spec_notifications(
                vs0.take(vs0.len() - entries@.len()),
                cache.entries@,
            ),
        decreases entries@.len(),
    {
        let ghost i = vs0.len() - entries@.len();
        let ghost pre = entries@;
        let entry = entries.remove(0);
        proof {
            assert(buf_views(pre)[0] == pre[0]@);
            assert(vs0.skip(i)[0] == vs0[i]);
            assert(entry@ == vs0[i]);
            assert(entries@ == pre.remove(0));
            assert(entries@.len() == pre.len() - 1);
            assert forall|p: int|
                0 <= p < entries@.len() implies buf_views(entries@)[p] == vs0.skip(i + 1)[p] by {
                assert(entries@[p] == pre[p + 1]);
                assert(buf_views(entries@)[p] == entries@[p]@);
                assert(buf_views(pre)[p + 1] == pre[p + 1]@);
                assert(vs0.skip(i)[p + 1] == vs0[i + 1 + p]);
                assert(vs0.skip(i + 1)[p] == vs0[i + 1 + p]);
            }
            assert(buf_views(entries@) =~= vs0.skip(i + 1));
            assert(vs0.take(i + 1).drop_last() =~= vs0.take(i));
            assert(vs0.take(i + 1).last() == vs0[i]);
        }
        match cache.read_name(entry.course_id) {
            Some(name) => {
                r.push(
                    Notification {
                        tenant: entry.tenant,
                        user_qq: 0,
                        course_name: name,
                        modules: entry.result,
                    },
                );
                proof {
                    assert(notif_views(r@) =~= spec_notifications(vs0.take(i + 1), cache.entries@));
                }
            }
            None => {
                proof {
                    assert(notif_views(r@) =~= spec_notifications(vs0.take(i + 1), cache.entries@));
                }
            }
        }
    }
    proof {
        assert(vs0.take(vs0.len() as int) =~= vs0);
    }
    r
}

/// Isolation law: appending one worker's result under its
/// `(target, course)` key leaves the slot of every other key exactly as
/// it was — an error for one key neither poisons nor reorders another.
pub proof fn lemma_append_isolation(
    vs: Seq<BufView>,
    tenant: Tenant,
    course_id: u32,
    new: BufResult,
    p: int,
)
    requires
        0 <= p < vs.len(),
        !(vs[p].tenant == tenant && vs[p].course_id == course_id),
    ensures
        spec_buf_append(vs, tenant, course_id, new)[p] == vs[p],
{
    lemma_buf_index(vs, tenant, course_id);
}

} // verus!
