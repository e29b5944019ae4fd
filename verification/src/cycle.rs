//! One polling cycle of the change-detection engine.
//!
//! The coordinator is handed, for every eligible subscription, the
//! provider's replies — the content fetch, and the course-name lookup in
//! case this subscription's worker wins the name-cell acquisition. It
//! then runs every worker, drains the per-target buffers into
//! notifications, and commits one deduplicated persistence transaction.
//!
//! The surrounding application performs the actual network calls and
//! hands the replies in; everything decided from them is verified here.

use vstd::prelude::*;
use crate::buffer::{
    BufResult, BufView, CycleBuffers, Notification, NotifView, collect_notifications, notif_views,
    spec_buf_append, spec_notifications,
};
use crate::buffer::spec_ok_updates;
use crate::cache::{
    CourseNameCache, NameCell, course_name_from_info, fallback_course_name, spec_cell,
    spec_cell_or_vacant, spec_course_name_from_info, spec_fallback_course_name, spec_has_cell,
};
use crate::diff::{diff_course_content, flatten_sections, spec_diff};
use crate::error::Error;
use crate::moodle;
use crate::moodle::response::{CourseSection, CoursesPublicInformation};
use crate::persist::{PlanRow, dedup_last, plan_rows};
use crate::store::{ModuleRecord, ModuleTable, spec_commit, spec_matching_records};
use crate::subscribe::{Subscription, SubscriptionTable, spec_update_failures};

verus! {

/// One eligible subscription together with the provider's replies for
/// it: the content fetch, and the name lookup to use in case this
/// subscription's worker is the one that resolves the course name.
pub struct SubscriptionCheck {
    pub subscription: Subscription,
    pub name_answer: Option<Result<CoursesPublicInformation, moodle::error::Error>>,
    pub content: Result<Vec<CourseSection>, moodle::error::Error>,
}

/// The course name this check stores if it wins the acquisition: the
/// looked-up name, or the deterministic fallback when the lookup failed
/// or was not made.
pub open spec fn spec_name_of(c: SubscriptionCheck) -> Seq<char> {
    match c.name_answer {
        Option::Some(Result::Ok(info)) => spec_course_name_from_info(
            info,
            c.subscription.course_id,
        ),
        _ => spec_fallback_course_name(c.subscription.course_id),
    }
}

/// Whether some check of the cycle covers `course_id`.
pub open spec fn spec_course_checked(checks: Seq<SubscriptionCheck>, course_id: u32) -> bool {
    exists|i: int| 0 <= i < checks.len() && checks[i].subscription.course_id == course_id
}

/// The name the cycle resolves for `course_id`: the first check of that
/// course decides it — later checks of the same course find the cell
/// taken and resolve nothing.
pub open spec fn spec_cycle_name(checks: Seq<SubscriptionCheck>, course_id: u32) -> Seq<char>
    decreases checks.len(),
{
    if checks.len() == 0 {
        Seq::empty()
    } else if checks[0].subscription.course_id == course_id {
        spec_name_of(checks[0])
    } else {
        spec_cycle_name(checks.drop_first(), course_id)
    }
}

/// What one check reports into its buffer slot: the diff of the fetched
/// content against the records, or the fetch error.
pub open spec fn spec_check_result(c: SubscriptionCheck, records0: Seq<ModuleRecord>) -> BufResult {
    match c.content {
        Result::Ok(sections) => BufResult::Good(
            spec_diff(
                flatten_sections(sections@),
                spec_matching_records(records0, c.subscription.user_id, c.subscription.course_id),
                c.subscription.user_id,
                c.subscription.course_id,
            ),
        ),
        Result::Err(e) => BufResult::Poisoned(Error::Moodle(e)),
    }
}

/// The buffers after all checks have reported, in order, against the
/// records as they stood at the start of the cycle.
pub open spec fn spec_cycle_buffers(
    checks: Seq<SubscriptionCheck>,
    records0: Seq<ModuleRecord>,
) -> Seq<BufView>
    decreases checks.len(),
{
    if checks.len() == 0 {
        Seq::empty()
    } else {
        let prev = spec_cycle_buffers(checks.drop_last(), records0);
        let c = checks.last();
        spec_buf_append(
            prev,
            c.subscription.tenant,
            c.subscription.course_id,
            spec_check_result(c, records0),
        )
    }
}

/// The subscription table's failure counts after every check's outcome
/// has been applied, in order. Each write touches only the checked
/// subscription's `(course, target)` key: one subscription's failure
/// neither increments the count of, nor otherwise disturbs, an
/// unrelated subscription.
pub open spec fn spec_cycle_failures(
    ss: Seq<Subscription>,
    checks: Seq<SubscriptionCheck>,
) -> Seq<Subscription>
    decreases checks.len(),
{
    if checks.len() == 0 {
        ss
    } else {
        let prev = spec_cycle_failures(ss, checks.drop_last());
        let c = checks.last();
        spec_update_failures(
            prev,
            c.subscription.course_id,
            c.subscription.tenant,
            c.content is Ok,
        )
    }
}

/// The notifications of one cycle: one per buffer slot, in slot order,
/// each carrying the cycle's resolved name for its course. In the
/// engine's sequential reference every checked course's name cell ends
/// the cycle filled, so no slot is skipped for an unresolved name.
pub open spec fn spec_notifs_named(
    vs: Seq<BufView>,
    checks: Seq<SubscriptionCheck>,
) -> Seq<NotifView>
    decreases vs.len(),
{
    if vs.len() == 0 {
        Seq::empty()
    } else {
        spec_notifs_named(vs.drop_last(), checks).push(
            NotifView {
                tenant: vs.last().tenant,
                user_qq: 0,
                course_name: spec_cycle_name(checks, vs.last().course_id),
                result: vs.last().result,
            },
        )
    }
}

/// The total number of modules the cycle's successful fetches carried:
/// an upper bound on everything the transaction can insert.
pub open spec fn spec_total_content(checks: Seq<SubscriptionCheck>) -> nat
    decreases checks.len(),
{
    if checks.len() == 0 {
        0
    } else {
        spec_total_content(checks.drop_last()) + match checks.last().content {
            Result::Ok(sections) => flatten_sections(sections@).len(),
            Result::Err(_) => 0nat,
        }
    }
}

/// A diff reports at most one entry per fetched module.
pub proof fn lemma_diff_len(
    ms: Seq<crate::moodle::response::CourseModule>,
    records: Seq<ModuleRecord>,
    user_id: u32,
    course_id: u32,
)
    ensures
        spec_diff(ms, records, user_id, course_id).len() <= ms.len(),
    decreases ms.len(),
{
    if ms.len() > 0 {
        lemma_diff_len(ms.drop_first(), records, user_id, course_id);
    }
}

/// The buffers gather at most as many updates as the cycle's fetches
/// carried modules.
pub proof fn lemma_cycle_buffers_len(checks: Seq<SubscriptionCheck>, records0: Seq<ModuleRecord>)
    ensures
        spec_ok_updates(spec_cycle_buffers(checks, records0)).len() <= spec_total_content(checks),
    decreases checks.len(),
{
    if checks.len() > 0 {
        lemma_cycle_buffers_len(checks.drop_last(), records0);
        let c = checks.last();
        let prev = spec_cycle_buffers(checks.drop_last(), records0);
        crate::buffer::lemma_ok_updates_append(
            prev,
            c.subscription.tenant,
            c.subscription.course_id,
            spec_check_result(c, records0),
        );
        match c.content {
            Result::Ok(sections) => {
                lemma_diff_len(
                    flatten_sections(sections@),
                    spec_matching_records(
                        records0,
                        c.subscription.user_id,
                        c.subscription.course_id,
                    ),
                    c.subscription.user_id,
                    c.subscription.course_id,
                );
            }
            Result::Err(_) => {
            }
        }
    }
}

/// The first check of a course decides the cycle's name for it.
pub proof fn lemma_cycle_name_first(checks: Seq<SubscriptionCheck>, i: int)
    requires
        0 <= i < checks.len(),
        forall|j: int|
            0 <= j < i ==> checks[j].subscription.course_id != checks[i].subscription.course_id,
    ensures
        spec_cycle_name(checks, checks[i].subscription.course_id) == spec_name_of(checks[i]),
    decreases i,
{
    if i > 0 {
        assert(checks.drop_first()[i - 1] == checks[i]);
        assert forall|j: int|
            0 <= j < i - 1 implies (#[trigger] checks.drop_first()[j]).subscription.course_id
            != checks.drop_first()[i - 1].subscription.course_id by {
            assert(checks.drop_first()[j] == checks[j + 1]);
        }
        lemma_cycle_name_first(checks.drop_first(), i - 1);
    }
}

/// A drain against a cache that has every slot's course name filled with
/// the cycle's resolved name yields exactly the named notifications.
pub proof fn lemma_notifs_named(
    vs: Seq<BufView>,
    cache: Seq<crate::cache::NameEntry>,
    checks: Seq<SubscriptionCheck>,
)
    requires
        forall|p: int|
            0 <= p < vs.len() ==> (#[trigger] spec_cell_or_vacant(cache, vs[p].course_id)
                matches NameCell::Filled(name) && name@ == spec_cycle_name(
                checks,
                vs[p].course_id,
            )),
    ensures
        spec_notifications(vs, cache) == spec_notifs_named(vs, checks),
    decreases vs.len(),
{
    if vs.len() > 0 {
        assert forall|p: int|
            0 <= p < vs.drop_last().len() implies (#[trigger] spec_cell_or_vacant(
            cache,
            vs.drop_last()[p].course_id,
        ) matches NameCell::Filled(name) && name@ == spec_cycle_name(
            checks,
            vs.drop_last()[p].course_id,
        )) by {
            assert(vs.drop_last()[p] == vs[p]);
        }
        lemma_notifs_named(vs.drop_last(), cache, checks);
        assert(spec_cell_or_vacant(cache, vs[vs.len() - 1].course_id) matches NameCell::Filled(
            name,
        ) && name@ == spec_cycle_name(checks, vs[vs.len() - 1].course_id));
    }
}

/// One worker: attempts the course-name resolution without blocking,
/// diffs the fetched content against the records, reports into the
/// shared buffer under its `(target, course)` key, and writes its own
/// failure count — unconditionally, whatever the buffer held.
///
/// Returns whether this worker performed the name resolution: true
/// exactly when it won the acquisition of a still-vacant cell.
pub fn check_subscription(
    check: SubscriptionCheck,
    cache: &mut CourseNameCache,
    buffers: &mut CycleBuffers,
    subs: &mut SubscriptionTable,
    modules: &ModuleTable,
) -> (performed_name_call: bool)
    requires
        spec_has_cell(old(cache).entries@, check.subscription.course_id),
    ensures
        performed_name_call == (spec_cell(
            old(cache).entries@,
            check.subscription.course_id,
        ) is Vacant),
        performed_name_call ==> (spec_cell(
            final(cache).entries@,
            check.subscription.course_id,
        ) matches NameCell::Filled(name) && name@ == spec_name_of(check)),
        !performed_name_call ==> final(cache).entries@ == old(cache).entries@,
        spec_has_cell(final(cache).entries@, check.subscription.course_id),
        forall|other: u32|
            other != check.subscription.course_id ==> crate::cache::spec_cell_index(
                final(cache).entries@,
                other,
            ) == crate::cache::spec_cell_index(old(cache).entries@, other) && (spec_has_cell(
                old(cache).entries@,
                other,
            ) ==> spec_cell(final(cache).entries@, other) == spec_cell(
                old(cache).entries@,
                other,
            )),
        final(buffers)@ == spec_buf_append(
            old(buffers)@,
            check.subscription.tenant,
            check.subscription.course_id,
            spec_check_result(check, modules.records@),
        ),
        final(subs).subs@ == spec_update_failures(
            old(subs).subs@,
            check.subscription.course_id,
            check.subscription.tenant,
            check.content is Ok,
        ),
        final(subs).next_id == old(subs).next_id,
{
    let SubscriptionCheck { subscription, name_answer, content } = check;
    let course_id = subscription.course_id;
    let tenant = subscription.tenant;
    let user_id = subscription.user_id;

    // Course-name resolution: non-blocking acquisition; the winner must
    // fill the cell even on a failed lookup, with the fallback name.
    let acquired = cache.try_begin_resolve(course_id);
    if acquired {
        let name = match name_answer {
            Some(Ok(info)) => course_name_from_info(info, course_id),
            _ => fallback_course_name(course_id),
        };
        cache.fill(course_id, name);
    }

    // Content fetch, diff against the records, report into the buffer.
    let success = match content {
        Ok(sections) => {
            let records = modules.lookup_records(user_id, course_id);
            let ups = diff_course_content(sections, &records, user_id, course_id);
            buffers.append(tenant, course_id, Ok(ups));
            true
        }
        Err(e) => {
            buffers.append(tenant, course_id, Err(Error::Moodle(e)));
            false
        }
    };

    // The failure-count write happens whatever the buffer held.
    subs.update_failure_count(course_id, tenant, success);
    acquired
}

/// One full cycle: runs one worker per eligible subscription, in order,
/// drains the buffers into notifications, and commits one deduplicated
/// persistence transaction against the module table.
///
/// Returns the notifications to deliver and the committed plan. The
/// plan is exactly the gathered updates of the unpoisoned buffer slots,
/// collapsed to one row per `(user, module)` key; the failure counts
/// are each check's own outcome and nothing else; and every
/// notification carries the name resolved once for its course.
#[verifier::loop_isolation(false)]
pub fn run_check(
    checks: Vec<SubscriptionCheck>,
    subs: &mut SubscriptionTable,
    modules: &mut ModuleTable,
    now: i64,
) -> (r: (Vec<Notification>, Vec<PlanRow>))
    requires
        old(modules).next_id + spec_total_content(checks@) <= u32::MAX,
    ensures
        final(subs).subs@ == spec_cycle_failures(old(subs).subs@, checks@),
        final(subs).next_id == old(subs).next_id,
        r.1@ == dedup_last(
            plan_rows(spec_ok_updates(spec_cycle_buffers(checks@, old(modules).records@))),
        ),
        (final(modules).records@, final(modules).next_id as int) == spec_commit(
            old(modules).records@,
            r.1@,
            now,
            old(modules).next_id as int,
        ),
        notif_views(r.0@) == spec_notifs_named(
            spec_cycle_buffers(checks@, old(modules).records@),
            checks@,
        ),
{
    let ghost checks0 = checks@;
    let ghost records0 = modules.records@;
    let ghost subs0 = subs.subs@;
    let mut cache = CourseNameCache::new();
    let mut buffers = CycleBuffers::new();
    let mut checks = checks;
    proof {
        assert(checks0.take(0) =~= Seq::<SubscriptionCheck>::empty());
        assert(checks0.skip(0) =~= checks0);
    }
    while checks.len() > 0
        invariant
            checks@.len() <= checks0.len(),
            checks@ =~= checks0.skip(checks0.len() - checks@.len()),
            modules.records@ == records0,
            modules.next_id == old(modules).next_id,
            buffers@ == spec_cycle_buffers(
                checks0.take(checks0.len() - checks@.len()),
                records0,
            ),
            subs.subs@ == spec_cycle_failures(
                subs0,
                checks0.take(checks0.len() - checks@.len()),
            ),
            subs.next_id == old(subs).next_id,
            forall|c: u32|
                spec_has_cell(cache.entries@, c) <==> spec_course_checked(
                    checks0.take(checks0.len() - checks@.len()),
                    c,
                ),
            forall|c: u32|
                spec_course_checked(checks0.take(checks0.len() - checks@.len()), c) ==> (
                #[trigger] spec_cell_or_vacant(cache.entries@, c) matches NameCell::Filled(name)
                    && name@ == spec_cycle_name(checks0, c)),
            forall|p: int|
                0 <= p < buffers@.len() ==> spec_course_checked(
                    checks0.take(checks0.len() - checks@.len()),
                    (#[trigger] buffers@[p]).course_id,
                ),
        decreases checks@.len(),
    {
        let ghost i = checks0.len() - checks@.len();
        let check = checks.remove(0);
        proof {
            assert(check == checks0[i]);
            assert(checks@ =~= checks0.skip(i + 1));
            assert(checks0.take(i + 1).drop_last() =~= checks0.take(i));
            assert(checks0.take(i + 1).last() == checks0[i]);
        }
        let ghost c = checks0[i];
        let cid = check.subscription.course_id;
        let ghost cache_pre = cache.entries@;
        cache.ensure_cell(cid);
        proof {
            if !spec_course_checked(checks0.take(i), cid) {
                assert(!spec_has_cell(cache_pre, cid));
                assert(spec_cell(cache.entries@, cid) is Vacant);
            } else {
                assert(spec_has_cell(cache_pre, cid));
                assert(cache.entries@ == cache_pre);
                assert(spec_cell_or_vacant(cache_pre, cid) matches NameCell::Filled(_));
                assert(!(spec_cell(cache.entries@, cid) is Vacant));
            }
        }
        let ghost cache_mid = cache.entries@;
        let performed = check_subscription(check, &mut cache, &mut buffers, subs, modules);
        proof {
            // Which courses count as checked grows by exactly this one.
            assert forall|cc: u32|
                spec_course_checked(checks0.take(i + 1), cc) == (spec_course_checked(
                    checks0.take(i),
                    cc,
                ) || cc == cid) by {
                if spec_course_checked(checks0.take(i + 1), cc) {
                    let w = choose|w: int|
                        0 <= w < checks0.take(i + 1).len() && (#[trigger] checks0.take(
                            i + 1,
                        )[w]).subscription.course_id == cc;
                    if w < i {
                        assert(checks0.take(i)[w].subscription.course_id == cc);
                    }
                }
                if spec_course_checked(checks0.take(i), cc) {
                    let w = choose|w: int|
                        0 <= w < checks0.take(i).len() && (#[trigger] checks0.take(
                            i,
                        )[w]).subscription.course_id == cc;
                    assert(checks0.take(i + 1)[w].subscription.course_id == cc);
                }
                if cc == cid {
                    assert(checks0.take(i + 1)[i].subscription.course_id == cc);
                }
            }
            // The name filled for a newly checked course is the cycle's.
            if !spec_course_checked(checks0.take(i), cid) {
                assert(performed);
                assert forall|j: int|
                    0 <= j < i implies (#[trigger] checks0[j]).subscription.course_id
                    != checks0[i].subscription.course_id by {
                    if checks0[j].subscription.course_id == cid {
                        assert(checks0.take(i)[j].subscription.course_id == cid);
                    }
                }
                lemma_cycle_name_first(checks0, i);
            } else {
                assert(!performed);
                assert(cache.entries@ == cache_mid);
            }
            // Cells of other courses are untouched by either step.
            assert forall|cc: u32|
                spec_course_checked(checks0.take(i + 1), cc) implies (
            #[trigger] spec_cell_or_vacant(cache.entries@, cc) matches NameCell::Filled(name)
                && name@ == spec_cycle_name(checks0, cc)) by {
                if cc != cid {
                    assert(spec_course_checked(checks0.take(i), cc));
                    assert(spec_cell_or_vacant(cache_pre, cc) matches NameCell::Filled(name)
                        && name@ == spec_cycle_name(checks0, cc));
                    assert(spec_has_cell(cache_pre, cc));
                    assert(spec_has_cell(cache_mid, cc));
                    assert(spec_cell(cache_mid, cc) == spec_cell(cache_pre, cc));
                    assert(spec_has_cell(cache.entries@, cc));
                    assert(spec_cell(cache.entries@, cc) == spec_cell(cache_mid, cc));
                    assert(spec_cell_or_vacant(cache.entries@, cc) matches NameCell::Filled(name)
                        && name@ == spec_cycle_name(checks0, cc));
                } else {
                    if !spec_course_checked(checks0.take(i), cid) {
                        assert(spec_has_cell(cache.entries@, cid));
                        assert(spec_cell(cache.entries@, cid) matches NameCell::Filled(name)
                            && name@ == spec_name_of(c));
                        assert(spec_cycle_name(checks0, cid) == spec_name_of(c));
                        assert(spec_cell_or_vacant(cache.entries@, cc) matches NameCell::Filled(
                            name,
                        ) && name@ == spec_cycle_name(checks0, cc));
                    } else {
                        assert(cache.entries@ == cache_pre);
                        assert(spec_cell_or_vacant(cache.entries@, cc) matches NameCell::Filled(
                            name,
                        ) && name@ == spec_cycle_name(checks0, cc));
                    }
                }
            }
            assert forall|cc: u32|
                spec_has_cell(cache.entries@, cc) == spec_course_checked(
                    checks0.take(i + 1),
                    cc,
                ) by {
                if cc != cid {
                    assert(spec_has_cell(cache.entries@, cc) == spec_has_cell(cache_mid, cc));
                    assert(spec_has_cell(cache_mid, cc) == spec_has_cell(cache_pre, cc));
                }
            }
            // The buffer fold and the failure fold advance by one step.
            assert(buffers@ == spec_cycle_buffers(checks0.take(i + 1), records0));
            assert(subs.subs@ == spec_cycle_failures(subs0, checks0.take(i + 1)));
            // Every slot's course is checked.
            let vs_pre = spec_cycle_buffers(checks0.take(i), records0);
            let k = crate::buffer::spec_buf_index(
                vs_pre,
                c.subscription.tenant,
                c.subscription.course_id,
            );
            crate::buffer::lemma_buf_index(vs_pre, c.subscription.tenant, c.subscription.course_id);
            assert forall|p: int|
                0 <= p < buffers@.len() implies spec_course_checked(
                checks0.take(i + 1),
                (#[trigger] buffers@[p]).course_id,
            ) by {
                if k < 0 {
                    if p < vs_pre.len() {
                        assert(buffers@[p] == vs_pre[p]);
                    } else {
                        assert(buffers@[p].course_id == cid);
                    }
                } else {
                    if p != k {
                        assert(buffers@[p] == vs_pre[p]);
                    } else {
                        assert(buffers@[p].course_id == cid);
                    }
                }
            }
        }
    }
    proof {
        assert(checks0.take(checks0.len() as int) =~= checks0);
    }
    let rows = buffers.collect_plan_rows();
    let plan = crate::persist::dedup_plan_rows(&rows);
    proof {
        crate::persist::lemma_dedup_len(rows@);
        lemma_cycle_buffers_len(checks0, records0);
        assert(rows@.len() == spec_ok_updates(spec_cycle_buffers(checks0, records0)).len());
    }
    modules.commit_updates(&plan, now);
    let notifications = collect_notifications(buffers, &cache);
    proof {
        let vs = spec_cycle_buffers(checks0, records0);
        assert forall|p: int|
            0 <= p < vs.len() implies (#[trigger] spec_cell_or_vacant(cache.entries@, vs[p].course_id)
                matches NameCell::Filled(name) && name@ == spec_cycle_name(
                checks0,
                vs[p].course_id,
            )) by {
            assert(spec_course_checked(checks0, vs[p].course_id));
        }
        lemma_notifs_named(vs, cache.entries@, checks0);
    }
    (notifications, plan)
}

/// With a single successful check, the cycle gathers exactly that
/// check's diff: together with the idempotence of diff-then-commit,
/// running a cycle twice over unchanged content commits no new record
/// the second time.
pub proof fn lemma_single_check_updates(c: SubscriptionCheck, records0: Seq<ModuleRecord>)
    requires
        c.content is Ok,
    ensures
        spec_ok_updates(spec_cycle_buffers(seq![c], records0)) == spec_diff(
            flatten_sections((c.content->Ok_0)@),
            spec_matching_records(records0, c.subscription.user_id, c.subscription.course_id),
            c.subscription.user_id,
            c.subscription.course_id,
        ),
{
    let vs0 = spec_cycle_buffers(seq![c].drop_last(), records0);
    assert(seq![c].drop_last() =~= Seq::<SubscriptionCheck>::empty());
    assert(vs0 =~= Seq::<BufView>::empty());
    let slot = BufView {
        tenant: c.subscription.tenant,
        course_id: c.subscription.course_id,
        result: spec_check_result(c, records0),
    };
    assert(crate::buffer::spec_buf_index(vs0, c.subscription.tenant, c.subscription.course_id)
        < 0);
    assert(spec_cycle_buffers(seq![c], records0) =~= seq![slot]);
    assert(seq![slot].drop_last() =~= Seq::<BufView>::empty());
    assert(spec_ok_updates(Seq::<BufView>::empty()) =~= Seq::<crate::diff::Update>::empty());
    assert(spec_check_result(c, records0) is Good);
    assert(seq![slot].last() == slot);
    assert(spec_ok_updates(seq![slot]) =~= Seq::<crate::diff::Update>::empty() + (
    spec_check_result(c, records0)->Good_0));
    assert(Seq::<crate::diff::Update>::empty() + (spec_check_result(c, records0)->Good_0)
        =~= spec_check_result(c, records0)->Good_0);
}

/// Failure-isolation law: a cycle's failure-count writes touch only the
/// checked `(course, target)` keys. A content-fetch failure of one
/// subscription leaves the failure count of every subscription of an
/// unrelated key exactly as it was.
pub proof fn lemma_failure_isolation(ss: Seq<Subscription>, checks: Seq<SubscriptionCheck>, p: int)
    requires
        0 <= p < ss.len(),
        forall|i: int|
            0 <= i < checks.len() ==> !crate::subscribe::spec_fc_match(
                ss[p],
                (#[trigger] checks[i]).subscription.course_id,
                checks[i].subscription.tenant,
            ),
    ensures
        spec_cycle_failures(ss, checks).len() == ss.len(),
        spec_cycle_failures(ss, checks)[p] == ss[p],
    decreases checks.len(),
{
    if checks.len() > 0 {
        assert forall|i: int|
            0 <= i < checks.drop_last().len() implies !crate::subscribe::spec_fc_match(
            ss[p],
            (#[trigger] checks.drop_last()[i]).subscription.course_id,
            checks.drop_last()[i].subscription.tenant,
        ) by {
            assert(checks.drop_last()[i] == checks[i]);
        }
        lemma_failure_isolation(ss, checks.drop_last(), p);
        assert(!crate::subscribe::spec_fc_match(
            ss[p],
            checks[checks.len() - 1].subscription.course_id,
            checks[checks.len() - 1].subscription.tenant,
        ));
    }
}

} // verus!
