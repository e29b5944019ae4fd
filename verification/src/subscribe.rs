//! The subscription table and the commands that manage it, plus the
//! failure-count bookkeeping that drives the circuit breaker.

use vstd::prelude::*;
use crate::error::Error;
use crate::moodle::response::CourseSection;
use crate::store::ModuleTable;
use crate::tenant::Tenant;

verus! {

/// A subscription whose failure count reaches this bound is excluded
/// from further cycles until externally reset.
pub const MAX_FAILURES: u32 = 3;

/// One durable binding of a user to a course and a notification target.
/// `failure_count` is mutated only by the engine.
#[derive(Clone, Copy, Debug, PartialEq, Eq, Structural)]
pub struct Subscription {
    pub id: u32,
    pub user_id: u32,
    pub course_id: u32,
    pub tenant: Tenant,
    pub failure_count: u32,
    pub created_at: i64,
}

/// Whether `s` makes a new `(user, course, tenant)` binding a duplicate.
/// A group is subscribed to a course at most once, whoever subscribed
/// it; an individual binding is per user.
pub open spec fn spec_is_dup(s: Subscription, user_id: u32, course_id: u32, tenant: Tenant) -> bool {
    s.tenant == tenant && s.course_id == course_id && match tenant {
        Tenant::SenderSelf => s.user_id == user_id,
        Tenant::Group(_) => true,
    }
}

/// Whether some subscription makes the binding a duplicate.
pub open spec fn spec_has_dup(
    ss: Seq<Subscription>,
    user_id: u32,
    course_id: u32,
    tenant: Tenant,
) -> bool {
    exists|i: int| 0 <= i < ss.len() && spec_is_dup(ss[i], user_id, course_id, tenant)
}

/// Whether `s` is removed by an unsubscribe of `(user, course, tenant)`.
pub open spec fn spec_del_match(
    s: Subscription,
    user_id: u32,
    course_id: u32,
    tenant: Tenant,
) -> bool {
    s.tenant == tenant && s.user_id == user_id && s.course_id == course_id
}

/// The table without the subscriptions an unsubscribe removes.
pub open spec fn spec_remove_matching(
    ss: Seq<Subscription>,
    user_id: u32,
    course_id: u32,
    tenant: Tenant,
) -> Seq<Subscription>
    decreases ss.len(),
{
    if ss.len() == 0 {
        Seq::empty()
    } else {
        let rest = spec_remove_matching(ss.drop_last(), user_id, course_id, tenant);
        if spec_del_match(ss.last(), user_id, course_id, tenant) {
            rest
        } else {
            rest.push(ss.last())
        }
    }
}

/// How many subscriptions an unsubscribe of `(user, course, tenant)`
/// removes.
pub open spec fn spec_count_del(
    ss: Seq<Subscription>,
    user_id: u32,
    course_id: u32,
    tenant: Tenant,
) -> nat
    decreases ss.len(),
{
    if ss.len() == 0 {
        0
    } else {
        spec_count_del(ss.drop_last(), user_id, course_id, tenant) + if spec_del_match(
            ss.last(),
            user_id,
            course_id,
            tenant,
        ) {
            1nat
        } else {
            0nat
        }
    }
}

/// The table without the subscriptions of one group.
pub open spec fn spec_remove_group(ss: Seq<Subscription>, group_qq: i64) -> Seq<Subscription>
    decreases ss.len(),
{
    if ss.len() == 0 {
        Seq::empty()
    } else {
        let rest = spec_remove_group(ss.drop_last(), group_qq);
        if ss.last().tenant == Tenant::Group(group_qq) {
            rest
        } else {
            rest.push(ss.last())
        }
    }
}

/// The subscriptions the circuit breaker admits to a cycle: those whose
/// failure count is below `MAX_FAILURES`, in table order.
pub open spec fn spec_eligible(ss: Seq<Subscription>) -> Seq<Subscription>
    decreases ss.len(),
{
    if ss.len() == 0 {
        Seq::empty()
    } else {
        let rest = spec_eligible(ss.drop_last());
        if ss.last().failure_count < MAX_FAILURES {
            rest.push(ss.last())
        } else {
            rest
        }
    }
}

/// Whether the failure-count write of `(course_id, tenant)` touches `s`.
pub open spec fn spec_fc_match(s: Subscription, course_id: u32, tenant: Tenant) -> bool {
    s.tenant == tenant && s.course_id == course_id
}

/// One subscription after the failure-count write: reset to zero on
/// success, incremented by one on failure (saturating at the counter's
/// machine bound, which the circuit breaker keeps far out of reach).
pub open spec fn spec_bump(s: Subscription, success: bool) -> Subscription {
    if success {
        Subscription { failure_count: 0, ..s }
    } else if s.failure_count < u32::MAX {
        Subscription { failure_count: (s.failure_count + 1) as u32, ..s }
    } else {
        s
    }
}

/// The table after the failure-count write of one subscription's check
/// outcome: every subscription of the same `(course_id, tenant)` key is
/// reset or incremented; no other subscription is touched.
pub open spec fn spec_update_failures(
    ss: Seq<Subscription>,
    course_id: u32,
    tenant: Tenant,
    success: bool,
) -> Seq<Subscription> {
    Seq::new(
        ss.len(),
        |i: int|
            if spec_fc_match(ss[i], course_id, tenant) {
                spec_bump(ss[i], success)
            } else {
                ss[i]
            },
    )
}

/// The model of the durable subscription tables: the bindings, and the
/// next storage-assigned row id.
#[derive(Debug, Clone)]
pub struct SubscriptionTable {
    pub subs: Vec<Subscription>,
    pub next_id: u32,
}

impl SubscriptionTable {
    /// An empty table; row ids are handed out from 1.
    pub fn new() -> (r: Self)
        ensures
            r.subs@ == Seq::<Subscription>::empty(),
            r.next_id == 1,
    {
        SubscriptionTable { subs: Vec::new(), next_id: 1 }
    }

    /// Whether a new `(user, course, tenant)` binding would duplicate an
    /// existing subscription.
    #[verifier::loop_isolation(false)]
    pub fn has_subscription(&self, user_id: u32, course_id: u32, tenant: Tenant) -> (b: bool)
        ensures
            b == spec_has_dup(self.subs@, user_id, course_id, tenant),
    {
        let ss = &self.subs;
        let mut i: usize = 0;
        while i < ss.len()
            invariant
                0 <= i <= ss@.len(),
                forall|p: int| 0 <= p < i ==> !spec_is_dup(ss@[p], user_id, course_id, tenant),
            decreases ss@.len() - i,
        {
            let s = ss[i];
            let dup = s.tenant == tenant && s.course_id == course_id && (match tenant {
                Tenant::SenderSelf => s.user_id == user_id,
                Tenant::Group(_) => true,
            });
            if dup {
                assert(spec_is_dup(ss@[i as int], user_id, course_id, tenant));
                return true;
            }
            i += 1;
        }
        false
    }

    /// The subscriptions the circuit breaker admits to a cycle: those
    /// whose failure count is below `MAX_FAILURES`, in table order.
    #[verifier::loop_isolation(false)]
    pub fn eligible_subscriptions(&self) -> (r: Vec<Subscription>)
        ensures
            r@ == spec_eligible(self.subs@),
    {
        let ss = &self.subs;
        let mut r: Vec<Subscription> = Vec::new();
        let mut i: usize = 0;
        proof {
            assert(ss@.take(0) =~= Seq::<Subscription>::empty());
        }
        while i < ss.len()
            invariant
                0 <= i <= ss@.len(),
                r@ == spec_eligible(ss@.take(i as int)),
            decreases ss@.len() - i,
        {
            let s = ss[i];
            proof {
                assert(ss@.take(i as int + 1).drop_last() =~= ss@.take(i as int));
                assert(ss@.take(i as int + 1).last() == ss@[i as int]);
            }
            if s.failure_count < MAX_FAILURES {
                r.push(s);
            }
            i += 1;
        }
        proof {
            assert(ss@.take(ss@.len() as int) =~= ss@);
        }
        r
    }

    /// Applies one subscription's check outcome to the failure counts:
    /// every subscription of the same `(course_id, tenant)` key is reset
    /// to zero on success or incremented by one on failure; no other
    /// subscription is touched.
    #[verifier::loop_isolation(false)]
    pub fn update_failure_count(&mut self, course_id: u32, tenant: Tenant, success: bool)
        ensures
            final(self).subs@ == spec_update_failures(old(self).subs@, course_id, tenant, success),
            final(self).next_id == old(self).next_id,
    {
        let ghost ss0 = self.subs@;
        let mut out: Vec<Subscription> = Vec::new();
        let mut i: usize = 0;
        while i < self.subs.len()
            invariant
                0 <= i <= ss0.len(),
                self.subs@ == ss0,
                self.next_id == old(self).next_id,
                out@.len() == i,
                forall|p: int|
                    0 <= p < i ==> out@[p] == (if spec_fc_match(ss0[p], course_id, tenant) {
                        spec_bump(ss0[p], success)
                    } else {
                        ss0[p]
                    }),
            decreases ss0.len() - i,
        {
            let mut s = self.subs[i];
            if s.tenant == tenant && s.course_id == course_id {
                if success {
                    s.failure_count = 0;
                } else if s.failure_count < u32::MAX {
                    s.failure_count = s.failure_count + 1;
                }
            }
            out.push(s);
            i += 1;
        }
        self.subs = out;
        proof {
            assert(final(self).subs@ =~= spec_update_failures(ss0, course_id, tenant, success));
        }
    }
}

/// Creates a subscription from already fetched course content: marks the
/// content's current modules as seen, so they are not announced as new,
/// and inserts the binding. A duplicate binding is rejected and leaves
/// both tables unchanged.
#[verifier::loop_isolation(false)]
pub fn add_subscribe(
    subs: &mut SubscriptionTable,
    modules: &mut ModuleTable,
    user_id: u32,
    course_id: u32,
    tenant: Tenant,
    course_content: &Vec<CourseSection>,
    now: i64,
) -> (r: Result<(), Error>)
    requires
        old(subs).next_id < u32::MAX,
        old(modules).next_id + crate::diff::flatten_sections(course_content@).len() <= u32::MAX,
    ensures
        spec_has_dup(old(subs).subs@, user_id, course_id, tenant) ==> r == Result::<
            (),
            Error,
        >::Err(Error::Duplicated) && *final(subs) == *old(subs) && *final(modules) == *old(
            modules,
        ),
        !spec_has_dup(old(subs).subs@, user_id, course_id, tenant) ==> r == Result::<
            (),
            Error,
        >::Ok(()) && final(subs).subs@ == old(subs).subs@.push(
            Subscription {
                id: old(subs).next_id,
                user_id,
                course_id,
                tenant,
                failure_count: 0,
                created_at: now,
            },
        ) && final(subs).next_id == old(subs).next_id + 1 && (
        final(modules).records@,
        final(modules).next_id as int,
        ) == crate::store::spec_save(
            old(modules).records@,
            crate::diff::flatten_sections(course_content@),
            user_id,
            course_id,
            now,
            old(modules).next_id as int,
        ),
{
    if subs.has_subscription(user_id, course_id, tenant) {
        return Err(Error::Duplicated);
    }
    modules.save_course_modules(user_id, course_id, course_content, now);
    let sub = Subscription {
        id: subs.next_id,
        user_id,
        course_id,
        tenant,
        failure_count: 0,
        created_at: now,
    };
    subs.subs.push(sub);
    subs.next_id = subs.next_id + 1;
    Ok(())
}

/// Removes the subscription of `(user, course, tenant)`. Exactly one
/// binding is expected; its absence is reported as `NotExist`.
#[verifier::loop_isolation(false)]
pub fn remove_subscribe(
    subs: &mut SubscriptionTable,
    user_id: u32,
    course_id: u32,
    tenant: Tenant,
) -> (r: Result<(), Error>)
    ensures
        final(subs).subs@ == spec_remove_matching(old(subs).subs@, user_id, course_id, tenant),
        final(subs).next_id == old(subs).next_id,
        r == if spec_count_del(old(subs).subs@, user_id, course_id, tenant) == 1 {
            Result::<(), Error>::Ok(())
        } else {
            Result::<(), Error>::Err(Error::NotExist)
        },
{
    let ghost ss0 = subs.subs@;
    let mut kept: Vec<Subscription> = Vec::new();
    let mut removed: usize = 0;
    let mut i: usize = 0;
    proof {
        assert(ss0.take(0) =~= Seq::<Subscription>::empty());
    }
    while i < subs.subs.len()
        invariant
            0 <= i <= ss0.len(),
            subs.subs@ == ss0,
            subs.next_id == old(subs).next_id,
            kept@ == spec_remove_matching(ss0.take(i as int), user_id, course_id, tenant),
            removed == spec_count_del(ss0.take(i as int), user_id, course_id, tenant),
            removed <= i,
        decreases ss0.len() - i,
    {
        let s = subs.subs[i];
        proof {
            assert(ss0.take(i as int + 1).drop_last() =~= ss0.take(i as int));
            assert(ss0.take(i as int + 1).last() == ss0[i as int]);
        }
        if s.tenant == tenant && s.user_id == user_id && s.course_id == course_id {
            removed = removed + 1;
        } else {
            kept.push(s);
        }
        i += 1;
    }
    proof {
        assert(ss0.take(ss0.len() as int) =~= ss0);
    }
    subs.subs = kept;
    if removed == 1 {
        Ok(())
    } else {
        Err(Error::NotExist)
    }
}

/// Removes every subscription of one group, as when the watcher leaves
/// the group; returns how many were removed.
#[verifier::loop_isolation(false)]
pub fn remove_group_subscribe(subs: &mut SubscriptionTable, group_qq: i64) -> (count: usize)
    ensures
        final(subs).subs@ == spec_remove_group(old(subs).subs@, group_qq),
        final(subs).next_id == old(subs).next_id,
        count == old(subs).subs@.len() - final(subs).subs@.len(),
{
    let ghost ss0 = subs.subs@;
    let mut kept: Vec<Subscription> = Vec::new();
    let mut i: usize = 0;
    proof {
        assert(ss0.take(0) =~= Seq::<Subscription>::empty());
    }
    while i < subs.subs.len()
        invariant
            0 <= i <= ss0.len(),
            subs.subs@ == ss0,
            subs.next_id == old(subs).next_id,
            kept@ == spec_remove_group(ss0.take(i as int), group_qq),
            kept@.len() <= i,
        decreases ss0.len() - i,
    {
        let s = subs.subs[i];
        proof {
            assert(ss0.take(i as int + 1).drop_last() =~= ss0.take(i as int));
            assert(ss0.take(i as int + 1).last() == ss0[i as int]);
        }
        let is_group = match s.tenant {
            Tenant::Group(qq) => qq == group_qq,
            Tenant::SenderSelf => false,
        };
        if !is_group {
            kept.push(s);
        }
        i += 1;
    }
    proof {
        assert(ss0.take(ss0.len() as int) =~= ss0);
    }
    let count = subs.subs.len() - kept.len();
    subs.subs = kept;
    count
}

/// Circuit-breaker law: a subscription is admitted to a cycle's
/// enumeration exactly when it is in the table with a failure count
/// below the bound; one that reaches the bound is excluded until it is
/// externally reset.
pub proof fn lemma_circuit_breaker(ss: Seq<Subscription>, s: Subscription)
    ensures
        spec_eligible(ss).contains(s) <==> (ss.contains(s) && s.failure_count < MAX_FAILURES),
    decreases ss.len(),
{
    if ss.len() > 0 {
        lemma_circuit_breaker(ss.drop_last(), s);
        let el = spec_eligible(ss);
        let prev = spec_eligible(ss.drop_last());
        if el.contains(s) {
            let k = choose|k: int| 0 <= k < el.len() && el[k] == s;
            if ss.last().failure_count < MAX_FAILURES && k == el.len() - 1 {
                assert(s == ss.last());
                assert(ss[ss.len() - 1] == s);
            } else {
                assert(prev.contains(s));
                let w = choose|w: int| 0 <= w < ss.drop_last().len() && ss.drop_last()[w] == s;
                assert(ss[w] == s);
            }
        }
        if ss.contains(s) && s.failure_count < MAX_FAILURES {
            let w = choose|w: int| 0 <= w < ss.len() && ss[w] == s;
            if w < ss.len() - 1 {
                assert(ss.drop_last()[w] == s);
                let k = choose|k: int| 0 <= k < prev.len() && prev[k] == s;
                if ss.last().failure_count < MAX_FAILURES {
                    assert(el[k] == s);
                } else {
                    assert(el[k] == s);
                }
            } else {
                assert(s == ss.last());
                assert(el[el.len() - 1] == s);
            }
        }
    }
}

} // verus!
