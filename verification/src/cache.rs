//! The per-cycle course-name cache: one write-once cell per course id,
//! shared by every subscription of that course, so the name is resolved
//! upstream at most once per cycle.
//!
//! A worker first attempts a non-blocking acquisition of the cell. Only
//! an acquisition of a vacant cell succeeds; the winner must then fill
//! the cell — with the resolved name, or with a deterministic fallback —
//! so that the cell is never left empty after a successful acquisition.
//! A worker that loses the acquisition proceeds without the name; the
//! notification pass later tolerates a cell that is still unresolved.

use vstd::prelude::*;
use vstd::string::StringExecFns;
use crate::decimal::{dec_digits, u32_to_string};
use crate::moodle::response::CoursesPublicInformation;

verus! {

/// The state of one course's name cell within a cycle.
#[derive(Debug)]
pub enum NameCell {
    /// Nobody has attempted to resolve the name yet.
    Vacant,
    /// An acquisition succeeded and the resolution is in flight.
    Resolving,
    /// The name is available.
    Filled(String),
}

/// One course's cell.
#[derive(Debug)]
pub struct NameEntry {
    pub course_id: u32,
    pub cell: NameCell,
}

/// The index of the cell of `course_id`, or a negative value if the
/// cache holds none.
pub open spec fn spec_cell_index(es: Seq<NameEntry>, course_id: u32) -> int
    decreases es.len(),
{
    if es.len() == 0 {
        -1
    } else if es[0].course_id == course_id {
        0
    } else {
        let r = spec_cell_index(es.drop_first(), course_id);
        if r < 0 {
            -1
        } else {
            r + 1
        }
    }
}

/// Whether the cache holds a cell for `course_id`.
pub open spec fn spec_has_cell(es: Seq<NameEntry>, course_id: u32) -> bool {
    spec_cell_index(es, course_id) >= 0
}

/// The cell of `course_id`.
pub open spec fn spec_cell(es: Seq<NameEntry>, course_id: u32) -> NameCell
    recommends
        spec_has_cell(es, course_id),
{
    es[spec_cell_index(es, course_id)].cell
}

/// The cache with the cell of `course_id` replaced.
pub open spec fn spec_set_cell(es: Seq<NameEntry>, course_id: u32, cell: NameCell) -> Seq<
    NameEntry,
>
    recommends
        spec_has_cell(es, course_id),
{
    es.update(spec_cell_index(es, course_id), NameEntry { course_id, cell })
}

/// The first cell index is within bounds, carries the course id, and no
/// earlier entry does.
pub proof fn lemma_cell_index(es: Seq<NameEntry>, course_id: u32)
    ensures
        spec_has_cell(es, course_id) ==> 0 <= spec_cell_index(es, course_id) < es.len()
            && es[spec_cell_index(es, course_id)].course_id == course_id,
        forall|p: int|
            0 <= p < spec_cell_index(es, course_id) ==> es[p].course_id != course_id,
        !spec_has_cell(es, course_id) ==> forall|p: int|
            0 <= p < es.len() ==> es[p].course_id != course_id,
    decreases es.len(),
{
    if es.len() > 0 && es[0].course_id != course_id {
        lemma_cell_index(es.drop_first(), course_id);
        assert forall|p: int|
            0 <= p < spec_cell_index(es, course_id) implies es[p].course_id != course_id by {
            if p > 0 {
                assert(es.drop_first()[p - 1].course_id != course_id);
            }
        }
        if !spec_has_cell(es, course_id) {
            assert forall|p: int| 0 <= p < es.len() implies es[p].course_id != course_id by {
                if p > 0 {
                    assert(es.drop_first()[p - 1].course_id != course_id);
                }
            }
        }
    }
}

/// Replacing a cell changes that cell and nothing else: what was stored
/// is read back. In particular, once an acquisition has turned a vacant
/// cell into `Resolving`, the cell of that course is no longer vacant,
/// so every later acquisition attempt for the course in the same cycle
/// fails.
pub proof fn lemma_set_cell(es: Seq<NameEntry>, course_id: u32, cell: NameCell)
    requires
        spec_has_cell(es, course_id),
    ensures
        spec_has_cell(spec_set_cell(es, course_id, cell), course_id),
        spec_cell(spec_set_cell(es, course_id, cell), course_id) == cell,
        spec_set_cell(es, course_id, cell).len() == es.len(),
        forall|p: int|
            0 <= p < es.len() && p != spec_cell_index(es, course_id) ==> spec_set_cell(
                es,
                course_id,
                cell,
            )[p] == es[p],
        forall|other: u32|
            other != course_id ==> spec_cell_index(spec_set_cell(es, course_id, cell), other)
                == spec_cell_index(es, other) && (spec_has_cell(es, other) ==> spec_cell(
                spec_set_cell(es, course_id, cell),
                other,
            ) == spec_cell(es, other)),
    decreases es.len(),
{
    lemma_cell_index(es, course_id);
    let k = spec_cell_index(es, course_id);
    let es2 = spec_set_cell(es, course_id, cell);
    lemma_cell_index_update(es, k, NameEntry { course_id, cell });
    assert(spec_cell_index(es2, course_id) == k);
    assert forall|other: u32|
        other != course_id implies spec_cell_index(es2, other) == spec_cell_index(es, other) && (
    spec_has_cell(es, other) ==> spec_cell(es2, other) == spec_cell(es, other)) by {
        lemma_cell_index_same(es, es2, other);
        if spec_has_cell(es, other) {
            lemma_cell_index(es, other);
            let m = spec_cell_index(es, other);
            assert(es[m].course_id == other);
            assert(m != k);
            assert(es2[m] == es[m]);
        }
    }
}

/// The first cell index of `course_id` is unchanged by updating an
/// entry that already carries `course_id` to another such entry.
proof fn lemma_cell_index_update(es: Seq<NameEntry>, k: int, e: NameEntry)
    requires
        0 <= k < es.len(),
        es[k].course_id == e.course_id,
        spec_cell_index(es, e.course_id) == k,
    ensures
        spec_cell_index(es.update(k, e), e.course_id) == k,
    decreases es.len(),
{
    if k == 0 {
        assert(es.update(0, e)[0] == e);
    } else {
        assert(es[0].course_id != e.course_id);
        assert(es.update(k, e)[0] == es[0]);
        assert(es.update(k, e).drop_first() =~= es.drop_first().update(k - 1, e));
        assert(spec_cell_index(es.drop_first(), e.course_id) == k - 1);
        lemma_cell_index_update(es.drop_first(), k - 1, e);
    }
}

/// Two caches that agree on which entries carry `course_id`, position by
/// position, give `course_id` the same first cell index.
proof fn lemma_cell_index_same(es: Seq<NameEntry>, fs: Seq<NameEntry>, course_id: u32)
    requires
        es.len() == fs.len(),
        forall|p: int|
            0 <= p < es.len() ==> (es[p].course_id == course_id) == (fs[p].course_id == course_id),
    ensures
        spec_cell_index(es, course_id) == spec_cell_index(fs, course_id),
    decreases es.len(),
{
    if es.len() > 0 {
        assert(es.drop_first().len() == fs.drop_first().len());
        assert forall|p: int|
            0 <= p < es.drop_first().len() implies (es.drop_first()[p].course_id == course_id) == (
            fs.drop_first()[p].course_id == course_id) by {
            assert(es.drop_first()[p] == es[p + 1]);
            assert(fs.drop_first()[p] == fs[p + 1]);
        }
        lemma_cell_index_same(es.drop_first(), fs.drop_first(), course_id);
    }
}

/// The per-cycle cache: one cell per course id seen this cycle.
#[derive(Debug)]
pub struct CourseNameCache {
    pub entries: Vec<NameEntry>,
}

impl CourseNameCache {
    /// An empty cache, built at the start of a cycle.
    pub fn new() -> (r: Self)
        ensures
            r.entries@ == Seq::<NameEntry>::empty(),
    {
        CourseNameCache { entries: Vec::new() }
    }

    /// Finds the position of the cell of `course_id`.
    #[verifier::loop_isolation(false)]
    fn find_index(&self, course_id: u32) -> (r: Option<usize>)
        ensures
            r is Some ==> r->0 == spec_cell_index(self.entries@, course_id) && spec_has_cell(
                self.entries@,
                course_id,
            ),
            r is None ==> !spec_has_cell(self.entries@, course_id),
    {
        let es = &self.entries;
        let mut i: usize = 0;
        while i < es.len()
            invariant
                0 <= i <= es@.len(),
                forall|p: int| 0 <= p < i ==> es@[p].course_id != course_id,
            decreases es@.len() - i,
        {
            if es[i].course_id == course_id {
                proof {
                    lemma_cell_index(es@, course_id);
                    if !spec_has_cell(es@, course_id) {
                        assert(es@[i as int].course_id != course_id);
                    }
                    let k = spec_cell_index(es@, course_id);
                    if k < i {
                        assert(es@[k].course_id != course_id);
                    }
                    if k > i {
                        assert(es@[i as int].course_id != course_id);
                    }
                }
                return Some(i);
            }
            i += 1;
        }
        proof {
            lemma_cell_index(es@, course_id);
            if spec_has_cell(es@, course_id) {
                assert(es@[spec_cell_index(es@, course_id)].course_id == course_id);
            }
        }
        None
    }

    /// Makes sure a cell exists for `course_id`, creating a vacant one
    /// on first sight. Called once per subscription while the cycle's
    /// subscriptions are enumerated.
    #[verifier::loop_isolation(false)]
    pub fn ensure_cell(&mut self, course_id: u32)
        ensures
            spec_has_cell(final(self).entries@, course_id),
            spec_has_cell(old(self).entries@, course_id) ==> *final(self) == *old(self),
            !spec_has_cell(old(self).entries@, course_id) ==> final(self).entries@ == old(
                self,
            ).entries@.push(NameEntry { course_id, cell: NameCell::Vacant }) && spec_cell(
                final(self).entries@,
                course_id,
            ) is Vacant,
            forall|other: u32|
                other != course_id ==> spec_cell_index(final(self).entries@, other)
                    == spec_cell_index(old(self).entries@, other) && (spec_has_cell(
                    old(self).entries@,
                    other,
                ) ==> spec_cell(final(self).entries@, other) == spec_cell(
                    old(self).entries@,
                    other,
                )),
    {
        match self.find_index(course_id) {
            Some(_) => {
            }
            None => {
                let ghost es0 = self.entries@;
                self.entries.push(NameEntry { course_id, cell: NameCell::Vacant });
                proof {
                    lemma_cell_index_push(es0, NameEntry { course_id, cell: NameCell::Vacant });
                    lemma_cell_index(es0, course_id);
                    let es1 = final(self).entries@;
                    assert(spec_cell_index(es1, course_id) == es0.len()) by {
                        lemma_cell_index_push_new(es0, course_id, NameCell::Vacant);
                    }
                }
            }
        }
    }

    /// Attempts the non-blocking acquisition of the cell of `course_id`.
    /// It succeeds exactly when the cell is still vacant; the winner is
    /// expected to resolve the name and fill the cell. A failed attempt
    /// changes nothing: the loser proceeds without blocking.
    pub fn try_begin_resolve(&mut self, course_id: u32) -> (acquired: bool)
        requires
            spec_has_cell(old(self).entries@, course_id),
        ensures
            acquired == (spec_cell(old(self).entries@, course_id) is Vacant),
            acquired ==> final(self).entries@ == spec_set_cell(
                old(self).entries@,
                course_id,
                NameCell::Resolving,
            ) && spec_cell(final(self).entries@, course_id) is Resolving,
            !acquired ==> *final(self) == *old(self),
            spec_has_cell(final(self).entries@, course_id),
            forall|other: u32|
                other != course_id ==> spec_cell_index(final(self).entries@, other)
                    == spec_cell_index(old(self).entries@, other) && (spec_has_cell(
                    old(self).entries@,
                    other,
                ) ==> spec_cell(final(self).entries@, other) == spec_cell(
                    old(self).entries@,
                    other,
                )),
    {
        let idx = match self.find_index(course_id) {
            Some(i) => i,
            None => {
                proof {
                    assert(false);
                }
                0
            }
        };
        proof {
            lemma_cell_index(self.entries@, course_id);
        }
        let vacant = match &self.entries[idx].cell {
            NameCell::Vacant => true,
            _ => false,
        };
        if vacant {
            let ghost es0 = self.entries@;
            self.entries.set(idx, NameEntry { course_id, cell: NameCell::Resolving });
            proof {
                assert(final(self).entries@ =~= spec_set_cell(
                    es0,
                    course_id,
                    NameCell::Resolving,
                ));
                lemma_set_cell(es0, course_id, NameCell::Resolving);
            }
            true
        } else {
            false
        }
    }

    /// Stores the resolved (or fallback) name into the cell the caller
    /// has acquired. The cell is never left empty after a successful
    /// acquisition: even a failed upstream lookup fills it, with the
    /// fallback name, so readers under contention cannot be starved.
    pub fn fill(&mut self, course_id: u32, name: String)
        requires
            spec_has_cell(old(self).entries@, course_id),
            spec_cell(old(self).entries@, course_id) is Resolving,
        ensures
            final(self).entries@ == spec_set_cell(
                old(self).entries@,
                course_id,
                NameCell::Filled(name),
            ),
            spec_has_cell(final(self).entries@, course_id),
            spec_cell(final(self).entries@, course_id) == NameCell::Filled(name),
            forall|other: u32|
                other != course_id ==> spec_cell_index(final(self).entries@, other)
                    == spec_cell_index(old(self).entries@, other) && (spec_has_cell(
                    old(self).entries@,
                    other,
                ) ==> spec_cell(final(self).entries@, other) == spec_cell(
                    old(self).entries@,
                    other,
                )),
    {
        let idx = match self.find_index(course_id) {
            Some(i) => i,
            None => {
                proof {
                    assert(false);
                }
                0
            }
        };
        proof {
            lemma_cell_index(self.entries@, course_id);
        }
        let ghost es0 = self.entries@;
        self.entries.set(idx, NameEntry { course_id, cell: NameCell::Filled(name) });
        proof {
            assert(final(self).entries@ =~= spec_set_cell(es0, course_id, NameCell::Filled(name)));
            lemma_set_cell(es0, course_id, NameCell::Filled(name));
        }
    }

    /// Reads the name of `course_id`, if its cell has been filled. A
    /// cell still vacant or in flight yields nothing; the caller skips
    /// that course's notification this cycle.
    pub fn read_name(&self, course_id: u32) -> (r: Option<String>)
        ensures
            match spec_cell_or_vacant(self.entries@, course_id) {
                NameCell::Filled(s) => r == Some(s),
                _ => r is None,
            },
    {
        match self.find_index(course_id) {
            Some(i) => {
                proof {
                    lemma_cell_index(self.entries@, course_id);
                }
                match &self.entries[i].cell {
                    NameCell::Filled(s) => Some(s.clone()),
                    _ => None,
                }
            }
            None => None,
        }
    }
}

/// The cell of `course_id`, or a vacant cell if the cache holds none.
pub open spec fn spec_cell_or_vacant(es: Seq<NameEntry>, course_id: u32) -> NameCell {
    if spec_has_cell(es, course_id) {
        spec_cell(es, course_id)
    } else {
        NameCell::Vacant
    }
}

/// Appending an entry does not disturb the cells of other course ids.
proof fn lemma_cell_index_push(es: Seq<NameEntry>, e: NameEntry)
    ensures
        forall|other: u32|
            other != e.course_id ==> spec_cell_index(es.push(e), other) == spec_cell_index(
                es,
                other,
            ) && (spec_has_cell(es, other) ==> spec_cell(es.push(e), other) == spec_cell(
                es,
                other,
            )),
    decreases es.len(),
{
    assert forall|other: u32|
        other != e.course_id implies spec_cell_index(es.push(e), other) == spec_cell_index(
        es,
        other,
    ) && (spec_has_cell(es, other) ==> spec_cell(es.push(e), other) == spec_cell(es, other)) by {
        lemma_cell_index_push_other(es, e, other);
        if spec_has_cell(es, other) {
            lemma_cell_index(es, other);
            assert(es.push(e)[spec_cell_index(es, other)] == es[spec_cell_index(es, other)]);
        }
    }
}

/// Appending an entry of a different course id keeps the first index.
proof fn lemma_cell_index_push_other(es: Seq<NameEntry>, e: NameEntry, other: u32)
    requires
        other != e.course_id,
    ensures
        spec_cell_index(es.push(e), other) == spec_cell_index(es, other),
    decreases es.len(),
{
    if es.len() == 0 {
        assert(es.push(e)[0] == e);
        assert(es.push(e).drop_first() =~= Seq::<NameEntry>::empty());
        assert(spec_cell_index(Seq::<NameEntry>::empty(), other) == -1);
    } else {
        assert(es.push(e)[0] == es[0]);
        assert(es.push(e).drop_first() =~= es.drop_first().push(e));
        lemma_cell_index_push_other(es.drop_first(), e, other);
    }
}

/// Appending the first entry of a course id puts its cell at the end.
proof fn lemma_cell_index_push_new(es: Seq<NameEntry>, course_id: u32, cell: NameCell)
    requires
        !spec_has_cell(es, course_id),
    ensures
        spec_cell_index(es.push(NameEntry { course_id, cell }), course_id) == es.len(),
        spec_cell(es.push(NameEntry { course_id, cell }), course_id) == cell,
    decreases es.len(),
{
    let e = NameEntry { course_id, cell };
    if es.len() == 0 {
        assert(es.push(e)[0] == e);
    } else {
        lemma_cell_index(es, course_id);
        assert(es[0].course_id != course_id);
        assert(es.push(e)[0] == es[0]);
        assert(es.push(e).drop_first() =~= es.drop_first().push(e));
        assert(!spec_has_cell(es.drop_first(), course_id)) by {
            lemma_cell_index(es.drop_first(), course_id);
            if spec_has_cell(es.drop_first(), course_id) {
                let k = spec_cell_index(es.drop_first(), course_id);
                assert(es[k + 1].course_id == course_id);
            }
        }
        lemma_cell_index_push_new(es.drop_first(), course_id, cell);
        assert(es.push(e)[spec_cell_index(es.push(e), course_id)].cell == cell);
    }
}

/// Coalescing law: once one worker's acquisition of a course's cell
/// has succeeded, the cell is no longer vacant — while the resolution
/// is in flight and after the cell is filled alike — so every later
/// acquisition attempt for that course in the same cycle fails and
/// makes no upstream call.
pub proof fn lemma_resolve_once(es: Seq<NameEntry>, course_id: u32, name: String)
    requires
        spec_has_cell(es, course_id),
        spec_cell(es, course_id) is Vacant,
    ensures
        !(spec_cell(spec_set_cell(es, course_id, NameCell::Resolving), course_id) is Vacant),
        !(spec_cell(
            spec_set_cell(
                spec_set_cell(es, course_id, NameCell::Resolving),
                course_id,
                NameCell::Filled(name),
            ),
            course_id,
        ) is Vacant),
{
    lemma_set_cell(es, course_id, NameCell::Resolving);
    lemma_set_cell(
        spec_set_cell(es, course_id, NameCell::Resolving),
        course_id,
        NameCell::Filled(name),
    );
}

/// The display name a successful lookup yields: the last reported
/// course's full name, or the fallback when the lookup matched nothing.
pub open spec fn spec_course_name_from_info(
    info: CoursesPublicInformation,
    course_id: u32,
) -> Seq<char> {
    if info.courses@.len() > 0 {
        info.courses@.last().full_name@
    } else {
        spec_fallback_course_name(course_id)
    }
}

/// The deterministic fallback name of a course whose lookup failed or
/// matched nothing.
pub open spec fn spec_fallback_course_name(course_id: u32) -> Seq<char> {
    "Unknown course "@ + dec_digits(course_id as nat)
}

/// Renders the fallback name of a course.
pub fn fallback_course_name(course_id: u32) -> (r: String)
    ensures
        r@ == spec_fallback_course_name(course_id),
{
    "Unknown course ".to_owned().concat(u32_to_string(course_id).as_str())
}

/// Extracts the display name from a successful lookup reply.
pub fn course_name_from_info(info: CoursesPublicInformation, course_id: u32) -> (r: String)
    ensures
        r@ == spec_course_name_from_info(info, course_id),
{
    let mut info = info;
    match info.courses.pop() {
        Some(c) => c.full_name,
        None => fallback_course_name(course_id),
    }
}

} // verus!
