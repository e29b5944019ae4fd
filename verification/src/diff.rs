//! Change detection: diffing a fetched course content tree against the
//! modules previously recorded for one `(user, course)` pair.
//!
//! Every reportable module of the fetched tree (everything but the
//! `Other` kind) is classified, in provider order: `Insert` if its id has
//! no record yet, `Update(record_id)` if it has one. Only `Insert`
//! entries are later eligible for notification; `Update` entries refresh
//! the record's timestamp silently.

use vstd::prelude::*;
use crate::moodle::response::{CourseModule, CourseSection};
use crate::store::ModuleRecord;

verus! {

/// How one module sighting is persisted: as a new record, or as a
/// timestamp refresh of record `record_id`.
#[derive(Clone, Copy, Debug, PartialEq, Eq, Structural)]
pub enum UpdateType {
    Insert,
    Update(u32),
}

/// One diff result: a module of `course_id`, seen for `user_id`, with
/// its classification.
#[derive(Clone, Debug)]
pub struct Update {
    pub update_type: UpdateType,
    pub user_id: u32,
    pub course_id: u32,
    pub module: CourseModule,
}

/// The first record with the given module id, if any.
pub open spec fn spec_find_record(records: Seq<ModuleRecord>, module_id: u32) -> Option<
    ModuleRecord,
>
    decreases records.len(),
{
    if records.len() == 0 {
        Option::None
    } else if records[0].module_id == module_id {
        Option::Some(records[0])
    } else {
        spec_find_record(records.drop_first(), module_id)
    }
}

/// The classification of one reportable module: `Insert` when unseen,
/// `Update` of the existing record otherwise.
pub open spec fn spec_classify(
    records: Seq<ModuleRecord>,
    m: CourseModule,
    user_id: u32,
    course_id: u32,
) -> Update {
    Update {
        update_type: match spec_find_record(records, m.id) {
            Option::Some(r) => UpdateType::Update(r.id),
            Option::None => UpdateType::Insert,
        },
        user_id,
        course_id,
        module: m,
    }
}

/// The diff of a module sequence against the records: reportable modules
/// classified in order, `Other` modules dropped.
pub open spec fn spec_diff(
    ms: Seq<CourseModule>,
    records: Seq<ModuleRecord>,
    user_id: u32,
    course_id: u32,
) -> Seq<Update>
    decreases ms.len(),
{
    if ms.len() == 0 {
        Seq::empty()
    } else {
        let rest = spec_diff(ms.drop_first(), records, user_id, course_id);
        if ms[0].spec_is_reportable() {
            seq![spec_classify(records, ms[0], user_id, course_id)] + rest
        } else {
            rest
        }
    }
}

/// All modules of all sections, in provider order.
pub open spec fn flatten_sections(ss: Seq<CourseSection>) -> Seq<CourseModule>
    decreases ss.len(),
{
    if ss.len() == 0 {
        Seq::empty()
    } else {
        ss[0].modules@ + flatten_sections(ss.drop_first())
    }
}

/// The diff distributes over concatenation of module sequences.
pub proof fn lemma_diff_concat(
    a: Seq<CourseModule>,
    b: Seq<CourseModule>,
    records: Seq<ModuleRecord>,
    user_id: u32,
    course_id: u32,
)
    ensures
        spec_diff(a + b, records, user_id, course_id) == spec_diff(a, records, user_id, course_id)
            + spec_diff(b, records, user_id, course_id),
    decreases a.len(),
{
    if a.len() == 0 {
        assert(a + b =~= b);
        assert(spec_diff(a, records, user_id, course_id) + spec_diff(b, records, user_id, course_id)
            =~= spec_diff(b, records, user_id, course_id));
    } else {
        assert((a + b).drop_first() =~= a.drop_first() + b);
        lemma_diff_concat(a.drop_first(), b, records, user_id, course_id);
        assert(spec_diff(a + b, records, user_id, course_id) =~= spec_diff(
            a,
            records,
            user_id,
            course_id,
        ) + spec_diff(b, records, user_id, course_id));
    }
}

/// Flattening distributes over dropping the last section.
pub proof fn lemma_flatten_snoc(ss: Seq<CourseSection>)
    requires
        ss.len() > 0,
    ensures
        flatten_sections(ss) == flatten_sections(ss.drop_last()) + ss.last().modules@,
    decreases ss.len(),
{
    if ss.len() == 1 {
        assert(ss.drop_last().len() == 0);
        assert(flatten_sections(ss.drop_first()) =~= Seq::<CourseModule>::empty());
        assert(flatten_sections(ss) =~= flatten_sections(ss.drop_last()) + ss.last().modules@);
    } else {
        lemma_flatten_snoc(ss.drop_first());
        assert(ss.drop_first().drop_last() =~= ss.drop_last().drop_first());
        assert(ss.drop_first().last() == ss.last());
        assert(flatten_sections(ss) =~= flatten_sections(ss.drop_last()) + ss.last().modules@);
    }
}

/// The classification a module id receives against the records.
pub open spec fn spec_classify_type(records: Seq<ModuleRecord>, module_id: u32) -> UpdateType {
    match spec_find_record(records, module_id) {
        Option::Some(r) => UpdateType::Update(r.id),
        Option::None => UpdateType::Insert,
    }
}

/// Every diff entry belongs to the given `(user, course)` pair, carries
/// a module of the input, and is classified by its module id alone.
pub proof fn lemma_diff_uniform(
    ms: Seq<CourseModule>,
    records: Seq<ModuleRecord>,
    user_id: u32,
    course_id: u32,
)
    ensures
        forall|k: int|
            0 <= k < spec_diff(ms, records, user_id, course_id).len() ==> {
                let u = #[trigger] spec_diff(ms, records, user_id, course_id)[k];
                u.user_id == user_id && u.course_id == course_id && u.update_type
                    == spec_classify_type(records, u.module.id)
            },
    decreases ms.len(),
{
    if ms.len() > 0 {
        lemma_diff_uniform(ms.drop_first(), records, user_id, course_id);
        let us = spec_diff(ms, records, user_id, course_id);
        let rest = spec_diff(ms.drop_first(), records, user_id, course_id);
        if ms[0].spec_is_reportable() {
            assert forall|k: int| 0 <= k < us.len() implies {
                let u = #[trigger] us[k];
                u.user_id == user_id && u.course_id == course_id && u.update_type
                    == spec_classify_type(records, u.module.id)
            } by {
                if k > 0 {
                    assert(us[k] == rest[k - 1]);
                }
            }
        }
    }
}

/// Every reportable module of the input has a diff entry of its module
/// id.
pub proof fn lemma_diff_covers(
    ms: Seq<CourseModule>,
    records: Seq<ModuleRecord>,
    user_id: u32,
    course_id: u32,
    k: int,
)
    requires
        0 <= k < ms.len(),
        ms[k].spec_is_reportable(),
    ensures
        exists|j: int|
            0 <= j < spec_diff(ms, records, user_id, course_id).len() && (#[trigger] spec_diff(
                ms,
                records,
                user_id,
                course_id,
            )[j]).module.id == ms[k].id,
    decreases ms.len(),
{
    let us = spec_diff(ms, records, user_id, course_id);
    let rest = spec_diff(ms.drop_first(), records, user_id, course_id);
    if k == 0 {
        assert(us[0].module.id == ms[0].id);
    } else {
        assert(ms.drop_first()[k - 1] == ms[k]);
        lemma_diff_covers(ms.drop_first(), records, user_id, course_id, k - 1);
        let j = choose|j: int| 0 <= j < rest.len() && (#[trigger] rest[j]).module.id == ms[k].id;
        if ms[0].spec_is_reportable() {
            assert(us[j + 1] == rest[j]);
            assert(us[j + 1].module.id == ms[k].id);
        } else {
            assert(us[j] == rest[j]);
            assert(us[j].module.id == ms[k].id);
        }
    }
}

/// Every diff entry's module is a reportable module of the input.
pub proof fn lemma_diff_modules(
    ms: Seq<CourseModule>,
    records: Seq<ModuleRecord>,
    user_id: u32,
    course_id: u32,
)
    ensures
        forall|k: int|
            0 <= k < spec_diff(ms, records, user_id, course_id).len() ==> exists|j: int|
                0 <= j < ms.len() && #[trigger] ms[j] == (#[trigger] spec_diff(
                    ms,
                    records,
                    user_id,
                    course_id,
                )[k]).module && ms[j].spec_is_reportable(),
    decreases ms.len(),
{
    if ms.len() > 0 {
        lemma_diff_modules(ms.drop_first(), records, user_id, course_id);
        let us = spec_diff(ms, records, user_id, course_id);
        let rest = spec_diff(ms.drop_first(), records, user_id, course_id);
        assert forall|k: int| 0 <= k < us.len() implies exists|j: int|
            0 <= j < ms.len() && #[trigger] ms[j] == (#[trigger] us[k]).module
                && ms[j].spec_is_reportable() by {
            if ms[0].spec_is_reportable() && k == 0 {
                assert(ms[0] == us[0].module);
            } else {
                let kk: int = if ms[0].spec_is_reportable() {
                    k - 1
                } else {
                    k
                };
                assert(us[k] == rest[kk]);
                let j = choose|j: int|
                    0 <= j < ms.drop_first().len() && #[trigger] ms.drop_first()[j]
                        == rest[kk].module && ms.drop_first()[j].spec_is_reportable();
                assert(ms[j + 1] == us[k].module);
            }
        }
    }
}

/// A module id finds a record exactly when the records hold one, and
/// what it finds is one of them.
pub proof fn lemma_find_record(records: Seq<ModuleRecord>, module_id: u32)
    ensures
        (spec_find_record(records, module_id) is Some) == exists|i: int|
            0 <= i < records.len() && (#[trigger] records[i]).module_id == module_id,
        spec_find_record(records, module_id) matches Option::Some(r) ==> records.contains(r)
            && r.module_id == module_id,
    decreases records.len(),
{
    if records.len() > 0 {
        lemma_find_record(records.drop_first(), module_id);
        if records[0].module_id == module_id {
        } else {
            if spec_find_record(records, module_id) is Some {
                let r = spec_find_record(records, module_id)->0;
                assert(records.drop_first().contains(r));
                let i = choose|i: int|
                    0 <= i < records.drop_first().len() && records.drop_first()[i] == r;
                assert(records[i + 1] == r);
            }
            if exists|i: int|
                0 <= i < records.len() && (#[trigger] records[i]).module_id == module_id {
                let i = choose|i: int|
                    0 <= i < records.len() && (#[trigger] records[i]).module_id == module_id;
                assert(i > 0);
                assert(records.drop_first()[i - 1].module_id == module_id);
            }
        }
    }
}

/// The diff of a single module.
pub proof fn lemma_diff_one(
    m: CourseModule,
    records: Seq<ModuleRecord>,
    user_id: u32,
    course_id: u32,
)
    ensures
        m.spec_is_reportable() ==> spec_diff(seq![m], records, user_id, course_id) == seq![
            spec_classify(records, m, user_id, course_id),
        ],
        !m.spec_is_reportable() ==> spec_diff(seq![m], records, user_id, course_id) == Seq::<
            Update,
        >::empty(),
{
    assert(seq![m].drop_first() =~= Seq::<CourseModule>::empty());
    assert(spec_diff(Seq::<CourseModule>::empty(), records, user_id, course_id) =~= Seq::<
        Update,
    >::empty());
    if m.spec_is_reportable() {
        assert(spec_diff(seq![m], records, user_id, course_id) =~= seq![
            spec_classify(records, m, user_id, course_id),
        ]);
    } else {
        assert(spec_diff(seq![m], records, user_id, course_id) =~= Seq::<Update>::empty());
    }
}

/// Looks up the record of one module id.
pub fn find_record(records: &Vec<ModuleRecord>, module_id: u32) -> (r: Option<ModuleRecord>)
    ensures
        r == spec_find_record(records@, module_id),
{
    let mut i: usize = 0;
    assert(records@.skip(0) =~= records@);
    while i < records.len()
        invariant
            0 <= i <= records@.len(),
            spec_find_record(records@, module_id) == spec_find_record(
                records@.skip(i as int),
                module_id,
            ),
        decreases records@.len() - i,
    {
        let rec = records[i];
        if rec.module_id == module_id {
            assert(records@.skip(i as int)[0] == rec);
            return Some(rec);
        }
        assert(records@.skip(i as int).drop_first() =~= records@.skip(i as int + 1));
        i += 1;
    }
    assert(records@.skip(i as int).len() == 0);
    None
}

/// Diffs a fetched content tree against the records of one
/// `(user, course)` pair: one classified entry per reportable module, in
/// provider order. Consumes the tree; the modules move into the result.
pub fn diff_course_content(
    sections: Vec<CourseSection>,
    records: &Vec<ModuleRecord>,
    user_id: u32,
    course_id: u32,
) -> (r: Vec<Update>)
    ensures
        r@ == spec_diff(flatten_sections(sections@), records@, user_id, course_id),
{
    let ghost all_sections = sections@;
    let mut sections = sections;
    let mut r: Vec<Update> = Vec::new();
    proof {
        assert(all_sections.take(0) =~= Seq::<CourseSection>::empty());
    }
    while sections.len() > 0
        invariant
            sections@.len() <= all_sections.len(),
            sections@ =~= all_sections.skip(all_sections.len() - sections@.len()),
            r@ == spec_diff(
                flatten_sections(all_sections.take(all_sections.len() - sections@.len())),
                records@,
                user_id,
                course_id,
            ),
        decreases sections@.len(),
    {
        let ghost i = all_sections.len() - sections@.len();
        let section = sections.remove(0);
        proof {
            assert(section == all_sections[i]);
            assert(sections@ =~= all_sections.skip(i + 1));
        }
        let ghost prefix = flatten_sections(all_sections.take(i));
        let ghost all_modules = section.modules@;
        let mut modules = section.modules;
        while modules.len() > 0
            invariant
                modules@.len() <= all_modules.len(),
                modules@ =~= all_modules.skip(all_modules.len() - modules@.len()),
                r@ == spec_diff(
                    prefix + all_modules.take(all_modules.len() - modules@.len()),
                    records@,
                    user_id,
                    course_id,
                ),
            decreases modules@.len(),
        {
            let ghost j = all_modules.len() - modules@.len();
            let m = modules.remove(0);
            proof {
                assert(m == all_modules[j]);
                assert(modules@ =~= all_modules.skip(j + 1));
                assert(all_modules.take(j + 1) =~= all_modules.take(j) + seq![all_modules[j]]);
                assert(prefix + all_modules.take(j + 1) =~= (prefix + all_modules.take(j))
                    + seq![all_modules[j]]);
                lemma_diff_concat(
                    prefix + all_modules.take(j),
                    seq![all_modules[j]],
                    records@,
                    user_id,
                    course_id,
                );
                lemma_diff_one(all_modules[j], records@, user_id, course_id);
            }
            match m.get_id() {
                Some(module_id) => {
                    let update_type = match find_record(records, module_id) {
                        Some(rec) => UpdateType::Update(rec.id),
                        None => UpdateType::Insert,
                    };
                    r.push(Update { update_type, user_id, course_id, module: m });
                    assert(r@ =~= spec_diff(
                        prefix + all_modules.take(j + 1),
                        records@,
                        user_id,
                        course_id,
                    ));
                }
                None => {
                    assert(r@ =~= spec_diff(
                        prefix + all_modules.take(j + 1),
                        records@,
                        user_id,
                        course_id,
                    ));
                }
            }
        }
        proof {
            assert(all_modules.take(all_modules.len() as int) =~= all_modules);
            assert(all_sections.take(i + 1).drop_last() =~= all_sections.take(i));
            lemma_flatten_snoc(all_sections.take(i + 1));
            assert(all_sections.take(i + 1).last() == all_sections[i]);
        }
    }
    proof {
        assert(all_sections.take(all_sections.len() as int) =~= all_sections);
    }
    r
}

} // verus!
