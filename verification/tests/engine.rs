use moodle_sentinel::buffer::CycleBuffers;
use moodle_sentinel::cycle::{run_check, SubscriptionCheck};
use moodle_sentinel::diff::UpdateType;
use moodle_sentinel::error::Error;
use moodle_sentinel::moodle::error::Error as MoodleApiError;
use moodle_sentinel::moodle::response::{
    CourseModule, CoursePublicInformation, CourseSection, CoursesPublicInformation, ModuleType,
    MoodleError,
};
use moodle_sentinel::store::ModuleTable;
use moodle_sentinel::subscribe::{Subscription, SubscriptionTable};
use moodle_sentinel::tenant::Tenant;

fn module(id: u32, content: ModuleType) -> CourseModule {
    CourseModule {
        id,
        name: format!("module {}", id),
        user_visible: true,
        content,
    }
}

fn section(modules: Vec<CourseModule>) -> Vec<CourseSection> {
    vec![CourseSection { id: 1, modules }]
}

fn subscription(user_id: u32, course_id: u32, tenant: Tenant) -> Subscription {
    Subscription {
        id: user_id,
        user_id,
        course_id,
        tenant,
        failure_count: 0,
        created_at: 0,
    }
}

fn name_info(course_id: u32, full_name: &str) -> CoursesPublicInformation {
    CoursesPublicInformation {
        courses: vec![CoursePublicInformation {
            id: course_id,
            full_name: full_name.to_string(),
            display_name: full_name.to_string(),
        }],
    }
}

#[test]
fn fresh_course_inserts_only_reportable_modules() {
    let mut subs = SubscriptionTable::new();
    subs.subs.push(subscription(7, 42, Tenant::Group(100)));
    let mut modules = ModuleTable::new();
    let checks = vec![SubscriptionCheck {
        subscription: subs.subs[0],
        name_answer: Some(Ok(name_info(42, "Calculus"))),
        content: Ok(section(vec![
            module(1, ModuleType::Resource { info: None }),
            module(2, ModuleType::Other),
        ])),
    }];
    let (notifs, plan) = run_check(checks, &mut subs, &mut modules, 1000);

    assert_eq!(plan.len(), 1);
    assert_eq!(plan[0].update_type, UpdateType::Insert);
    assert_eq!(plan[0].user_id, 7);
    assert_eq!(plan[0].course_id, 42);
    assert_eq!(plan[0].module_id, 1);

    assert_eq!(modules.records.len(), 1);
    assert_eq!(modules.records[0].module_id, 1);
    assert_eq!(modules.records[0].updated_at, 1000);

    assert_eq!(notifs.len(), 1);
    assert_eq!(notifs[0].course_name, "Calculus");
    let ups = notifs[0].modules.as_ref().unwrap();
    assert_eq!(ups.len(), 1);
    assert_eq!(ups[0].module.id, 1);
}

#[test]
fn second_cycle_with_same_content_is_idempotent() {
    let mut subs = SubscriptionTable::new();
    subs.subs.push(subscription(7, 42, Tenant::Group(100)));
    let mut modules = ModuleTable::new();
    let content = || {
        Ok(section(vec![
            module(1, ModuleType::Resource { info: None }),
            module(2, ModuleType::Other),
        ]))
    };
    let checks1 = vec![SubscriptionCheck {
        subscription: subs.subs[0],
        name_answer: Some(Ok(name_info(42, "Calculus"))),
        content: content(),
    }];
    let (_, plan1) = run_check(checks1, &mut subs, &mut modules, 1000);
    assert_eq!(plan1.len(), 1);
    assert_eq!(plan1[0].update_type, UpdateType::Insert);
    let record_id = modules.records[0].id;

    let checks2 = vec![SubscriptionCheck {
        subscription: subs.subs[0],
        name_answer: Some(Ok(name_info(42, "Calculus"))),
        content: content(),
    }];
    let (_, plan2) = run_check(checks2, &mut subs, &mut modules, 2000);
    assert_eq!(plan2.len(), 1);
    assert_eq!(plan2[0].update_type, UpdateType::Update(record_id));
    // No new row; the existing row's stamp advanced.
    assert_eq!(modules.records.len(), 1);
    assert_eq!(modules.records[0].updated_at, 2000);
}

#[test]
fn invalid_token_error_reports_login_expired_and_counts_failure() {
    let mut subs = SubscriptionTable::new();
    subs.subs.push(subscription(7, 42, Tenant::Group(100)));
    let mut modules = ModuleTable::new();
    let checks = vec![SubscriptionCheck {
        subscription: subs.subs[0],
        name_answer: None,
        content: Err(MoodleApiError::Moodle(MoodleError {
            exception: None,
            error_code: "invalidtoken".to_string(),
            message: None,
            error: None,
        })),
    }];
    let (notifs, plan) = run_check(checks, &mut subs, &mut modules, 1000);

    assert_eq!(plan.len(), 0);
    assert_eq!(subs.subs[0].failure_count, 1);
    assert_eq!(notifs.len(), 1);
    let err = notifs[0].modules.as_ref().unwrap_err();
    let text = err.user_message();
    assert_eq!(text, "Moodle login expired");
    assert!(text.contains("login expired"));
}

#[test]
fn shared_course_resolves_name_once_and_diffs_independently() {
    let mut subs = SubscriptionTable::new();
    subs.subs.push(subscription(7, 42, Tenant::Group(100)));
    subs.subs.push(subscription(8, 42, Tenant::Group(200)));
    let mut modules = ModuleTable::new();
    let checks = vec![
        SubscriptionCheck {
            subscription: subs.subs[0],
            name_answer: Some(Ok(name_info(42, "Calculus"))),
            content: Ok(section(vec![module(1, ModuleType::Page)])),
        },
        SubscriptionCheck {
            subscription: subs.subs[1],
            // This answer is never consumed: the first check already
            // resolved the course's name.
            name_answer: Some(Ok(name_info(42, "Unused name"))),
            content: Ok(section(vec![module(5, ModuleType::Assignment)])),
        },
    ];
    let (notifs, plan) = run_check(checks, &mut subs, &mut modules, 1000);

    assert_eq!(notifs.len(), 2);
    assert_eq!(notifs[0].course_name, "Calculus");
    assert_eq!(notifs[1].course_name, "Calculus");
    // Both diffs proceeded, independent of name resolution.
    assert_eq!(plan.len(), 2);
    assert_eq!(modules.records.len(), 2);
}

#[test]
fn name_lookup_failure_falls_back_to_deterministic_name() {
    let mut subs = SubscriptionTable::new();
    subs.subs.push(subscription(7, 42, Tenant::Group(100)));
    let mut modules = ModuleTable::new();
    let checks = vec![SubscriptionCheck {
        subscription: subs.subs[0],
        name_answer: None,
        content: Ok(section(vec![module(1, ModuleType::Page)])),
    }];
    let (notifs, _) = run_check(checks, &mut subs, &mut modules, 1000);
    assert_eq!(notifs.len(), 1);
    assert_eq!(notifs[0].course_name, "Unknown course 42");
}

#[test]
fn failure_of_one_subscription_does_not_touch_another() {
    let mut subs = SubscriptionTable::new();
    subs.subs.push(subscription(1, 10, Tenant::Group(100)));
    subs.subs.push(subscription(2, 20, Tenant::Group(200)));
    let mut modules = ModuleTable::new();
    let checks = vec![
        SubscriptionCheck {
            subscription: subs.subs[0],
            name_answer: None,
            content: Err(MoodleApiError::Req("connection reset".to_string())),
        },
        SubscriptionCheck {
            subscription: subs.subs[1],
            name_answer: Some(Ok(name_info(20, "Physics"))),
            content: Ok(section(vec![module(3, ModuleType::Mediasite)])),
        },
    ];
    let (notifs, plan) = run_check(checks, &mut subs, &mut modules, 1000);

    assert_eq!(subs.subs[0].failure_count, 1);
    assert_eq!(subs.subs[1].failure_count, 0);
    // The unrelated subscription's notification and persistence are intact.
    assert_eq!(notifs.len(), 2);
    assert!(notifs[0].modules.is_err());
    assert_eq!(notifs[1].modules.as_ref().unwrap().len(), 1);
    assert_eq!(plan.len(), 1);
    assert_eq!(plan[0].user_id, 2);
}

#[test]
fn two_subscriptions_on_same_user_course_leave_one_record() {
    let mut subs = SubscriptionTable::new();
    subs.subs.push(subscription(7, 42, Tenant::Group(100)));
    let mut second = subscription(7, 42, Tenant::Group(200));
    second.id = 99;
    subs.subs.push(second);
    let mut modules = ModuleTable::new();
    let content = || Ok(section(vec![module(1, ModuleType::Page)]));
    let checks = vec![
        SubscriptionCheck {
            subscription: subs.subs[0],
            name_answer: Some(Ok(name_info(42, "Calculus"))),
            content: content(),
        },
        SubscriptionCheck {
            subscription: subs.subs[1],
            name_answer: None,
            content: content(),
        },
    ];
    let (_, plan) = run_check(checks, &mut subs, &mut modules, 1000);

    // Both sightings collapse to one plan row and one record.
    assert_eq!(plan.len(), 1);
    assert_eq!(modules.records.len(), 1);
    assert_eq!(modules.records[0].user_id, 7);
    assert_eq!(modules.records[0].course_id, 42);
    assert_eq!(modules.records[0].module_id, 1);
}

#[test]
fn first_error_poisons_a_buffer_key_and_leaves_others_alone() {
    let mut buffers = CycleBuffers::new();
    let ups = |id: u32| {
        vec![moodle_sentinel::diff::Update {
            update_type: UpdateType::Insert,
            user_id: 1,
            course_id: 10,
            module: module(id, ModuleType::Page),
        }]
    };
    buffers.append(Tenant::Group(1), 10, Ok(ups(1)));
    buffers.append(Tenant::Group(1), 10, Err(Error::Db("disk full".to_string())));
    buffers.append(Tenant::Group(1), 10, Ok(ups(2)));
    buffers.append(Tenant::Group(2), 10, Ok(ups(3)));

    assert_eq!(buffers.entries.len(), 2);
    // The first error wins and blocks later merges for its key.
    let first = &buffers.entries[0];
    assert_eq!(first.tenant, Tenant::Group(1));
    match &first.result {
        Err(Error::Db(msg)) => assert_eq!(msg, "disk full"),
        other => panic!("expected the first error to poison the slot, got {:?}", other),
    }
    // The other key is untouched.
    let second = &buffers.entries[1];
    assert_eq!(second.tenant, Tenant::Group(2));
    assert_eq!(second.result.as_ref().unwrap().len(), 1);
}

#[test]
fn circuit_breaker_excludes_thrice_failed_subscriptions() {
    let mut table = SubscriptionTable::new();
    for (i, fc) in [0u32, 2, 3, 4].iter().enumerate() {
        let mut s = subscription(i as u32 + 1, 10, Tenant::Group(i as i64));
        s.failure_count = *fc;
        table.subs.push(s);
    }
    let eligible = table.eligible_subscriptions();
    assert_eq!(eligible.len(), 2);
    assert_eq!(eligible[0].failure_count, 0);
    assert_eq!(eligible[1].failure_count, 2);
}

#[test]
fn successful_check_resets_failure_count() {
    let mut subs = SubscriptionTable::new();
    let mut s = subscription(7, 42, Tenant::Group(100));
    s.failure_count = 2;
    subs.subs.push(s);
    let mut modules = ModuleTable::new();
    let checks = vec![SubscriptionCheck {
        subscription: subs.subs[0],
        name_answer: None,
        content: Ok(section(vec![])),
    }];
    let (_, _) = run_check(checks, &mut subs, &mut modules, 1000);
    assert_eq!(subs.subs[0].failure_count, 0);
}
