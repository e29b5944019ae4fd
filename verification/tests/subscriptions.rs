use moodle_sentinel::diff::{Update, UpdateType};
use moodle_sentinel::error::Error;
use moodle_sentinel::moodle::response::{CourseModule, CourseSection, ModuleType};
use moodle_sentinel::store::ModuleTable;
use moodle_sentinel::subscribe::{
    add_subscribe, remove_group_subscribe, remove_subscribe, SubscriptionTable,
};
use moodle_sentinel::persist::plan_group_updates;
use moodle_sentinel::tenant::Tenant;

fn course_content() -> Vec<CourseSection> {
    vec![CourseSection {
        id: 1,
        modules: vec![
            CourseModule {
                id: 11,
                name: "syllabus".to_string(),
                user_visible: true,
                content: ModuleType::Resource { info: None },
            },
            CourseModule {
                id: 12,
                name: "hidden admin".to_string(),
                user_visible: false,
                content: ModuleType::Other,
            },
        ],
    }]
}

#[test]
fn test_add_remove_self_subscribe() {
    let mut subs = SubscriptionTable::new();
    let mut modules = ModuleTable::new();
    let tenant = Tenant::SenderSelf;
    let user_id = 1;
    let course_id = 42;
    let content = course_content();

    add_subscribe(&mut subs, &mut modules, user_id, course_id, tenant, &content, 100).unwrap();
    assert!(matches!(
        add_subscribe(&mut subs, &mut modules, user_id, course_id, tenant, &content, 101)
            .unwrap_err(),
        Error::Duplicated
    ));
    remove_subscribe(&mut subs, user_id, course_id, tenant).unwrap();
    add_subscribe(&mut subs, &mut modules, user_id, course_id, tenant, &content, 102).unwrap();
    remove_subscribe(&mut subs, user_id, course_id, tenant).unwrap();
    assert!(matches!(
        remove_subscribe(&mut subs, user_id, course_id, tenant).unwrap_err(),
        Error::NotExist
    ));
}

#[test]
fn test_add_remove_group_subscribe() {
    let mut subs = SubscriptionTable::new();
    let mut modules = ModuleTable::new();
    let tenant = Tenant::Group(3344);
    let user_id = 1;
    let course_id = 42;
    let content = course_content();

    add_subscribe(&mut subs, &mut modules, user_id, course_id, tenant, &content, 100).unwrap();
    assert!(matches!(
        add_subscribe(&mut subs, &mut modules, user_id, course_id, tenant, &content, 101)
            .unwrap_err(),
        Error::Duplicated
    ));
    remove_subscribe(&mut subs, user_id, course_id, tenant).unwrap();
    add_subscribe(&mut subs, &mut modules, user_id, course_id, tenant, &content, 102).unwrap();
    remove_subscribe(&mut subs, user_id, course_id, tenant).unwrap();
    assert!(matches!(
        remove_subscribe(&mut subs, user_id, course_id, tenant).unwrap_err(),
        Error::NotExist
    ));
}

#[test]
fn group_subscription_is_shared_by_its_members() {
    // A second user subscribing the same course to the same group is a
    // duplicate, whoever subscribed first.
    let mut subs = SubscriptionTable::new();
    let mut modules = ModuleTable::new();
    let tenant = Tenant::Group(3344);
    let content = course_content();
    add_subscribe(&mut subs, &mut modules, 1, 42, tenant, &content, 100).unwrap();
    assert!(matches!(
        add_subscribe(&mut subs, &mut modules, 2, 42, tenant, &content, 101).unwrap_err(),
        Error::Duplicated
    ));
}

#[test]
fn subscribing_marks_existing_content_as_seen() {
    let mut subs = SubscriptionTable::new();
    let mut modules = ModuleTable::new();
    let content = course_content();
    add_subscribe(&mut subs, &mut modules, 1, 42, Tenant::SenderSelf, &content, 100).unwrap();
    // Only the reportable module is recorded; the `Other` one is not.
    assert_eq!(modules.records.len(), 1);
    assert_eq!(modules.records[0].module_id, 11);
    assert_eq!(modules.records[0].user_id, 1);
    assert_eq!(modules.records[0].course_id, 42);
    assert!(modules.has_record(1, 42, 11));
    assert!(!modules.has_record(1, 42, 12));
}

#[test]
fn removing_a_group_removes_all_its_subscriptions() {
    let mut subs = SubscriptionTable::new();
    let mut modules = ModuleTable::new();
    let content: Vec<CourseSection> = vec![];
    add_subscribe(&mut subs, &mut modules, 1, 42, Tenant::Group(7), &content, 100).unwrap();
    add_subscribe(&mut subs, &mut modules, 2, 43, Tenant::Group(7), &content, 101).unwrap();
    add_subscribe(&mut subs, &mut modules, 3, 44, Tenant::Group(8), &content, 102).unwrap();
    add_subscribe(&mut subs, &mut modules, 1, 42, Tenant::SenderSelf, &content, 103).unwrap();

    let removed = remove_group_subscribe(&mut subs, 7);
    assert_eq!(removed, 2);
    assert_eq!(subs.subs.len(), 2);
    assert!(subs.subs.iter().all(|s| s.tenant != Tenant::Group(7)));
}

#[test]
fn commit_refreshes_only_the_touched_record() {
    let mut modules = ModuleTable::new();
    let content = vec![CourseSection {
        id: 1,
        modules: vec![
            CourseModule {
                id: 11,
                name: "a".to_string(),
                user_visible: true,
                content: ModuleType::Page,
            },
            CourseModule {
                id: 12,
                name: "b".to_string(),
                user_visible: true,
                content: ModuleType::Page,
            },
        ],
    }];
    modules.save_course_modules(1, 42, &content, 100);
    assert_eq!(modules.records.len(), 2);
    let first_id = modules.records[0].id;

    let plan = vec![moodle_sentinel::persist::PlanRow {
        update_type: UpdateType::Update(first_id),
        user_id: 1,
        course_id: 42,
        module_id: 11,
    }];
    modules.commit_updates(&plan, 555);
    assert_eq!(modules.records[0].updated_at, 555);
    assert_eq!(modules.records[1].updated_at, 100);
}

#[test]
fn dedup_keeps_the_last_classification_per_key() {
    let module = |id: u32| CourseModule {
        id,
        name: "m".to_string(),
        user_visible: true,
        content: ModuleType::Page,
    };
    let updates = vec![
        Update { update_type: UpdateType::Insert, user_id: 1, course_id: 10, module: module(5) },
        Update {
            update_type: UpdateType::Update(77),
            user_id: 1,
            course_id: 10,
            module: module(5),
        },
        Update { update_type: UpdateType::Insert, user_id: 2, course_id: 10, module: module(5) },
    ];
    let plan = plan_group_updates(&updates);
    assert_eq!(plan.len(), 2);
    // Key (1, 5): the later classification wins, in its position.
    assert_eq!(plan[0].update_type, UpdateType::Update(77));
    assert_eq!(plan[0].user_id, 1);
    // Key (2, 5) is untouched.
    assert_eq!(plan[1].update_type, UpdateType::Insert);
    assert_eq!(plan[1].user_id, 2);
}

#[test]
fn commit_with_wall_clock_stamps_records() {
    let mut modules = ModuleTable::new();
    let plan = vec![moodle_sentinel::persist::PlanRow {
        update_type: UpdateType::Insert,
        user_id: 1,
        course_id: 42,
        module_id: 11,
    }];
    modules.commit_updates_now(&plan);
    assert_eq!(modules.records.len(), 1);
    // A live timestamp: after 2020-01-01 in seconds since the epoch.
    assert!(modules.records[0].updated_at > 1_577_836_800);
}
