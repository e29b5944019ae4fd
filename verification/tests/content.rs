use moodle_sentinel::buffer::{collect_notifications, CycleBuffers};
use moodle_sentinel::cache::{course_name_from_info, fallback_course_name, CourseNameCache};
use moodle_sentinel::tenant::Tenant;
use moodle_sentinel::decimal::u32_to_string;
use moodle_sentinel::diff::{diff_course_content, find_record, UpdateType};
use moodle_sentinel::error::Error;
use moodle_sentinel::moodle::error::Error as MoodleApiError;
use moodle_sentinel::moodle::response::{
    Content, CourseModule, CoursePublicInformation, CourseSection, CoursesPublicInformation,
    ModuleType, MoodleError, Response,
};
use moodle_sentinel::store::ModuleRecord;

fn module(id: u32, content: ModuleType) -> CourseModule {
    CourseModule {
        id,
        name: format!("module {}", id),
        user_visible: true,
        content,
    }
}

#[test]
fn decimal_rendering_is_exact() {
    assert_eq!(u32_to_string(0), "0");
    assert_eq!(u32_to_string(7), "7");
    assert_eq!(u32_to_string(907), "907");
    assert_eq!(u32_to_string(u32::MAX), "4294967295");
}

#[test]
fn fallback_name_is_deterministic() {
    assert_eq!(fallback_course_name(42), "Unknown course 42");
    assert_eq!(fallback_course_name(0), "Unknown course 0");
}

#[test]
fn course_name_prefers_the_last_reported_course() {
    let info = CoursesPublicInformation {
        courses: vec![
            CoursePublicInformation {
                id: 1,
                full_name: "First".to_string(),
                display_name: "F".to_string(),
            },
            CoursePublicInformation {
                id: 2,
                full_name: "Second".to_string(),
                display_name: "S".to_string(),
            },
        ],
    };
    assert_eq!(course_name_from_info(info, 9), "Second");
    let empty = CoursesPublicInformation { courses: vec![] };
    assert_eq!(course_name_from_info(empty, 9), "Unknown course 9");
}

#[test]
fn response_into_result_splits_data_and_error() {
    let ok: Response<u32> = Response::Data(5);
    assert_eq!(ok.into_result().unwrap(), 5);
    let err: Response<u32> = Response::MoodleError(MoodleError {
        exception: None,
        error_code: "oops".to_string(),
        message: None,
        error: None,
    });
    assert_eq!(err.into_result().unwrap_err().error_code, "oops");
}

#[test]
fn error_display_message_prefers_message_then_error_then_code() {
    let base = MoodleError {
        exception: None,
        error_code: "code".to_string(),
        message: Some("msg".to_string()),
        error: Some("err".to_string()),
    };
    assert_eq!(base.display_message(), "msg");
    let no_message = MoodleError { message: None, ..base.clone() };
    assert_eq!(no_message.display_message(), "err");
    let bare = MoodleError { message: None, error: None, ..base };
    assert_eq!(bare.display_message(), "code");
}

#[test]
fn user_messages_cover_every_error_variant() {
    assert_eq!(Error::Duplicated.user_message(), "The record already exists");
    assert_eq!(Error::NotExist.user_message(), "The record does not exist");
    assert_eq!(Error::Other("boom".to_string()).user_message(), "boom");
    assert_eq!(
        Error::Db("locked".to_string()).user_message(),
        "Storage error: locked"
    );
    assert_eq!(
        Error::Moodle(MoodleApiError::Req("timed out".to_string())).user_message(),
        "Error communicating with Moodle: timed out"
    );
    assert_eq!(
        Error::Moodle(MoodleApiError::Moodle(MoodleError {
            exception: None,
            error_code: "invalidtoken".to_string(),
            message: None,
            error: None,
        }))
        .user_message(),
        "Moodle login expired"
    );
    assert_eq!(
        Error::Moodle(MoodleApiError::Moodle(MoodleError {
            exception: None,
            error_code: "nope".to_string(),
            message: Some("course hidden".to_string()),
            error: None,
        }))
        .user_message(),
        "Moodle error: course hidden"
    );
}

#[test]
fn get_id_hides_other_modules() {
    assert_eq!(module(3, ModuleType::Page).get_id(), Some(3));
    assert_eq!(module(3, ModuleType::Other).get_id(), None);
}

#[test]
fn display_title_picks_link_content_name() {
    let link = CourseModule {
        id: 1,
        name: "link module".to_string(),
        user_visible: true,
        content: ModuleType::Url {
            contents: Some(vec![Content {
                url: "https://example.invalid/a.pdf".to_string(),
                name: "a.pdf".to_string(),
                last_modified: 0,
            }]),
        },
    };
    assert_eq!(link.display_title(), "a.pdf");
    let bare_link = CourseModule {
        id: 1,
        name: "link module".to_string(),
        user_visible: true,
        content: ModuleType::Url { contents: None },
    };
    assert_eq!(bare_link.display_title(), "link module");
    assert_eq!(module(2, ModuleType::Page).display_title(), "module 2");
}

#[test]
fn diff_classifies_by_recorded_module_ids() {
    let sections = vec![CourseSection {
        id: 1,
        modules: vec![
            module(1, ModuleType::Resource { info: None }),
            module(2, ModuleType::Other),
            module(3, ModuleType::Folder { contents: None }),
        ],
    }];
    let records = vec![ModuleRecord {
        id: 50,
        user_id: 7,
        course_id: 42,
        module_id: 3,
        updated_at: 0,
    }];
    let updates = diff_course_content(sections, &records, 7, 42);
    assert_eq!(updates.len(), 2);
    assert_eq!(updates[0].module.id, 1);
    assert_eq!(updates[0].update_type, UpdateType::Insert);
    assert_eq!(updates[1].module.id, 3);
    assert_eq!(updates[1].update_type, UpdateType::Update(50));
}

#[test]
fn find_record_returns_the_first_match() {
    let records = vec![
        ModuleRecord { id: 1, user_id: 7, course_id: 42, module_id: 3, updated_at: 10 },
        ModuleRecord { id: 2, user_id: 7, course_id: 42, module_id: 3, updated_at: 20 },
    ];
    assert_eq!(find_record(&records, 3).unwrap().id, 1);
    assert!(find_record(&records, 4).is_none());
}

#[test]
fn name_cache_acquisition_succeeds_once() {
    let mut cache = CourseNameCache::new();
    cache.ensure_cell(42);
    cache.ensure_cell(42);
    assert_eq!(cache.entries.len(), 1);
    assert!(cache.read_name(42).is_none());

    assert!(cache.try_begin_resolve(42));
    // The cell is taken: later attempts fail without blocking.
    assert!(!cache.try_begin_resolve(42));
    cache.fill(42, "Calculus".to_string());
    assert!(!cache.try_begin_resolve(42));
    assert_eq!(cache.read_name(42).unwrap(), "Calculus");
    assert!(cache.read_name(7).is_none());
}

#[test]
fn unresolved_name_skips_the_notification() {
    let mut buffers = CycleBuffers::new();
    buffers.append(
        Tenant::Group(1),
        10,
        Ok(vec![moodle_sentinel::diff::Update {
            update_type: UpdateType::Insert,
            user_id: 1,
            course_id: 10,
            module: module(1, ModuleType::Page),
        }]),
    );
    buffers.append(Tenant::Group(2), 11, Ok(vec![]));

    let mut cache = CourseNameCache::new();
    // Course 10's cell is created but never filled: a contended miss.
    cache.ensure_cell(10);
    cache.ensure_cell(11);
    assert!(cache.try_begin_resolve(11));
    cache.fill(11, "Physics".to_string());

    let notifs = collect_notifications(buffers, &cache);
    // Only the resolved course's slot is drained into a notification.
    assert_eq!(notifs.len(), 1);
    assert_eq!(notifs[0].course_name, "Physics");
    assert_eq!(notifs[0].tenant, Tenant::Group(2));
}
