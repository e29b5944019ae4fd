//! Shapes of the content provider's replies.
//!
//! The provider answers every call either with the requested data or with
//! a business error carrying an error code; `Response` captures that
//! alternative. A course is a list of sections, each holding modules; a
//! module's `content` says what kind of item it is. Modules of kind
//! `Other` are administrative noise and are never reported as a change.

use vstd::prelude::*;

verus! {

/// A business error reported by the provider itself (as opposed to a
/// transport failure). `error_code` is always present; the human-readable
/// fields are optional.
#[derive(Debug, Clone)]
pub struct MoodleError {
    pub exception: Option<String>,
    pub error_code: String,
    pub message: Option<String>,
    pub error: Option<String>,
}

impl MoodleError {
    /// The text shown for this error: the message if present, else the
    /// secondary error text, else the bare error code.
    pub open spec fn spec_display_message(self) -> Seq<char> {
        match self.message {
            Option::Some(m) => m@,
            Option::None => match self.error {
                Option::Some(e) => e@,
                Option::None => self.error_code@,
            },
        }
    }

    pub fn display_message(&self) -> (r: String)
        ensures
            r@ == self.spec_display_message(),
    {
        match &self.message {
            Option::Some(m) => m.clone(),
            Option::None => match &self.error {
                Option::Some(e) => e.clone(),
                Option::None => self.error_code.clone(),
            },
        }
    }
}

/// Every provider reply is either the requested data or a business error.
#[derive(Debug, Clone)]
pub enum Response<T> {
    MoodleError(MoodleError),
    Data(T),
}

impl<T> Response<T> {
    /// Turns the reply into a `Result`: data becomes `Ok`, a business
    /// error becomes `Err`.
    pub fn into_result(self) -> (r: Result<T, MoodleError>)
        ensures
            self is Data ==> r == Result::<T, MoodleError>::Ok(self->Data_0),
            self is MoodleError ==> r == Result::<T, MoodleError>::Err(self->MoodleError_0),
    {
        match self {
            Response::MoodleError(e) => Err(e),
            Response::Data(data) => Ok(data),
        }
    }
}

/// A successful login reply: the API token and its private counterpart.
#[derive(Debug, Clone)]
pub struct LoginResult {
    pub token: String,
    pub private_token: String,
}

/// Metadata attached to an uploaded file resource.
#[derive(Debug, Clone, Copy)]
pub struct ResourceInfo {
    pub last_modified: i32,
}

/// One named sub-content of a link or folder module.
#[derive(Debug, Clone)]
pub struct Content {
    pub url: String,
    pub name: String,
    pub last_modified: i32,
}

/// What kind of item a module is. Contents are optional because the
/// provider hides them on user-invisible modules.
#[derive(Debug, Clone)]
pub enum ModuleType {
    Resource { info: Option<ResourceInfo> },
    Mediasite,
    Url { contents: Option<Vec<Content>> },
    Folder { contents: Option<Vec<Content>> },
    Page,
    Assignment,
    Other,
}

/// One content item within a course, as the provider reports it.
#[derive(Debug, Clone)]
pub struct CourseModule {
    pub id: u32,
    pub name: String,
    pub user_visible: bool,
    pub content: ModuleType,
}

impl CourseModule {
    /// Whether this module counts as course content: everything except
    /// the `Other` kind, which is never reported as a change.
    pub open spec fn spec_is_reportable(self) -> bool {
        !(self.content is Other)
    }

    /// The identifier under which this module is tracked: `Some(id)` for
    /// reportable modules, `None` for the `Other` kind.
    pub fn get_id(&self) -> (r: Option<u32>)
        ensures
            self.spec_is_reportable() <==> r == Option::Some(self.id),
            !self.spec_is_reportable() <==> r is None,
    {
        match self.content {
            ModuleType::Other => None,
            _ => Some(self.id),
        }
    }

    /// The title a notification shows for this module: a link module
    /// with known sub-contents is announced by its first content's
    /// name, every other module by its own name.
    pub open spec fn spec_display_title(self) -> Seq<char> {
        match self.content {
            ModuleType::Url { contents } => match contents {
                Option::Some(cs) => if cs@.len() > 0 {
                    cs@[0].name@
                } else {
                    self.name@
                },
                Option::None => self.name@,
            },
            _ => self.name@,
        }
    }

    pub fn display_title(&self) -> (r: String)
        ensures
            r@ == self.spec_display_title(),
    {
        match &self.content {
            ModuleType::Url { contents } => match contents {
                Option::Some(cs) => {
                    if cs.len() > 0 {
                        cs[0].name.clone()
                    } else {
                        self.name.clone()
                    }
                },
                Option::None => self.name.clone(),
            },
            _ => self.name.clone(),
        }
    }
}

/// One section of a course: an identifier and the modules it holds.
#[derive(Debug, Clone)]
pub struct CourseSection {
    pub id: u32,
    pub modules: Vec<CourseModule>,
}

/// Reply to a course lookup by field: the matching courses.
#[derive(Debug, Clone)]
pub struct CoursesPublicInformation {
    pub courses: Vec<CoursePublicInformation>,
}

/// Publicly visible facts about one course.
#[derive(Debug, Clone)]
pub struct CoursePublicInformation {
    pub id: u32,
    pub full_name: String,
    pub display_name: String,
}

} // verus!
