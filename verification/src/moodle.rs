//! Data reported by the learning-management service (the content
//! provider), and the errors its calls can produce.

pub mod error;
pub mod response;

pub use response::{CourseModule, CourseSection, ModuleType};
