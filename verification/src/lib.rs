//! A small task tracker: an in-memory list of to-do items with soft delete,
//! a 1-based positional addressing scheme, and a JSON text form used to
//! persist the list between sessions.

mod ext;
pub mod json;
pub mod ops;
pub mod task;
pub mod text;

pub use json::load_tasks;
pub use json::tasks_to_json;
pub use ops::append_task;
pub use ops::finish_task;
pub use ops::remove_task;
pub use ops::visible_positions_of;
pub use task::Task;
pub use text::repeat_char;
