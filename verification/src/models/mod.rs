pub mod event;
pub mod habit;
pub mod inbox_item;
pub mod task;

pub use event::Event;
pub use habit::Habit;
pub use inbox_item::{InboxItem, InboxSection};
pub use task::Task;
