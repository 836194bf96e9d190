//! State and decision logic of a terminal file picker: list and tree views,
//! the keyboard and mouse dispatch, search ranking and the layout of what is drawn.
pub mod entry;
pub mod event;
pub mod layout;
pub mod path;
pub mod search;
pub mod state;
mod strings;
pub mod view;
pub mod widget;

pub use entry::{Entry, EntryKind};
pub use state::{FilePickerState, PickerResult};
pub use view::ViewState;
