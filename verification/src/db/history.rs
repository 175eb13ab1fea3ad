//! The history of mod events.
pub mod event;
pub mod event_type;
pub mod store;

pub use event::Event;
pub use event_type::EventType;
