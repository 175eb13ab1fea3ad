//! Where the history of mod events is stored.
use crate::db::history::event::Event;
use vstd::prelude::*;

verus! {

#[verifier::external_type_specification]
#[verifier::external_body]
pub struct ExAnyhowError(anyhow::Error);

/// Storing and retrieving mod events. What a store gives back is whatever it
/// holds: nothing here is claimed of it.
pub trait HistoryStore: Send + Sync {
    /// Records new mod events.
    fn record_events(&self, events: &[Event]) -> Result<(), anyhow::Error>;

    /// All events of the mod `mod_id`, ordered by time.
    fn get_mod_history(&self, mod_id: &str) -> Result<Vec<Event>, anyhow::Error>;

    /// The latest event of each mod.
    fn get_latest_events(&self) -> Result<Vec<Event>, anyhow::Error>;

    /// All events.
    fn get_all_events(&self) -> Result<Vec<Event>, anyhow::Error>;
}

} // verus!
