//! The state of the monitored servers and the rules by which events change it.

pub mod effect;
pub mod event;
pub mod laws;
pub mod model;
pub mod outcomes;
pub mod reducer;

pub use effect::{Effect, SnoozeAction, Transition};
pub use event::Event;
pub use model::{
    AppState, Incident, IncidentState, NotificationData, OverallState, ServerStatus,
    SnoozedIncident, UiSnapshot,
};
pub use reducer::Reducer;
