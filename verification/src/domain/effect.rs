//! What an event asks the surroundings to do.

use vstd::prelude::*;

use crate::table::Table;
use crate::text::Text;
use crate::timestamp::Timestamp;

verus! {

/// Why the snoozes are to be written.
///
/// It decides what is logged once they were, and tells what the user asked for from the automatic
/// removal of snoozes that are over.
#[derive(Debug, PartialEq, Eq)]
pub enum SnoozeAction {
    /// One deadline is added or replaced.
    SetDeadline { key: String, until: Timestamp },
    /// One deadline is removed at the user's request.
    Remove { key: String },
    /// Deadlines that have passed are removed.
    Expire { keys: Vec<String> },
}

/// What a [`SnoozeAction`] says.
#[verifier::ext_equal]
pub enum SnoozeActionModel {
    SetDeadline { key: Text, until: Timestamp },
    Remove { key: Text },
    Expire { keys: Seq<Text> },
}

impl View for SnoozeAction {
    type V = SnoozeActionModel;

    open spec fn view(&self) -> SnoozeActionModel {
        match self {
            SnoozeAction::SetDeadline { key, until } => SnoozeActionModel::SetDeadline { key: key@, until: *until },
            SnoozeAction::Remove { key } => SnoozeActionModel::Remove { key: key@ },
            SnoozeAction::Expire { keys } => SnoozeActionModel::Expire { keys: keys.deep_view() },
        }
    }
}

/// Something to do outside the state.
#[derive(Debug, PartialEq, Eq)]
pub enum Effect {
    /// Shows a desktop notification.
    Notify {
        title: String,
        /// Incident details; empty where an incident is over.
        body: String,
    },
    /// Writes a complete set of snoozes. They take effect only once they were written.
    PersistSnoozes { snoozes: Table<Timestamp>, action: SnoozeAction },
}

/// What an [`Effect`] says.
#[verifier::ext_equal]
pub enum EffectModel {
    Notify { title: Text, body: Text },
    PersistSnoozes { snoozes: Map<Text, Timestamp>, action: SnoozeActionModel },
}

impl View for Effect {
    type V = EffectModel;

    open spec fn view(&self) -> EffectModel {
        match self {
            Effect::Notify { title, body } => EffectModel::Notify { title: title@, body: body@ },
            Effect::PersistSnoozes { snoozes, action } => EffectModel::PersistSnoozes {
                snoozes: snoozes@,
                action: action@,
            },
        }
    }
}

impl DeepView for Effect {
    type V = EffectModel;

    open spec fn deep_view(&self) -> EffectModel {
        self.view()
    }
}

/// What came of one event.
#[derive(Debug, PartialEq, Eq)]
pub struct Transition {
    /// Whether the user is to be shown a fresh snapshot.
    pub changed: bool,
    /// What is to be done, in order.
    pub effects: Vec<Effect>,
}

/// What a [`Transition`] says.
#[verifier::ext_equal]
pub struct TransitionModel {
    pub changed: bool,
    pub effects: Seq<EffectModel>,
}

impl View for Transition {
    type V = TransitionModel;

    open spec fn view(&self) -> TransitionModel {
        TransitionModel { changed: self.changed, effects: self.effects.deep_view() }
    }
}

/// The outcome of an event that changes nothing and asks for nothing.
pub open spec fn no_transition() -> TransitionModel {
    TransitionModel { changed: false, effects: Seq::empty() }
}

impl Default for Transition {
    fn default() -> (transition: Self)
        ensures
            transition@ == no_transition(),
    {
        let transition = Transition { changed: false, effects: Vec::new() };
        assert(transition.effects.deep_view() =~= Seq::<EffectModel>::empty());
        transition
    }
}

} // verus!
