//! The toggle aggregate: a second leaf state machine over the aggregate
//! capability.

use vstd::prelude::*;

use crate::domain::{hydrate_events, opt_view, spec_hydrate_from, views_of, Aggregate,
    Generation};

verus! {

/// A hydrated toggle.
#[derive(Debug, PartialEq, Eq)]
pub struct Toggle {
    // Universally unique identifier
    id: u128,
    // For optimistic locking
    generation: Generation,
    // Human readable name
    name: String,
    // For evolving toggles
    version: i32,
}

/// The model of a toggle.
pub ghost struct ToggleModel {
    pub id: u128,
    pub generation: int,
    pub name: Seq<char>,
    pub version: int,
}

impl View for Toggle {
    type V = ToggleModel;

    closed spec fn view(&self) -> ToggleModel {
        ToggleModel {
            id: self.id,
            generation: self.generation@,
            name: self.name@,
            version: self.version as int,
        }
    }
}

/// Everything that can happen to a toggle.
#[derive(Debug, PartialEq, Eq)]
pub enum Event {
    Created { id: u128, name: String },
}

/// The model of a toggle event.
pub ghost enum ToggleEventModel {
    Created { id: u128, name: Seq<char> },
}

impl View for Event {
    type V = ToggleEventModel;

    open spec fn view(&self) -> ToggleEventModel {
        match self {
            Event::Created { id, name } => ToggleEventModel::Created { id: *id, name: name@ },
        }
    }
}

/// Failure of a toggle transition or creation command.
#[derive(Debug, PartialEq, Eq)]
pub enum ToggleError {
    InvalidName { name: String },
    InvalidStateEvent,
}

impl Toggle {
    /// Derives the events of a creation command. Never rejects: every name
    /// is allowed.
    pub fn create(id: u128, name: String) -> (r: Result<Vec<Event>, ToggleError>)
        ensures
            r matches Ok(evs) && evs@.len() == 1 && evs@[0]@ == (ToggleEventModel::Created {
                id,
                name: name@,
            }),
    {
        Ok(vec![Event::Created { id, name }])
    }

    /// Replays the events in order from no state; see `hydrate_events`.
    pub fn hydrate(events: &[Event]) -> (r: Result<Option<Toggle>, ToggleError>)
        ensures
            match r {
                Ok(s) => spec_hydrate_from::<Toggle>(None, views_of(events@)) == Ok::<
                    Option<ToggleModel>,
                    ToggleError,
                >(opt_view(s)),
                Err(e) => spec_hydrate_from::<Toggle>(None, views_of(events@)) == Err::<
                    Option<ToggleModel>,
                    ToggleError,
                >(e),
            },
    {
        hydrate_events::<Toggle>(events)
    }
}

impl Aggregate for Toggle {
    type Id = u128;

    type Event = Event;

    type Err = ToggleError;

    /// A `Created` event on no state creates the toggle at the first
    /// generation and version zero; every other pair is rejected.
    open spec fn spec_apply(state: Option<ToggleModel>, event: ToggleEventModel) -> Result<
        ToggleModel,
        ToggleError,
    > {
        match (state, event) {
            (None, ToggleEventModel::Created { id, name }) => Ok(ToggleModel {
                id,
                generation: 0,
                name,
                version: 0,
            }),
            _ => Err(ToggleError::InvalidStateEvent),
        }
    }

    open spec fn spec_id(&self) -> u128 {
        self@.id
    }

    open spec fn spec_generation(&self) -> int {
        self@.generation
    }

    fn id(&self) -> (r: &u128) {
        &self.id
    }

    fn generation(&self) -> (r: Generation) {
        self.generation
    }

    fn apply_event(state: Option<Toggle>, event: &Event) -> (r: Result<Toggle, ToggleError>) {
        match (&state, event) {
            (None, Event::Created { id, name }) => Ok(Toggle {
                id: *id,
                generation: Generation::first(),
                name: name.clone(),
                version: 0,
            }),
            _ => Err(ToggleError::InvalidStateEvent),
        }
    }
}

/// Applying a `Created` event to an already-created state always fails with
/// the invalid-state-event error: replay never overwrites a toggle.
pub proof fn lemma_created_on_existing_rejected(state: ToggleModel, event: ToggleEventModel)
    ensures
        Toggle::spec_apply(Some(state), event) == Err::<ToggleModel, ToggleError>(
            ToggleError::InvalidStateEvent,
        ),
{
}

} // verus!
