//! The at-rest representation: one row per committed event, carrying the
//! event id, the owning aggregate id, the generation, the creation
//! timestamp, a type discriminator, and the serialized payload.

use vstd::prelude::*;

verus! {

/// A stored event row, as read back from the store.
#[derive(Debug, PartialEq, Eq)]
pub struct Event {
    pub id: String,
    pub aggregate_id: String,
    pub generation: i32,
    pub created_at: String,
    pub type_: String,
    pub data: String,
}

/// The model of a stored row.
pub ghost struct EventModel {
    pub id: Seq<char>,
    pub aggregate_id: Seq<char>,
    pub generation: int,
    pub created_at: Seq<char>,
    pub type_: Seq<char>,
    pub data: Seq<char>,
}

impl View for Event {
    type V = EventModel;

    open spec fn view(&self) -> EventModel {
        EventModel {
            id: self.id@,
            aggregate_id: self.aggregate_id@,
            generation: self.generation as int,
            created_at: self.created_at@,
            type_: self.type_@,
            data: self.data@,
        }
    }
}

impl Clone for Event {
    fn clone(&self) -> (r: Self)
        ensures
            r@ == self@,
    {
        Event {
            id: self.id.clone(),
            aggregate_id: self.aggregate_id.clone(),
            generation: self.generation,
            created_at: self.created_at.clone(),
            type_: self.type_.clone(),
            data: self.data.clone(),
        }
    }
}

/// A row to insert, borrowing its texts from the caller.
#[derive(Debug)]
pub struct NewEvent<'a> {
    pub id: &'a str,
    pub aggregate_id: &'a str,
    pub generation: i32,
    pub created_at: &'a str,
    pub type_: &'a str,
    pub data: &'a str,
}

impl<'a> View for NewEvent<'a> {
    type V = EventModel;

    open spec fn view(&self) -> EventModel {
        EventModel {
            id: self.id@,
            aggregate_id: self.aggregate_id@,
            generation: self.generation as int,
            created_at: self.created_at@,
            type_: self.type_@,
            data: self.data@,
        }
    }
}

impl<'a> NewEvent<'a> {
    /// The owned row this insertion form stands for.
    pub fn to_event(&self) -> (r: Event)
        ensures
            r@ == self@,
    {
        Event {
            id: self.id.to_owned(),
            aggregate_id: self.aggregate_id.to_owned(),
            generation: self.generation,
            created_at: self.created_at.to_owned(),
            type_: self.type_.to_owned(),
            data: self.data.to_owned(),
        }
    }
}

} // verus!
