//! The core abstractions: the generation counter, the aggregate capability
//! with its pure transition function and replay fold, and the envelope that
//! identifies and timestamps each committed event.

use vstd::prelude::*;

use crate::time::Timestamp;
use crate::uuid_text::{uuid_format, uuid_str_of};

verus! {

/// A monotonically increasing, zero-based sequence number scoped to one
/// aggregate instance; it doubles as the optimistic-concurrency token.
#[derive(Clone, Copy, Debug, PartialEq, Eq)]
pub struct Generation(i32);

impl View for Generation {
    type V = int;

    closed spec fn view(&self) -> int {
        self.0 as int
    }
}

impl Generation {
    /// A generation is never negative.
    #[verifier::type_invariant]
    pub open spec fn wf(self) -> bool {
        0 <= self@
    }

    /// The generation of the first event ever persisted for an aggregate.
    pub fn first() -> (r: Self)
        ensures
            r@ == 0,
    {
        Self(0)
    }

    /// The generation that follows this one.
    pub fn next(self) -> (r: Self)
        requires
            self@ < i32::MAX,
        ensures
            r@ == self@ + 1,
    {
        proof {
            use_type_invariant(self);
        }
        Self(self.0 + 1)
    }

    /// The counter as a plain integer, for the at-rest row form.
    pub fn value(self) -> (r: i32)
        ensures
            r as int == self@,
            0 <= r,
    {
        proof {
            use_type_invariant(self);
        }
        self.0
    }
}

/// The model of an optional value.
pub open spec fn opt_view<T: View>(o: Option<T>) -> Option<T::V> {
    match o {
        Some(t) => Some(t@),
        None => None,
    }
}

/// The models of the elements, in order.
pub open spec fn views_of<T: View>(s: Seq<T>) -> Seq<T::V> {
    s.map_values(|t: T| t@)
}

/// A domain entity whose current state is derived exclusively by replaying
/// its ordered event history. The transition function is given as a
/// mathematical function on the models of state and event, so that replay is
/// deterministic by construction, and every executable transition is held to
/// it.
pub trait Aggregate: View + Sized {
    type Id: View;

    type Event: View;

    type Err;

    /// The single source of truth for all state transitions.
    spec fn spec_apply(state: Option<Self::V>, event: <Self::Event as View>::V) -> Result<
        Self::V,
        Self::Err,
    >;

    spec fn spec_id(&self) -> <Self::Id as View>::V;

    spec fn spec_generation(&self) -> int;

    fn id(&self) -> (r: &Self::Id)
        ensures
            r@ == self.spec_id(),
    ;

    fn generation(&self) -> (r: Generation)
        ensures
            r@ == self.spec_generation(),
    ;

    /// Applies one event to the current state, or to no state for an
    /// aggregate that does not exist yet. Pure: the outcome is the
    /// transition function of the models, nothing else.
    fn apply_event(state: Option<Self>, event: &Self::Event) -> (r: Result<Self, Self::Err>)
        ensures
            match r {
                Ok(s) => Self::spec_apply(opt_view(state), event@) == Ok::<Self::V, Self::Err>(
                    s@,
                ),
                Err(e) => Self::spec_apply(opt_view(state), event@) == Err::<Self::V, Self::Err>(
                    e,
                ),
            },
    ;

}

/// The derived replay of every aggregate: folds `apply_event` over the
/// events in order, starting from no state. No state comes back only for an
/// empty slice; the first rejected event ends the replay with its error.
pub fn hydrate_events<A: Aggregate>(events: &[A::Event]) -> (r: Result<Option<A>, A::Err>)
    ensures
        match r {
            Ok(s) => spec_hydrate_from::<A>(None, views_of(events@)) == Ok::<
                Option<A::V>,
                A::Err,
            >(opt_view(s)),
            Err(e) => spec_hydrate_from::<A>(None, views_of(events@)) == Err::<
                Option<A::V>,
                A::Err,
            >(e),
        },
{
    let ghost evs = views_of(events@);
    let mut state: Option<A> = None;
    let mut i: usize = 0;
    while i < events.len()
        invariant
            i <= events.len(),
            evs == views_of(events@),
            evs.len() == events@.len(),
            forall|k: int| 0 <= k < evs.len() ==> #[trigger] evs[k] == events@[k]@,
            spec_hydrate_from::<A>(None, evs.take(i as int)) == Ok::<Option<A::V>, A::Err>(
                opt_view(state),
            ),
        decreases events.len() - i,
    {
        let ghost prev = opt_view(state);
        let ghost single = seq![evs[i as int]];
        let r = A::apply_event(state, &events[i]);
        proof {
            lemma_hydrate_append::<A>(None, evs.take(i as int), single);
            assert(evs.take(i as int) + single =~= evs.take(i + 1));
            assert(single[0] == evs[i as int]);
            assert(single.drop_first() =~= Seq::<<A::Event as View>::V>::empty());
        }
        match r {
            Ok(s) => {
                proof {
                    assert(A::spec_apply(prev, evs[i as int]) == Ok::<A::V, A::Err>(s@));
                    assert(spec_hydrate_from::<A>(Some(s@), single.drop_first()) == Ok::<
                        Option<A::V>,
                        A::Err,
                    >(Some(s@)));
                    assert(spec_hydrate_from::<A>(prev, single) == Ok::<Option<A::V>, A::Err>(
                        Some(s@),
                    ));
                }
                state = Some(s);
            },
            Err(e) => {
                proof {
                    assert(spec_hydrate_from::<A>(prev, single) == Err::<Option<A::V>, A::Err>(
                        e,
                    ));
                    assert(evs.take(i + 1) + evs.skip(i + 1) =~= evs);
                    lemma_hydrate_append::<A>(None, evs.take(i + 1), evs.skip(i + 1));
                }
                return Err(e);
            },
        }
        i = i + 1;
    }
    proof {
        assert(evs.take(events@.len() as int) =~= evs);
    }
    Ok(state)
}

/// The replay fold: applies the transition function to each event in order,
/// from the given state, stopping at the first error.
pub open spec fn spec_hydrate_from<A: Aggregate>(
    state: Option<A::V>,
    events: Seq<<A::Event as View>::V>,
) -> Result<Option<A::V>, A::Err>
    decreases events.len(),
{
    if events.len() == 0 {
        Ok(state)
    } else {
        match A::spec_apply(state, events[0]) {
            Ok(s) => spec_hydrate_from::<A>(Some(s), events.drop_first()),
            Err(e) => Err(e),
        }
    }
}

/// Replaying a concatenation replays the first part, then the second from
/// the state the first part reached; an error in the first part stands.
pub proof fn lemma_hydrate_append<A: Aggregate>(
    state: Option<A::V>,
    a: Seq<<A::Event as View>::V>,
    b: Seq<<A::Event as View>::V>,
)
    ensures
        spec_hydrate_from::<A>(state, a + b) == (match spec_hydrate_from::<A>(state, a) {
            Ok(s) => spec_hydrate_from::<A>(s, b),
            Err(e) => Err(e),
        }),
    decreases a.len(),
{
    if a.len() == 0 {
        assert(a + b =~= b);
    } else {
        assert((a + b)[0] == a[0]);
        match A::spec_apply(state, a[0]) {
            Ok(s) => {
                assert((a + b).drop_first() =~= a.drop_first() + b);
                lemma_hydrate_append::<A>(Some(s), a.drop_first(), b);
            },
            Err(e) => {},
        }
    }
}

/// Replay is deterministic: the same events in the same order always reach
/// the identical final state, since the fold is a function of the event
/// models alone.
pub proof fn lemma_hydrate_deterministic<A: Aggregate>(
    events: Seq<<A::Event as View>::V>,
    r1: Result<Option<A::V>, A::Err>,
    r2: Result<Option<A::V>, A::Err>,
)
    requires
        r1 == spec_hydrate_from::<A>(None, events),
        r2 == spec_hydrate_from::<A>(None, events),
    ensures
        r1 == r2,
{
}

/// Replaying no events is no state, never an error.
pub proof fn lemma_hydrate_empty<A: Aggregate>()
    ensures
        spec_hydrate_from::<A>(None, Seq::empty()) == Ok::<Option<A::V>, A::Err>(None),
{
}

/// The unique identifier of one committed event.
#[derive(Clone, Copy, Debug, PartialEq, Eq)]
pub struct DomainEventId(u128);

impl View for DomainEventId {
    type V = u128;

    closed spec fn view(&self) -> u128 {
        self.0
    }
}

impl DomainEventId {
    pub fn new(id: u128) -> (r: Self)
        ensures
            r@ == id,
    {
        DomainEventId(id)
    }

    pub fn to_string(&self) -> (r: String)
        ensures
            r@ == uuid_str_of(self@),
    {
        uuid_format(self.0)
    }
}

/// The envelope around one raw domain event: a fresh unique identifier, the
/// owning aggregate's identity, and the creation timestamp. Constructed by a
/// command handler just before persistence and immutable from then on.
pub struct DomainEvent<T: Aggregate> {
    pub id: DomainEventId,
    pub aggregate_id: T::Id,
    pub created_at: Timestamp,
    pub event: T::Event,
}

/// The model of an envelope.
pub ghost struct DomainEventModel<IdV, EvV> {
    pub id: u128,
    pub aggregate_id: IdV,
    pub created_at: Seq<char>,
    pub event: EvV,
}

impl<T: Aggregate> View for DomainEvent<T> {
    type V = DomainEventModel<<T::Id as View>::V, <T::Event as View>::V>;

    open spec fn view(&self) -> Self::V {
        DomainEventModel {
            id: self.id@,
            aggregate_id: self.aggregate_id@,
            created_at: self.created_at@,
            event: self.event@,
        }
    }
}

} // verus!
