//! The repository capability: loading an aggregate by replaying its stored
//! rows, and appending new events under the generation guard. The in-memory
//! store here is the verified implementation; it enforces uniqueness of
//! `(aggregate_id, generation)` and surfaces a conflict instead of writing a
//! duplicate.

use vstd::prelude::*;

use crate::domain::{
    lemma_hydrate_append, spec_hydrate_from, views_of, Aggregate, DomainEvent, DomainEventModel,
    Generation,
};
use crate::models::{Event, EventModel};
use crate::json::chars_valid;
use crate::project::{
    event_name, lemma_payload_round_trip, payload_encode, spec_decode_row, spec_payload_of,
    spec_type_of, DomainEventError, Project, ProjectError, ProjectEvent, ProjectEventModel,
    ProjectId, ProjectModel,
};
use crate::time::is_rfc3339;
use crate::uuid_text::{lemma_uuid_round_trip, uuid_str_of};

verus! {

/// The model of a project event's envelope.
pub type EnvelopeModel = DomainEventModel<u128, ProjectEventModel>;

/// Failure of a repository operation, one variant per kind: a row that does
/// not decode, a replay the transition function rejects, an id with no rows,
/// and a write that would reuse a `(aggregate_id, generation)` pair.
#[derive(Debug, PartialEq, Eq)]
pub enum RepositoryError {
    DomainEventError(DomainEventError),
    ProjectError(ProjectError),
    NotFoundError,
    ConflictError,
}

/// The row an envelope is stored under at one generation.
pub open spec fn spec_row_of(g: int, e: EnvelopeModel) -> EventModel {
    EventModel {
        id: uuid_str_of(e.id),
        aggregate_id: uuid_str_of(e.aggregate_id),
        generation: g,
        created_at: e.created_at,
        type_: spec_type_of(e.event),
        data: spec_payload_of(e.event),
    }
}

/// The rows of a batch: the `n`th event is stored at generation `g + n`.
pub open spec fn spec_rows_from(g: int, events: Seq<EnvelopeModel>) -> Seq<EventModel> {
    Seq::new(events.len(), |i: int| spec_row_of(g + i, events[i]))
}

/// Whether writing `new` beside `rows` would reuse a
/// `(aggregate_id, generation)` pair.
pub open spec fn spec_conflict(rows: Seq<EventModel>, new: Seq<EventModel>) -> bool {
    exists|i: int, j: int|
        0 <= i < rows.len() && 0 <= j < new.len() && (#[trigger] rows[i]).aggregate_id == (
        #[trigger] new[j]).aggregate_id && rows[i].generation == new[j].generation
}

/// The rows whose aggregate id text is `idstr`, in store order.
pub open spec fn spec_filter(rows: Seq<EventModel>, idstr: Seq<char>) -> Seq<EventModel>
    decreases rows.len(),
{
    if rows.len() == 0 {
        Seq::empty()
    } else {
        let front = spec_filter(rows.drop_last(), idstr);
        if rows.last().aggregate_id == idstr {
            front.push(rows.last())
        } else {
            front
        }
    }
}

/// `row` placed after every row of `s` whose generation is not greater.
pub open spec fn insert_sorted(row: EventModel, s: Seq<EventModel>) -> Seq<EventModel>
    decreases s.len(),
{
    if s.len() == 0 {
        seq![row]
    } else if s[0].generation <= row.generation {
        seq![s[0]] + insert_sorted(row, s.drop_first())
    } else {
        seq![row] + s
    }
}

/// The rows in ascending generation order; rows of one generation keep
/// their store order.
pub open spec fn sort_rows(s: Seq<EventModel>) -> Seq<EventModel>
    decreases s.len(),
{
    if s.len() == 0 {
        Seq::empty()
    } else {
        insert_sorted(s.last(), sort_rows(s.drop_last()))
    }
}

/// The payloads of the rows, decoded in order; the first malformed row
/// fails the whole read.
pub open spec fn spec_decode_events(rows: Seq<EventModel>) -> Result<
    Seq<ProjectEventModel>,
    DomainEventError,
>
    decreases rows.len(),
{
    if rows.len() == 0 {
        Ok(Seq::empty())
    } else {
        match spec_decode_row(rows[0]) {
            Err(e) => Err(e),
            Ok(de) => match spec_decode_events(rows.drop_first()) {
                Err(e) => Err(e),
                Ok(rest) => Ok(seq![de.event] + rest),
            },
        }
    }
}

/// What replaying ordered rows yields: decode each, fold the transition
/// function, and treat "no rows" as not found.
pub open spec fn spec_replay(rows: Seq<EventModel>) -> Result<ProjectModel, RepositoryError> {
    match spec_decode_events(rows) {
        Err(e) => Err(RepositoryError::DomainEventError(e)),
        Ok(evs) => match spec_hydrate_from::<Project>(None, evs) {
            Err(pe) => Err(RepositoryError::ProjectError(pe)),
            Ok(None) => Err(RepositoryError::NotFoundError),
            Ok(Some(pm)) => Ok(pm),
        },
    }
}

/// What `get` yields on a store: the rows for the id, in ascending
/// generation order, replayed.
pub open spec fn spec_get(rows: Seq<EventModel>, id: u128) -> Result<
    ProjectModel,
    RepositoryError,
> {
    spec_replay(sort_rows(spec_filter(rows, uuid_str_of(id))))
}

/// The repository capability over an aggregate: each implementation says in
/// `get_post` and `persist_post` what its store guarantees.
pub trait Repository: Sized {
    type Aggregate: Aggregate;

    type Err;

    /// What a call to `persist` asks of the caller, over the models of the
    /// counter and the envelopes.
    spec fn persist_pre(
        &self,
        generation: int,
        events: Seq<
            DomainEventModel<
                <<Self::Aggregate as Aggregate>::Id as View>::V,
                <<Self::Aggregate as Aggregate>::Event as View>::V,
            >,
        >,
    ) -> bool;

    /// What `persist` guarantees, relating the store before and after.
    spec fn persist_post(
        pre: Self,
        post: Self,
        generation: int,
        events: Seq<
            DomainEventModel<
                <<Self::Aggregate as Aggregate>::Id as View>::V,
                <<Self::Aggregate as Aggregate>::Event as View>::V,
            >,
        >,
        r: Result<(), Self::Err>,
    ) -> bool;

    /// What `get` guarantees.
    spec fn get_post(
        &self,
        id: <<Self::Aggregate as Aggregate>::Id as View>::V,
        r: Result<Self::Aggregate, Self::Err>,
    ) -> bool;

    /// Loads the aggregate with the given identity by replaying its rows.
    fn get(&self, id: <Self::Aggregate as Aggregate>::Id) -> (r: Result<
        Self::Aggregate,
        Self::Err,
    >)
        ensures
            self.get_post(id@, r),
    ;

    /// Appends one event batch, the first event at `generation`; all rows
    /// become visible together or not at all.
    fn persist(
        &mut self,
        generation: Generation,
        events: &[DomainEvent<Self::Aggregate>],
    ) -> (r: Result<(), Self::Err>)
        requires
            old(self).persist_pre(generation@, views_of(events@)),
        ensures
            Self::persist_post(*old(self), *final(self), generation@, views_of(events@), r),
    ;
}

/// The rows of a batch, the first at `generation`.
pub fn rows_from_events(generation: Generation, events: &[DomainEvent<Project>]) -> (r: Vec<
    Event,
>)
    requires
        generation@ + events@.len() <= i32::MAX,
    ensures
        views_of(r@) == spec_rows_from(generation@, views_of(events@)),
{
    let ghost evs = views_of(events@);
    let mut out: Vec<Event> = Vec::new();
    let mut g = generation;
    let mut i: usize = 0;
    while i < events.len()
        invariant
            i <= events@.len(),
            evs == views_of(events@),
            evs.len() == events@.len(),
            forall|k: int| 0 <= k < evs.len() ==> #[trigger] evs[k] == events@[k]@,
            g@ == generation@ + i,
            out@.len() == i,
            generation@ + events@.len() <= i32::MAX,
            views_of(out@) =~= spec_rows_from(generation@, evs.take(i as int)),
        decreases events@.len() - i,
    {
        let ghost out0 = out@;
        let ghost gpre = g@;
        let event = &events[i];
        let row = Event {
            id: event.id.to_string(),
            aggregate_id: event.aggregate_id.to_string(),
            generation: g.value(),
            created_at: event.created_at.as_str().to_owned(),
            type_: event.event.type_(),
            data: payload_encode(&event.event),
        };
        proof {
            assert(row@ == spec_row_of(gpre, evs[i as int]));
        }
        out.push(row);
        g = g.next();
        i = i + 1;
        proof {
            let t2 = evs.take(i as int);
            assert(out@.len() == i);
            assert forall|k: int| 0 <= k < i implies views_of(out@)[k] == #[trigger] spec_rows_from(
                generation@,
                t2,
            )[k] by {
                assert(views_of(out@)[k] == out@[k]@);
                assert(spec_rows_from(generation@, t2)[k] == spec_row_of(generation@ + k, t2[k]));
                assert(t2[k] == evs[k]);
                if k < i - 1 {
                    assert(out@[k] == out0[k]);
                    assert(views_of(out0)[k] == out0[k]@);
                    assert(views_of(out0)[k] == spec_rows_from(generation@, evs.take(i - 1))[k]);
                    assert(spec_rows_from(generation@, evs.take(i - 1))[k] == spec_row_of(
                        generation@ + k,
                        evs.take(i - 1)[k],
                    ));
                    assert(evs.take(i - 1)[k] == evs[k]);
                } else {
                    assert(out@[k]@ == spec_row_of(gpre, evs[k]));
                }
            }
            assert(views_of(out@) =~= spec_rows_from(generation@, t2));
        }
    }
    proof {
        assert(evs.take(events@.len() as int) =~= evs);
        assert(views_of(out@) =~= spec_rows_from(generation@, evs));
    }
    out
}

/// Whether some new row reuses the `(aggregate_id, generation)` pair of a
/// stored row.
fn has_conflict(rows: &Vec<Event>, new_rows: &Vec<Event>) -> (r: bool)
    ensures
        r == spec_conflict(views_of(rows@), views_of(new_rows@)),
{
    let mut i: usize = 0;
    while i < rows.len()
        invariant
            i <= rows@.len(),
            forall|a: int, b: int|
                #![trigger rows@[a], new_rows@[b]]
                0 <= a < i && 0 <= b < new_rows@.len() ==> !(rows@[a]@.aggregate_id
                    == new_rows@[b]@.aggregate_id && rows@[a]@.generation
                    == new_rows@[b]@.generation),
        decreases rows@.len() - i,
    {
        let mut j: usize = 0;
        while j < new_rows.len()
            invariant
                i < rows@.len(),
                j <= new_rows@.len(),
                forall|b: int|
                    #![trigger new_rows@[b]]
                    0 <= b < j ==> !(rows@[i as int]@.aggregate_id
                        == new_rows@[b]@.aggregate_id && rows@[i as int]@.generation
                        == new_rows@[b]@.generation),
            decreases new_rows@.len() - j,
        {
            if rows[i].aggregate_id == new_rows[j].aggregate_id && rows[i].generation
                == new_rows[j].generation {
                proof {
                    assert(views_of(rows@)[i as int] == rows@[i as int]@);
                    assert(views_of(new_rows@)[j as int] == new_rows@[j as int]@);
                }
                return true;
            }
            j = j + 1;
        }
        i = i + 1;
    }
    proof {
        assert forall|a: int, b: int|
            #![trigger views_of(rows@)[a], views_of(new_rows@)[b]]
            0 <= a < views_of(rows@).len() && 0 <= b < views_of(new_rows@).len() implies !(
        views_of(rows@)[a].aggregate_id == views_of(new_rows@)[b].aggregate_id
            && views_of(rows@)[a].generation == views_of(new_rows@)[b].generation) by {
            assert(views_of(rows@)[a] == rows@[a]@);
            assert(views_of(new_rows@)[b] == new_rows@[b]@);
        }
    }
    false
}

/// An event store held in memory: the verified repository implementation.
pub struct MemoryRepository {
    rows: Vec<Event>,
}

impl View for MemoryRepository {
    type V = Seq<EventModel>;

    closed spec fn view(&self) -> Seq<EventModel> {
        views_of(self.rows@)
    }
}

impl MemoryRepository {
    /// An empty store.
    pub fn new() -> (r: Self)
        ensures
            r@ == Seq::<EventModel>::empty(),
    {
        let r = MemoryRepository { rows: Vec::new() };
        proof {
            assert(r@ =~= Seq::<EventModel>::empty());
        }
        r
    }

    /// Writes one raw row, as the storage layer would on behalf of another
    /// writer; nothing is checked.
    pub fn insert_row(&mut self, row: Event)
        ensures
            final(self)@ == old(self)@.push(row@),
    {
        self.rows.push(row);
        proof {
            assert(self@ =~= old(self)@.push(row@));
        }
    }

    /// The stored rows, in insertion order.
    pub fn rows(&self) -> (r: &Vec<Event>)
        ensures
            views_of(r@) == self@,
    {
        &self.rows
    }
}

impl Repository for MemoryRepository {
    type Aggregate = Project;

    type Err = RepositoryError;

    /// The batch's generations must fit the row form.
    open spec fn persist_pre(&self, generation: int, events: Seq<EnvelopeModel>) -> bool {
        generation + events.len() <= i32::MAX
    }

    /// On success the encoded rows stand appended, generations
    /// `G, G+1, ...` in call order; a `(aggregate_id, generation)` reuse is
    /// refused as a conflict and the store is untouched. Nothing else can
    /// happen.
    open spec fn persist_post(
        pre: Self,
        post: Self,
        generation: int,
        events: Seq<EnvelopeModel>,
        r: Result<(), RepositoryError>,
    ) -> bool {
        let new = spec_rows_from(generation, events);
        match r {
            Ok(_) => !spec_conflict(pre@, new) && post@ == pre@ + new,
            Err(e) => e == RepositoryError::ConflictError && spec_conflict(pre@, new) && post@
                == pre@,
        }
    }

    /// The result is exactly what replaying the id's rows in ascending
    /// generation order yields.
    open spec fn get_post(&self, id: u128, r: Result<Project, RepositoryError>) -> bool {
        match r {
            Ok(p) => spec_get(self@, id) == Ok::<ProjectModel, RepositoryError>(p@),
            Err(e) => spec_get(self@, id) == Err::<ProjectModel, RepositoryError>(e),
        }
    }

    fn get(&self, id: ProjectId) -> (r: Result<Project, RepositoryError>) {
        let idstr = id.to_string();
        let mut matched: Vec<Event> = Vec::new();
        let mut i: usize = 0;
        while i < self.rows.len()
            invariant
                i <= self.rows@.len(),
                idstr@ == uuid_str_of(id@),
                views_of(matched@) =~= spec_filter(
                    views_of(self.rows@).take(i as int),
                    idstr@,
                ),
            decreases self.rows@.len() - i,
        {
            let ghost taken = views_of(self.rows@).take(i as int);
            if self.rows[i].aggregate_id == idstr {
                matched.push(self.rows[i].clone());
            }
            i = i + 1;
            proof {
                let taken2 = views_of(self.rows@).take(i as int);
                assert(taken2.drop_last() =~= taken);
                assert(taken2.last() == self.rows@[i - 1]@);
                assert(views_of(matched@) =~= spec_filter(taken2, idstr@));
            }
        }
        proof {
            assert(views_of(self.rows@).take(self.rows@.len() as int) =~= views_of(
                self.rows@,
            ));
        }
        project_from_rows(matched)
    }

    fn persist(&mut self, generation: Generation, events: &[DomainEvent<Project>]) -> (r: Result<
        (),
        RepositoryError,
    >) {
        let mut new_rows = rows_from_events(generation, events);
        if has_conflict(&self.rows, &new_rows) {
            return Err(RepositoryError::ConflictError);
        }
        proof {
            assert(views_of(self.rows@ + new_rows@) =~= views_of(self.rows@) + views_of(
                new_rows@,
            ));
        }
        self.rows.append(&mut new_rows);
        Ok(())
    }
}

/// Replays loaded rows into the project they yield: orders them by
/// generation, decodes each, folds the transition function, and treats "no
/// rows" as not found. The shared read path of every store.
pub fn project_from_rows(rows: Vec<Event>) -> (r: Result<Project, RepositoryError>)
    ensures
        match r {
            Ok(p) => spec_replay(sort_rows(views_of(rows@))) == Ok::<
                ProjectModel,
                RepositoryError,
            >(p@),
            Err(e) => spec_replay(sort_rows(views_of(rows@))) == Err::<
                ProjectModel,
                RepositoryError,
            >(e),
        },
{
    let sorted = sort_by_generation(rows);
    let ghost srows = views_of(sorted@);
    proof {
        assert(srows == sort_rows(views_of(rows@)));
    }
    let mut decoded: Vec<ProjectEvent> = Vec::new();
    let mut i: usize = 0;
    proof {
        assert(srows.take(0) =~= Seq::<EventModel>::empty());
        assert(views_of(decoded@) =~= Seq::<ProjectEventModel>::empty());
    }
    while i < sorted.len()
        invariant
            i <= sorted@.len(),
            srows == views_of(sorted@),
            srows == sort_rows(views_of(rows@)),
            srows.len() == sorted@.len(),
            forall|k: int| 0 <= k < srows.len() ==> #[trigger] srows[k] == sorted@[k]@,
            spec_decode_events(srows.take(i as int)) == Ok::<
                Seq<ProjectEventModel>,
                DomainEventError,
            >(views_of(decoded@)),
        decreases sorted@.len() - i,
    {
        let ghost prefix = srows.take(i as int);
        let ghost single = seq![srows[i as int]];
        proof {
            lemma_decode_append(prefix, single);
            assert(prefix + single =~= srows.take(i + 1));
        }
        match DomainEvent::<Project>::from_event(sorted[i].clone()) {
            Ok(de) => {
                proof {
                    assert(spec_decode_row(single[0]) == Ok::<EnvelopeModel, DomainEventError>(
                        de@,
                    ));
                    assert(single.drop_first() =~= Seq::<EventModel>::empty());
                    assert(spec_decode_events(single.drop_first()) == Ok::<
                        Seq<ProjectEventModel>,
                        DomainEventError,
                    >(Seq::empty()));
                    assert(seq![de@.event] + Seq::<ProjectEventModel>::empty() =~= seq![
                        de@.event,
                    ]);
                    assert(spec_decode_events(single) == Ok::<
                        Seq<ProjectEventModel>,
                        DomainEventError,
                    >(seq![de@.event]));
                }
                decoded.push(de.event);
                proof {
                    assert(views_of(decoded@) =~= spec_decode_events(
                        srows.take(i + 1),
                    )->Ok_0);
                }
            },
            Err(e) => {
                proof {
                    assert(single.drop_first() =~= Seq::<EventModel>::empty());
                    assert(spec_decode_row(single[0]) == Err::<EnvelopeModel, DomainEventError>(
                        e,
                    ));
                    assert(spec_decode_events(single) == Err::<
                        Seq<ProjectEventModel>,
                        DomainEventError,
                    >(e));
                    assert(srows.take(i + 1) + srows.skip(i + 1) =~= srows);
                    lemma_decode_append(srows.take(i + 1), srows.skip(i + 1));
                    assert(spec_decode_events(srows) == Err::<
                        Seq<ProjectEventModel>,
                        DomainEventError,
                    >(e));
                    assert(spec_replay(srows) == Err::<ProjectModel, RepositoryError>(
                        RepositoryError::DomainEventError(e),
                    ));
                    assert(spec_replay(sort_rows(views_of(rows@))) == Err::<
                        ProjectModel,
                        RepositoryError,
                    >(RepositoryError::DomainEventError(e)));
                }
                return Err(RepositoryError::DomainEventError(e));
            },
        }
        i = i + 1;
    }
    proof {
        assert(srows.take(sorted@.len() as int) =~= srows);
    }
    match Project::hydrate(decoded.as_slice()) {
        Ok(Some(p)) => Ok(p),
        Ok(None) => Err(RepositoryError::NotFoundError),
        Err(pe) => Err(RepositoryError::ProjectError(pe)),
    }
}

/// Decoding a concatenation decodes each part; an error in the first part
/// stands.
pub proof fn lemma_decode_append(a: Seq<EventModel>, b: Seq<EventModel>)
    ensures
        spec_decode_events(a + b) == (match spec_decode_events(a) {
            Err(e) => Err::<Seq<ProjectEventModel>, DomainEventError>(e),
            Ok(xs) => match spec_decode_events(b) {
                Err(e) => Err(e),
                Ok(ys) => Ok(xs + ys),
            },
        }),
    decreases a.len(),
{
    if a.len() == 0 {
        assert(a + b =~= b);
        match spec_decode_events(b) {
            Ok(ys) => {
                assert(Seq::<ProjectEventModel>::empty() + ys =~= ys);
            },
            Err(_) => {},
        }
    } else {
        assert((a + b)[0] == a[0]);
        match spec_decode_row(a[0]) {
            Err(_) => {},
            Ok(de) => {
                assert((a + b).drop_first() =~= a.drop_first() + b);
                lemma_decode_append(a.drop_first(), b);
                match spec_decode_events(a.drop_first()) {
                    Err(_) => {},
                    Ok(xs) => {
                        match spec_decode_events(b) {
                            Err(_) => {},
                            Ok(ys) => {
                                assert(seq![de.event] + (xs + ys) =~= (seq![de.event] + xs)
                                    + ys);
                            },
                        }
                    },
                }
            },
        }
    }
}

/// Places `row` after the stored rows whose generation is not greater.
fn insert_by_generation(out: &mut Vec<Event>, row: Event)
    ensures
        views_of(final(out)@) == insert_sorted(row@, views_of(old(out)@)),
{
    let n = out.len();
    let mut k: usize = 0;
    while k < n && out[k].generation <= row.generation
        invariant
            n == out@.len(),
            k <= n,
            out@ == old(out)@,
            forall|t: int| 0 <= t < k ==> (#[trigger] out@[t]@).generation <= row@.generation,
        decreases n - k,
    {
        k = k + 1;
    }
    proof {
        lemma_insert_sorted_at(row@, views_of(out@), k as int);
    }
    out.insert(k, row);
    proof {
        assert(views_of(final(out)@) =~= views_of(old(out)@).take(k as int) + seq![row@]
            + views_of(old(out)@).skip(k as int));
    }
}

/// Where `insert_sorted` puts the row: before the first stored row of a
/// greater generation.
proof fn lemma_insert_sorted_at(row: EventModel, s: Seq<EventModel>, k: int)
    requires
        0 <= k <= s.len(),
        forall|t: int| 0 <= t < k ==> (#[trigger] s[t]).generation <= row.generation,
        k < s.len() ==> s[k].generation > row.generation,
    ensures
        insert_sorted(row, s) == s.take(k) + seq![row] + s.skip(k),
    decreases k,
{
    if k == 0 {
        if s.len() == 0 {
            assert(insert_sorted(row, s) =~= s.take(0) + seq![row] + s.skip(0));
        } else {
            assert(insert_sorted(row, s) =~= s.take(0) + seq![row] + s.skip(0));
        }
    } else {
        assert(s[0].generation <= row.generation);
        let tail = s.drop_first();
        assert(forall|t: int| 0 <= t < k - 1 ==> (#[trigger] tail[t]).generation
            <= row.generation) by {
            assert(forall|t: int| 0 <= t < tail.len() ==> #[trigger] tail[t] == s[t + 1]);
        }
        assert(k - 1 < tail.len() ==> tail[k - 1].generation > row.generation);
        lemma_insert_sorted_at(row, tail, k - 1);
        assert(insert_sorted(row, s) == seq![s[0]] + (tail.take(k - 1) + seq![row] + tail.skip(
            k - 1,
        )));
        assert(seq![s[0]] + (tail.take(k - 1) + seq![row] + tail.skip(k - 1)) =~= s.take(k)
            + seq![row] + s.skip(k));
    }
}

/// Ascending generation order.
pub open spec fn sorted_by_generation(s: Seq<EventModel>) -> bool {
    forall|i: int, j: int|
        0 <= i <= j < s.len() ==> (#[trigger] s[i]).generation <= (#[trigger] s[j]).generation
}

/// The payloads the envelopes carry, in order.
pub open spec fn payloads_of(events: Seq<EnvelopeModel>) -> Seq<ProjectEventModel> {
    events.map_values(|e: EnvelopeModel| e.event)
}

/// A batch of `n` events is stored under generations `G, G+1, ..., G+n-1`,
/// in call order.
pub proof fn lemma_batch_generations(g: int, events: Seq<EnvelopeModel>)
    ensures
        spec_rows_from(g, events).len() == events.len(),
        forall|i: int|
            0 <= i < events.len() ==> (#[trigger] spec_rows_from(g, events)[i]).generation == g
                + i,
{
}

/// What inserting one row does: one row more, the same rows as a multiset,
/// every row either the inserted one or one that was there, and order kept.
proof fn lemma_insert_sorted_props(row: EventModel, s: Seq<EventModel>)
    ensures
        insert_sorted(row, s).len() == s.len() + 1,
        insert_sorted(row, s).to_multiset() == s.to_multiset().insert(row),
        forall|k: int|
            0 <= k < insert_sorted(row, s).len() ==> (#[trigger] insert_sorted(row, s)[k]) == row
                || s.contains(insert_sorted(row, s)[k]),
        sorted_by_generation(s) ==> sorted_by_generation(insert_sorted(row, s)),
    decreases s.len(),
{
    broadcast use vstd::seq_lib::group_to_multiset_ensures;
    broadcast use vstd::seq_lib::lemma_multiset_commutative;
    broadcast use vstd::multiset::group_multiset_axioms;

    let out = insert_sorted(row, s);
    if s.len() == 0 {
        assert(seq![row] =~= Seq::<EventModel>::empty().push(row));
        assert(out.to_multiset() =~= s.to_multiset().insert(row));
    } else if s[0].generation <= row.generation {
        let tail = s.drop_first();
        lemma_insert_sorted_props(row, tail);
        let t = insert_sorted(row, tail);
        assert(out == seq![s[0]] + t);
        assert(s =~= seq![s[0]] + tail);
        assert(out.to_multiset() =~= s.to_multiset().insert(row)) by {
            assert((seq![s[0]] + t).to_multiset() =~= seq![s[0]].to_multiset().add(
                t.to_multiset(),
            ));
            assert((seq![s[0]] + tail).to_multiset() =~= seq![s[0]].to_multiset().add(
                tail.to_multiset(),
            ));
        }
        assert forall|k: int| 0 <= k < out.len() implies (#[trigger] out[k]) == row
            || s.contains(out[k]) by {
            if k == 0 {
                assert(out[0] == s[0]);
            } else {
                assert(out[k] == t[k - 1]);
                if t[k - 1] == row {
                } else {
                    assert(tail.contains(t[k - 1]));
                    let i = choose|i: int| 0 <= i < tail.len() && tail[i] == t[k - 1];
                    assert(s[i + 1] == t[k - 1]);
                }
            }
        }
        if sorted_by_generation(s) {
            assert(sorted_by_generation(tail)) by {
                assert(forall|k: int|
                    0 <= k < tail.len() ==> #[trigger] tail[k] == s[k + 1]);
            }
            assert forall|i: int, j: int| 0 <= i <= j < out.len() implies (
            #[trigger] out[i]).generation <= (#[trigger] out[j]).generation by {
                if 0 < j {
                    assert(out[j] == t[j - 1]);
                    if t[j - 1] == row || tail.contains(t[j - 1]) {
                        if t[j - 1] == row {
                            assert(s[0].generation <= out[j].generation);
                        } else {
                            let k = choose|k: int|
                                0 <= k < tail.len() && tail[k] == t[j - 1];
                            assert(tail[k] == s[k + 1]);
                            assert(s[0].generation <= out[j].generation);
                        }
                    }
                }
                if 0 < i {
                    assert(out[i] == t[i - 1] && out[j] == t[j - 1]);
                }
            }
        }
    } else {
        assert(out == seq![row] + s);
        assert(out.to_multiset() =~= s.to_multiset().insert(row)) by {
            assert((seq![row] + s).to_multiset() =~= seq![row].to_multiset().add(
                s.to_multiset(),
            ));
            assert(seq![row] =~= Seq::<EventModel>::empty().push(row));
        }
        if sorted_by_generation(s) {
            assert forall|i: int, j: int| 0 <= i <= j < out.len() implies (
            #[trigger] out[i]).generation <= (#[trigger] out[j]).generation by {
                if 0 < i {
                    assert(out[i] == s[i - 1] && out[j] == s[j - 1]);
                } else if 0 < j {
                    assert(out[j] == s[j - 1]);
                    assert(row.generation < s[0].generation);
                    assert(s[0].generation <= s[j - 1].generation);
                }
            }
        }
    }
}

/// The read order is ascending generation order, and no row appears or
/// vanishes: the sort yields an ordered permutation of the loaded rows.
pub proof fn lemma_sort_rows_ordered(s: Seq<EventModel>)
    ensures
        sorted_by_generation(sort_rows(s)),
        sort_rows(s).to_multiset() == s.to_multiset(),
        sort_rows(s).len() == s.len(),
    decreases s.len(),
{
    broadcast use vstd::seq_lib::group_to_multiset_ensures;

    if s.len() > 0 {
        let front = s.drop_last();
        lemma_sort_rows_ordered(front);
        lemma_insert_sorted_props(s.last(), sort_rows(front));
        assert(s =~= front.push(s.last()));
        assert(s.to_multiset() =~= front.to_multiset().insert(s.last()));
    }
}

/// When the new row's generation is not below any stored one, it lands at
/// the end.
proof fn lemma_insert_sorted_at_end(row: EventModel, s: Seq<EventModel>)
    requires
        forall|k: int| 0 <= k < s.len() ==> (#[trigger] s[k]).generation <= row.generation,
    ensures
        insert_sorted(row, s) == s.push(row),
    decreases s.len(),
{
    if s.len() == 0 {
        assert(insert_sorted(row, s) =~= s.push(row));
    } else {
        let tail = s.drop_first();
        assert(forall|k: int| 0 <= k < tail.len() ==> #[trigger] tail[k] == s[k + 1]);
        lemma_insert_sorted_at_end(row, tail);
        assert(insert_sorted(row, s) =~= s.push(row));
    }
}

/// Sorting a store where every appended row's generation is at least every
/// older row's keeps the appended rows at the end, in their given order.
proof fn lemma_sort_split(a: Seq<EventModel>, b: Seq<EventModel>)
    requires
        sorted_by_generation(b),
        forall|i: int, j: int|
            0 <= i < a.len() && 0 <= j < b.len() ==> (#[trigger] a[i]).generation <= (
            #[trigger] b[j]).generation,
    ensures
        sort_rows(a + b) == sort_rows(a) + b,
    decreases b.len(),
{
    broadcast use vstd::seq_lib::group_to_multiset_ensures;

    if b.len() == 0 {
        assert(a + b =~= a);
        assert(sort_rows(a) + b =~= sort_rows(a));
    } else {
        let front = b.drop_last();
        let x = b.last();
        assert(sorted_by_generation(front)) by {
            assert(forall|k: int| 0 <= k < front.len() ==> #[trigger] front[k] == b[k]);
        }
        lemma_sort_split(a, front);
        assert((a + b).drop_last() =~= a + front);
        assert((a + b).last() == x);
        assert(sort_rows(a + b) == insert_sorted(x, sort_rows(a) + front));
        lemma_sort_rows_ordered(a);
        assert forall|k: int| 0 <= k < (sort_rows(a) + front).len() implies (#[trigger] (
        sort_rows(a) + front)[k]).generation <= x.generation by {
            if k < sort_rows(a).len() {
                let y = sort_rows(a)[k];
                assert(sort_rows(a).contains(y));
                assert(sort_rows(a).to_multiset().count(y) > 0);
                assert(a.to_multiset().count(y) > 0);
                assert(a.contains(y));
                let i = choose|i: int| 0 <= i < a.len() && a[i] == y;
                assert(a[i].generation <= x.generation);
            } else {
                assert((sort_rows(a) + front)[k] == b[k - sort_rows(a).len()]);
            }
        }
        lemma_insert_sorted_at_end(x, sort_rows(a) + front);
        assert((sort_rows(a) + front).push(x) =~= sort_rows(a) + b);
    }
}

/// Filtering a store with appended rows filters each part.
proof fn lemma_filter_append(a: Seq<EventModel>, b: Seq<EventModel>, idstr: Seq<char>)
    ensures
        spec_filter(a + b, idstr) == spec_filter(a, idstr) + spec_filter(b, idstr),
    decreases b.len(),
{
    if b.len() == 0 {
        assert(a + b =~= a);
        assert(spec_filter(a, idstr) + spec_filter(b, idstr) =~= spec_filter(a, idstr));
    } else {
        lemma_filter_append(a, b.drop_last(), idstr);
        assert((a + b).drop_last() =~= a + b.drop_last());
        assert((a + b).last() == b.last());
        if b.last().aggregate_id == idstr {
            assert(spec_filter(a, idstr) + spec_filter(b.drop_last(), idstr).push(b.last())
                =~= (spec_filter(a, idstr) + spec_filter(b.drop_last(), idstr)).push(
                b.last(),
            ));
        }
    }
}

/// Rows that all carry the id pass the filter unchanged.
proof fn lemma_filter_all_match(b: Seq<EventModel>, idstr: Seq<char>)
    requires
        forall|i: int| 0 <= i < b.len() ==> (#[trigger] b[i]).aggregate_id == idstr,
    ensures
        spec_filter(b, idstr) == b,
    decreases b.len(),
{
    if b.len() > 0 {
        let front = b.drop_last();
        assert(forall|k: int| 0 <= k < front.len() ==> #[trigger] front[k] == b[k]);
        lemma_filter_all_match(front, idstr);
        assert(spec_filter(b, idstr) =~= b);
    }
}

/// Every filtered row is one of the store's rows for that id.
proof fn lemma_filter_members(rows: Seq<EventModel>, idstr: Seq<char>)
    ensures
        forall|k: int|
            0 <= k < spec_filter(rows, idstr).len() ==> rows.contains(
                #[trigger] spec_filter(rows, idstr)[k],
            ) && spec_filter(rows, idstr)[k].aggregate_id == idstr,
    decreases rows.len(),
{
    if rows.len() > 0 {
        let front = rows.drop_last();
        lemma_filter_members(front, idstr);
        assert forall|k: int| 0 <= k < spec_filter(rows, idstr).len() implies rows.contains(
            #[trigger] spec_filter(rows, idstr)[k],
        ) && spec_filter(rows, idstr)[k].aggregate_id == idstr by {
            let f = spec_filter(rows, idstr);
            if k < spec_filter(front, idstr).len() {
                assert(f[k] == spec_filter(front, idstr)[k]);
                assert(front.contains(f[k]));
                let i = choose|i: int| 0 <= i < front.len() && front[i] == f[k];
                assert(rows[i] == f[k]);
            } else {
                assert(f[k] == rows.last());
                assert(rows[rows.len() - 1] == f[k]);
            }
        }
    }
}

/// Decoding the stored rows of an event batch yields the batch's payloads:
/// each row of a well-formed envelope decodes back to it.
pub proof fn lemma_decode_encoded(g: int, events: Seq<EnvelopeModel>)
    requires
        forall|i: int|
            0 <= i < events.len() ==> chars_valid(
                event_name((#[trigger] events[i]).event),
            ),
        forall|i: int| 0 <= i < events.len() ==> is_rfc3339((#[trigger] events[i]).created_at),
    ensures
        spec_decode_events(spec_rows_from(g, events)) == Ok::<
            Seq<ProjectEventModel>,
            DomainEventError,
        >(payloads_of(events)),
    decreases events.len(),
{
    let rows = spec_rows_from(g, events);
    if events.len() == 0 {
        assert(rows =~= Seq::<EventModel>::empty());
        assert(payloads_of(events) =~= Seq::<ProjectEventModel>::empty());
    } else {
        let e = events[0];
        assert(rows[0] == spec_row_of(g, e));
        lemma_uuid_round_trip(e.id);
        lemma_uuid_round_trip(e.aggregate_id);
        lemma_payload_round_trip(e.event);
        assert(spec_decode_row(rows[0]) == Ok::<EnvelopeModel, DomainEventError>(e));
        let tail = events.drop_first();
        assert(forall|k: int| 0 <= k < tail.len() ==> #[trigger] tail[k] == events[k + 1]);
        lemma_decode_encoded(g + 1, tail);
        assert(rows.drop_first() =~= spec_rows_from(g + 1, tail));
        assert(spec_decode_events(rows) == Ok::<Seq<ProjectEventModel>, DomainEventError>(
            seq![e.event] + payloads_of(tail),
        ));
        assert(seq![e.event] + payloads_of(tail) =~= payloads_of(events));
    }
}

/// After persisting a batch for an aggregate whose stored rows all lie below
/// the starting generation, `get` returns exactly the replay of the prior
/// events followed by the batch's events: the round trip through the store
/// loses and reorders nothing.
pub proof fn lemma_get_after_persist(
    rows: Seq<EventModel>,
    g: int,
    events: Seq<EnvelopeModel>,
    id: u128,
)
    requires
        forall|i: int| 0 <= i < events.len() ==> (#[trigger] events[i]).aggregate_id == id,
        forall|i: int|
            0 <= i < events.len() ==> chars_valid(
                event_name((#[trigger] events[i]).event),
            ),
        forall|i: int| 0 <= i < events.len() ==> is_rfc3339((#[trigger] events[i]).created_at),
        forall|i: int|
            0 <= i < rows.len() && (#[trigger] rows[i]).aggregate_id == uuid_str_of(id)
                ==> rows[i].generation < g,
    ensures
        spec_get(rows + spec_rows_from(g, events), id) == (match spec_decode_events(
            sort_rows(spec_filter(rows, uuid_str_of(id))),
        ) {
            Err(e) => Err::<ProjectModel, RepositoryError>(
                RepositoryError::DomainEventError(e),
            ),
            Ok(prior) => match spec_hydrate_from::<Project>(None, prior + payloads_of(events)) {
                Err(pe) => Err(RepositoryError::ProjectError(pe)),
                Ok(None) => Err(RepositoryError::NotFoundError),
                Ok(Some(pm)) => Ok(pm),
            },
        }),
        // Replaying the combined log is the batch's events folded on top of
        // the state the prior events reach.
        (match spec_decode_events(sort_rows(spec_filter(rows, uuid_str_of(id)))) {
            Ok(prior) => spec_hydrate_from::<Project>(None, prior + payloads_of(events)) == (
            match spec_hydrate_from::<Project>(None, prior) {
                Ok(state) => spec_hydrate_from::<Project>(state, payloads_of(events)),
                Err(pe) => Err(pe),
            }),
            Err(_) => true,
        }),
{
    let idstr = uuid_str_of(id);
    let new = spec_rows_from(g, events);
    assert(forall|j: int|
        0 <= j < new.len() ==> (#[trigger] new[j]).aggregate_id == idstr && new[j].generation
            == g + j) by {
        assert(forall|j: int|
            0 <= j < new.len() ==> #[trigger] new[j] == spec_row_of(g + j, events[j]));
    }
    lemma_filter_append(rows, new, idstr);
    lemma_filter_all_match(new, idstr);
    let fa = spec_filter(rows, idstr);
    lemma_filter_members(rows, idstr);
    assert(sorted_by_generation(new));
    assert forall|i: int, j: int|
        0 <= i < fa.len() && 0 <= j < new.len() implies (#[trigger] fa[i]).generation <= (
    #[trigger] new[j]).generation by {
        assert(rows.contains(fa[i]) && fa[i].aggregate_id == idstr);
        let k = choose|k: int| 0 <= k < rows.len() && rows[k] == fa[i];
        assert(rows[k].generation < g);
    }
    lemma_sort_split(fa, new);
    assert(spec_filter(rows + new, idstr) == fa + new);
    assert(sort_rows(fa + new) == sort_rows(fa) + new);
    lemma_decode_append(sort_rows(fa), new);
    lemma_decode_encoded(g, events);
    match spec_decode_events(sort_rows(fa)) {
        Ok(prior) => {
            lemma_hydrate_append::<Project>(None, prior, payloads_of(events));
        },
        Err(_) => {},
    }
}

/// Two writers that both start from the same generation for the same
/// aggregate cannot both succeed: once the first batch stands in the store,
/// the second batch reuses its `(aggregate_id, generation)` pair, which the
/// store refuses as a conflict.
pub proof fn lemma_second_writer_conflicts(
    rows: Seq<EventModel>,
    g: int,
    first: Seq<EnvelopeModel>,
    second: Seq<EnvelopeModel>,
)
    requires
        first.len() > 0,
        second.len() > 0,
        first[0].aggregate_id == second[0].aggregate_id,
    ensures
        spec_conflict(rows + spec_rows_from(g, first), spec_rows_from(g, second)),
{
    let stored = rows + spec_rows_from(g, first);
    let i = rows.len() as int;
    assert(stored[i] == spec_rows_from(g, first)[0]);
    assert(stored[i] == spec_row_of(g, first[0]));
    assert(spec_rows_from(g, second)[0] == spec_row_of(g, second[0]));
    assert(stored[i].aggregate_id == spec_rows_from(g, second)[0].aggregate_id);
    assert(stored[i].generation == spec_rows_from(g, second)[0].generation);
}

/// The rows in ascending generation order, rows of one generation in their
/// given order.
pub fn sort_by_generation(rows: Vec<Event>) -> (r: Vec<Event>)
    ensures
        views_of(r@) == sort_rows(views_of(rows@)),
{
    let mut out: Vec<Event> = Vec::new();
    let mut i: usize = 0;
    proof {
        assert(views_of(out@) =~= sort_rows(views_of(rows@).take(0)));
    }
    while i < rows.len()
        invariant
            i <= rows@.len(),
            views_of(out@) == sort_rows(views_of(rows@).take(i as int)),
        decreases rows@.len() - i,
    {
        let ghost taken = views_of(rows@).take(i as int);
        insert_by_generation(&mut out, rows[i].clone());
        i = i + 1;
        proof {
            let taken2 = views_of(rows@).take(i as int);
            assert(taken2.drop_last() =~= taken);
            assert(taken2.last() == rows@[i - 1]@);
        }
    }
    proof {
        assert(views_of(rows@).take(rows@.len() as int) =~= views_of(rows@));
    }
    out
}

} // verus!
