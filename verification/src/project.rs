//! The project aggregate: its identity, its event, its transition rules,
//! and the codec between its events and stored rows.

use vstd::prelude::*;

use crate::domain::{
    hydrate_events, opt_view, spec_hydrate_from, views_of, Aggregate, DomainEvent,
    DomainEventId, DomainEventModel, Generation,
};
use crate::json::{append_escaped, chars_to_string, chars_valid, escape, matches_at,
    str_to_chars, unescape_exec, unescape_from};
use crate::models::{Event, EventModel};
use crate::time::{is_rfc3339, Timestamp};
use crate::uuid_text::{lemma_uuid_round_trip, lemma_uuid_str_shape, uuid_format, uuid_parse,
    uuid_str_of, uuid_value_of};

verus! {

/// The identity of a project: the 128-bit value of its UUID.
#[derive(Clone, Copy, Debug, PartialEq, Eq)]
pub struct ProjectId(u128);

impl View for ProjectId {
    type V = u128;

    closed spec fn view(&self) -> u128 {
        self.0
    }
}

#[derive(Clone, Copy, Debug, PartialEq, Eq)]
pub enum ProjectIdParseError {
    UuidParseError,
}

impl ProjectId {
    pub fn new(id: u128) -> (r: Self)
        ensures
            r@ == id,
    {
        ProjectId(id)
    }

    /// Accepts any identifier text form the parser knows.
    pub fn from_str(s: &str) -> (r: Result<ProjectId, ProjectIdParseError>)
        ensures
            match r {
                Ok(p) => uuid_value_of(s@) == Some(p@),
                Err(e) => uuid_value_of(s@) is None && e == ProjectIdParseError::UuidParseError,
            },
    {
        match uuid_parse(s) {
            Some(u) => Ok(ProjectId(u)),
            None => Err(ProjectIdParseError::UuidParseError),
        }
    }

    /// The hyphenated lower-case text under which rows are stored.
    pub fn to_string(&self) -> (r: String)
        ensures
            r@ == uuid_str_of(self@),
    {
        uuid_format(self.0)
    }

    pub fn value(self) -> (r: u128)
        ensures
            r == self@,
    {
        self.0
    }
}

/// Failure of a project transition or creation command.
#[derive(Debug, PartialEq, Eq)]
pub enum ProjectError {
    InvalidName { name: String },
    InvalidStateEvent,
}

/// A hydrated project: a transient value recomputed from the event log,
/// never the source of truth.
#[derive(Clone, Debug, PartialEq, Eq)]
pub struct Project {
    pub id: ProjectId,
    pub generation: Generation,
    pub name: String,
}

/// The model of a project.
pub ghost struct ProjectModel {
    pub id: u128,
    pub generation: int,
    pub name: Seq<char>,
}

impl View for Project {
    type V = ProjectModel;

    open spec fn view(&self) -> ProjectModel {
        ProjectModel { id: self.id@, generation: self.generation@, name: self.name@ }
    }
}

/// Everything that can happen to a project.
#[derive(Clone, Debug, PartialEq, Eq)]
pub enum ProjectEvent {
    Created { id: ProjectId, name: String },
}

/// The model of a project event.
pub ghost enum ProjectEventModel {
    Created { id: u128, name: Seq<char> },
}

impl View for ProjectEvent {
    type V = ProjectEventModel;

    open spec fn view(&self) -> ProjectEventModel {
        match self {
            ProjectEvent::Created { id, name } => ProjectEventModel::Created {
                id: id@,
                name: name@,
            },
        }
    }
}

/// The type discriminator under which an event's row is stored.
pub open spec fn spec_type_of(m: ProjectEventModel) -> Seq<char> {
    match m {
        ProjectEventModel::Created { .. } => "Created"@,
    }
}

impl ProjectEvent {
    pub fn type_(&self) -> (r: String)
        ensures
            r@ == spec_type_of(self@),
    {
        match self {
            ProjectEvent::Created { .. } => "Created".to_owned(),
        }
    }
}

impl Project {
    /// Derives the events of a creation command. Never rejects: every name
    /// is allowed.
    pub fn create(id: ProjectId, name: String) -> (r: Result<Vec<ProjectEvent>, ProjectError>)
        ensures
            r matches Ok(evs) && evs@.len() == 1 && evs@[0]@ == (ProjectEventModel::Created {
                id: id@,
                name: name@,
            }),
    {
        Ok(vec![ProjectEvent::Created { id, name }])
    }

    /// Replays the events in order from no state; see `hydrate_events`.
    pub fn hydrate(events: &[ProjectEvent]) -> (r: Result<Option<Project>, ProjectError>)
        ensures
            match r {
                Ok(s) => spec_hydrate_from::<Project>(None, views_of(events@)) == Ok::<
                    Option<ProjectModel>,
                    ProjectError,
                >(opt_view(s)),
                Err(e) => spec_hydrate_from::<Project>(None, views_of(events@)) == Err::<
                    Option<ProjectModel>,
                    ProjectError,
                >(e),
            },
    {
        hydrate_events::<Project>(events)
    }
}

/// What stands before the identifier in a stored payload.
pub open spec fn payload_prefix() -> Seq<char> {
    "{\"Created\":{\"id\":\""@
}

/// What stands between the identifier and the name.
pub open spec fn payload_mid() -> Seq<char> {
    "\",\"name\":\""@
}

/// The stored payload of an event: the canonical JSON text
/// `{"Created":{"id":"<uuid>","name":"<name>"}}`.
pub open spec fn spec_payload_of(m: ProjectEventModel) -> Seq<char> {
    match m {
        ProjectEventModel::Created { id, name } => payload_prefix() + uuid_str_of(id)
            + payload_mid() + escape(name) + "\"}}"@,
    }
}

/// The first `"` at or after position `i`.
pub open spec fn scan_quote(s: Seq<char>, i: int) -> Option<int>
    decreases s.len() - i,
{
    if i < 0 || i >= s.len() {
        None
    } else if s[i] == '"' {
        Some(i)
    } else {
        scan_quote(s, i + 1)
    }
}

/// The event a stored payload holds, if the text is well formed: the prefix,
/// an identifier up to the next quote, the name key, a JSON string body, and
/// the two closing braces, nothing more.
pub open spec fn spec_payload(s: Seq<char>) -> Option<ProjectEventModel> {
    let p = payload_prefix();
    let m = payload_mid();
    if s.len() < p.len() || s.subrange(0, p.len() as int) != p {
        None
    } else {
        match scan_quote(s, p.len() as int) {
            None => None,
            Some(j) => match uuid_value_of(s.subrange(p.len() as int, j)) {
                None => None,
                Some(u) => if j + m.len() > s.len() || s.subrange(j, j + m.len() as int) != m {
                    None
                } else {
                    match unescape_from(s, j + m.len()) {
                        None => None,
                        Some((name, end)) => if end + 2 == s.len() && s[end] == '}' && s[end + 1]
                            == '}' {
                            Some(ProjectEventModel::Created { id: u, name })
                        } else {
                            None
                        },
                    }
                },
            },
        }
    }
}

/// Serializes an event to its stored payload.
pub fn payload_encode(event: &ProjectEvent) -> (r: String)
    ensures
        r@ == spec_payload_of(event@),
{
    match event {
        ProjectEvent::Created { id, name } => {
            let mut out = String::new();
            out.append("{\"Created\":{\"id\":\"");
            let ids = id.to_string();
            out.append(ids.as_str());
            out.append("\",\"name\":\"");
            append_escaped(&mut out, name.as_str());
            out.append("\"}}");
            proof {
                assert(out@ =~= spec_payload_of(event@));
            }
            out
        },
    }
}

/// Parses a stored payload back into an event; fails on anything
/// `spec_payload` does not accept.
pub fn payload_decode(data: &str) -> (r: Option<ProjectEvent>)
    ensures
        match r {
            Some(ev) => spec_payload(data@) == Some(ev@),
            None => spec_payload(data@) is None,
        },
{
    let ghost s = data@;
    let chars = str_to_chars(data);
    let p = str_to_chars("{\"Created\":{\"id\":\"");
    let m = str_to_chars("\",\"name\":\"");
    proof {
        assert(p@ == payload_prefix());
        assert(m@ == payload_mid());
    }
    if !matches_at(&chars, 0, &p) {
        proof {
            if s.len() >= p@.len() {
                assert(s.subrange(0, p@.len() as int) != payload_prefix());
            }
        }
        return None;
    }
    let n = chars.len();
    let mut j: usize = p.len();
    while j < n && chars[j] != '"'
        invariant
            s == chars@,
            n == s.len(),
            p@.len() <= j <= n,
            scan_quote(s, p@.len() as int) == scan_quote(s, j as int),
        decreases n - j,
    {
        j = j + 1;
    }
    if j == n {
        return None;
    }
    let idstr = chars_to_string(chars.as_slice(), p.len(), j);
    let u = match uuid_parse(idstr.as_str()) {
        Some(u) => u,
        None => {
            return None;
        },
    };
    if !matches_at(&chars, j, &m) {
        return None;
    }
    let (name, end) = match unescape_exec(&chars, j + m.len()) {
        Some(pair) => pair,
        None => {
            return None;
        },
    };
    proof {
        crate::json::lemma_unescape_end(s, j + m@.len());
    }
    if n >= 2 && end == n - 2 && chars[end] == '}' && chars[end + 1] == '}' {
        Some(ProjectEvent::Created { id: ProjectId(u), name })
    } else {
        None
    }
}

/// The name a creation event carries.
pub open spec fn event_name(m: ProjectEventModel) -> Seq<char> {
    match m {
        ProjectEventModel::Created { name, .. } => name,
    }
}

/// The first quote at or after `i` is at `j` when nothing before it is one.
pub proof fn lemma_scan_quote_found(s: Seq<char>, i: int, j: int)
    requires
        0 <= i <= j < s.len(),
        s[j] == '"',
        forall|k: int| i <= k < j ==> s[k] != '"',
    ensures
        scan_quote(s, i) == Some(j),
    decreases j - i,
{
    if i < j {
        lemma_scan_quote_found(s, i + 1, j);
    }
}

/// Decoding the stored payload of an event yields that event back.
pub proof fn lemma_payload_round_trip(m: ProjectEventModel)
    requires
        chars_valid(event_name(m)),
    ensures
        spec_payload(spec_payload_of(m)) == Some(m),
{
    let id = match m {
        ProjectEventModel::Created { id, .. } => id,
    };
    let name = event_name(m);
    let p = payload_prefix();
    let mid = payload_mid();
    let u = uuid_str_of(id);
    let e = escape(name);
    let s = spec_payload_of(m);
    reveal_strlit("{\"Created\":{\"id\":\"");
    reveal_strlit("\",\"name\":\"");
    reveal_strlit("\"}}");
    assert(p.len() == 18);
    assert(mid.len() == 10);
    lemma_uuid_str_shape(id);
    lemma_uuid_round_trip(id);
    assert(s.len() == 18 + 36 + 10 + e.len() + 3);
    assert(s.subrange(0, 18) =~= p);
    let j: int = 54;
    assert(scan_quote(s, 18) == Some(j)) by {
        assert(s[j] == mid[0]);
        assert(s[j] == '"');
        assert(forall|k: int| 18 <= k < j ==> s[k] == u[k - 18]);
        assert(forall|k: int| 18 <= k < j ==> s[k] != '"');
        lemma_scan_quote_found(s, 18, j);
    }
    assert(s.subrange(18, j) =~= u);
    assert(uuid_value_of(s.subrange(18, j)) == Some(id));
    assert(s.subrange(j, j + 10) =~= mid);
    let b: int = j + 10;
    assert(s.subrange(b, b + e.len() as int) =~= e);
    assert(s[b + e.len() as int] == '"');
    crate::json::lemma_unescape_escape(s, b, name);
    let end: int = b + e.len() + 1;
    assert(unescape_from(s, b) == Some((name, end)));
    assert(s[end] == '}' && s[end + 1] == '}');
    assert(end + 2 == s.len());
}

/// Applying a `Created` event to an already-created state always fails with
/// the invalid-state-event error: replay never overwrites a project.
pub proof fn lemma_created_on_existing_rejected(state: ProjectModel, event: ProjectEventModel)
    ensures
        Project::spec_apply(Some(state), event) == Err::<ProjectModel, ProjectError>(
            ProjectError::InvalidStateEvent,
        ),
{
}

/// Failure to decode a stored row into a domain event.
#[derive(Clone, Copy, Debug, PartialEq, Eq)]
pub enum DomainEventError {
    UuidParseError,
    DateTimeParseError,
    JsonParseError,
}

/// The envelope a stored row decodes to: the row's identifiers parsed, its
/// timestamp checked, its payload parsed; the first malformed field fails
/// the row.
pub open spec fn spec_decode_row(row: EventModel) -> Result<
    DomainEventModel<u128, ProjectEventModel>,
    DomainEventError,
> {
    match uuid_value_of(row.id) {
        None => Err(DomainEventError::UuidParseError),
        Some(eid) => match uuid_value_of(row.aggregate_id) {
            None => Err(DomainEventError::UuidParseError),
            Some(aid) => if !is_rfc3339(row.created_at) {
                Err(DomainEventError::DateTimeParseError)
            } else {
                match spec_payload(row.data) {
                    None => Err(DomainEventError::JsonParseError),
                    Some(ev) => Ok(
                        DomainEventModel {
                            id: eid,
                            aggregate_id: aid,
                            created_at: row.created_at,
                            event: ev,
                        },
                    ),
                }
            },
        },
    }
}

impl DomainEvent<Project> {
    /// Decodes one stored row, exactly as `spec_decode_row` says.
    pub fn from_event(event: Event) -> (r: Result<Self, DomainEventError>)
        ensures
            match r {
                Ok(de) => spec_decode_row(event@) == Ok::<
                    DomainEventModel<u128, ProjectEventModel>,
                    DomainEventError,
                >(de@),
                Err(e) => spec_decode_row(event@) == Err::<
                    DomainEventModel<u128, ProjectEventModel>,
                    DomainEventError,
                >(e),
            },
    {
        let eid = match uuid_parse(event.id.as_str()) {
            Some(u) => u,
            None => {
                return Err(DomainEventError::UuidParseError);
            },
        };
        let aid = match uuid_parse(event.aggregate_id.as_str()) {
            Some(u) => u,
            None => {
                return Err(DomainEventError::UuidParseError);
            },
        };
        let created_at = match Timestamp::parse(event.created_at.as_str()) {
            Some(t) => t,
            None => {
                return Err(DomainEventError::DateTimeParseError);
            },
        };
        let ev = match payload_decode(event.data.as_str()) {
            Some(ev) => ev,
            None => {
                return Err(DomainEventError::JsonParseError);
            },
        };
        Ok(DomainEvent {
            id: DomainEventId::new(eid),
            aggregate_id: ProjectId(aid),
            created_at,
            event: ev,
        })
    }
}

impl Aggregate for Project {
    type Id = ProjectId;

    type Event = ProjectEvent;

    type Err = ProjectError;

    /// A `Created` event on no state creates the project at the first
    /// generation; every other pair is rejected.
    open spec fn spec_apply(state: Option<ProjectModel>, event: ProjectEventModel) -> Result<
        ProjectModel,
        ProjectError,
    > {
        match (state, event) {
            (None, ProjectEventModel::Created { id, name }) => Ok(ProjectModel {
                id,
                generation: 0,
                name,
            }),
            _ => Err(ProjectError::InvalidStateEvent),
        }
    }

    open spec fn spec_id(&self) -> u128 {
        self.id@
    }

    open spec fn spec_generation(&self) -> int {
        self.generation@
    }

    fn id(&self) -> (r: &ProjectId) {
        &self.id
    }

    fn generation(&self) -> (r: Generation) {
        self.generation
    }

    fn apply_event(state: Option<Project>, event: &ProjectEvent) -> (r: Result<
        Project,
        ProjectError,
    >) {
        match (&state, event) {
            (None, ProjectEvent::Created { id, name }) => Ok(Project {
                id: *id,
                generation: Generation::first(),
                name: name.clone(),
            }),
            _ => Err(ProjectError::InvalidStateEvent),
        }
    }
}

} // verus!
