use feature_toggler::domain::{DomainEvent, DomainEventId, Generation};
use feature_toggler::handler::{
    CreateProject, CreateProjectHandler, ListProject, ListProjectHandler,
};
use feature_toggler::models::{Event, NewEvent};
use feature_toggler::project::{DomainEventError, Project, ProjectEvent, ProjectId, ProjectError};
use feature_toggler::repository::{MemoryRepository, Repository, RepositoryError};
use feature_toggler::time::Timestamp;

fn project_id(s: &str) -> ProjectId {
    ProjectId::from_str(s).unwrap()
}

fn event_id(s: &str) -> DomainEventId {
    DomainEventId::new(ProjectId::from_str(s).unwrap().value())
}

#[test]
fn project_test_get() {
    let mut repository = MemoryRepository::new();
    let event = NewEvent {
        id: "550e8400-e29b-41d4-a716-446655440000",
        aggregate_id: "936da01f-9abd-4d9d-80c7-02af85c822a8",
        generation: 0,
        created_at: "2019-01-01T12:34:56+00:00",
        type_: "Created",
        data: "{\"Created\":{\"id\":\"936da01f-9abd-4d9d-80c7-02af85c822a8\",\"name\":\"test\"}}",
    };
    repository.insert_row(event.to_event());

    let id = project_id("936da01f-9abd-4d9d-80c7-02af85c822a8");
    let project = repository.get(id).unwrap();

    assert_eq!(
        project,
        Project {
            id,
            generation: Generation::first(),
            name: "test".to_owned(),
        },
    );
}

#[test]
fn mod_test_get() {
    let mut repository = MemoryRepository::new();
    let event = NewEvent {
        id: "550e8400-e29b-41d4-a716-446655440000",
        aggregate_id: "936da01f-9abd-4d9d-80c7-02af85c822a8",
        generation: 0,
        created_at: "2019-01-01T12:34:56+00:00",
        type_: "Created",
        data: "{\"Created\":{\"id\":\"936da01f-9abd-4d9d-80c7-02af85c822a8\",\"name\":\"test\"}}",
    };
    repository.insert_row(event.to_event());

    let id = project_id("936da01f-9abd-4d9d-80c7-02af85c822a8");
    let project = repository.get(id).unwrap();

    assert_eq!(
        project,
        Project {
            id,
            generation: Generation::first(),
            name: "test".to_owned(),
        },
    );
}

#[test]
fn project_test_persist() {
    let mut repository = MemoryRepository::new();
    let id = project_id("936da01f-9abd-4d9d-80c7-02af85c822a8");
    let eid = event_id("550e8400-e29b-41d4-a716-446655440000");

    repository
        .persist(
            Generation::first(),
            &[DomainEvent {
                id: eid,
                aggregate_id: id,
                created_at: Timestamp::parse("2019-01-01T00:00:00+00:00").unwrap(),
                event: ProjectEvent::Created {
                    id,
                    name: "test".into(),
                },
            }],
        )
        .unwrap();

    let results: Vec<Event> = repository
        .rows()
        .iter()
        .filter(|e| e.id == "550e8400-e29b-41d4-a716-446655440000")
        .cloned()
        .collect();
    assert_eq!(results, vec![Event {
        id: "550e8400-e29b-41d4-a716-446655440000".to_owned(),
        aggregate_id: "936da01f-9abd-4d9d-80c7-02af85c822a8".to_owned(),
        generation: 0,
        created_at: "2019-01-01T00:00:00+00:00".to_owned(),
        type_: "Created".to_owned(),
        data: "{\"Created\":{\"id\":\"936da01f-9abd-4d9d-80c7-02af85c822a8\",\"name\":\"test\"}}".to_owned(),
    }]);
}

#[test]
fn mod_test_persist() {
    let mut repository = MemoryRepository::new();
    let id = project_id("936da01f-9abd-4d9d-80c7-02af85c822a8");
    let eid = event_id("550e8400-e29b-41d4-a716-446655440000");

    repository
        .persist(
            Generation::first(),
            &[DomainEvent {
                id: eid,
                aggregate_id: id,
                created_at: Timestamp::parse("2019-01-01T00:00:00+00:00").unwrap(),
                event: ProjectEvent::Created {
                    id,
                    name: "test".into(),
                },
            }],
        )
        .unwrap();

    let results: Vec<Event> = repository
        .rows()
        .iter()
        .filter(|e| e.id == "550e8400-e29b-41d4-a716-446655440000")
        .cloned()
        .collect();
    assert_eq!(results, vec![Event {
        id: "550e8400-e29b-41d4-a716-446655440000".to_owned(),
        aggregate_id: "936da01f-9abd-4d9d-80c7-02af85c822a8".to_owned(),
        generation: 0,
        created_at: "2019-01-01T00:00:00+00:00".to_owned(),
        type_: "Created".to_owned(),
        data: "{\"Created\":{\"id\":\"936da01f-9abd-4d9d-80c7-02af85c822a8\",\"name\":\"test\"}}".to_owned(),
    }]);
}

#[test]
fn create_project_scenario() {
    let mut handler = CreateProjectHandler {
        repository: MemoryRepository::new(),
    };
    let command = CreateProject {
        id: project_id("936da01f-9abd-4d9d-80c7-02af85c822a8").value(),
        name: "test".to_owned(),
    };
    let project = handler
        .handle(
            command,
            event_id("550e8400-e29b-41d4-a716-446655440000"),
            Timestamp::parse("2019-01-01T12:34:56+00:00").unwrap(),
        )
        .unwrap();

    let id = project_id("936da01f-9abd-4d9d-80c7-02af85c822a8");
    assert_eq!(
        project,
        Project {
            id,
            generation: Generation::first(),
            name: "test".to_owned(),
        }
    );

    let rows = handler.repository.rows();
    assert_eq!(rows.len(), 1);
    assert_eq!(rows[0].generation, 0);
    assert_eq!(rows[0].type_, "Created");
    assert_eq!(rows[0].aggregate_id, "936da01f-9abd-4d9d-80c7-02af85c822a8");
    assert_eq!(rows[0].created_at, "2019-01-01T12:34:56+00:00");
    assert_eq!(
        rows[0].data,
        "{\"Created\":{\"id\":\"936da01f-9abd-4d9d-80c7-02af85c822a8\",\"name\":\"test\"}}"
    );

    let lister = ListProjectHandler {
        repository: handler.repository,
    };
    let loaded = lister.handle(ListProject { id }).unwrap();
    assert_eq!(
        loaded,
        Project {
            id,
            generation: Generation::first(),
            name: "test".to_owned(),
        }
    );
}

#[test]
fn get_of_unknown_id_is_not_found() {
    let repository = MemoryRepository::new();
    let id = project_id("936da01f-9abd-4d9d-80c7-02af85c822a8");
    assert_eq!(repository.get(id), Err(RepositoryError::NotFoundError));
}

#[test]
fn unparsable_data_fails_the_read() {
    let mut repository = MemoryRepository::new();
    repository.insert_row(
        NewEvent {
            id: "550e8400-e29b-41d4-a716-446655440000",
            aggregate_id: "936da01f-9abd-4d9d-80c7-02af85c822a8",
            generation: 0,
            created_at: "2019-01-01T12:34:56+00:00",
            type_: "Created",
            data: "not json at all",
        }
        .to_event(),
    );
    let id = project_id("936da01f-9abd-4d9d-80c7-02af85c822a8");
    assert_eq!(
        repository.get(id),
        Err(RepositoryError::DomainEventError(
            DomainEventError::JsonParseError
        ))
    );
}

#[test]
fn unparsable_timestamp_fails_the_read() {
    let mut repository = MemoryRepository::new();
    repository.insert_row(
        NewEvent {
            id: "550e8400-e29b-41d4-a716-446655440000",
            aggregate_id: "936da01f-9abd-4d9d-80c7-02af85c822a8",
            generation: 0,
            created_at: "yesterday",
            type_: "Created",
            data: "{\"Created\":{\"id\":\"936da01f-9abd-4d9d-80c7-02af85c822a8\",\"name\":\"test\"}}",
        }
        .to_event(),
    );
    let id = project_id("936da01f-9abd-4d9d-80c7-02af85c822a8");
    assert_eq!(
        repository.get(id),
        Err(RepositoryError::DomainEventError(
            DomainEventError::DateTimeParseError
        ))
    );
}

#[test]
fn unparsable_event_id_fails_the_read() {
    let mut repository = MemoryRepository::new();
    repository.insert_row(
        NewEvent {
            id: "not-an-id",
            aggregate_id: "936da01f-9abd-4d9d-80c7-02af85c822a8",
            generation: 0,
            created_at: "2019-01-01T12:34:56+00:00",
            type_: "Created",
            data: "{\"Created\":{\"id\":\"936da01f-9abd-4d9d-80c7-02af85c822a8\",\"name\":\"test\"}}",
        }
        .to_event(),
    );
    let id = project_id("936da01f-9abd-4d9d-80c7-02af85c822a8");
    assert_eq!(
        repository.get(id),
        Err(RepositoryError::DomainEventError(
            DomainEventError::UuidParseError
        ))
    );
}

#[test]
fn concurrent_writers_conflict() {
    let mut repository = MemoryRepository::new();
    let id = project_id("936da01f-9abd-4d9d-80c7-02af85c822a8");
    let make = |eid: &str, name: &str| DomainEvent {
        id: event_id(eid),
        aggregate_id: id,
        created_at: Timestamp::parse("2019-01-01T00:00:00+00:00").unwrap(),
        event: ProjectEvent::Created {
            id,
            name: name.into(),
        },
    };

    repository
        .persist(
            Generation::first(),
            &[make("550e8400-e29b-41d4-a716-446655440000", "first")],
        )
        .unwrap();
    let second = repository.persist(
        Generation::first(),
        &[make("650e8400-e29b-41d4-a716-446655440000", "second")],
    );
    assert_eq!(second, Err(RepositoryError::ConflictError));
    assert_eq!(repository.rows().len(), 1);

    let loaded = repository.get(id).unwrap();
    assert_eq!(loaded.name, "first");
}

#[test]
fn persist_assigns_consecutive_generations() {
    let mut repository = MemoryRepository::new();
    let a = project_id("936da01f-9abd-4d9d-80c7-02af85c822a8");
    let b = project_id("a36da01f-9abd-4d9d-80c7-02af85c822a8");
    let events = [
        DomainEvent {
            id: event_id("550e8400-e29b-41d4-a716-446655440000"),
            aggregate_id: a,
            created_at: Timestamp::parse("2019-01-01T00:00:00+00:00").unwrap(),
            event: ProjectEvent::Created {
                id: a,
                name: "one".into(),
            },
        },
        DomainEvent {
            id: event_id("650e8400-e29b-41d4-a716-446655440000"),
            aggregate_id: b,
            created_at: Timestamp::parse("2019-01-01T00:00:01+00:00").unwrap(),
            event: ProjectEvent::Created {
                id: b,
                name: "two".into(),
            },
        },
    ];
    repository.persist(Generation::first().next(), &events).unwrap();
    let rows = repository.rows();
    assert_eq!(rows.len(), 2);
    assert_eq!(rows[0].generation, 1);
    assert_eq!(rows[1].generation, 2);
}

#[test]
fn round_trip_of_an_awkward_name() {
    let mut repository = MemoryRepository::new();
    let id = project_id("936da01f-9abd-4d9d-80c7-02af85c822a8");
    let name = "a \"quoted\\name\"\nwith\tcontrols \u{1} and accents é";
    repository
        .persist(
            Generation::first(),
            &[DomainEvent {
                id: event_id("550e8400-e29b-41d4-a716-446655440000"),
                aggregate_id: id,
                created_at: Timestamp::parse("2019-01-01T00:00:00+00:00").unwrap(),
                event: ProjectEvent::Created {
                    id,
                    name: name.into(),
                },
            }],
        )
        .unwrap();
    let loaded = repository.get(id).unwrap();
    assert_eq!(loaded.name, name);
}

#[test]
fn creation_on_top_of_stored_events_is_rejected() {
    let mut handler = CreateProjectHandler {
        repository: MemoryRepository::new(),
    };
    let command = |name: &str| CreateProject {
        id: project_id("936da01f-9abd-4d9d-80c7-02af85c822a8").value(),
        name: name.to_owned(),
    };
    handler
        .handle(
            command("first"),
            event_id("550e8400-e29b-41d4-a716-446655440000"),
            Timestamp::parse("2019-01-01T00:00:00+00:00").unwrap(),
        )
        .unwrap();
    let second = handler.handle(
        command("second"),
        event_id("650e8400-e29b-41d4-a716-446655440000"),
        Timestamp::parse("2019-01-01T00:00:01+00:00").unwrap(),
    );
    assert!(matches!(
        second,
        Err(feature_toggler::handler::CreateProjectHandlerError::RepositoryError(
            RepositoryError::ConflictError
        ))
    ));
}

#[test]
fn replay_error_propagates_from_get() {
    let mut repository = MemoryRepository::new();
    let id = project_id("936da01f-9abd-4d9d-80c7-02af85c822a8");
    for (row_id, generation) in [
        ("550e8400-e29b-41d4-a716-446655440000", 1),
        ("650e8400-e29b-41d4-a716-446655440000", 0),
    ] {
        repository.insert_row(
            NewEvent {
                id: row_id,
                aggregate_id: "936da01f-9abd-4d9d-80c7-02af85c822a8",
                generation,
                created_at: "2019-01-01T12:34:56+00:00",
                type_: "Created",
                data: "{\"Created\":{\"id\":\"936da01f-9abd-4d9d-80c7-02af85c822a8\",\"name\":\"test\"}}",
            }
            .to_event(),
        );
    }
    assert_eq!(
        repository.get(id),
        Err(RepositoryError::ProjectError(ProjectError::InvalidStateEvent))
    );
}
