use feature_toggler::domain::Generation;
use feature_toggler::project::{Project, ProjectEvent, ProjectId, ProjectError};

#[test]
fn project_test_create() {
    let id = ProjectId::from_str("936DA01F9ABD4d9d80C702AF85C822A8").unwrap();
    let events = Project::create(id, "test".to_owned());
    assert_eq!(
        events,
        Ok(vec![ProjectEvent::Created {
            id,
            name: "test".into(),
        }])
    );
}

#[test]
fn mod_test_create() {
    let id = ProjectId::from_str("936DA01F9ABD4d9d80C702AF85C822A8").unwrap();
    let events = Project::create(id, "test".to_owned());
    assert_eq!(
        events,
        Ok(vec![ProjectEvent::Created {
            id,
            name: "test".into(),
        }])
    );
}

#[test]
fn hydrate_of_no_events_is_no_state() {
    assert_eq!(Project::hydrate(&[]), Ok(None));
}

#[test]
fn hydrate_replayed_twice_is_identical() {
    let id = ProjectId::from_str("936da01f-9abd-4d9d-80c7-02af85c822a8").unwrap();
    let events = vec![ProjectEvent::Created {
        id,
        name: "test".into(),
    }];
    let first = Project::hydrate(&events);
    let second = Project::hydrate(&events);
    assert_eq!(first, second);
    assert_eq!(
        first,
        Ok(Some(Project {
            id,
            generation: Generation::first(),
            name: "test".into(),
        }))
    );
}

#[test]
fn created_on_existing_state_is_rejected() {
    let id = ProjectId::from_str("936da01f-9abd-4d9d-80c7-02af85c822a8").unwrap();
    let events = vec![
        ProjectEvent::Created {
            id,
            name: "test".into(),
        },
        ProjectEvent::Created {
            id,
            name: "again".into(),
        },
    ];
    assert_eq!(
        Project::hydrate(&events),
        Err(ProjectError::InvalidStateEvent)
    );
}

#[test]
fn project_id_text_forms_name_one_value() {
    let simple = ProjectId::from_str("936DA01F9ABD4d9d80C702AF85C822A8").unwrap();
    let hyphenated = ProjectId::from_str("936da01f-9abd-4d9d-80c7-02af85c822a8").unwrap();
    let braced = ProjectId::from_str("{936da01f-9abd-4d9d-80c7-02af85c822a8}").unwrap();
    let urn = ProjectId::from_str("urn:uuid:936da01f-9abd-4d9d-80c7-02af85c822a8").unwrap();
    assert_eq!(simple, hyphenated);
    assert_eq!(braced, urn);
    assert_eq!(simple, braced);
    assert_eq!(simple.to_string(), "936da01f-9abd-4d9d-80c7-02af85c822a8");
    assert!(ProjectId::from_str("not-a-uuid").is_err());
    assert!(ProjectId::from_str("936da01f-9abd-4d9d-80c7-02af85c822a").is_err());
}

#[test]
fn event_type_discriminator() {
    let id = ProjectId::from_str("936da01f-9abd-4d9d-80c7-02af85c822a8").unwrap();
    let event = ProjectEvent::Created {
        id,
        name: "test".into(),
    };
    assert_eq!(event.type_(), "Created");
}
