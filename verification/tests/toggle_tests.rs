use feature_toggler::project::ProjectId;
use feature_toggler::toggle::{Event, Toggle, ToggleError};

fn uuid_value(s: &str) -> u128 {
    ProjectId::from_str(s).unwrap().value()
}

#[test]
fn toggle_test_create() {
    let id = uuid_value("936DA01F9ABD4d9d80C702AF85C822A8");
    let events = Toggle::create(id, "test".to_owned()).unwrap();
    assert_eq!(
        events,
        vec![Event::Created {
            id,
            name: "test".to_owned()
        }],
    );
}

#[test]
fn toggle_hydrate_of_no_events_is_no_state() {
    assert_eq!(Toggle::hydrate(&[]), Ok(None));
}

#[test]
fn toggle_created_on_existing_state_is_rejected() {
    let id = uuid_value("936DA01F9ABD4d9d80C702AF85C822A8");
    let events = vec![
        Event::Created {
            id,
            name: "test".to_owned(),
        },
        Event::Created {
            id,
            name: "again".to_owned(),
        },
    ];
    assert_eq!(Toggle::hydrate(&events), Err(ToggleError::InvalidStateEvent));
}
