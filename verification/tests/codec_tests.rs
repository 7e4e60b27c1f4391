use feature_toggler::project::{payload_decode, payload_encode, ProjectEvent, ProjectId};
use feature_toggler::time::Timestamp;

fn project_id(s: &str) -> ProjectId {
    ProjectId::from_str(s).unwrap()
}

#[test]
fn payload_encodes_canonically() {
    let id = project_id("936da01f-9abd-4d9d-80c7-02af85c822a8");
    let event = ProjectEvent::Created {
        id,
        name: "test".into(),
    };
    assert_eq!(
        payload_encode(&event),
        "{\"Created\":{\"id\":\"936da01f-9abd-4d9d-80c7-02af85c822a8\",\"name\":\"test\"}}"
    );
}

#[test]
fn payload_escapes_controls_and_quotes() {
    let id = project_id("936da01f-9abd-4d9d-80c7-02af85c822a8");
    let event = ProjectEvent::Created {
        id,
        name: "a\"b\\c\nd\te\u{1}f\u{8}g\u{c}h\ri".into(),
    };
    assert_eq!(
        payload_encode(&event),
        "{\"Created\":{\"id\":\"936da01f-9abd-4d9d-80c7-02af85c822a8\",\"name\":\"a\\\"b\\\\c\\nd\\te\\u0001f\\bg\\fh\\ri\"}}"
    );
}

#[test]
fn payload_decode_inverts_encode() {
    let id = project_id("936da01f-9abd-4d9d-80c7-02af85c822a8");
    for name in [
        "test",
        "",
        "a \"quoted\\name\"\nwith\tcontrols \u{1} and accents é",
        "emoji \u{1F600} and slash / too",
    ] {
        let event = ProjectEvent::Created {
            id,
            name: name.into(),
        };
        let data = payload_encode(&event);
        assert_eq!(payload_decode(&data), Some(event));
    }
}

#[test]
fn payload_decode_accepts_unicode_escapes() {
    let data = "{\"Created\":{\"id\":\"936da01f-9abd-4d9d-80c7-02af85c822a8\",\"name\":\"\\u0041\\u00e9\"}}";
    let decoded = payload_decode(data).unwrap();
    assert_eq!(
        decoded,
        ProjectEvent::Created {
            id: project_id("936da01f-9abd-4d9d-80c7-02af85c822a8"),
            name: "Aé".into(),
        }
    );
}

#[test]
fn payload_decode_rejects_malformed_text() {
    for data in [
        "",
        "not json at all",
        "{\"Created\":{\"id\":\"936da01f-9abd-4d9d-80c7-02af85c822a8\",\"name\":\"test\"}",
        "{\"Created\":{\"id\":\"not-a-uuid\",\"name\":\"test\"}}",
        "{\"Created\":{\"id\":\"936da01f-9abd-4d9d-80c7-02af85c822a8\",\"name\":\"open}}",
        "{\"Created\":{\"id\":\"936da01f-9abd-4d9d-80c7-02af85c822a8\",\"name\":\"bad\\qescape\"}}",
        "{\"Created\":{\"id\":\"936da01f-9abd-4d9d-80c7-02af85c822a8\",\"name\":\"lone\\ud800\"}}",
        "{\"Renamed\":{\"id\":\"936da01f-9abd-4d9d-80c7-02af85c822a8\",\"name\":\"test\"}}",
    ] {
        assert_eq!(payload_decode(data), None, "accepted: {data}");
    }
}

#[test]
fn timestamp_accepts_only_well_formed_texts() {
    let t = Timestamp::parse("2019-01-01T12:34:56+00:00").unwrap();
    assert_eq!(t.as_str(), "2019-01-01T12:34:56+00:00");
    assert!(Timestamp::parse("2019-01-01T12:34:56Z").is_some());
    assert!(Timestamp::parse("yesterday").is_none());
    assert!(Timestamp::parse("2019-13-01T12:34:56+00:00").is_none());
    assert!(Timestamp::parse("").is_none());
}
