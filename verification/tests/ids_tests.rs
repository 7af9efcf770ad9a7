use mindmap::ids::fresh_uuid;

#[test]
fn fresh_uuid_is_hyphenated_and_36_chars() {
    let u = fresh_uuid();
    assert_eq!(u.len(), 36);
    let bytes = u.as_bytes();
    assert_eq!(bytes[8], b'-');
    assert_eq!(bytes[13], b'-');
    assert_eq!(bytes[18], b'-');
    assert_eq!(bytes[23], b'-');
    // version 4 marker
    assert_eq!(bytes[14], b'4');
}

#[test]
fn fresh_uuid_varies_between_calls() {
    assert_ne!(fresh_uuid(), fresh_uuid());
}
