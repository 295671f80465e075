use localchat::{extract_delta, ChunkFault, DeltaEvent};

fn expect_content(payload: &str) -> String {
    match extract_delta(payload.as_bytes()) {
        Some(DeltaEvent::Content(s)) => s,
        other => panic!("expected a content fragment, got {:?}", other),
    }
}

fn expect_fault(payload: &str) -> ChunkFault {
    match extract_delta(payload.as_bytes()) {
        Some(DeltaEvent::Error(e)) => e.kind,
        other => panic!("expected an error, got {:?}", other),
    }
}

#[test]
fn sentinel_ends_the_stream() {
    assert!(matches!(extract_delta(b"[DONE]"), Some(DeltaEvent::End)));
}

#[test]
fn sentinel_is_trimmed_first() {
    assert!(matches!(extract_delta(b"  [DONE] \n"), Some(DeltaEvent::End)));
}

#[test]
fn content_fragment_is_extracted() {
    let got = expect_content("{\"choices\":[{\"delta\":{\"content\":\"Hel\"}}]}");
    assert_eq!(got, "Hel");
}

#[test]
fn full_wire_chunk_is_extracted() {
    let got = expect_content(
        "{\"id\":\"c1\",\"object\":\"chat.completion.chunk\",\"created\":1,\"model\":\"m\",\"choices\":[{\"index\":0,\"delta\":{\"role\":\"assistant\",\"content\":\"Hi\"},\"finish_reason\":null}]}",
    );
    assert_eq!(got, "Hi");
}

#[test]
fn ping_frame_is_dropped() {
    assert!(extract_delta(b"{\"type\":\"ping\"}").is_none());
}

#[test]
fn role_only_chunk_yields_no_event() {
    assert!(extract_delta(b"{\"choices\":[{\"delta\":{\"role\":\"assistant\"}}]}").is_none());
}

#[test]
fn null_content_yields_no_event() {
    assert!(extract_delta(b"{\"choices\":[{\"delta\":{\"content\":null}}]}").is_none());
}

#[test]
fn chunk_without_content_yields_no_event() {
    assert!(
        extract_delta(b"{\"choices\":[{\"delta\":{},\"finish_reason\":\"stop\"}]}").is_none()
    );
}

#[test]
fn unrecognized_json_is_an_error() {
    assert!(matches!(
        expect_fault("{\"foo\":1}"),
        ChunkFault::UnrecognizedShape
    ));
}

#[test]
fn empty_choices_is_unrecognized() {
    assert!(matches!(
        expect_fault("{\"choices\":[]}"),
        ChunkFault::UnrecognizedShape
    ));
}

#[test]
fn non_string_content_is_unrecognized() {
    assert!(matches!(
        expect_fault("{\"choices\":[{\"delta\":{\"content\":5}}]}"),
        ChunkFault::UnrecognizedShape
    ));
}

#[test]
fn non_json_is_an_error() {
    assert!(matches!(expect_fault("not json at all"), ChunkFault::NotJson));
}

#[test]
fn error_carries_the_trimmed_payload() {
    match extract_delta(b"  {\"foo\":1} ") {
        Some(DeltaEvent::Error(e)) => assert_eq!(e.payload, b"{\"foo\":1}".to_vec()),
        other => panic!("expected an error, got {:?}", other),
    }
}

#[test]
fn ping_with_extra_fields_is_dropped() {
    assert!(extract_delta(b"{\"type\":\"ping\",\"at\":12}").is_none());
}

#[test]
fn non_ping_type_is_unrecognized() {
    assert!(matches!(
        expect_fault("{\"type\":\"pong\"}"),
        ChunkFault::UnrecognizedShape
    ));
}

#[test]
fn empty_fragment_is_still_content() {
    let got = expect_content("{\"choices\":[{\"delta\":{\"content\":\"\"}}]}");
    assert_eq!(got, "");
}
