use localchat::FrameDecoder;

fn frames_of(chunks: &[&[u8]]) -> (Vec<Vec<u8>>, Result<(), localchat::FrameDecodeError>) {
    let mut dec = FrameDecoder::new();
    let mut frames = Vec::new();
    for c in chunks {
        dec.push_bytes(c);
        while let Some(f) = dec.next_frame() {
            frames.push(f);
        }
    }
    let fin = dec.finish();
    while let Some(f) = dec.next_frame() {
        frames.push(f);
    }
    (frames, fin)
}

#[test]
fn one_event_one_payload() {
    let (frames, fin) = frames_of(&[b"data: hello\n\n"]);
    assert_eq!(frames, vec![b"hello".to_vec()]);
    assert!(fin.is_ok());
}

#[test]
fn buffers_across_chunk_boundaries() {
    let (frames, fin) = frames_of(&[b"data: he", b"llo\n", b"\n"]);
    assert_eq!(frames, vec![b"hello".to_vec()]);
    assert!(fin.is_ok());
}

#[test]
fn crlf_terminators() {
    let (frames, fin) = frames_of(&[b"data: x\r\n\r\n"]);
    assert_eq!(frames, vec![b"x".to_vec()]);
    assert!(fin.is_ok());
}

#[test]
fn lone_cr_terminators() {
    let (frames, fin) = frames_of(&[b"data: x\r\r"]);
    assert_eq!(frames, vec![b"x".to_vec()]);
    assert!(fin.is_ok());
}

#[test]
fn cr_split_from_lf_across_chunks() {
    let mut dec = FrameDecoder::new();
    dec.push_bytes(b"data: x\r");
    assert!(dec.next_frame().is_none());
    dec.push_bytes(b"\n\r\n");
    assert_eq!(dec.next_frame(), Some(b"x".to_vec()));
    assert!(dec.finish().is_ok());
}

#[test]
fn multiple_data_lines_join_with_lf() {
    let (frames, fin) = frames_of(&[b"data: a\ndata: b\n\n"]);
    assert_eq!(frames, vec![b"a\nb".to_vec()]);
    assert!(fin.is_ok());
}

#[test]
fn bare_data_line_has_empty_value() {
    let (frames, fin) = frames_of(&[b"data\n\n"]);
    assert_eq!(frames, vec![b"".to_vec()]);
    assert!(fin.is_ok());
}

#[test]
fn data_without_space_after_colon() {
    let (frames, _) = frames_of(&[b"data:tight\n\n"]);
    assert_eq!(frames, vec![b"tight".to_vec()]);
}

#[test]
fn only_one_leading_space_is_stripped() {
    let (frames, _) = frames_of(&[b"data:  two\n\n"]);
    assert_eq!(frames, vec![b" two".to_vec()]);
}

#[test]
fn other_fields_are_ignored() {
    let (frames, fin) = frames_of(&[b"event: tick\nid: 7\n: comment\ndata: y\nretry: 2\n\n"]);
    assert_eq!(frames, vec![b"y".to_vec()]);
    assert!(fin.is_ok());
}

#[test]
fn similar_field_name_is_not_data() {
    let (frames, fin) = frames_of(&[b"database: z\n\n"]);
    assert!(frames.is_empty());
    assert!(fin.is_ok());
}

#[test]
fn event_without_data_yields_no_frame() {
    let (frames, fin) = frames_of(&[b"event: tick\n\n", b"data: real\n\n"]);
    assert_eq!(frames, vec![b"real".to_vec()]);
    assert!(fin.is_ok());
}

#[test]
fn two_events_in_order() {
    let (frames, _) = frames_of(&[b"data: one\n\ndata: two\n\n"]);
    assert_eq!(frames, vec![b"one".to_vec(), b"two".to_vec()]);
}

#[test]
fn close_mid_event_is_an_error() {
    let (frames, fin) = frames_of(&[b"data: x\n"]);
    assert!(frames.is_empty());
    let err = fin.unwrap_err();
    assert_eq!(err.partial_data, b"x".to_vec());
    assert!(err.pending.is_empty());
}

#[test]
fn close_mid_line_is_an_error() {
    let (frames, fin) = frames_of(&[b"data: x\n\ndat"]);
    assert_eq!(frames, vec![b"x".to_vec()]);
    let err = fin.unwrap_err();
    assert_eq!(err.pending, b"dat".to_vec());
}

#[test]
fn trailing_cr_resolves_at_close() {
    let mut dec = FrameDecoder::new();
    dec.push_bytes(b"data: x\n\r");
    assert!(dec.next_frame().is_none());
    assert!(dec.finish().is_ok());
    assert_eq!(dec.next_frame(), Some(b"x".to_vec()));
}

#[test]
fn byte_at_a_time_decoding() {
    let input: &[u8] = b"data: split\r\ndata: done\n\n";
    let mut dec = FrameDecoder::new();
    let mut frames = Vec::new();
    for b in input {
        dec.push_bytes(&[*b]);
        while let Some(f) = dec.next_frame() {
            frames.push(f);
        }
    }
    assert!(dec.finish().is_ok());
    assert_eq!(frames, vec![b"split\ndone".to_vec()]);
}
