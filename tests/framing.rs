use llm_sdk::error::StreamError;
use llm_sdk::framing::FrameDecoder;

fn feed_all(chunks: &[&[u8]]) -> (Vec<Vec<u8>>, FrameDecoder) {
    let mut d = FrameDecoder::new();
    let mut out = Vec::new();
    for c in chunks {
        out.extend(d.feed(c));
    }
    (out, d)
}

#[test]
fn single_frame_yields_its_payload() {
    let (frames, d) = feed_all(&[b"data: {\"a\":1}\n\n"]);
    assert_eq!(frames, vec![b"{\"a\":1}".to_vec()]);
    assert_eq!(d.buffered_len(), 0);
    assert_eq!(d.finalize(), Ok(()));
}

#[test]
fn several_frames_in_one_chunk() {
    let (frames, d) = feed_all(&[b"data: one\n\ndata: two\n\ndata: thr"]);
    assert_eq!(frames, vec![b"one".to_vec(), b"two".to_vec()]);
    assert_eq!(d.buffered_len(), 9);
}

#[test]
fn delimiter_split_across_chunks() {
    let (frames, d) = feed_all(&[b"data: x\n", b"\ndata: y\n", b"\n"]);
    assert_eq!(frames, vec![b"x".to_vec(), b"y".to_vec()]);
    assert_eq!(d.buffered_len(), 0);
}

#[test]
fn every_split_point_gives_the_same_frames() {
    let input = "data: {\"c\":\"héllo\"}\n\ndata: ünï\n\ndata: [DONE]\n\n".as_bytes();
    let whole = feed_all(&[input]).0;
    assert_eq!(whole.len(), 3);
    for i in 0..=input.len() {
        for j in i..=input.len() {
            let (frames, d) = feed_all(&[&input[..i], &input[i..j], &input[j..]]);
            assert_eq!(frames, whole);
            assert_eq!(d.buffered_len(), 0);
        }
    }
}

#[test]
fn byte_by_byte_feeding() {
    let input = b"data: a\n\ndata: b\n\n";
    let chunks: Vec<&[u8]> = input.chunks(1).collect();
    let (frames, _) = feed_all(&chunks);
    assert_eq!(frames, vec![b"a".to_vec(), b"b".to_vec()]);
}

#[test]
fn incomplete_frame_is_held_and_truncation_reported() {
    let (frames, d) = feed_all(&[b"data: {\"id\"", b":\"1\"}\n", b""]);
    assert!(frames.is_empty());
    assert_eq!(d.buffered_len(), 17);
    assert_eq!(d.finalize(), Err(StreamError::FrameTruncation));
}

#[test]
fn empty_decoder_finalizes_cleanly() {
    let d = FrameDecoder::new();
    assert_eq!(d.finalize(), Ok(()));
}

#[test]
fn payload_is_trimmed_and_marker_stripped() {
    let (frames, _) = feed_all(&[b"data:   spaced \t\n\nplain\n\n\n\n"]);
    assert_eq!(frames, vec![b"spaced".to_vec(), b"plain".to_vec(), b"".to_vec()]);
}

#[test]
fn extra_blank_line_before_a_frame() {
    let (frames, d) = feed_all(&[b"data: a\n\n\ndata: b\n\n"]);
    assert_eq!(frames, vec![b"a".to_vec(), b"b".to_vec()]);
    assert_eq!(d.buffered_len(), 0);
}
