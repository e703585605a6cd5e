use llm_sdk::error::StreamError;
use llm_sdk::session::{is_sentinel, Action, Input, StreamSession, StreamState};
use serde_json::Value;

#[derive(Debug, PartialEq)]
enum Outcome {
    Message(Value),
    End,
}

/// Runs a session over `chunks`, decoding payloads as JSON, and records what
/// a consumer would have been told.
fn drive(chunks: &[&[u8]], transport_fails: bool) -> (Vec<Outcome>, Result<(), StreamError>, StreamSession) {
    let mut session = StreamSession::new();
    let mut next = 0;
    let mut seen = Vec::new();
    let mut input: Input<Value> = Input::Ready;
    loop {
        match session.step(input) {
            Action::Read => {
                input = if next < chunks.len() {
                    next += 1;
                    Input::Data(chunks[next - 1].to_vec())
                } else if transport_fails {
                    Input::ReadFailed
                } else {
                    Input::EndOfBody
                };
            }
            Action::Decode(payload) => {
                input = match serde_json::from_slice::<Value>(&payload) {
                    Ok(v) => Input::Decoded(v),
                    Err(_) => Input::DecodeFailed,
                };
            }
            Action::Deliver(v) => {
                seen.push(Outcome::Message(v));
                input = Input::Ready;
            }
            Action::Finish => {
                seen.push(Outcome::End);
                return (seen, Ok(()), session);
            }
            Action::Fail(e) => return (seen, Err(e), session),
            Action::Stop => panic!("stop before an outcome"),
        }
    }
}

#[test]
fn chunk_split_in_json_then_sentinel() {
    let input = "data: {\"id\":\"1\",\"choices\":[{\"index\":0,\"delta\":{\"content\":\"hi\"}}]}\n\ndata: [DONE]\n\n";
    let (a, b) = input.as_bytes().split_at(20);
    let (seen, result, session) = drive(&[a, b], false);
    assert_eq!(result, Ok(()));
    assert_eq!(seen.len(), 2);
    match &seen[0] {
        Outcome::Message(v) => assert_eq!(v["choices"][0]["delta"]["content"], "hi"),
        Outcome::End => panic!("expected a message first"),
    }
    assert_eq!(seen[1], Outcome::End);
    assert_eq!(session.state(), StreamState::Completed);
}

#[test]
fn bad_json_fails_with_payload_decode() {
    let (seen, result, session) = drive(&[b"data: {bad json}\n\n"], false);
    assert!(seen.is_empty());
    assert_eq!(result, Err(StreamError::PayloadDecode));
    assert_eq!(session.state(), StreamState::Failed(StreamError::PayloadDecode));
}

#[test]
fn clean_end_without_sentinel_is_protocol_violation() {
    let (seen, result, session) = drive(&[b"data: {\"id\":\"1\",\"choices\":[]}\n\n"], false);
    assert_eq!(seen.len(), 1);
    assert!(!seen.contains(&Outcome::End));
    assert_eq!(result, Err(StreamError::ProtocolViolation));
    assert_eq!(session.state(), StreamState::Failed(StreamError::ProtocolViolation));
}

#[test]
fn sentinel_stops_before_trailing_frames() {
    let (seen, result, session) = drive(&[b"data: {\"n\":1}\n\ndata: [DONE]\n\ndata: {\"n\":2}\n\n"], false);
    assert_eq!(result, Ok(()));
    assert_eq!(seen.len(), 2);
    assert_eq!(seen[1], Outcome::End);
    assert_eq!(session.state(), StreamState::Completed);
}

#[test]
fn sentinel_is_never_decoded() {
    let mut session = StreamSession::new();
    assert!(matches!(session.step::<Value>(Input::Ready), Action::Read));
    let r = session.step::<Value>(Input::Data(b"data: [DONE]\n\ndata: {bad}\n\n".to_vec()));
    assert!(matches!(r, Action::Finish));
    assert!(matches!(session.step::<Value>(Input::Ready), Action::Stop));
    assert!(matches!(session.step::<Value>(Input::Data(b"data: {}\n\n".to_vec())), Action::Stop));
    assert!(matches!(session.step::<Value>(Input::EndOfBody), Action::Stop));
    assert_eq!(session.state(), StreamState::Completed);
}

#[test]
fn body_cut_mid_frame_is_truncation() {
    let (seen, result, _) = drive(&[b"data: {\"id\":\"1\"}\n\ndata: {\"id\""], false);
    assert_eq!(seen.len(), 1);
    assert_eq!(result, Err(StreamError::FrameTruncation));
}

#[test]
fn transport_error_fails_stream() {
    let (seen, result, session) = drive(&[b"data: {\"a\":1}\n\n"], true);
    assert_eq!(seen.len(), 1);
    assert_eq!(result, Err(StreamError::Transport));
    assert_eq!(session.state(), StreamState::Failed(StreamError::Transport));
}

#[test]
fn new_session_is_idle() {
    let session = StreamSession::new();
    assert_eq!(session.state(), StreamState::Idle);
}

#[test]
fn sentinel_comparison_is_exact() {
    assert!(is_sentinel(b"[DONE]"));
    assert!(!is_sentinel(b"[DONE] "));
    assert!(!is_sentinel(b"[done]"));
    assert!(!is_sentinel(b""));
}
