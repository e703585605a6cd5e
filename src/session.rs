//! The life cycle of one streamed answer, as a state machine that a driver
//! runs: the driver performs each action (reading the transport, decoding a
//! payload, calling the consumer) and reports what came of it.
use vstd::prelude::*;

use crate::error::StreamError;
use crate::framing::{
    concat, finalize_result, first_delim, frames_of, lemma_frames_append, lemma_no_delim_no_frames,
    lemma_rest_has_no_delim, rest_of, views, FrameDecoder,
};

verus! {

/// The payload `[DONE]` that ends a stream.
pub open spec fn sentinel() -> Seq<u8> {
    seq![91u8, 68u8, 79u8, 78u8, 69u8, 93u8]
}

/// Whether a frame payload is the end-of-stream sentinel, compared exactly.
pub fn is_sentinel(payload: &[u8]) -> (r: bool)
    ensures
        r == (payload@ == sentinel()),
{
    let r = payload.len() == 6 && payload[0] == 91 && payload[1] == 68 && payload[2] == 79
        && payload[3] == 78 && payload[4] == 69 && payload[5] == 93;
    assert(r ==> payload@ =~= sentinel());
    r
}

/// Where a stream stands. `Completed` and `Failed` are final.
#[derive(Clone, Copy, Debug, PartialEq, Eq, Structural)]
pub enum StreamState {
    /// Nothing read yet.
    Idle,
    /// Chunks are being read and frames handed on.
    Streaming,
    /// The sentinel was seen; the consumer has been told the stream ended.
    Completed,
    /// The stream stopped with an error.
    Failed(StreamError),
}

/// What the driver reports to the session.
pub enum Input<T> {
    /// Ready for the next action: at the start, and after a `Deliver`.
    Ready,
    /// The transport produced a chunk of the body.
    Data(Vec<u8>),
    /// The transport reported the end of the body.
    EndOfBody,
    /// Reading from the transport failed.
    ReadFailed,
    /// The payload handed out by the last `Decode` decoded to this chunk.
    Decoded(T),
    /// The payload handed out by the last `Decode` is not a valid chunk.
    DecodeFailed,
}

/// What the session asks the driver to do next.
pub enum Action<T> {
    /// Read the next chunk from the transport.
    Read,
    /// Decode this payload as a chunk.
    Decode(Vec<u8>),
    /// Hand this chunk to the consumer's `on_message`, then report `Ready`.
    Deliver(T),
    /// Call the consumer's `on_end`: the stream is complete.
    Finish,
    /// Stop: the stream failed with this error.
    Fail(StreamError),
    /// Nothing is left to do: the stream already ended.
    Stop,
}

/// An input as the contracts see it.
pub enum InputModel<T> {
    Ready,
    Data(Seq<u8>),
    EndOfBody,
    ReadFailed,
    Decoded(T),
    DecodeFailed,
}

/// An action as the contracts see it.
pub enum ActionModel<T> {
    Read,
    Decode(Seq<u8>),
    Deliver(T),
    Finish,
    Fail(StreamError),
    Stop,
}

impl<T> View for Input<T> {
    type V = InputModel<T>;

    open spec fn view(&self) -> InputModel<T> {
        match self {
            Input::Ready => InputModel::Ready,
            Input::Data(b) => InputModel::Data(b@),
            Input::EndOfBody => InputModel::EndOfBody,
            Input::ReadFailed => InputModel::ReadFailed,
            Input::Decoded(c) => InputModel::Decoded(*c),
            Input::DecodeFailed => InputModel::DecodeFailed,
        }
    }
}

impl<T> View for Action<T> {
    type V = ActionModel<T>;

    open spec fn view(&self) -> ActionModel<T> {
        match self {
            Action::Read => ActionModel::Read,
            Action::Decode(b) => ActionModel::Decode(b@),
            Action::Deliver(c) => ActionModel::Deliver(*c),
            Action::Finish => ActionModel::Finish,
            Action::Fail(e) => ActionModel::Fail(*e),
            Action::Stop => ActionModel::Stop,
        }
    }
}

/// A session as the contracts see it.
pub struct SessionModel {
    pub state: StreamState,
    /// Bytes of a frame whose delimiter has not arrived.
    pub buffer: Seq<u8>,
    /// Payloads of complete frames not yet interpreted, in arrival order.
    pub pending: Seq<Seq<u8>>,
}

/// Takes on the next pending frame: the sentinel completes the stream and
/// drops whatever follows it; any other payload goes out to be decoded.
/// With nothing pending, the next chunk is read.
pub open spec fn advance_spec<T>(m: SessionModel) -> (SessionModel, ActionModel<T>) {
    if m.pending.len() == 0 {
        (m, ActionModel::Read)
    } else if m.pending[0] == sentinel() {
        (
            SessionModel { state: StreamState::Completed, pending: Seq::empty(), ..m },
            ActionModel::Finish,
        )
    } else {
        (SessionModel { pending: m.pending.skip(1), ..m }, ActionModel::Decode(m.pending[0]))
    }
}

/// The error with which a clean end of the body fails a stream that saw no
/// sentinel.
pub open spec fn end_of_body_error(buffer: Seq<u8>) -> StreamError {
    match finalize_result(buffer) {
        Err(e) => e,
        Ok(_) => StreamError::ProtocolViolation,
    }
}

/// One step of the session: the next state and the action, given an input.
pub open spec fn step_spec<T>(m: SessionModel, i: InputModel<T>) -> (SessionModel, ActionModel<T>) {
    match m.state {
        StreamState::Completed | StreamState::Failed(_) => (m, ActionModel::Stop),
        StreamState::Idle => (SessionModel { state: StreamState::Streaming, ..m }, ActionModel::Read),
        StreamState::Streaming => match i {
            InputModel::Ready => advance_spec(m),
            InputModel::Data(b) => advance_spec(
                SessionModel {
                    buffer: rest_of(m.buffer + b),
                    pending: m.pending + frames_of(m.buffer + b),
                    ..m
                },
            ),
            InputModel::EndOfBody => {
                let e = end_of_body_error(m.buffer);
                (SessionModel { state: StreamState::Failed(e), ..m }, ActionModel::Fail(e))
            },
            InputModel::ReadFailed => (
                SessionModel { state: StreamState::Failed(StreamError::Transport), ..m },
                ActionModel::Fail(StreamError::Transport),
            ),
            InputModel::Decoded(c) => (m, ActionModel::Deliver(c)),
            InputModel::DecodeFailed => (
                SessionModel { state: StreamState::Failed(StreamError::PayloadDecode), ..m },
                ActionModel::Fail(StreamError::PayloadDecode),
            ),
        },
    }
}

/// The decisions of one stream: its state, its frame decoder, and the
/// frames received but not yet interpreted.
pub struct StreamSession {
    state: StreamState,
    decoder: FrameDecoder,
    pending: Vec<Vec<u8>>,
}

impl View for StreamSession {
    type V = SessionModel;

    closed spec fn view(&self) -> SessionModel {
        SessionModel { state: self.state, buffer: self.decoder@, pending: views(self.pending@) }
    }
}

impl StreamSession {
    /// A session that has read nothing yet.
    pub fn new() -> (s: Self)
        ensures
            s@ == (SessionModel {
                state: StreamState::Idle,
                buffer: Seq::empty(),
                pending: Seq::empty(),
            }),
    {
        let s = StreamSession { state: StreamState::Idle, decoder: FrameDecoder::new(), pending: Vec::new() };
        assert(views(s.pending@) =~= Seq::<Seq<u8>>::empty());
        s
    }

    /// Where the stream stands.
    pub fn state(&self) -> (r: StreamState)
        ensures
            r == self@.state,
    {
        self.state
    }

    fn advance<T>(&mut self) -> (r: Action<T>)
        ensures
            (final(self)@, r@) == advance_spec::<T>(old(self)@),
    {
        if self.pending.len() == 0 {
            return Action::Read;
        }
        let ghost old_pending = views(self.pending@);
        let first = self.pending.remove(0);
        if is_sentinel(first.as_slice()) {
            self.state = StreamState::Completed;
            self.pending = Vec::new();
            assert(views(self.pending@) =~= Seq::<Seq<u8>>::empty());
            Action::Finish
        } else {
            assert(views(self.pending@) =~= old_pending.skip(1));
            Action::Decode(first)
        }
    }

    /// Takes one input and says what to do next.
    pub fn step<T>(&mut self, input: Input<T>) -> (r: Action<T>)
        ensures
            (final(self)@, r@) == step_spec(old(self)@, input@),
    {
        match self.state {
            StreamState::Completed | StreamState::Failed(_) => { return Action::Stop; },
            StreamState::Idle => {
                self.state = StreamState::Streaming;
                return Action::Read;
            },
            StreamState::Streaming => {},
        }
        match input {
            Input::Ready => self.advance(),
            Input::Data(bytes) => {
                let ghost old_pending = views(self.pending@);
                let mut frames = self.decoder.feed(bytes.as_slice());
                let ghost new_frames = views(frames@);
                self.pending.append(&mut frames);
                assert(views(self.pending@) =~= old_pending + new_frames);
                self.advance()
            },
            Input::EndOfBody => {
                let e = match self.decoder.finalize() {
                    Err(e) => e,
                    Ok(()) => StreamError::ProtocolViolation,
                };
                self.state = StreamState::Failed(e);
                Action::Fail(e)
            },
            Input::ReadFailed => {
                self.state = StreamState::Failed(StreamError::Transport);
                Action::Fail(StreamError::Transport)
            },
            Input::Decoded(c) => Action::Deliver(c),
            Input::DecodeFailed => {
                self.state = StreamState::Failed(StreamError::PayloadDecode);
                Action::Fail(StreamError::PayloadDecode)
            },
        }
    }
}

/// The actions a session in state `m` answers the inputs of `inputs` with,
/// one by one.
pub open spec fn run_actions<T>(m: SessionModel, inputs: Seq<InputModel<T>>) -> Seq<ActionModel<T>>
    decreases inputs.len(),
{
    if inputs.len() == 0 {
        Seq::empty()
    } else {
        let (m2, a) = step_spec(m, inputs[0]);
        seq![a] + run_actions(m2, inputs.skip(1))
    }
}

/// The state a session in state `m` is left in after the inputs of `inputs`.
pub open spec fn run_state<T>(m: SessionModel, inputs: Seq<InputModel<T>>) -> SessionModel
    decreases inputs.len(),
{
    if inputs.len() == 0 {
        m
    } else {
        run_state(step_spec(m, inputs[0]).0, inputs.skip(1))
    }
}

/// Whether the stream has ended, one way or the other.
pub open spec fn is_terminal(s: StreamState) -> bool {
    s is Completed || s is Failed
}

/// An ended stream stays as it ended: whatever comes in, it reads nothing
/// more, interprets no frame, tells the consumer nothing, and reports no
/// second outcome.
pub proof fn lemma_terminal_is_final<T>(m: SessionModel, inputs: Seq<InputModel<T>>)
    requires
        is_terminal(m.state),
    ensures
        run_state(m, inputs) == m,
        run_actions(m, inputs).len() == inputs.len(),
        forall|k: int| 0 <= k < inputs.len() ==> #[trigger] run_actions(m, inputs)[k] == ActionModel::<T>::Stop,
    decreases inputs.len(),
{
    if inputs.len() > 0 {
        lemma_terminal_is_final(m, inputs.skip(1));
        let rest = run_actions(m, inputs.skip(1));
        assert(run_actions(m, inputs) == seq![ActionModel::<T>::Stop] + rest);
        assert forall|k: int| 0 <= k < inputs.len() implies #[trigger] run_actions(m, inputs)[k] == ActionModel::<T>::Stop by {
            if k > 0 {
                assert(run_actions(m, inputs)[k] == rest[k - 1]);
            }
        }
    }
}

/// A chunk whose first new frame is the sentinel ends the stream at once:
/// one `Finish`, the stream is complete, and no frame after the sentinel,
/// not even one in the same chunk, is interpreted; later inputs are all
/// answered with `Stop`.
pub proof fn lemma_sentinel_ends_stream<T>(m: SessionModel, bytes: Seq<u8>, later: Seq<InputModel<T>>)
    requires
        m.state == StreamState::Streaming,
        m.pending.len() == 0,
        frames_of(m.buffer + bytes).len() > 0,
        frames_of(m.buffer + bytes)[0] == sentinel(),
    ensures
        step_spec(m, InputModel::<T>::Data(bytes)).1 == ActionModel::<T>::Finish,
        step_spec(m, InputModel::<T>::Data(bytes)).0.state == StreamState::Completed,
        step_spec(m, InputModel::<T>::Data(bytes)).0.pending.len() == 0,
        forall|k: int| 0 <= k < later.len() ==> #[trigger] run_actions(
            step_spec(m, InputModel::<T>::Data(bytes)).0,
            later,
        )[k] == ActionModel::<T>::Stop,
{
    let f = frames_of(m.buffer + bytes);
    assert((Seq::<Seq<u8>>::empty() + f)[0] == f[0]);
    let m2 = step_spec(m, InputModel::<T>::Data(bytes)).0;
    lemma_terminal_is_final(m2, later);
}

/// A stream completes only on the sentinel: the one step that makes it
/// `Completed` takes a pending sentinel, and answers with `Finish`.
pub proof fn lemma_completed_only_by_sentinel<T>(m: SessionModel, i: InputModel<T>)
    requires
        m.state != StreamState::Completed,
        step_spec(m, i).0.state == StreamState::Completed,
    ensures
        m.state == StreamState::Streaming,
        step_spec(m, i).1 == ActionModel::<T>::Finish,
        i is Ready ==> m.pending.len() > 0 && m.pending[0] == sentinel(),
        i matches InputModel::Data(b) ==> {
            let p = m.pending + frames_of(m.buffer + b);
            p.len() > 0 && p[0] == sentinel()
        },
{
}

/// A body that ends cleanly before the sentinel never counts as success:
/// the stream fails, with `FrameTruncation` when a frame was cut off and
/// `ProtocolViolation` otherwise.
pub proof fn lemma_end_without_sentinel_fails<T>(m: SessionModel)
    requires
        m.state == StreamState::Streaming,
    ensures
        step_spec(m, InputModel::<T>::EndOfBody).1 == ActionModel::<T>::Fail(
            if m.buffer.len() > 0 {
                StreamError::FrameTruncation
            } else {
                StreamError::ProtocolViolation
            },
        ),
        step_spec(m, InputModel::<T>::EndOfBody).0.state is Failed,
{
}

/// The consumer is told of the end at most once: in any run of inputs, at
/// most one action is `Finish`, and every action after it is `Stop`.
pub proof fn lemma_finish_at_most_once<T>(m: SessionModel, inputs: Seq<InputModel<T>>)
    ensures
        run_actions(m, inputs).len() == inputs.len(),
        forall|k1: int, k2: int|
            0 <= k1 < k2 < inputs.len() && #[trigger] run_actions(m, inputs)[k1]
                == ActionModel::<T>::Finish ==> #[trigger] run_actions(m, inputs)[k2]
                == ActionModel::<T>::Stop,
    decreases inputs.len(),
{
    if inputs.len() > 0 {
        let (m2, a) = step_spec(m, inputs[0]);
        let tail = inputs.skip(1);
        lemma_finish_at_most_once(m2, tail);
        let acts = run_actions(m, inputs);
        let rest = run_actions(m2, tail);
        assert(acts == seq![a] + rest);
        if a == ActionModel::<T>::Finish {
            lemma_terminal_is_final(m2, tail);
        }
        assert forall|k1: int, k2: int|
            0 <= k1 < k2 < inputs.len() && #[trigger] acts[k1] == ActionModel::<T>::Finish
            implies #[trigger] acts[k2] == ActionModel::<T>::Stop by {
            assert(acts[k2] == rest[k2 - 1]);
            if k1 > 0 {
                assert(acts[k1] == rest[k1 - 1]);
            }
        }
    }
}

/// How a driven stream ended.
pub enum RunEnd {
    /// The sentinel came.
    Completed,
    /// The stream failed with this error.
    Failed(StreamError),
    /// The session stopped answering before an outcome.
    Open,
}

/// What a consumer receives from a stream whose frames carry `frames`, when
/// `dec` decodes payloads: the chunks decoded up to the first sentinel or
/// the first payload that does not decode, and how the frames ended.
pub open spec fn expected_run<T>(frames: Seq<Seq<u8>>, dec: spec_fn(Seq<u8>) -> Option<T>) -> (
    Seq<T>,
    RunEnd,
)
    decreases frames.len(),
{
    if frames.len() == 0 {
        (Seq::empty(), RunEnd::Open)
    } else if frames[0] == sentinel() {
        (Seq::empty(), RunEnd::Completed)
    } else {
        match dec(frames[0]) {
            Some(c) => {
                let rest = expected_run(frames.skip(1), dec);
                (seq![c] + rest.0, rest.1)
            },
            None => (Seq::empty(), RunEnd::Failed(StreamError::PayloadDecode)),
        }
    }
}

/// The ending a stream of frames then gets when the body ends after `tail`,
/// the bytes still held back.
pub open spec fn end_after(e: RunEnd, tail: Seq<u8>) -> RunEnd {
    match e {
        RunEnd::Open => RunEnd::Failed(end_of_body_error(tail)),
        _ => e,
    }
}

/// How far an action is from asking for more input; a driver's answers
/// lower it, or shrink the pending frames.
pub open spec fn action_rank<T>(a: ActionModel<T>) -> nat {
    match a {
        ActionModel::Decode(_) => 2,
        ActionModel::Deliver(_) => 1,
        _ => 0,
    }
}

/// A driver that answers every action faithfully: it reads the chunks of
/// `cs` in order and then the end of the body, decodes payloads with `dec`,
/// and delivers chunks to the consumer. The result is what the consumer
/// received, in order, and how the stream ended.
pub open spec fn driven<T>(
    m: SessionModel,
    a: ActionModel<T>,
    cs: Seq<Seq<u8>>,
    dec: spec_fn(Seq<u8>) -> Option<T>,
) -> (Seq<T>, RunEnd)
    decreases cs.len(), (if m.state is Idle { 1nat } else { 0nat }), m.pending.len(), action_rank(a),
{
    match a {
        ActionModel::Read => if cs.len() > 0 {
            let (m2, a2) = step_spec(m, InputModel::Data(cs[0]));
            driven(m2, a2, cs.skip(1), dec)
        } else {
            match step_spec(m, InputModel::<T>::EndOfBody).1 {
                ActionModel::Fail(e) => (Seq::empty(), RunEnd::Failed(e)),
                _ => (Seq::empty(), RunEnd::Open),
            }
        },
        ActionModel::Decode(p) => match dec(p) {
            Some(c) => {
                let (m2, a2) = step_spec(m, InputModel::Decoded(c));
                driven(m2, a2, cs, dec)
            },
            None => match step_spec(m, InputModel::<T>::DecodeFailed).1 {
                ActionModel::Fail(e) => (Seq::empty(), RunEnd::Failed(e)),
                _ => (Seq::empty(), RunEnd::Open),
            },
        },
        ActionModel::Deliver(c) => {
            let (m2, a2) = step_spec(m, InputModel::<T>::Ready);
            let rest = driven(m2, a2, cs, dec);
            (seq![c] + rest.0, rest.1)
        },
        ActionModel::Finish => (Seq::empty(), RunEnd::Completed),
        ActionModel::Fail(e) => (Seq::empty(), RunEnd::Failed(e)),
        ActionModel::Stop => (Seq::empty(), RunEnd::Open),
    }
}

/// The driven run from a streaming session that is about to take its next
/// pending frame: the frames it still has to interpret are the pending ones,
/// then those of its buffer followed by the chunks not yet read.
proof fn lemma_driven_from_ready<T>(
    m: SessionModel,
    cs: Seq<Seq<u8>>,
    dec: spec_fn(Seq<u8>) -> Option<T>,
)
    requires
        m.state == StreamState::Streaming,
        first_delim(m.buffer) is None,
    ensures
        ({
            let (m2, a2) = step_spec(m, InputModel::<T>::Ready);
            let all = m.buffer + concat(cs);
            let exp = expected_run(m.pending + frames_of(all), dec);
            driven(m2, a2, cs, dec) == (exp.0, end_after(exp.1, rest_of(all)))
        }),
    decreases cs.len(), m.pending.len(),
{
    let all = m.buffer + concat(cs);
    let fs = m.pending + frames_of(all);
    if m.pending.len() > 0 {
        assert(fs[0] == m.pending[0]);
        if m.pending[0] != sentinel() {
            let p = m.pending[0];
            let m1 = SessionModel { pending: m.pending.skip(1), ..m };
            assert(fs.skip(1) =~= m1.pending + frames_of(all));
            assert(step_spec(m, InputModel::<T>::Ready) == (m1, ActionModel::<T>::Decode(p)));
            if let Some(c) = dec(p) {
                lemma_driven_from_ready(m1, cs, dec);
                assert(step_spec(m1, InputModel::Decoded(c)) == (m1, ActionModel::Deliver(c)));
                let (m3, a3) = step_spec(m1, InputModel::<T>::Ready);
                let rest = driven(m3, a3, cs, dec);
                assert(driven(m1, ActionModel::Deliver(c), cs, dec) == (seq![c] + rest.0, rest.1));
                assert(driven(m1, ActionModel::Decode(p), cs, dec) == driven(
                    m1,
                    ActionModel::Deliver(c),
                    cs,
                    dec,
                ));
            }
        } else {
            assert(step_spec(m, InputModel::<T>::Ready).1 == ActionModel::<T>::Finish);
        }
    } else {
        assert(fs =~= frames_of(all));
        if cs.len() > 0 {
            let b = m.buffer + cs[0];
            let m2 = SessionModel {
                buffer: rest_of(b),
                pending: m.pending + frames_of(b),
                ..m
            };
            lemma_rest_has_no_delim(b);
            lemma_driven_from_ready(m2, cs.skip(1), dec);
            assert(step_spec(m, InputModel::<T>::Ready) == (m, ActionModel::<T>::Read));
            assert(step_spec(m, InputModel::<T>::Data(cs[0])) == step_spec(m2, InputModel::<T>::Ready));
            lemma_frames_append(b, concat(cs.skip(1)));
            assert(all =~= b + concat(cs.skip(1)));
            assert(m.pending + frames_of(b) =~= frames_of(b));
        } else {
            assert(all =~= m.buffer);
            lemma_no_delim_no_frames(m.buffer);
        }
    }
}

/// A stream run by a faithful driver over the chunks `cs`, with payloads
/// decoded by `dec`: the consumer receives exactly the decoded chunks of the
/// frames of the whole input, in arrival order, each once, up to the
/// sentinel or the first payload that does not decode; the stream completes
/// exactly when the sentinel comes first, fails with `PayloadDecode` on a bad
/// payload, and otherwise fails when the body ends, with `FrameTruncation`
/// or `ProtocolViolation`. Where the chunk boundaries fall does not matter.
pub proof fn lemma_driven_stream<T>(cs: Seq<Seq<u8>>, dec: spec_fn(Seq<u8>) -> Option<T>)
    ensures
        ({
            let m0 = SessionModel { state: StreamState::Idle, buffer: Seq::empty(), pending: Seq::empty() };
            let (m1, a1) = step_spec(m0, InputModel::<T>::Ready);
            let exp = expected_run(frames_of(concat(cs)), dec);
            driven(m1, a1, cs, dec) == (exp.0, end_after(exp.1, rest_of(concat(cs))))
        }),
{
    let m0 = SessionModel { state: StreamState::Idle, buffer: Seq::empty(), pending: Seq::empty() };
    let m1 = step_spec(m0, InputModel::<T>::Ready).0;
    assert(first_delim(Seq::<u8>::empty()) is None);
    lemma_driven_from_ready(m1, cs, dec);
    assert(m1.buffer + concat(cs) =~= concat(cs));
    assert(m1.pending + frames_of(concat(cs)) =~= frames_of(concat(cs)));
    assert(step_spec(m1, InputModel::<T>::Ready) == step_spec(m0, InputModel::<T>::Ready));
}

} // verus!
