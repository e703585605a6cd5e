//! Incremental reassembly of `data: <payload>\n\n` frames from byte chunks
//! whose boundaries fall anywhere.
use vstd::prelude::*;

use crate::error::StreamError;

verus! {

/// Line feed; two in a row end a frame.
pub const LF: u8 = 10;

/// The field marker `data:` that conventionally opens a frame.
pub open spec fn marker() -> Seq<u8> {
    seq![100u8, 97u8, 116u8, 97u8, 58u8]
}

/// ASCII whitespace, as trimmed around a payload.
pub open spec fn is_ws(b: u8) -> bool {
    b == 32 || b == 9 || b == 10 || b == 12 || b == 13
}

/// Position of the first delimiter (two line feeds) that starts at `i` or later.
pub open spec fn delim_from(s: Seq<u8>, i: int) -> Option<int>
    decreases s.len() - i,
{
    if i < 0 || i + 1 >= s.len() {
        None
    } else if s[i] == LF && s[i + 1] == LF {
        Some(i)
    } else {
        delim_from(s, i + 1)
    }
}

/// Position of the first delimiter in `s`.
pub open spec fn first_delim(s: Seq<u8>) -> Option<int> {
    delim_from(s, 0)
}

/// `s` without leading whitespace.
pub open spec fn trim_start(s: Seq<u8>) -> Seq<u8>
    decreases s.len(),
{
    if s.len() > 0 && is_ws(s[0]) {
        trim_start(s.skip(1))
    } else {
        s
    }
}

/// `s` without trailing whitespace.
pub open spec fn trim_end(s: Seq<u8>) -> Seq<u8>
    decreases s.len(),
{
    if s.len() > 0 && is_ws(s.last()) {
        trim_end(s.drop_last())
    } else {
        s
    }
}

/// `s` without leading or trailing whitespace.
pub open spec fn trim(s: Seq<u8>) -> Seq<u8> {
    trim_end(trim_start(s))
}

/// `s` without a leading field marker, if it has one.
pub open spec fn strip_marker(s: Seq<u8>) -> Seq<u8> {
    if s.len() >= 5 && s.take(5) == marker() {
        s.skip(5)
    } else {
        s
    }
}

/// The payload that a frame's text (the bytes before its delimiter)
/// carries: the text trimmed, without its field marker, trimmed again.
pub open spec fn payload_of(raw: Seq<u8>) -> Seq<u8> {
    trim(strip_marker(trim(raw)))
}

/// The payloads of the complete frames in `s`, in order. (The bound on `k`
/// always holds, by `lemma_delim_from_bounds`; it is written out so that
/// the recursion visibly terminates.)
pub open spec fn frames_of(s: Seq<u8>) -> Seq<Seq<u8>>
    decreases s.len(),
{
    match first_delim(s) {
        Some(k) => if 0 <= k && k + 2 <= s.len() {
            seq![payload_of(s.take(k))] + frames_of(s.skip(k + 2))
        } else {
            seq![]
        },
        None => seq![],
    }
}

/// What is left of `s` after its complete frames: the start of a frame
/// whose delimiter has not arrived yet. The bound on `k` is as in
/// `frames_of`.
pub open spec fn rest_of(s: Seq<u8>) -> Seq<u8>
    decreases s.len(),
{
    match first_delim(s) {
        Some(k) => if 0 <= k && k + 2 <= s.len() {
            rest_of(s.skip(k + 2))
        } else {
            s
        },
        None => s,
    }
}

/// The contents of a vector of byte vectors.
pub open spec fn views(v: Seq<Vec<u8>>) -> Seq<Seq<u8>> {
    v.map_values(|f: Vec<u8>| f@)
}

/// Whether `b` is whitespace that a payload is trimmed of.
fn is_ws_byte(b: u8) -> (r: bool)
    ensures
        r == is_ws(b),
{
    b == 32 || b == 9 || b == 10 || b == 12 || b == 13
}

/// The bounds of `buf[start..end]` trimmed.
fn trim_range(buf: &Vec<u8>, start: usize, end: usize) -> (r: (usize, usize))
    requires
        start <= end <= buf@.len(),
    ensures
        start <= r.0 <= r.1 <= end,
        buf@.subrange(r.0 as int, r.1 as int) == trim(buf@.subrange(start as int, end as int)),
{
    let ghost whole = buf@.subrange(start as int, end as int);
    let mut lo: usize = start;
    while lo < end && is_ws_byte(buf[lo])
        invariant
            start <= lo <= end <= buf@.len(),
            trim_start(buf@.subrange(lo as int, end as int)) == trim_start(whole),
        decreases end - lo,
    {
        assert(buf@.subrange(lo as int, end as int).skip(1) =~= buf@.subrange(lo + 1, end as int));
        lo = lo + 1;
    }
    assert(trim_start(whole) == buf@.subrange(lo as int, end as int));
    let mut hi: usize = end;
    while hi > lo && is_ws_byte(buf[hi - 1])
        invariant
            start <= lo <= hi <= end <= buf@.len(),
            trim_end(buf@.subrange(lo as int, hi as int)) == trim(whole),
        decreases hi - lo,
    {
        assert(buf@.subrange(lo as int, hi as int).drop_last() =~= buf@.subrange(
            lo as int,
            hi - 1,
        ));
        hi = hi - 1;
    }
    (lo, hi)
}

/// The payload of the frame whose text is `buf[start..end]`.
fn frame_payload(buf: &Vec<u8>, start: usize, end: usize) -> (r: Vec<u8>)
    requires
        start <= end <= buf@.len(),
    ensures
        r@ == payload_of(buf@.subrange(start as int, end as int)),
{
    let (a, b) = trim_range(buf, start, end);
    let ghost t = buf@.subrange(a as int, b as int);
    let mut lo: usize = a;
    if b - a >= 5 && buf[a] == 100 && buf[a + 1] == 97 && buf[a + 2] == 116 && buf[a + 3] == 97
        && buf[a + 4] == 58 {
        assert(t.take(5) =~= marker());
        lo = a + 5;
    } else {
        assert(t.len() >= 5 ==> t.take(5)[0] == t[0] && t.take(5)[1] == t[1] && t.take(5)[2]
            == t[2] && t.take(5)[3] == t[3] && t.take(5)[4] == t[4]);
    }
    assert(strip_marker(t) =~= buf@.subrange(lo as int, b as int));
    let (c, d) = trim_range(buf, lo, b);
    let mut r: Vec<u8> = Vec::new();
    let mut i: usize = c;
    while i < d
        invariant
            c <= i <= d <= buf@.len(),
            r@ =~= buf@.subrange(c as int, i as int),
        decreases d - i,
    {
        r.push(buf[i]);
        i = i + 1;
    }
    r
}

/// Turns transport chunks into frame payloads, holding back the bytes of a
/// frame whose delimiter has not arrived yet.
pub struct FrameDecoder {
    buf: Vec<u8>,
}

impl View for FrameDecoder {
    type V = Seq<u8>;

    /// The bytes received but not yet handed out as part of a frame.
    closed spec fn view(&self) -> Seq<u8> {
        self.buf@
    }
}

impl FrameDecoder {
    /// A decoder with an empty buffer.
    pub fn new() -> (d: Self)
        ensures
            d@ == Seq::<u8>::empty(),
    {
        FrameDecoder { buf: Vec::new() }
    }

    /// Appends `chunk` to the buffer and takes out every complete frame,
    /// scanning the whole buffer, so that a delimiter split over two chunks
    /// is still found.
    pub fn feed(&mut self, chunk: &[u8]) -> (frames: Vec<Vec<u8>>)
        ensures
            views(frames@) == frames_of(old(self)@ + chunk@),
            final(self)@ == rest_of(old(self)@ + chunk@),
            first_delim(final(self)@) is None,
    {
        let ghost total = old(self)@ + chunk@;
        let mut i: usize = 0;
        while i < chunk.len()
            invariant
                i <= chunk@.len(),
                self.buf@ =~= old(self)@ + chunk@.take(i as int),
            decreases chunk.len() - i,
        {
            self.buf.push(chunk[i]);
            i = i + 1;
        }
        assert(self.buf@ =~= total);
        let n = self.buf.len();
        let mut frames: Vec<Vec<u8>> = Vec::new();
        let mut start: usize = 0;
        let mut j: usize = 0;
        assert(total.skip(0) =~= total);
        while j < n && j + 1 < n
            invariant
                n == self.buf@.len(),
                self.buf@ == total,
                start <= j <= n,
                views(frames@) + frames_of(total.skip(start as int)) == frames_of(total),
                rest_of(total.skip(start as int)) == rest_of(total),
                first_delim(total.skip(start as int)) == delim_from(
                    total.skip(start as int),
                    j - start,
                ),
            decreases n - j,
        {
            let ghost tail = total.skip(start as int);
            if self.buf[j] == LF && self.buf[j + 1] == LF {
                let payload = frame_payload(&self.buf, start, j);
                proof {
                    assert(tail.take(j - start) =~= total.subrange(start as int, j as int));
                    assert(tail.skip(j - start + 2) =~= total.skip(j + 2));
                    assert(views(frames@.push(payload)) =~= views(frames@).push(payload@));
                    assert(views(frames@) + frames_of(tail) =~= views(frames@).push(payload@)
                        + frames_of(total.skip(j + 2)));
                }
                frames.push(payload);
                start = j + 2;
                j = j + 2;
            } else {
                j = j + 1;
            }
        }
        let ghost tail = total.skip(start as int);
        assert(first_delim(tail) is None);
        assert(views(frames@) =~= views(frames@) + frames_of(tail));
        let rest = self.buf.split_off(start);
        self.buf = rest;
        assert(self.buf@ =~= tail);
        proof {
            lemma_rest_has_no_delim(total);
        }
        frames
    }

    /// Called once the transport has no more chunks: bytes still in the
    /// buffer are a frame that was cut off.
    pub fn finalize(&self) -> (r: Result<(), StreamError>)
        ensures
            r == finalize_result(self@),
    {
        if self.buf.len() == 0 {
            Ok(())
        } else {
            Err(StreamError::FrameTruncation)
        }
    }

    /// The number of bytes held back.
    pub fn buffered_len(&self) -> (r: usize)
        ensures
            r == self@.len(),
    {
        self.buf.len()
    }
}

/// The outcome of ending the input with `buf` still held back.
pub open spec fn finalize_result(buf: Seq<u8>) -> Result<(), StreamError> {
    if buf.len() == 0 {
        Ok(())
    } else {
        Err(StreamError::FrameTruncation)
    }
}

/// A delimiter found from `i` on is a pair of line feeds in `s`, at or
/// after `i`.
pub proof fn lemma_delim_from_bounds(s: Seq<u8>, i: int)
    ensures
        delim_from(s, i) matches Some(k) ==> {
            &&& 0 <= i <= k
            &&& k + 1 < s.len()
            &&& s[k] == LF
            &&& s[k + 1] == LF
        },
    decreases s.len() - i,
{
    if !(i < 0 || i + 1 >= s.len()) && !(s[i] == LF && s[i + 1] == LF) {
        lemma_delim_from_bounds(s, i + 1);
    }
}

/// Bytes appended after a delimiter do not move it.
pub proof fn lemma_delim_from_append(a: Seq<u8>, b: Seq<u8>, i: int)
    requires
        delim_from(a, i) is Some,
    ensures
        delim_from(a + b, i) == delim_from(a, i),
    decreases a.len() - i,
{
    if !(i < 0 || i + 1 >= a.len()) && !(a[i] == LF && a[i + 1] == LF) {
        lemma_delim_from_append(a, b, i + 1);
    }
}

/// Splitting the input in two: the frames of the whole are those of the
/// first part, then those of its leftover followed by the second part.
pub proof fn lemma_frames_append(a: Seq<u8>, b: Seq<u8>)
    ensures
        frames_of(a + b) == frames_of(a) + frames_of(rest_of(a) + b),
        rest_of(a + b) == rest_of(rest_of(a) + b),
    decreases a.len(),
{
    lemma_delim_from_bounds(a, 0);
    match first_delim(a) {
        Some(k) => {
            lemma_delim_from_append(a, b, 0);
            let a2 = a.skip(k + 2);
            assert((a + b).take(k) =~= a.take(k));
            assert((a + b).skip(k + 2) =~= a2 + b);
            lemma_frames_append(a2, b);
            assert(frames_of(a + b) =~= frames_of(a) + frames_of(rest_of(a) + b));
        },
        None => {
            assert(frames_of(a) + frames_of(rest_of(a) + b) =~= frames_of(a + b));
        },
    }
}

/// What is held back holds no delimiter.
pub proof fn lemma_rest_has_no_delim(s: Seq<u8>)
    ensures
        first_delim(rest_of(s)) is None,
    decreases s.len(),
{
    lemma_delim_from_bounds(s, 0);
    if let Some(k) = first_delim(s) {
        lemma_rest_has_no_delim(s.skip(k + 2));
    }
}

/// Input without a delimiter yields no frame and is held back whole.
pub proof fn lemma_no_delim_no_frames(s: Seq<u8>)
    requires
        first_delim(s) is None,
    ensures
        frames_of(s) == Seq::<Seq<u8>>::empty(),
        rest_of(s) == s,
{
}

/// The chunks of `cs` one after another.
pub open spec fn concat(cs: Seq<Seq<u8>>) -> Seq<u8>
    decreases cs.len(),
{
    if cs.len() == 0 {
        Seq::<u8>::empty()
    } else {
        cs[0] + concat(cs.skip(1))
    }
}

/// The frames handed out by feeding the chunks of `cs` in order to a
/// decoder holding `buf`.
pub open spec fn feed_all(buf: Seq<u8>, cs: Seq<Seq<u8>>) -> Seq<Seq<u8>>
    decreases cs.len(),
{
    if cs.len() == 0 {
        Seq::<Seq<u8>>::empty()
    } else {
        frames_of(buf + cs[0]) + feed_all(rest_of(buf + cs[0]), cs.skip(1))
    }
}

/// The bytes held back after feeding the chunks of `cs` in order to a
/// decoder holding `buf`.
pub open spec fn buffer_after(buf: Seq<u8>, cs: Seq<Seq<u8>>) -> Seq<u8>
    decreases cs.len(),
{
    if cs.len() == 0 {
        buf
    } else {
        buffer_after(rest_of(buf + cs[0]), cs.skip(1))
    }
}

/// Where chunk boundaries fall does not matter: feeding any chunking of an
/// input yields the frames of the input taken whole, and holds back the
/// same bytes.
pub proof fn lemma_chunking_irrelevant(buf: Seq<u8>, cs: Seq<Seq<u8>>)
    requires
        first_delim(buf) is None,
    ensures
        feed_all(buf, cs) == frames_of(buf + concat(cs)),
        buffer_after(buf, cs) == rest_of(buf + concat(cs)),
    decreases cs.len(),
{
    if cs.len() == 0 {
        assert(buf + concat(cs) =~= buf);
    } else {
        let a = buf + cs[0];
        lemma_rest_has_no_delim(a);
        lemma_chunking_irrelevant(rest_of(a), cs.skip(1));
        lemma_frames_append(a, concat(cs.skip(1)));
        assert(buf + concat(cs) =~= a + concat(cs.skip(1)));
    }
}

/// A frame whose delimiter never arrives is never handed out, however the
/// input was chunked, and ending the input then reports it as cut off.
pub proof fn lemma_incomplete_frame_held(buf: Seq<u8>, cs: Seq<Seq<u8>>)
    requires
        first_delim(buf + concat(cs)) is None,
    ensures
        feed_all(buf, cs) == Seq::<Seq<u8>>::empty(),
        buffer_after(buf, cs) == buf + concat(cs),
        finalize_result(buffer_after(buf, cs)) == (if buf.len() + concat(cs).len() == 0 {
            Ok::<(), StreamError>(())
        } else {
            Err(StreamError::FrameTruncation)
        }),
{
    if first_delim(buf) is Some {
        lemma_delim_from_append(buf, concat(cs), 0);
    }
    lemma_chunking_irrelevant(buf, cs);
    lemma_no_delim_no_frames(buf + concat(cs));
}

/// The wire text `data: <p>\n\n` of a frame carrying `p`.
pub open spec fn encode_frame(p: Seq<u8>) -> Seq<u8> {
    marker() + seq![32u8] + p + seq![LF, LF]
}

/// The frames carrying the payloads of `ps`, one after another.
pub open spec fn encode_all(ps: Seq<Seq<u8>>) -> Seq<u8>
    decreases ps.len(),
{
    if ps.len() == 0 {
        Seq::<u8>::empty()
    } else {
        encode_frame(ps[0]) + encode_all(ps.skip(1))
    }
}

/// A payload that a frame carries unchanged: a single line, without
/// whitespace at either end.
pub open spec fn well_formed_payload(p: Seq<u8>) -> bool {
    &&& forall|i: int| 0 <= i < p.len() ==> p[i] != LF
    &&& p.len() > 0 ==> !is_ws(p[0]) && !is_ws(p.last())
}

/// The first pair of line feeds from `i` on is found, when no line feed
/// comes before it.
proof fn lemma_delim_from_first(s: Seq<u8>, i: int, k: int)
    requires
        0 <= i <= k,
        k + 1 < s.len(),
        s[k] == LF,
        s[k + 1] == LF,
        forall|j: int| i <= j < k ==> s[j] != LF,
    ensures
        delim_from(s, i) == Some(k),
    decreases k - i,
{
    if i < k {
        lemma_delim_from_first(s, i + 1, k);
    }
}

/// A single well-formed frame decodes to its payload and leaves nothing.
proof fn lemma_encode_frame(p: Seq<u8>)
    requires
        well_formed_payload(p),
    ensures
        frames_of(encode_frame(p)) == seq![p],
        rest_of(encode_frame(p)) == Seq::<u8>::empty(),
{
    let f = encode_frame(p);
    let k: int = 6 + p.len() as int;
    assert forall|j: int| 0 <= j < k implies f[j] != LF by {
        if j >= 6 {
            assert(f[j] == p[j - 6]);
        }
    }
    lemma_delim_from_first(f, 0, k);
    let raw = f.take(k);
    assert(trim_start(raw) == raw);
    if p.len() > 0 {
        assert(raw.last() == p.last());
        assert(trim_end(raw) == raw);
    } else {
        assert(raw.drop_last() =~= marker());
        assert(trim_end(marker()) == marker());
        assert(trim_end(raw) == marker());
        assert(marker().take(5) =~= marker());
        assert(marker().skip(5) =~= p);
        assert(trim_start(p) == p);
        assert(trim_end(p) == p);
    }
    assert(raw.take(5) =~= marker());
    let sp = raw.skip(5);
    assert(sp.skip(1) =~= p);
    assert(trim_start(sp) == trim_start(p));
    assert(trim_start(p) == p);
    assert(trim_end(p) == p);
    assert(payload_of(raw) == p);
    let e = Seq::<u8>::empty();
    assert(f.len() == k + 2);
    assert(f.skip(k + 2) =~= e);
    assert(first_delim(e) is None);
    assert(frames_of(e) == Seq::<Seq<u8>>::empty());
    assert(rest_of(f) == rest_of(e));
    assert(frames_of(f) == seq![payload_of(raw)] + frames_of(e));
    assert(frames_of(f) =~= seq![p]);
}

/// Well-formed frames, one after another, decode to their payloads and
/// leave nothing.
pub proof fn lemma_encode_all(ps: Seq<Seq<u8>>)
    requires
        forall|i: int| 0 <= i < ps.len() ==> well_formed_payload(#[trigger] ps[i]),
    ensures
        frames_of(encode_all(ps)) == ps,
        rest_of(encode_all(ps)) == Seq::<u8>::empty(),
    decreases ps.len(),
{
    if ps.len() == 0 {
        assert(frames_of(Seq::<u8>::empty()) =~= ps);
    } else {
        let f = encode_frame(ps[0]);
        let tail = ps.skip(1);
        assert forall|i: int| 0 <= i < tail.len() implies well_formed_payload(#[trigger] tail[i]) by {
            assert(tail[i] == ps[i + 1]);
        }
        lemma_encode_all(tail);
        lemma_encode_frame(ps[0]);
        lemma_frames_append(f, encode_all(tail));
        assert(Seq::<u8>::empty() + encode_all(tail) =~= encode_all(tail));
        assert(seq![ps[0]] + tail =~= ps);
    }
}

/// Well-formed frames cut into chunks at any offsets, inside a delimiter
/// or a multi-byte character included, come out as exactly their payloads,
/// in order, with nothing left over.
pub proof fn lemma_frames_survive_any_split(ps: Seq<Seq<u8>>, cs: Seq<Seq<u8>>)
    requires
        forall|i: int| 0 <= i < ps.len() ==> well_formed_payload(#[trigger] ps[i]),
        concat(cs) == encode_all(ps),
    ensures
        feed_all(Seq::<u8>::empty(), cs) == ps,
        buffer_after(Seq::<u8>::empty(), cs) == Seq::<u8>::empty(),
{
    let e = Seq::<u8>::empty();
    lemma_chunking_irrelevant(e, cs);
    assert(e + concat(cs) =~= encode_all(ps));
    lemma_encode_all(ps);
}

} // verus!
