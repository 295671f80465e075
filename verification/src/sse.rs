use vstd::prelude::*;

verus! {

// === Framing rule, as specification ===
//
// The wire stream is a sequence of lines, each ended by LF, CRLF, or a lone
// CR. An event is one or more field lines followed by a blank line; the
// payload of an event is the concatenation of the values of its `data` field
// lines, joined with LF; lines carrying any other field are ignored. A CR at
// the very end of the buffered bytes is ambiguous (the LF of a CRLF pair may
// still be in flight), so it only ends a line once the stream is closed.

pub open spec fn is_break(b: u8) -> bool {
    b == 0x0a || b == 0x0d
}

/// Position of the first line-break byte, if any.
pub open spec fn break_pos(s: Seq<u8>) -> Option<nat>
    decreases s.len(),
{
    if s.len() == 0 {
        None
    } else if is_break(s[0]) {
        Some(0)
    } else {
        match break_pos(s.drop_first()) {
            None => None,
            Some(i) => Some((i + 1) as nat),
        }
    }
}

pub proof fn lemma_break_pos(s: Seq<u8>)
    ensures
        match break_pos(s) {
            None => forall|j: int| 0 <= j < s.len() ==> !is_break(s[j]),
            Some(i) => i < s.len() && is_break(s[i as int]) && forall|j: int|
                0 <= j < i ==> !is_break(s[j]),
        },
    decreases s.len(),
{
    if s.len() == 0 {
    } else if is_break(s[0]) {
    } else {
        lemma_break_pos(s.drop_first());
        match break_pos(s.drop_first()) {
            None => {
                assert forall|j: int| 0 <= j < s.len() implies !is_break(s[j]) by {
                    if j > 0 {
                        assert(s.drop_first()[j - 1] == s[j]);
                    }
                }
            },
            Some(i) => {
                assert(s.drop_first()[i as int] == s[i as int + 1]);
                assert forall|j: int| 0 <= j < i + 1 implies !is_break(s[j]) by {
                    if j > 0 {
                        assert(s.drop_first()[j - 1] == s[j]);
                    }
                }
            },
        }
    }
}

/// The complete line at the head of the buffer together with the bytes after
/// its terminator, or `None` when no complete line is buffered yet.
pub open spec fn head_line(s: Seq<u8>, closed: bool) -> Option<(Seq<u8>, Seq<u8>)> {
    match break_pos(s) {
        None => None,
        Some(i) => {
            let i = i as int;
            if s[i] == 0x0a {
                Some((s.take(i), s.skip(i + 1)))
            } else if i + 1 < s.len() {
                if s[i + 1] == 0x0a {
                    Some((s.take(i), s.skip(i + 2)))
                } else {
                    Some((s.take(i), s.skip(i + 1)))
                }
            } else if closed {
                Some((s.take(i), s.skip(i + 1)))
            } else {
                None
            }
        },
    }
}

/// The field name `data`, as bytes.
pub open spec fn data_label() -> Seq<u8> {
    seq![0x64u8, 0x61u8, 0x74u8, 0x61u8]
}

/// A line carrying the `data` field: either the bare name, or the name
/// followed by a colon.
pub open spec fn is_data_line(line: Seq<u8>) -> bool {
    ||| line == data_label()
    ||| (line.len() >= 5 && line.take(4) == data_label() && line[4] == 0x3a)
}

/// The value of a `data` line: the bytes after the colon, less one leading
/// space if present; the bare name carries an empty value.
pub open spec fn data_value(line: Seq<u8>) -> Seq<u8>
    recommends
        is_data_line(line),
{
    if line.len() <= 4 {
        Seq::empty()
    } else if line.len() >= 6 && line[5] == 0x20 {
        line.skip(6)
    } else {
        line.skip(5)
    }
}

/// The event being assembled: the data gathered so far, and whether any
/// `data` line has been seen.
#[verifier::ext_equal]
pub struct EventAccum {
    pub data: Seq<u8>,
    pub have: bool,
}

/// What one complete line does to the event being assembled, and the payload
/// it dispatches, if any. A blank line dispatches the gathered data — or
/// nothing, when the event had no `data` line; a `data` line appends its
/// value, joined with LF; any other line is ignored.
pub open spec fn line_step(acc: EventAccum, line: Seq<u8>) -> (EventAccum, Option<Seq<u8>>) {
    if line.len() == 0 {
        if acc.have {
            (EventAccum { data: Seq::empty(), have: false }, Some(acc.data))
        } else {
            (acc, None)
        }
    } else if is_data_line(line) {
        if acc.have {
            (EventAccum { data: acc.data + seq![0x0au8] + data_value(line), have: true }, None)
        } else {
            (EventAccum { data: data_value(line), have: true }, None)
        }
    } else {
        (acc, None)
    }
}

/// The decoder's abstract state: buffered bytes not yet forming a complete
/// line, the event being assembled, and the payloads ready to hand out.
#[verifier::ext_equal]
pub struct DecoderModel {
    pub buf: Seq<u8>,
    pub acc: EventAccum,
    pub out: Seq<Seq<u8>>,
}

/// Process every complete buffered line.
pub open spec fn drain(m: DecoderModel, closed: bool) -> DecoderModel
    decreases m.buf.len(),
{
    match head_line(m.buf, closed) {
        None => m,
        Some((line, rest)) => {
            proof {
                lemma_break_pos(m.buf);
            }
            let (acc, emitted) = line_step(m.acc, line);
            drain(
                DecoderModel {
                    buf: rest,
                    acc,
                    out: match emitted {
                        Some(f) => m.out.push(f),
                        None => m.out,
                    },
                },
                closed,
            )
        },
    }
}

/// Feeding bytes to a decoder: append them, then process every complete
/// line.
pub open spec fn feed(m: DecoderModel, bytes: Seq<u8>) -> DecoderModel {
    drain(DecoderModel { buf: m.buf + bytes, acc: m.acc, out: m.out }, false)
}

proof fn lemma_break_pos_append(x: Seq<u8>, y: Seq<u8>)
    ensures
        break_pos(x) matches Some(i) ==> break_pos(x + y) == Some(i),
    decreases x.len(),
{
    if x.len() == 0 {
    } else if is_break(x[0]) {
        assert((x + y)[0] == x[0]);
    } else {
        lemma_break_pos_append(x.drop_first(), y);
        assert((x + y)[0] == x[0]);
        assert((x + y).drop_first() =~= x.drop_first() + y);
    }
}

proof fn lemma_head_line_append(x: Seq<u8>, y: Seq<u8>)
    ensures
        head_line(x, false) matches Some(p) ==> head_line(x + y, false) == Some((p.0, p.1 + y)),
{
    lemma_break_pos(x);
    lemma_break_pos_append(x, y);
    match break_pos(x) {
        None => {},
        Some(i) => {
            let i = i as int;
            assert((x + y)[i] == x[i]);
            if x[i] == 0x0a {
                assert((x + y).take(i) =~= x.take(i));
                assert((x + y).skip(i + 1) =~= x.skip(i + 1) + y);
            } else if i + 1 < x.len() {
                assert((x + y)[i + 1] == x[i + 1]);
                assert((x + y).take(i) =~= x.take(i));
                assert((x + y).skip(i + 1) =~= x.skip(i + 1) + y);
                assert((x + y).skip(i + 2) =~= x.skip(i + 2) + y);
            }
        },
    }
}

proof fn lemma_drain_append(m: DecoderModel, y: Seq<u8>)
    ensures
        drain(DecoderModel { buf: m.buf + y, acc: m.acc, out: m.out }, false) == drain(
            DecoderModel {
                buf: drain(m, false).buf + y,
                acc: drain(m, false).acc,
                out: drain(m, false).out,
            },
            false,
        ),
    decreases m.buf.len(),
{
    match head_line(m.buf, false) {
        None => {},
        Some((line, rest)) => {
            lemma_break_pos(m.buf);
            lemma_head_line_append(m.buf, y);
            let stepped = line_step(m.acc, line);
            let next = DecoderModel {
                buf: rest,
                acc: stepped.0,
                out: match stepped.1 {
                    Some(f) => m.out.push(f),
                    None => m.out,
                },
            };
            assert(drain(m, false) == drain(next, false));
            assert(head_line(m.buf + y, false) == Some((line, rest + y)));
            assert(drain(DecoderModel { buf: m.buf + y, acc: m.acc, out: m.out }, false) == drain(
                DecoderModel { buf: next.buf + y, acc: next.acc, out: next.out },
                false,
            ));
            lemma_drain_append(next, y);
        },
    }
}

/// Chunking invariance: however the byte stream is cut into chunks, feeding
/// the pieces one after the other leaves the decoder exactly where feeding
/// the whole would have. Buffering across chunk boundaries loses nothing and
/// invents nothing.
pub proof fn lemma_feed_split(m: DecoderModel, a: Seq<u8>, b: Seq<u8>)
    ensures
        feed(feed(m, a), b) == feed(m, a + b),
{
    let ma = DecoderModel { buf: m.buf + a, acc: m.acc, out: m.out };
    lemma_drain_append(ma, b);
    assert(ma.buf + b =~= m.buf + (a + b));
    assert(DecoderModel { buf: ma.buf + b, acc: ma.acc, out: ma.out } == DecoderModel {
        buf: m.buf + (a + b),
        acc: m.acc,
        out: m.out,
    });
}

/// The byte views of a queue of payloads.
pub open spec fn views_of(out: Seq<Vec<u8>>) -> Seq<Seq<u8>> {
    Seq::new(out.len(), |i: int| out[i]@)
}

/// The framing fault: the stream closed in the middle of a frame — either a
/// line without a terminator, or an event without its blank line.
#[derive(Clone, Debug)]
pub struct FrameDecodeError {
    /// Bytes of an unterminated final line.
    pub pending: Vec<u8>,
    /// Data gathered for an event that never ended.
    pub partial_data: Vec<u8>,
}

fn clone_bytes(v: &Vec<u8>) -> (r: Vec<u8>)
    ensures
        r@ == v@,
{
    let mut r: Vec<u8> = Vec::new();
    let mut i: usize = 0;
    while i < v.len()
        invariant
            i <= v@.len(),
            r@ == v@.subrange(0, i as int),
        decreases v@.len() - i,
    {
        r.push(v[i]);
        proof {
            assert(r@ =~= v@.subrange(0, i + 1));
        }
        i = i + 1;
    }
    proof {
        assert(r@ =~= v@);
    }
    r
}

/// An incremental decoder for the event framing: bytes go in in arbitrary
/// chunks, whole event payloads come out.
pub struct FrameDecoder {
    buf: Vec<u8>,
    data: Vec<u8>,
    have_data: bool,
    out: Vec<Vec<u8>>,
}

impl FrameDecoder {
    pub closed spec fn model(&self) -> DecoderModel {
        DecoderModel {
            buf: self.buf@,
            acc: EventAccum { data: self.data@, have: self.have_data },
            out: views_of(self.out@),
        }
    }

    /// The decoder keeps no complete line buffered, and no data without
    /// having seen a `data` line.
    pub closed spec fn wf(&self) -> bool {
        &&& head_line(self.buf@, false) is None
        &&& (!self.have_data ==> self.data@ == Seq::<u8>::empty())
    }

    pub fn new() -> (r: Self)
        ensures
            r.wf(),
            r.model() == (DecoderModel {
                buf: Seq::<u8>::empty(),
                acc: EventAccum { data: Seq::<u8>::empty(), have: false },
                out: Seq::<Seq<u8>>::empty(),
            }),
    {
        let r = FrameDecoder {
            buf: Vec::new(),
            data: Vec::new(),
            have_data: false,
            out: Vec::new(),
        };
        proof {
            assert(r.model().out =~= Seq::<Seq<u8>>::empty());
            assert(r.model() =~= (DecoderModel {
                buf: Seq::<u8>::empty(),
                acc: EventAccum { data: Seq::<u8>::empty(), have: false },
                out: Seq::<Seq<u8>>::empty(),
            }));
        }
        r
    }

    /// Hand the decoder the next chunk of the byte stream.
    pub fn push_bytes(&mut self, bytes: &[u8])
        requires
            old(self).wf(),
        ensures
            final(self).wf(),
            final(self).model() == feed(old(self).model(), bytes@),
    {
        self.buf.extend_from_slice(bytes);
        proof {
            assert(self.model() =~= (DecoderModel {
                buf: old(self).model().buf + bytes@,
                acc: old(self).model().acc,
                out: old(self).model().out,
            }));
        }
        self.drain_lines(false);
    }

    /// The oldest decoded payload, if one is ready.
    pub fn next_frame(&mut self) -> (r: Option<Vec<u8>>)
        ensures
            final(self).wf() == old(self).wf(),
            match r {
                Some(f) => old(self).model().out.len() > 0 && f@ == old(self).model().out[0]
                    && final(self).model() == (DecoderModel {
                    out: old(self).model().out.drop_first(),
                    ..old(self).model()
                }),
                None => old(self).model().out.len() == 0 && *final(self) == *old(self),
            },
    {
        if self.out.len() == 0 {
            proof {
                assert(self.model().out.len() == 0);
            }
            None
        } else {
            let f = self.out.remove(0);
            proof {
                assert(f@ == old(self).model().out[0]);
                assert(self.model().out =~= old(self).model().out.drop_first());
                assert(self.model() == (DecoderModel {
                    out: old(self).model().out.drop_first(),
                    ..old(self).model()
                }));
            }
            Some(f)
        }
    }

    /// Mark the end of the byte stream. A trailing line whose terminator was
    /// still ambiguous is processed now; payloads it completes are handed out
    /// through `next_frame` as usual. Returns an error exactly when the
    /// stream closed mid-frame: an unterminated line, or an event that never
    /// reached its blank line.
    pub fn finish(&mut self) -> (r: Result<(), FrameDecodeError>)
        requires
            old(self).wf(),
        ensures
            final(self).model() == drain(old(self).model(), true),
            r is Ok <==> (drain(old(self).model(), true).buf.len() == 0 && !drain(
                old(self).model(),
                true,
            ).acc.have),
            r matches Err(e) ==> e.pending@ == drain(old(self).model(), true).buf
                && e.partial_data@ == drain(old(self).model(), true).acc.data,
    {
        self.drain_lines(true);
        if self.buf.len() == 0 && !self.have_data {
            Ok(())
        } else {
            let pending = clone_bytes(&self.buf);
            let partial_data = clone_bytes(&self.data);
            Err(FrameDecodeError { pending, partial_data })
        }
    }

    /// Process every complete buffered line.
    fn drain_lines(&mut self, closed: bool)
        requires
            !old(self).have_data ==> old(self).data@ == Seq::<u8>::empty(),
        ensures
            final(self).model() == drain(old(self).model(), closed),
            head_line(final(self).buf@, closed) is None,
            !final(self).have_data ==> final(self).data@ == Seq::<u8>::empty(),
    {
        loop
            invariant
                drain(self.model(), closed) == drain(old(self).model(), closed),
                !self.have_data ==> self.data@ == Seq::<u8>::empty(),
            ensures
                head_line(self.buf@, closed) is None,
            decreases self.buf@.len(),
        {
            let ghost pre = self.model();
            proof {
                lemma_break_pos(self.buf@);
            }
            // Find the first line break.
            let n = self.buf.len();
            let mut i: usize = 0;
            while i < n && self.buf[i] != 0x0a && self.buf[i] != 0x0d
                invariant
                    n == self.buf@.len(),
                    i <= n,
                    self.model() == pre,
                    forall|j: int| 0 <= j < i ==> !is_break(self.buf@[j]),
                decreases n - i,
            {
                i = i + 1;
            }
            if i == n {
                // No break at all: nothing more to process.
                proof {
                    match break_pos(self.buf@) {
                        None => {},
                        Some(p) => {
                            assert(is_break(self.buf@[p as int]));
                            assert(false);
                        },
                    }
                }
                break ;
            }
            proof {
                assert(is_break(self.buf@[i as int]));
                match break_pos(self.buf@) {
                    None => {
                        assert(false);
                    },
                    Some(p) => {
                        if p < i {
                            assert(!is_break(self.buf@[p as int]));
                            assert(false);
                        }
                        if i < p {
                            assert(!is_break(self.buf@[i as int]));
                            assert(false);
                        }
                    },
                }
                assert(break_pos(self.buf@) == Some(i as nat));
            }
            // How many bytes the terminator takes, or stop on an ambiguous
            // trailing CR.
            let mut consumed: usize = i + 1;
            if self.buf[i] == 0x0a {
            } else if i + 1 < n {
                if self.buf[i + 1] == 0x0a {
                    consumed = i + 2;
                }
            } else if !closed {
                proof {
                    assert(head_line(self.buf@, false) is None);
                }
                break ;
            }
            let ghost line = self.buf@.take(i as int);
            let ghost rest = self.buf@.skip(consumed as int);
            let ghost stepped = line_step(pre.acc, line);
            proof {
                assert(head_line(self.buf@, closed) == Some((line, rest)));
            }
            // Interpret the line.
            if i == 0 {
                // Blank line: dispatch the event, if it had data.
                proof {
                    assert(line.len() == 0);
                }
                if self.have_data {
                    let mut d: Vec<u8> = Vec::new();
                    core::mem::swap(&mut d, &mut self.data);
                    self.out.push(d);
                    self.have_data = false;
                    proof {
                        assert(views_of(self.out@) =~= pre.out.push(pre.acc.data));
                    }
                }
            } else {
                let is_data = i >= 4 && self.buf[0] == 0x64 && self.buf[1] == 0x61 && self.buf[2]
                    == 0x74 && self.buf[3] == 0x61 && (i == 4 || self.buf[4] == 0x3a);
                proof {
                    assert(line.len() == i);
                    if is_data {
                        if i == 4 {
                            assert(line =~= data_label());
                        } else {
                            assert(line.take(4) =~= data_label());
                            assert(line[4] == 0x3a);
                        }
                        assert(is_data_line(line));
                    } else {
                        if line == data_label() {
                            assert(line.len() == 4);
                            assert(line[0] == 0x64 && line[1] == 0x61 && line[2] == 0x74 && line[3]
                                == 0x61);
                            assert(false);
                        }
                        if line.len() >= 5 && line.take(4) == data_label() && line[4] == 0x3a {
                            assert(line.take(4)[0] == 0x64 && line.take(4)[1] == 0x61 && line.take(
                                4,
                            )[2] == 0x74 && line.take(4)[3] == 0x61);
                            assert(false);
                        }
                        assert(!is_data_line(line));
                    }
                }
                if is_data {
                    // Append the value of the data line.
                    let start: usize;
                    if i == 4 {
                        start = 4;
                    } else if i >= 6 && self.buf[5] == 0x20 {
                        start = 6;
                    } else {
                        start = 5;
                    }
                    proof {
                        assert(line.skip(start as int) =~= self.buf@.subrange(
                            start as int,
                            i as int,
                        ));
                        assert(data_value(line) =~= self.buf@.subrange(start as int, i as int));
                    }
                    if self.have_data {
                        self.data.push(0x0a);
                    }
                    let ghost joined = self.data@;
                    let ghost out_snap = self.out@;
                    let mut k: usize = start;
                    while k < i
                        invariant
                            start <= k <= i <= n,
                            n == self.buf@.len(),
                            self.data@ == joined + self.buf@.subrange(start as int, k as int),
                            self.buf@ == pre.buf,
                            self.out@ == out_snap,
                        decreases i - k,
                    {
                        let byte = self.buf[k];
                        self.data.push(byte);
                        proof {
                            assert(self.data@ =~= joined + self.buf@.subrange(
                                start as int,
                                k + 1,
                            ));
                        }
                        k = k + 1;
                    }
                    self.have_data = true;
                    proof {
                        if pre.acc.have {
                            assert(joined =~= pre.acc.data + seq![0x0au8]);
                            assert(self.data@ =~= pre.acc.data + seq![0x0au8] + data_value(line));
                        } else {
                            assert(joined =~= Seq::<u8>::empty());
                            assert(self.data@ =~= data_value(line));
                        }
                    }
                }
            }
            // Drop the consumed line from the buffer.
            let ghost data_snap = self.data@;
            let ghost have_snap = self.have_data;
            let ghost out_snap = self.out@;
            let mut tail: Vec<u8> = Vec::new();
            let mut k: usize = consumed;
            while k < n
                invariant
                    consumed <= k <= n,
                    n == self.buf@.len(),
                    self.buf@ == pre.buf,
                    self.data@ == data_snap,
                    self.have_data == have_snap,
                    self.out@ == out_snap,
                    tail@ == self.buf@.subrange(consumed as int, k as int),
                decreases n - k,
            {
                let byte = self.buf[k];
                tail.push(byte);
                proof {
                    assert(tail@ =~= self.buf@.subrange(consumed as int, k + 1));
                }
                k = k + 1;
            }
            self.buf = tail;
            proof {
                assert(self.buf@ =~= rest);
                let next = DecoderModel {
                    buf: rest,
                    acc: stepped.0,
                    out: match stepped.1 {
                        Some(f) => pre.out.push(f),
                        None => pre.out,
                    },
                };
                assert(self.model().acc =~= next.acc);
                assert(self.model().out =~= next.out);
                assert(self.model() =~= next);
                assert(drain(pre, closed) == drain(next, closed));
            }
        }
    }
}

} // verus!
