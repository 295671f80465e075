use vstd::prelude::*;

use crate::json::{
    as_text, get_element, get_field, is_null, is_object, json_doc, parse_document, value_model,
    JsonModel,
};

verus! {

/// The classification faults of a payload that carries no usable delta.
#[derive(Clone, Copy, PartialEq, Eq, Structural, Debug)]
pub enum ChunkFault {
    /// The payload is not a JSON document at all.
    NotJson,
    /// The payload is a JSON document, but neither a streaming chunk nor a
    /// recognized control frame.
    UnrecognizedShape,
}

/// A payload that could not be interpreted, kept with the (trimmed) bytes it
/// came from for diagnostics.
#[derive(Clone, Debug)]
pub struct ChunkParseError {
    pub kind: ChunkFault,
    pub payload: Vec<u8>,
}

/// One interpreted frame payload: an incremental content fragment, the end of
/// the stream, or a fault. A payload may also produce no event at all (a
/// control frame, or a chunk without content), in which case the extractor
/// returns `None` rather than a `DeltaEvent`.
#[derive(Clone, Debug)]
pub enum DeltaEvent {
    Content(String),
    End,
    Error(ChunkParseError),
}

/// Spec-level counterpart of what `extract_delta` does with one payload.
pub enum FrameClass {
    Fragment(Seq<char>),
    Finished,
    Dropped,
    Faulted(ChunkFault),
}

pub open spec fn is_ws_byte(b: u8) -> bool {
    b == 0x20 || b == 0x09 || b == 0x0a || b == 0x0d
}

/// Length of the longest all-whitespace prefix.
pub open spec fn lead_ws(s: Seq<u8>) -> nat
    decreases s.len(),
{
    if s.len() > 0 && is_ws_byte(s[0]) {
        (1 + lead_ws(s.drop_first())) as nat
    } else {
        0
    }
}

/// Length of the longest all-whitespace suffix.
pub open spec fn tail_ws(s: Seq<u8>) -> nat
    decreases s.len(),
{
    if s.len() > 0 && is_ws_byte(s[s.len() - 1]) {
        (1 + tail_ws(s.drop_last())) as nat
    } else {
        0
    }
}

/// The payload with leading and trailing whitespace removed.
pub open spec fn trimmed(s: Seq<u8>) -> Seq<u8> {
    if lead_ws(s) == s.len() {
        Seq::empty()
    } else {
        s.subrange(lead_ws(s) as int, s.len() - tail_ws(s))
    }
}

/// The terminal sentinel `[DONE]`, as bytes.
pub open spec fn sentinel() -> Seq<u8> {
    seq![0x5bu8, 0x44u8, 0x4fu8, 0x4eu8, 0x45u8, 0x5du8]
}

pub open spec fn str_or_null(m: JsonModel) -> bool {
    m is Str || m is Null
}

/// The delta object of a canonical chunk: `content` and `role` may be absent
/// or null, and are strings when present.
pub open spec fn delta_shape(m: JsonModel) -> bool {
    &&& m is Obj
    &&& m->Obj_0.contains_key("content"@) ==> str_or_null(m->Obj_0["content"@])
    &&& m->Obj_0.contains_key("role"@) ==> str_or_null(m->Obj_0["role"@])
}

/// The first element of a canonical chunk's `choices`: an object with a
/// `delta` object; `finish_reason` may be absent, null, or a string.
pub open spec fn choice_shape(m: JsonModel) -> bool {
    &&& m is Obj
    &&& m->Obj_0.contains_key("delta"@)
    &&& delta_shape(m->Obj_0["delta"@])
    &&& m->Obj_0.contains_key("finish_reason"@) ==> str_or_null(m->Obj_0["finish_reason"@])
}

/// The canonical streaming-chunk schema: an object whose `choices` is a
/// non-empty array whose first element is a well-shaped choice.
pub open spec fn chunk_shape(m: JsonModel) -> bool {
    &&& m is Obj
    &&& m->Obj_0.contains_key("choices"@)
    &&& m->Obj_0["choices"@] is Arr
    &&& m->Obj_0["choices"@]->Arr_0.len() >= 1
    &&& choice_shape(m->Obj_0["choices"@]->Arr_0[0])
}

/// The content fragment carried by a canonical chunk, if any.
pub open spec fn chunk_content(m: JsonModel) -> Option<Seq<char>>
    recommends
        chunk_shape(m),
{
    let delta = m->Obj_0["choices"@]->Arr_0[0]->Obj_0["delta"@];
    if delta->Obj_0.contains_key("content"@) && delta->Obj_0["content"@] is Str {
        Some(delta->Obj_0["content"@]->Str_0)
    } else {
        None
    }
}

/// A recognized ignorable control frame: an object whose `type` is the
/// string `ping`.
pub open spec fn ping_shape(m: JsonModel) -> bool {
    &&& m is Obj
    &&& m->Obj_0.contains_key("type"@)
    &&& m->Obj_0["type"@] == JsonModel::Str("ping"@)
}

/// What one decoded payload means: trim it; the sentinel ends the stream; a
/// canonical chunk carries its fragment (or nothing); a ping is dropped; any
/// other JSON document is an unrecognized shape; anything else is not JSON.
pub open spec fn classify_frame(payload: Seq<u8>) -> FrameClass {
    let t = trimmed(payload);
    if t == sentinel() {
        FrameClass::Finished
    } else {
        match json_doc(t) {
            None => FrameClass::Faulted(ChunkFault::NotJson),
            Some(m) => if chunk_shape(m) {
                match chunk_content(m) {
                    Some(c) => FrameClass::Fragment(c),
                    None => FrameClass::Dropped,
                }
            } else if ping_shape(m) {
                FrameClass::Dropped
            } else {
                FrameClass::Faulted(ChunkFault::UnrecognizedShape)
            },
        }
    }
}

proof fn lemma_lead_ws(s: Seq<u8>)
    ensures
        lead_ws(s) <= s.len(),
        forall|i: int| 0 <= i < lead_ws(s) ==> is_ws_byte(s[i]),
        lead_ws(s) < s.len() ==> !is_ws_byte(s[lead_ws(s) as int]),
    decreases s.len(),
{
    if s.len() > 0 && is_ws_byte(s[0]) {
        lemma_lead_ws(s.drop_first());
        assert forall|i: int| 0 <= i < lead_ws(s) implies is_ws_byte(s[i]) by {
            if i > 0 {
                assert(s.drop_first()[i - 1] == s[i]);
            }
        }
    }
}

proof fn lemma_tail_ws(s: Seq<u8>)
    ensures
        tail_ws(s) <= s.len(),
        forall|i: int| s.len() - tail_ws(s) <= i < s.len() ==> is_ws_byte(s[i]),
        tail_ws(s) < s.len() ==> !is_ws_byte(s[s.len() - tail_ws(s) - 1]),
    decreases s.len(),
{
    if s.len() > 0 && is_ws_byte(s[s.len() - 1]) {
        lemma_tail_ws(s.drop_last());
        assert forall|i: int| s.len() - tail_ws(s) <= i < s.len() implies is_ws_byte(
            s[i],
        ) by {
            if i < s.len() - 1 {
                assert(s.drop_last()[i] == s[i]);
            }
        }
    }
}

fn is_ws(b: u8) -> (r: bool)
    ensures
        r == is_ws_byte(b),
{
    b == 0x20 || b == 0x09 || b == 0x0a || b == 0x0d
}

/// Remove leading and trailing whitespace from a payload.
fn trim_bytes(s: &[u8]) -> (r: Vec<u8>)
    ensures
        r@ == trimmed(s@),
{
    proof {
        lemma_lead_ws(s@);
        lemma_tail_ws(s@);
    }
    let n = s.len();
    let mut a: usize = 0;
    while a < n && is_ws(s[a])
        invariant
            n == s@.len(),
            a <= n,
            forall|i: int| 0 <= i < a ==> is_ws_byte(s@[i]),
        decreases n - a,
    {
        a = a + 1;
    }
    proof {
        // a is the first non-whitespace position, which pins it to lead_ws.
        if a < lead_ws(s@) {
            assert(!is_ws_byte(s@[a as int]));
            assert(is_ws_byte(s@[a as int]));
        }
        if lead_ws(s@) < a {
            assert(is_ws_byte(s@[lead_ws(s@) as int]));
        }
        assert(a == lead_ws(s@));
    }
    let mut b: usize = n;
    while b > a && is_ws(s[b - 1])
        invariant
            n == s@.len(),
            a <= b <= n,
            forall|i: int| b <= i < n ==> is_ws_byte(s@[i]),
        decreases b,
    {
        b = b - 1;
    }
    let mut r: Vec<u8> = Vec::new();
    let mut i: usize = a;
    while i < b
        invariant
            a <= i <= b <= n,
            n == s@.len(),
            r@ == s@.subrange(a as int, i as int),
        decreases b - i,
    {
        r.push(s[i]);
        proof {
            assert(r@ == s@.subrange(a as int, i + 1));
        }
        i = i + 1;
    }
    proof {
        if a == n {
            assert(trimmed(s@) == Seq::<u8>::empty());
            assert(r@ =~= trimmed(s@));
        } else {
            // b is one past the last non-whitespace position, which pins it
            // to the end used by trimmed.
            assert(!is_ws_byte(s@[a as int]));
            if b > a {
                assert(!is_ws_byte(s@[b - 1]));
            } else {
                assert(b == a);
                assert(is_ws_byte(s@[a as int]));
            }
            let e = s@.len() - tail_ws(s@);
            if b < e {
                assert(is_ws_byte(s@[b as int]));
                assert(b < s@.len());
            }
            if e < b {
                assert(tail_ws(s@) < s@.len());
                assert(!is_ws_byte(s@[e - 1]));
                assert(is_ws_byte(s@[e - 1]));
            }
            assert(b == e);
            assert(r@ =~= trimmed(s@));
        }
    }
    r
}

fn is_sentinel(t: &Vec<u8>) -> (r: bool)
    ensures
        r == (t@ == sentinel()),
{
    let r = t.len() == 6 && t[0] == 0x5b && t[1] == 0x44 && t[2] == 0x4f && t[3] == 0x4e && t[4]
        == 0x45 && t[5] == 0x5d;
    proof {
        if r {
            assert(t@ =~= sentinel());
        }
    }
    r
}

/// Decide whether a parsed document is a canonical chunk and, if so, fetch
/// its content fragment. `None` means the document does not match the
/// canonical schema; `Some(c)` means it does, `c` being the fragment.
fn match_chunk(v: &serde_json::Value) -> (r: Option<Option<String>>)
    ensures
        match r {
            Some(c) => {
                &&& chunk_shape(value_model(*v))
                &&& match chunk_content(value_model(*v)) {
                    Some(cc) => c matches Some(s) && s@ == cc,
                    None => c is None,
                }
            },
            None => !chunk_shape(value_model(*v)),
        },
{
    let choices = match get_field(v, "choices") {
        Some(c) => c,
        None => {
            return None;
        },
    };
    let first = match get_element(choices, 0) {
        Some(f) => f,
        None => {
            return None;
        },
    };
    let delta = match get_field(first, "delta") {
        Some(d) => d,
        None => {
            return None;
        },
    };
    if !is_object(delta) {
        return None;
    }
    // `finish_reason` on the first choice must be absent, null, or a string.
    match get_field(first, "finish_reason") {
        Some(fr) => {
            if !(is_null(fr) || as_text(fr).is_some()) {
                return None;
            }
        },
        None => {},
    }
    // `role` in the delta must be absent, null, or a string.
    match get_field(delta, "role") {
        Some(role) => {
            if !(is_null(role) || as_text(role).is_some()) {
                return None;
            }
        },
        None => {},
    }
    match get_field(delta, "content") {
        Some(content) => {
            match as_text(content) {
                Some(text) => Some(Some(text.to_owned())),
                None => {
                    if is_null(content) {
                        Some(None)
                    } else {
                        None
                    }
                },
            }
        },
        None => Some(None),
    }
}

/// Decide whether a parsed document is a recognized ignorable control frame.
fn match_ping(v: &serde_json::Value) -> (r: bool)
    ensures
        r == ping_shape(value_model(*v)),
{
    match get_field(v, "type") {
        Some(tag) => {
            match as_text(tag) {
                Some(text) => {
                    let r = text.unicode_len() == 4 && text.get_char(0) == 'p' && text.get_char(1)
                        == 'i' && text.get_char(2) == 'n' && text.get_char(3) == 'g';
                    proof {
                        reveal_strlit("ping");
                        if r {
                            assert(text@ =~= "ping"@);
                        } else if text@ == "ping"@ {
                            assert(text@.len() == 4);
                        }
                    }
                    r
                },
                None => false,
            }
        },
        None => false,
    }
}

/// Interpret one decoded frame payload.
///
/// The payload is trimmed; the `[DONE]` sentinel yields `End`; a canonical
/// chunk yields its content fragment, or nothing when it carries none; a
/// recognized control frame yields nothing; any other JSON document, and
/// anything that is not JSON, yields an `Error` carrying the fault and the
/// trimmed payload.
pub fn extract_delta(payload: &[u8]) -> (r: Option<DeltaEvent>)
    ensures
        match classify_frame(payload@) {
            FrameClass::Fragment(c) => r matches Some(DeltaEvent::Content(s)) && s@ == c,
            FrameClass::Finished => r matches Some(DeltaEvent::End),
            FrameClass::Dropped => r is None,
            FrameClass::Faulted(k) => r matches Some(DeltaEvent::Error(e)) && e.kind == k
                && e.payload@ == trimmed(payload@),
        },
{
    let t = trim_bytes(payload);
    if is_sentinel(&t) {
        return Some(DeltaEvent::End);
    }
    let doc = match parse_document(t.as_slice()) {
        Some(d) => d,
        None => {
            return Some(
                DeltaEvent::Error(ChunkParseError { kind: ChunkFault::NotJson, payload: t }),
            );
        },
    };
    match match_chunk(&doc) {
        Some(Some(fragment)) => Some(DeltaEvent::Content(fragment)),
        Some(None) => None,
        None => {
            if match_ping(&doc) {
                None
            } else {
                Some(
                    DeltaEvent::Error(
                        ChunkParseError { kind: ChunkFault::UnrecognizedShape, payload: t },
                    ),
                )
            }
        },
    }
}

} // verus!
