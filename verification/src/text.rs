use vstd::prelude::*;
use vstd::utf8::encode_utf8;

verus! {

pub open spec fn is_ws_char(c: char) -> bool {
    c == ' ' || c == '\t' || c == '\n' || c == '\r'
}

pub open spec fn is_quote_char(c: char) -> bool {
    c == '"'
}

pub open spec fn ws_pred() -> spec_fn(char) -> bool {
    |c: char| is_ws_char(c)
}

pub open spec fn quote_pred() -> spec_fn(char) -> bool {
    |c: char| is_quote_char(c)
}

pub open spec fn slash_pred() -> spec_fn(char) -> bool {
    |c: char| c == '/'
}

/// Length of the longest prefix whose characters all satisfy `p`.
pub open spec fn lead_count(s: Seq<char>, p: spec_fn(char) -> bool) -> nat
    decreases s.len(),
{
    if s.len() > 0 && p(s[0]) {
        (1 + lead_count(s.drop_first(), p)) as nat
    } else {
        0
    }
}

/// Length of the longest suffix whose characters all satisfy `p`.
pub open spec fn tail_count(s: Seq<char>, p: spec_fn(char) -> bool) -> nat
    decreases s.len(),
{
    if s.len() > 0 && p(s.last()) {
        (1 + tail_count(s.drop_last(), p)) as nat
    } else {
        0
    }
}

/// The string with every leading and trailing character satisfying `p`
/// removed.
pub open spec fn trim_chars(s: Seq<char>, p: spec_fn(char) -> bool) -> Seq<char> {
    if lead_count(s, p) == s.len() {
        Seq::empty()
    } else {
        s.subrange(lead_count(s, p) as int, s.len() - tail_count(s, p))
    }
}

proof fn lemma_lead_count(s: Seq<char>, p: spec_fn(char) -> bool)
    ensures
        lead_count(s, p) <= s.len(),
        forall|i: int| 0 <= i < lead_count(s, p) ==> p(s[i]),
        lead_count(s, p) < s.len() ==> !p(s[lead_count(s, p) as int]),
    decreases s.len(),
{
    if s.len() > 0 && p(s[0]) {
        lemma_lead_count(s.drop_first(), p);
        assert forall|i: int| 0 <= i < lead_count(s, p) implies p(s[i]) by {
            if i > 0 {
                assert(s.drop_first()[i - 1] == s[i]);
            }
        }
    }
}

proof fn lemma_tail_count(s: Seq<char>, p: spec_fn(char) -> bool)
    ensures
        tail_count(s, p) <= s.len(),
        forall|i: int| s.len() - tail_count(s, p) <= i < s.len() ==> p(s[i]),
        tail_count(s, p) < s.len() ==> !p(s[s.len() - tail_count(s, p) - 1]),
    decreases s.len(),
{
    if s.len() > 0 && p(s.last()) {
        lemma_tail_count(s.drop_last(), p);
        assert forall|i: int| s.len() - tail_count(s, p) <= i < s.len() implies p(s[i]) by {
            if i < s.len() - 1 {
                assert(s.drop_last()[i] == s[i]);
            }
        }
    }
}

fn char_matches(c: char, quotes: bool) -> (r: bool)
    ensures
        r == if quotes {
            is_quote_char(c)
        } else {
            is_ws_char(c)
        },
{
    if quotes {
        c == '"'
    } else {
        c == ' ' || c == '\t' || c == '\n' || c == '\r'
    }
}

/// Remove every leading and trailing whitespace character (`quotes` false)
/// or double quote (`quotes` true).
fn trim_str<'a>(s: &'a str, quotes: bool) -> (r: &'a str)
    ensures
        r@ == trim_chars(
            s@,
            if quotes {
                quote_pred()
            } else {
                ws_pred()
            },
        ),
{
    let ghost p = if quotes {
        quote_pred()
    } else {
        ws_pred()
    };
    proof {
        lemma_lead_count(s@, p);
        lemma_tail_count(s@, p);
    }
    let n = s.unicode_len();
    let mut a: usize = 0;
    while a < n && char_matches(s.get_char(a), quotes)
        invariant
            n == s@.len(),
            a <= n,
            p == if quotes {
                quote_pred()
            } else {
                ws_pred()
            },
            forall|i: int| 0 <= i < a ==> p(s@[i]),
        decreases n - a,
    {
        proof {
            assert(p(s@[a as int]));
        }
        a = a + 1;
    }
    proof {
        if a < lead_count(s@, p) {
            assert(p(s@[a as int]));
        }
        if lead_count(s@, p) < a {
            assert(!p(s@[lead_count(s@, p) as int]));
        }
        assert(a == lead_count(s@, p));
    }
    if a == n {
        let r = s.substring_char(n, n);
        proof {
            assert(r@ =~= trim_chars(s@, p));
        }
        return r;
    }
    let mut b: usize = n;
    while b > a && char_matches(s.get_char(b - 1), quotes)
        invariant
            n == s@.len(),
            a <= b <= n,
            p == if quotes {
                quote_pred()
            } else {
                ws_pred()
            },
            forall|i: int| b <= i < n ==> p(s@[i]),
        decreases b,
    {
        proof {
            assert(p(s@[b - 1]));
        }
        b = b - 1;
    }
    proof {
        assert(!p(s@[a as int]));
        if b > a {
            assert(!p(s@[b - 1]));
        } else {
            assert(p(s@[a as int]));
        }
        let e = s@.len() - tail_count(s@, p);
        if b < e {
            assert(p(s@[b as int]));
        }
        if e < b {
            assert(tail_count(s@, p) < s@.len());
            assert(!p(s@[e - 1]));
            assert(p(s@[e - 1]));
        }
        assert(b == e);
    }
    let r = s.substring_char(a, b);
    proof {
        assert(r@ =~= trim_chars(s@, p));
    }
    r
}

/// Remove leading and trailing whitespace.
pub fn trim_ws(s: &str) -> (r: &str)
    ensures
        r@ == trim_chars(s@, ws_pred()),
{
    trim_str(s, false)
}

/// Whether the string holds nothing but whitespace.
pub fn trimmed_empty(s: &str) -> (r: bool)
    ensures
        r == (trim_chars(s@, ws_pred()).len() == 0),
{
    trim_str(s, false).is_empty()
}

/// A generated title after cleanup: whitespace trimmed, then any layer of
/// surrounding double quotes trimmed.
pub open spec fn sanitized_title(s: Seq<char>) -> Seq<char> {
    trim_chars(trim_chars(s, ws_pred()), quote_pred())
}

/// Clean up a generated title and hold it to the limits: it must be
/// non-empty and at most 30 bytes once cleaned, else it is rejected.
pub fn sanitize_title(raw: &str) -> (r: Option<String>)
    ensures
        match r {
            Some(t) => t@ == sanitized_title(raw@) && t@.len() > 0 && encode_utf8(t@).len() <= 30,
            None => sanitized_title(raw@).len() == 0 || encode_utf8(sanitized_title(raw@)).len()
                > 30,
        },
{
    let t1 = trim_str(raw, false);
    let t2 = trim_str(t1, true);
    if t2.is_empty() {
        return None;
    }
    if t2.as_bytes().len() > 30 {
        return None;
    }
    Some(t2.to_owned())
}

/// The first `n` characters, or the whole string when it is shorter.
pub open spec fn take_chars(s: Seq<char>, n: nat) -> Seq<char> {
    if s.len() <= n {
        s
    } else {
        s.take(n as int)
    }
}

/// Cut the string down to at most `limit` characters.
pub fn truncate_chars<'a>(s: &'a str, limit: usize) -> (r: &'a str)
    ensures
        r@ == take_chars(s@, limit as nat),
{
    let n = s.unicode_len();
    if n <= limit {
        s
    } else {
        let r = s.substring_char(0, limit);
        proof {
            assert(r@ =~= s@.take(limit as int));
        }
        r
    }
}

/// The endpoint of the chat-completions call under a base URL: trailing
/// slashes of the base are dropped, then the fixed path is appended.
pub fn chat_completions_url(base: &str) -> (r: String)
    ensures
        r@ == base@.take(base@.len() - tail_count(base@, slash_pred())) + "/chat/completions"@,
{
    proof {
        lemma_tail_count(base@, slash_pred());
    }
    let n = base.unicode_len();
    let mut b: usize = n;
    while b > 0 && base.get_char(b - 1) == '/'
        invariant
            n == base@.len(),
            b <= n,
            forall|i: int| b <= i < n ==> slash_pred()(base@[i]),
        decreases b,
    {
        b = b - 1;
    }
    proof {
        let p = slash_pred();
        let e = base@.len() - tail_count(base@, p);
        if b > 0 {
            assert(!p(base@[b - 1]));
        }
        if b < e {
            assert(p(base@[b as int]));
            assert(b > 0 || e > 0);
            if b == 0 {
                assert(p(base@[0]));
            }
        }
        if e < b {
            assert(tail_count(base@, p) < base@.len());
            assert(!p(base@[e - 1]));
            assert(p(base@[e - 1]));
        }
        assert(b == e);
    }
    let stem = base.substring_char(0, b);
    let mut u = stem.to_owned();
    u.append("/chat/completions");
    proof {
        assert(stem@ =~= base@.take(b as int));
    }
    u
}

} // verus!
