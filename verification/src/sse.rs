use vstd::prelude::*;

use vstd::utf8::{
    decode_utf8, decode_utf8_encode_utf8, encode_scalar, encode_utf8, encode_utf8_decode_utf8, valid_utf8,
    valid_utf8_concat,
};
use crate::text::{chars_of, has_prefix, starts_with, string_of, trim_chars, trimmed};

verus! {

/// The text that `String::from_utf8_lossy` decodes from some bytes.
pub uninterp spec fn utf8_lossy(bytes: Seq<u8>) -> Seq<char>;

/// Decodes bytes as UTF-8, replacing invalid sequences with U+FFFD, by
/// `String::from_utf8_lossy`. Trusted: the contract names the result, a
/// function of the bytes alone, and states what its documentation says of
/// valid UTF-8, which is decoded as it is, and so ASCII bytes one for one.
/// How invalid sequences are replaced is left unsaid.
#[verifier::external_body]
fn decode_lossy(bytes: &[u8]) -> (s: String)
    ensures
        s@ == utf8_lossy(bytes@),
        valid_utf8(bytes@) ==> s@ == decode_utf8(bytes@),
        (forall|i: int| 0 <= i < bytes@.len() ==> bytes@[i] < 128) ==> s@ == bytes@.map_values(
            |b: u8| b as char,
        ),
{
    String::from_utf8_lossy(bytes).into_owned()
}

/// The text that a piece of a streamed answer decodes to: the characters that
/// it encodes when it is valid UTF-8, else what `String::from_utf8_lossy` makes of it.
pub open spec fn bytes_text(bytes: Seq<u8>) -> Seq<char> {
    if valid_utf8(bytes) {
        decode_utf8(bytes)
    } else {
        utf8_lossy(bytes)
    }
}

/// The complete lines of `text` when `cur` is the start of the current line.
pub open spec fn lines_after(text: Seq<char>, cur: Seq<char>) -> Seq<Seq<char>>
    decreases text.len(),
{
    if text.len() == 0 {
        Seq::empty()
    } else if text[0] == '\n' {
        seq![cur] + lines_after(text.drop_first(), Seq::empty())
    } else {
        lines_after(text.drop_first(), cur.push(text[0]))
    }
}

/// What is left of the current line once `text` has been read after `cur`.
pub open spec fn rest_after(text: Seq<char>, cur: Seq<char>) -> Seq<char>
    decreases text.len(),
{
    if text.len() == 0 {
        cur
    } else if text[0] == '\n' {
        rest_after(text.drop_first(), Seq::empty())
    } else {
        rest_after(text.drop_first(), cur.push(text[0]))
    }
}

/// The JSON text that an event-stream line carries: the line is trimmed, and
/// it counts only when it begins with `data: ` and is not `data: [DONE]`.
pub open spec fn line_payload(line: Seq<char>) -> Option<Seq<char>> {
    let l = trimmed(line);
    if starts_with(l, "data: "@) {
        let d = l.subrange(6, l.len() as int);
        if d == "[DONE]"@ {
            None
        } else {
            Some(d)
        }
    } else {
        None
    }
}

/// The payloads of the given lines, in order.
pub open spec fn payloads(lines: Seq<Seq<char>>) -> Seq<Seq<char>>
    decreases lines.len(),
{
    if lines.len() == 0 {
        Seq::empty()
    } else {
        let init = payloads(lines.drop_last());
        match line_payload(lines.last()) {
            Some(p) => init.push(p),
            None => init,
        }
    }
}

/// Splits a streamed answer into the JSON payloads of its `data:` lines. A line
/// may arrive in pieces; the decoder keeps the part of the current line read so far.
#[derive(Debug)]
pub struct SseDecoder {
    line: Vec<char>,
}

impl View for SseDecoder {
    type V = Seq<char>;

    closed spec fn view(&self) -> Seq<char> {
        self.line@
    }
}

/// The payload of a line, as a string.
pub fn payload_of_line(line: &Vec<char>) -> (r: Option<String>)
    ensures
        match r {
            Some(p) => line_payload(line@) == Some(p@),
            None => line_payload(line@) is None,
        },
{
    let l = trim_chars(line);
    if !has_prefix(&l, "data: ") {
        return None;
    }
    proof {
        reveal_strlit("data: ");
        assert("data: "@.len() == 6);
    }
    let mut d: Vec<char> = Vec::new();
    let mut k: usize = 6;
    while k < l.len()
        invariant
            6 <= k <= l.len(),
            d@ == l@.subrange(6, k as int),
        decreases l.len() - k,
    {
        d.push(l[k]);
        proof {
            assert(d@ =~= l@.subrange(6, k + 1));
        }
        k = k + 1;
    }
    let done: Vec<char> = chars_of("[DONE]");
    let mut same = d.len() == done.len();
    let mut q: usize = 0;
    while same && q < d.len()
        invariant
            q <= d.len(),
            same ==> d.len() == done.len(),
            same ==> forall|i: int| 0 <= i < q ==> d@[i] == done@[i],
            !same ==> d@ != done@,
        decreases d.len() - q,
    {
        if d[q] != done[q] {
            same = false;
        }
        q = q + 1;
    }
    if same {
        proof {
            assert(d@ =~= done@);
        }
        None
    } else {
        Some(string_of(&d))
    }
}

impl SseDecoder {
    /// A decoder at the start of a stream.
    pub fn new() -> (d: SseDecoder)
        ensures
            d@ == Seq::<char>::empty(),
    {
        SseDecoder { line: Vec::new() }
    }

    /// Reads more text: returns the payloads of the lines that it completes, in
    /// order, and keeps the start of the line that it leaves open.
    pub fn push_text(&mut self, text: &str) -> (out: Vec<String>)
        ensures
            out@.map_values(|p: String| p@) == payloads(lines_after(text@, old(self)@)),
            final(self)@ == rest_after(text@, old(self)@),
    {
        let cs = chars_of(text);
        let ghost t = cs@;
        let ghost cur0 = self@;
        let mut out: Vec<String> = Vec::new();
        let mut j: usize = 0;
        proof {
            assert(t.subrange(0, t.len() as int) =~= t);
        }
        while j < cs.len()
            invariant
                j <= cs.len(),
                t == cs@,
                t == text@,
                cur0 == old(self)@,
                payloads(lines_after(t, cur0)) == out@.map_values(|p: String| p@) + payloads(
                    lines_after(t.subrange(j as int, t.len() as int), self@),
                ),
                rest_after(t, cur0) == rest_after(t.subrange(j as int, t.len() as int), self@),
            decreases cs.len() - j,
        {
            let ghost suffix = t.subrange(j as int, t.len() as int);
            proof {
                assert(suffix.drop_first() =~= t.subrange(j + 1, t.len() as int));
            }
            let c = cs[j];
            if c == '\n' {
                let ghost line = self@;
                let ghost before = out@.map_values(|p: String| p@);
                proof {
                    lemma_payloads_prepend(line, lines_after(suffix.drop_first(), Seq::empty()));
                }
                match payload_of_line(&self.line) {
                    Some(p) => {
                        out.push(p);
                        proof {
                            assert(out@.map_values(|p: String| p@) =~= before.push(p@));
                        }
                    },
                    None => {},
                }
                self.line = Vec::new();
                proof {
                    assert(self@ =~= Seq::<char>::empty());
                    let rest_lines = lines_after(suffix.drop_first(), Seq::empty());
                    match line_payload(line) {
                        Some(p) => {
                            assert(seq![p] + payloads(rest_lines) =~= seq![p] + payloads(rest_lines));
                            assert(before + (seq![p] + payloads(rest_lines)) =~= before.push(p) + payloads(
                                rest_lines,
                            ));
                        },
                        None => {},
                    }
                }
            } else {
                self.line.push(c);
            }
            j = j + 1;
        }
        proof {
            assert(t.subrange(t.len() as int, t.len() as int) =~= Seq::<char>::empty());
            assert(out@.map_values(|p: String| p@) + Seq::<Seq<char>>::empty() =~= out@.map_values(
                |p: String| p@,
            ));
        }
        out
    }

    /// Reads more bytes, decoded as `String::from_utf8_lossy` does.
    pub fn push_bytes(&mut self, bytes: &[u8]) -> (out: Vec<String>)
        ensures
            out@.map_values(|p: String| p@) == payloads(lines_after(bytes_text(bytes@), old(self)@)),
            final(self)@ == rest_after(bytes_text(bytes@), old(self)@),
    {
        let text = decode_lossy(bytes);
        self.push_text(text.as_str())
    }

    /// Ends the stream: the payload of the line left open, if it has one.
    pub fn finish(&mut self) -> (r: Option<String>)
        ensures
            match r {
                Some(p) => line_payload(old(self)@) == Some(p@),
                None => line_payload(old(self)@) is None,
            },
            final(self)@ == Seq::<char>::empty(),
    {
        let r = payload_of_line(&self.line);
        self.line = Vec::new();
        r
    }
}

proof fn lemma_payloads_prepend(l: Seq<char>, lines: Seq<Seq<char>>)
    ensures
        payloads(seq![l] + lines) == match line_payload(l) {
            Some(p) => seq![p] + payloads(lines),
            None => payloads(lines),
        },
    decreases lines.len(),
{
    if lines.len() == 0 {
        assert(seq![l] + lines =~= seq![l]);
        assert(seq![l].drop_last() =~= Seq::<Seq<char>>::empty());
        assert(payloads(lines) == Seq::<Seq<char>>::empty());
        assert(payloads(seq![l].drop_last()) == Seq::<Seq<char>>::empty());
        assert(seq![l].last() == l);
        match line_payload(l) {
            Some(p) => {
                assert(payloads(seq![l]) == Seq::<Seq<char>>::empty().push(p));
                assert(seq![p] + payloads(lines) =~= seq![p]);
                assert(Seq::<Seq<char>>::empty().push(p) =~= seq![p]);
            },
            None => {
                assert(payloads(seq![l]) == Seq::<Seq<char>>::empty());
            },
        }
    } else {
        lemma_payloads_prepend(l, lines.drop_last());
        let whole = seq![l] + lines;
        assert(whole.drop_last() =~= seq![l] + lines.drop_last());
        assert(whole.last() == lines.last());
        let pre = payloads(lines.drop_last());
        match line_payload(l) {
            Some(p) => {
                match line_payload(lines.last()) {
                    Some(q) => {
                        assert(payloads(whole) == (seq![p] + pre).push(q));
                        assert(payloads(lines) == pre.push(q));
                        assert((seq![p] + pre).push(q) =~= seq![p] + pre.push(q));
                    },
                    None => {
                        assert(payloads(whole) == seq![p] + pre);
                        assert(payloads(lines) == pre);
                    },
                }
            },
            None => {
                match line_payload(lines.last()) {
                    Some(q) => {
                        assert(payloads(whole) == pre.push(q));
                    },
                    None => {
                        assert(payloads(whole) == pre);
                    },
                }
            },
        }
    }
}

/// Payloads of concatenated lines are the concatenated payloads.
pub proof fn lemma_payloads_append(a: Seq<Seq<char>>, b: Seq<Seq<char>>)
    ensures
        payloads(a + b) == payloads(a) + payloads(b),
    decreases b.len(),
{
    if b.len() == 0 {
        assert(a + b =~= a);
        assert(payloads(a) + payloads(b) =~= payloads(a));
    } else {
        lemma_payloads_append(a, b.drop_last());
        assert((a + b).drop_last() =~= a + b.drop_last());
        assert((a + b).last() == b.last());
        match line_payload(b.last()) {
            Some(p) => {
                assert(payloads(a) + payloads(b.drop_last()).push(p) =~= (payloads(a) + payloads(
                    b.drop_last(),
                )).push(p));
            },
            None => {},
        }
    }
}

/// Reading `a` then `b` completes the same lines, and leaves the same open
/// line, as reading `a + b` at once.
pub proof fn lemma_lines_split(a: Seq<char>, b: Seq<char>, cur: Seq<char>)
    ensures
        lines_after(a + b, cur) == lines_after(a, cur) + lines_after(b, rest_after(a, cur)),
        rest_after(a + b, cur) == rest_after(b, rest_after(a, cur)),
    decreases a.len(),
{
    if a.len() == 0 {
        assert(a + b =~= b);
        assert(lines_after(a, cur) + lines_after(b, cur) =~= lines_after(b, cur));
    } else {
        assert((a + b)[0] == a[0]);
        assert((a + b).drop_first() =~= a.drop_first() + b);
        if a[0] == '\n' {
            lemma_lines_split(a.drop_first(), b, Seq::empty());
            assert(seq![cur] + (lines_after(a.drop_first(), Seq::empty()) + lines_after(
                b,
                rest_after(a.drop_first(), Seq::empty()),
            )) =~= seq![cur] + lines_after(a.drop_first(), Seq::empty()) + lines_after(
                b,
                rest_after(a.drop_first(), Seq::empty()),
            ));
        } else {
            lemma_lines_split(a.drop_first(), b, cur.push(a[0]));
        }
    }
}

/// However a streamed text is cut into pieces, the decoder gives the same
/// payloads and keeps the same open line as when it reads the text whole.
pub proof fn lemma_chunking_invariant(a: Seq<char>, b: Seq<char>, cur: Seq<char>)
    ensures
        payloads(lines_after(a, cur)) + payloads(lines_after(b, rest_after(a, cur))) == payloads(
            lines_after(a + b, cur),
        ),
        rest_after(b, rest_after(a, cur)) == rest_after(a + b, cur),
{
    lemma_lines_split(a, b, cur);
    lemma_payloads_append(lines_after(a, cur), lines_after(b, rest_after(a, cur)));
}

proof fn lemma_encode_utf8_concat(x: Seq<char>, y: Seq<char>)
    ensures
        encode_utf8(x + y) == encode_utf8(x) + encode_utf8(y),
    decreases x.len(),
{
    if x.len() == 0 {
        assert(x + y =~= y);
        assert(encode_utf8(x) + encode_utf8(y) =~= encode_utf8(y));
    } else {
        assert((x + y).drop_first() =~= x.drop_first() + y);
        assert((x + y)[0] == x[0]);
        lemma_encode_utf8_concat(x.drop_first(), y);
        assert(encode_utf8(x) + encode_utf8(y) =~= encode_scalar(x[0] as u32) + (encode_utf8(x.drop_first())
            + encode_utf8(y)));
    }
}

/// Valid UTF-8 decodes piece by piece: the text of two valid pieces joined is
/// the two texts joined.
pub proof fn lemma_decode_utf8_concat(a: Seq<u8>, b: Seq<u8>)
    requires
        valid_utf8(a),
        valid_utf8(b),
    ensures
        valid_utf8(a + b),
        decode_utf8(a + b) == decode_utf8(a) + decode_utf8(b),
{
    valid_utf8_concat(a, b);
    decode_utf8_encode_utf8(a);
    decode_utf8_encode_utf8(b);
    lemma_encode_utf8_concat(decode_utf8(a), decode_utf8(b));
    encode_utf8_decode_utf8(decode_utf8(a) + decode_utf8(b));
}

}
