use vstd::prelude::*;

verus! {

broadcast use vstd::string::group_string_axioms;

/// Appends one character to a string by `String::push`. Trusted: the contract
/// claims that the string afterwards holds its old characters followed by `c`,
/// as the documentation of `String::push` says.
#[verifier::external_body]
pub(crate) fn push_char(s: &mut String, c: char)
    ensures
        final(s)@ == old(s)@.push(c),
{
    s.push(c);
}

/// The characters of a string slice, in order.
pub fn chars_of(s: &str) -> (v: Vec<char>)
    ensures
        v@ == s@,
{
    let mut v: Vec<char> = Vec::new();
    for c in it: s.chars()
        invariant
            v@ == it.seq().take(it.index() as int),
    {
        v.push(c);
    }
    proof {
        assert(v@ =~= s@);
    }
    v
}

/// Appends the characters of `s`.
pub fn push_text(out: &mut String, s: &str)
    ensures
        final(out)@ == old(out)@ + s@,
{
    let cs = chars_of(s);
    let ghost start = out@;
    let mut i: usize = 0;
    while i < cs.len()
        invariant
            i <= cs.len(),
            cs@ == s@,
            out@ == start + cs@.take(i as int),
        decreases cs.len() - i,
    {
        push_char(out, cs[i]);
        proof {
            assert(cs@.take(i + 1) =~= cs@.take(i as int).push(cs@[i as int]));
            assert(start + cs@.take(i + 1) =~= (start + cs@.take(i as int)).push(cs@[i as int]));
        }
        i = i + 1;
    }
    proof {
        assert(cs@.take(cs@.len() as int) =~= cs@);
    }
}

/// A string holding exactly the given characters.
pub fn string_of(cs: &Vec<char>) -> (s: String)
    ensures
        s@ == cs@,
{
    let mut s = String::new();
    let mut i: usize = 0;
    while i < cs.len()
        invariant
            i <= cs.len(),
            s@ == cs@.take(i as int),
        decreases cs.len() - i,
    {
        push_char(&mut s, cs[i]);
        proof {
            assert(cs@.take(i + 1) =~= cs@.take(i as int).push(cs@[i as int]));
        }
        i = i + 1;
    }
    proof {
        assert(cs@.take(cs@.len() as int) =~= cs@);
    }
    s
}

/// Whether two string slices hold the same characters.
pub fn same_text(a: &str, b: &str) -> (r: bool)
    ensures
        r == (a@ == b@),
{
    let x = chars_of(a);
    let y = chars_of(b);
    if x.len() != y.len() {
        return false;
    }
    let mut i: usize = 0;
    while i < x.len()
        invariant
            i <= x.len(),
            x.len() == y.len(),
            x@ == a@,
            y@ == b@,
            forall|k: int| 0 <= k < i ==> x@[k] == y@[k],
        decreases x.len() - i,
    {
        if x[i] != y[i] {
            return false;
        }
        i = i + 1;
    }
    proof {
        assert(x@ =~= y@);
    }
    true
}


/// The decimal digit `d` (0..=9).
pub open spec fn digit_char(d: nat) -> char {
    if d == 0 {
        '0'
    } else if d == 1 {
        '1'
    } else if d == 2 {
        '2'
    } else if d == 3 {
        '3'
    } else if d == 4 {
        '4'
    } else if d == 5 {
        '5'
    } else if d == 6 {
        '6'
    } else if d == 7 {
        '7'
    } else if d == 8 {
        '8'
    } else {
        '9'
    }
}

/// The decimal writing of a natural number, without leading zeros.
pub open spec fn nat_text(n: nat) -> Seq<char>
    decreases n,
{
    if n < 10 {
        seq![digit_char(n)]
    } else {
        nat_text(n / 10).push(digit_char(n % 10))
    }
}

/// The decimal writing of an integer, with a leading `-` when it is negative.
pub open spec fn int_text(i: int) -> Seq<char> {
    if i < 0 {
        seq!['-'] + nat_text((-i) as nat)
    } else {
        nat_text(i as nat)
    }
}

fn digit(d: u64) -> (c: char)
    requires
        d < 10,
    ensures
        c == digit_char(d as nat),
{
    if d == 0 {
        '0'
    } else if d == 1 {
        '1'
    } else if d == 2 {
        '2'
    } else if d == 3 {
        '3'
    } else if d == 4 {
        '4'
    } else if d == 5 {
        '5'
    } else if d == 6 {
        '6'
    } else if d == 7 {
        '7'
    } else if d == 8 {
        '8'
    } else {
        '9'
    }
}

/// Appends the decimal writing of `n`.
pub fn push_u64_text(out: &mut String, n: u64)
    ensures
        final(out)@ == old(out)@ + nat_text(n as nat),
    decreases n,
{
    if n >= 10 {
        push_u64_text(out, n / 10);
    }
    push_char(out, digit(n % 10));
    proof {
        if n >= 10 {
            assert(old(out)@ + nat_text(n as nat) =~= old(out)@ + nat_text((n / 10) as nat) + seq![
                digit_char((n % 10) as nat),
            ]);
        } else {
            assert(old(out)@ + nat_text(n as nat) =~= old(out)@.push(digit_char((n % 10) as nat)));
        }
    }
}

/// Appends the decimal writing of `i`.
pub fn push_i64_text(out: &mut String, i: i64)
    ensures
        final(out)@ == old(out)@ + int_text(i as int),
{
    if i < 0 {
        push_char(out, '-');
        let magnitude: u64 = if i == i64::MIN {
            0x8000_0000_0000_0000
        } else {
            (-i) as u64
        };
        push_u64_text(out, magnitude);
        proof {
            assert(old(out)@ + int_text(i as int) =~= old(out)@.push('-') + nat_text(magnitude as nat));
        }
    } else {
        push_u64_text(out, i as u64);
    }
}

/// The lowercase hexadecimal digit `d` (0..=15).
pub open spec fn hex_char(d: nat) -> char {
    if d < 10 {
        digit_char(d)
    } else if d == 10 {
        'a'
    } else if d == 11 {
        'b'
    } else if d == 12 {
        'c'
    } else if d == 13 {
        'd'
    } else if d == 14 {
        'e'
    } else {
        'f'
    }
}

/// How a JSON string writes one character: `"` and `\` and the control
/// characters are escaped, short forms first, `\u00XX` for the others.
pub open spec fn escape_char(c: char) -> Seq<char> {
    if c == '"' {
        seq!['\\', '"']
    } else if c == '\\' {
        seq!['\\', '\\']
    } else if c == '\u{8}' {
        seq!['\\', 'b']
    } else if c == '\u{c}' {
        seq!['\\', 'f']
    } else if c == '\n' {
        seq!['\\', 'n']
    } else if c == '\r' {
        seq!['\\', 'r']
    } else if c == '\t' {
        seq!['\\', 't']
    } else if (c as u32) < 0x20 {
        seq!['\\', 'u', '0', '0', hex_char((c as u32 / 16) as nat), hex_char((c as u32 % 16) as nat)]
    } else {
        seq![c]
    }
}

/// The escaped body of a JSON string.
pub open spec fn escaped(s: Seq<char>) -> Seq<char>
    decreases s.len(),
{
    if s.len() == 0 {
        Seq::empty()
    } else {
        escaped(s.drop_last()) + escape_char(s.last())
    }
}

/// A JSON string literal holding `s`.
pub open spec fn quoted(s: Seq<char>) -> Seq<char> {
    seq!['"'] + escaped(s) + seq!['"']
}

fn hex(d: u32) -> (c: char)
    requires
        d < 16,
    ensures
        c == hex_char(d as nat),
{
    if d < 10 {
        digit(d as u64)
    } else if d == 10 {
        'a'
    } else if d == 11 {
        'b'
    } else if d == 12 {
        'c'
    } else if d == 13 {
        'd'
    } else if d == 14 {
        'e'
    } else {
        'f'
    }
}

fn push_escaped_char(out: &mut String, c: char)
    ensures
        final(out)@ == old(out)@ + escape_char(c),
{
    let code = c as u32;
    if c == '"' {
        push_char(out, '\\');
        push_char(out, '"');
    } else if c == '\\' {
        push_char(out, '\\');
        push_char(out, '\\');
    } else if c == '\u{8}' {
        push_char(out, '\\');
        push_char(out, 'b');
    } else if c == '\u{c}' {
        push_char(out, '\\');
        push_char(out, 'f');
    } else if c == '\n' {
        push_char(out, '\\');
        push_char(out, 'n');
    } else if c == '\r' {
        push_char(out, '\\');
        push_char(out, 'r');
    } else if c == '\t' {
        push_char(out, '\\');
        push_char(out, 't');
    } else if code < 0x20 {
        push_char(out, '\\');
        push_char(out, 'u');
        push_char(out, '0');
        push_char(out, '0');
        push_char(out, hex(code / 16));
        push_char(out, hex(code % 16));
    } else {
        push_char(out, c);
    }
    proof {
        assert(final(out)@ =~= old(out)@ + escape_char(c));
    }
}

/// Appends `s` written as a JSON string literal.
pub fn push_quoted(out: &mut String, s: &str)
    ensures
        final(out)@ == old(out)@ + quoted(s@),
{
    let cs = chars_of(s);
    push_char(out, '"');
    let ghost start = out@;
    let mut i: usize = 0;
    while i < cs.len()
        invariant
            i <= cs.len(),
            cs@ == s@,
            start == old(out)@.push('"'),
            out@ == start + escaped(cs@.take(i as int)),
        decreases cs.len() - i,
    {
        push_escaped_char(out, cs[i]);
        proof {
            assert(cs@.take(i + 1).drop_last() =~= cs@.take(i as int));
            assert(out@ =~= start + escaped(cs@.take(i + 1)));
        }
        i = i + 1;
    }
    push_char(out, '"');
    proof {
        assert(cs@.take(cs@.len() as int) =~= cs@);
        assert(out@ =~= old(out)@ + quoted(s@));
    }
}


/// Whether `s` begins with `p`.
pub open spec fn starts_with(s: Seq<char>, p: Seq<char>) -> bool {
    s.len() >= p.len() && s.subrange(0, p.len() as int) == p
}

/// `s.starts_with(p)`.
pub fn has_prefix(s: &Vec<char>, p: &str) -> (r: bool)
    ensures
        r == starts_with(s@, p@),
{
    let pc = chars_of(p);
    if pc.len() > s.len() {
        return false;
    }
    let mut i: usize = 0;
    while i < pc.len()
        invariant
            i <= pc.len() <= s.len(),
            pc@ == p@,
            forall|k: int| 0 <= k < i ==> s@[k] == pc@[k],
        decreases pc.len() - i,
    {
        if s[i] != pc[i] {
            proof {
                assert(s@.subrange(0, p@.len() as int)[i as int] != p@[i as int]);
            }
            return false;
        }
        i = i + 1;
    }
    proof {
        assert(s@.subrange(0, p@.len() as int) =~= p@);
    }
    true
}

/// Unicode `White_Space`, the whitespace of `char::is_whitespace` and `str::trim`.
pub open spec fn is_whitespace(c: char) -> bool {
    ||| c == '\t'
    ||| c == '\n'
    ||| c == '\u{b}'
    ||| c == '\u{c}'
    ||| c == '\r'
    ||| c == ' '
    ||| c == '\u{85}'
    ||| c == '\u{a0}'
    ||| c == '\u{1680}'
    ||| ('\u{2000}' <= c && c <= '\u{200a}')
    ||| c == '\u{2028}'
    ||| c == '\u{2029}'
    ||| c == '\u{202f}'
    ||| c == '\u{205f}'
    ||| c == '\u{3000}'
}

fn whitespace(c: char) -> (r: bool)
    ensures
        r == is_whitespace(c),
{
    c == '\t' || c == '\n' || c == '\u{b}' || c == '\u{c}' || c == '\r' || c == ' ' || c == '\u{85}'
        || c == '\u{a0}' || c == '\u{1680}' || ('\u{2000}' <= c && c <= '\u{200a}') || c == '\u{2028}'
        || c == '\u{2029}' || c == '\u{202f}' || c == '\u{205f}' || c == '\u{3000}'
}

/// Index of the first character at or after `i` that is not whitespace.
pub open spec fn skip_ws(s: Seq<char>, i: nat) -> nat
    decreases s.len() - i,
{
    if i < s.len() && is_whitespace(s[i as int]) {
        skip_ws(s, i + 1)
    } else {
        i
    }
}

/// End of `s[lo..j]` once the whitespace at its end is dropped.
pub open spec fn drop_ws_end(s: Seq<char>, lo: nat, j: nat) -> nat
    decreases j,
{
    if j > lo && is_whitespace(s[j - 1]) {
        drop_ws_end(s, lo, (j - 1) as nat)
    } else {
        j
    }
}

/// `s` without whitespace at either end (`str::trim`).
pub open spec fn trimmed(s: Seq<char>) -> Seq<char> {
    let lo = skip_ws(s, 0);
    s.subrange(lo as int, drop_ws_end(s, lo, s.len()) as int)
}

proof fn lemma_skip_ws_bounds(s: Seq<char>, i: nat)
    requires
        i <= s.len(),
    ensures
        i <= skip_ws(s, i) <= s.len(),
    decreases s.len() - i,
{
    if i < s.len() && is_whitespace(s[i as int]) {
        lemma_skip_ws_bounds(s, i + 1);
    }
}

proof fn lemma_drop_ws_end_bounds(s: Seq<char>, lo: nat, j: nat)
    requires
        lo <= j <= s.len(),
    ensures
        lo <= drop_ws_end(s, lo, j) <= j,
    decreases j,
{
    if j > lo && is_whitespace(s[j - 1]) {
        lemma_drop_ws_end_bounds(s, lo, (j - 1) as nat);
    }
}

/// The characters of `cs[from..]` without whitespace at either end.
pub fn trim_chars(cs: &Vec<char>) -> (r: Vec<char>)
    ensures
        r@ == trimmed(cs@),
{
    let mut lo: usize = 0;
    while lo < cs.len() && whitespace(cs[lo])
        invariant
            lo <= cs.len(),
            skip_ws(cs@, 0) == skip_ws(cs@, lo as nat),
        decreases cs.len() - lo,
    {
        lo = lo + 1;
    }
    let mut hi: usize = cs.len();
    while hi > lo && whitespace(cs[hi - 1])
        invariant
            lo <= hi <= cs.len(),
            skip_ws(cs@, 0) == lo,
            drop_ws_end(cs@, lo as nat, cs@.len()) == drop_ws_end(cs@, lo as nat, hi as nat),
        decreases hi,
    {
        hi = hi - 1;
    }
    let mut r: Vec<char> = Vec::new();
    let mut k: usize = lo;
    while k < hi
        invariant
            lo <= k <= hi <= cs.len(),
            r@ == cs@.subrange(lo as int, k as int),
        decreases hi - k,
    {
        r.push(cs[k]);
        proof {
            assert(r@ =~= cs@.subrange(lo as int, k + 1));
        }
        k = k + 1;
    }
    r
}

/// The delimiter that joins the pieces of a tool call ID.
pub open spec fn tool_delim() -> Seq<char> {
    seq!['_', '_', '@', '_', '_']
}

/// Whether the delimiter starts at index `k` of `s`.
pub open spec fn delim_at(s: Seq<char>, k: int) -> bool {
    0 <= k && k + 5 <= s.len() && s.subrange(k, k + 5) == tool_delim()
}

/// Index of the first delimiter that starts at or after `start`, or -1.
pub open spec fn find_delim(s: Seq<char>, start: nat) -> int
    decreases s.len() - start,
{
    if start + 5 > s.len() {
        -1
    } else if delim_at(s, start as int) {
        start as int
    } else {
        find_delim(s, start + 1)
    }
}

pub proof fn lemma_find_delim(s: Seq<char>, start: nat)
    ensures
        find_delim(s, start) == -1 || (start <= find_delim(s, start) && delim_at(s, find_delim(s, start))),
        find_delim(s, start) == -1 ==> forall|k: int| start <= k ==> !delim_at(s, k),
        find_delim(s, start) >= 0 ==> forall|k: int| start <= k < find_delim(s, start) ==> !delim_at(s, k),
    decreases s.len() - start,
{
    if start + 5 > s.len() {
    } else if delim_at(s, start as int) {
    } else {
        lemma_find_delim(s, start + 1);
        assert forall|k: int| start <= k < start + 1 implies !delim_at(s, k) by {}
    }
}

/// The pieces of `s[start..]` between delimiters (`str::split("__@__")`).
pub open spec fn split_from(s: Seq<char>, start: nat) -> Seq<Seq<char>>
    decreases s.len() - start,
{
    let k = find_delim(s, start);
    if k < 0 || s.len() < start {
        seq![s.subrange(start as int, s.len() as int)]
    } else {
        proof {
            lemma_find_delim(s, start);
        }
        seq![s.subrange(start as int, k)] + split_from(s, (k + 5) as nat)
    }
}

/// The pieces of a tool call ID between delimiters.
pub open spec fn id_pieces(s: Seq<char>) -> Seq<Seq<char>> {
    split_from(s, 0)
}

/// Whether a tool call ID holds the delimiter.
pub open spec fn has_delim(s: Seq<char>) -> bool {
    find_delim(s, 0) >= 0
}

fn delim_at_exec(cs: &Vec<char>, k: usize) -> (r: bool)
    ensures
        r == delim_at(cs@, k as int),
{
    if k > cs.len() || cs.len() - k < 5 {
        return false;
    }
    let r = cs[k] == '_' && cs[k + 1] == '_' && cs[k + 2] == '@' && cs[k + 3] == '_' && cs[k + 4] == '_';
    proof {
        if r {
            assert(cs@.subrange(k as int, k + 5) =~= tool_delim());
        } else {
            let sub = cs@.subrange(k as int, k + 5);
            if cs@[k as int] != '_' {
                assert(sub[0] != tool_delim()[0]);
            } else if cs@[k + 1] != '_' {
                assert(sub[1] != tool_delim()[1]);
            } else if cs@[k + 2] != '@' {
                assert(sub[2] != tool_delim()[2]);
            } else if cs@[k + 3] != '_' {
                assert(sub[3] != tool_delim()[3]);
            } else {
                assert(sub[4] != tool_delim()[4]);
            }
        }
    }
    r
}

fn find_delim_exec(cs: &Vec<char>, start: usize) -> (r: Option<usize>)
    requires
        start <= cs.len(),
    ensures
        match r {
            Some(k) => k as int == find_delim(cs@, start as nat),
            None => find_delim(cs@, start as nat) == -1,
        },
{
    let mut k: usize = start;
    while k < cs.len() && cs.len() - k >= 5
        invariant
            start <= k <= cs.len(),
            find_delim(cs@, start as nat) == find_delim(cs@, k as nat),
        decreases cs.len() - k,
    {
        if delim_at_exec(cs, k) {
            return Some(k);
        }
        k = k + 1;
    }
    None
}

/// Whether the ID holds the delimiter (`id.contains("__@__")`).
pub fn contains_delim(id: &str) -> (r: bool)
    ensures
        r == has_delim(id@),
{
    let cs = chars_of(id);
    find_delim_exec(&cs, 0).is_some()
}

fn chars_between(cs: &Vec<char>, lo: usize, hi: usize) -> (s: String)
    requires
        lo <= hi <= cs.len(),
    ensures
        s@ == cs@.subrange(lo as int, hi as int),
{
    let mut s = String::new();
    let mut k: usize = lo;
    while k < hi
        invariant
            lo <= k <= hi <= cs.len(),
            s@ == cs@.subrange(lo as int, k as int),
        decreases hi - k,
    {
        push_char(&mut s, cs[k]);
        proof {
            assert(s@ =~= cs@.subrange(lo as int, k + 1));
        }
        k = k + 1;
    }
    s
}

/// The pieces of a tool call ID (`id.split("__@__").collect()`).
pub fn split_id(id: &str) -> (pieces: Vec<String>)
    ensures
        pieces@.map_values(|p: String| p@) == id_pieces(id@),
{
    let cs = chars_of(id);
    let mut pieces: Vec<String> = Vec::new();
    let mut start: usize = 0;
    loop
        invariant
            start <= cs.len(),
            cs@ == id@,
            pieces@.map_values(|p: String| p@) + split_from(cs@, start as nat) == split_from(cs@, 0),
        decreases cs.len() - start,
    {
        match find_delim_exec(&cs, start) {
            Some(k) => {
                proof {
                    lemma_find_delim(cs@, start as nat);
                }
                let piece = chars_between(&cs, start, k);
                let ghost before = pieces@.map_values(|p: String| p@);
                pieces.push(piece);
                proof {
                    assert(pieces@.map_values(|p: String| p@) =~= before.push(piece@));
                    assert(split_from(cs@, start as nat) =~= seq![piece@] + split_from(cs@, (k + 5) as nat));
                    assert(before.push(piece@) + split_from(cs@, (k + 5) as nat) =~= before + split_from(
                        cs@,
                        start as nat,
                    ));
                }
                start = k + 5;
            },
            None => {
                let piece = chars_between(&cs, start, cs.len());
                let ghost before = pieces@.map_values(|p: String| p@);
                pieces.push(piece);
                proof {
                    assert(pieces@.map_values(|p: String| p@) =~= before.push(piece@));
                    assert(split_from(cs@, start as nat) =~= seq![piece@]);
                    assert(before.push(piece@) =~= before + split_from(cs@, start as nat));
                }
                return pieces;
            },
        }
    }
}

}
