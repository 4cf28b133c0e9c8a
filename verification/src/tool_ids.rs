use vstd::prelude::*;

use crate::text::{
    delim_at, digit_char, find_delim, has_delim, id_pieces, int_text, lemma_find_delim, nat_text,
    push_char, push_i64_text, push_u64_text, split_from, tool_delim,
};

verus! {

/// `format!("call_{}_{}", candidate_index, part_index)`.
pub open spec fn call_base(candidate_index: i64, part_index: nat) -> Seq<char> {
    seq!['c', 'a', 'l', 'l', '_'] + int_text(candidate_index as int) + seq!['_'] + nat_text(part_index)
}

/// The ID given to a tool call while streaming: the base, the tool's name and
/// the thought signature (empty when there is none), joined by the delimiter.
pub open spec fn stream_tool_id(base: Seq<char>, name: Seq<char>, sig: Seq<char>) -> Seq<char> {
    base + tool_delim() + name + tool_delim() + sig
}

/// The tool name that an ID holding the delimiter carries: its second piece.
pub open spec fn id_tool_name(id: Seq<char>) -> Seq<char> {
    id_pieces(id)[1]
}

/// The thought signature that an ID holding the delimiter carries: its third
/// piece, when there is one and it is not empty.
pub open spec fn id_signature(id: Seq<char>) -> Option<Seq<char>> {
    let p = id_pieces(id);
    if p.len() >= 3 && p[2].len() > 0 {
        Some(p[2])
    } else {
        None
    }
}

/// Whether `s` holds no `@`.
pub open spec fn no_at(s: Seq<char>) -> bool {
    forall|k: int| 0 <= k < s.len() ==> s[k] != '@'
}

/// Appends `call_{candidate_index}_{part_index}`.
pub fn push_call_base(out: &mut String, candidate_index: i64, part_index: u64)
    ensures
        final(out)@ == old(out)@ + call_base(candidate_index, part_index as nat),
{
    push_char(out, 'c');
    push_char(out, 'a');
    push_char(out, 'l');
    push_char(out, 'l');
    push_char(out, '_');
    push_i64_text(out, candidate_index);
    push_char(out, '_');
    push_u64_text(out, part_index);
    proof {
        assert(final(out)@ =~= old(out)@ + call_base(candidate_index, part_index as nat));
    }
}

/// Appends the delimiter `__@__`.
pub fn push_delim(out: &mut String)
    ensures
        final(out)@ == old(out)@ + tool_delim(),
{
    push_char(out, '_');
    push_char(out, '_');
    push_char(out, '@');
    push_char(out, '_');
    push_char(out, '_');
    proof {
        assert(final(out)@ =~= old(out)@ + tool_delim());
    }
}

pub proof fn lemma_find_delim_is(s: Seq<char>, start: nat, r: int)
    requires
        start <= r,
        delim_at(s, r),
        forall|k: int| start <= k < r ==> !delim_at(s, k),
    ensures
        find_delim(s, start) == r,
    decreases r - start,
{
    if start < r {
        lemma_find_delim_is(s, start + 1, r);
    }
}

pub proof fn lemma_find_delim_none(s: Seq<char>, start: nat)
    requires
        forall|k: int| start <= k ==> !delim_at(s, k),
    ensures
        find_delim(s, start) == -1,
    decreases s.len() - start,
{
    if start + 5 <= s.len() {
        lemma_find_delim_none(s, start + 1);
    }
}

proof fn lemma_delim_has_at(s: Seq<char>, k: int)
    requires
        delim_at(s, k),
    ensures
        s[k + 2] == '@',
{
    assert(s.subrange(k, k + 5)[2] == tool_delim()[2]);
}

/// Whether `s` can stand before the delimiter in an ID: the first delimiter in
/// `s` followed by the delimiter is that one, so `s` holds none and none forms
/// where it meets the delimiter.
pub open spec fn joins_cleanly(s: Seq<char>) -> bool {
    find_delim(s + tool_delim(), 0) == s.len()
}

proof fn lemma_delim_at_prefix(a: Seq<char>, b: Seq<char>, k: int)
    requires
        0 <= k,
        k + 5 <= a.len(),
    ensures
        delim_at(a + b, k) == delim_at(a, k),
{
    assert((a + b).subrange(k, k + 5) =~= a.subrange(k, k + 5));
}

proof fn lemma_delim_at_suffix(a: Seq<char>, b: Seq<char>, k: int)
    requires
        0 <= k,
    ensures
        delim_at(a + b, a.len() + k) == delim_at(b, k),
{
    if k + 5 <= b.len() {
        assert((a + b).subrange(a.len() + k, a.len() + k + 5) =~= b.subrange(k, k + 5));
    }
}

/// Searching `a + b` from inside `b` finds what searching `b` finds, moved by `a`.
proof fn lemma_find_delim_shift(a: Seq<char>, b: Seq<char>, start: nat)
    ensures
        find_delim(a + b, a.len() + start) == if find_delim(b, start) < 0 {
            -1
        } else {
            a.len() + find_delim(b, start)
        },
    decreases b.len() - start,
{
    lemma_delim_at_suffix(a, b, start as int);
    if start + 5 > b.len() {
    } else if delim_at(b, start as int) {
    } else {
        lemma_find_delim_shift(a, b, start + 1);
        assert(a.len() + start + 1 == a.len() + (start + 1));
    }
}

/// Three pieces joined by the delimiter split back into the same three, when
/// the first holds no `@`, the second joins the delimiter cleanly and the last
/// holds no delimiter.
#[verifier::spinoff_prover]
pub proof fn lemma_split_three(a: Seq<char>, b: Seq<char>, c: Seq<char>)
    requires
        no_at(a),
        joins_cleanly(b),
        !has_delim(c),
    ensures
        id_pieces(a + tool_delim() + b + tool_delim() + c) == seq![a, b, c],
{
    let d = tool_delim();
    let s = a + d + b + d + c;
    let p1 = a.len() as int;
    let p2 = p1 + 5 + b.len();
    let t = b + d + c;
    assert(s =~= (a + d) + t);
    assert(t =~= (b + d) + c);
    assert(s =~= (a + d + b + d) + c);
    // the first delimiter is the one after `a`: any earlier one would put an `@` in `a`
    assert(s.subrange(p1, p1 + 5) =~= d);
    assert forall|k: int| 0 <= k < p1 implies !delim_at(s, k) by {
        if delim_at(s, k) {
            lemma_delim_has_at(s, k);
            if k + 2 < p1 {
                assert(s[k + 2] == a[k + 2]);
            } else {
                assert(s[k + 2] == d[k + 2 - p1]);
            }
        }
    }
    lemma_find_delim_is(s, 0, p1);
    // the next one is the one after `b`
    lemma_find_delim(b + d, 0);
    assert forall|k: int| 0 <= k < b.len() implies !delim_at(t, k) by {
        lemma_delim_at_prefix(b + d, c, k);
    }
    lemma_delim_at_prefix(b + d, c, b.len() as int);
    lemma_find_delim_is(t, 0, b.len() as int);
    lemma_find_delim_shift(a + d, t, 0);
    assert((a + d).len() + 0 == p1 + 5);
    // and there is none in `c`
    lemma_find_delim_shift(a + d + b + d, c, 0);
    assert((a + d + b + d).len() + 0 == p2 + 5);
    assert(s.subrange(0, p1) =~= a);
    assert(s.subrange(p1 + 5, p2) =~= b);
    assert(s.subrange(p2 + 5, s.len() as int) =~= c);
    assert(split_from(s, (p2 + 5) as nat) =~= seq![c]);
    assert(split_from(s, (p1 + 5) as nat) =~= seq![b, c]);
    assert(split_from(s, 0) =~= seq![a, b, c]);
}

pub proof fn lemma_nat_text_no_at(n: nat)
    ensures
        no_at(nat_text(n)),
    decreases n,
{
    if n >= 10 {
        lemma_nat_text_no_at(n / 10);
    }
}

pub proof fn lemma_call_base_no_at(candidate_index: i64, part_index: nat)
    ensures
        no_at(call_base(candidate_index, part_index)),
{
    let ci = candidate_index as int;
    if ci < 0 {
        lemma_nat_text_no_at((-ci) as nat);
    } else {
        lemma_nat_text_no_at(ci as nat);
    }
    lemma_nat_text_no_at(part_index);
    let s = call_base(candidate_index, part_index);
    assert forall|k: int| 0 <= k < s.len() implies s[k] != '@' by {
        let t = int_text(ci);
        if k < 5 {
        } else if k < 5 + t.len() {
            assert(s[k] == t[k - 5]);
            if ci < 0 {
                if k > 5 {
                    assert(t[k - 5] == nat_text((-ci) as nat)[k - 6]);
                }
            }
        } else if k == 5 + t.len() {
        } else {
            assert(s[k] == nat_text(part_index)[k - 6 - t.len()]);
        }
    }
}

/// The ID that streaming gives a tool call carries back the tool's name and its
/// thought signature, when the name joins the delimiter cleanly and the
/// signature holds no delimiter.
pub proof fn lemma_stream_id_round_trip(candidate_index: i64, part_index: nat, name: Seq<char>, sig: Seq<char>)
    requires
        joins_cleanly(name),
        !has_delim(sig),
    ensures
        has_delim(stream_tool_id(call_base(candidate_index, part_index), name, sig)),
        id_tool_name(stream_tool_id(call_base(candidate_index, part_index), name, sig)) == name,
        id_signature(stream_tool_id(call_base(candidate_index, part_index), name, sig)) == (if sig.len() > 0 {
            Some(sig)
        } else {
            None
        }),
{
    let base = call_base(candidate_index, part_index);
    lemma_call_base_no_at(candidate_index, part_index);
    lemma_split_three(base, name, sig);
    let s = stream_tool_id(base, name, sig);
    assert(s == base + tool_delim() + name + tool_delim() + sig);
    assert(s.subrange(base.len() as int, base.len() as int + 5) =~= tool_delim());
    lemma_find_delim(s, 0);
    if find_delim(s, 0) < 0 {
        assert(!delim_at(s, base.len() as int));
    }
}

proof fn lemma_nat_text_len(n: nat)
    ensures
        nat_text(n).len() >= 1,
        n >= 10 ==> nat_text(n).len() >= 2,
    decreases n,
{
    if n >= 10 {
        lemma_nat_text_len(n / 10);
    }
}

/// Different numbers are written differently.
pub proof fn lemma_nat_text_injective(a: nat, b: nat)
    requires
        nat_text(a) == nat_text(b),
    ensures
        a == b,
    decreases a,
{
    lemma_nat_text_len(a);
    lemma_nat_text_len(b);
    if a >= 10 && b >= 10 {
        assert(nat_text(a).drop_last() =~= nat_text(a / 10));
        assert(nat_text(b).drop_last() =~= nat_text(b / 10));
        assert(nat_text(a).last() == digit_char(a % 10));
        assert(nat_text(b).last() == digit_char(b % 10));
        lemma_nat_text_injective(a / 10, b / 10);
    } else if a < 10 && b < 10 {
        assert(nat_text(a)[0] == digit_char(a));
        assert(nat_text(b)[0] == digit_char(b));
    }
}

/// Two parts of one candidate get different IDs.
pub proof fn lemma_call_base_injective(candidate_index: i64, i: nat, j: nat)
    requires
        call_base(candidate_index, i) == call_base(candidate_index, j),
    ensures
        i == j,
{
    let p = seq!['c', 'a', 'l', 'l', '_'] + int_text(candidate_index as int) + seq!['_'];
    assert(call_base(candidate_index, i) =~= p + nat_text(i));
    assert(call_base(candidate_index, j) =~= p + nat_text(j));
    assert((p + nat_text(i)).subrange(p.len() as int, (p + nat_text(i)).len() as int) =~= nat_text(i));
    assert((p + nat_text(j)).subrange(p.len() as int, (p + nat_text(j)).len() as int) =~= nat_text(j));
    lemma_nat_text_injective(i, j);
}

}
