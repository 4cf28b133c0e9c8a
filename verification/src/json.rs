use vstd::prelude::*;

use crate::assoc::{assoc_get, lemma_key_index_absent, lemma_key_index_is};
use crate::text::{int_text, nat_text, push_char, push_i64_text, push_quoted, push_u64_text, quoted, same_text};

verus! {

/// A JSON number as serde_json holds it: a non-negative integer, a negative
/// integer, or a finite float carried as the text that serde_json prints for it.
#[derive(Debug, PartialEq)]
pub enum Number {
    PosInt(u64),
    NegInt(i64),
    Float(String),
}

/// A JSON document. Object members are kept in the order they were given: as
/// built, or, for a parsed text, as serde_json holds them (names sorted, a
/// repeated name kept once with its last value).
#[derive(Debug, PartialEq)]
pub enum Json {
    Null,
    Bool(bool),
    Num(Number),
    Str(String),
    Arr(Vec<Json>),
    Obj(Vec<(String, Json)>),
}

/// The mathematical value of a [`Number`].
pub enum NumberV {
    PosInt(u64),
    NegInt(i64),
    Float(Seq<char>),
}

/// The mathematical value of a [`Json`].
#[verifier::ext_equal]
pub enum JsonV {
    Null,
    Bool(bool),
    Num(NumberV),
    Str(Seq<char>),
    Arr(Seq<JsonV>),
    Obj(Seq<(Seq<char>, JsonV)>),
}

impl View for Number {
    type V = NumberV;

    open spec fn view(&self) -> NumberV {
        match self {
            Number::PosInt(u) => NumberV::PosInt(*u),
            Number::NegInt(i) => NumberV::NegInt(*i),
            Number::Float(t) => NumberV::Float(t@),
        }
    }
}

pub open spec fn json_view(j: Json) -> JsonV
    decreases j,
{
    match j {
        Json::Null => JsonV::Null,
        Json::Bool(b) => JsonV::Bool(b),
        Json::Num(n) => JsonV::Num(n@),
        Json::Str(s) => JsonV::Str(s@),
        Json::Arr(items) => JsonV::Arr(items_view(items@)),
        Json::Obj(members) => JsonV::Obj(members_view(members@)),
    }
}

pub open spec fn items_view(s: Seq<Json>) -> Seq<JsonV>
    decreases s,
{
    Seq::new(
        s.len(),
        |i: int|
            if 0 <= i < s.len() {
                json_view(s[i])
            } else {
                JsonV::Null
            },
    )
}

pub open spec fn members_view(s: Seq<(String, Json)>) -> Seq<(Seq<char>, JsonV)>
    decreases s,
{
    Seq::new(
        s.len(),
        |i: int|
            if 0 <= i < s.len() {
                (s[i].0@, json_view(s[i].1))
            } else {
                (Seq::empty(), JsonV::Null)
            },
    )
}

impl View for Json {
    type V = JsonV;

    open spec fn view(&self) -> JsonV {
        json_view(*self)
    }
}

/// `value.get(key)`: the member `key` of an object; `None` for other values.
pub open spec fn get_v(j: JsonV, key: Seq<char>) -> Option<JsonV> {
    match j {
        JsonV::Obj(m) => assoc_get(m, key),
        _ => None,
    }
}

/// `value.as_str()`.
pub open spec fn as_str_v(j: JsonV) -> Option<Seq<char>> {
    match j {
        JsonV::Str(s) => Some(s),
        _ => None,
    }
}

/// `value.as_u64()`: only non-negative integers.
pub open spec fn as_u64_v(j: JsonV) -> Option<u64> {
    match j {
        JsonV::Num(NumberV::PosInt(u)) => Some(u),
        _ => None,
    }
}

/// `value.as_i64()`: integers that fit in an `i64`.
pub open spec fn as_i64_v(j: JsonV) -> Option<i64> {
    match j {
        JsonV::Num(NumberV::PosInt(u)) => if u <= i64::MAX {
            Some(u as i64)
        } else {
            None
        },
        JsonV::Num(NumberV::NegInt(i)) => Some(i),
        _ => None,
    }
}

/// `value.as_array()`.
pub open spec fn as_array_v(j: JsonV) -> Option<Seq<JsonV>> {
    match j {
        JsonV::Arr(items) => Some(items),
        _ => None,
    }
}

/// `a.and_then(|v| v.get(key))`.
pub open spec fn then_get(a: Option<JsonV>, key: Seq<char>) -> Option<JsonV> {
    match a {
        Some(v) => get_v(v, key),
        None => None,
    }
}

/// `a.and_then(Value::as_str)`.
pub open spec fn then_str(a: Option<JsonV>) -> Option<Seq<char>> {
    match a {
        Some(v) => as_str_v(v),
        None => None,
    }
}

/// `a.and_then(Value::as_u64)`.
pub open spec fn then_u64(a: Option<JsonV>) -> Option<u64> {
    match a {
        Some(v) => as_u64_v(v),
        None => None,
    }
}

/// `a.and_then(Value::as_i64)`.
pub open spec fn then_i64(a: Option<JsonV>) -> Option<i64> {
    match a {
        Some(v) => as_i64_v(v),
        None => None,
    }
}

/// `a.and_then(Value::as_array)`.
pub open spec fn then_array(a: Option<JsonV>) -> Option<Seq<JsonV>> {
    match a {
        Some(v) => as_array_v(v),
        None => None,
    }
}

impl Number {
    /// A copy of the number.
    pub fn deep_copy(&self) -> (r: Number)
        ensures
            r@ == self@,
    {
        match self {
            Number::PosInt(u) => Number::PosInt(*u),
            Number::NegInt(i) => Number::NegInt(*i),
            Number::Float(t) => Number::Float(t.clone()),
        }
    }
}

impl Json {
    /// A copy of the whole document.
    #[verifier::loop_isolation(false)]
    pub fn deep_copy(&self) -> (r: Json)
        ensures
            r@ == self@,
        decreases self,
    {
        match self {
            Json::Null => Json::Null,
            Json::Bool(b) => Json::Bool(*b),
            Json::Num(n) => Json::Num(n.deep_copy()),
            Json::Str(s) => Json::Str(s.clone()),
            Json::Arr(items) => {
                let mut out: Vec<Json> = Vec::new();
                let mut i: usize = 0;
                while i < items.len()
                    invariant
                        i <= items.len(),
                        items_view(out@) =~= items_view(items@).take(i as int),
                    decreases items.len() - i,
                {
                    proof {
                        assert(*self == Json::Arr(*items));
                        assert(decreases_to!(*self => *items));
                        assert(decreases_to!(*items => items@));
                        assert(decreases_to!(items@ => items@[i as int]));
                    }
                    let c = items[i].deep_copy();
                    let ghost before = out@;
                    out.push(c);
                    proof {
                        assert(out@ == before.push(c));
                        assert(items_view(out@)[i as int] == json_view(items@[i as int]));
                        assert forall|k: int| 0 <= k < i implies items_view(out@)[k] == items_view(before)[k] by {
                            assert(out@[k] == before[k]);
                        }
                    }
                    i = i + 1;
                }
                proof {
                    assert(items_view(items@).take(items@.len() as int) =~= items_view(items@));
                }
                Json::Arr(out)
            },
            Json::Obj(members) => {
                let mut out: Vec<(String, Json)> = Vec::new();
                let mut i: usize = 0;
                while i < members.len()
                    invariant
                        i <= members.len(),
                        members_view(out@) =~= members_view(members@).take(i as int),
                    decreases members.len() - i,
                {
                    proof {
                        assert(*self == Json::Obj(*members));
                        assert(decreases_to!(*self => *members));
                        assert(decreases_to!(*members => members@));
                        assert(decreases_to!(members@ => members@[i as int]));
                        assert(decreases_to!(members@[i as int] => members@[i as int].1));
                    }
                    let c = members[i].1.deep_copy();
                    let ghost before = out@;
                    out.push((members[i].0.clone(), c));
                    proof {
                        assert(members_view(out@)[i as int] == members_view(members@)[i as int]);
                        assert forall|k: int| 0 <= k < i implies members_view(out@)[k] == members_view(before)[k] by {
                            assert(out@[k] == before[k]);
                        }
                    }
                    i = i + 1;
                }
                proof {
                    assert(members_view(members@).take(members@.len() as int) =~= members_view(members@));
                }
                Json::Obj(out)
            },
        }
    }

    /// `value.get(key)`.
    #[verifier::loop_isolation(false)]
    pub fn get(&self, key: &str) -> (r: Option<&Json>)
        ensures
            match r {
                Some(v) => get_v(self@, key@) == Some(v@),
                None => get_v(self@, key@) is None,
            },
    {
        match self {
            Json::Obj(members) => {
                let ghost m = members_view(members@);
                let mut i: usize = 0;
                while i < members.len()
                    invariant
                        i <= members.len(),
                        m == members_view(members@),
                        forall|k: int| 0 <= k < i ==> m[k].0 != key@,
                    decreases members.len() - i,
                {
                    if same_text(members[i].0.as_str(), key) {
                        proof {
                            lemma_key_index_is(m, key@, i as int);
                            assert(self@ == JsonV::Obj(m));
                            assert(m[i as int].1 == json_view(members@[i as int].1));
                        }
                        return Some(&members[i].1);
                    }
                    i = i + 1;
                }
                proof {
                    lemma_key_index_absent(m, key@);
                    assert(self@ == JsonV::Obj(m));
                }
                None
            },
            _ => None,
        }
    }

    /// `value.as_str()`.
    pub fn as_str(&self) -> (r: Option<&String>)
        ensures
            match r {
                Some(s) => as_str_v(self@) == Some(s@),
                None => as_str_v(self@) is None,
            },
    {
        match self {
            Json::Str(s) => Some(s),
            _ => None,
        }
    }

    /// `value.as_u64()`.
    pub fn as_u64(&self) -> (r: Option<u64>)
        ensures
            r == as_u64_v(self@),
    {
        match self {
            Json::Num(Number::PosInt(u)) => Some(*u),
            _ => None,
        }
    }

    /// `value.as_i64()`.
    pub fn as_i64(&self) -> (r: Option<i64>)
        ensures
            r == as_i64_v(self@),
    {
        match self {
            Json::Num(Number::PosInt(u)) => if *u <= 0x7fff_ffff_ffff_ffff {
                Some(*u as i64)
            } else {
                None
            },
            Json::Num(Number::NegInt(i)) => Some(*i),
            _ => None,
        }
    }

    /// `value.as_array()`.
    pub fn as_array(&self) -> (r: Option<&Vec<Json>>)
        ensures
            match r {
                Some(items) => as_array_v(self@) == Some(items_view(items@)),
                None => as_array_v(self@) is None,
            },
    {
        match self {
            Json::Arr(items) => Some(items),
            _ => None,
        }
    }
}


/// How serde_json writes a number.
pub open spec fn number_text(n: NumberV) -> Seq<char> {
    match n {
        NumberV::PosInt(u) => nat_text(u as nat),
        NumberV::NegInt(i) => int_text(i as int),
        NumberV::Float(t) => t,
    }
}

/// The compact JSON text of a value, as `Value::to_string` writes it.
pub open spec fn json_text(j: JsonV) -> Seq<char>
    decreases j,
{
    match j {
        JsonV::Null => seq!['n', 'u', 'l', 'l'],
        JsonV::Bool(b) => if b {
            seq!['t', 'r', 'u', 'e']
        } else {
            seq!['f', 'a', 'l', 's', 'e']
        },
        JsonV::Num(n) => number_text(n),
        JsonV::Str(s) => quoted(s),
        JsonV::Arr(items) => seq!['['] + items_text(items) + seq![']'],
        JsonV::Obj(m) => seq!['{'] + members_text(m) + seq!['}'],
    }
}

/// The elements of an array, comma separated.
pub open spec fn items_text(items: Seq<JsonV>) -> Seq<char>
    decreases items,
{
    if items.len() == 0 {
        Seq::empty()
    } else if items.len() == 1 {
        json_text(items[0])
    } else {
        items_text(items.subrange(0, items.len() - 1)) + seq![','] + json_text(items[items.len() - 1])
    }
}

/// The members of an object, comma separated, each as `"name":value`.
pub open spec fn members_text(m: Seq<(Seq<char>, JsonV)>) -> Seq<char>
    decreases m,
{
    if m.len() == 0 {
        Seq::empty()
    } else if m.len() == 1 {
        quoted(m[0].0) + seq![':'] + json_text(m[0].1)
    } else {
        members_text(m.subrange(0, m.len() - 1)) + seq![','] + quoted(m[m.len() - 1].0) + seq![':']
            + json_text(m[m.len() - 1].1)
    }
}

fn push_literal(out: &mut String, cs: &[char])
    ensures
        final(out)@ == old(out)@ + cs@,
{
    let mut i: usize = 0;
    while i < cs.len()
        invariant
            i <= cs.len(),
            out@ == old(out)@ + cs@.take(i as int),
        decreases cs.len() - i,
    {
        push_char(out, cs[i]);
        proof {
            assert(out@ =~= old(out)@ + cs@.take(i + 1));
        }
        i = i + 1;
    }
    proof {
        assert(cs@.take(cs@.len() as int) =~= cs@);
    }
}

impl Json {
    /// Appends the compact JSON text of the value.
    #[verifier::loop_isolation(false)]
    pub fn write_json(&self, out: &mut String)
        ensures
            final(out)@ == old(out)@ + json_text(self@),
        decreases self,
    {
        match self {
            Json::Null => {
                push_literal(out, &['n', 'u', 'l', 'l']);
                proof {
                    assert(['n', 'u', 'l', 'l']@ =~= seq!['n', 'u', 'l', 'l']);
                }
            },
            Json::Bool(b) => {
                if *b {
                    push_literal(out, &['t', 'r', 'u', 'e']);
                    proof {
                        assert(['t', 'r', 'u', 'e']@ =~= seq!['t', 'r', 'u', 'e']);
                    }
                } else {
                    push_literal(out, &['f', 'a', 'l', 's', 'e']);
                    proof {
                        assert(['f', 'a', 'l', 's', 'e']@ =~= seq!['f', 'a', 'l', 's', 'e']);
                    }
                }
            },
            Json::Num(Number::PosInt(u)) => push_u64_text(out, *u),
            Json::Num(Number::NegInt(i)) => push_i64_text(out, *i),
            Json::Num(Number::Float(t)) => {
                let cs = crate::text::chars_of(t.as_str());
                push_literal(out, cs.as_slice());
            },
            Json::Str(s) => push_quoted(out, s.as_str()),
            Json::Arr(items) => {
                let ghost start = old(out)@.push('[');
                let ghost t = items_view(items@);
                push_char(out, '[');
                let mut i: usize = 0;
                while i < items.len()
                    invariant
                        i <= items.len(),
                        t == items_view(items@),
                        out@ == start + items_text(t.take(i as int)),
                    decreases items.len() - i,
                {
                    proof {
                        assert(*self == Json::Arr(*items));
                        assert(decreases_to!(*self => *items));
                        assert(decreases_to!(*items => items@));
                        assert(decreases_to!(items@ => items@[i as int]));
                    }
                    if i > 0 {
                        push_char(out, ',');
                    }
                    items[i].write_json(out);
                    proof {
                        assert(t.take(i + 1).subrange(0, i as int) =~= t.take(i as int));
                        assert(t.take(i + 1)[i as int] == json_view(items@[i as int]));
                        assert(out@ =~= start + items_text(t.take(i + 1)));
                    }
                    i = i + 1;
                }
                push_char(out, ']');
                proof {
                    assert(t.take(t.len() as int) =~= t);
                    assert(out@ =~= old(out)@ + json_text(self@));
                }
            },
            Json::Obj(members) => {
                let ghost start = old(out)@.push('{');
                let ghost m = members_view(members@);
                push_char(out, '{');
                let mut i: usize = 0;
                while i < members.len()
                    invariant
                        i <= members.len(),
                        m == members_view(members@),
                        out@ == start + members_text(m.take(i as int)),
                    decreases members.len() - i,
                {
                    proof {
                        assert(*self == Json::Obj(*members));
                        assert(decreases_to!(*self => *members));
                        assert(decreases_to!(*members => members@));
                        assert(decreases_to!(members@ => members@[i as int]));
                        assert(decreases_to!(members@[i as int] => members@[i as int].1));
                    }
                    if i > 0 {
                        push_char(out, ',');
                    }
                    push_quoted(out, members[i].0.as_str());
                    push_char(out, ':');
                    members[i].1.write_json(out);
                    proof {
                        assert(m.take(i + 1).subrange(0, i as int) =~= m.take(i as int));
                        assert(m.take(i + 1)[i as int] == (members@[i as int].0@, json_view(members@[i as int].1)));
                        assert(out@ =~= start + members_text(m.take(i + 1)));
                    }
                    i = i + 1;
                }
                push_char(out, '}');
                proof {
                    assert(m.take(m.len() as int) =~= m);
                    assert(out@ =~= old(out)@ + json_text(self@));
                }
            },
        }
    }

    /// The compact JSON text of the value (`value.to_string()`).
    pub fn to_json_text(&self) -> (s: String)
        ensures
            s@ == json_text(self@),
    {
        let mut s = String::new();
        self.write_json(&mut s);
        proof {
            assert(s@ =~= json_text(self@));
        }
        s
    }
}


impl Json {
    /// `value.get(key).and_then(Value::as_str)`.
    pub fn get_str(&self, key: &str) -> (r: Option<&String>)
        ensures
            match r {
                Some(s) => then_str(get_v(self@, key@)) == Some(s@),
                None => then_str(get_v(self@, key@)) is None,
            },
    {
        match self.get(key) {
            Some(v) => v.as_str(),
            None => None,
        }
    }

    /// `value.get(key).and_then(Value::as_u64)`.
    pub fn get_u64(&self, key: &str) -> (r: Option<u64>)
        ensures
            r == then_u64(get_v(self@, key@)),
    {
        match self.get(key) {
            Some(v) => v.as_u64(),
            None => None,
        }
    }

    /// `value.get(key).and_then(Value::as_i64)`.
    pub fn get_i64(&self, key: &str) -> (r: Option<i64>)
        ensures
            r == then_i64(get_v(self@, key@)),
    {
        match self.get(key) {
            Some(v) => v.as_i64(),
            None => None,
        }
    }

    /// `value.get(key).and_then(Value::as_array)`.
    pub fn get_array(&self, key: &str) -> (r: Option<&Vec<Json>>)
        ensures
            match r {
                Some(items) => then_array(get_v(self@, key@)) == Some(items_view(items@)),
                None => then_array(get_v(self@, key@)) is None,
            },
    {
        match self.get(key) {
            Some(v) => v.as_array(),
            None => None,
        }
    }

    /// An object without members (`json!({})`).
    pub fn empty_object() -> (r: Json)
        ensures
            r@ == JsonV::Obj(Seq::empty()),
    {
        let r = Json::Obj(Vec::new());
        proof {
            assert(members_view(Seq::<(String, Json)>::empty()) =~= Seq::empty());
        }
        r
    }
}


impl Json {
    /// A string value.
    pub fn text(s: &str) -> (r: Json)
        ensures
            r@ == JsonV::Str(s@),
    {
        Json::Str(s.to_owned())
    }

    /// An array of the given values.
    pub fn array(items: Vec<Json>) -> (r: Json)
        ensures
            r@ == JsonV::Arr(items_view(items@)),
    {
        Json::Arr(items)
    }

    /// An object with one member.
    pub fn object1(k: &str, v: Json) -> (r: Json)
        ensures
            r@ == JsonV::Obj(seq![(k@, v@)]),
    {
        let ghost vv = v@;
        let mut m: Vec<(String, Json)> = Vec::new();
        m.push((k.to_owned(), v));
        let r = Json::Obj(m);
        proof {
            assert(members_view(m@) =~= seq![(k@, vv)]);
        }
        r
    }

    /// An object with two members.
    pub fn object2(k1: &str, v1: Json, k2: &str, v2: Json) -> (r: Json)
        ensures
            r@ == JsonV::Obj(seq![(k1@, v1@), (k2@, v2@)]),
    {
        let ghost vv1 = v1@;
        let ghost vv2 = v2@;
        let mut m: Vec<(String, Json)> = Vec::new();
        m.push((k1.to_owned(), v1));
        m.push((k2.to_owned(), v2));
        let r = Json::Obj(m);
        proof {
            assert(members_view(m@) =~= seq![(k1@, vv1), (k2@, vv2)]);
        }
        r
    }

    /// An object with three members.
    pub fn object3(k1: &str, v1: Json, k2: &str, v2: Json, k3: &str, v3: Json) -> (r: Json)
        ensures
            r@ == JsonV::Obj(seq![(k1@, v1@), (k2@, v2@), (k3@, v3@)]),
    {
        let ghost vv1 = v1@;
        let ghost vv2 = v2@;
        let ghost vv3 = v3@;
        let mut m: Vec<(String, Json)> = Vec::new();
        m.push((k1.to_owned(), v1));
        m.push((k2.to_owned(), v2));
        m.push((k3.to_owned(), v3));
        let r = Json::Obj(m);
        proof {
            assert(members_view(m@) =~= seq![(k1@, vv1), (k2@, vv2), (k3@, vv3)]);
        }
        r
    }

    /// An object with the given members, in order.
    pub fn object(members: Vec<(String, Json)>) -> (r: Json)
        ensures
            r@ == JsonV::Obj(members_view(members@)),
    {
        Json::Obj(members)
    }
}


#[verifier::external_type_specification]
#[verifier::external_body]
pub struct ExJsonValue(serde_json::Value);

/// What serde_json parses from a text: `None` when the text is not JSON.
pub uninterp spec fn json_parse(text: Seq<char>) -> Option<JsonV>;

/// The JSON value that a `serde_json::Value` holds.
pub uninterp spec fn value_json(v: serde_json::Value) -> JsonV;

/// Parses a text as JSON by `serde_json::from_str::<serde_json::Value>`.
/// Trusted: the contract names the value parsed, a function of the text alone,
/// and says that it fails exactly when the text has none; the error message is
/// serde_json's and is left unsaid.
#[verifier::external_body]
fn parse_value(text: &str) -> (r: Result<serde_json::Value, String>)
    ensures
        match r {
            Ok(v) => json_parse(text@) == Some(value_json(v)),
            Err(_) => json_parse(text@) is None,
        },
{
    serde_json::from_str::<serde_json::Value>(text).map_err(|e| e.to_string())
}

/// Moves a `serde_json::Value` into a [`Json`], variant for variant; a number
/// keeps serde_json's kind (`as_u64`, else `as_i64`, else its printed float).
/// Trusted: the contract claims that the result holds what the value holds.
#[verifier::external_body]
fn json_of_value(v: serde_json::Value) -> (j: Json)
    ensures
        j@ == value_json(v),
{
    match v {
        serde_json::Value::Null => Json::Null,
        serde_json::Value::Bool(b) => Json::Bool(b),
        serde_json::Value::Number(n) => Json::Num(match (n.as_u64(), n.as_i64()) {
            (Some(u), _) => Number::PosInt(u),
            (None, Some(i)) => Number::NegInt(i),
            (None, None) => Number::Float(n.to_string()),
        }),
        serde_json::Value::String(s) => Json::Str(s),
        serde_json::Value::Array(a) => Json::Arr(a.into_iter().map(json_of_value).collect()),
        serde_json::Value::Object(m) => Json::Obj(m.into_iter().map(|(k, x)| (k, json_of_value(x))).collect()),
    }
}

/// Parses a text as JSON: the value, or serde_json's error message when the
/// text is not JSON.
pub fn parse_json(text: &str) -> (r: Result<Json, String>)
    ensures
        match r {
            Ok(j) => json_parse(text@) == Some(j@),
            Err(_) => json_parse(text@) is None,
        },
{
    match parse_value(text) {
        Ok(v) => Ok(json_of_value(v)),
        Err(e) => Err(e),
    }
}

}
