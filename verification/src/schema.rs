use vstd::prelude::*;

use crate::json::{json_view, members_view, Json, JsonV};
use crate::text::same_text;

verus! {

/// Whether a schema keyword is one that Gemini refuses and that is dropped.
pub open spec fn is_dropped_keyword(k: Seq<char>) -> bool {
    k == "additionalProperties"@ || k == "examples"@ || k == "default"@
}

/// A JSON schema made acceptable to Gemini: at every object reached through
/// `properties` and `items`, a `type` given as an array becomes its first
/// element (or goes when the array is empty), and `additionalProperties`,
/// `examples` and `default` go. Values that are not objects are kept as they are.
pub open spec fn sanitize_v(j: JsonV) -> JsonV
    decreases j,
{
    match j {
        JsonV::Obj(m) => JsonV::Obj(sanitize_members(m)),
        _ => j,
    }
}

/// The members of a schema object, sanitized one by one, in order.
pub open spec fn sanitize_members(m: Seq<(Seq<char>, JsonV)>) -> Seq<(Seq<char>, JsonV)>
    decreases m,
{
    if m.len() == 0 {
        Seq::empty()
    } else {
        let rest = sanitize_members(m.subrange(0, m.len() - 1));
        let k = m[m.len() - 1].0;
        let v = m[m.len() - 1].1;
        if k == "type"@ && v is Arr {
            if v->Arr_0.len() > 0 {
                rest.push((k, v->Arr_0[0]))
            } else {
                rest
            }
        } else if k == "properties"@ && v is Obj {
            rest.push((k, JsonV::Obj(sanitize_values(v->Obj_0))))
        } else if k == "items"@ {
            rest.push((k, sanitize_v(v)))
        } else if is_dropped_keyword(k) {
            rest
        } else {
            rest.push((k, v))
        }
    }
}

/// The members of a `properties` object, each value sanitized as a schema.
pub open spec fn sanitize_values(p: Seq<(Seq<char>, JsonV)>) -> Seq<(Seq<char>, JsonV)>
    decreases p,
{
    if p.len() == 0 {
        Seq::empty()
    } else {
        sanitize_values(p.subrange(0, p.len() - 1)).push((p[p.len() - 1].0, sanitize_v(p[p.len() - 1].1)))
    }
}

fn is_dropped(k: &String) -> (r: bool)
    ensures
        r == is_dropped_keyword(k@),
{
    same_text(k.as_str(), "additionalProperties") || same_text(k.as_str(), "examples") || same_text(
        k.as_str(),
        "default",
    )
}

/// The sanitized copy of a schema.
pub fn sanitized(schema: &Json) -> (r: Json)
    ensures
        r@ == sanitize_v(schema@),
    decreases schema,
{
    match schema {
        Json::Obj(m) => {
            proof {
                assert(decreases_to!(*schema => *m));
            }
            let out = sanitized_members(m);
            Json::Obj(out)
        },
        _ => schema.deep_copy(),
    }
}

#[verifier::loop_isolation(false)]
fn sanitized_members(m: &Vec<(String, Json)>) -> (r: Vec<(String, Json)>)
    ensures
        members_view(r@) == sanitize_members(members_view(m@)),
    decreases m,
{
    let ghost mv = members_view(m@);
    let mut out: Vec<(String, Json)> = Vec::new();
    let mut i: usize = 0;
    proof {
        assert(members_view(out@) =~= Seq::empty());
        assert(mv.take(0) =~= Seq::empty());
    }
    while i < m.len()
        invariant
            i <= m.len(),
            mv == members_view(m@),
            members_view(out@) == sanitize_members(mv.take(i as int)),
        decreases m.len() - i,
    {
        proof {
            assert(decreases_to!(*m => m@));
            assert(decreases_to!(m@ => m@[i as int]));
            assert(decreases_to!(m@[i as int] => m@[i as int].1));
            assert(mv.take(i + 1).subrange(0, i as int) =~= mv.take(i as int));
            assert(mv.take(i + 1)[i as int] == (m@[i as int].0@, json_view(m@[i as int].1)));
        }
        let ghost before = out@;
        let k = &m[i].0;
        let v = &m[i].1;
        if same_text(k.as_str(), "type") && matches!(v, Json::Arr(_)) {
            match v {
                Json::Arr(ts) => {
                    if ts.len() > 0 {
                        let first = ts[0].deep_copy();
                        out.push((k.clone(), first));
                    }
                },
                _ => {},
            }
        } else if same_text(k.as_str(), "properties") && matches!(v, Json::Obj(_)) {
            match v {
                Json::Obj(props) => {
                    proof {
                        assert(decreases_to!(m@[i as int].1 => *props));
                    }
                    let values = sanitized_values(props);
                    out.push((k.clone(), Json::Obj(values)));
                },
                _ => {},
            }
        } else if same_text(k.as_str(), "items") {
            let s = sanitized(v);
            out.push((k.clone(), s));
        } else if is_dropped(k) {
        } else {
            out.push((k.clone(), v.deep_copy()));
        }
        proof {
            assert forall|q: int| 0 <= q < before.len() implies members_view(out@)[q] == members_view(before)[q] by {
                assert(out@[q] == before[q]);
            }
            if out@.len() > before.len() {
                assert(members_view(out@) =~= members_view(before).push(members_view(out@)[before.len() as int]));
            } else {
                assert(members_view(out@) =~= members_view(before));
            }
        }
        i = i + 1;
    }
    proof {
        assert(mv.take(m.len() as int) =~= mv);
    }
    out
}

#[verifier::loop_isolation(false)]
fn sanitized_values(p: &Vec<(String, Json)>) -> (r: Vec<(String, Json)>)
    ensures
        members_view(r@) == sanitize_values(members_view(p@)),
    decreases p,
{
    let ghost pv = members_view(p@);
    let mut out: Vec<(String, Json)> = Vec::new();
    let mut i: usize = 0;
    proof {
        assert(members_view(out@) =~= Seq::empty());
    }
    while i < p.len()
        invariant
            i <= p.len(),
            pv == members_view(p@),
            members_view(out@) == sanitize_values(pv.take(i as int)),
        decreases p.len() - i,
    {
        proof {
            assert(decreases_to!(*p => p@));
            assert(decreases_to!(p@ => p@[i as int]));
            assert(decreases_to!(p@[i as int] => p@[i as int].1));
            assert(pv.take(i + 1).subrange(0, i as int) =~= pv.take(i as int));
        }
        let ghost before = out@;
        let s = sanitized(&p[i].1);
        out.push((p[i].0.clone(), s));
        proof {
            assert(members_view(out@) =~= members_view(before).push((p@[i as int].0@, s@)));
        }
        i = i + 1;
    }
    proof {
        assert(pv.take(p.len() as int) =~= pv);
    }
    out
}

/// Makes a tool's input schema acceptable to Gemini, in place.
pub fn sanitize_schema(schema: &mut Json)
    ensures
        final(schema)@ == sanitize_v(old(schema)@),
{
    let s = sanitized(schema);
    *schema = s;
}


proof fn lemma_keywords_distinct()
    ensures
        "type"@ != "properties"@,
        "type"@ != "items"@,
        "properties"@ != "items"@,
        !is_dropped_keyword("type"@),
        !is_dropped_keyword("properties"@),
        !is_dropped_keyword("items"@),
{
    reveal_strlit("type");
    reveal_strlit("properties");
    reveal_strlit("items");
    reveal_strlit("additionalProperties");
    reveal_strlit("examples");
    reveal_strlit("default");
    assert("type"@.len() == 4);
    assert("items"@.len() == 5);
    assert("properties"@.len() == 10);
    assert("additionalProperties"@.len() == 20);
    assert("examples"@.len() == 8);
    assert("default"@.len() == 7);
    assert("type"@[0] != "default"@[0]);
}

/// Whether no `type` array that sanitizing collapses has an array as its first
/// element, at every object that sanitizing reaches.
pub open spec fn schema_flat(j: JsonV) -> bool
    decreases j,
{
    match j {
        JsonV::Obj(m) => members_flat(m),
        _ => true,
    }
}

pub open spec fn members_flat(m: Seq<(Seq<char>, JsonV)>) -> bool
    decreases m,
{
    if m.len() == 0 {
        true
    } else {
        let k = m[m.len() - 1].0;
        let v = m[m.len() - 1].1;
        &&& members_flat(m.subrange(0, m.len() - 1))
        &&& (k == "type"@ && v is Arr && v->Arr_0.len() > 0) ==> !(v->Arr_0[0] is Arr)
        &&& (k == "properties"@ && v is Obj) ==> values_flat(v->Obj_0)
        &&& (k == "items"@ && !(k == "type"@ && v is Arr)) ==> schema_flat(v)
    }
}

pub open spec fn values_flat(p: Seq<(Seq<char>, JsonV)>) -> bool
    decreases p,
{
    if p.len() == 0 {
        true
    } else {
        values_flat(p.subrange(0, p.len() - 1)) && schema_flat(p[p.len() - 1].1)
    }
}

/// A sanitized schema object holds none of the dropped keywords.
pub proof fn lemma_sanitize_drops_keywords(m: Seq<(Seq<char>, JsonV)>)
    ensures
        forall|q: int| 0 <= q < sanitize_members(m).len() ==> !is_dropped_keyword(#[trigger] sanitize_members(m)[q].0),
    decreases m.len(),
{
    if m.len() > 0 {
        let init = m.subrange(0, m.len() - 1);
        let k = m[m.len() - 1].0;
        let v = m[m.len() - 1].1;
        lemma_sanitize_drops_keywords(init);
        let rest = sanitize_members(init);
        let out = sanitize_members(m);
        lemma_keywords_distinct();
        if out.len() > rest.len() {
            assert(out.subrange(0, rest.len() as int) =~= rest);
            assert(out[rest.len() as int].0 == k);
            assert(!is_dropped_keyword(k));
            assert forall|q: int| 0 <= q < out.len() implies !is_dropped_keyword(#[trigger] out[q].0) by {
                if q < rest.len() {
                    assert(out[q] == rest[q]);
                }
            }
        } else {
            assert(out =~= rest);
        }
    }
}

/// In a sanitized schema object, `type` is never an array, when no `type`
/// array of the object had an array as its first element.
pub proof fn lemma_sanitize_collapses_type(m: Seq<(Seq<char>, JsonV)>)
    requires
        members_flat(m),
    ensures
        forall|q: int|
            0 <= q < sanitize_members(m).len() && #[trigger] sanitize_members(m)[q].0 == "type"@
                ==> !(sanitize_members(m)[q].1 is Arr),
    decreases m.len(),
{
    if m.len() > 0 {
        let init = m.subrange(0, m.len() - 1);
        let k = m[m.len() - 1].0;
        let v = m[m.len() - 1].1;
        lemma_sanitize_collapses_type(init);
        let rest = sanitize_members(init);
        let out = sanitize_members(m);
        lemma_keywords_distinct();
        if out.len() > rest.len() {
            assert(out.subrange(0, rest.len() as int) =~= rest);
            let e = out[rest.len() as int];
            if k == "type"@ && v is Arr {
                assert(e == (k, v->Arr_0[0]));
            } else if k == "properties"@ && v is Obj {
                assert(e.0 == k);
            } else if k == "items"@ {
                assert(e.0 == k);
            } else {
                assert(e == (k, v));
            }
            assert forall|q: int| 0 <= q < out.len() && #[trigger] out[q].0 == "type"@ implies !(out[q].1 is Arr) by {
                if q < rest.len() {
                    assert(out[q] == rest[q]);
                }
            }
        } else {
            assert(out =~= rest);
        }
    }
}

/// Sanitizing a schema a second time changes nothing, when no `type` array
/// that it collapses has an array as its first element.
pub proof fn lemma_sanitize_idempotent(j: JsonV)
    requires
        schema_flat(j),
    ensures
        sanitize_v(sanitize_v(j)) == sanitize_v(j),
    decreases j,
{
    match j {
        JsonV::Obj(m) => {
            lemma_members_idempotent(m);
        },
        _ => {},
    }
}

proof fn lemma_members_idempotent(m: Seq<(Seq<char>, JsonV)>)
    requires
        members_flat(m),
    ensures
        sanitize_members(sanitize_members(m)) == sanitize_members(m),
    decreases m,
{
    if m.len() > 0 {
        let init = m.subrange(0, m.len() - 1);
        let k = m[m.len() - 1].0;
        let v = m[m.len() - 1].1;
        lemma_members_idempotent(init);
        let rest = sanitize_members(init);
        let out = sanitize_members(m);
        lemma_keywords_distinct();
        if out.len() > rest.len() {
            let e = out[out.len() - 1];
            assert(out =~= rest.push(e));
            assert(out.subrange(0, out.len() - 1) =~= rest);
            if k == "type"@ && v is Arr {
                assert(e == (k, v->Arr_0[0]));
                assert(!(e.1 is Arr));
                assert(sanitize_members(out) =~= rest.push(e));
            } else if k == "properties"@ && v is Obj {
                assert(decreases_to!(m => v->Obj_0));
                lemma_values_idempotent(v->Obj_0);
                let sv = sanitize_values(v->Obj_0);
                assert(e == (k, JsonV::Obj(sv)));
                assert(e.1 is Obj && e.1->Obj_0 == sv);
                assert(sanitize_values(sv) == sv);
                assert(!(e.0 == "type"@));
                assert(sanitize_members(out) == sanitize_members(rest).push((k, JsonV::Obj(sanitize_values(sv)))));
                assert(sanitize_members(out) =~= rest.push(e));
            } else if k == "items"@ {
                assert(decreases_to!(m => v));
                lemma_sanitize_idempotent(v);
                assert(e == (k, sanitize_v(v)));
                assert(sanitize_members(out) =~= rest.push(e));
            } else {
                assert(e == (k, v));
                assert(sanitize_members(out) =~= rest.push(e));
            }
        } else {
            assert(out =~= rest);
        }
    }
}

proof fn lemma_values_idempotent(p: Seq<(Seq<char>, JsonV)>)
    requires
        values_flat(p),
    ensures
        sanitize_values(sanitize_values(p)) == sanitize_values(p),
    decreases p,
{
    if p.len() > 0 {
        let init = p.subrange(0, p.len() - 1);
        lemma_values_idempotent(init);
        assert(decreases_to!(p => p[p.len() - 1].1));
        lemma_sanitize_idempotent(p[p.len() - 1].1);
        let out = sanitize_values(p);
        assert(out.subrange(0, out.len() - 1) =~= sanitize_values(init));
    }
}

}
