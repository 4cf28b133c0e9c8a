use vstd::prelude::*;

use crate::assoc::{assoc_get, assoc_insert, lemma_key_index_absent, lemma_key_index_is};
use crate::text::same_text;
use crate::types::opt_view;

verus! {

/// What is remembered of a tool call that the model made: the tool's name
/// and the thought signature that came with the call.
#[derive(Debug, Clone)]
pub struct ToolCallMeta {
    pub name: String,
    pub thought_signature: Option<String>,
}

impl View for ToolCallMeta {
    type V = (Seq<char>, Option<Seq<char>>);

    open spec fn view(&self) -> (Seq<char>, Option<Seq<char>>) {
        (self.name@, opt_view(self.thought_signature))
    }
}

/// A copy of an optional string.
pub fn copy_opt(o: &Option<String>) -> (r: Option<String>)
    ensures
        opt_view(r) == opt_view(*o),
{
    match o {
        Some(s) => Some(s.clone()),
        None => None,
    }
}

impl ToolCallMeta {
    /// A copy of the record.
    pub fn copy(&self) -> (r: ToolCallMeta)
        ensures
            r@ == self@,
    {
        ToolCallMeta { name: self.name.clone(), thought_signature: copy_opt(&self.thought_signature) }
    }
}

/// The tool calls seen in the model's answers, by call ID. Setting an ID
/// that is already present replaces its record.
#[derive(Debug)]
pub struct ToolCallCache {
    entries: Vec<(String, ToolCallMeta)>,
}

impl View for ToolCallCache {
    type V = Seq<(Seq<char>, (Seq<char>, Option<Seq<char>>))>;

    closed spec fn view(&self) -> Seq<(Seq<char>, (Seq<char>, Option<Seq<char>>))> {
        self.entries@.map_values(|e: (String, ToolCallMeta)| (e.0@, e.1@))
    }
}

impl ToolCallCache {
    /// An empty cache.
    pub fn new() -> (c: ToolCallCache)
        ensures
            c@ == Seq::<(Seq<char>, (Seq<char>, Option<Seq<char>>))>::empty(),
    {
        let c = ToolCallCache { entries: Vec::new() };
        proof {
            assert(c@ =~= Seq::<(Seq<char>, (Seq<char>, Option<Seq<char>>))>::empty());
        }
        c
    }

    /// The number of calls remembered.
    pub fn len(&self) -> (n: usize)
        ensures
            n == self@.len(),
    {
        self.entries.len()
    }

    /// Remembers `meta` under `id`.
    pub fn insert(&mut self, id: String, meta: ToolCallMeta)
        ensures
            final(self)@ == assoc_insert(old(self)@, id@, meta@),
    {
        let ghost m = self@;
        let mut i: usize = 0;
        while i < self.entries.len()
            invariant
                i <= self.entries.len(),
                m == self@,
                m == old(self)@,
                forall|k: int| 0 <= k < i ==> m[k].0 != id@,
            decreases self.entries.len() - i,
        {
            if same_text(self.entries[i].0.as_str(), id.as_str()) {
                proof {
                    lemma_key_index_is(m, id@, i as int);
                }
                let ghost idv = id@;
                let ghost metav = meta@;
                self.entries.set(i, (id, meta));
                proof {
                    assert(self@ =~= m.update(i as int, (idv, metav)));
                }
                return ;
            }
            i = i + 1;
        }
        proof {
            lemma_key_index_absent(m, id@);
        }
        let ghost idv = id@;
        let ghost metav = meta@;
        self.entries.push((id, meta));
        proof {
            assert(self@ =~= m.push((idv, metav)));
        }
    }

    /// The record remembered under `id`.
    pub fn get(&self, id: &str) -> (r: Option<&ToolCallMeta>)
        ensures
            match r {
                Some(meta) => assoc_get(self@, id@) == Some(meta@),
                None => assoc_get(self@, id@) is None,
            },
    {
        let ghost m = self@;
        let mut i: usize = 0;
        while i < self.entries.len()
            invariant
                i <= self.entries.len(),
                m == self@,
                forall|k: int| 0 <= k < i ==> m[k].0 != id@,
            decreases self.entries.len() - i,
        {
            if same_text(self.entries[i].0.as_str(), id) {
                proof {
                    lemma_key_index_is(m, id@, i as int);
                }
                return Some(&self.entries[i].1);
            }
            i = i + 1;
        }
        proof {
            lemma_key_index_absent(m, id@);
        }
        None
    }
}

}
