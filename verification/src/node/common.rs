//! The traits every message type implements, and the values that travel with
//! a message to carry its trace context.

use vstd::prelude::*;
use crate::assoc::{
    assoc_map, find_key, keys_unique, lemma_assoc_len, lemma_assoc_lookup, lemma_assoc_push,
    lemma_assoc_update,
};

verus! {

/// The metrics a value reports, each as a field name and its text; `None`
/// when the type reports none at all.
pub open spec fn metric_pairs(r: Option<Vec<(String, String)>>) -> Option<Seq<(Seq<char>, Seq<char>)>> {
    match r {
        Some(v) => Some(v@.map_values(|p: (String, String)| (p.0@, p.1@))),
        None => None,
    }
}

/// A value that reports metrics: the fields whose names end in `_metric`.
pub trait Metric: View {
    /// The metrics that a value with this model reports.
    spec fn metrics(m: Self::V) -> Option<Seq<(Seq<char>, Seq<char>)>>;

    fn collect_metrics(&self) -> (r: Option<Vec<(String, String)>>)
        ensures
            metric_pairs(r) == Self::metrics(self@),
    ;
}

/// A message that a publisher sends again and again, stepping it forward
/// before each further send; the stream ends when `next` answers `false`.
pub trait Message: View + Sized {
    /// The step is defined: it overflows no counter and reads no bad number.
    spec fn next_defined(m: Self::V) -> bool;

    /// The message after one step.
    spec fn next_model(m: Self::V) -> Self::V;

    /// Whether the stream goes on after the step.
    spec fn next_more(m: Self::V) -> bool;

    /// Whether the step is defined, so that `next` may be called.
    fn can_next(&self) -> (r: bool)
        ensures
            r == Self::next_defined(self@),
    ;

    fn next(&mut self) -> (more: bool)
        requires
            Self::next_defined(old(self)@),
        ensures
            final(self)@ == Self::next_model(old(self)@),
            more == Self::next_more(old(self)@),
    ;
}

/// What a session reports of itself and of the nodes it reaches.
pub struct SessionInfo {
    pub zid: String,
    pub routers_zid: Vec<String>,
    pub peers_zid: Option<Vec<String>>,
}

/// The trace context that travels with a message: named text fields, such
/// as the `traceparent` header, each name present at most once.
#[derive(Debug)]
pub struct PropagationContext(Vec<(String, String)>);

impl PropagationContext {
    #[verifier::type_invariant]
    spec fn well_formed(self) -> bool {
        keys_unique(self.0@)
    }
}

/// The text of each value.
pub open spec fn text_values(m: Map<Seq<char>, String>) -> Map<Seq<char>, Seq<char>> {
    m.map_values(|v: String| v@)
}

impl View for PropagationContext {
    type V = Map<Seq<char>, Seq<char>>;

    closed spec fn view(&self) -> Map<Seq<char>, Seq<char>> {
        text_values(assoc_map(self.0@))
    }
}

impl PropagationContext {
    /// A context with no fields.
    pub fn empty() -> (r: Self)
        ensures
            r@ == Map::<Seq<char>, Seq<char>>::empty(),
    {
        let r = PropagationContext(Vec::new());
        assert(r@ =~= Map::<Seq<char>, Seq<char>>::empty());
        r
    }

    /// A copy with the same fields.
    fn copy_fields(&self) -> (r: Self)
        ensures
            r@ == self@,
    {
        proof {
            use_type_invariant(self);
        }
        let mut v: Vec<(String, String)> = Vec::new();
        let mut i: usize = 0;
        while i < self.0.len()
            invariant
                i <= self.0@.len(),
                keys_unique(self.0@),
                v@.len() == i,
                forall|j: int| 0 <= j < i ==> #[trigger] v@[j] == self.0@[j],
            decreases self.0@.len() - i,
        {
            let k = self.0[i].0.clone();
            let t = self.0[i].1.clone();
            v.push((k, t));
            i = i + 1;
        }
        assert(v@ =~= self.0@);
        PropagationContext(v)
    }

    /// Sets the field `key` to `value`, replacing what it held.
    pub fn set(&mut self, key: &str, value: String)
        ensures
            final(self)@ == old(self)@.insert(key@, value@),
    {
        proof {
            use_type_invariant(&*self);
        }
        let mut entries: Vec<(String, String)> = Vec::new();
        std::mem::swap(&mut entries, &mut self.0);
        let ghost before = entries@;
        let k = String::from_str(key);
        let ghost p = (k, value);
        match find_key(&entries, key) {
            Some(i) => {
                proof {
                    lemma_assoc_update(before, i as int, p);
                }
                entries.set(i, (k, value));
            },
            None => {
                proof {
                    lemma_assoc_push(before, p);
                }
                entries.push((k, value));
            },
        }
        assert(text_values(assoc_map(entries@)) =~= text_values(assoc_map(before)).insert(
            key@,
            value@,
        ));
        self.0 = entries;
    }

    /// The text of the field `key`, if the context has it.
    pub fn get<'a>(&'a self, key: &str) -> (r: Option<&'a str>)
        ensures
            match r {
                Some(v) => self@.contains_key(key@) && v@ == self@[key@],
                None => !self@.contains_key(key@),
            },
    {
        proof {
            use_type_invariant(self);
        }
        match find_key(&self.0, key) {
            Some(i) => Some(self.0[i].1.as_str()),
            None => None,
        }
    }

    /// The names of the fields the context has, each once.
    pub fn keys<'a>(&'a self) -> (r: Vec<&'a str>)
        ensures
            r@.len() == self@.len(),
            forall|i: int| 0 <= i < r@.len() ==> self@.contains_key(#[trigger] r@[i]@),
            forall|k: Seq<char>|
                self@.contains_key(k) ==> exists|i: int| 0 <= i < r@.len() && #[trigger] r@[i]@ == k,
            forall|i: int, j: int|
                0 <= i < r@.len() && 0 <= j < r@.len() && i != j ==> #[trigger] r@[i]@
                    != #[trigger] r@[j]@,
    {
        proof {
            use_type_invariant(self);
        }
        let mut r: Vec<&'a str> = Vec::new();
        let mut i: usize = 0;
        while i < self.0.len()
            invariant
                i <= self.0@.len(),
                keys_unique(self.0@),
                r@.len() == i,
                forall|j: int| 0 <= j < i ==> (#[trigger] r@[j])@ == self.0@[j].0@,
            decreases self.0@.len() - i,
        {
            r.push(self.0[i].0.as_str());
            i = i + 1;
        }
        proof {
            lemma_assoc_len(self.0@);
            assert(self@.dom() =~= assoc_map(self.0@).dom());
            assert forall|k: Seq<char>| self@.contains_key(k) implies exists|i: int|
                0 <= i < r@.len() && #[trigger] r@[i]@ == k by {
                lemma_assoc_lookup(self.0@, k);
                let i = choose|i: int| 0 <= i < self.0@.len() && #[trigger] self.0@[i].0@ == k;
                assert(r@[i]@ == k);
            }
            assert forall|i: int| 0 <= i < r@.len() implies self@.contains_key(#[trigger] r@[i]@) by {
                lemma_assoc_lookup(self.0@, r@[i]@);
                assert(self.0@[i].0@ == r@[i]@);
            }
            assert forall|i: int, j: int|
                0 <= i < r@.len() && 0 <= j < r@.len() && i != j implies #[trigger] r@[i]@
                != #[trigger] r@[j]@ by {
                assert(self.0@[i].0@ != self.0@[j].0@);
            }
        }
        r
    }
}

/// The context after a run of `set` calls on a context `m`, each call given
/// as its key and text, in the order they were made.
pub open spec fn after_sets(m: Map<Seq<char>, Seq<char>>, sets: Seq<(Seq<char>, Seq<char>)>) -> Map<
    Seq<char>,
    Seq<char>,
> decreases sets.len(),
{
    if sets.len() == 0 {
        m
    } else {
        after_sets(m, sets.drop_last()).insert(sets.last().0, sets.last().1)
    }
}

/// The text that the last call in `sets` for `key` set, if any call did.
pub open spec fn last_set(sets: Seq<(Seq<char>, Seq<char>)>, key: Seq<char>) -> Option<Seq<char>>
    decreases sets.len(),
{
    if sets.len() == 0 {
        None
    } else if sets.last().0 == key {
        Some(sets.last().1)
    } else {
        last_set(sets.drop_last(), key)
    }
}

/// After any run of `set` calls, a field reads back as the last call for
/// its name set it; a field that no call set reads as before the run, so on
/// a context that started empty it is absent.
pub proof fn law_context_read_after_writes(
    m: Map<Seq<char>, Seq<char>>,
    sets: Seq<(Seq<char>, Seq<char>)>,
    key: Seq<char>,
)
    ensures
        last_set(sets, key) matches Some(v) ==> after_sets(m, sets).contains_key(key) && after_sets(
            m,
            sets,
        )[key] == v,
        last_set(sets, key) is None ==> (after_sets(m, sets).contains_key(key) == m.contains_key(key)
            && (m.contains_key(key) ==> after_sets(m, sets)[key] == m[key])),
    decreases sets.len(),
{
    if sets.len() > 0 {
        law_context_read_after_writes(m, sets.drop_last(), key);
    }
}

impl Clone for PropagationContext {
    fn clone(&self) -> (r: Self)
        ensures
            r@ == self@,
    {
        self.copy_fields()
    }
}

impl Default for PropagationContext {
    /// A context with no fields.
    fn default() -> (r: Self)
        ensures
            r@ == Map::<Seq<char>, Seq<char>>::empty(),
    {
        PropagationContext::empty()
    }
}

/// A message as it travels: its text together with the trace context of the
/// span that sent it.
#[derive(Debug)]
pub struct SpannedMessage {
    pub message: String,
    pub span: PropagationContext,
}

impl Clone for SpannedMessage {
    fn clone(&self) -> (r: Self)
        ensures
            r.message@ == self.message@,
            r.span@ == self.span@,
    {
        SpannedMessage { message: self.message.clone(), span: self.span.clone() }
    }
}

impl Default for SpannedMessage {
    /// An empty text with an empty trace context.
    fn default() -> (r: Self)
        ensures
            r.message@ == Seq::<char>::empty(),
            r.span@ == Map::<Seq<char>, Seq<char>>::empty(),
    {
        SpannedMessage { message: String::new(), span: PropagationContext::empty() }
    }
}

} // verus!
