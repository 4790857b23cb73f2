use vstd::prelude::*;
use crate::event::{keep_names, LogEvent, ValueView};

verus! {

/// How an event's body is rendered.
#[derive(Clone, Copy, Debug, PartialEq, Eq, Structural)]
pub enum Encoding {
    /// The whole (filtered) event as one JSON object.
    Json,
    /// The display text of the message field alone.
    Text,
}

/// The codec and the field filter applied before rendering.
pub struct EncodingConfig {
    pub codec: Encoding,
    /// When set, only fields named here are kept.
    pub only_fields: Option<Vec<String>>,
    /// When set, fields named here are dropped.
    pub except_fields: Option<Vec<String>>,
}

/// The names held by an optional list, as a sequence.
pub open spec fn names_view(l: Option<Vec<String>>) -> Option<Seq<Seq<char>>> {
    match l {
        Some(v) => Some(v@.map_values(|s: String| s@)),
        None => None,
    }
}

/// Whether a field named `n` passes an allow-list `only` and a deny-list `except`.
pub open spec fn name_allowed(
    only: Option<Seq<Seq<char>>>,
    except: Option<Seq<Seq<char>>>,
    n: Seq<char>,
) -> bool {
    &&& (only matches Some(o) ==> o.contains(n))
    &&& (except matches Some(e) ==> !e.contains(n))
}

impl EncodingConfig {
    /// The test a field name must pass to be kept.
    pub open spec fn allows(&self) -> spec_fn(Seq<char>) -> bool {
        |n: Seq<char>| name_allowed(names_view(self.only_fields), names_view(self.except_fields), n)
    }

    /// The codec.
    pub fn codec(&self) -> (r: Encoding)
        ensures
            r == self.codec,
    {
        self.codec
    }

    /// Whether a field named `name` passes the filter.
    pub fn allows_name(&self, name: &String) -> (r: bool)
        ensures
            r == (self.allows())(name@),
    {
        let in_only = match &self.only_fields {
            Some(o) => contains_name(o, name),
            None => true,
        };
        let in_except = match &self.except_fields {
            Some(e) => contains_name(e, name),
            None => false,
        };
        in_only && !in_except
    }

    /// Drops the fields that the filter refuses; the others keep their order.
    pub fn apply_rules(&self, event: &mut LogEvent)
        requires
            old(event).wf(),
        ensures
            final(event).wf(),
            final(event)@ == keep_names(old(event)@, self.allows()),
    {
        let ghost pre = event@;
        let ghost keep = self.allows();
        let mut i: usize = 0;
        let ghost mut k: int = 0;
        while i < event.len()
            invariant
                event.wf(),
                keep == self.allows(),
                0 <= k <= pre.len(),
                i == keep_names(pre.take(k), keep).len(),
                event@ == keep_names(pre.take(k), keep) + pre.skip(k),
            decreases pre.len() - k,
        {
            proof {
                assert(event@[i as int] == pre[k]);
                assert(pre.take(k + 1).drop_last() =~= pre.take(k));
                assert(pre.take(k + 1).last() == pre[k]);
            }
            let f = event.field(i);
            let allowed = self.allows_name(&f.name);
            proof {
                assert(f.name@ == pre[k].0);
                assert(pre.skip(k) =~= seq![pre[k]] + pre.skip(k + 1));
                assert(allowed == (self.allows())(pre[k].0));
                if allowed {
                    assert(keep_names(pre.take(k + 1), keep)
                        == keep_names(pre.take(k), keep).push(pre[k]));
                } else {
                    assert(keep_names(pre.take(k + 1), keep) == keep_names(pre.take(k), keep));
                }
            }
            if allowed {
                i = i + 1;
                proof {
                    assert(event@ =~= keep_names(pre.take(k + 1), keep) + pre.skip(k + 1));
                }
            } else {
                event.remove_at(i);
                proof {
                    assert(event@ =~= keep_names(pre.take(k + 1), keep) + pre.skip(k + 1));
                }
            }
            proof { k = k + 1; }
        }
        proof {
            assert(pre.skip(k).len() == 0);
            assert(pre.take(k) =~= pre);
            assert(event@ =~= keep_names(pre, keep));
        }
    }
}

/// Whether `name` is one of `names`.
fn contains_name(names: &Vec<String>, name: &String) -> (r: bool)
    ensures
        r == names@.map_values(|s: String| s@).contains(name@),
{
    let ghost v = names@.map_values(|s: String| s@);
    let mut i: usize = 0;
    while i < names.len()
        invariant
            i <= names@.len(),
            v.len() == names@.len(),
            v == names@.map_values(|s: String| s@),
            forall|j: int| 0 <= j < i ==> v[j] != name@,
        decreases names.len() - i,
    {
        if names[i].eq(name) {
            assert(v[i as int] == name@);
            return true;
        }
        i = i + 1;
    }
    false
}

} // verus!
