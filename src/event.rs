use vstd::prelude::*;
use crate::text::{int_text, int_decimal};

verus! {

/// A field value of a log event.
pub enum Value {
    Bytes(String),
    Integer(i64),
    Boolean(bool),
    Null,
}

/// The mathematical form of a [`Value`].
pub enum ValueView {
    Bytes(Seq<char>),
    Integer(int),
    Boolean(bool),
    Null,
}

impl View for Value {
    type V = ValueView;

    open spec fn view(&self) -> ValueView {
        match self {
            Value::Bytes(s) => ValueView::Bytes(s@),
            Value::Integer(n) => ValueView::Integer(*n as int),
            Value::Boolean(b) => ValueView::Boolean(*b),
            Value::Null => ValueView::Null,
        }
    }
}

/// The display text of a value: the text itself, the decimal number,
/// `true` / `false`, or `<null>`.
pub open spec fn display(v: ValueView) -> Seq<char> {
    match v {
        ValueView::Bytes(s) => s,
        ValueView::Integer(n) => int_decimal(n),
        ValueView::Boolean(b) => if b {
            seq!['t', 'r', 'u', 'e']
        } else {
            seq!['f', 'a', 'l', 's', 'e']
        },
        ValueView::Null => seq!['<', 'n', 'u', 'l', 'l', '>'],
    }
}

impl Value {
    /// The display text of the value.
    pub fn to_string_lossy(&self) -> (r: String)
        ensures
            r@ == display(self@),
    {
        match self {
            Value::Bytes(s) => s.clone(),
            Value::Integer(n) => int_text(*n),
            Value::Boolean(b) => {
                if *b {
                    proof { reveal_strlit("true"); }
                    "true".to_owned()
                } else {
                    proof { reveal_strlit("false"); }
                    "false".to_owned()
                }
            },
            Value::Null => {
                proof { reveal_strlit("<null>"); }
                "<null>".to_owned()
            },
        }
    }
}

/// One named field of a log event.
pub struct Field {
    pub name: String,
    pub value: Value,
}

/// An ordered mapping from field names to values.
pub struct LogEvent {
    fields: Vec<Field>,
}

/// The (name, value) pair that a field stands for.
pub open spec fn field_view(f: Field) -> (Seq<char>, ValueView) {
    (f.name@, f.value@)
}

/// No two entries share a name.
pub open spec fn names_unique(s: Seq<(Seq<char>, ValueView)>) -> bool {
    forall|i: int, j: int| 0 <= i < s.len() && 0 <= j < s.len() && i != j ==> s[i].0 != s[j].0
}

/// Whether some entry has the given name.
pub open spec fn has_name(s: Seq<(Seq<char>, ValueView)>, name: Seq<char>) -> bool {
    exists|i: int| 0 <= i < s.len() && s[i].0 == name
}

/// The value under a name, if an entry has it.
pub open spec fn value_of(s: Seq<(Seq<char>, ValueView)>, name: Seq<char>) -> Option<ValueView> {
    if has_name(s, name) {
        Some(s[choose|i: int| 0 <= i < s.len() && s[i].0 == name].1)
    } else {
        None
    }
}

/// The entries whose names satisfy `keep`, in their order.
pub open spec fn keep_names(
    s: Seq<(Seq<char>, ValueView)>,
    keep: spec_fn(Seq<char>) -> bool,
) -> Seq<(Seq<char>, ValueView)>
    decreases s.len(),
{
    if s.len() == 0 {
        s
    } else if keep(s.last().0) {
        keep_names(s.drop_last(), keep).push(s.last())
    } else {
        keep_names(s.drop_last(), keep)
    }
}

/// The test that keeps every name but `name`.
pub open spec fn not_named(name: Seq<char>) -> spec_fn(Seq<char>) -> bool {
    |n: Seq<char>| n != name
}

impl View for LogEvent {
    type V = Seq<(Seq<char>, ValueView)>;

    closed spec fn view(&self) -> Seq<(Seq<char>, ValueView)> {
        self.fields@.map_values(|f: Field| field_view(f))
    }
}

impl LogEvent {
    /// Field names are unique. Every constructor establishes this and every method keeps it.
    pub open spec fn wf(&self) -> bool {
        names_unique(self@)
    }

    /// An event with no fields.
    pub fn new() -> (r: LogEvent)
        ensures
            r.wf(),
            r@ == Seq::<(Seq<char>, ValueView)>::empty(),
    {
        let r = LogEvent { fields: Vec::new() };
        assert(r@ =~= Seq::<(Seq<char>, ValueView)>::empty());
        r
    }

    /// The number of fields.
    pub fn len(&self) -> (r: usize)
        ensures
            r == self@.len(),
    {
        self.fields.len()
    }

    /// The field at position `i`.
    pub fn field(&self, i: usize) -> (r: &Field)
        requires
            i < self@.len(),
        ensures
            field_view(*r) == self@[i as int],
    {
        &self.fields[i]
    }

    /// The position of the field named `name`, if there is one.
    fn position(&self, name: &String) -> (r: Option<usize>)
        requires
            self.wf(),
        ensures
            r is None <==> !has_name(self@, name@),
            r matches Some(i) ==> i < self@.len() && self@[i as int].0 == name@,
    {
        let mut i: usize = 0;
        while i < self.fields.len()
            invariant
                i <= self@.len(),
                self@.len() == self.fields@.len(),
                forall|j: int| 0 <= j < i ==> self@[j].0 != name@,
            decreases self.fields.len() - i,
        {
            if self.fields[i].name.eq(name) {
                assert(self@[i as int].0 == name@);
                return Some(i);
            }
            i = i + 1;
        }
        None
    }
}

/// Keeping every entry of a sequence whose names all pass changes nothing.
pub proof fn lemma_keep_all(s: Seq<(Seq<char>, ValueView)>, keep: spec_fn(Seq<char>) -> bool)
    requires
        forall|i: int| 0 <= i < s.len() ==> keep(#[trigger] s[i].0),
    ensures
        keep_names(s, keep) == s,
    decreases s.len(),
{
    if s.len() > 0 {
        lemma_keep_all(s.drop_last(), keep);
        assert(s.drop_last().push(s.last()) =~= s);
    }
}

/// With unique names, removing the entry named `name` is keeping the others.
pub proof fn lemma_remove_unique(s: Seq<(Seq<char>, ValueView)>, i: int, name: Seq<char>)
    requires
        names_unique(s),
        0 <= i < s.len(),
        s[i].0 == name,
    ensures
        s.remove(i) == keep_names(s, not_named(name)),
    decreases s.len(),
{
    let keep = not_named(name);
    let d = s.drop_last();
    if i == s.len() - 1 {
        assert forall|j: int| 0 <= j < d.len() implies keep(#[trigger] d[j].0) by {
            assert(s[j].0 != s[i].0);
        }
        lemma_keep_all(d, keep);
        assert(s.remove(i) =~= d);
    } else {
        assert(s.last().0 != name) by {
            assert(s[s.len() - 1].0 != s[i].0);
        }
        assert(names_unique(d)) by {
            assert forall|a: int, b: int| 0 <= a < d.len() && 0 <= b < d.len() && a != b implies d[a].0 != d[b].0 by {
                assert(d[a] == s[a] && d[b] == s[b]);
            }
        }
        lemma_remove_unique(d, i, name);
        assert(s.remove(i) =~= d.remove(i).push(s.last()));
    }
}

impl LogEvent {
    /// The value of the field named `name`, if there is one.
    pub fn get(&self, name: &String) -> (r: Option<&Value>)
        requires
            self.wf(),
        ensures
            r is None <==> value_of(self@, name@) is None,
            r matches Some(v) ==> value_of(self@, name@) == Some(v@),
    {
        match self.position(name) {
            Some(i) => {
                assert(self@[i as int].0 == name@);
                Some(&self.fields[i].value)
            },
            None => None,
        }
    }

    /// Sets the field named `name` to `value`, in place when it exists, else at the end.
    pub fn insert(&mut self, name: String, value: Value)
        requires
            old(self).wf(),
        ensures
            final(self).wf(),
            has_name(old(self)@, name@) ==> exists|i: int|
                0 <= i < old(self)@.len() && old(self)@[i].0 == name@
                && final(self)@ == old(self)@.update(i, (name@, value@)),
            !has_name(old(self)@, name@) ==> final(self)@ == old(self)@.push((name@, value@)),
    {
        let ghost pre = self@;
        let ghost pair = (name@, value@);
        match self.position(&name) {
            Some(i) => {
                self.fields.remove(i);
                self.fields.insert(i, Field { name, value });
                assert(self@ =~= pre.update(i as int, pair));
            },
            None => {
                self.fields.push(Field { name, value });
                assert(self@ =~= pre.push(pair));
            },
        }
    }

    /// Takes out the field named `name`, returning its value; the other fields keep their order.
    pub fn remove(&mut self, name: &String) -> (r: Option<Value>)
        requires
            old(self).wf(),
        ensures
            final(self).wf(),
            r is None <==> value_of(old(self)@, name@) is None,
            r matches Some(v) ==> value_of(old(self)@, name@) == Some(v@),
            final(self)@ == keep_names(old(self)@, not_named(name@)),
            !has_name(final(self)@, name@),
    {
        let ghost pre = self@;
        match self.position(name) {
            Some(i) => {
                let f = self.remove_at(i);
                proof {
                    lemma_remove_unique(pre, i as int, name@);
                    assert(pre[i as int].0 == name@);
                }
                Some(f.value)
            },
            None => {
                proof {
                    lemma_keep_all(pre, not_named(name@));
                }
                None
            },
        }
    }

    /// Takes out the field at position `i`.
    pub fn remove_at(&mut self, i: usize) -> (r: Field)
        requires
            old(self).wf(),
            i < old(self)@.len(),
        ensures
            final(self).wf(),
            field_view(r) == old(self)@[i as int],
            final(self)@ == old(self)@.remove(i as int),
    {
        let ghost pre = self@;
        let r = self.fields.remove(i);
        assert(self@ =~= pre.remove(i as int));
        assert forall|a: int, b: int| 0 <= a < self@.len() && 0 <= b < self@.len() && a != b
            implies self@[a].0 != self@[b].0 by {
            let a2 = if a < i { a } else { a + 1 };
            let b2 = if b < i { b } else { b + 1 };
            assert(self@[a] == pre[a2] && self@[b] == pre[b2]);
        }
        r
    }
}

impl LogEvent {
    /// The fields, in order.
    pub fn fields_slice(&self) -> (r: &[Field])
        ensures
            r@.map_values(|f: Field| field_view(f)) == self@,
    {
        self.fields.as_slice()
    }
}

/// An entry survives `keep_names` exactly when it was there and its name passes.
pub proof fn lemma_keep_names_contains(
    s: Seq<(Seq<char>, ValueView)>,
    keep: spec_fn(Seq<char>) -> bool,
    x: (Seq<char>, ValueView),
)
    ensures
        keep_names(s, keep).contains(x) <==> (s.contains(x) && keep(x.0)),
    decreases s.len(),
{
    if s.len() > 0 {
        let d = s.drop_last();
        lemma_keep_names_contains(d, keep, x);
        assert(s =~= d.push(s.last()));
        lemma_push_contains(d, s.last(), x);
        if keep(s.last().0) {
            lemma_push_contains(keep_names(d, keep), s.last(), x);
        }
    }
}

/// What a sequence with one more entry contains.
proof fn lemma_push_contains(
    s: Seq<(Seq<char>, ValueView)>,
    a: (Seq<char>, ValueView),
    x: (Seq<char>, ValueView),
)
    ensures
        s.push(a).contains(x) <==> (s.contains(x) || x == a),
{
    let t = s.push(a);
    if t.contains(x) && x != a {
        let j = choose|j: int| 0 <= j < t.len() && t[j] == x;
        assert(s[j] == x);
    }
    if s.contains(x) {
        let j = choose|j: int| 0 <= j < s.len() && s[j] == x;
        assert(t[j] == x);
    }
    assert(t[s.len() as int] == a);
}

/// A name survives `keep_names` only if it was there and passes.
pub proof fn lemma_keep_names_has(
    s: Seq<(Seq<char>, ValueView)>,
    keep: spec_fn(Seq<char>) -> bool,
    n: Seq<char>,
)
    ensures
        has_name(keep_names(s, keep), n) ==> has_name(s, n) && keep(n),
{
    let k = keep_names(s, keep);
    if has_name(k, n) {
        let j = choose|j: int| 0 <= j < k.len() && k[j].0 == n;
        assert(k.contains(k[j]));
        lemma_keep_names_contains(s, keep, k[j]);
        let m = choose|m: int| 0 <= m < s.len() && s[m] == k[j];
        assert(s[m].0 == n);
    }
}

impl LogEvent {
    /// Whether no two fields share a name.
    pub fn has_unique_names(&self) -> (r: bool)
        ensures
            r == self.wf(),
    {
        let n = self.fields.len();
        let mut i: usize = 0;
        while i < n
            invariant
                n == self@.len(),
                i <= n,
                forall|a: int, b: int| 0 <= a < i && 0 <= b < n && a != b ==> self@[a].0 != self@[b].0,
            decreases n - i,
        {
            let mut j: usize = 0;
            while j < n
                invariant
                    n == self@.len(),
                    i < n,
                    j <= n,
                    forall|a: int, b: int| 0 <= a < i && 0 <= b < n && a != b ==> self@[a].0 != self@[b].0,
                    forall|b: int| 0 <= b < j && b != i ==> self@[i as int].0 != self@[b].0,
                decreases n - j,
            {
                if j != i && self.fields[i].name.eq(&self.fields[j].name) {
                    assert(self@[i as int].0 == self@[j as int].0);
                    return false;
                }
                j = j + 1;
            }
            i = i + 1;
        }
        true
    }
}

} // verus!
