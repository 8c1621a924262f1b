use vstd::prelude::*;
use vstd::string::StringExecFns;

verus! {

/// The value of a configuration variable.
pub enum Value {
    Flag(bool),
    Text(String),
}

/// The mathematical form of a [`Value`].
pub ghost enum Val {
    Flag(bool),
    Text(Seq<char>),
}

impl View for Value {
    type V = Val;

    open spec fn view(&self) -> Val {
        match self {
            Value::Flag(b) => Val::Flag(*b),
            Value::Text(t) => Val::Text(t@),
        }
    }
}

/// The value of the first entry named `k`, if any.
pub open spec fn lookup<V>(es: Seq<(Seq<char>, V)>, k: Seq<char>) -> Option<V>
    decreases es.len(),
{
    if es.len() == 0 {
        None
    } else if es[0].0 == k {
        Some(es[0].1)
    } else {
        lookup(es.drop_first(), k)
    }
}

/// Whether some entry is named `k`.
pub open spec fn has_name<V>(es: Seq<(Seq<char>, V)>, k: Seq<char>) -> bool {
    exists|m: int| 0 <= m < es.len() && #[trigger] es[m].0 == k
}

/// No two entries share a name.
pub open spec fn names_distinct<V>(es: Seq<(Seq<char>, V)>) -> bool {
    forall|m: int, n: int| 0 <= m < n < es.len() ==> #[trigger] es[m].0 != #[trigger] es[n].0
}

pub open spec fn entries_view<V: View>(es: Seq<(String, V)>) -> Seq<(Seq<char>, V::V)> {
    es.map_values(|e: (String, V)| (e.0@, e.1@))
}

/// A lookup finds an entry exactly when one carries the name.
pub proof fn lemma_lookup_some<V>(es: Seq<(Seq<char>, V)>, k: Seq<char>)
    ensures
        lookup(es, k) is Some <==> has_name(es, k),
    decreases es.len(),
{
    if es.len() > 0 {
        lemma_lookup_some(es.drop_first(), k);
        if has_name(es.drop_first(), k) {
            let m = choose|m: int| 0 <= m < es.len() - 1 && #[trigger] es.drop_first()[m].0 == k;
            assert(es[m + 1].0 == k);
        }
        if has_name(es, k) && es[0].0 != k {
            let m = choose|m: int| 0 <= m < es.len() && #[trigger] es[m].0 == k;
            assert(es.drop_first()[m - 1].0 == k);
        }
    }
}

/// Appending an entry changes only the lookup of a name not present before.
pub proof fn lemma_lookup_push<V>(es: Seq<(Seq<char>, V)>, e: (Seq<char>, V), k: Seq<char>)
    ensures
        lookup(es.push(e), k) == (if lookup(es, k) is Some {
            lookup(es, k)
        } else if e.0 == k {
            Some(e.1)
        } else {
            None
        }),
    decreases es.len(),
{
    if es.len() > 0 {
        assert(es.push(e)[0] == es[0]);
        assert(es.push(e).drop_first() =~= es.drop_first().push(e));
        lemma_lookup_push(es.drop_first(), e, k);
    } else {
        assert(es.push(e)[0] == e);
        assert(es.push(e).drop_first() =~= Seq::<(Seq<char>, V)>::empty());
        assert(lookup(Seq::<(Seq<char>, V)>::empty(), k) is None);
    }
}

/// The position of the first entry named `k`.
fn position<V: View>(es: &Vec<(String, V)>, k: &String) -> (r: Option<usize>)
    ensures
        match r {
            None => lookup(entries_view(es@), k@) is None,
            Some(j) => j < es.len() && es@[j as int].0@ == k@ && lookup(entries_view(es@), k@)
                == Some(es@[j as int].1@),
        },
{
    let ghost w = entries_view(es@);
    let mut i: usize = 0;
    assert(w.skip(0) =~= w);
    while i < es.len()
        invariant
            i <= es.len(),
            w == entries_view(es@),
            lookup(w, k@) == lookup(w.skip(i as int), k@),
        decreases es.len() - i,
    {
        assert(w.skip(i as int)[0] == w[i as int]);
        if es[i].0 == *k {
            return Some(i);
        }
        assert(w.skip(i as int).drop_first() =~= w.skip(i + 1));
        i = i + 1;
    }
    assert(w.skip(i as int).len() == 0);
    None
}

/// The variables of one render: each name bound to a flag or a string.
pub struct Configuration {
    entries: Vec<(String, Value)>,
}

impl View for Configuration {
    type V = Seq<(Seq<char>, Val)>;

    closed spec fn view(&self) -> Seq<(Seq<char>, Val)> {
        entries_view(self.entries@)
    }
}

impl Configuration {
    pub open spec fn wf(&self) -> bool {
        names_distinct(self@)
    }

    /// A configuration with no variables.
    pub fn new() -> (r: Configuration)
        ensures
            r@ == Seq::<(Seq<char>, Val)>::empty(),
            r.wf(),
    {
        let r = Configuration { entries: Vec::new() };
        assert(r@ =~= Seq::<(Seq<char>, Val)>::empty());
        r
    }

    /// Binds `name` to `value`, unless `name` is bound already; tells whether
    /// it did.
    pub fn define(&mut self, name: &str, value: Value) -> (added: bool)
        requires
            old(self).wf(),
        ensures
            final(self).wf(),
            added == (lookup(old(self)@, name@) is None),
            added ==> final(self)@ == old(self)@.push((name@, value@)),
            !added ==> final(self)@ == old(self)@,
            added ==> lookup(final(self)@, name@) == Some(value@),
            forall|k: Seq<char>|
                k != name@ ==> #[trigger] lookup(final(self)@, k) == lookup(old(self)@, k),
    {
        let key = String::from_str(name);
        match position(&self.entries, &key) {
            Some(_) => false,
            None => {
                let ghost before = self.entries@;
                proof {
                    lemma_lookup_some(self@, name@);
                }
                self.entries.push((key, value));
                assert(entries_view(self.entries@) =~= entries_view(before).push((name@, value@)));
                proof {
                    lemma_lookup_push(old(self)@, (name@, value@), name@);
                    assert forall|k: Seq<char>| k != name@ implies #[trigger] lookup(
                        self@,
                        k,
                    ) == lookup(old(self)@, k) by {
                        lemma_lookup_push(old(self)@, (name@, value@), k);
                    }
                }
                true
            },
        }
    }

    /// The value bound to `name`.
    pub fn get(&self, name: &String) -> (r: Option<&Value>)
        ensures
            match r {
                None => lookup(self@, name@) is None,
                Some(v) => lookup(self@, name@) == Some(v@),
            },
    {
        match position(&self.entries, name) {
            None => None,
            Some(j) => Some(&self.entries[j].1),
        }
    }
}

/// The template texts that a render may use, each under its name.
pub struct Registry {
    entries: Vec<(String, String)>,
}

impl View for Registry {
    type V = Seq<(Seq<char>, Seq<char>)>;

    closed spec fn view(&self) -> Seq<(Seq<char>, Seq<char>)> {
        entries_view(self.entries@)
    }
}

impl Registry {
    pub open spec fn wf(&self) -> bool {
        names_distinct(self@)
    }

    /// A registry with no templates.
    pub fn new() -> (r: Registry)
        ensures
            r@ == Seq::<(Seq<char>, Seq<char>)>::empty(),
            r.wf(),
    {
        let r = Registry { entries: Vec::new() };
        assert(r@ =~= Seq::<(Seq<char>, Seq<char>)>::empty());
        r
    }

    /// Registers `text` under `name`, unless `name` is taken already; tells
    /// whether it did.
    pub fn define(&mut self, name: &str, text: &str) -> (added: bool)
        requires
            old(self).wf(),
        ensures
            final(self).wf(),
            added == (lookup(old(self)@, name@) is None),
            added ==> final(self)@ == old(self)@.push((name@, text@)),
            !added ==> final(self)@ == old(self)@,
            added ==> lookup(final(self)@, name@) == Some(text@),
            forall|k: Seq<char>|
                k != name@ ==> #[trigger] lookup(final(self)@, k) == lookup(old(self)@, k),
    {
        let key = String::from_str(name);
        match position(&self.entries, &key) {
            Some(_) => false,
            None => {
                let ghost before = self.entries@;
                proof {
                    lemma_lookup_some(self@, name@);
                }
                self.entries.push((key, String::from_str(text)));
                assert(entries_view(self.entries@) =~= entries_view(before).push((name@, text@)));
                proof {
                    lemma_lookup_push(old(self)@, (name@, text@), name@);
                    assert forall|k: Seq<char>| k != name@ implies #[trigger] lookup(
                        self@,
                        k,
                    ) == lookup(old(self)@, k) by {
                        lemma_lookup_push(old(self)@, (name@, text@), k);
                    }
                }
                true
            },
        }
    }

    /// The text registered under `name`.
    pub fn source(&self, name: &String) -> (r: Option<&String>)
        ensures
            match r {
                None => lookup(self@, name@) is None,
                Some(t) => lookup(self@, name@) == Some(t@),
            },
    {
        match position(&self.entries, name) {
            None => None,
            Some(j) => Some(&self.entries[j].1),
        }
    }

    /// How many templates are registered.
    pub fn len(&self) -> (n: usize)
        ensures
            n == self@.len(),
    {
        self.entries.len()
    }
}

} // verus!
