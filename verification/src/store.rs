//! The per-run variable store: a mapping from names to tagged values,
//! created empty at the start of each run, mutated only by loop binding, and
//! never shared between runs.

use vstd::prelude::*;
use crate::strutil::{int_text, int_to_string, str_eq};

verus! {

/// A tagged value: a string or a number.
#[derive(PartialEq, Eq, Debug)]
pub enum VariableValue {
    StringValue(String),
    NumberValue(i64),
}

impl Clone for VariableValue {
    fn clone(&self) -> (r: Self)
        ensures
            r == *self,
    {
        match self {
            VariableValue::StringValue(s) => VariableValue::StringValue(s.clone()),
            VariableValue::NumberValue(n) => VariableValue::NumberValue(*n),
        }
    }
}

/// A stored variable.
#[derive(PartialEq, Eq, Debug)]
pub struct Variable {
    pub value: VariableValue,
}

impl Clone for Variable {
    fn clone(&self) -> (r: Self)
        ensures
            r == *self,
    {
        Variable { value: self.value.clone() }
    }
}

impl Variable {
    pub fn new(value: VariableValue) -> (r: Variable)
        ensures
            r == (Variable { value }),
    {
        Variable { value }
    }
}

/// The textual form a value takes in a rendered template: strings stand as
/// they are, numbers in their decimal form.
pub open spec fn value_text(v: VariableValue) -> Seq<char> {
    match v {
        VariableValue::StringValue(s) => s@,
        VariableValue::NumberValue(n) => int_text(n as int),
    }
}

/// Renders a value as the text a template substitutes for it.
pub fn get_value(v: &VariableValue) -> (r: String)
    ensures
        r@ == value_text(*v),
{
    match v {
        VariableValue::StringValue(s) => s.clone(),
        VariableValue::NumberValue(n) => int_to_string(*n),
    }
}

/// The mapping a sequence of name-value entries denotes; a later entry for
/// the same name wins.
pub open spec fn map_of(s: Seq<(String, Variable)>) -> Map<Seq<char>, Variable>
    decreases s.len(),
{
    if s.len() == 0 {
        Map::empty()
    } else {
        map_of(s.drop_last()).insert(s.last().0@, s.last().1)
    }
}

proof fn lemma_map_of_domain(s: Seq<(String, Variable)>)
    ensures
        forall|k: Seq<char>|
            map_of(s).contains_key(k) <==> (exists|i: int|
                0 <= i < s.len() && #[trigger] s[i].0@ == k),
    decreases s.len(),
{
    if s.len() > 0 {
        lemma_map_of_domain(s.drop_last());
        assert forall|k: Seq<char>| map_of(s).contains_key(k) implies (exists|i: int|
            0 <= i < s.len() && #[trigger] s[i].0@ == k) by {
            if k == s.last().0@ {
                assert(s[s.len() - 1].0@ == k);
            } else {
                assert(map_of(s.drop_last()).contains_key(k));
                let i = choose|i: int| 0 <= i < s.drop_last().len() && #[trigger] s.drop_last()[i].0@ == k;
                assert(s.drop_last()[i] == s[i]);
                assert(s[i].0@ == k);
            }
        }
        assert forall|k: Seq<char>| (exists|i: int| 0 <= i < s.len() && #[trigger] s[i].0@ == k)
            implies map_of(s).contains_key(k) by {
            let i = choose|i: int| 0 <= i < s.len() && #[trigger] s[i].0@ == k;
            if i < s.len() - 1 {
                assert(s.drop_last()[i].0@ == k);
                assert(map_of(s.drop_last()).contains_key(k));
            } else {
                assert(k == s.last().0@);
            }
        }
    }
}

proof fn lemma_map_of_get(s: Seq<(String, Variable)>, i: int)
    requires
        0 <= i < s.len(),
        forall|j: int| 0 <= j < s.len() && j != i ==> #[trigger] s[j].0@ != s[i].0@,
    ensures
        map_of(s).contains_key(s[i].0@),
        map_of(s)[s[i].0@] == s[i].1,
    decreases s.len(),
{
    if i == s.len() - 1 {
    } else {
        assert(s.drop_last()[i] == s[i]);
        assert forall|j: int| 0 <= j < s.drop_last().len() && j != i implies #[trigger] s
            .drop_last()[j].0@ != s.drop_last()[i].0@ by {
            assert(s.drop_last()[j] == s[j]);
        }
        lemma_map_of_get(s.drop_last(), i);
        assert(s[s.len() - 1].0@ != s[i].0@);
    }
}

proof fn lemma_map_of_update(s: Seq<(String, Variable)>, i: int, e: (String, Variable))
    requires
        0 <= i < s.len(),
        e.0@ == s[i].0@,
        forall|j: int| 0 <= j < s.len() && j != i ==> #[trigger] s[j].0@ != s[i].0@,
    ensures
        map_of(s.update(i, e)) == map_of(s).insert(e.0@, e.1),
    decreases s.len(),
{
    let t = s.update(i, e);
    if i == s.len() - 1 {
        assert(t.drop_last() =~= s.drop_last());
        assert(t.last() == e);
        assert(map_of(t) =~= map_of(s).insert(e.0@, e.1));
    } else {
        assert(t.drop_last() =~= s.drop_last().update(i, e));
        assert(s.drop_last()[i] == s[i]);
        assert forall|j: int| 0 <= j < s.drop_last().len() && j != i implies #[trigger] s
            .drop_last()[j].0@ != s.drop_last()[i].0@ by {
            assert(s.drop_last()[j] == s[j]);
        }
        lemma_map_of_update(s.drop_last(), i, e);
        assert(t.last() == s.last());
        assert(s[s.len() - 1].0@ != s[i].0@);
        assert(map_of(t) =~= map_of(s).insert(e.0@, e.1));
    }
}

/// Every name occurs at most once among the entries.
pub open spec fn entries_wf(s: Seq<(String, Variable)>) -> bool {
    forall|i: int, j: int|
        0 <= i < j < s.len() ==> (#[trigger] s[i]).0@ != (#[trigger] s[j]).0@
}

proof fn lemma_wf_distinct(s: Seq<(String, Variable)>, i: int)
    requires
        entries_wf(s),
        0 <= i < s.len(),
    ensures
        forall|j: int| 0 <= j < s.len() && j != i ==> (#[trigger] s[j]).0@ != s[i].0@,
{
    assert forall|j: int| 0 <= j < s.len() && j != i implies (#[trigger] s[j]).0@ != s[i].0@ by {
        if j < i {
            assert(s[j].0@ != s[i].0@);
        } else {
            assert(s[i].0@ != s[j].0@);
        }
    }
}

/// The per-run variable store.
pub struct VariableStore {
    entries: Vec<(String, Variable)>,
}

impl View for VariableStore {
    type V = Map<Seq<char>, Variable>;

    closed spec fn view(&self) -> Map<Seq<char>, Variable> {
        map_of(self.entries@)
    }
}

impl VariableStore {
    /// Names are stored at most once.
    pub closed spec fn wf(&self) -> bool {
        entries_wf(self.entries@)
    }

    /// A fresh, empty store.
    pub fn new() -> (r: VariableStore)
        ensures
            r.wf(),
            r@ == Map::<Seq<char>, Variable>::empty(),
    {
        VariableStore { entries: Vec::new() }
    }

    /// Inserts or overwrites; no history is kept.
    pub fn set(&mut self, name: String, value: VariableValue)
        requires
            old(self).wf(),
        ensures
            final(self).wf(),
            final(self)@ == old(self)@.insert(name@, Variable { value }),
    {
        let ghost s0 = self.entries@;
        let n = self.entries.len();
        let mut i: usize = 0;
        while i < n
            invariant
                s0 == old(self).entries@,
                self.entries@ == s0,
                entries_wf(s0),
                n == s0.len(),
                i <= n,
                forall|j: int| 0 <= j < i ==> #[trigger] s0[j].0@ != name@,
        decreases n - i,
        {
            if str_eq(self.entries[i].0.as_str(), name.as_str()) {
                proof {
                    lemma_wf_distinct(s0, i as int);
                    lemma_map_of_update(s0, i as int, (name, Variable { value }));
                }
                self.entries[i] = (name, Variable { value });
                proof {
                    let t = self.entries@;
                    assert forall|p: int, q: int| 0 <= p < q < t.len() implies (#[trigger] t[p]).0@
                        != (#[trigger] t[q]).0@ by {
                        assert(s0[p].0@ != s0[q].0@);
                        if p != i {
                            assert(t[p] == s0[p]);
                        }
                        if q != i {
                            assert(t[q] == s0[q]);
                        }
                    }
                }
                return ;
            }
            i = i + 1;
        }
        proof {
            lemma_map_of_domain(s0);
        }
        self.entries.push((name, Variable { value }));
        proof {
            assert(self.entries@.drop_last() =~= s0);
            assert(self.entries@.last() == (name, Variable { value }));
            assert(final(self)@ == old(self)@.insert(name@, Variable { value }));
        }
    }

    /// The variable stored under `name`, absent when it was never set.
    pub fn get(&self, name: &str) -> (r: Option<&Variable>)
        requires
            self.wf(),
        ensures
            match r {
                Some(v) => self@.contains_key(name@) && *v == self@[name@],
                None => !self@.contains_key(name@),
            },
    {
        let n = self.entries.len();
        let mut i: usize = 0;
        while i < n
            invariant
                self.wf(),
                n == self.entries@.len(),
                i <= n,
                forall|j: int| 0 <= j < i ==> #[trigger] self.entries@[j].0@ != name@,
            decreases n - i,
        {
            if str_eq(self.entries[i].0.as_str(), name) {
                proof {
                    lemma_wf_distinct(self.entries@, i as int);
                    lemma_map_of_get(self.entries@, i as int);
                }
                return Some(&self.entries[i].1);
            }
            i = i + 1;
        }
        proof {
            lemma_map_of_domain(self.entries@);
        }
        None
    }
}

} // verus!
