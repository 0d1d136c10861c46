//! The weakly-typed wire attribute and the record shape built from it: an
//! ordered association list from field name to tagged value, with unique
//! keys. Records are the unit the storage port reads, writes and queries.

use vstd::prelude::*;

use crate::assoc::{
    assoc_lookup, assoc_set, assoc_wf, lemma_assoc_first_match, lemma_assoc_no_match,
    lemma_assoc_none_absent, lemma_assoc_set_props, lemma_assoc_set_push, lemma_assoc_set_update,
};

verus! {

/// The mathematical shadow of an attribute: a tagged value over character
/// sequences and booleans.
pub enum AttrVal {
    S(Seq<char>),
    N(Seq<char>),
    B(bool),
}

/// A wire attribute: a string payload, a number carried in decimal text, or
/// a boolean. A given entity field always serialises to exactly one tag.
#[derive(Debug)]
pub enum AttrValue {
    S(String),
    N(String),
    B(bool),
}

impl Clone for AttrValue {
    fn clone(&self) -> (r: Self)
        ensures
            r@ == self@,
    {
        match self {
            AttrValue::S(s) => AttrValue::S(s.clone()),
            AttrValue::N(s) => AttrValue::N(s.clone()),
            AttrValue::B(b) => AttrValue::B(*b),
        }
    }
}

impl View for AttrValue {
    type V = AttrVal;

    open spec fn view(&self) -> AttrVal {
        match self {
            AttrValue::S(s) => AttrVal::S(s@),
            AttrValue::N(s) => AttrVal::N(s@),
            AttrValue::B(b) => AttrVal::B(*b),
        }
    }
}

impl AttrValue {
    /// Tag-and-payload equality, the equality the query engine scans with.
    pub fn matches(&self, other: &AttrValue) -> (r: bool)
        ensures
            r == (self@ == other@),
    {
        match (self, other) {
            (AttrValue::S(a), AttrValue::S(b)) => *a == *b,
            (AttrValue::N(a), AttrValue::N(b)) => *a == *b,
            (AttrValue::B(a), AttrValue::B(b)) => *a == *b,
            _ => false,
        }
    }
}

/// The view of a record: the field list in insertion order.
pub type RecV = Seq<(Seq<char>, AttrVal)>;

/// First-match lookup in a record view.
pub open spec fn rec_lookup(r: RecV, name: Seq<char>) -> Option<AttrVal> {
    assoc_lookup(r, name)
}

/// Unique field names.
pub open spec fn rec_wf(r: RecV) -> bool {
    assoc_wf(r)
}

/// A record: a mapping from field name to typed attribute, kept as an
/// ordered association list with unique names.
#[derive(Debug)]
pub struct Record {
    pub fields: Vec<(String, AttrValue)>,
}

impl Clone for Record {
    fn clone(&self) -> (r: Self)
        ensures
            r@ == self@,
    {
        let mut fields: Vec<(String, AttrValue)> = Vec::new();
        let n = self.fields.len();
        for i in 0..n
            invariant
                n == self.fields@.len(),
                fields@.len() == i,
                forall|k: int|
                    0 <= k < i ==> (#[trigger] fields@[k]).0@ == self.fields@[k].0@
                        && fields@[k].1@ == self.fields@[k].1@,
        {
            let pair = &self.fields[i];
            fields.push((pair.0.clone(), pair.1.clone()));
        }
        let r = Record { fields };
        proof {
            assert(r@ =~= self@);
        }
        r
    }
}

impl View for Record {
    type V = RecV;

    open spec fn view(&self) -> RecV {
        Seq::new(self.fields@.len(), |i: int| (self.fields@[i].0@, self.fields@[i].1@))
    }
}

impl Record {
    pub open spec fn wf(&self) -> bool {
        rec_wf(self@)
    }

    /// The record as a name-to-value map, forgetting field order.
    pub open spec fn as_map(&self) -> Map<Seq<char>, AttrVal> {
        Map::new(|name: Seq<char>| rec_lookup(self@, name) is Some, |name: Seq<char>| rec_lookup(self@, name)->Some_0)
    }

    pub fn new() -> (r: Record)
        ensures
            r@ =~= Seq::<(Seq<char>, AttrVal)>::empty(),
            r.wf(),
    {
        Record { fields: Vec::new() }
    }

    pub fn len(&self) -> (n: usize)
        ensures
            n == self@.len(),
    {
        self.fields.len()
    }

    pub fn field_at(&self, i: usize) -> (r: (&String, &AttrValue))
        requires
            i < self@.len(),
        ensures
            r.0@ == self@[i as int].0,
            r.1@ == self@[i as int].1,
    {
        let pair = &self.fields[i];
        (&pair.0, &pair.1)
    }

    /// First-match lookup by field name.
    pub fn get(&self, name: &str) -> (r: Option<&AttrValue>)
        ensures
            match r {
                Some(v) => rec_lookup(self@, name@) == Some(v@),
                None => rec_lookup(self@, name@) is None,
            },
    {
        let key: String = name.to_owned();
        let n = self.fields.len();
        for i in 0..n
            invariant
                key@ == name@,
                n == self@.len(),
                forall|k: int| 0 <= k < i ==> self@[k].0 != name@,
        {
            if self.fields[i].0 == key {
                proof {
                    lemma_assoc_first_match(self@, name@, i as int);
                }
                return Some(&self.fields[i].1);
            }
        }
        proof {
            lemma_assoc_no_match(self@, name@);
        }
        None
    }

    /// Replaces the field under the name, or appends it when absent.
    pub fn set(&mut self, name: &str, value: AttrValue)
        requires
            old(self).wf(),
        ensures
            final(self)@ =~= assoc_set(old(self)@, name@, value@),
            final(self).wf(),
    {
        let key: String = name.to_owned();
        let n = self.fields.len();
        for i in 0..n
            invariant
                key@ == name@,
                n == self@.len(),
                self@ == old(self)@,
                self.wf(),
                forall|k: int| 0 <= k < i ==> self@[k].0 != name@,
        {
            if self.fields[i].0 == key {
                proof {
                    lemma_assoc_set_props(self@, name@, value@);
                    lemma_assoc_set_update(self@, name@, value@, i as int);
                }
                self.fields[i] = (key, value);
                proof {
                    assert(self@ =~= old(self)@.update(i as int, (name@, value@)));
                }
                return ;
            }
        }
        proof {
            lemma_assoc_set_props(self@, name@, value@);
            lemma_assoc_set_push(self@, name@, value@);
        }
        self.fields.push((key, value));
        proof {
            assert(self@ =~= old(self)@.push((name@, value@)));
        }
    }

    /// Appends a fresh field; the name must not already be present.
    pub fn push(&mut self, name: &str, value: AttrValue)
        requires
            old(self).wf(),
            rec_lookup(old(self)@, name@) is None,
        ensures
            final(self)@ =~= old(self)@.push((name@, value@)),
            final(self).wf(),
    {
        proof {
            lemma_assoc_none_absent(old(self)@, name@);
        }
        let owned: String = name.to_owned();
        self.fields.push((owned, value));
        proof {
            assert(self@ =~= old(self)@.push((name@, value@)));
            assert forall|i: int, j: int| 0 <= i < j < self@.len() implies self@[i].0 != self@[j].0 by {
                if j == self@.len() - 1 {
                    assert(self@[i].0 == old(self)@[i].0);
                }
            }
        }
    }
}

} // verus!
