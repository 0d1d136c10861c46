//! Association sequences keyed by character strings: the ordered,
//! unique-key mapping shape shared by records (name to attribute) and by
//! the engine's tables (primary key to record).

use vstd::prelude::*;

verus! {

/// First-match lookup.
pub open spec fn assoc_lookup<V>(s: Seq<(Seq<char>, V)>, name: Seq<char>) -> Option<V>
    decreases s.len(),
{
    if s.len() == 0 {
        None
    } else if s[0].0 == name {
        Some(s[0].1)
    } else {
        assoc_lookup(s.drop_first(), name)
    }
}

/// Unique keys.
pub open spec fn assoc_wf<V>(s: Seq<(Seq<char>, V)>) -> bool {
    forall|i: int, j: int| 0 <= i < j < s.len() ==> s[i].0 != s[j].0
}

/// Replaces the first entry under the name, or appends a fresh one.
pub open spec fn assoc_set<V>(s: Seq<(Seq<char>, V)>, name: Seq<char>, v: V) -> Seq<(Seq<char>, V)>
    decreases s.len(),
{
    if s.len() == 0 {
        seq![(name, v)]
    } else if s[0].0 == name {
        seq![(name, v)] + s.drop_first()
    } else {
        seq![s[0]] + assoc_set(s.drop_first(), name, v)
    }
}

/// Removes the first entry under the name, if any.
pub open spec fn assoc_remove<V>(s: Seq<(Seq<char>, V)>, name: Seq<char>) -> Seq<(Seq<char>, V)>
    decreases s.len(),
{
    if s.len() == 0 {
        s
    } else if s[0].0 == name {
        s.drop_first()
    } else {
        seq![s[0]] + assoc_remove(s.drop_first(), name)
    }
}

/// The first entry carrying the name decides the lookup.
pub proof fn lemma_assoc_first_match<V>(s: Seq<(Seq<char>, V)>, name: Seq<char>, i: int)
    requires
        0 <= i < s.len(),
        s[i].0 == name,
        forall|k: int| 0 <= k < i ==> s[k].0 != name,
    ensures
        assoc_lookup(s, name) == Some(s[i].1),
    decreases s.len(),
{
    if i > 0 {
        lemma_assoc_first_match(s.drop_first(), name, i - 1);
    }
}

/// When no entry carries the name, the lookup is `None`.
pub proof fn lemma_assoc_no_match<V>(s: Seq<(Seq<char>, V)>, name: Seq<char>)
    requires
        forall|k: int| 0 <= k < s.len() ==> s[k].0 != name,
    ensures
        assoc_lookup(s, name) is None,
    decreases s.len(),
{
    if s.len() > 0 {
        lemma_assoc_no_match(s.drop_first(), name);
    }
}

/// A `None` lookup means the name heads no entry.
pub proof fn lemma_assoc_none_absent<V>(s: Seq<(Seq<char>, V)>, name: Seq<char>)
    requires
        assoc_lookup(s, name) is None,
    ensures
        forall|i: int| 0 <= i < s.len() ==> s[i].0 != name,
    decreases s.len(),
{
    if s.len() > 0 {
        lemma_assoc_none_absent(s.drop_first(), name);
        assert forall|i: int| 0 <= i < s.len() implies s[i].0 != name by {
            if i > 0 {
                assert(s.drop_first()[i - 1] == s[i]);
            }
        }
    }
}

/// How `assoc_set` answers lookups, and that it keeps keys unique.
pub proof fn lemma_assoc_set_props<V>(s: Seq<(Seq<char>, V)>, name: Seq<char>, v: V)
    requires
        assoc_wf(s),
    ensures
        assoc_wf(assoc_set(s, name, v)),
        forall|k: int|
            0 <= k < assoc_set(s, name, v).len() ==> (#[trigger] assoc_set(s, name, v)[k].0 == name
                || exists|j: int| 0 <= j < s.len() && s[j].0 == assoc_set(s, name, v)[k].0),
        assoc_lookup(assoc_set(s, name, v), name) == Some(v),
        forall|other: Seq<char>|
            other != name ==> assoc_lookup(assoc_set(s, name, v), other) == assoc_lookup(s, other),
    decreases s.len(),
{
    let t = assoc_set(s, name, v);
    if s.len() == 0 {
        assert(t == seq![(name, v)]);
        assert forall|other: Seq<char>| other != name implies assoc_lookup(t, other) == assoc_lookup(
            s,
            other,
        ) by {
            assert(t.drop_first() =~= Seq::<(Seq<char>, V)>::empty());
            assert(assoc_lookup(t.drop_first(), other) is None);
            assert(assoc_lookup(t, other) is None);
            assert(assoc_lookup(s, other) is None);
        }
    } else if s[0].0 == name {
        assert(t.drop_first() =~= s.drop_first());
        assert forall|other: Seq<char>| other != name implies assoc_lookup(t, other) == assoc_lookup(
            s,
            other,
        ) by {
            assert(assoc_lookup(t, other) == assoc_lookup(t.drop_first(), other));
            assert(assoc_lookup(s, other) == assoc_lookup(s.drop_first(), other));
        }
        assert forall|i: int, j: int| 0 <= i < j < t.len() implies t[i].0 != t[j].0 by {
            if i > 0 {
                assert(t[i] == s[i]);
                assert(t[j] == s[j]);
            } else {
                assert(t[j] == s[j]);
            }
        }
    } else {
        assert(assoc_wf(s.drop_first())) by {
            assert(forall|i: int, j: int|
                0 <= i < j < s.drop_first().len() ==> s.drop_first()[i] == s[i + 1]
                    && s.drop_first()[j] == s[j + 1]);
        }
        lemma_assoc_set_props(s.drop_first(), name, v);
        let t2 = assoc_set(s.drop_first(), name, v);
        assert(t == seq![s[0]] + t2);
        assert(t[0] == s[0]);
        assert(t.drop_first() =~= t2);
        assert(assoc_lookup(t, name) == assoc_lookup(t2, name));
        assert forall|other: Seq<char>| other != name implies assoc_lookup(t, other) == assoc_lookup(
            s,
            other,
        ) by {
            if other == s[0].0 {
                assert(assoc_lookup(t, other) == Some(t[0].1));
                assert(assoc_lookup(s, other) == Some(s[0].1));
            } else {
                assert(assoc_lookup(t, other) == assoc_lookup(t2, other));
                assert(assoc_lookup(s, other) == assoc_lookup(s.drop_first(), other));
            }
        }
        assert forall|i: int, j: int| 0 <= i < j < t.len() implies t[i].0 != t[j].0 by {
            if i > 0 {
                assert(t[i] == t2[i - 1] && t[j] == t2[j - 1]);
            } else {
                assert(t[j] == t2[j - 1]);
                if t2[j - 1].0 == name {
                    assert(t[i].0 == s[0].0);
                    assert(s[0].0 != name);
                } else {
                    let w = choose|w: int|
                        0 <= w < s.drop_first().len() && s.drop_first()[w].0 == t2[j - 1].0;
                    assert(s[w + 1] == s.drop_first()[w]);
                    assert(s[0].0 != s[w + 1].0);
                }
            }
        }
    }
}

/// How `assoc_remove` answers lookups, and that it keeps keys unique.
pub proof fn lemma_assoc_remove_props<V>(s: Seq<(Seq<char>, V)>, name: Seq<char>)
    requires
        assoc_wf(s),
    ensures
        assoc_wf(assoc_remove(s, name)),
        forall|k: int|
            0 <= k < assoc_remove(s, name).len() ==> exists|j: int|
                0 <= j < s.len() && s[j] == #[trigger] assoc_remove(s, name)[k],
        assoc_lookup(assoc_remove(s, name), name) is None,
        forall|other: Seq<char>|
            other != name ==> assoc_lookup(assoc_remove(s, name), other) == assoc_lookup(s, other),
    decreases s.len(),
{
    let t = assoc_remove(s, name);
    if s.len() == 0 {
    } else if s[0].0 == name {
        assert(t =~= s.drop_first());
        assert forall|other: Seq<char>| other != name implies assoc_lookup(t, other) == assoc_lookup(
            s,
            other,
        ) by {
            assert(assoc_lookup(s, other) == assoc_lookup(s.drop_first(), other));
        }
        assert(assoc_wf(t)) by {
            assert(forall|i: int, j: int|
                0 <= i < j < t.len() ==> t[i] == s[i + 1] && t[j] == s[j + 1]);
        }
        assert(assoc_lookup(t, name) is None) by {
            assert forall|i: int| 0 <= i < t.len() implies t[i].0 != name by {
                assert(t[i] == s[i + 1]);
                assert(s[0].0 == name);
            }
            lemma_assoc_no_match(t, name);
        }
        assert forall|k: int| 0 <= k < t.len() implies exists|j: int|
            0 <= j < s.len() && s[j] == #[trigger] t[k] by {
            assert(s[k + 1] == t[k]);
        }
    } else {
        assert(assoc_wf(s.drop_first())) by {
            assert(forall|i: int, j: int|
                0 <= i < j < s.drop_first().len() ==> s.drop_first()[i] == s[i + 1]
                    && s.drop_first()[j] == s[j + 1]);
        }
        lemma_assoc_remove_props(s.drop_first(), name);
        let t2 = assoc_remove(s.drop_first(), name);
        assert(t == seq![s[0]] + t2);
        assert(t[0] == s[0]);
        assert(t.drop_first() =~= t2);
        assert(assoc_lookup(t, name) == assoc_lookup(t2, name));
        assert forall|other: Seq<char>| other != name implies assoc_lookup(t, other) == assoc_lookup(
            s,
            other,
        ) by {
            if other == s[0].0 {
                assert(assoc_lookup(t, other) == Some(t[0].1));
                assert(assoc_lookup(s, other) == Some(s[0].1));
            } else {
                assert(assoc_lookup(t, other) == assoc_lookup(t2, other));
                assert(assoc_lookup(s, other) == assoc_lookup(s.drop_first(), other));
            }
        }
        assert forall|k: int| 0 <= k < t.len() implies exists|j: int|
            0 <= j < s.len() && s[j] == #[trigger] t[k] by {
            if k == 0 {
                assert(s[0] == t[0]);
            } else {
                let w = choose|w: int|
                    0 <= w < s.drop_first().len() && s.drop_first()[w] == t2[k - 1];
                assert(s[w + 1] == s.drop_first()[w]);
            }
        }
        assert forall|i: int, j: int| 0 <= i < j < t.len() implies t[i].0 != t[j].0 by {
            if i > 0 {
                assert(t[i] == t2[i - 1] && t[j] == t2[j - 1]);
            } else {
                let w = choose|w: int|
                    0 <= w < s.drop_first().len() && s.drop_first()[w] == t2[j - 1];
                assert(s[w + 1] == s.drop_first()[w]);
                assert(s[0].0 != s[w + 1].0);
            }
        }
    }
}

/// The exec shape of `assoc_set` when the name sits at index `i`.
pub proof fn lemma_assoc_set_update<V>(s: Seq<(Seq<char>, V)>, name: Seq<char>, v: V, i: int)
    requires
        0 <= i < s.len(),
        s[i].0 == name,
        forall|k: int| 0 <= k < i ==> s[k].0 != name,
    ensures
        assoc_set(s, name, v) =~= s.update(i, (name, v)),
    decreases s.len(),
{
    if i > 0 {
        lemma_assoc_set_update(s.drop_first(), name, v, i - 1);
        assert(assoc_set(s, name, v) == seq![s[0]] + assoc_set(s.drop_first(), name, v));
        assert(s.update(i, (name, v)).drop_first() =~= s.drop_first().update(i - 1, (name, v)));
        assert(assoc_set(s, name, v) =~= s.update(i, (name, v)));
    } else {
        assert(assoc_set(s, name, v) == seq![(name, v)] + s.drop_first());
        assert(assoc_set(s, name, v) =~= s.update(0, (name, v)));
    }
}

/// The exec shape of `assoc_set` when the name is absent.
pub proof fn lemma_assoc_set_push<V>(s: Seq<(Seq<char>, V)>, name: Seq<char>, v: V)
    requires
        forall|k: int| 0 <= k < s.len() ==> s[k].0 != name,
    ensures
        assoc_set(s, name, v) =~= s.push((name, v)),
    decreases s.len(),
{
    if s.len() > 0 {
        lemma_assoc_set_push(s.drop_first(), name, v);
        assert(s.push((name, v)).drop_first() =~= s.drop_first().push((name, v)));
        assert(assoc_set(s, name, v) =~= s.push((name, v)));
    }
}

/// The exec shape of `assoc_remove` when the name sits at index `i`.
pub proof fn lemma_assoc_remove_at<V>(s: Seq<(Seq<char>, V)>, name: Seq<char>, i: int)
    requires
        0 <= i < s.len(),
        s[i].0 == name,
        forall|k: int| 0 <= k < i ==> s[k].0 != name,
    ensures
        assoc_remove(s, name) =~= s.remove(i),
    decreases s.len(),
{
    if i > 0 {
        lemma_assoc_remove_at(s.drop_first(), name, i - 1);
        assert(s.remove(i).drop_first() =~= s.drop_first().remove(i - 1));
        assert(assoc_remove(s, name) =~= s.remove(i));
    } else {
        assert(assoc_remove(s, name) =~= s.remove(0));
    }
}

/// The exec shape of `assoc_remove` when the name is absent.
pub proof fn lemma_assoc_remove_absent<V>(s: Seq<(Seq<char>, V)>, name: Seq<char>)
    requires
        forall|k: int| 0 <= k < s.len() ==> s[k].0 != name,
    ensures
        assoc_remove(s, name) =~= s,
    decreases s.len(),
{
    if s.len() > 0 {
        lemma_assoc_remove_absent(s.drop_first(), name);
        assert(assoc_remove(s, name) =~= s);
    }
}


/// The index of the first entry under the name; the length when absent.
pub open spec fn assoc_index_of<V>(s: Seq<(Seq<char>, V)>, name: Seq<char>) -> int
    decreases s.len(),
{
    if s.len() == 0 {
        0
    } else if s[0].0 == name {
        0
    } else {
        1 + assoc_index_of(s.drop_first(), name)
    }
}

/// The first matching index is the index found.
pub proof fn lemma_assoc_index_of_found<V>(s: Seq<(Seq<char>, V)>, name: Seq<char>, i: int)
    requires
        0 <= i < s.len(),
        s[i].0 == name,
        forall|k: int| 0 <= k < i ==> s[k].0 != name,
    ensures
        assoc_index_of(s, name) == i,
    decreases s.len(),
{
    if i > 0 {
        lemma_assoc_index_of_found(s.drop_first(), name, i - 1);
    }
}

/// When no entry carries the name, the index is the length.
pub proof fn lemma_assoc_index_of_absent<V>(s: Seq<(Seq<char>, V)>, name: Seq<char>)
    requires
        forall|k: int| 0 <= k < s.len() ==> s[k].0 != name,
    ensures
        assoc_index_of(s, name) == s.len(),
    decreases s.len(),
{
    if s.len() > 0 {
        lemma_assoc_index_of_absent(s.drop_first(), name);
    }
}

} // verus!
