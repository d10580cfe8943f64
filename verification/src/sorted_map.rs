//! Maps keyed by text, held as entries in strictly increasing key order.
//!
//! A `BTreeMap<String, V>` walked in key order is this: each key once, the
//! keys ascending. Keeping the entries in a vector under that invariant lets
//! every contract speak of both the map the entries stand for and the order
//! they come out in.

use vstd::prelude::*;

use crate::text::{
    lemma_text_lt_asymmetric, lemma_text_lt_irreflexive, lemma_text_lt_total, lemma_text_lt_transitive, owned, same_text,
    str_lt, text_lt,
};

verus! {

/// Whether the entries keep their keys strictly in order.
pub open spec fn sorted_keys<V>(s: Seq<(String, V)>) -> bool {
    forall|i: int, j: int| 0 <= i < j < s.len() ==> text_lt(#[trigger] s[i].0@, #[trigger] s[j].0@)
}

/// Whether a key occurs among the entries.
pub open spec fn holds_key<V>(s: Seq<(String, V)>, k: Seq<char>) -> bool {
    exists|i: int| 0 <= i < s.len() && #[trigger] s[i].0@ == k
}

/// Where a key occurs among the entries.
pub open spec fn index_of_key<V>(s: Seq<(String, V)>, k: Seq<char>) -> int {
    choose|i: int| 0 <= i < s.len() && #[trigger] s[i].0@ == k
}

/// The map the entries stand for.
pub open spec fn entries_map<V: View>(s: Seq<(String, V)>) -> Map<Seq<char>, V::V> {
    Map::new(|k: Seq<char>| holds_key(s, k), |k: Seq<char>| s[index_of_key(s, k)].1@)
}

pub proof fn lemma_keys_distinct<V>(s: Seq<(String, V)>, i: int, j: int)
    requires
        sorted_keys(s),
        0 <= i < s.len(),
        0 <= j < s.len(),
        s[i].0@ == s[j].0@,
    ensures
        i == j,
{
    if i < j {
        assert(text_lt(s[i].0@, s[j].0@));
        lemma_text_lt_irreflexive(s[i].0@);
    } else if j < i {
        assert(text_lt(s[j].0@, s[i].0@));
        lemma_text_lt_irreflexive(s[i].0@);
    }
}

pub proof fn lemma_map_at<V: View>(s: Seq<(String, V)>, i: int)
    requires
        sorted_keys(s),
        0 <= i < s.len(),
    ensures
        entries_map(s).dom().contains(s[i].0@),
        entries_map(s)[s[i].0@] == s[i].1@,
{
    let k = s[i].0@;
    assert(holds_key(s, k));
    let c = index_of_key(s, k);
    lemma_keys_distinct(s, i, c);
    assert(entries_map(s)[k] == s[c].1@);
}

/// The map of the first `i` entries, as each entry is added in turn.
pub proof fn lemma_entries_map_prefix<V: View>(s: Seq<(String, V)>, i: int)
    requires
        sorted_keys(s),
        0 <= i <= s.len(),
    ensures
        i == 0 ==> entries_map(s.take(i)) == Map::<Seq<char>, V::V>::empty(),
        0 < i ==> entries_map(s.take(i)) == entries_map(s.take(i - 1)).insert(s[i - 1].0@, s[i - 1].1@),
{
    let t = s.take(i);
    assert(sorted_keys(t));
    if i == 0 {
        assert(entries_map(t) =~= Map::<Seq<char>, V::V>::empty());
    } else {
        let u = s.take(i - 1);
        assert(sorted_keys(u));
        let last = s[i - 1].0@;
        lemma_map_at(t, i - 1);
        let goal = entries_map(u).insert(last, s[i - 1].1@);
        assert forall|k: Seq<char>| #[trigger] entries_map(t).dom().contains(k) <==> goal.dom().contains(k) by {
            if holds_key(t, k) && k != last {
                let c = choose|c: int| 0 <= c < t.len() && #[trigger] t[c].0@ == k;
                assert(u[c] == t[c]);
                assert(holds_key(u, k));
            }
            if holds_key(u, k) {
                let c = choose|c: int| 0 <= c < u.len() && #[trigger] u[c].0@ == k;
                assert(t[c] == u[c]);
                assert(holds_key(t, k));
            }
        }
        assert forall|k: Seq<char>| #[trigger] entries_map(t).dom().contains(k) implies entries_map(t)[k] == goal[k] by {
            if k != last {
                let c = choose|c: int| 0 <= c < t.len() && #[trigger] t[c].0@ == k;
                assert(c != i - 1);
                assert(u[c] == t[c]);
                lemma_map_at(t, c);
                lemma_map_at(u, c);
            }
        }
        assert(entries_map(t) =~= goal);
    }
}

/// Put `value` under `key`, replacing an entry with that key or inserting
/// one where the order places it.
pub fn put_entry<V: View>(entries: &mut Vec<(String, V)>, key: &str, value: V)
    requires
        sorted_keys(old(entries)@),
    ensures
        sorted_keys(final(entries)@),
        entries_map(final(entries)@) == entries_map(old(entries)@).insert(key@, value@),
{
    let ghost s0 = entries@;
    let mut p: usize = 0;
    while p < entries.len() && str_lt(entries[p].0.as_str(), key)
        invariant
            p <= entries.len(),
            entries@ == s0,
            sorted_keys(s0),
            forall|j: int| 0 <= j < p ==> text_lt(#[trigger] s0[j].0@, key@),
        decreases entries.len() - p,
    {
        p += 1;
    }
    let replacing = p < entries.len() && same_text(entries[p].0.as_str(), key);
    let ghost v = value@;
    let pair = (owned(key), value);
    if replacing {
        entries.set(p, pair);
    } else {
        entries.insert(p, pair);
    }
    proof {
        let s1 = entries@;
        let m0 = entries_map(s0);
        let m1 = entries_map(s1);
        if replacing {
            assert forall|i: int, j: int| 0 <= i < j < s1.len() implies text_lt(
                #[trigger] s1[i].0@,
                #[trigger] s1[j].0@,
            ) by {
                assert(s1[i].0@ == s0[i].0@);
                assert(s1[j].0@ == s0[j].0@);
            }
            lemma_map_at(s1, p as int);
            assert forall|k2: Seq<char>| #[trigger] m1.dom().contains(k2) <==> m0.insert(
                key@,
                v,
            ).dom().contains(k2) by {
                if holds_key(s1, k2) {
                    let c = index_of_key(s1, k2);
                    assert(s0[c].0@ == k2);
                }
                if holds_key(s0, k2) {
                    let c = index_of_key(s0, k2);
                    assert(s1[c].0@ == k2);
                }
            }
            assert forall|k2: Seq<char>| #[trigger] m1.dom().contains(k2) implies m1[k2]
                == m0.insert(key@, v)[k2] by {
                let c = index_of_key(s1, k2);
                lemma_map_at(s1, c);
                if c != p {
                    assert(s0[c] == s1[c]);
                    lemma_map_at(s0, c);
                }
            }
        } else {
            s0.insert_ensures(p as int, s1[p as int]);
            assert(s1 == s0.insert(p as int, s1[p as int]));
            if p < s0.len() {
                lemma_text_lt_total(s0[p as int].0@, key@);
            }
            assert forall|i: int, j: int| 0 <= i < j < s1.len() implies text_lt(
                #[trigger] s1[i].0@,
                #[trigger] s1[j].0@,
            ) by {
                if j < p {
                } else if j == p {
                    assert(text_lt(s0[i].0@, key@));
                } else if i < p {
                    assert(s1[j] == s0[j - 1]);
                    assert(text_lt(s0[i].0@, key@));
                    if p < j - 1 {
                        assert(text_lt(s0[p as int].0@, s0[j - 1].0@));
                        lemma_text_lt_transitive(key@, s0[p as int].0@, s0[j - 1].0@);
                    }
                    lemma_text_lt_transitive(s0[i].0@, key@, s0[j - 1].0@);
                } else if i == p {
                    assert(s1[j] == s0[j - 1]);
                    if p < j - 1 {
                        assert(text_lt(s0[p as int].0@, s0[j - 1].0@));
                        lemma_text_lt_transitive(key@, s0[p as int].0@, s0[j - 1].0@);
                    }
                } else {
                    assert(s1[j] == s0[j - 1]);
                    assert(s1[i] == s0[i - 1]);
                }
            }
            lemma_map_at(s1, p as int);
            assert forall|k2: Seq<char>| #[trigger] m1.dom().contains(k2) <==> m0.insert(
                key@,
                v,
            ).dom().contains(k2) by {
                if holds_key(s1, k2) {
                    let c = index_of_key(s1, k2);
                    if c < p {
                        assert(s0[c].0@ == k2);
                    } else if c > p {
                        assert(s0[c - 1].0@ == k2);
                    }
                }
                if holds_key(s0, k2) {
                    let c = index_of_key(s0, k2);
                    if c < p {
                        assert(s1[c].0@ == k2);
                    } else {
                        assert(s1[c + 1].0@ == k2);
                    }
                }
            }
            assert forall|k2: Seq<char>| #[trigger] m1.dom().contains(k2) implies m1[k2]
                == m0.insert(key@, v)[k2] by {
                let c = index_of_key(s1, k2);
                lemma_map_at(s1, c);
                if c < p {
                    assert(s0[c] == s1[c]);
                    lemma_map_at(s0, c);
                } else if c > p {
                    assert(s0[c - 1] == s1[c]);
                    lemma_map_at(s0, c - 1);
                }
            }
        }
        assert(m1 =~= m0.insert(key@, v));
    }
}



/// Entries past the first stand for the map without the first key.
pub proof fn lemma_map_drop_first<V: View>(s: Seq<(String, V)>)
    requires
        sorted_keys(s),
        s.len() > 0,
    ensures
        sorted_keys(s.drop_first()),
        entries_map(s.drop_first()) == entries_map(s).remove(s[0].0@),
{
    let t = s.drop_first();
    let k0 = s[0].0@;
    assert(sorted_keys(t)) by {
        assert forall|i: int, j: int| 0 <= i < j < t.len() implies text_lt(
            #[trigger] t[i].0@,
            #[trigger] t[j].0@,
        ) by {
            assert(t[i] == s[i + 1]);
            assert(t[j] == s[j + 1]);
        }
    }
    let m = entries_map(s);
    let n = entries_map(t);
    assert forall|x: Seq<char>| #[trigger] n.dom().contains(x) <==> m.remove(k0).dom().contains(x) by {
        if holds_key(t, x) {
            let c = index_of_key(t, x);
            assert(t[c] == s[c + 1]);
            assert(text_lt(s[0].0@, s[c + 1].0@));
            if x == k0 {
                lemma_text_lt_irreflexive(k0);
            }
            assert(holds_key(s, x));
        }
        if holds_key(s, x) && x != k0 {
            let c = index_of_key(s, x);
            assert(c != 0);
            assert(t[c - 1] == s[c]);
            assert(holds_key(t, x));
        }
    }
    assert forall|x: Seq<char>| #[trigger] n.dom().contains(x) implies n[x] == m.remove(k0)[x] by {
        let c = index_of_key(t, x);
        lemma_map_at(t, c);
        assert(t[c] == s[c + 1]);
        lemma_map_at(s, c + 1);
    }
    assert(n =~= m.remove(k0));
}

/// Entries in strictly increasing key order are the only entries that
/// stand for their map: two such lists for one map agree entry by entry.
pub proof fn lemma_sorted_entries_canonical<V: View>(a: Seq<(String, V)>, b: Seq<(String, V)>)
    requires
        sorted_keys(a),
        sorted_keys(b),
        entries_map(a) == entries_map(b),
    ensures
        a.len() == b.len(),
        forall|i: int| 0 <= i < a.len() ==> (#[trigger] a[i]).0@ == b[i].0@ && a[i].1@ == b[i].1@,
    decreases a.len(),
{
    if a.len() == 0 {
        if b.len() > 0 {
            lemma_map_at(b, 0);
            assert(!holds_key(a, b[0].0@));
        }
    } else if b.len() == 0 {
        lemma_map_at(a, 0);
        assert(!holds_key(b, a[0].0@));
    } else {
        let k = a[0].0@;
        let l = b[0].0@;
        lemma_map_at(a, 0);
        lemma_map_at(b, 0);
        let c = index_of_key(b, k);
        let d = index_of_key(a, l);
        assert(holds_key(b, k));
        assert(holds_key(a, l));
        if c > 0 && d > 0 {
            assert(text_lt(b[0].0@, b[c].0@));
            assert(text_lt(a[0].0@, a[d].0@));
            lemma_text_lt_asymmetric(k, l);
        }
        assert(k == l);
        lemma_map_drop_first(a);
        lemma_map_drop_first(b);
        lemma_sorted_entries_canonical(a.drop_first(), b.drop_first());
        assert forall|i: int| 0 <= i < a.len() implies (#[trigger] a[i]).0@ == b[i].0@ && a[i].1@
            == b[i].1@ by {
            if i > 0 {
                assert(a[i] == a.drop_first()[i - 1]);
                assert(b[i] == b.drop_first()[i - 1]);
            }
        }
    }
}


/// Values keyed by text, each key once, in increasing key order: what a
/// `BTreeMap<String, V>` is when it is walked.
#[derive(Debug)]
pub struct TextMap<V: View> {
    entries: Vec<(String, V)>,
}

impl<V: View> View for TextMap<V> {
    type V = Map<Seq<char>, V::V>;

    closed spec fn view(&self) -> Map<Seq<char>, V::V> {
        entries_map(self.entries@)
    }
}

impl<V: View> TextMap<V> {
    #[verifier::type_invariant]
    spec fn sorted(self) -> bool {
        sorted_keys(self.entries@)
    }

    /// Nothing held.
    pub fn new() -> (m: TextMap<V>)
        ensures
            m@ == Map::<Seq<char>, V::V>::empty(),
    {
        let m = TextMap { entries: Vec::new() };
        assert(m@ =~= Map::<Seq<char>, V::V>::empty());
        m
    }

    /// Put `value` under `key`, replacing what was there.
    pub fn insert(&mut self, key: &str, value: V)
        ensures
            final(self)@ == old(self)@.insert(key@, value@),
    {
        proof {
            use_type_invariant(&*self);
        }
        let mut entries = Vec::new();
        std::mem::swap(&mut entries, &mut self.entries);
        put_entry(&mut entries, key, value);
        self.entries = entries;
    }

    /// The value under `key`, where there is one.
    pub fn get(&self, key: &str) -> (r: Option<&V>)
        ensures
            r matches Some(v) ==> self@.dom().contains(key@) && self@[key@] == v@,
            r is None ==> !self@.dom().contains(key@),
    {
        proof {
            use_type_invariant(self);
        }
        let mut i: usize = 0;
        while i < self.entries.len()
            invariant
                i <= self.entries.len(),
                sorted_keys(self.entries@),
                forall|j: int| 0 <= j < i ==> self.entries@[j].0@ != key@,
            decreases self.entries.len() - i,
        {
            if same_text(self.entries[i].0.as_str(), key) {
                proof {
                    lemma_map_at(self.entries@, i as int);
                }
                return Some(&self.entries[i].1);
            }
            i += 1;
        }
        None
    }

    /// The entries, in key order.
    pub fn entries(&self) -> (r: &Vec<(String, V)>)
        ensures
            sorted_keys(r@),
            entries_map(r@) == self@,
    {
        proof {
            use_type_invariant(self);
        }
        &self.entries
    }
}

} // verus!
