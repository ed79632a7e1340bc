//! A map from strings to strings that keeps its keys in the order of `String`,
//! as a `BTreeMap<String, String>` does.
use vstd::prelude::*;
use vstd::string::*;
use crate::text::{lemma_str_lt_irreflexive, lemma_str_lt_transitive, lemma_str_lt_trichotomy, str_equal, str_less, str_lt};

verus! {

/// The entries of a map, key and value, in the order of their keys.
pub type Entries = Seq<(Seq<char>, Seq<char>)>;

/// Whether the keys of `s` are strictly increasing (so none occurs twice).
pub open spec fn sorted_keys(s: Entries) -> bool {
    forall|i: int, j: int| 0 <= i < j < s.len() ==> str_lt(#[trigger] s[i].0, #[trigger] s[j].0)
}

/// The value that `s` holds under `k`.
pub open spec fn lookup(s: Entries, k: Seq<char>) -> Option<Seq<char>>
    decreases s.len(),
{
    if s.len() == 0 {
        None
    } else if s[0].0 == k {
        Some(s[0].1)
    } else {
        lookup(s.drop_first(), k)
    }
}

/// `s` with `k` mapped to `v`: the entry of `k` is replaced where there is one,
/// else a new entry goes before the first greater key.
pub open spec fn sorted_insert(s: Entries, k: Seq<char>, v: Seq<char>) -> Entries
    decreases s.len(),
{
    if s.len() == 0 {
        seq![(k, v)]
    } else if s[0].0 == k {
        seq![(k, v)] + s.drop_first()
    } else if str_lt(k, s[0].0) {
        seq![(k, v)] + s
    } else {
        seq![s[0]] + sorted_insert(s.drop_first(), k, v)
    }
}

/// A key greater than every key of `s` goes last.
pub proof fn lemma_sorted_insert_last(s: Entries, k: Seq<char>, v: Seq<char>)
    requires
        forall|i: int| 0 <= i < s.len() ==> str_lt(#[trigger] s[i].0, k),
    ensures
        sorted_insert(s, k, v) == s.push((k, v)),
    decreases s.len(),
{
    if s.len() > 0 {
        lemma_str_lt_trichotomy(s[0].0, k);
        lemma_str_lt_irreflexive(k);
        let t = s.drop_first();
        assert forall|i: int| 0 <= i < t.len() implies str_lt(#[trigger] t[i].0, k) by {
            assert(t[i] == s[i + 1]);
        }
        lemma_sorted_insert_last(t, k, v);
        assert(seq![s[0]] + t.push((k, v)) =~= s.push((k, v)));
    }
}

/// Inserting into sorted entries keeps them sorted.
pub proof fn lemma_sorted_insert_sorted(s: Entries, k: Seq<char>, v: Seq<char>)
    requires
        sorted_keys(s),
    ensures
        sorted_keys(sorted_insert(s, k, v)),
        forall|i: int|
            0 <= i < sorted_insert(s, k, v).len() ==> (#[trigger] sorted_insert(s, k, v)[i]).0 == k
                || exists|j: int| 0 <= j < s.len() && s[j].0 == sorted_insert(s, k, v)[i].0,
    decreases s.len(),
{
    let r = sorted_insert(s, k, v);
    if s.len() == 0 {
    } else if s[0].0 == k {
        assert forall|i: int, j: int| 0 <= i < j < r.len() implies str_lt(#[trigger] r[i].0, #[trigger] r[j].0) by {
            if i == 0 {
                assert(r[j] == s[j]);
            } else {
                assert(r[i] == s[i]);
                assert(r[j] == s[j]);
            }
        }
        assert forall|i: int| 0 <= i < r.len() implies (#[trigger] r[i]).0 == k || exists|j: int| 0 <= j < s.len() && s[j].0 == r[i].0 by {
            if i > 0 {
                assert(r[i] == s[i]);
            }
        }
    } else if str_lt(k, s[0].0) {
        assert forall|i: int, j: int| 0 <= i < j < r.len() implies str_lt(#[trigger] r[i].0, #[trigger] r[j].0) by {
            if i == 0 {
                assert(r[j] == s[j - 1]);
                if j > 1 {
                    lemma_str_lt_transitive(k, s[0].0, s[j - 1].0);
                }
            } else {
                assert(r[i] == s[i - 1]);
                assert(r[j] == s[j - 1]);
            }
        }
        assert forall|i: int| 0 <= i < r.len() implies (#[trigger] r[i]).0 == k || exists|j: int| 0 <= j < s.len() && s[j].0 == r[i].0 by {
            if i > 0 {
                assert(r[i] == s[i - 1]);
            }
        }
    } else {
        let t = s.drop_first();
        let rt = sorted_insert(t, k, v);
        assert(sorted_keys(t)) by {
            assert forall|i: int, j: int| 0 <= i < j < t.len() implies str_lt(#[trigger] t[i].0, #[trigger] t[j].0) by {
                assert(t[i] == s[i + 1]);
                assert(t[j] == s[j + 1]);
            }
        }
        lemma_sorted_insert_sorted(t, k, v);
        lemma_str_lt_trichotomy(k, s[0].0);
        assert(r =~= seq![s[0]] + rt);
        assert forall|i: int, j: int| 0 <= i < j < r.len() implies str_lt(#[trigger] r[i].0, #[trigger] r[j].0) by {
            if i == 0 {
                assert(r[j] == rt[j - 1]);
                if rt[j - 1].0 != k {
                    let jj = choose|jj: int| 0 <= jj < t.len() && t[jj].0 == rt[j - 1].0;
                    assert(t[jj] == s[jj + 1]);
                }
            } else {
                assert(r[i] == rt[i - 1]);
                assert(r[j] == rt[j - 1]);
            }
        }
        assert forall|i: int| 0 <= i < r.len() implies (#[trigger] r[i]).0 == k || exists|j: int| 0 <= j < s.len() && s[j].0 == r[i].0 by {
            if i == 0 {
                assert(s[0].0 == r[0].0);
            } else {
                assert(r[i] == rt[i - 1]);
                if rt[i - 1].0 != k {
                    let jj = choose|jj: int| 0 <= jj < t.len() && t[jj].0 == rt[i - 1].0;
                    assert(t[jj] == s[jj + 1]);
                }
            }
        }
    }
}

/// A map from strings to strings, kept sorted by key.
#[derive(Debug)]
pub struct StringMap {
    entries: Vec<(String, String)>,
}

/// The entries of a vector of string pairs, by their views.
pub open spec fn entries_view(v: Seq<(String, String)>) -> Entries {
    v.map_values(|e: (String, String)| (e.0@, e.1@))
}

impl View for StringMap {
    type V = Entries;

    closed spec fn view(&self) -> Entries {
        entries_view(self.entries@)
    }
}

impl Clone for StringMap {
    fn clone(&self) -> (r: Self)
        ensures
            r@ == self@,
    {
        proof {
            use_type_invariant(self);
        }
        let n = self.entries.len();
        let mut entries: Vec<(String, String)> = Vec::new();
        let mut i: usize = 0;
        while i < n
            invariant
                n == self@.len(),
                i <= n,
                entries@.len() == i,
                entries_view(entries@) =~= self@.take(i as int),
            decreases n - i,
        {
            let k = self.entries[i].0.clone();
            let v = self.entries[i].1.clone();
            assert(self@[i as int] == (k@, v@));
            let ghost before = entries@;
            entries.push((k, v));
            assert forall|j: int| 0 <= j < i + 1 implies #[trigger] entries_view(entries@)[j] == self@.take(i + 1)[j] by {
                if j < i {
                    assert(entries@[j] == before[j]);
                    assert(entries_view(before)[j] == self@.take(i as int)[j]);
                }
            }
            assert(entries_view(entries@) =~= self@.take(i + 1));
            i = i + 1;
        }
        assert(self@.take(n as int) =~= self@);
        StringMap { entries }
    }
}

impl StringMap {
    #[verifier::type_invariant]
    closed spec fn well_formed(self) -> bool {
        sorted_keys(self@)
    }

    /// Every map keeps its keys strictly increasing, as a `BTreeMap` does. This does no
    /// work; a caller calls it to learn that fact of a map it holds.
    pub fn keys_sorted(&self)
        ensures
            sorted_keys(self@),
    {
        proof {
            use_type_invariant(self);
        }
    }

    /// An empty map.
    pub fn new() -> (m: Self)
        ensures
            m@ == Seq::<(Seq<char>, Seq<char>)>::empty(),
    {
        let m = StringMap { entries: Vec::new() };
        assert(m@ =~= Seq::<(Seq<char>, Seq<char>)>::empty());
        m
    }

    /// The number of entries.
    pub fn len(&self) -> (n: usize)
        ensures
            n == self@.len(),
    {
        self.entries.len()
    }

    /// The key of the `i`-th entry in key order.
    pub fn key_at(&self, i: usize) -> (k: &str)
        requires
            i < self@.len(),
        ensures
            k@ == self@[i as int].0,
    {
        self.entries[i].0.as_str()
    }

    /// The value of the `i`-th entry in key order.
    pub fn value_at(&self, i: usize) -> (v: &str)
        requires
            i < self@.len(),
        ensures
            v@ == self@[i as int].1,
    {
        self.entries[i].1.as_str()
    }

    /// The value held under `key`.
    pub fn get(&self, key: &str) -> (r: Option<&str>)
        ensures
            match r {
                Some(v) => lookup(self@, key@) == Some(v@),
                None => lookup(self@, key@) is None,
            },
    {
        let n = self.entries.len();
        let mut i: usize = 0;
        assert(self@.skip(0) =~= self@);
        while i < n
            invariant
                n == self@.len(),
                i <= n,
                lookup(self@, key@) == lookup(self@.skip(i as int), key@),
            decreases n - i,
        {
            if str_equal(self.entries[i].0.as_str(), key) {
                return Some(self.entries[i].1.as_str());
            }
            assert(self@.skip(i as int).drop_first() =~= self@.skip(i + 1));
            i = i + 1;
        }
        None
    }

    /// Whether `key` has an entry.
    pub fn contains_key(&self, key: &str) -> (r: bool)
        ensures
            r == lookup(self@, key@) is Some,
    {
        self.get(key).is_some()
    }

    /// Maps `key` to `value`, replacing the value it had.
    pub fn insert(&mut self, key: String, value: String)
        ensures
            final(self)@ == sorted_insert(old(self)@, key@, value@),
            sorted_keys(final(self)@),
    {
        proof {
            use_type_invariant(&*self);
            lemma_sorted_insert_sorted(self@, key@, value@);
        }
        let ghost k = key@;
        let ghost v = value@;
        let ghost s = self@;
        let n = self.entries.len();
        let mut i: usize = 0;
        assert(s.skip(0) =~= s);
        assert(s.take(0) =~= Seq::<(Seq<char>, Seq<char>)>::empty());
        while i < n
            invariant
                n == s.len(),
                i <= n,
                s == self@,
                s == old(self)@,
                sorted_keys(sorted_insert(s, k, v)),
                self.entries@.len() == n,
                k == key@,
                v == value@,
                sorted_insert(s, k, v) == s.take(i as int) + sorted_insert(s.skip(i as int), k, v),
            decreases n - i,
        {
            let ghost t = s.skip(i as int);
            assert(t[0] == s[i as int]);
            if str_equal(self.entries[i].0.as_str(), key.as_str()) {
                assert(sorted_insert(t, k, v) == seq![(k, v)] + t.drop_first());
                let mut entries = Vec::new();
                std::mem::swap(&mut entries, &mut self.entries);
                assert(entries_view(entries@) == s);
                entries.set(i, (key, value));
                assert(entries_view(entries@) =~= s.take(i as int) + (seq![(k, v)] + t.drop_first()));
                assert(entries_view(entries@) == sorted_insert(s, k, v));
                assert(sorted_keys(entries_view(entries@)));
                self.entries = entries;
                return;
            }
            if str_less(key.as_str(), self.entries[i].0.as_str()) {
                assert(sorted_insert(t, k, v) == seq![(k, v)] + t);
                let mut entries = Vec::new();
                std::mem::swap(&mut entries, &mut self.entries);
                assert(entries_view(entries@) == s);
                entries.insert(i, (key, value));
                assert(entries_view(entries@) =~= s.take(i as int) + (seq![(k, v)] + t));
                assert(entries_view(entries@) == sorted_insert(s, k, v));
                assert(sorted_keys(entries_view(entries@)));
                self.entries = entries;
                return;
            }
            assert(sorted_insert(t, k, v) == seq![t[0]] + sorted_insert(t.drop_first(), k, v));
            assert(s.take(i + 1) =~= s.take(i as int) + seq![s[i as int]]);
            assert(t.drop_first() =~= s.skip(i + 1));
            i = i + 1;
        }
        let mut entries = Vec::new();
        std::mem::swap(&mut entries, &mut self.entries);
        assert(entries_view(entries@) == s);
        entries.push((key, value));
        assert(s.take(n as int) =~= s);
        assert(s.skip(n as int) =~= Seq::<(Seq<char>, Seq<char>)>::empty());
        assert(entries_view(entries@) =~= s + seq![(k, v)]);
        self.entries = entries;
    }
}

} // verus!
