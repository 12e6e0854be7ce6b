//! An ordered map from names to values, kept as a list of entries in
//! ascending order of the names' UTF-8 bytes.

use vstd::prelude::*;
use vstd::utf8::*;
use crate::text::{byte_order, bytes_less, lemma_less_transitive, lemma_order_equal, lemma_order_flip, order_bytes, ByteOrder};

verus! {

/// The bytes by which a name is ordered.
pub open spec fn key_bytes(k: Seq<char>) -> Seq<u8> {
    encode_utf8(k)
}

/// `a` is ordered strictly before `b`.
pub open spec fn key_less(a: Seq<char>, b: Seq<char>) -> bool {
    bytes_less(key_bytes(a), key_bytes(b))
}

/// The names of `s` ascend strictly, so that no name occurs twice.
pub open spec fn keys_ascend<V>(s: Seq<(Seq<char>, V)>) -> bool {
    forall|i: int, j: int| 0 <= i < j < s.len() ==> key_less(#[trigger] s[i].0, #[trigger] s[j].0)
}

/// The first index at or after `i` whose name is not ordered before `k`.
pub open spec fn position_from<V>(s: Seq<(Seq<char>, V)>, k: Seq<char>, i: int) -> int
    decreases s.len() - i,
{
    if i < 0 || i >= s.len() || !key_less(s[i].0, k) {
        i
    } else {
        position_from(s, k, i + 1)
    }
}

/// The index at which the name `k` stands, or where it would be put.
pub open spec fn position<V>(s: Seq<(Seq<char>, V)>, k: Seq<char>) -> int {
    position_from(s, k, 0)
}

/// An entry of `s` has the name `k`.
pub open spec fn has_key<V>(s: Seq<(Seq<char>, V)>, k: Seq<char>) -> bool {
    position(s, k) < s.len() && s[position(s, k)].0 == k
}

/// The value stored under `k`, if any.
pub open spec fn lookup<V>(s: Seq<(Seq<char>, V)>, k: Seq<char>) -> Option<V> {
    if has_key(s, k) {
        Some(s[position(s, k)].1)
    } else {
        None
    }
}

/// `s` with `v` stored under `k`: in place of the entry of that name, or as a
/// new entry where the order puts it.
pub open spec fn sorted_insert<V>(s: Seq<(Seq<char>, V)>, k: Seq<char>, v: V) -> Seq<
    (Seq<char>, V),
> {
    if has_key(s, k) {
        s.update(position(s, k), (k, v))
    } else {
        s.insert(position(s, k), (k, v))
    }
}

/// The position is in range, every name before it is ordered before `k`, and
/// the name at it, if there is one, is not.
pub proof fn lemma_position<V>(s: Seq<(Seq<char>, V)>, k: Seq<char>, i: int)
    requires
        0 <= i <= s.len(),
    ensures
        i <= position_from(s, k, i) <= s.len(),
        forall|j: int| i <= j < position_from(s, k, i) ==> key_less(#[trigger] s[j].0, k),
        position_from(s, k, i) < s.len() ==> !key_less(s[position_from(s, k, i)].0, k),
    decreases s.len() - i,
{
    if i < s.len() && key_less(s[i].0, k) {
        lemma_position(s, k, i + 1);
    }
}

/// Names with the same bytes are the same name.
pub proof fn lemma_key_bytes_injective(a: Seq<char>, b: Seq<char>)
    requires
        key_bytes(a) == key_bytes(b),
    ensures
        a == b,
{
    encode_utf8_decode_utf8(a);
    encode_utf8_decode_utf8(b);
}

/// In an ascending list a name stands at its position or nowhere.
pub proof fn lemma_key_only_at_position<V>(s: Seq<(Seq<char>, V)>, k: Seq<char>, i: int)
    requires
        keys_ascend(s),
        0 <= i < s.len(),
        s[i].0 == k,
    ensures
        position(s, k) == i,
{
    lemma_position(s, k, 0);
    let p = position(s, k);
    lemma_order_equal(key_bytes(k), key_bytes(k));
    if p < i {
        // s[p] < s[i] == k contradicts !(s[p] < k)
        assert(key_less(s[p].0, s[i].0));
    } else if p > i {
        // every entry before p is ordered before k, but s[i] is k itself
        assert(key_less(s[i].0, k));
    }
}

/// Storing a value keeps the names ascending.
pub proof fn lemma_insert_ascends<V>(s: Seq<(Seq<char>, V)>, k: Seq<char>, v: V)
    requires
        keys_ascend(s),
    ensures
        keys_ascend(sorted_insert(s, k, v)),
{
    lemma_position(s, k, 0);
    let p = position(s, k);
    let t = sorted_insert(s, k, v);
    if has_key(s, k) {
        assert forall|i: int, j: int| 0 <= i < j < t.len() implies key_less(
            #[trigger] t[i].0,
            #[trigger] t[j].0,
        ) by {
            assert(t[i].0 == s[i].0);
            assert(t[j].0 == s[j].0);
        }
    } else {
        assert forall|i: int, j: int| 0 <= i < j < t.len() implies key_less(
            #[trigger] t[i].0,
            #[trigger] t[j].0,
        ) by {
            if j < p {
                assert(t[i] == s[i] && t[j] == s[j]);
            } else if j == p {
                assert(t[i] == s[i]);
                assert(key_less(s[i].0, k));
            } else if i == p {
                // k before s[j - 1], which is at or after s[p]
                assert(t[j] == s[j - 1]);
                lemma_after_position(s, k, j - 1);
            } else if i < p {
                assert(t[i] == s[i] && t[j] == s[j - 1]);
                if i == j - 1 {
                } else {
                    assert(key_less(s[i].0, s[j - 1].0));
                }
            } else {
                assert(t[i] == s[i - 1] && t[j] == s[j - 1]);
            }
        }
    }
}

/// Where `k` is not stored, it is ordered before every entry from its position on.
pub proof fn lemma_after_position<V>(s: Seq<(Seq<char>, V)>, k: Seq<char>, j: int)
    requires
        keys_ascend(s),
        !has_key(s, k),
        position(s, k) <= j < s.len(),
    ensures
        key_less(k, s[j].0),
{
    lemma_position(s, k, 0);
    let p = position(s, k);
    lemma_order_flip(key_bytes(s[p].0), key_bytes(k));
    lemma_order_flip(key_bytes(k), key_bytes(s[p].0));
    if byte_order(key_bytes(k), key_bytes(s[p].0)) == ByteOrder::Equal {
        lemma_order_equal(key_bytes(k), key_bytes(s[p].0));
        lemma_key_bytes_injective(k, s[p].0);
    }
    assert(key_less(k, s[p].0));
    if j > p {
        assert(key_less(s[p].0, s[j].0));
        lemma_less_transitive(key_bytes(k), key_bytes(s[p].0), key_bytes(s[j].0));
    }
}

/// What was stored under a name is found under it.
pub proof fn lemma_lookup_stored<V>(s: Seq<(Seq<char>, V)>, k: Seq<char>, v: V)
    requires
        keys_ascend(s),
    ensures
        lookup(sorted_insert(s, k, v), k) == Some(v),
{
    lemma_position(s, k, 0);
    lemma_insert_ascends(s, k, v);
    let p = position(s, k);
    let t = sorted_insert(s, k, v);
    assert(t[p] == (k, v));
    lemma_key_only_at_position(t, k, p);
}

/// Storing under one name leaves what is found under another as it was.
pub proof fn lemma_lookup_other<V>(s: Seq<(Seq<char>, V)>, k: Seq<char>, v: V, other: Seq<char>)
    requires
        keys_ascend(s),
        other != k,
    ensures
        lookup(sorted_insert(s, k, v), other) == lookup(s, other),
{
    lemma_position(s, k, 0);
    lemma_insert_ascends(s, k, v);
    let p = position(s, k);
    let t = sorted_insert(s, k, v);
    let replaces = has_key(s, k);
    lemma_position(s, other, 0);
    lemma_position(t, other, 0);
    if has_key(s, other) {
        let q = position(s, other);
        let moved = if replaces || q < p {
            q
        } else {
            q + 1
        };
        assert(t[moved] == s[q]);
        lemma_key_only_at_position(t, other, moved);
    } else if has_key(t, other) {
        let r = position(t, other);
        assert(r != p);
        let back = if replaces || r < p {
            r
        } else {
            r - 1
        };
        assert(s[back] == t[r]);
        lemma_key_only_at_position(s, other, back);
    }
}

/// A lookup finds the value that was stored last under the name, and storing
/// under one name leaves the other names as they were.
pub proof fn lemma_lookup_insert<V>(s: Seq<(Seq<char>, V)>, k: Seq<char>, v: V, other: Seq<char>)
    requires
        keys_ascend(s),
    ensures
        lookup(sorted_insert(s, k, v), k) == Some(v),
        other != k ==> lookup(sorted_insert(s, k, v), other) == lookup(s, other),
{
    lemma_lookup_stored(s, k, v);
    if other != k {
        lemma_lookup_other(s, k, v, other);
    }
}

/// Storing twice under one name is storing the second value once.
pub proof fn lemma_insert_twice<V>(s: Seq<(Seq<char>, V)>, k: Seq<char>, v1: V, v2: V)
    requires
        keys_ascend(s),
    ensures
        sorted_insert(sorted_insert(s, k, v1), k, v2) == sorted_insert(s, k, v2),
{
    lemma_position(s, k, 0);
    lemma_insert_ascends(s, k, v1);
    let p = position(s, k);
    let t = sorted_insert(s, k, v1);
    assert(t[p] == (k, v1));
    lemma_key_only_at_position(t, k, p);
    assert(sorted_insert(t, k, v2) =~= sorted_insert(s, k, v2));
}

/// Two lists have the same names in the same places.
pub open spec fn same_keys<V, W>(a: Seq<(Seq<char>, V)>, b: Seq<(Seq<char>, W)>) -> bool {
    a.len() == b.len() && forall|i: int| 0 <= i < a.len() ==> (#[trigger] a[i]).0 == (
    #[trigger] b[i]).0
}

/// Where a name stands depends on the names alone.
pub proof fn lemma_same_keys_position<V, W>(
    a: Seq<(Seq<char>, V)>,
    b: Seq<(Seq<char>, W)>,
    k: Seq<char>,
    i: int,
)
    requires
        same_keys(a, b),
        0 <= i,
    ensures
        position_from(a, k, i) == position_from(b, k, i),
    decreases a.len() - i,
{
    if i < a.len() {
        assert(a[i].0 == b[i].0);
        if key_less(a[i].0, k) {
            lemma_same_keys_position(a, b, k, i + 1);
        }
    }
}

/// `s` with each value turned into what `f` makes of it.
pub open spec fn map_values<V, W>(s: Seq<(Seq<char>, V)>, f: spec_fn(V) -> W) -> Seq<
    (Seq<char>, W),
> {
    Seq::new(s.len(), |i: int| (s[i].0, f(s[i].1)))
}

/// Turning the values into others keeps the order of the names, and what is
/// found under a name is what became of the value that stood there.
pub proof fn lemma_map_values<V, W>(s: Seq<(Seq<char>, V)>, f: spec_fn(V) -> W, k: Seq<char>)
    ensures
        position(map_values(s, f), k) == position(s, k),
        has_key(map_values(s, f), k) == has_key(s, k),
        lookup(map_values(s, f), k) == match lookup(s, k) {
            Some(v) => Some(f(v)),
            None => None,
        },
        keys_ascend(s) ==> keys_ascend(map_values(s, f)),
{
    let t = map_values(s, f);
    lemma_same_keys_position(t, s, k, 0);
    lemma_position(s, k, 0);
    let p = position(s, k);
    if p < s.len() {
        assert(t[p] == (s[p].0, f(s[p].1)));
    }
    if keys_ascend(s) {
        assert forall|i: int, j: int| 0 <= i < j < t.len() implies key_less(
            #[trigger] t[i].0,
            #[trigger] t[j].0,
        ) by {
            assert(t[i].0 == s[i].0 && t[j].0 == s[j].0);
        }
    }
}

/// Storing a value and turning the values into others is turning them and
/// storing what became of the value.
pub proof fn lemma_map_values_insert<V, W>(
    s: Seq<(Seq<char>, V)>,
    f: spec_fn(V) -> W,
    k: Seq<char>,
    v: V,
)
    ensures
        map_values(sorted_insert(s, k, v), f) == sorted_insert(map_values(s, f), k, f(v)),
{
    lemma_map_values(s, f, k);
    lemma_position(s, k, 0);
    let p = position(s, k);
    let got = map_values(sorted_insert(s, k, v), f);
    let want = sorted_insert(map_values(s, f), k, f(v));
    assert(got.len() == want.len());
    assert forall|j: int| 0 <= j < got.len() implies got[j] == want[j] by {
        if has_key(s, k) {
            if j != p {
                assert(sorted_insert(s, k, v)[j] == s[j]);
                assert(map_values(s, f)[j] == (s[j].0, f(s[j].1)));
            }
        } else {
            if j < p {
                assert(sorted_insert(s, k, v)[j] == s[j]);
                assert(map_values(s, f)[j] == (s[j].0, f(s[j].1)));
            } else if j > p {
                assert(sorted_insert(s, k, v)[j] == s[j - 1]);
                assert(map_values(s, f)[j - 1] == (s[j - 1].0, f(s[j - 1].1)));
            }
        }
    }
    assert(got =~= want);
}

/// A map from names to values that hands its entries out in ascending order
/// of the names.
#[derive(Debug)]
pub struct OrderedMap<V> {
    entries: Vec<(String, V)>,
}

impl<V> OrderedMap<V> {
    /// The entries, in ascending order of their names.
    pub closed spec fn view(&self) -> Seq<(Seq<char>, V)> {
        Seq::new(self.entries@.len(), |i: int| (self.entries@[i].0@, self.entries@[i].1))
    }

    #[verifier::type_invariant]
    spec fn ascending(self) -> bool {
        keys_ascend(self@)
    }

    /// An empty map.
    pub fn new() -> (m: Self)
        ensures
            m@ == Seq::<(Seq<char>, V)>::empty(),
    {
        let m = OrderedMap { entries: Vec::new() };
        assert(m@ =~= Seq::<(Seq<char>, V)>::empty());
        m
    }

    /// The number of entries. Their names ascend strictly, so none occurs twice.
    pub fn len(&self) -> (n: usize)
        ensures
            n == self@.len(),
            keys_ascend(self@),
    {
        proof {
            use_type_invariant(self);
        }
        self.entries.len()
    }

    /// The name and the value of the entry at `index`, counted in ascending
    /// order of the names from 0; `None` where there are not so many.
    pub fn entry(&self, index: usize) -> (r: Option<(&String, &V)>)
        ensures
            match r {
                Some(e) => index < self@.len() && e.0@ == self@[index as int].0 && *e.1
                    == self@[index as int].1,
                None => index >= self@.len(),
            },
    {
        if index < self.entries.len() {
            let e = &self.entries[index];
            Some((&e.0, &e.1))
        } else {
            None
        }
    }

    /// The index at which `key` stands, or where it would be put, and whether
    /// it stands there.
    fn locate(&self, key: &str) -> (r: (usize, bool))
        ensures
            r.0 == position(self@, key@),
            r.1 == has_key(self@, key@),
            r.0 <= self@.len(),
    {
        let kb = key.as_bytes();
        let mut i: usize = 0;
        proof {
            lemma_position(self@, key@, 0);
        }
        while i < self.entries.len()
            invariant
                i <= self.entries.len(),
                kb@ == key_bytes(key@),
                position(self@, key@) == position_from(self@, key@, i as int),
                self@.len() == self.entries.len(),
            decreases self.entries.len() - i,
        {
            let order = order_bytes(self.entries[i].0.as_str().as_bytes(), kb);
            assert(self@[i as int].0 == self.entries@[i as int].0@);
            match order {
                ByteOrder::Less => {
                    i += 1;
                },
                ByteOrder::Equal => {
                    proof {
                        lemma_order_equal(key_bytes(self@[i as int].0), key_bytes(key@));
                        lemma_key_bytes_injective(self@[i as int].0, key@);
                    }
                    return (i, true);
                },
                ByteOrder::Greater => {
                    proof {
                        lemma_order_equal(key_bytes(self@[i as int].0), key_bytes(key@));
                    }
                    return (i, false);
                },
            }
        }
        (i, false)
    }

    /// The value stored under `key`, if any.
    pub fn get(&self, key: &str) -> (r: Option<&V>)
        ensures
            match r {
                Some(v) => lookup(self@, key@) == Some(*v),
                None => lookup(self@, key@) is None,
            },
    {
        let (i, found) = self.locate(key);
        if found {
            Some(&self.entries[i].1)
        } else {
            None
        }
    }

    /// Stores `value` under `key`, in place of what was stored there. Returns
    /// whether something was.
    pub fn insert(&mut self, key: String, value: V) -> (replaced: bool)
        ensures
            final(self)@ == sorted_insert(old(self)@, key@, value),
            replaced == has_key(old(self)@, key@),
    {
        proof {
            use_type_invariant(&*self);
            lemma_insert_ascends(self@, key@, value);
        }
        let (i, found) = self.locate(key.as_str());
        let ghost before = self@;
        let mut entries: Vec<(String, V)> = Vec::new();
        std::mem::swap(&mut entries, &mut self.entries);
        if found {
            entries.set(i, (key, value));
        } else {
            entries.insert(i, (key, value));
        }
        let ghost after = Seq::new(entries@.len(), |j: int| (entries@[j].0@, entries@[j].1));
        assert(after =~= sorted_insert(before, key@, value));
        self.entries = entries;
        assert(self@ =~= after);
        found
    }
}

impl<V: Clone> Clone for OrderedMap<V> {
    /// A map with the same names, in which each value is a clone of the
    /// value under that name.
    fn clone(&self) -> (m: Self)
        ensures
            same_keys(m@, self@),
            forall|j: int| 0 <= j < m@.len() ==> cloned(self@[j].1, #[trigger] m@[j].1),
    {
        proof {
            use_type_invariant(self);
        }
        let mut entries: Vec<(String, V)> = Vec::new();
        let mut i: usize = 0;
        while i < self.entries.len()
            invariant
                i <= self.entries.len(),
                entries@.len() == i,
                forall|j: int|
                    0 <= j < i ==> (#[trigger] entries@[j]).0 == self.entries@[j].0 && cloned(
                        self.entries@[j].1,
                        entries@[j].1,
                    ),
            decreases self.entries.len() - i,
        {
            let e = &self.entries[i];
            entries.push((e.0.clone(), e.1.clone()));
            i += 1;
        }
        let ghost copy = Seq::new(entries@.len(), |j: int| (entries@[j].0@, entries@[j].1));
        assert(keys_ascend(copy)) by {
            assert forall|a: int, b: int| 0 <= a < b < copy.len() implies key_less(
                #[trigger] copy[a].0,
                #[trigger] copy[b].0,
            ) by {
                assert(entries@[a].0 == self.entries@[a].0);
                assert(entries@[b].0 == self.entries@[b].0);
                assert(key_less(self@[a].0, self@[b].0));
            }
        }
        let m = OrderedMap { entries };
        assert(m@ =~= copy);
        assert(same_keys(m@, self@)) by {
            assert forall|j: int| 0 <= j < m@.len() implies (#[trigger] m@[j]).0 == (
            #[trigger] self@[j]).0 by {
                assert(entries@[j].0 == self.entries@[j].0);
            }
        }
        assert forall|j: int| 0 <= j < m@.len() implies cloned(self@[j].1, #[trigger] m@[j].1) by {
            assert(cloned(self.entries@[j].1, entries@[j].1));
        }
        m
    }
}

impl OrderedMap<String> {
    /// A map with the same entries.
    pub fn duplicate(&self) -> (m: Self)
        ensures
            m@ == self@,
            keys_ascend(self@),
    {
        proof {
            use_type_invariant(self);
        }
        let mut entries: Vec<(String, String)> = Vec::new();
        let mut i: usize = 0;
        while i < self.entries.len()
            invariant
                i <= self.entries.len(),
                entries@.len() == i,
                forall|j: int| 0 <= j < i ==> entries@[j] == self.entries@[j],
            decreases self.entries.len() - i,
        {
            let e = &self.entries[i];
            entries.push((e.0.clone(), e.1.clone()));
            i += 1;
        }
        let ghost copy = Seq::new(entries@.len(), |j: int| (entries@[j].0@, entries@[j].1));
        assert(copy =~= self@);
        let m = OrderedMap { entries };
        assert(m@ =~= copy);
        m
    }
}

} // verus!
