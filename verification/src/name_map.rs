//! A map from names to values that keeps its entries in ascending name order,
//! each name at most once. Names are ordered character by character by code
//! point, which is the byte order of their UTF-8 encoding.
use vstd::prelude::*;
use crate::text::{chars_of, str_eq, lemma_views_push};

verus! {

/// Strict lexicographic order on character sequences.
pub open spec fn key_lt(a: Seq<char>, b: Seq<char>) -> bool
    decreases a.len(),
{
    if a.len() == 0 {
        b.len() > 0
    } else if b.len() == 0 {
        false
    } else if a[0] != b[0] {
        a[0] < b[0]
    } else {
        key_lt(a.drop_first(), b.drop_first())
    }
}

/// Every name comes strictly before the names after it.
pub open spec fn keys_ascending(keys: Seq<Seq<char>>) -> bool {
    forall|i: int, j: int| 0 <= i < j < keys.len() ==> key_lt(keys[i], keys[j])
}

pub proof fn lemma_key_lt_irreflexive(a: Seq<char>)
    ensures
        !key_lt(a, a),
    decreases a.len(),
{
    if a.len() > 0 {
        lemma_key_lt_irreflexive(a.drop_first());
    }
}

pub proof fn lemma_key_lt_total(a: Seq<char>, b: Seq<char>)
    ensures
        a == b || key_lt(a, b) || key_lt(b, a),
    decreases a.len(),
{
    if a.len() > 0 && b.len() > 0 && a[0] == b[0] {
        lemma_key_lt_total(a.drop_first(), b.drop_first());
        if a.drop_first() == b.drop_first() {
            assert(a =~= seq![a[0]] + a.drop_first());
            assert(b =~= seq![b[0]] + b.drop_first());
        }
    } else if a.len() == 0 && b.len() == 0 {
        assert(a =~= b);
    }
}

pub proof fn lemma_key_lt_asymmetric(a: Seq<char>, b: Seq<char>)
    ensures
        key_lt(a, b) ==> !key_lt(b, a),
    decreases a.len(),
{
    if a.len() > 0 && b.len() > 0 && a[0] == b[0] {
        lemma_key_lt_asymmetric(a.drop_first(), b.drop_first());
    }
}

pub proof fn lemma_key_lt_transitive(a: Seq<char>, b: Seq<char>, c: Seq<char>)
    requires
        key_lt(a, b),
        key_lt(b, c),
    ensures
        key_lt(a, c),
    decreases a.len(),
{
    if a.len() > 0 && b.len() > 0 && c.len() > 0 && a[0] == b[0] && b[0] == c[0] {
        lemma_key_lt_transitive(a.drop_first(), b.drop_first(), c.drop_first());
    }
}

pub enum KeyOrder {
    Less,
    Equal,
    Greater,
}

/// Where `a` stands relative to `b` in name order.
pub fn order_keys(a: &str, b: &str) -> (r: KeyOrder)
    ensures
        r is Less <==> key_lt(a@, b@),
        r is Equal <==> a@ == b@,
        r is Greater <==> key_lt(b@, a@),
{
    let x = chars_of(a);
    let y = chars_of(b);
    let mut i: usize = 0;
    proof {
        lemma_key_lt_asymmetric(a@, b@);
        lemma_key_lt_irreflexive(a@);
        assert(a@.skip(0) =~= a@);
        assert(b@.skip(0) =~= b@);
    }
    while i < x.len() && i < y.len() && x[i] == y[i]
        invariant
            x@ == a@,
            y@ == b@,
            i <= x@.len(),
            i <= y@.len(),
            forall|j: int| 0 <= j < i ==> x@[j] == y@[j],
            key_lt(a@, b@) == key_lt(a@.skip(i as int), b@.skip(i as int)),
            key_lt(b@, a@) == key_lt(b@.skip(i as int), a@.skip(i as int)),
        decreases x@.len() - i,
    {
        assert(a@.skip(i as int).drop_first() =~= a@.skip(i + 1));
        assert(b@.skip(i as int).drop_first() =~= b@.skip(i + 1));
        i = i + 1;
    }
    if i == x.len() && i == y.len() {
        assert(a@ =~= b@);
        KeyOrder::Equal
    } else if i == x.len() {
        KeyOrder::Less
    } else if i == y.len() {
        KeyOrder::Greater
    } else {
        assert(a@[i as int] != b@[i as int]);
        if x[i] < y[i] {
            KeyOrder::Less
        } else {
            KeyOrder::Greater
        }
    }
}

/// The names of a sequence of entries.
pub open spec fn keys_of<V>(entries: Seq<(Seq<char>, V)>) -> Seq<Seq<char>> {
    entries.map_values(|e: (Seq<char>, V)| e.0)
}

/// The first position at or after `from` of an entry named `k`.
pub open spec fn index_from<V>(entries: Seq<(Seq<char>, V)>, k: Seq<char>, from: int) -> Option<int>
    decreases entries.len() - from,
{
    if from < 0 || from >= entries.len() {
        None
    } else if entries[from].0 == k {
        Some(from)
    } else {
        index_from(entries, k, from + 1)
    }
}

/// The position of the entry named `k`, if there is one.
pub open spec fn index_of_key<V>(entries: Seq<(Seq<char>, V)>, k: Seq<char>) -> Option<int> {
    index_from(entries, k, 0)
}

/// An entry named `k` with no entry of that name before it is the one found.
pub proof fn lemma_index_of_key<V>(entries: Seq<(Seq<char>, V)>, k: Seq<char>, at: int, from: int)
    requires
        0 <= from <= at < entries.len(),
        entries[at].0 == k,
        forall|j: int| from <= j < at ==> entries[j].0 != k,
    ensures
        index_from(entries, k, from) == Some(at),
    decreases at - from,
{
    if from < at {
        lemma_index_of_key(entries, k, at, from + 1);
    }
}

/// What a found position tells: the entry there is named `k`, and none
/// between `from` and it is.
pub proof fn lemma_index_from_found<V>(entries: Seq<(Seq<char>, V)>, k: Seq<char>, from: int)
    requires
        0 <= from,
    ensures
        index_from(entries, k, from) matches Some(at) ==> from <= at < entries.len() && entries[at].0
            == k && forall|j: int| from <= j < at ==> entries[j].0 != k,
        index_from(entries, k, from) is None ==> forall|j: int|
            from <= j < entries.len() ==> entries[j].0 != k,
    decreases entries.len() - from,
{
    if from < entries.len() {
        lemma_index_from_found(entries, k, from + 1);
    }
}

/// With no entry named `k` from `from` on, nothing is found.
pub proof fn lemma_index_of_missing_key<V>(entries: Seq<(Seq<char>, V)>, k: Seq<char>, from: int)
    requires
        0 <= from,
        forall|j: int| from <= j < entries.len() ==> entries[j].0 != k,
    ensures
        index_from(entries, k, from) is None,
    decreases entries.len() - from,
{
    if from < entries.len() {
        lemma_index_of_missing_key(entries, k, from + 1);
    }
}

/// The value stored under `k`, if any.
pub open spec fn lookup<V>(entries: Seq<(Seq<char>, V)>, k: Seq<char>) -> Option<V> {
    match index_of_key(entries, k) {
        Some(i) => Some(entries[i].1),
        None => None,
    }
}

/// Whether some entry is named `k`.
pub open spec fn has_key<V>(entries: Seq<(Seq<char>, V)>, k: Seq<char>) -> bool {
    exists|i: int| 0 <= i < entries.len() && entries[i].0 == k
}

/// The entries that `insert` leaves behind: the entry named `k` replaced, or
/// a new one put where the name order wants it.
pub open spec fn inserted<V>(entries: Seq<(Seq<char>, V)>, k: Seq<char>, v: V) -> Seq<(Seq<char>, V)> {
    match index_of_key(entries, k) {
        Some(i) => entries.update(i, (k, v)),
        None => entries.insert(count_before(entries, k, entries.len() as int) as int, (k, v)),
    }
}

/// How many of the first `m` entries have a name before `k`.
pub open spec fn count_before<V>(entries: Seq<(Seq<char>, V)>, k: Seq<char>, m: int) -> nat
    decreases m,
{
    if m <= 0 {
        0
    } else {
        count_before(entries, k, m - 1) + if key_lt(entries[m - 1].0, k) {
            1nat
        } else {
            0nat
        }
    }
}

proof fn lemma_count_before<V>(entries: Seq<(Seq<char>, V)>, k: Seq<char>, p: int, m: int)
    requires
        0 <= p <= entries.len(),
        0 <= m <= entries.len(),
        forall|j: int| 0 <= j < p ==> key_lt(entries[j].0, k),
        forall|j: int| p <= j < entries.len() ==> !key_lt(entries[j].0, k),
    ensures
        count_before(entries, k, m) == if m < p {
            m
        } else {
            p
        },
    decreases m,
{
    if m > 0 {
        lemma_count_before(entries, k, p, m - 1);
    }
}

/// The map that a sequence of entries stands for: each name to the value
/// stored under it.
pub open spec fn as_map<V>(entries: Seq<(Seq<char>, V)>) -> Map<Seq<char>, V> {
    Map::new(|k: Seq<char>| has_key(entries, k), |k: Seq<char>| lookup(entries, k)->0)
}

/// The entries that `remove` leaves behind.
pub open spec fn removed<V>(entries: Seq<(Seq<char>, V)>, k: Seq<char>) -> Seq<(Seq<char>, V)> {
    match index_of_key(entries, k) {
        Some(i) => entries.remove(i),
        None => entries,
    }
}

/// In entries with ascending names, the entry named `k` is the one looked up.
pub proof fn lemma_lookup_ascending<V>(entries: Seq<(Seq<char>, V)>, k: Seq<char>)
    requires
        keys_ascending(keys_of(entries)),
    ensures
        forall|j: int|
            0 <= j < entries.len() && #[trigger] entries[j].0 == k ==> lookup(entries, k) == Some(
                entries[j].1,
            ) && index_of_key(entries, k) == Some(j),
        !has_key(entries, k) ==> lookup(entries, k) is None,
        has_key(entries, k) ==> lookup(entries, k) is Some,
{
    assert forall|j: int|
        0 <= j < entries.len() && #[trigger] entries[j].0 == k implies lookup(entries, k) == Some(
            entries[j].1,
        ) && index_of_key(entries, k) == Some(j) by {
        assert forall|i: int| 0 <= i < j implies entries[i].0 != k by {
            assert(keys_of(entries)[i] == entries[i].0);
            assert(keys_of(entries)[j] == entries[j].0);
            lemma_key_lt_irreflexive(k);
        }
        lemma_index_of_key(entries, k, j, 0);
    }
    if !has_key(entries, k) {
        lemma_index_of_missing_key(entries, k, 0);
    } else {
        let j = choose|j: int| 0 <= j < entries.len() && entries[j].0 == k;
        assert(entries[j].0 == k);
    }
}

pub struct NameMap<V> {
    entries: Vec<(String, V)>,
}

impl<V> View for NameMap<V> {
    type V = Seq<(Seq<char>, V)>;

    closed spec fn view(&self) -> Seq<(Seq<char>, V)> {
        self.entries@.map_values(|e: (String, V)| (e.0@, e.1))
    }
}

impl<V> NameMap<V> {
    #[verifier::type_invariant]
    closed spec fn ascending(self) -> bool {
        keys_ascending(keys_of(self@))
    }

    /// An empty map.
    pub fn new() -> (m: Self)
        ensures
            m@ == Seq::<(Seq<char>, V)>::empty(),
    {
        let m = NameMap { entries: Vec::new() };
        assert(m@ =~= Seq::<(Seq<char>, V)>::empty());
        m
    }

    /// Number of entries; the names are in ascending order.
    pub fn len(&self) -> (n: usize)
        ensures
            n == self@.len(),
            keys_ascending(keys_of(self@)),
    {
        proof {
            use_type_invariant(self);
        }
        self.entries.len()
    }

    /// Whether the map has no entries.
    pub fn is_empty(&self) -> (b: bool)
        ensures
            b == (self@.len() == 0),
    {
        self.entries.len() == 0
    }

    /// The name of the `i`-th entry in name order.
    pub fn key_at(&self, i: usize) -> (k: &String)
        requires
            i < self@.len(),
        ensures
            k@ == self@[i as int].0,
    {
        &self.entries[i].0
    }

    /// The value of the `i`-th entry in name order.
    pub fn value_at(&self, i: usize) -> (v: &V)
        requires
            i < self@.len(),
        ensures
            *v == self@[i as int].1,
    {
        &self.entries[i].1
    }

    /// The names, in ascending order.
    pub fn keys(&self) -> (ks: Vec<String>)
        ensures
            ks@.map_values(|s: String| s@) == keys_of(self@),
            keys_ascending(keys_of(self@)),
    {
        proof {
            use_type_invariant(self);
        }
        let mut ks: Vec<String> = Vec::new();
        let mut i: usize = 0;
        while i < self.entries.len()
            invariant
                i <= self@.len(),
                self@.len() == self.entries@.len(),
                ks@.map_values(|s: String| s@) == keys_of(self@).subrange(0, i as int),
            decreases self@.len() - i,
        {
            let k = self.key_at(i);
            let ghost before = ks@;
            ks.push(k.clone());
            proof {
                lemma_views_push(before, ks@[i as int]);
                assert(keys_of(self@).subrange(0, i + 1) =~= keys_of(self@).subrange(0, i as int).push(k@));
            }
            i = i + 1;
        }
        assert(keys_of(self@).subrange(0, i as int) =~= keys_of(self@));
        ks
    }

    /// Position of the entry named `k`.
    pub fn find(&self, k: &str) -> (r: Option<usize>)
        ensures
            r matches Some(i) ==> i < self@.len() && self@[i as int].0 == k@,
            r is None ==> !has_key(self@, k@),
            r matches Some(i) ==> index_of_key(self@, k@) == Some(i as int),
            r is None ==> index_of_key(self@, k@) is None,
    {
        proof {
            use_type_invariant(self);
        }
        let mut i: usize = 0;
        while i < self.entries.len()
            invariant
                i <= self@.len(),
                self@.len() == self.entries@.len(),
                forall|j: int| 0 <= j < i ==> self@[j].0 != k@,
            decreases self@.len() - i,
        {
            if str_eq(self.entries[i].0.as_str(), k) {
                proof {
                    lemma_index_of_key(self@, k@, i as int, 0);
                }
                return Some(i);
            }
            i = i + 1;
        }
        proof {
            lemma_index_of_missing_key(self@, k@, 0);
        }
        None
    }

    /// Whether some entry is named `k`.
    pub fn contains_key(&self, k: &str) -> (b: bool)
        ensures
            b == has_key(self@, k@),
    {
        self.find(k).is_some()
    }

    /// The value stored under `k`.
    pub fn get(&self, k: &str) -> (r: Option<&V>)
        ensures
            r matches Some(v) ==> lookup(self@, k@) == Some(*v),
            r is None ==> lookup(self@, k@) is None && !has_key(self@, k@),
    {
        match self.find(k) {
            Some(i) => Some(self.value_at(i)),
            None => None,
        }
    }

    /// Stores `v` under `k`, replacing what was stored there before.
    #[verifier::spinoff_prover]
    #[verifier::rlimit(40)]
    pub fn insert(&mut self, k: String, v: V)
        ensures
            final(self)@ == inserted(old(self)@, k@, v),
            has_key(final(self)@, k@),
            lookup(final(self)@, k@) == Some(v),
            keys_ascending(keys_of(final(self)@)),
            as_map(final(self)@) == as_map(old(self)@).insert(k@, v),
    {
        proof {
            use_type_invariant(&*self);
        }
        let ghost old_view = self@;
        let ghost kv = k@;
        match self.find(k.as_str()) {
            Some(i) => {
                let ghost kv = k@;
                proof {
                    lemma_index_from_found(old_view, kv, 0);
                }
                let mut entries = Vec::new();
                std::mem::swap(&mut entries, &mut self.entries);
                entries.set(i, (k, v));
                proof {
                    assert(entries@.map_values(|e: (String, V)| (e.0@, e.1)) =~= old_view.update(
                        i as int,
                        (kv, v),
                    ));
                    assert(keys_of(old_view.update(i as int, (kv, v))) =~= keys_of(old_view));
                }
                self.entries = entries;
                proof {
                    assert(self@ == old_view.update(i as int, (kv, v)));
                    assert(keys_of(self@) == keys_of(old_view));
                    lemma_index_of_key(self@, kv, i as int, 0);
                    lemma_update_as_map(old_view, self@, i as int, v);
                }
            },
            None => {
                let mut p: usize = 0;
                let n = self.entries.len();
                while p < n
                    invariant
                        n == old_view.len(),
                        self@ == old_view,
                        keys_ascending(keys_of(old_view)),
                        !has_key(old_view, k@),
                        p <= n,
                        forall|j: int| 0 <= j < p ==> key_lt(old_view[j].0, k@),
                    ensures
                        p <= n,
                        forall|j: int| 0 <= j < p ==> key_lt(old_view[j].0, k@),
                        p < n ==> key_lt(k@, old_view[p as int].0),
                    decreases n - p,
                {
                    match order_keys(self.entries[p].0.as_str(), k.as_str()) {
                        KeyOrder::Less => {
                            p = p + 1;
                        },
                        _ => {
                            break;
                        },
                    }
                }
                proof {
                    // Every entry from `p` on comes after `k`.
                    assert forall|j: int| p <= j < n implies key_lt(k@, old_view[j].0) by {
                        assert(keys_of(old_view)[p as int] == old_view[p as int].0);
                        assert(keys_of(old_view)[j] == old_view[j].0);
                        if j > p {
                            lemma_key_lt_transitive(k@, old_view[p as int].0, old_view[j].0);
                        }
                    }
                    assert forall|j: int| p <= j < n implies !key_lt(old_view[j].0, k@) by {
                        lemma_key_lt_asymmetric(k@, old_view[j].0);
                    }
                    lemma_count_before(old_view, k@, p as int, n as int);
                }
                let ghost kv = k@;
                let mut entries = Vec::new();
                std::mem::swap(&mut entries, &mut self.entries);
                entries.insert(p, (k, v));
                proof {
                    let nv = old_view.insert(p as int, (kv, v));
                    assert(entries@.map_values(|e: (String, V)| (e.0@, e.1)) =~= nv);
                    assert forall|a: int, b: int| 0 <= a < b < keys_of(nv).len() implies key_lt(
                        keys_of(nv)[a],
                        keys_of(nv)[b],
                    ) by {
                        assert(keys_of(nv)[a] == nv[a].0);
                        assert(keys_of(nv)[b] == nv[b].0);
                        if b < p {
                            assert(keys_of(old_view)[a] == old_view[a].0);
                            assert(keys_of(old_view)[b] == old_view[b].0);
                        } else if b == p {
                        } else if a == p {
                        } else if a < p {
                            lemma_key_lt_transitive(old_view[a].0, kv, old_view[b - 1].0);
                        } else {
                            assert(keys_of(old_view)[a - 1] == old_view[a - 1].0);
                            assert(keys_of(old_view)[b - 1] == old_view[b - 1].0);
                        }
                    }
                }
                self.entries = entries;
                proof {
                    assert(self@[p as int].0 == kv);
                    lemma_index_of_key(self@, kv, p as int, 0);
                    let nv = self@;
                    assert forall|j: int| 0 <= j < old_view.len() && old_view[j].0 != kv implies exists|j2: int|
                        0 <= j2 < nv.len() && nv[j2] == old_view[j] by {
                        let j2 = if j < p { j } else { j + 1 };
                        assert(nv[j2] == old_view[j]);
                    }
                    assert forall|j: int| 0 <= j < nv.len() && nv[j].0 != kv implies exists|j2: int|
                        0 <= j2 < old_view.len() && old_view[j2] == nv[j] by {
                        let j2 = if j < p { j } else { j - 1 };
                        assert(nv[j] == old_view[j2]);
                    }
                    lemma_insert_as_map(old_view, nv, kv, v);
                }
            },
        }
    }

    /// Removes the entry named `k` and gives back its value.
    pub fn remove(&mut self, k: &str) -> (r: Option<V>)
        ensures
            final(self)@ == removed(old(self)@, k@),
            r == lookup(old(self)@, k@),
            as_map(final(self)@) == as_map(old(self)@).remove(k@),
    {
        proof {
            use_type_invariant(&*self);
        }
        let ghost old_view = self@;
        match self.find(k) {
            Some(i) => {
                let mut entries = Vec::new();
                std::mem::swap(&mut entries, &mut self.entries);
                let (_name, v) = entries.remove(i);
                proof {
                    let nv = old_view.remove(i as int);
                    assert(entries@.map_values(|e: (String, V)| (e.0@, e.1)) =~= nv);
                    assert forall|a: int, b: int| 0 <= a < b < keys_of(nv).len() implies key_lt(
                        keys_of(nv)[a],
                        keys_of(nv)[b],
                    ) by {
                        let a2 = if a < i { a } else { a + 1 };
                        let b2 = if b < i { b } else { b + 1 };
                        assert(keys_of(nv)[a] == keys_of(old_view)[a2]);
                        assert(keys_of(nv)[b] == keys_of(old_view)[b2]);
                    }
                }
                self.entries = entries;
                proof {
                    lemma_lookup_ascending(old_view, k@);
                    lemma_remove_as_map(old_view, self@, k@, i as int);
                }
                Some(v)
            },
            None => {
                proof {
                    lemma_lookup_ascending(old_view, k@);
                    assert(as_map(old_view).remove(k@) =~= as_map(old_view));
                }
                None
            },
        }
    }

    /// Puts `v` in place of the value of the `i`-th entry and gives back the
    /// value that was there.
    pub fn replace_value(&mut self, i: usize, v: V) -> (prev: V)
        requires
            i < old(self)@.len(),
        ensures
            prev == old(self)@[i as int].1,
            final(self)@ == old(self)@.update(i as int, (old(self)@[i as int].0, v)),
            as_map(final(self)@) == as_map(old(self)@).insert(old(self)@[i as int].0, v),
    {
        proof {
            use_type_invariant(&*self);
        }
        let ghost old_view = self@;
        let mut entries = Vec::new();
        std::mem::swap(&mut entries, &mut self.entries);
        let (name, prev) = entries.remove(i);
        entries.insert(i, (name, v));
        proof {
            let nv = old_view.update(i as int, (old_view[i as int].0, v));
            assert(entries@.map_values(|e: (String, V)| (e.0@, e.1)) =~= nv);
            assert(keys_of(nv) =~= keys_of(old_view));
        }
        self.entries = entries;
        proof {
            lemma_update_as_map(old_view, self@, i as int, v);
        }
        prev
    }
}

/// When the entries after a change hold the pairs of those before it, but
/// for the one named `k`, which now holds `v`, the map is the old map with
/// `k` set to `v`.
proof fn lemma_insert_as_map<V>(a: Seq<(Seq<char>, V)>, b: Seq<(Seq<char>, V)>, k: Seq<char>, v: V)
    requires
        keys_ascending(keys_of(a)),
        keys_ascending(keys_of(b)),
        has_key(b, k),
        lookup(b, k) == Some(v),
        forall|j: int| 0 <= j < a.len() && a[j].0 != k ==> exists|j2: int| 0 <= j2 < b.len() && b[j2] == a[j],
        forall|j: int| 0 <= j < b.len() && b[j].0 != k ==> exists|j2: int| 0 <= j2 < a.len() && a[j2] == b[j],
    ensures
        as_map(b) == as_map(a).insert(k, v),
{
    assert forall|q: Seq<char>| q != k implies has_key(b, q) == has_key(a, q) && (has_key(a, q) ==> lookup(b, q) == lookup(a, q)) by {
        lemma_lookup_ascending(a, q);
        lemma_lookup_ascending(b, q);
        if has_key(a, q) {
            let j = choose|j: int| 0 <= j < a.len() && a[j].0 == q;
            let j2 = choose|j2: int| 0 <= j2 < b.len() && b[j2] == a[j];
            assert(b[j2].0 == q);
        }
        if has_key(b, q) {
            let j = choose|j: int| 0 <= j < b.len() && b[j].0 == q;
            let j2 = choose|j2: int| 0 <= j2 < a.len() && a[j2] == b[j];
            assert(a[j2].0 == q);
        }
    }
    assert(as_map(b) =~= as_map(a).insert(k, v));
}

proof fn lemma_update_as_map<V>(a: Seq<(Seq<char>, V)>, b: Seq<(Seq<char>, V)>, i: int, v: V)
    requires
        keys_ascending(keys_of(a)),
        0 <= i < a.len(),
        b == a.update(i, (a[i].0, v)),
    ensures
        as_map(b) == as_map(a).insert(a[i].0, v),
{
    let k = a[i].0;
    assert(keys_of(b) =~= keys_of(a));
    assert(b[i].0 == k);
    lemma_lookup_ascending(b, k);
    assert forall|j: int| 0 <= j < a.len() && a[j].0 != k implies exists|j2: int|
        0 <= j2 < b.len() && b[j2] == a[j] by {
        assert(b[j] == a[j]);
    }
    assert forall|j: int| 0 <= j < b.len() && b[j].0 != k implies exists|j2: int|
        0 <= j2 < a.len() && a[j2] == b[j] by {
        assert(b[j] == a[j]);
    }
    lemma_insert_as_map(a, b, k, v);
}

proof fn lemma_remove_as_map<V>(a: Seq<(Seq<char>, V)>, b: Seq<(Seq<char>, V)>, k: Seq<char>, i: int)
    requires
        keys_ascending(keys_of(a)),
        0 <= i < a.len(),
        a[i].0 == k,
        b == a.remove(i),
    ensures
        as_map(b) == as_map(a).remove(k),
{
    assert forall|q: Seq<char>| #[trigger] has_key(b, q) implies q != k by {
        let j = choose|j: int| 0 <= j < b.len() && b[j].0 == q;
        let j2 = if j < i { j } else { j + 1 };
        assert(b[j] == a[j2]);
        assert(keys_of(a)[j2] == a[j2].0);
        assert(keys_of(a)[i] == a[i].0);
        lemma_key_lt_irreflexive(k);
    }
    assert(keys_ascending(keys_of(b))) by {
        assert forall|x: int, y: int| 0 <= x < y < keys_of(b).len() implies key_lt(keys_of(b)[x], keys_of(b)[y]) by {
            let x2 = if x < i { x } else { x + 1 };
            let y2 = if y < i { y } else { y + 1 };
            assert(keys_of(b)[x] == keys_of(a)[x2]);
            assert(keys_of(b)[y] == keys_of(a)[y2]);
        }
    }
    assert forall|q: Seq<char>| q != k implies has_key(b, q) == has_key(a, q) && (has_key(a, q) ==> lookup(b, q) == lookup(a, q)) by {
        lemma_lookup_ascending(a, q);
        lemma_lookup_ascending(b, q);
        if has_key(a, q) {
            let j = choose|j: int| 0 <= j < a.len() && a[j].0 == q;
            assert(j != i);
            let j2 = if j < i { j } else { j - 1 };
            assert(b[j2] == a[j]);
            assert(b[j2].0 == q);
        }
        if has_key(b, q) {
            let j = choose|j: int| 0 <= j < b.len() && b[j].0 == q;
            let j2 = if j < i { j } else { j + 1 };
            assert(b[j] == a[j2]);
            assert(a[j2].0 == q);
        }
    }
    assert forall|q: Seq<char>| has_key(b, q) implies lookup(b, q) == lookup(a, q) by {
        lemma_lookup_ascending(a, q);
        lemma_lookup_ascending(b, q);
    }
    assert(as_map(b) =~= as_map(a).remove(k));
}

/// The map of the first `i + 1` entries is that of the first `i` with the
/// `i`-th one added.
#[verifier::spinoff_prover]
#[verifier::rlimit(40)]
pub proof fn lemma_as_map_prefix<V>(entries: Seq<(Seq<char>, V)>, i: int)
    requires
        keys_ascending(keys_of(entries)),
        0 <= i < entries.len(),
    ensures
        as_map(entries.subrange(0, i + 1)) == as_map(entries.subrange(0, i)).insert(
            entries[i].0,
            entries[i].1,
        ),
{
    let a = entries.subrange(0, i);
    let b = entries.subrange(0, i + 1);
    assert forall|x: int, y: int| 0 <= x < y < keys_of(a).len() implies key_lt(keys_of(a)[x], keys_of(a)[y]) by {
        assert(keys_of(a)[x] == keys_of(entries)[x]);
        assert(keys_of(a)[y] == keys_of(entries)[y]);
    }
    assert forall|x: int, y: int| 0 <= x < y < keys_of(b).len() implies key_lt(keys_of(b)[x], keys_of(b)[y]) by {
        assert(keys_of(b)[x] == keys_of(entries)[x]);
        assert(keys_of(b)[y] == keys_of(entries)[y]);
    }
    let k = entries[i].0;
    assert(b[i] == entries[i]);
    lemma_lookup_ascending(b, k);
    assert forall|j: int| 0 <= j < a.len() && a[j].0 != k implies exists|j2: int|
        0 <= j2 < b.len() && b[j2] == a[j] by {
        assert(b[j] == a[j]);
    }
    assert forall|j: int| 0 <= j < b.len() && b[j].0 != k implies exists|j2: int|
        0 <= j2 < a.len() && a[j2] == b[j] by {
        assert(j != i);
        assert(b[j] == a[j]);
    }
    lemma_insert_as_map(a, b, k, entries[i].1);
}

} // verus!
