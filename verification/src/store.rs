use vstd::prelude::*;

verus! {

/// The order of keys: `a` comes before `b` where, at the first position at
/// which they differ, `a` has the character with the smaller code point, or
/// where `a` is a proper prefix of `b`.
pub open spec fn key_before(a: Seq<char>, b: Seq<char>) -> bool
    decreases a.len(),
{
    if b.len() == 0 {
        false
    } else if a.len() == 0 {
        true
    } else if a[0] != b[0] {
        (a[0] as int) < (b[0] as int)
    } else {
        key_before(a.drop_first(), b.drop_first())
    }
}

/// No key comes before itself.
pub proof fn lemma_key_before_irreflexive(a: Seq<char>)
    ensures
        !key_before(a, a),
    decreases a.len(),
{
    if a.len() > 0 {
        lemma_key_before_irreflexive(a.drop_first());
    }
}

/// The order of keys is transitive.
pub proof fn lemma_key_before_transitive(a: Seq<char>, b: Seq<char>, c: Seq<char>)
    requires
        key_before(a, b),
        key_before(b, c),
    ensures
        key_before(a, c),
    decreases a.len(),
{
    if a.len() > 0 && a[0] == b[0] && b[0] == c[0] {
        lemma_key_before_transitive(a.drop_first(), b.drop_first(), c.drop_first());
    }
}

/// Of two different keys, one comes before the other.
pub proof fn lemma_key_before_total(a: Seq<char>, b: Seq<char>)
    requires
        a != b,
    ensures
        key_before(a, b) || key_before(b, a),
    decreases a.len(),
{
    if a.len() > 0 && b.len() > 0 && a[0] == b[0] {
        if a.drop_first() == b.drop_first() {
            assert(a =~= seq![a[0]] + a.drop_first());
            assert(b =~= seq![b[0]] + b.drop_first());
        }
        lemma_key_before_total(a.drop_first(), b.drop_first());
    } else if a.len() == 0 && b.len() == 0 {
        assert(a =~= b);
    }
}

/// `<String as PartialOrd>::lt`, the `<` of strings: they are ordered
/// lexicographically by their bytes, which is the order of their code points.
#[verifier::external_body]
fn string_lt(a: &String, b: &String) -> (r: bool)
    ensures
        r == key_before(a@, b@),
{
    a < b
}

/// Some entry of `s` has the key `k`.
spec fn has_key<T>(s: Seq<(String, T)>, k: Seq<char>) -> bool {
    exists|i: int| 0 <= i < s.len() && (#[trigger] s[i]).0@ == k
}

/// The position of an entry of `s` with the key `k`, where there is one.
spec fn index_of<T>(s: Seq<(String, T)>, k: Seq<char>) -> int {
    choose|i: int| 0 <= i < s.len() && (#[trigger] s[i]).0@ == k
}

/// No key occurs in two entries of `s`.
spec fn distinct_keys<T>(s: Seq<(String, T)>) -> bool {
    forall|i: int, j: int|
        0 <= i < j < s.len() ==> (#[trigger] s[i]).0@ != (#[trigger] s[j]).0@
}

/// The entries of `s` stand in the order of their keys, smallest first.
spec fn sorted_keys<T>(s: Seq<(String, T)>) -> bool {
    forall|i: int, j: int|
        0 <= i < j < s.len() ==> key_before((#[trigger] s[i]).0@, (#[trigger] s[j]).0@)
}

/// The map that a list of entries stands for.
spec fn entries_map<T>(s: Seq<(String, T)>) -> Map<Seq<char>, T> {
    Map::new(|k: Seq<char>| has_key(s, k), |k: Seq<char>| s[index_of(s, k)].1)
}

/// In a list that is ordered by its keys no key occurs twice.
proof fn lemma_sorted_distinct<T>(s: Seq<(String, T)>)
    requires
        sorted_keys(s),
    ensures
        distinct_keys(s),
{
    assert forall|i: int, j: int| 0 <= i < j < s.len() implies
        (#[trigger] s[i]).0@ != (#[trigger] s[j]).0@ by {
        lemma_key_before_irreflexive(s[i].0@);
    }
}

/// In a list with distinct keys, each entry is what the map holds under its key.
proof fn lemma_entry_in_map<T>(s: Seq<(String, T)>, i: int)
    requires
        distinct_keys(s),
        0 <= i < s.len(),
    ensures
        has_key(s, s[i].0@),
        index_of(s, s[i].0@) == i,
        entries_map(s).contains_key(s[i].0@),
        entries_map(s)[s[i].0@] == s[i].1,
{
    let k = s[i].0@;
    assert(0 <= i < s.len() && s[i].0@ == k);
    let j = index_of(s, k);
    assert(0 <= j < s.len() && s[j].0@ == k);
    if j < i {
        assert(s[j].0@ != s[i].0@);
    }
    if i < j {
        assert(s[i].0@ != s[j].0@);
    }
}

/// The list `x` holds the pairs of the map `m`, each once, in the order of
/// their keys.
pub open spec fn lists<T>(x: Seq<(Seq<char>, T)>, m: Map<Seq<char>, T>) -> bool {
    &&& forall|i: int, j: int|
        0 <= i < j < x.len() ==> key_before((#[trigger] x[i]).0, (#[trigger] x[j]).0)
    &&& forall|i: int|
        0 <= i < x.len() ==> m.contains_key((#[trigger] x[i]).0) && m[x[i].0] == x[i].1
    &&& forall|k: Seq<char>|
        m.contains_key(k) ==> exists|i: int| 0 <= i < x.len() && (#[trigger] x[i]).0 == k
}

/// A map has one list of its pairs in the order of their keys: the order in
/// which the pairs came into the map leaves no trace in it.
pub proof fn lemma_lists_unique<T>(
    x: Seq<(Seq<char>, T)>,
    y: Seq<(Seq<char>, T)>,
    m: Map<Seq<char>, T>,
)
    requires
        lists(x, m),
        lists(y, m),
    ensures
        x == y,
    decreases x.len(),
{
    if x.len() == 0 {
        if y.len() > 0 {
            assert(m.contains_key(y[0].0));
        }
        assert(x =~= y);
    } else {
        let n = x.len() - 1;
        assert(m.contains_key(x[n].0));
        let j = choose|j: int| 0 <= j < y.len() && (#[trigger] y[j]).0 == x[n].0;
        let l = y.len() - 1;
        assert(m.contains_key(y[l].0));
        let i = choose|i: int| 0 <= i < x.len() && (#[trigger] x[i]).0 == y[l].0;
        let k = x[n].0;
        if y[l].0 != k {
            assert(key_before(x[i].0, x[n].0));
            assert(key_before(y[j].0, y[l].0));
            lemma_key_before_transitive(k, y[l].0, k);
            lemma_key_before_irreflexive(k);
        }
        let x0 = x.drop_last();
        let y0 = y.drop_last();
        let m0 = m.remove(k);
        lemma_key_before_irreflexive(k);
        assert forall|q: Seq<char>| m0.contains_key(q) implies exists|i: int|
            0 <= i < x0.len() && (#[trigger] x0[i]).0 == q by {
            let i = choose|i: int| 0 <= i < x.len() && (#[trigger] x[i]).0 == q;
            assert(x0[i].0 == q);
        }
        assert forall|q: Seq<char>| m0.contains_key(q) implies exists|i: int|
            0 <= i < y0.len() && (#[trigger] y0[i]).0 == q by {
            let i = choose|i: int| 0 <= i < y.len() && (#[trigger] y[i]).0 == q;
            assert(y0[i].0 == q);
        }
        assert forall|i: int| 0 <= i < x0.len() implies
            m0.contains_key((#[trigger] x0[i]).0) && m0[x0[i].0] == x0[i].1 by {
            assert(key_before(x[i].0, x[n].0));
        }
        assert forall|i: int| 0 <= i < y0.len() implies
            m0.contains_key((#[trigger] y0[i]).0) && m0[y0[i].0] == y0[i].1 by {
            assert(key_before(y[i].0, y[l].0));
        }
        assert(lists(x0, m0)) by {
            assert forall|i: int, j: int| 0 <= i < j < x0.len() implies key_before(
                (#[trigger] x0[i]).0,
                (#[trigger] x0[j]).0,
            ) by {
                assert(key_before(x[i].0, x[j].0));
            }
        }
        assert(lists(y0, m0)) by {
            assert forall|i: int, j: int| 0 <= i < j < y0.len() implies key_before(
                (#[trigger] y0[i]).0,
                (#[trigger] y0[j]).0,
            ) by {
                assert(key_before(y[i].0, y[j].0));
            }
        }
        lemma_lists_unique(x0, y0, m0);
        assert(x[n] == y[l]);
        assert(x =~= x0.push(x[n]));
        assert(y =~= y0.push(y[l]));
    }
}

/// A finite map from text keys to values: a list of entries that is kept in
/// the order of its keys, so that what it holds decides how it is laid out,
/// whatever the order in which the entries came. Its view is the map itself.
#[derive(Debug)]
pub struct Store<T> {
    entries: Vec<(String, T)>,
}

impl<T> View for Store<T> {
    type V = Map<Seq<char>, T>;

    closed spec fn view(&self) -> Map<Seq<char>, T> {
        entries_map(self.entries@)
    }
}

impl<T> Store<T> {
    /// The invariant of the representation: the entries stand in the order
    /// of their keys.
    pub closed spec fn wf(&self) -> bool {
        sorted_keys(self.entries@)
    }

    /// The keys and values in the order in which the store holds them.
    pub closed spec fn listing(&self) -> Seq<(Seq<char>, T)> {
        self.entries@.map_values(|e: (String, T)| (e.0@, e.1))
    }

    /// The store holds the pairs of its map in the order of their keys.
    pub proof fn lemma_listing(&self)
        requires
            self.wf(),
        ensures
            lists(self.listing(), self@),
    {
        let s = self.entries@;
        let x = self.listing();
        lemma_sorted_distinct(s);
        assert forall|i: int, j: int| 0 <= i < j < x.len() implies key_before(
            (#[trigger] x[i]).0,
            (#[trigger] x[j]).0,
        ) by {
            assert(key_before(s[i].0@, s[j].0@));
        }
        assert forall|i: int| 0 <= i < x.len() implies
            self@.contains_key((#[trigger] x[i]).0) && self@[x[i].0] == x[i].1 by {
            lemma_entry_in_map(s, i);
        }
        assert forall|k: Seq<char>| self@.contains_key(k) implies exists|i: int|
            0 <= i < x.len() && (#[trigger] x[i]).0 == k by {
            let i = index_of(s, k);
            assert(s[i].0@ == k);
            assert(x[i].0 == k);
        }
    }

    /// Two stores that hold the same map hold it in the same way, however
    /// each of them was filled.
    pub proof fn lemma_listing_unique(&self, other: &Self)
        requires
            self.wf(),
            other.wf(),
            self@ == other@,
        ensures
            self.listing() == other.listing(),
    {
        self.lemma_listing();
        other.lemma_listing();
        lemma_lists_unique(self.listing(), other.listing(), self@);
    }

    /// The empty map.
    pub fn new() -> (s: Self)
        ensures
            s.wf(),
            s@ == Map::<Seq<char>, T>::empty(),
    {
        let s = Store { entries: Vec::new() };
        assert(s@ =~= Map::<Seq<char>, T>::empty());
        s
    }

    /// The position of the first entry whose key does not come before `key`.
    fn lower_bound(&self, key: &String) -> (i: usize)
        requires
            self.wf(),
        ensures
            i <= self.entries@.len(),
            forall|j: int| 0 <= j < i ==> key_before((#[trigger] self.entries@[j]).0@, key@),
            forall|j: int|
                i <= j < self.entries@.len() ==> !key_before(
                    (#[trigger] self.entries@[j]).0@,
                    key@,
                ),
    {
        let mut i: usize = 0;
        while i < self.entries.len() && string_lt(&self.entries[i].0, key)
            invariant
                i <= self.entries@.len(),
                forall|j: int| 0 <= j < i ==> key_before((#[trigger] self.entries@[j]).0@, key@),
            decreases self.entries@.len() - i,
        {
            i += 1;
        }
        proof {
            let s = self.entries@;
            assert forall|j: int| i <= j < s.len() implies !key_before(
                (#[trigger] s[j]).0@,
                key@,
            ) by {
                if j > i && key_before(s[j].0@, key@) {
                    assert(key_before(s[i as int].0@, s[j].0@));
                    lemma_key_before_transitive(s[i as int].0@, s[j].0@, key@);
                }
            }
        }
        i
    }

    /// The position of the entry with the key `key`, if there is one, and
    /// else the position at which such an entry belongs.
    fn position(&self, key: &String) -> (r: Result<usize, usize>)
        requires
            self.wf(),
        ensures
            match r {
                Ok(i) => i < self.entries@.len() && self.entries@[i as int].0@ == key@,
                Err(i) => {
                    &&& i <= self.entries@.len()
                    &&& !has_key(self.entries@, key@)
                    &&& forall|j: int|
                        0 <= j < i ==> key_before((#[trigger] self.entries@[j]).0@, key@)
                    &&& forall|j: int|
                        i <= j < self.entries@.len() ==> key_before(
                            key@,
                            (#[trigger] self.entries@[j]).0@,
                        )
                },
            },
    {
        let i = self.lower_bound(key);
        if i < self.entries.len() && self.entries[i].0 == *key {
            Ok(i)
        } else {
            proof {
                let s = self.entries@;
                assert forall|j: int| 0 <= j < s.len() implies
                    (#[trigger] s[j]).0@ != key@ && (i <= j ==> key_before(key@, s[j].0@)) by {
                    if j < i {
                        lemma_key_before_irreflexive(key@);
                    } else {
                        if j > i {
                            assert(key_before(s[i as int].0@, s[j].0@));
                            lemma_key_before_irreflexive(s[j].0@);
                        }
                        lemma_key_before_total(s[j].0@, key@);
                    }
                }
            }
            Err(i)
        }
    }

    /// The keys, smallest first.
    pub fn keys(&self) -> (r: Vec<String>)
        requires
            self.wf(),
        ensures
            r@.len() == self.listing().len(),
            forall|i: int| 0 <= i < r@.len() ==> (#[trigger] r@[i])@ == self.listing()[i].0,
            forall|i: int, j: int|
                0 <= i < j < r@.len() ==> key_before((#[trigger] r@[i])@, (#[trigger] r@[j])@),
            forall|i: int| 0 <= i < r@.len() ==> self@.contains_key((#[trigger] r@[i])@),
            forall|k: Seq<char>|
                self@.contains_key(k) ==> exists|i: int|
                    0 <= i < r@.len() && (#[trigger] r@[i])@ == k,
    {
        let mut r: Vec<String> = Vec::new();
        let mut i: usize = 0;
        while i < self.entries.len()
            invariant
                i <= self.entries@.len(),
                r@.len() == i,
                forall|j: int| 0 <= j < i ==> (#[trigger] r@[j])@ == self.entries@[j].0@,
            decreases self.entries@.len() - i,
        {
            r.push(self.entries[i].0.clone());
            i += 1;
        }
        proof {
            self.lemma_listing();
            let x = self.listing();
            assert forall|i: int, j: int| 0 <= i < j < r@.len() implies key_before(
                (#[trigger] r@[i])@,
                (#[trigger] r@[j])@,
            ) by {
                assert(key_before(x[i].0, x[j].0));
            }
            assert forall|i: int| 0 <= i < r@.len() implies self@.contains_key(
                (#[trigger] r@[i])@,
            ) by {
                assert(self@.contains_key(x[i].0));
            }
            assert forall|k: Seq<char>| self@.contains_key(k) implies exists|i: int|
                0 <= i < r@.len() && (#[trigger] r@[i])@ == k by {
                let i = choose|i: int| 0 <= i < x.len() && (#[trigger] x[i]).0 == k;
                assert(r@[i]@ == k);
            }
        }
        r
    }

    /// The value stored under `key`, if there is one.
    pub fn get(&self, key: &String) -> (r: Option<&T>)
        requires
            self.wf(),
        ensures
            self@.contains_key(key@) ==> r == Some(&self@[key@]),
            !self@.contains_key(key@) ==> r.is_none(),
    {
        match self.position(key) {
            Ok(i) => {
                proof {
                    lemma_sorted_distinct(self.entries@);
                    lemma_entry_in_map(self.entries@, i as int);
                }
                Some(&self.entries[i].1)
            },
            Err(_) => None,
        }
    }

    /// Stores `value` under `key`, in place of what was stored there.
    pub fn insert(&mut self, key: String, value: T)
        requires
            old(self).wf(),
        ensures
            final(self).wf(),
            final(self)@ == old(self)@.insert(key@, value),
    {
        let ghost before = self.entries@;
        let ghost k = key@;
        proof {
            lemma_sorted_distinct(before);
        }
        match self.position(&key) {
            Ok(i) => {
                self.entries.set(i, (key, value));
                proof {
                    let after = self.entries@;
                    assert forall|a: int, b: int| 0 <= a < b < after.len() implies key_before(
                        (#[trigger] after[a]).0@,
                        (#[trigger] after[b]).0@,
                    ) by {
                        assert(key_before(before[a].0@, before[b].0@));
                    }
                    lemma_sorted_distinct(after);
                    assert forall|q: Seq<char>|
                        has_key(after, q) <==> (has_key(before, q) || q == k) by {
                        if has_key(after, q) {
                            let j = index_of(after, q);
                            assert(before[j].0@ == q);
                        }
                        if has_key(before, q) {
                            let j = index_of(before, q);
                            assert(after[j].0@ == q);
                        }
                        if q == k {
                            assert(after[i as int].0@ == q);
                        }
                    }
                    assert forall|q: Seq<char>| has_key(after, q) implies
                        entries_map(after)[q] == entries_map(before).insert(k, value)[q] by {
                        let j = index_of(after, q);
                        lemma_entry_in_map(after, j);
                        if q != k {
                            assert(before[j].0@ == q);
                            lemma_entry_in_map(before, j);
                        } else {
                            lemma_entry_in_map(after, i as int);
                        }
                    }
                    assert(entries_map(after) =~= entries_map(before).insert(k, value));
                }
            },
            Err(i) => {
                self.entries.insert(i, (key, value));
                proof {
                    let after = self.entries@;
                    let p = i as int;
                    assert forall|a: int| 0 <= a < after.len() && a != p implies
                        (#[trigger] after[a]) == before[if a < p { a } else { a - 1 }] by {}
                    assert forall|a: int, b: int| 0 <= a < b < after.len() implies key_before(
                        (#[trigger] after[a]).0@,
                        (#[trigger] after[b]).0@,
                    ) by {
                        let a0 = if a < p { a } else { a - 1 };
                        let b0 = if b < p { b } else { b - 1 };
                        if a == p {
                            assert(key_before(k, before[b0].0@));
                        } else if b == p {
                            assert(key_before(before[a0].0@, k));
                        } else {
                            assert(key_before(before[a0].0@, before[b0].0@));
                        }
                    }
                    lemma_sorted_distinct(after);
                    assert forall|q: Seq<char>|
                        has_key(after, q) <==> (has_key(before, q) || q == k) by {
                        if has_key(after, q) {
                            let j = index_of(after, q);
                            if j != p {
                                let j0 = if j < p { j } else { j - 1 };
                                assert(before[j0].0@ == q);
                            }
                        }
                        if has_key(before, q) {
                            let j = index_of(before, q);
                            let j1 = if j < p { j } else { j + 1 };
                            assert(after[j1].0@ == q);
                        }
                        if q == k {
                            assert(after[p].0@ == q);
                        }
                    }
                    assert forall|q: Seq<char>| has_key(after, q) implies
                        entries_map(after)[q] == entries_map(before).insert(k, value)[q] by {
                        let j = index_of(after, q);
                        lemma_entry_in_map(after, j);
                        if q != k {
                            let j0 = if j < p { j } else { j - 1 };
                            assert(before[j0].0@ == q);
                            lemma_entry_in_map(before, j0);
                        } else {
                            lemma_entry_in_map(after, p);
                        }
                    }
                    assert(entries_map(after) =~= entries_map(before).insert(k, value));
                }
            },
        }
    }

    /// Removes what is stored under `key`, if anything is.
    pub fn remove(&mut self, key: &String)
        requires
            old(self).wf(),
        ensures
            final(self).wf(),
            final(self)@ == old(self)@.remove(key@),
    {
        let ghost before = self.entries@;
        let ghost k = key@;
        proof {
            lemma_sorted_distinct(before);
        }
        match self.position(key) {
            Ok(i) => {
                let _ = self.entries.remove(i);
                proof {
                    let after = self.entries@;
                    let p = i as int;
                    assert forall|a: int| 0 <= a < after.len() implies
                        (#[trigger] after[a]) == before[if a < p { a } else { a + 1 }] by {}
                    assert forall|a: int, b: int| 0 <= a < b < after.len() implies key_before(
                        (#[trigger] after[a]).0@,
                        (#[trigger] after[b]).0@,
                    ) by {
                        let a0 = if a < p { a } else { a + 1 };
                        let b0 = if b < p { b } else { b + 1 };
                        assert(key_before(before[a0].0@, before[b0].0@));
                    }
                    lemma_sorted_distinct(after);
                    assert forall|q: Seq<char>|
                        has_key(after, q) <==> (has_key(before, q) && q != k) by {
                        if has_key(after, q) {
                            let j = index_of(after, q);
                            let j0 = if j < p { j } else { j + 1 };
                            assert(before[j0].0@ == q);
                            if j0 < p {
                                assert(before[j0].0@ != before[p].0@);
                            } else {
                                assert(before[p].0@ != before[j0].0@);
                            }
                        }
                        if has_key(before, q) && q != k {
                            let j = index_of(before, q);
                            let j1 = if j < p { j } else { j - 1 };
                            assert(after[j1].0@ == q);
                        }
                    }
                    assert forall|q: Seq<char>| has_key(after, q) implies
                        entries_map(after)[q] == entries_map(before)[q] by {
                        let j = index_of(after, q);
                        lemma_entry_in_map(after, j);
                        let j0 = if j < p { j } else { j + 1 };
                        assert(before[j0].0@ == q);
                        lemma_entry_in_map(before, j0);
                    }
                    assert(entries_map(after) =~= entries_map(before).remove(k));
                }
            },
            Err(_) => {
                assert(self@ =~= old(self)@.remove(k));
            },
        }
    }
}

} // verus!
