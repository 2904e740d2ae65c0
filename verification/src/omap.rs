//! An insertion-ordered map with `String` keys.
//!
//! Every namespace of the configuration (sources, transforms, sinks,
//! enrichment tables, secrets, expansions) preserves declaration order when
//! iterated, and keys are unique. Operators rely on that order for
//! diagnostics, so a plain hash map is unsuitable here.

use vstd::prelude::*;

verus! {

/// One lookup step: the value of the first entry at or after position `i`
/// whose key is `k`, or `None` when no later entry has that key.
pub open spec fn find_from<V>(s: Seq<(Seq<char>, V)>, k: Seq<char>, i: int) -> Option<V>
    decreases s.len() - i,
{
    if i < 0 || i >= s.len() {
        None
    } else if s[i].0 == k {
        Some(s[i].1)
    } else {
        find_from(s, k, i + 1)
    }
}

/// The value bound to key `k` in the entry sequence `s`, if any.
pub open spec fn find_in<V>(s: Seq<(Seq<char>, V)>, k: Seq<char>) -> Option<V> {
    find_from(s, k, 0)
}

/// No two entries of `s` share a key.
pub open spec fn distinct_keys<V>(s: Seq<(Seq<char>, V)>) -> bool {
    forall|i: int, j: int| 0 <= i < j < s.len() ==> s[i].0 != s[j].0
}

/// When no entry before position `i` has key `k`, the lookup may as well
/// start at `i`.
pub proof fn lemma_find_skip_prefix<V>(s: Seq<(Seq<char>, V)>, k: Seq<char>, i: int)
    requires
        0 <= i <= s.len(),
        forall|j: int| 0 <= j < i ==> s[j].0 != k,
    ensures
        find_in(s, k) == find_from(s, k, i),
    decreases i,
{
    if i > 0 {
        lemma_find_skip_prefix(s, k, i - 1);
        assert(s[i - 1].0 != k);
    }
}

/// A lookup succeeds exactly when some entry has the key, and under
/// distinct keys the found value is the value of every entry with that key.
pub proof fn lemma_find_characterizes<V>(s: Seq<(Seq<char>, V)>, k: Seq<char>, i: int)
    requires
        0 <= i <= s.len(),
    ensures
        find_from(s, k, i) is Some <==> exists|j: int| i <= j < s.len() && s[j].0 == k,
        forall|j: int|
            i <= j < s.len() && s[j].0 == k && distinct_keys(s) ==> find_from(s, k, i) == Some(
                s[j].1,
            ),
    decreases s.len() - i,
{
    if i < s.len() {
        lemma_find_characterizes(s, k, i + 1);
        if s[i].0 == k {
            assert(exists|j: int| i <= j < s.len() && s[j].0 == k);
        }
    }
}

/// How a lookup behaves on a sequence extended by one entry.
pub proof fn lemma_find_push<V>(s: Seq<(Seq<char>, V)>, p: (Seq<char>, V), k: Seq<char>, i: int)
    requires
        0 <= i <= s.len(),
    ensures
        find_from(s.push(p), k, i) == if find_from(s, k, i) is Some {
            find_from(s, k, i)
        } else if p.0 == k {
            Some(p.1)
        } else {
            None
        },
    decreases s.len() - i,
{
    if i < s.len() {
        assert(s.push(p)[i] == s[i]);
        lemma_find_push(s, p, k, i + 1);
    } else {
        assert(s.push(p)[i] == p);
        assert(find_from(s.push(p), k, i + 1) is None);
    }
}

/// Dropping the first entry shifts the lookup start by one.
pub proof fn lemma_find_shift<V>(s: Seq<(Seq<char>, V)>, k: Seq<char>, i: int)
    requires
        1 <= i <= s.len(),
    ensures
        find_from(s, k, i) == find_from(s.drop_first(), k, i - 1),
    decreases s.len() - i,
{
    if i < s.len() {
        assert(s.drop_first()[i - 1] == s[i]);
        lemma_find_shift(s, k, i + 1);
    }
}

/// The head entry is found, and a lookup for another key passes it by.
pub proof fn lemma_find_head<V>(s: Seq<(Seq<char>, V)>, k: Seq<char>)
    requires
        s.len() > 0,
    ensures
        find_in(s, s[0].0) == Some(s[0].1),
        s[0].0 != k ==> find_in(s, k) == find_in(s.drop_first(), k),
{
    assert(find_from(s, s[0].0, 0) == Some(s[0].1));
    if s[0].0 != k {
        assert(find_from(s, k, 0) == find_from(s, k, 1));
        lemma_find_shift(s, k, 1);
    }
}

/// Folding the entries of `b` onto `a`: entries of `b` whose key `a`
/// already holds are dropped (the first writer wins); the rest are
/// appended in order.
pub open spec fn merge_result<V>(
    a: Seq<(Seq<char>, V)>,
    b: Seq<(Seq<char>, V)>,
) -> Seq<(Seq<char>, V)>
    decreases b.len(),
{
    if b.len() == 0 {
        a
    } else if find_in(a, b[0].0) is Some {
        merge_result(a, b.drop_first())
    } else {
        merge_result(a.push(b[0]), b.drop_first())
    }
}

/// The keys of `b` that collide while folding `b` onto `a`, in order.
pub open spec fn merge_dup_keys<V>(a: Seq<(Seq<char>, V)>, b: Seq<(Seq<char>, V)>) -> Seq<Seq<char>>
    decreases b.len(),
{
    if b.len() == 0 {
        Seq::empty()
    } else if find_in(a, b[0].0) is Some {
        seq![b[0].0] + merge_dup_keys(a, b.drop_first())
    } else {
        merge_dup_keys(a.push(b[0]), b.drop_first())
    }
}

/// A key is bound after the fold exactly when one side binds it.
pub proof fn lemma_merge_contains<V>(a: Seq<(Seq<char>, V)>, b: Seq<(Seq<char>, V)>, k: Seq<char>)
    ensures
        find_in(merge_result(a, b), k) is Some <==> (find_in(a, k) is Some || find_in(b, k)
            is Some),
    decreases b.len(),
{
    if b.len() > 0 {
        lemma_find_push(a, b[0], k, 0);
        if find_in(a, b[0].0) is Some {
            lemma_merge_contains(a, b.drop_first(), k);
        } else {
            lemma_merge_contains(a.push(b[0]), b.drop_first(), k);
        }
        lemma_find_head(b, k);
        if b[0].0 == k {
            assert(find_in(b, k) is Some);
        }
    }
}

/// With `b`'s keys unique, a key collides during the fold exactly when
/// both sides bind it.
pub proof fn lemma_merge_dup_keys_contains<V>(
    a: Seq<(Seq<char>, V)>,
    b: Seq<(Seq<char>, V)>,
    k: Seq<char>,
)
    requires
        distinct_keys(b),
    ensures
        merge_dup_keys(a, b).contains(k) <==> (find_in(a, k) is Some && find_in(b, k) is Some),
    decreases b.len(),
{
    if b.len() > 0 {
        assert(distinct_keys(b.drop_first())) by {
            assert forall|i: int, j: int|
                0 <= i < j < b.drop_first().len() implies b.drop_first()[i].0 != b.drop_first()[j].0
                by {
                assert(b.drop_first()[i] == b[i + 1]);
                assert(b.drop_first()[j] == b[j + 1]);
            }
        }
        lemma_find_push(a, b[0], k, 0);
        if find_in(a, b[0].0) is Some {
            lemma_merge_dup_keys_contains(a, b.drop_first(), k);
            if k == b[0].0 {
                assert(merge_dup_keys(a, b)[0] == k);
                assert(merge_dup_keys(a, b).contains(k));
            } else {
                lemma_find_head(b, k);
                assert forall|q: Seq<char>|
                    merge_dup_keys(a, b).contains(q) implies q == b[0].0 || merge_dup_keys(
                    a,
                    b.drop_first(),
                ).contains(q) by {
                    let i = choose|i: int|
                        0 <= i < merge_dup_keys(a, b).len() && merge_dup_keys(a, b)[i] == q;
                    if i > 0 {
                        assert(merge_dup_keys(a, b.drop_first())[i - 1] == q);
                    }
                }
                if merge_dup_keys(a, b.drop_first()).contains(k) {
                    let i = choose|i: int|
                        0 <= i < merge_dup_keys(a, b.drop_first()).len() && merge_dup_keys(
                            a,
                            b.drop_first(),
                        )[i] == k;
                    assert(merge_dup_keys(a, b)[i + 1] == k);
                }
            }
        } else {
            lemma_merge_dup_keys_contains(a.push(b[0]), b.drop_first(), k);
            if k == b[0].0 {
                lemma_find_head(b, k);
                if merge_dup_keys(a, b).contains(k) {
                    assert(find_in(a.push(b[0]), k) is Some && find_in(b.drop_first(), k) is Some);
                    lemma_find_characterizes(b.drop_first(), k, 0);
                    let j = choose|j: int|
                        0 <= j < b.drop_first().len() && b.drop_first()[j].0 == k;
                    assert(b[j + 1].0 == k);
                    assert(false);
                }
            } else {
                lemma_find_head(b, k);
            }
        }
    }
}

/// Without collisions the fold is plain concatenation.
pub proof fn lemma_merge_result_disjoint<V>(a: Seq<(Seq<char>, V)>, b: Seq<(Seq<char>, V)>)
    requires
        distinct_keys(b),
        forall|k: Seq<char>| !(find_in(a, k) is Some && find_in(b, k) is Some),
    ensures
        merge_result(a, b) == a + b,
    decreases b.len(),
{
    if b.len() == 0 {
        assert(merge_result(a, b) =~= a + b);
    } else {
        assert(distinct_keys(b.drop_first())) by {
            assert forall|i: int, j: int|
                0 <= i < j < b.drop_first().len() implies b.drop_first()[i].0 != b.drop_first()[j].0
                by {
                assert(b.drop_first()[i] == b[i + 1]);
                assert(b.drop_first()[j] == b[j + 1]);
            }
        }
        lemma_find_head(b, b[0].0);
        assert(find_in(a, b[0].0) is None);
        assert forall|k: Seq<char>|
            !(find_in(a.push(b[0]), k) is Some && find_in(b.drop_first(), k) is Some) by {
            lemma_find_push(a, b[0], k, 0);
            if find_in(b.drop_first(), k) is Some {
                lemma_find_characterizes(b.drop_first(), k, 0);
                let j = choose|j: int| 0 <= j < b.drop_first().len() && b.drop_first()[j].0 == k;
                assert(b[j + 1].0 == k);
                lemma_find_characterizes(b, k, 0);
                assert(find_in(b, k) is Some);
                assert(k != b[0].0);
            }
        }
        lemma_merge_result_disjoint(a.push(b[0]), b.drop_first());
        assert(a.push(b[0]) + b.drop_first() =~= a + b);
    }
}

/// An insertion-ordered map from `String` keys to values of type `V`.
pub struct OMap<V> {
    keys: Vec<String>,
    vals: Vec<V>,
}

impl<V> OMap<V> {
    /// The entries in insertion order, each a key (as a character sequence)
    /// paired with its value.
    pub closed spec fn entries(&self) -> Seq<(Seq<char>, V)> {
        Seq::new(self.keys@.len(), |i: int| (self.keys@[i]@, self.vals@[i]))
    }

    /// Well-formed: as many keys as values, and no key repeated.
    pub closed spec fn wf(&self) -> bool {
        self.keys@.len() == self.vals@.len() && distinct_keys(self.entries())
    }

    /// The value bound to `k`, if any.
    pub open spec fn spec_get(&self, k: Seq<char>) -> Option<V> {
        find_in(self.entries(), k)
    }

    /// Whether some entry has key `k`.
    pub open spec fn spec_contains(&self, k: Seq<char>) -> bool {
        self.spec_get(k) is Some
    }

    /// The number of entries.
    pub open spec fn spec_len(&self) -> nat {
        self.entries().len()
    }

    /// A well-formed map has pairwise-distinct keys.
    pub proof fn wf_distinct(&self)
        requires
            self.wf(),
        ensures
            distinct_keys(self.entries()),
    {
    }

    pub fn new() -> (r: Self)
        ensures
            r.wf(),
            r.entries() == Seq::<(Seq<char>, V)>::empty(),
    {
        let r = OMap { keys: Vec::new(), vals: Vec::new() };
        proof {
            assert(r.entries() =~= Seq::<(Seq<char>, V)>::empty());
        }
        r
    }

    pub fn len(&self) -> (r: usize)
        requires
            self.wf(),
        ensures
            r == self.spec_len(),
    {
        self.keys.len()
    }

    /// The position of the entry with key `k`, scanning in insertion order.
    pub fn index_of(&self, k: &String) -> (r: Option<usize>)
        requires
            self.wf(),
        ensures
            match r {
                Some(i) => i < self.spec_len() && self.entries()[i as int].0 == k@
                    && self.spec_get(k@) == Some(self.entries()[i as int].1),
                None => !self.spec_contains(k@),
            },
    {
        let n = self.keys.len();
        let mut i: usize = 0;
        while i < n
            invariant
                self.wf(),
                n == self.spec_len(),
                0 <= i <= n,
                forall|j: int| 0 <= j < i ==> self.entries()[j].0 != k@,
            decreases n - i,
        {
            if self.keys[i] == *k {
                proof {
                    lemma_find_skip_prefix(self.entries(), k@, i as int);
                }
                return Some(i);
            }
            i += 1;
        }
        proof {
            lemma_find_skip_prefix(self.entries(), k@, n as int);
        }
        None
    }

    pub fn contains_key(&self, k: &String) -> (r: bool)
        requires
            self.wf(),
        ensures
            r == self.spec_contains(k@),
    {
        self.index_of(k).is_some()
    }

    pub fn get(&self, k: &String) -> (r: Option<&V>)
        requires
            self.wf(),
        ensures
            match r {
                Some(v) => self.spec_get(k@) == Some(*v),
                None => !self.spec_contains(k@),
            },
    {
        match self.index_of(k) {
            Some(i) => Some(&self.vals[i]),
            None => None,
        }
    }

    /// Append a new entry; the key must not be present yet.
    pub fn push(&mut self, k: String, v: V)
        requires
            old(self).wf(),
            !old(self).spec_contains(k@),
        ensures
            final(self).wf(),
            final(self).entries() == old(self).entries().push((k@, v)),
    {
        proof {
            lemma_find_characterizes(old(self).entries(), k@, 0);
        }
        self.keys.push(k);
        self.vals.push(v);
        proof {
            assert(self.entries() =~= old(self).entries().push((k@, v)));
        }
    }

    /// Replace the value of an existing entry, keeping its position.
    pub fn set(&mut self, k: &String, v: V) -> (r: bool)
        requires
            old(self).wf(),
        ensures
            final(self).wf(),
            r == old(self).spec_contains(k@),
            if old(self).spec_contains(k@) {
                exists|i: int|
                    0 <= i < old(self).entries().len() && old(self).entries()[i].0 == k@
                        && final(self).entries() == old(self).entries().update(i, (k@, v))
            } else {
                final(self).entries() == old(self).entries()
            },
    {
        match self.index_of(k) {
            Some(i) => {
                let ghost idx = i as int;
                self.vals[i] = v;
                proof {
                    assert(self.entries() =~= old(self).entries().update(idx, (k@, v)));
                    assert(distinct_keys(self.entries()));
                }
                true
            },
            None => false,
        }
    }

    /// Remove the entry with key `k`, keeping the order of the rest.
    pub fn remove(&mut self, k: &String) -> (r: Option<V>)
        requires
            old(self).wf(),
        ensures
            final(self).wf(),
            r == old(self).spec_get(k@),
            if old(self).spec_contains(k@) {
                exists|i: int|
                    0 <= i < old(self).entries().len() && old(self).entries()[i].0 == k@
                        && final(self).entries() == old(self).entries().remove(i)
            } else {
                final(self).entries() == old(self).entries()
            },
    {
        match self.index_of(k) {
            Some(i) => {
                let ghost idx = i as int;
                self.keys.remove(i);
                let v = self.vals.remove(i);
                proof {
                    assert(self.entries() =~= old(self).entries().remove(idx));
                    lemma_find_characterizes(old(self).entries(), k@, 0);
                }
                Some(v)
            },
            None => None,
        }
    }

    /// Remove and return the first entry, keeping the order of the rest.
    pub fn shift(&mut self) -> (r: Option<(String, V)>)
        requires
            old(self).wf(),
        ensures
            final(self).wf(),
            match r {
                Some(kv) => old(self).entries().len() > 0 && kv.0@ == old(self).entries()[0].0
                    && kv.1 == old(self).entries()[0].1 && final(self).entries() == old(
                    self,
                ).entries().drop_first(),
                None => old(self).entries().len() == 0 && final(self).entries() == old(
                    self,
                ).entries(),
            },
    {
        if self.keys.len() == 0 {
            None
        } else {
            let k = self.keys.remove(0);
            let v = self.vals.remove(0);
            proof {
                assert(self.entries() =~= old(self).entries().drop_first());
                assert forall|i: int, j: int|
                    0 <= i < j < self.entries().len() implies self.entries()[i].0
                    != self.entries()[j].0 by {
                    assert(self.entries()[i] == old(self).entries()[i + 1]);
                    assert(self.entries()[j] == old(self).entries()[j + 1]);
                }
            }
            Some((k, v))
        }
    }

    /// Mutable access to the value at position `i`; the key stays.
    /// Replace the value at position `i`, returning the old one; the key
    /// stays.
    pub fn swap_at(&mut self, i: usize, v: V) -> (r: V)
        requires
            old(self).wf(),
            i < old(self).spec_len(),
        ensures
            r == old(self).entries()[i as int].1,
            final(self).wf(),
            final(self).entries() == old(self).entries().update(
                i as int,
                (old(self).entries()[i as int].0, v),
            ),
    {
        let mut v2 = v;
        core::mem::swap(&mut self.vals[i], &mut v2);
        proof {
            assert(self.entries() =~= old(self).entries().update(
                i as int,
                (old(self).entries()[i as int].0, v),
            ));
            assert forall|a: int, b: int|
                0 <= a < b < self.entries().len() implies self.entries()[a].0
                != self.entries()[b].0 by {
                assert(old(self).entries()[a].0 == self.entries()[a].0);
                assert(old(self).entries()[b].0 == self.entries()[b].0);
            }
        }
        v2
    }

    /// The key of the entry at position `i`.
    pub fn key_at(&self, i: usize) -> (r: &String)
        requires
            self.wf(),
            i < self.spec_len(),
        ensures
            r@ == self.entries()[i as int].0,
    {
        &self.keys[i]
    }

    /// The value of the entry at position `i`.
    pub fn val_at(&self, i: usize) -> (r: &V)
        requires
            self.wf(),
            i < self.spec_len(),
        ensures
            *r == self.entries()[i as int].1,
    {
        &self.vals[i]
    }
}

} // verus!
