//! Amounts of tokens: a single amount, or amounts per token id.
use vstd::prelude::*;
use crate::decimal::Decimal;
use crate::error::{ContractError, FractionError};
use crate::ids::{EntryView, view_entries, sort_entries, sort_by_amount_then_id, ids_unique};
use crate::utils::{
    calculate_amount_with_percent, decimal_to_uint128, spec_amount_with_percent, spec_decimal_to_uint128
};

verus! {

/// The id of a token of the 1155-style token contract.
pub type TokenId = String;

/// The sum of the amounts of a sequence of entries.
pub open spec fn total(s: Seq<EntryView>) -> nat
    decreases s.len(),
{
    if s.len() == 0 {
        0
    } else {
        s[0].1 as nat + total(s.drop_first())
    }
}

/// The amount of id `k`, if it occurs.
pub open spec fn lookup(s: Seq<EntryView>, k: Seq<char>) -> Option<u128>
    decreases s.len(),
{
    if s.len() == 0 {
        None
    } else if s[0].0 == k {
        Some(s[0].1)
    } else {
        lookup(s.drop_first(), k)
    }
}

/// The amount of id `k`, zero where it does not occur.
pub open spec fn amount_of(s: Seq<EntryView>, k: Seq<char>) -> u128 {
    match lookup(s, k) {
        Some(a) => a,
        None => 0,
    }
}

/// `s` with id `k` set to `v`: replaced in place where it occurs, appended otherwise.
pub open spec fn map_insert(s: Seq<EntryView>, k: Seq<char>, v: u128) -> Seq<EntryView>
    decreases s.len(),
{
    if s.len() == 0 {
        seq![(k, v)]
    } else if s[0].0 == k {
        s.update(0, (k, v))
    } else {
        seq![s[0]] + map_insert(s.drop_first(), k, v)
    }
}

/// `s` without id `k`.
pub open spec fn remove_id(s: Seq<EntryView>, k: Seq<char>) -> Seq<EntryView>
    decreases s.len(),
{
    if s.len() == 0 {
        s
    } else if s[0].0 == k {
        remove_id(s.drop_first(), k)
    } else {
        seq![s[0]] + remove_id(s.drop_first(), k)
    }
}

/// Removing an id that does not occur changes nothing.
pub proof fn lemma_remove_absent(s: Seq<EntryView>, k: Seq<char>)
    requires
        lookup(s, k) is None,
    ensures
        remove_id(s, k) == s,
    decreases s.len(),
{
    if s.len() > 0 {
        lemma_remove_absent(s.drop_first(), k);
        assert(seq![s[0]] + s.drop_first() =~= s);
    }
}

/// Removing an id makes it absent and leaves the others as they were, in the same order.
pub proof fn lemma_remove_id_lookup(s: Seq<EntryView>, k: Seq<char>)
    ensures
        forall|j: Seq<char>| #[trigger] lookup(remove_id(s, k), j) == if j == k { None } else { lookup(s, j) },
        remove_id(s, k).len() <= s.len(),
        ids_unique(s) ==> ids_unique(remove_id(s, k)),
        forall|i: int| 0 <= i < remove_id(s, k).len() ==> lookup(s, (#[trigger] remove_id(s, k)[i]).0) is Some,
    decreases s.len(),
{
    if s.len() > 0 {
        let t = s.drop_first();
        lemma_remove_id_lookup(t, k);
        let q = remove_id(t, k);
        let r = remove_id(s, k);
        if s[0].0 != k {
            assert(r.drop_first() =~= q);
            assert forall|j: Seq<char>| #[trigger] lookup(r, j) == if j == k { None } else { lookup(s, j) } by {
                assert(r[0] == s[0]);
                assert(lookup(q, j) == if j == k { None } else { lookup(t, j) });
            }
            assert forall|i: int| 0 <= i < r.len() implies lookup(s, (#[trigger] r[i]).0) is Some by {
                if i > 0 {
                    assert(r[i] == q[i - 1]);
                }
            }
            if ids_unique(s) {
                assert forall|a: int, b: int| 0 <= a < b < t.len() implies (#[trigger] t[a]).0 != (#[trigger] t[b]).0 by {
                    assert(t[a] == s[a + 1]);
                    assert(t[b] == s[b + 1]);
                }
                assert forall|i: int| 0 <= i < q.len() implies (#[trigger] q[i]).0 != s[0].0 by {
                    let m = lemma_lookup_some_index(t, q[i].0);
                    assert(t[m] == s[m + 1]);
                }
                assert forall|a: int, b: int| 0 <= a < b < r.len() implies (#[trigger] r[a]).0 != (#[trigger] r[b]).0 by {
                    assert(r[b] == q[b - 1]);
                    if a > 0 {
                        assert(r[a] == q[a - 1]);
                    }
                }
            }
        } else {
            assert forall|j: Seq<char>| #[trigger] lookup(r, j) == if j == k { None } else { lookup(s, j) } by {
                assert(lookup(q, j) == if j == k { None } else { lookup(t, j) });
            }
            if ids_unique(s) {
                assert forall|a: int, b: int| 0 <= a < b < t.len() implies (#[trigger] t[a]).0 != (#[trigger] t[b]).0 by {
                    assert(t[a] == s[a + 1]);
                    assert(t[b] == s[b + 1]);
                }
            }
        }
    }
}

/// Setting an id changes its lookup alone, and the total by the difference.
pub proof fn lemma_map_insert_lookup(s: Seq<EntryView>, k: Seq<char>, v: u128)
    requires
        ids_unique(s),
    ensures
        forall|j: Seq<char>| #[trigger] lookup(map_insert(s, k, v), j) == if j == k { Some(v) } else { lookup(s, j) },
        total(map_insert(s, k, v)) + amount_of(s, k) == total(s) + v,
        ids_unique(map_insert(s, k, v)),
    decreases s.len(),
{
    lemma_map_insert(s, k, v);
    let r = map_insert(s, k, v);
    if s.len() == 0 {
        assert(r.drop_first() =~= Seq::<EntryView>::empty());
        assert(r[0] == (k, v));
        assert(total(Seq::<EntryView>::empty()) == 0);
        assert forall|j: Seq<char>| #[trigger] lookup(r, j) == if j == k { Some(v) } else { lookup(s, j) } by {
            assert(lookup(r.drop_first(), j) is None);
        }
    } else if s[0].0 == k {
        assert(r.drop_first() =~= s.drop_first());
        assert(r[0] == (k, v));
        assert forall|j: Seq<char>| #[trigger] lookup(r, j) == if j == k { Some(v) } else { lookup(s, j) } by {
            if j != k {
                assert(lookup(r, j) == lookup(r.drop_first(), j));
                assert(lookup(s, j) == lookup(s.drop_first(), j));
            }
        }
    } else {
        let t = s.drop_first();
        assert forall|a: int, b: int| 0 <= a < b < t.len() implies (#[trigger] t[a]).0 != (#[trigger] t[b]).0 by {
            assert(t[a] == s[a + 1]);
            assert(t[b] == s[b + 1]);
        }
        lemma_map_insert_lookup(t, k, v);
        assert(r.drop_first() =~= map_insert(t, k, v));
        assert(r[0] == s[0]);
        assert forall|j: Seq<char>| #[trigger] lookup(r, j) == if j == k { Some(v) } else { lookup(s, j) } by {
            assert(lookup(map_insert(t, k, v), j) == if j == k { Some(v) } else { lookup(t, j) });
        }
    }
}

/// The map built by inserting the pairs in order: a later pair of an id replaces an
/// earlier one.
pub open spec fn map_from_pairs(p: Seq<EntryView>) -> Seq<EntryView>
    decreases p.len(),
{
    if p.len() == 0 {
        Seq::empty()
    } else {
        map_insert(map_from_pairs(p.drop_last()), p.last().0, p.last().1)
    }
}

pub proof fn lemma_total_push(s: Seq<EntryView>, e: EntryView)
    ensures
        total(s.push(e)) == total(s) + e.1,
    decreases s.len(),
{
    if s.len() > 0 {
        assert(s.push(e).drop_first() =~= s.drop_first().push(e));
        assert(s.push(e)[0] == s[0]);
        lemma_total_push(s.drop_first(), e);
    } else {
        assert(s.push(e).drop_first() =~= Seq::<EntryView>::empty());
        assert(s.push(e)[0] == e);
        assert(total(Seq::<EntryView>::empty()) == 0);
    }
}

pub proof fn lemma_total_prefix(s: Seq<EntryView>, i: int)
    requires
        0 <= i <= s.len(),
    ensures
        total(s.take(i)) <= total(s),
    decreases s.len() - i,
{
    if i < s.len() {
        lemma_total_prefix(s, i + 1);
        assert(s.take(i + 1) =~= s.take(i).push(s[i]));
        lemma_total_push(s.take(i), s[i]);
    } else {
        assert(s.take(i) =~= s);
    }
}

pub proof fn lemma_total_concat(a: Seq<EntryView>, b: Seq<EntryView>)
    ensures
        total(a + b) == total(a) + total(b),
    decreases a.len(),
{
    if a.len() > 0 {
        assert((a + b).drop_first() =~= a.drop_first() + b);
        lemma_total_concat(a.drop_first(), b);
    } else {
        assert(a + b =~= b);
    }
}

/// Inserting a new id keeps the ids distinct, and replacing one does too.
proof fn lemma_map_insert(s: Seq<EntryView>, k: Seq<char>, v: u128)
    requires
        ids_unique(s),
    ensures
        ids_unique(map_insert(s, k, v)),
        lookup(s, k) is Some ==> map_insert(s, k, v).len() == s.len(),
        lookup(s, k) is None ==> map_insert(s, k, v) == s.push((k, v)),
        forall|i: int| 0 <= i < map_insert(s, k, v).len() ==>
            (#[trigger] map_insert(s, k, v)[i]).0 == k || lookup(s, (map_insert(s, k, v)[i]).0) is Some,
    decreases s.len(),
{
    let r = map_insert(s, k, v);
    if s.len() == 0 {
        assert(r =~= s.push((k, v)));
    } else if s[0].0 == k {
        assert forall|i: int, j: int| 0 <= i < j < r.len() implies (#[trigger] r[i]).0 != (#[trigger] r[j]).0 by {
            if i == 0 {
                assert(s[j].0 != s[0].0);
            }
        }
        assert forall|i: int| 0 <= i < r.len() implies (#[trigger] r[i]).0 == k || lookup(s, r[i].0) is Some by {
            if i > 0 {
                lemma_lookup_present(s, i);
            }
        }
    } else {
        let t = s.drop_first();
        assert forall|i: int, j: int| 0 <= i < j < t.len() implies (#[trigger] t[i]).0 != (#[trigger] t[j]).0 by {
            assert(t[i] == s[i + 1]);
            assert(t[j] == s[j + 1]);
        }
        lemma_map_insert(t, k, v);
        let q = map_insert(t, k, v);
        assert forall|i: int| 0 <= i < q.len() implies (#[trigger] q[i]).0 != s[0].0 by {
            if q[i].0 != k {
                let m = lemma_lookup_some_index(t, q[i].0);
                assert(t[m] == s[m + 1]);
            }
        }
        assert forall|i: int, j: int| 0 <= i < j < r.len() implies (#[trigger] r[i]).0 != (#[trigger] r[j]).0 by {
            assert(r[j] == q[j - 1]);
            if i > 0 {
                assert(r[i] == q[i - 1]);
            }
        }
        assert forall|i: int| 0 <= i < r.len() implies (#[trigger] r[i]).0 == k || lookup(s, r[i].0) is Some by {
            if i > 0 {
                assert(r[i] == q[i - 1]);
            }
        }
        if lookup(s, k) is None {
            assert(r =~= s.push((k, v)));
        }
    }
}

/// Where an id occurs in a map, its lookup finds it.
pub proof fn lemma_lookup_present(s: Seq<EntryView>, i: int)
    requires
        ids_unique(s),
        0 <= i < s.len(),
    ensures
        lookup(s, s[i].0) == Some(s[i].1),
    decreases i,
{
    if i > 0 {
        let t = s.drop_first();
        assert(s[0].0 != s[i].0);
        assert forall|a: int, b: int| 0 <= a < b < t.len() implies (#[trigger] t[a]).0 != (#[trigger] t[b]).0 by {
            assert(t[a] == s[a + 1]);
            assert(t[b] == s[b + 1]);
        }
        lemma_lookup_present(t, i - 1);
    }
}

/// A lookup that finds an id finds it at some position.
pub proof fn lemma_lookup_some_index(s: Seq<EntryView>, k: Seq<char>) -> (i: int)
    requires
        lookup(s, k) is Some,
    ensures
        0 <= i < s.len(),
        s[i].0 == k,
        lookup(s, k) == Some(s[i].1),
    decreases s.len(),
{
    if s[0].0 == k {
        0
    } else {
        let j = lemma_lookup_some_index(s.drop_first(), k);
        j + 1
    }
}

/// A lookup that finds nothing means the id occurs nowhere.
pub proof fn lemma_lookup_none(s: Seq<EntryView>, k: Seq<char>)
    requires
        lookup(s, k) is None,
    ensures
        forall|i: int| 0 <= i < s.len() ==> (#[trigger] s[i]).0 != k,
    decreases s.len(),
{
    if s.len() > 0 {
        lemma_lookup_none(s.drop_first(), k);
        assert forall|i: int| 0 <= i < s.len() implies (#[trigger] s[i]).0 != k by {
            if i > 0 {
                assert(s[i] == s.drop_first()[i - 1]);
            }
        }
    }
}

/// Amounts per token id; no id occurs twice.
#[derive(Clone, Debug, PartialEq, Eq)]
pub struct TokenMap {
    pub entries: Vec<(TokenId, u128)>,
}

impl View for TokenMap {
    type V = Seq<EntryView>;

    open spec fn view(&self) -> Seq<EntryView> {
        view_entries(self.entries@)
    }
}

impl TokenMap {
    /// No id occurs twice.
    pub open spec fn wf(&self) -> bool {
        ids_unique(self@)
    }

    /// The empty map.
    pub fn new() -> (m: TokenMap)
        ensures
            m@ == Seq::<EntryView>::empty(),
            m.wf(),
    {
        TokenMap { entries: Vec::new() }
    }

    /// The number of ids.
    pub fn len(&self) -> (n: usize)
        ensures
            n == self@.len(),
    {
        self.entries.len()
    }

    /// The amount of `id`, if it occurs.
    pub fn get(&self, id: &String) -> (r: Option<u128>)
        requires
            self.wf(),
        ensures
            r == lookup(self@, id@),
    {
        let mut i: usize = 0;
        proof {
            assert(self@.skip(0) =~= self@);
        }
        while i < self.entries.len()
            invariant
                i <= self@.len(),
                self.wf(),
                lookup(self@, id@) == lookup(self@.skip(i as int), id@),
            decreases self@.len() - i,
        {
            proof {
                assert(self@.skip(i as int).drop_first() =~= self@.skip(i + 1));
                assert(self@.skip(i as int)[0] == self@[i as int]);
            }
            if self.entries[i].0 == *id {
                return Some(self.entries[i].1);
            }
            i = i + 1;
        }
        None
    }

    /// Sets the amount of `id`: replaced where it occurs, appended otherwise.
    pub fn insert(&mut self, id: String, amount: u128)
        requires
            old(self).wf(),
        ensures
            final(self).wf(),
            final(self)@ == map_insert(old(self)@, id@, amount),
    {
        let ghost s = self@;
        let ghost idv = id@;
        let mut i: usize = 0;
        while i < self.entries.len()
            invariant
                i <= self@.len(),
                self@ == s,
                s == old(self)@,
                idv == id@,
                ids_unique(s),
                forall|j: int| 0 <= j < i ==> (#[trigger] s[j]).0 != id@,
            decreases self@.len() - i,
        {
            proof {
                assert(s[i as int] == (self.entries@[i as int].0@, self.entries@[i as int].1));
            }
            let same = self.entries[i].0.eq(&id);
            proof {
                assert(same == (self.entries@[i as int].0@ == idv));
            }
            if same {
                proof {
                    lemma_map_insert_at(s, idv, amount, i as int);
                    lemma_map_insert(s, idv, amount);
                }
                self.entries.set(i, (id, amount));
                proof {
                    assert(self@ =~= s.update(i as int, (idv, amount)));
                }
                return;
            }
            i = i + 1;
        }
        proof {
            lemma_lookup_none_from_all(s, idv);
            lemma_map_insert(s, idv, amount);
        }
        self.entries.push((id, amount));
        proof {
            assert(self@ =~= s.push((idv, amount)));
        }
    }

    /// The map of the pairs, inserted in order.
    pub fn from_pairs(pairs: Vec<(String, u128)>) -> (m: TokenMap)
        ensures
            m.wf(),
            m@ == map_from_pairs(view_entries(pairs@)),
    {
        let mut m = TokenMap::new();
        let mut k: usize = 0;
        let n = pairs.len();
        let mut rest = pairs;
        let ghost p = view_entries(rest@);
        proof {
            assert(p.take(0) =~= Seq::<EntryView>::empty());
        }
        while k < n
            invariant
                n == p.len(),
                k <= n,
                m.wf(),
                m@ == map_from_pairs(p.take(k as int)),
                view_entries(rest@) == p,
            decreases n - k,
        {
            let id = rest[k].0.clone();
            let amount = rest[k].1;
            proof {
                assert(p.take(k + 1).drop_last() =~= p.take(k as int));
                assert(p.take(k + 1).last() == p[k as int]);
            }
            m.insert(id, amount);
            k = k + 1;
        }
        proof {
            assert(p.take(n as int) =~= p);
        }
        m
    }

    /// Removes `id`, if it occurs.
    pub fn remove(&mut self, id: &String)
        requires
            old(self).wf(),
        ensures
            final(self).wf(),
            final(self)@ == remove_id(old(self)@, id@),
    {
        let ghost s = self@;
        proof {
            lemma_remove_id_lookup(s, id@);
        }
        let mut i: usize = 0;
        while i < self.entries.len()
            invariant
                i <= self@.len(),
                self@ == s,
                s == old(self)@,
                ids_unique(s),
                forall|j: int| 0 <= j < i ==> (#[trigger] s[j]).0 != id@,
            decreases self@.len() - i,
        {
            proof {
                assert(s[i as int] == (self.entries@[i as int].0@, self.entries@[i as int].1));
            }
            if self.entries[i].0.eq(id) {
                proof {
                    lemma_remove_unique_at(s, id@, i as int);
                }
                self.entries.remove(i);
                proof {
                    assert(self@ =~= s.remove(i as int));
                }
                return;
            }
            i = i + 1;
        }
        proof {
            lemma_lookup_none_from_all(s, id@);
            lemma_remove_absent(s, id@);
        }
    }

    /// A copy of the map.
    pub fn copy(&self) -> (m: TokenMap)
        ensures
            m@ == self@,
    {
        let mut entries: Vec<(String, u128)> = Vec::new();
        let mut i: usize = 0;
        while i < self.entries.len()
            invariant
                i <= self@.len(),
                view_entries(entries@) == self@.take(i as int),
            decreases self@.len() - i,
        {
            let ghost before = entries@;
            let e = (self.entries[i].0.clone(), self.entries[i].1);
            proof {
                assert(self@[i as int] == (self.entries@[i as int].0@, self.entries@[i as int].1));
                assert(e.0@ == self.entries@[i as int].0@);
                assert(view_entries(before).len() == before.len());
                assert(before.len() == i);
            }
            entries.push(e);
            proof {
                assert(entries@ == before.push(e));
                assert(entries@.len() == i + 1);
                assert(view_entries(entries@)[i as int] == self@[i as int]);
                assert(view_entries(entries@) =~= self@.take(i + 1));
            }
            i = i + 1;
        }
        proof {
            assert(self@.take(self@.len() as int) =~= self@);
        }
        TokenMap { entries }
    }

    /// The sum of the amounts, or `None` where it does not fit in 128 bits.
    pub fn checked_total(&self) -> (r: Option<u128>)
        ensures
            r matches Some(t) ==> t == total(self@),
            r is None ==> total(self@) > u128::MAX,
    {
        let mut acc: u128 = 0;
        let mut i: usize = 0;
        proof {
            assert(self@.take(0) =~= Seq::<EntryView>::empty());
        }
        while i < self.entries.len()
            invariant
                i <= self@.len(),
                acc == total(self@.take(i as int)),
            decreases self@.len() - i,
        {
            proof {
                assert(self@.take(i + 1) =~= self@.take(i as int).push(self@[i as int]));
                lemma_total_push(self@.take(i as int), self@[i as int]);
            }
            let a = self.entries[i].1;
            if acc > u128::MAX - a {
                proof {
                    lemma_total_prefix(self@, i + 1);
                }
                return None;
            }
            acc = acc + a;
            i = i + 1;
        }
        proof {
            assert(self@.take(self@.len() as int) =~= self@);
        }
        Some(acc)
    }
}

/// Where an id occurs nowhere, its lookup finds nothing.
pub proof fn lemma_lookup_none_from_all(s: Seq<EntryView>, k: Seq<char>)
    requires
        forall|j: int| 0 <= j < s.len() ==> (#[trigger] s[j]).0 != k,
    ensures
        lookup(s, k) is None,
    decreases s.len(),
{
    if s.len() > 0 {
        assert forall|j: int| 0 <= j < s.drop_first().len() implies (#[trigger] s.drop_first()[j]).0 != k by {
            assert(s.drop_first()[j] == s[j + 1]);
        }
        lemma_lookup_none_from_all(s.drop_first(), k);
    }
}

/// Where `k` occurs at `i` of a map, removing it removes that position.
proof fn lemma_remove_unique_at(s: Seq<EntryView>, k: Seq<char>, i: int)
    requires
        ids_unique(s),
        0 <= i < s.len(),
        s[i].0 == k,
        forall|j: int| 0 <= j < i ==> (#[trigger] s[j]).0 != k,
    ensures
        remove_id(s, k) == s.remove(i),
    decreases i,
{
    let t = s.drop_first();
    if i == 0 {
        assert forall|j: int| 0 <= j < t.len() implies (#[trigger] t[j]).0 != k by {
            assert(t[j] == s[j + 1]);
        }
        lemma_lookup_none_from_all(t, k);
        lemma_remove_absent(t, k);
        assert(s.remove(0) =~= t);
    } else {
        assert forall|a: int, b: int| 0 <= a < b < t.len() implies (#[trigger] t[a]).0 != (#[trigger] t[b]).0 by {
            assert(t[a] == s[a + 1]);
            assert(t[b] == s[b + 1]);
        }
        assert forall|j: int| 0 <= j < i - 1 implies (#[trigger] t[j]).0 != k by {
            assert(t[j] == s[j + 1]);
        }
        assert(t[i - 1] == s[i]);
        lemma_remove_unique_at(t, k, i - 1);
        assert(s.remove(i) =~= seq![s[0]] + t.remove(i - 1));
    }
}

/// Where `k` first occurs at `i`, insertion replaces position `i`.
proof fn lemma_map_insert_at(s: Seq<EntryView>, k: Seq<char>, v: u128, i: int)
    requires
        0 <= i < s.len(),
        s[i].0 == k,
        forall|j: int| 0 <= j < i ==> (#[trigger] s[j]).0 != k,
    ensures
        map_insert(s, k, v) == s.update(i, (k, v)),
    decreases i,
{
    if i > 0 {
        let t = s.drop_first();
        assert forall|j: int| 0 <= j < i - 1 implies (#[trigger] t[j]).0 != k by {
            assert(t[j] == s[j + 1]);
        }
        lemma_map_insert_at(t, k, v, i - 1);
        assert(s.update(i, (k, v)) =~= seq![s[0]] + t.update(i - 1, (k, v)));
    }
}

/// What a token amount stands for.
pub enum AmountView {
    Multiple(Seq<EntryView>),
    Single(u128),
}

/// An amount of tokens: amounts per token id of the 1155-style token, or a single amount.
#[derive(Clone, Debug, PartialEq, Eq)]
pub enum TokenAmount {
    Multiple(TokenMap),
    Single(u128),
}

impl View for TokenAmount {
    type V = AmountView;

    open spec fn view(&self) -> AmountView {
        match self {
            TokenAmount::Multiple(m) => AmountView::Multiple(m@),
            TokenAmount::Single(a) => AmountView::Single(*a),
        }
    }
}

/// The total of an amount: the single amount, or the sum of the amounts per id.
pub open spec fn amount_total(a: AmountView) -> nat {
    match a {
        AmountView::Multiple(s) => total(s),
        AmountView::Single(x) => x as nat,
    }
}

/// Whether the total of an amount can be computed: amounts per id must name at least one
/// id and sum to at most `u128::MAX`.
pub open spec fn total_defined(a: AmountView) -> bool {
    match a {
        AmountView::Multiple(s) => s.len() > 0 && total(s) <= u128::MAX,
        AmountView::Single(_) => true,
    }
}

/// Taking amounts from the entries in turn until `left` is covered: each entry gives all
/// it has, or what is still missing.
pub open spec fn take_greedy(s: Seq<EntryView>, left: nat) -> Seq<EntryView>
    decreases s.len(),
{
    if s.len() == 0 || left == 0 {
        Seq::empty()
    } else {
        let take: nat = if s[0].1 >= left { left } else { s[0].1 as nat };
        seq![(s[0].0, take as u128)] + take_greedy(s.drop_first(), (left - take) as nat)
    }
}

/// The part of the amounts per id given by `percent` (in units of `SCALE_FACTOR`): the
/// total's part rounded up, taken from the ids with the smallest amounts first, and among
/// equal amounts from the smallest ids first.
pub open spec fn spec_percent_from_multiple(s: Seq<EntryView>, percent: u128) -> Result<Seq<EntryView>, ContractError> {
    match spec_amount_with_percent(total(s) as u128, percent) {
        Ok(left) => Ok(take_greedy(sort_entries(s), left as nat)),
        Err(e) => Err(e),
    }
}

/// The part of an amount given by a percent, or `None` for a zero percent.
pub open spec fn spec_get_percent(a: AmountView, percent: Decimal) -> Result<Option<AmountView>, ContractError> {
    if percent.atomics == 0 {
        Ok(None)
    } else {
        match spec_decimal_to_uint128(percent) {
            Err(e) => Err(ContractError::Std(e)),
            Ok(p) => match a {
                AmountView::Multiple(s) => match spec_percent_from_multiple(s, p) {
                    Ok(t) => Ok(Some(AmountView::Multiple(t))),
                    Err(e) => Err(e),
                },
                AmountView::Single(x) => match spec_amount_with_percent(x, p) {
                    Ok(y) => Ok(Some(AmountView::Single(y))),
                    Err(_) => Err(ContractError::CheckedMultiplyFractionError(FractionError::ConversionOverflow)),
                },
            },
        }
    }
}

/// The view of an optional amount.
pub open spec fn opt_amount_view(o: Option<TokenAmount>) -> Option<AmountView> {
    match o {
        Some(a) => Some(a@),
        None => None,
    }
}

/// The entries greedily taken cover `min(left, total)`, name a prefix of the ids in the
/// same order, and never take more of an id than it has.
pub proof fn lemma_take_greedy(s: Seq<EntryView>, left: nat)
    ensures
        total(take_greedy(s, left)) == if left <= total(s) { left } else { total(s) },
        take_greedy(s, left).len() <= s.len(),
        forall|i: int| 0 <= i < take_greedy(s, left).len() ==>
            (#[trigger] take_greedy(s, left)[i]).0 == s[i].0 && take_greedy(s, left)[i].1 <= s[i].1,
    decreases s.len(),
{
    if s.len() == 0 || left == 0 {
    } else {
        let take: nat = if s[0].1 >= left { left } else { s[0].1 as nat };
        let rest = take_greedy(s.drop_first(), (left - take) as nat);
        lemma_take_greedy(s.drop_first(), (left - take) as nat);
        lemma_total_concat(seq![(s[0].0, take as u128)], rest);
        assert(total(seq![(s[0].0, take as u128)]) == take) by {
            assert(seq![(s[0].0, take as u128)].drop_first() =~= Seq::<EntryView>::empty());
            assert(total(Seq::<EntryView>::empty()) == 0);
            assert(seq![(s[0].0, take as u128)][0].1 == take as u128);
        }
        let r = take_greedy(s, left);
        assert forall|i: int| 0 <= i < r.len() implies (#[trigger] r[i]).0 == s[i].0 && r[i].1 <= s[i].1 by {
            if i > 0 {
                assert(r[i] == rest[i - 1]);
                assert(s.drop_first()[i - 1] == s[i]);
            }
        }
    }
}

impl TokenAmount {
    /// Amounts per id hold each id once.
    pub open spec fn wf(&self) -> bool {
        match self {
            TokenAmount::Multiple(m) => m.wf(),
            TokenAmount::Single(_) => true,
        }
    }

    /// A copy of the amount.
    pub fn copy(&self) -> (r: TokenAmount)
        ensures
            r@ == self@,
            self.wf() ==> r.wf(),
    {
        match self {
            TokenAmount::Multiple(m) => TokenAmount::Multiple(m.copy()),
            TokenAmount::Single(a) => TokenAmount::Single(*a),
        }
    }

    /// The amounts per id; an error holding the total where the amount is a single one.
    pub fn get_multiple(&self) -> (r: Result<TokenMap, ContractError>)
        requires
            self.wf(),
        ensures
            match self@ {
                AmountView::Multiple(s) => r matches Ok(m) && m@ == s && m.wf(),
                AmountView::Single(a) => r == Err::<TokenMap, ContractError>(ContractError::InvalidTokenAmount { amount: a }),
            },
    {
        match self {
            TokenAmount::Multiple(m) => Ok(m.copy()),
            TokenAmount::Single(a) => Err(ContractError::InvalidTokenAmount { amount: *a }),
        }
    }

    /// The single amount; an error holding the total where the amount is per id.
    pub fn get_single(&self) -> (r: Result<u128, ContractError>)
        requires
            total_defined(self@),
        ensures
            match self@ {
                AmountView::Single(a) => r == Ok::<u128, ContractError>(a),
                AmountView::Multiple(s) => r == Err::<u128, ContractError>(ContractError::InvalidTokenAmount { amount: total(s) as u128 }),
            },
    {
        match self {
            TokenAmount::Single(a) => Ok(*a),
            TokenAmount::Multiple(_) => Err(ContractError::InvalidTokenAmount { amount: self.get_total() }),
        }
    }

    /// The total: the single amount, or the sum of the amounts per id.
    pub fn get_total(&self) -> (t: u128)
        requires
            total_defined(self@),
        ensures
            t == amount_total(self@),
    {
        match self {
            TokenAmount::Single(a) => *a,
            TokenAmount::Multiple(m) => match m.checked_total() {
                Some(t) => t,
                None => {
                    proof { assert(false); }
                    0
                }
            },
        }
    }

    /// The part of the amount given by `percent`: `None` for a zero percent; otherwise
    /// the part rounded up, taken from amounts per id as `spec_percent_from_multiple`
    /// says.
    pub fn get_percent(&self, percent: Decimal) -> (r: Result<Option<TokenAmount>, ContractError>)
        requires
            self.wf(),
            percent.atomics != 0 && spec_decimal_to_uint128(percent) is Ok ==> total_defined(self@),
        ensures
            match r {
                Ok(o) => spec_get_percent(self@, percent) == Ok::<Option<AmountView>, ContractError>(opt_amount_view(o))
                    && (o matches Some(a) ==> a.wf()),
                Err(e) => spec_get_percent(self@, percent) == Err::<Option<AmountView>, ContractError>(e),
            },
    {
        if percent.is_zero() {
            return Ok(None);
        }
        let percent = match decimal_to_uint128(percent) {
            Ok(p) => p,
            Err(e) => return Err(ContractError::Std(e)),
        };
        match self {
            TokenAmount::Multiple(amounts) => match Self::get_percent_from_multiple(amounts.copy(), percent) {
                Ok(a) => Ok(Some(a)),
                Err(e) => Err(e),
            },
            TokenAmount::Single(amount) => match Self::get_percent_from_single(*amount, percent) {
                Ok(a) => Ok(Some(a)),
                Err(e) => Err(ContractError::CheckedMultiplyFractionError(e)),
            },
        }
    }

    /// The part of amounts per id given by `percent`, as `spec_percent_from_multiple`
    /// says: the total's part, taken from the smallest amounts first (and the smallest ids
    /// among equal amounts), so that not every id need be in the result.
    fn get_percent_from_multiple(input_amounts: TokenMap, percent: u128) -> (r: Result<TokenAmount, ContractError>)
        requires
            input_amounts.wf(),
            total_defined(AmountView::Multiple(input_amounts@)),
        ensures
            match r {
                Ok(TokenAmount::Multiple(m)) => spec_percent_from_multiple(input_amounts@, percent) == Ok::<Seq<EntryView>, ContractError>(m@)
                    && m.wf(),
                Ok(TokenAmount::Single(_)) => false,
                Err(e) => spec_percent_from_multiple(input_amounts@, percent) == Err::<Seq<EntryView>, ContractError>(e),
            },
    {
        let input_amounts_total = TokenAmount::Multiple(input_amounts.copy()).get_total();
        let mut percent_amount_left = match Self::get_percent_from_single(input_amounts_total, percent) {
            Ok(TokenAmount::Single(a)) => a,
            Ok(TokenAmount::Multiple(_)) => {
                proof { assert(false); }
                0
            },
            Err(e) => return Err(ContractError::CheckedMultiplyFractionError(e)),
        };
        let ghost left0 = percent_amount_left as nat;
        let sorted = sort_by_amount_then_id(input_amounts.entries);
        let ghost sv = view_entries(sorted@);
        let mut amounts: Vec<(String, u128)> = Vec::new();
        let mut i: usize = 0;
        proof {
            assert(sv.skip(0) =~= sv);
            assert(view_entries(amounts@) =~= Seq::<EntryView>::empty());
            lemma_sorted_ids_unique(input_amounts@);
        }
        while i < sorted.len() && percent_amount_left > 0
            invariant
                i <= sv.len(),
                sv == view_entries(sorted@),
                ids_unique(sv),
                take_greedy(sv, left0) == view_entries(amounts@) + take_greedy(sv.skip(i as int), percent_amount_left as nat),
                view_entries(amounts@) =~= take_greedy(sv, left0).take(i as int),
                i <= take_greedy(sv, left0).len(),
            decreases sv.len() - i,
        {
            let token_amount = sorted[i].1;
            let take_amount = if token_amount >= percent_amount_left { percent_amount_left } else { token_amount };
            let ghost before = amounts@;
            proof {
                let t = sv.skip(i as int);
                assert(t[0] == sv[i as int]);
                assert(t.drop_first() =~= sv.skip(i + 1));
                assert(sv[i as int] == (sorted@[i as int].0@, sorted@[i as int].1));
            }
            let id = sorted[i].0.clone();
            amounts.push((id, take_amount));
            percent_amount_left = percent_amount_left - take_amount;
            proof {
                assert(view_entries(amounts@) =~= view_entries(before).push((sv[i as int].0, take_amount)));
                assert(view_entries(amounts@) + take_greedy(sv.skip(i + 1), percent_amount_left as nat)
                    =~= view_entries(before) + take_greedy(sv.skip(i as int), (percent_amount_left + take_amount) as nat));
                assert(take_greedy(sv, left0)[i as int] == (sv[i as int].0, take_amount));
                assert(view_entries(amounts@) =~= take_greedy(sv, left0).take(i + 1));
            }
            i = i + 1;
        }
        proof {
            if i == sorted@.len() {
                assert(sv.skip(i as int) =~= Seq::<EntryView>::empty());
            }
            assert(view_entries(amounts@) =~= take_greedy(sv, left0));
            lemma_take_greedy(sv, left0);
            assert forall|a: int, b: int| 0 <= a < b < view_entries(amounts@).len()
                implies (#[trigger] view_entries(amounts@)[a]).0 != (#[trigger] view_entries(amounts@)[b]).0 by {
                assert(view_entries(amounts@)[a].0 == sv[a].0);
                assert(view_entries(amounts@)[b].0 == sv[b].0);
            }
        }
        Ok(TokenAmount::Multiple(TokenMap { entries: amounts }))
    }

    /// `input_amount * percent / SCALE_FACTOR`, rounded up, as a single amount; the error
    /// where it does not fit in 128 bits.
    fn get_percent_from_single(input_amount: u128, percent: u128) -> (r: Result<TokenAmount, FractionError>)
        ensures
            match spec_amount_with_percent(input_amount, percent) {
                Ok(x) => r matches Ok(TokenAmount::Single(y)) && y == x,
                Err(_) => r == Err::<TokenAmount, FractionError>(FractionError::ConversionOverflow),
            },
    {
        match calculate_amount_with_percent(input_amount, percent) {
            Ok(x) => Ok(TokenAmount::Single(x)),
            Err(_) => Err(FractionError::ConversionOverflow),
        }
    }
}

/// Sorting entries whose ids are distinct keeps them distinct.
pub proof fn lemma_sorted_ids_unique(s: Seq<EntryView>)
    requires
        ids_unique(s),
    ensures
        ids_unique(sort_entries(s)),
{
    broadcast use vstd::seq_lib::group_to_multiset_ensures;
    crate::ids::lemma_sort_entries_sorted_permutation(s);
    let q = sort_entries(s);
    assert forall|a: int, b: int| 0 <= a < b < q.len() implies (#[trigger] q[a]).0 != (#[trigger] q[b]).0 by {
        assert(q.to_multiset().count(q[a]) > 0);
        assert(q.to_multiset().count(q[b]) > 0);
        assert(s.contains(q[a]));
        assert(s.contains(q[b]));
        let ia = choose|k: int| 0 <= k < s.len() && s[k] == q[a];
        let ib = choose|k: int| 0 <= k < s.len() && s[k] == q[b];
        if q[a].0 == q[b].0 {
            assert(ia == ib);
            assert(q[a] == q[b]);
            assert(crate::ids::entry_lt(q[a], q[b]));
            crate::ids::lemma_id_lt_irreflexive(q[a].0);
        }
    }
}

/// Sorting entries with distinct ids keeps the amount of every id.
pub proof fn lemma_sorted_lookup(s: Seq<EntryView>)
    requires
        ids_unique(s),
    ensures
        forall|k: Seq<char>| #[trigger] lookup(sort_entries(s), k) == lookup(s, k),
{
    broadcast use vstd::seq_lib::group_to_multiset_ensures;
    lemma_sorted_ids_unique(s);
    crate::ids::lemma_sort_entries_sorted_permutation(s);
    let q = sort_entries(s);
    assert forall|k: Seq<char>| #[trigger] lookup(q, k) == lookup(s, k) by {
        if lookup(q, k) is Some {
            let i = lemma_lookup_some_index(q, k);
            assert(q.to_multiset().count(q[i]) > 0);
            assert(s.contains(q[i]));
            let j = choose|j: int| 0 <= j < s.len() && s[j] == q[i];
            lemma_lookup_present(s, j);
        } else if lookup(s, k) is Some {
            let i = lemma_lookup_some_index(s, k);
            assert(s.to_multiset().count(s[i]) > 0);
            assert(q.contains(s[i]));
            let j = choose|j: int| 0 <= j < q.len() && q[j] == s[i];
            lemma_lookup_present(q, j);
        }
    }
}

/// Taking greedily from entries with distinct ids never takes more of an id than it has.
pub proof fn lemma_take_greedy_within(q: Seq<EntryView>, left: nat)
    requires
        ids_unique(q),
    ensures
        forall|k: Seq<char>| #[trigger] amount_of(take_greedy(q, left), k) <= amount_of(q, k),
    decreases q.len(),
{
    if q.len() > 0 && left > 0 {
        let take: nat = if q[0].1 >= left { left } else { q[0].1 as nat };
        let t = q.drop_first();
        assert forall|a: int, b: int| 0 <= a < b < t.len() implies (#[trigger] t[a]).0 != (#[trigger] t[b]).0 by {
            assert(t[a] == q[a + 1]);
            assert(t[b] == q[b + 1]);
        }
        lemma_take_greedy_within(t, (left - take) as nat);
        let r = take_greedy(q, left);
        assert(r[0] == (q[0].0, take as u128));
        assert(r.drop_first() =~= take_greedy(t, (left - take) as nat));
        assert forall|k: Seq<char>| #[trigger] amount_of(r, k) <= amount_of(q, k) by {
            if k != q[0].0 {
                assert(lookup(r, k) == lookup(r.drop_first(), k));
                assert(lookup(q, k) == lookup(t, k));
                assert(amount_of(take_greedy(t, (left - take) as nat), k) <= amount_of(t, k));
            } else {
                assert(lookup(r, k) == Some(take as u128));
                assert(lookup(q, k) == Some(q[0].1));
            }
        }
    }
}

/// The protocol's part of amounts per id never takes more of an id than the amount has.
pub proof fn lemma_percent_within(s: Seq<EntryView>, percent: u128)
    requires
        ids_unique(s),
        spec_percent_from_multiple(s, percent) is Ok,
    ensures
        spec_percent_from_multiple(s, percent) matches Ok(t) && forall|k: Seq<char>| #[trigger] amount_of(t, k) <= amount_of(s, k),
{
    let left = spec_amount_with_percent(total(s) as u128, percent)->Ok_0;
    let q = sort_entries(s);
    lemma_sorted_ids_unique(s);
    lemma_sorted_lookup(s);
    lemma_take_greedy_within(q, left as nat);
    assert forall|k: Seq<char>| #[trigger] amount_of(take_greedy(q, left as nat), k) <= amount_of(s, k) by {
        assert(lookup(q, k) == lookup(s, k));
    }
}

/// The lookup of an id in entries with one more at the end.
pub proof fn lemma_lookup_push(p: Seq<EntryView>, e: EntryView, k: Seq<char>)
    ensures
        lookup(p.push(e), k) == match lookup(p, k) {
            Some(v) => Some(v),
            None => if e.0 == k { Some(e.1) } else { None },
        },
    decreases p.len(),
{
    if p.len() > 0 {
        lemma_lookup_push(p.drop_first(), e, k);
        assert(p.push(e).drop_first() =~= p.drop_first().push(e));
        assert(p.push(e)[0] == p[0]);
    } else {
        assert(p.push(e).drop_first() =~= Seq::<EntryView>::empty());
        assert(p.push(e)[0] == e);
        assert(lookup(Seq::<EntryView>::empty(), k) is None);
    }
}

/// The tail of entries with distinct ids has distinct ids.
pub proof fn lemma_unique_tail(s: Seq<EntryView>)
    requires
        ids_unique(s),
        s.len() > 0,
    ensures
        ids_unique(s.drop_first()),
        lookup(s.drop_first(), s[0].0) is None,
{
    let t = s.drop_first();
    assert forall|a: int, b: int| 0 <= a < b < t.len() implies (#[trigger] t[a]).0 != (#[trigger] t[b]).0 by {
        assert(t[a] == s[a + 1]);
        assert(t[b] == s[b + 1]);
    }
    assert forall|j: int| 0 <= j < t.len() implies (#[trigger] t[j]).0 != s[0].0 by {
        assert(t[j] == s[j + 1]);
    }
    lemma_lookup_none_from_all(t, s[0].0);
}

/// Removing an id takes its amount off the total.
pub proof fn lemma_total_remove(s: Seq<EntryView>, k: Seq<char>)
    requires
        ids_unique(s),
    ensures
        total(remove_id(s, k)) + amount_of(s, k) == total(s),
    decreases s.len(),
{
    if s.len() > 0 {
        let t = s.drop_first();
        lemma_unique_tail(s);
        if s[0].0 == k {
            lemma_remove_absent(t, k);
        } else {
            lemma_total_remove(t, k);
            let r = remove_id(s, k);
            assert(r == seq![s[0]] + remove_id(t, k));
            assert(r.drop_first() =~= remove_id(t, k));
            assert(r[0] == s[0]);
        }
    }
}

/// Entries with distinct ids whose every amount is zero total zero.
pub proof fn lemma_total_zero(s: Seq<EntryView>)
    requires
        ids_unique(s),
        forall|k: Seq<char>| #[trigger] amount_of(s, k) == 0,
    ensures
        total(s) == 0,
    decreases s.len(),
{
    if s.len() > 0 {
        let t = s.drop_first();
        lemma_unique_tail(s);
        lemma_lookup_present(s, 0);
        assert(amount_of(s, s[0].0) == 0);
        assert forall|k: Seq<char>| #[trigger] amount_of(t, k) == 0 by {
            if k != s[0].0 {
                assert(amount_of(s, k) == 0);
            }
        }
        lemma_total_zero(t);
    }
}

/// Where the amounts of `a` and `b` add up, id by id, to those of `c`, so do their totals.
pub proof fn lemma_total_pointwise(a: Seq<EntryView>, b: Seq<EntryView>, c: Seq<EntryView>)
    requires
        ids_unique(a),
        ids_unique(b),
        ids_unique(c),
        forall|k: Seq<char>| #[trigger] amount_of(c, k) == amount_of(a, k) + amount_of(b, k),
    ensures
        total(a) + total(b) == total(c),
    decreases c.len(),
{
    if c.len() == 0 {
        assert forall|k: Seq<char>| #[trigger] amount_of(a, k) == 0 by {
            assert(amount_of(c, k) == 0);
        }
        assert forall|k: Seq<char>| #[trigger] amount_of(b, k) == 0 by {
            assert(amount_of(c, k) == 0);
        }
        lemma_total_zero(a);
        lemma_total_zero(b);
    } else {
        let k0 = c[0].0;
        let c1 = c.drop_first();
        lemma_unique_tail(c);
        let a1 = remove_id(a, k0);
        let b1 = remove_id(b, k0);
        lemma_remove_id_lookup(a, k0);
        lemma_remove_id_lookup(b, k0);
        lemma_total_remove(a, k0);
        lemma_total_remove(b, k0);
        assert forall|k: Seq<char>| #[trigger] amount_of(c1, k) == amount_of(a1, k) + amount_of(b1, k) by {
            assert(lookup(a1, k) == if k == k0 { None } else { lookup(a, k) });
            assert(lookup(b1, k) == if k == k0 { None } else { lookup(b, k) });
            assert(amount_of(c, k) == amount_of(a, k) + amount_of(b, k));
        }
        lemma_total_pointwise(a1, b1, c1);
        assert(amount_of(c, k0) == c[0].1);
    }
}

/// The protocol's part of amounts per id totals the part of their total: taken id by id,
/// the fee of a percent of at most 100 is the total's part, rounded up.
pub proof fn lemma_percent_total(s: Seq<EntryView>, percent: u128)
    requires
        ids_unique(s),
        total(s) <= u128::MAX,
        percent <= 10000,
        spec_percent_from_multiple(s, percent) is Ok,
    ensures
        spec_percent_from_multiple(s, percent) matches Ok(t) && total(t) == crate::utils::ceil_percent_of(total(s), percent as nat),
{
    let left = spec_amount_with_percent(total(s) as u128, percent)->Ok_0;
    let q = sort_entries(s);
    lemma_sorted_ids_unique(s);
    lemma_sorted_lookup(s);
    assert forall|k: Seq<char>| #[trigger] amount_of(s, k) == amount_of(q, k) + amount_of(Seq::<EntryView>::empty(), k) by {
        assert(lookup(q, k) == lookup(s, k));
        assert(lookup(Seq::<EntryView>::empty(), k) is None);
    }
    assert(ids_unique(Seq::<EntryView>::empty()));
    assert(total(Seq::<EntryView>::empty()) == 0);
    lemma_total_pointwise(q, Seq::<EntryView>::empty(), s);
    lemma_take_greedy(q, left as nat);
    let n = total(s);
    assert(crate::utils::ceil_percent_of(n, percent as nat) <= n) by (nonlinear_arith)
        requires percent <= 10000, crate::utils::ceil_percent_of(n, percent as nat) == (n * percent + 9999) / 10000;
}

/// The entries greedily taken are whole entries of `s` but for the last, which may be a
/// part of its entry; and the walk stops before the end only once `left` is covered.
proof fn lemma_take_greedy_prefix(s: Seq<EntryView>, left: nat)
    ensures
        forall|i: int| 0 <= i < take_greedy(s, left).len() - 1 ==> #[trigger] take_greedy(s, left)[i] == s[i],
        take_greedy(s, left).len() < s.len() ==> total(take_greedy(s, left)) == left,
    decreases s.len(),
{
    lemma_take_greedy(s, left);
    if s.len() > 0 && left > 0 {
        let take: nat = if s[0].1 >= left { left } else { s[0].1 as nat };
        let rest = take_greedy(s.drop_first(), (left - take) as nat);
        lemma_take_greedy_prefix(s.drop_first(), (left - take) as nat);
        lemma_take_greedy(s.drop_first(), (left - take) as nat);
        let r = take_greedy(s, left);
        assert(r == seq![(s[0].0, take as u128)] + rest);
        if rest.len() > 0 {
            assert(take == s[0].1);
        }
        assert forall|i: int| 0 <= i < r.len() - 1 implies #[trigger] r[i] == s[i] by {
            if i > 0 {
                assert(r[i] == rest[i - 1]);
                assert(s.drop_first()[i - 1] == s[i]);
            } else {
                assert(take == s[0].1);
            }
        }
        lemma_total_concat(seq![(s[0].0, take as u128)], rest);
        assert(total(seq![(s[0].0, take as u128)]) == take) by {
            assert(seq![(s[0].0, take as u128)].drop_first() =~= Seq::<EntryView>::empty());
        }
    }
}

/// The protocol's part of amounts per id is a prefix of the amounts in ascending order of
/// amount (and of id among equal amounts): every id but the last of the prefix gives its
/// whole amount, the last gives at most its amount, and together they give the total's
/// part, rounded up.
pub proof fn lemma_percent_prefix(s: Seq<EntryView>, percent: u128)
    requires
        ids_unique(s),
        total(s) <= u128::MAX,
        percent <= 10000,
        spec_percent_from_multiple(s, percent) is Ok,
    ensures
        spec_percent_from_multiple(s, percent) matches Ok(t) && {
            let q = sort_entries(s);
            &&& crate::ids::entries_sorted(q)
            &&& q.to_multiset() == s.to_multiset()
            &&& t.len() <= q.len()
            &&& forall|i: int| 0 <= i < t.len() - 1 ==> #[trigger] t[i] == q[i]
            &&& t.len() > 0 ==> t[t.len() - 1].0 == q[t.len() - 1].0 && t[t.len() - 1].1 <= q[t.len() - 1].1
            &&& total(t) == crate::utils::ceil_percent_of(total(s), percent as nat)
        },
{
    let left = spec_amount_with_percent(total(s) as u128, percent)->Ok_0;
    let q = sort_entries(s);
    crate::ids::lemma_sort_entries_sorted_permutation(s);
    lemma_percent_total(s, percent);
    lemma_take_greedy(q, left as nat);
    lemma_take_greedy_prefix(q, left as nat);
}

} // verus!
