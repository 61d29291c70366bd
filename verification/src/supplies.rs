//! The amounts of each token id of the 1155-style token that the pool holds, kept in
//! ascending order of id, and the choice of the token ids that leave the pool.
use vstd::prelude::*;
use crate::error::ContractError;
use crate::ids::{
    EntryView, id_lt, ids_unique, view_entries, sort_entries, sort_by_amount_then_id,
    lemma_id_lt_irreflexive, lemma_id_lt_transitive, lemma_id_lt_total
};
use crate::token_amount::{
    TokenMap, TokenAmount, AmountView, lookup, amount_of, map_insert, remove_id, total,
    lemma_lookup_present, lemma_lookup_some_index, lemma_remove_absent, lemma_remove_id_lookup,
    lemma_map_insert_lookup, lemma_sorted_ids_unique, lemma_lookup_push, lemma_total_pointwise, take_greedy
};

verus! {

/// Whether the ids are in strictly ascending order.
pub open spec fn ids_ascending(s: Seq<EntryView>) -> bool {
    forall|i: int, j: int| 0 <= i < j < s.len() ==> id_lt((#[trigger] s[i]).0, (#[trigger] s[j]).0)
}

/// `s` with the amount of `k` set to `v`, keeping the ids in ascending order.
pub open spec fn put_sorted(s: Seq<EntryView>, k: Seq<char>, v: u128) -> Seq<EntryView>
    decreases s.len(),
{
    if s.len() == 0 {
        seq![(k, v)]
    } else if s[0].0 == k {
        s.update(0, (k, v))
    } else if id_lt(k, s[0].0) {
        seq![(k, v)] + s
    } else {
        seq![s[0]] + put_sorted(s.drop_first(), k, v)
    }
}

/// The supply of `k` set to `v`: a zero supply is removed, any other is stored.
pub open spec fn supply_set(s: Seq<EntryView>, k: Seq<char>, v: u128) -> Seq<EntryView> {
    if v == 0 {
        remove_id(s, k)
    } else {
        put_sorted(s, k, v)
    }
}

/// Whether an id occurs.
pub open spec fn has_id(s: Seq<EntryView>, k: Seq<char>) -> bool {
    lookup(s, k) is Some
}

/// Storing keeps the ids ascending and changes the amount of that id alone.
pub proof fn lemma_put_sorted(s: Seq<EntryView>, k: Seq<char>, v: u128)
    requires
        ids_ascending(s),
    ensures
        ids_ascending(put_sorted(s, k, v)),
        forall|j: Seq<char>| #[trigger] lookup(put_sorted(s, k, v), j) == if j == k { Some(v) } else { lookup(s, j) },
        forall|i: int| 0 <= i < put_sorted(s, k, v).len() ==>
            (#[trigger] put_sorted(s, k, v)[i]).0 == k || has_id(s, put_sorted(s, k, v)[i].0),
    decreases s.len(),
{
    let r = put_sorted(s, k, v);
    if s.len() == 0 {
        assert forall|j: Seq<char>| #[trigger] lookup(r, j) == if j == k { Some(v) } else { lookup(s, j) } by {
            assert(r[0] == (k, v));
            assert(r.drop_first() =~= Seq::<EntryView>::empty());
            assert(lookup(r.drop_first(), j) is None);
        }
    } else if s[0].0 == k {
        assert forall|j: Seq<char>| #[trigger] lookup(r, j) == if j == k { Some(v) } else { lookup(s, j) } by {
            assert(r[0] == (k, v));
            assert(r.drop_first() =~= s.drop_first());
        }
        assert forall|i: int, j: int| 0 <= i < j < r.len() implies id_lt((#[trigger] r[i]).0, (#[trigger] r[j]).0) by {
            assert(r[i].0 == s[i].0);
            assert(r[j].0 == s[j].0);
        }
        assert(r.drop_first() =~= s.drop_first());
        assert forall|i: int| 0 <= i < r.len() implies (#[trigger] r[i]).0 == k || has_id(s, r[i].0) by {
            if i > 0 {
                lemma_ascending_unique(s);
                lemma_lookup_present(s, i);
            }
        }
    } else if id_lt(k, s[0].0) {
        assert forall|i: int, j: int| 0 <= i < j < r.len() implies id_lt((#[trigger] r[i]).0, (#[trigger] r[j]).0) by {
            if i == 0 {
                if j > 1 {
                    lemma_id_lt_transitive(k, s[0].0, s[j - 1].0);
                }
            } else {
                assert(r[i] == s[i - 1]);
                assert(r[j] == s[j - 1]);
            }
        }
        assert(r.drop_first() =~= s);
        assert forall|j: Seq<char>| #[trigger] lookup(r, j) == if j == k { Some(v) } else { lookup(s, j) } by {
            assert(r[0] == (k, v));
        }
        assert forall|i: int| 0 <= i < r.len() implies (#[trigger] r[i]).0 == k || has_id(s, r[i].0) by {
            if i > 0 {
                lemma_ascending_unique(s);
                lemma_lookup_present(s, i - 1);
                assert(r[i] == s[i - 1]);
            }
        }
    } else {
        let t = s.drop_first();
        lemma_ascending_tail(s);
        lemma_put_sorted(t, k, v);
        let q = put_sorted(t, k, v);
        lemma_id_lt_total(k, s[0].0);
        assert(id_lt(s[0].0, k));
        assert forall|i: int| 0 <= i < q.len() implies id_lt(s[0].0, (#[trigger] q[i]).0) by {
            if q[i].0 != k {
                let m = lemma_lookup_some_index(t, q[i].0);
                assert(t[m] == s[m + 1]);
            }
        }
        assert forall|i: int, j: int| 0 <= i < j < r.len() implies id_lt((#[trigger] r[i]).0, (#[trigger] r[j]).0) by {
            assert(r[j] == q[j - 1]);
            if i > 0 {
                assert(r[i] == q[i - 1]);
            }
        }
        assert(r.drop_first() =~= q);
        assert forall|j: Seq<char>| #[trigger] lookup(r, j) == if j == k { Some(v) } else { lookup(s, j) } by {
            assert(r[0] == s[0]);
            assert(lookup(q, j) == if j == k { Some(v) } else { lookup(t, j) });
        }
        assert forall|i: int| 0 <= i < r.len() implies (#[trigger] r[i]).0 == k || has_id(s, r[i].0) by {
            if i > 0 {
                assert(r[i] == q[i - 1]);
            }
        }
    }
}

/// Removing keeps the ids ascending and drops that id alone.
pub proof fn lemma_remove_id(s: Seq<EntryView>, k: Seq<char>)
    requires
        ids_ascending(s),
    ensures
        ids_ascending(remove_id(s, k)),
        forall|j: Seq<char>| #[trigger] lookup(remove_id(s, k), j) == if j == k { None } else { lookup(s, j) },
        forall|i: int| 0 <= i < remove_id(s, k).len() ==> has_id(s, (#[trigger] remove_id(s, k)[i]).0),
        remove_id(s, k).len() <= s.len(),
    decreases s.len(),
{
    if s.len() > 0 {
        let t = s.drop_first();
        lemma_ascending_tail(s);
        lemma_remove_id(t, k);
        let q = remove_id(t, k);
        let r = remove_id(s, k);
        if s[0].0 == k {
            assert forall|j: Seq<char>| #[trigger] lookup(r, j) == if j == k { None } else { lookup(s, j) } by {
                assert(lookup(q, j) == if j == k { None } else { lookup(t, j) });
            }
            assert forall|i: int| 0 <= i < r.len() implies has_id(s, (#[trigger] r[i]).0) by {
                assert(has_id(t, r[i].0));
                assert(s[0].0 != r[i].0 ==> lookup(s, r[i].0) == lookup(t, r[i].0));
            }
        } else {
            assert forall|i: int| 0 <= i < q.len() implies id_lt(s[0].0, (#[trigger] q[i]).0) by {
                let m = lemma_lookup_some_index(t, q[i].0);
                assert(t[m] == s[m + 1]);
            }
            assert forall|i: int, j: int| 0 <= i < j < r.len() implies id_lt((#[trigger] r[i]).0, (#[trigger] r[j]).0) by {
                assert(r[j] == q[j - 1]);
                if i > 0 {
                    assert(r[i] == q[i - 1]);
                }
            }
            assert(r.drop_first() =~= q);
            assert forall|j: Seq<char>| #[trigger] lookup(r, j) == if j == k { None } else { lookup(s, j) } by {
                assert(r[0] == s[0]);
                assert(lookup(q, j) == if j == k { None } else { lookup(t, j) });
            }
            assert forall|i: int| 0 <= i < r.len() implies has_id(s, (#[trigger] r[i]).0) by {
                if i > 0 {
                    assert(r[i] == q[i - 1]);
                    assert(has_id(t, r[i].0));
                }
            }
        }
    }
}

/// Setting a supply keeps the ids ascending and changes the supply of that id alone.
pub proof fn lemma_supply_set(s: Seq<EntryView>, k: Seq<char>, v: u128)
    requires
        ids_ascending(s),
    ensures
        ids_ascending(supply_set(s, k, v)),
        forall|j: Seq<char>| #[trigger] amount_of(supply_set(s, k, v), j) == if j == k { v } else { amount_of(s, j) },
{
    if v == 0 {
        lemma_remove_id(s, k);
        assert forall|j: Seq<char>| #[trigger] amount_of(supply_set(s, k, v), j) == if j == k { v } else { amount_of(s, j) } by {
            assert(lookup(remove_id(s, k), j) == if j == k { None } else { lookup(s, j) });
        }
    } else {
        lemma_put_sorted(s, k, v);
        assert forall|j: Seq<char>| #[trigger] amount_of(supply_set(s, k, v), j) == if j == k { v } else { amount_of(s, j) } by {
            assert(lookup(put_sorted(s, k, v), j) == if j == k { Some(v) } else { lookup(s, j) });
        }
    }
}

/// Ascending ids are distinct.
pub proof fn lemma_ascending_unique(s: Seq<EntryView>)
    requires
        ids_ascending(s),
    ensures
        ids_unique(s),
{
    assert forall|i: int, j: int| 0 <= i < j < s.len() implies (#[trigger] s[i]).0 != (#[trigger] s[j]).0 by {
        if s[i].0 == s[j].0 {
            lemma_id_lt_irreflexive(s[i].0);
        }
    }
}

pub proof fn lemma_ascending_tail(s: Seq<EntryView>)
    requires
        ids_ascending(s),
        s.len() > 0,
    ensures
        ids_ascending(s.drop_first()),
{
    let t = s.drop_first();
    assert forall|i: int, j: int| 0 <= i < j < t.len() implies id_lt((#[trigger] t[i]).0, (#[trigger] t[j]).0) by {
        assert(t[i] == s[i + 1]);
        assert(t[j] == s[j + 1]);
    }
}

/// The first id of an ascending sequence does not occur in its tail.
pub proof fn lemma_first_not_in_tail(s: Seq<EntryView>)
    requires
        ids_ascending(s),
        s.len() > 0,
    ensures
        lookup(s.drop_first(), s[0].0) is None,
{
    let t = s.drop_first();
    if lookup(t, s[0].0) is Some {
        let m = lemma_lookup_some_index(t, s[0].0);
        assert(t[m] == s[m + 1]);
        lemma_id_lt_irreflexive(s[0].0);
    }
}

/// On an ascending sequence, setting the supply of the first id edits the first entry.
pub proof fn lemma_supply_set_first(s: Seq<EntryView>, v: u128)
    requires
        ids_ascending(s),
        s.len() > 0,
    ensures
        v == 0 ==> supply_set(s, s[0].0, v) == s.drop_first(),
        v != 0 ==> supply_set(s, s[0].0, v) == s.update(0, (s[0].0, v)),
{
    if v == 0 {
        lemma_first_not_in_tail(s);
        lemma_remove_absent(s.drop_first(), s[0].0);
    }
}

/// Where `k` belongs at position `i`, storing replaces or inserts there.
proof fn lemma_put_sorted_at(s: Seq<EntryView>, k: Seq<char>, v: u128, i: int)
    requires
        0 <= i <= s.len(),
        forall|j: int| 0 <= j < i ==> id_lt((#[trigger] s[j]).0, k),
        i < s.len() ==> !id_lt(s[i].0, k),
    ensures
        put_sorted(s, k, v) == if i < s.len() && s[i].0 == k { s.update(i, (k, v)) } else { s.insert(i, (k, v)) },
    decreases i,
{
    if i == 0 {
        if s.len() > 0 && s[0].0 != k {
            lemma_id_lt_total(k, s[0].0);
        }
        assert(s.insert(0, (k, v)) =~= seq![(k, v)] + s);
    } else {
        let t = s.drop_first();
        assert(id_lt(s[0].0, k));
        if s[0].0 == k {
            lemma_id_lt_irreflexive(k);
        }
        if id_lt(k, s[0].0) {
            lemma_id_lt_transitive(k, s[0].0, k);
            lemma_id_lt_irreflexive(k);
        }
        assert forall|j: int| 0 <= j < i - 1 implies id_lt((#[trigger] t[j]).0, k) by {
            assert(t[j] == s[j + 1]);
        }
        if i - 1 < t.len() {
            assert(t[i - 1] == s[i]);
        }
        lemma_put_sorted_at(t, k, v, i - 1);
        if i < s.len() {
            assert(s.update(i, (k, v)) =~= seq![s[0]] + t.update(i - 1, (k, v)));
        }
        assert(s.insert(i, (k, v)) =~= seq![s[0]] + t.insert(i - 1, (k, v)));
    }
}

/// Where `k` occurs at position `i` of an ascending sequence, removing it removes that
/// position.
proof fn lemma_remove_id_at(s: Seq<EntryView>, k: Seq<char>, i: int)
    requires
        ids_ascending(s),
        0 <= i < s.len(),
        s[i].0 == k,
    ensures
        remove_id(s, k) == s.remove(i),
    decreases i,
{
    let t = s.drop_first();
    lemma_ascending_tail(s);
    if i == 0 {
        lemma_first_not_in_tail(s);
        lemma_remove_absent(t, k);
        assert(s.remove(0) =~= t);
    } else {
        assert(s[0].0 != k) by {
            if s[0].0 == k {
                lemma_id_lt_irreflexive(k);
            }
        }
        assert(t[i - 1] == s[i]);
        lemma_remove_id_at(t, k, i - 1);
        assert(s.remove(i) =~= seq![s[0]] + t.remove(i - 1));
    }
}

/// The supply of each token id held by the pool, in ascending order of id.
#[derive(Clone, Debug, PartialEq, Eq)]
pub struct TokenSupplies {
    pub entries: Vec<(String, u128)>,
}

impl View for TokenSupplies {
    type V = Seq<EntryView>;

    open spec fn view(&self) -> Seq<EntryView> {
        view_entries(self.entries@)
    }
}

impl TokenSupplies {
    /// The ids are in strictly ascending order.
    pub open spec fn wf(&self) -> bool {
        ids_ascending(self@)
    }

    /// No supply of any id.
    pub fn new() -> (r: TokenSupplies)
        ensures
            r@ == Seq::<EntryView>::empty(),
            r.wf(),
    {
        TokenSupplies { entries: Vec::new() }
    }

    /// A copy.
    pub fn copy(&self) -> (r: TokenSupplies)
        ensures
            r@ == self@,
    {
        let mut entries: Vec<(String, u128)> = Vec::new();
        let mut i: usize = 0;
        while i < self.entries.len()
            invariant
                i <= self@.len(),
                view_entries(entries@) == self@.take(i as int),
            decreases self@.len() - i,
        {
            let ghost before = entries@;
            let e = (self.entries[i].0.clone(), self.entries[i].1);
            proof {
                assert(self@[i as int] == (self.entries@[i as int].0@, self.entries@[i as int].1));
                assert(view_entries(before).len() == before.len());
            }
            entries.push(e);
            proof {
                assert(view_entries(entries@)[i as int] == self@[i as int]);
                assert(view_entries(entries@) =~= self@.take(i + 1));
            }
            i = i + 1;
        }
        proof {
            assert(self@.take(self@.len() as int) =~= self@);
        }
        TokenSupplies { entries }
    }

    /// The position where `id` occurs or belongs.
    fn position(&self, id: &String) -> (i: usize)
        requires
            self.wf(),
        ensures
            i <= self@.len(),
            forall|j: int| 0 <= j < i ==> id_lt((#[trigger] self@[j]).0, id@),
            i < self@.len() ==> !id_lt(self@[i as int].0, id@),
    {
        let mut i: usize = 0;
        while i < self.entries.len()
            invariant
                i <= self@.len(),
                forall|j: int| 0 <= j < i ==> id_lt((#[trigger] self@[j]).0, id@),
            ensures
                i <= self@.len(),
                forall|j: int| 0 <= j < i ==> id_lt((#[trigger] self@[j]).0, id@),
                i < self@.len() ==> !id_lt(self@[i as int].0, id@),
            decreases self@.len() - i,
        {
            proof {
                assert(self@[i as int] == (self.entries@[i as int].0@, self.entries@[i as int].1));
            }
            if !crate::ids::id_less(&self.entries[i].0, id) {
                break;
            }
            i = i + 1;
        }
        i
    }

    /// The supply of `id`, if stored.
    pub fn get(&self, id: &String) -> (r: Option<u128>)
        requires
            self.wf(),
        ensures
            r == lookup(self@, id@),
    {
        let i = self.position(id);
        if i < self.entries.len() {
            proof {
                assert(self@[i as int] == (self.entries@[i as int].0@, self.entries@[i as int].1));
            }
            if self.entries[i].0.eq(id) {
                proof {
                    lemma_ascending_unique(self@);
                    lemma_lookup_present(self@, i as int);
                }
                return Some(self.entries[i].1);
            }
        }
        proof {
            if lookup(self@, id@) is Some {
                let m = lemma_lookup_some_index(self@, id@);
                if m < i {
                    lemma_id_lt_irreflexive(id@);
                } else if m > i {
                    lemma_id_lt_total(self@[i as int].0, id@);
                    lemma_id_lt_transitive(id@, self@[i as int].0, id@);
                    lemma_id_lt_irreflexive(id@);
                }
            }
        }
        None
    }

    /// Stores `amount` as the supply of `id`.
    pub fn put(&mut self, id: String, amount: u128)
        requires
            old(self).wf(),
        ensures
            final(self).wf(),
            final(self)@ == put_sorted(old(self)@, id@, amount),
    {
        let i = self.position(&id);
        let ghost s = self@;
        let ghost idv = id@;
        proof {
            lemma_put_sorted_at(s, idv, amount, i as int);
            lemma_put_sorted(s, idv, amount);
        }
        if i < self.entries.len() {
            proof {
                assert(self@[i as int] == (self.entries@[i as int].0@, self.entries@[i as int].1));
            }
            if self.entries[i].0.eq(&id) {
                self.entries.set(i, (id, amount));
                proof {
                    assert(self@ =~= s.update(i as int, (idv, amount)));
                }
                return;
            }
        }
        self.entries.insert(i, (id, amount));
        proof {
            assert(self@ =~= s.insert(i as int, (idv, amount)));
        }
    }

    /// Removes the supply of `id`, if stored.
    pub fn remove(&mut self, id: &String)
        requires
            old(self).wf(),
        ensures
            final(self).wf(),
            final(self)@ == remove_id(old(self)@, id@),
    {
        let i = self.position(id);
        let ghost s = self@;
        proof {
            lemma_remove_id(s, id@);
        }
        if i < self.entries.len() {
            proof {
                assert(self@[i as int] == (self.entries@[i as int].0@, self.entries@[i as int].1));
            }
            if self.entries[i].0.eq(id) {
                proof {
                    lemma_remove_id_at(s, id@, i as int);
                }
                self.entries.remove(i);
                proof {
                    assert(self@ =~= s.remove(i as int));
                }
                return;
            }
        }
        proof {
            if lookup(s, id@) is Some {
                let m = lemma_lookup_some_index(s, id@);
                if m < i {
                    lemma_id_lt_irreflexive(id@);
                } else if m > i {
                    lemma_id_lt_total(s[i as int].0, id@);
                    lemma_id_lt_transitive(id@, s[i as int].0, id@);
                    lemma_id_lt_irreflexive(id@);
                }
            }
            lemma_remove_absent(s, id@);
        }
    }
}

/// The cached supply of `k` set to `v`: a zero supply is removed, any other is stored.
pub open spec fn cache_set(c: Seq<EntryView>, k: Seq<char>, v: u128) -> Seq<EntryView> {
    if v == 0 {
        remove_id(c, k)
    } else {
        map_insert(c, k, v)
    }
}

/// The first phase of a transfer with per-id minimums: each requested id gives its
/// minimum, and fails where its supply is short. Returns the supplies, the cache of the
/// requested ids' remaining supplies, the transfer and the amount still to transfer.
pub open spec fn phase_min(s: Seq<EntryView>, c: Seq<EntryView>, t: Seq<EntryView>, left: int, m: Seq<EntryView>)
    -> Result<(Seq<EntryView>, Seq<EntryView>, Seq<EntryView>, int), ContractError>
    decreases m.len(),
{
    if m.len() == 0 {
        Ok((s, c, t, left))
    } else {
        let id = m[0].0;
        let amt = m[0].1;
        let sup = amount_of(s, id);
        if sup < amt {
            Err(ContractError::MinToken1155Error { requested: amt, available: sup })
        } else {
            phase_min(
                supply_set(s, id, (sup - amt) as u128),
                cache_set(c, id, (sup - amt) as u128),
                map_insert(t, id, amt),
                left - amt,
                m.drop_first(),
            )
        }
    }
}

/// The second phase: the remaining supplies of the requested ids (`q`, in visiting
/// order) fill what is still missing.
pub open spec fn phase_fill(s: Seq<EntryView>, t: Seq<EntryView>, left: nat, q: Seq<EntryView>)
    -> (Seq<EntryView>, Seq<EntryView>, nat)
    decreases q.len(),
{
    if q.len() == 0 || left == 0 {
        (s, t, left)
    } else {
        let id = q[0].0;
        let sup = q[0].1;
        let take: nat = if sup >= left { left } else { sup as nat };
        phase_fill(
            supply_set(s, id, (sup - take) as u128),
            map_insert(t, id, (amount_of(t, id) + take) as u128),
            (left - take) as nat,
            q.drop_first(),
        )
    }
}

/// The last phase: any supplies, in ascending order of id, fill what is still missing.
pub open spec fn drain(s: Seq<EntryView>, t: Seq<EntryView>, left: nat) -> (Seq<EntryView>, Seq<EntryView>, nat)
    decreases s.len(),
{
    if left == 0 || s.len() == 0 {
        (s, t, left)
    } else {
        let id = s[0].0;
        let sup = s[0].1;
        if sup >= left {
            (supply_set(s, id, (sup - left) as u128), map_insert(t, id, (amount_of(t, id) + left) as u128), 0)
        } else {
            drain(s.drop_first(), map_insert(t, id, (amount_of(t, id) + sup) as u128), (left - sup) as nat)
        }
    }
}

/// The outcome once every phase ran: the supplies and the transfer, or the shortfall.
pub open spec fn finish(r: (Seq<EntryView>, Seq<EntryView>, nat), amount: u128) -> Result<(Seq<EntryView>, Seq<EntryView>), ContractError> {
    if r.2 > 0 {
        Err(ContractError::InsufficientTokenSupply { requested: amount, available: (amount - r.2) as u128 })
    } else {
        Ok((r.0, r.1))
    }
}

/// The token ids and amounts that leave the pool for `amount` tokens, with the supplies
/// that remain: a single minimum takes from the supplies in ascending order of id; per-id
/// minimums are taken first, then the rest of those ids' supplies (smallest first), then
/// any supplies in ascending order of id.
pub open spec fn spec_amounts_to_transfer(s: Seq<EntryView>, amount: u128, min: AmountView)
    -> Result<(Seq<EntryView>, Seq<EntryView>), ContractError>
{
    match min {
        AmountView::Single(_) => finish(drain(s, Seq::empty(), amount as nat), amount),
        AmountView::Multiple(m) => match phase_min(s, Seq::empty(), Seq::empty(), amount as int, m) {
            Err(e) => Err(e),
            Ok(p) => {
                let f = phase_fill(p.0, p.2, p.3 as nat, sort_entries(p.1));
                finish(drain(f.0, f.1, f.2), amount)
            },
        },
    }
}

/// For every id, transferred plus supply is the same before and after.
pub open spec fn conserved(t0: Seq<EntryView>, s0: Seq<EntryView>, t1: Seq<EntryView>, s1: Seq<EntryView>) -> bool {
    forall|j: Seq<char>| #![trigger amount_of(t1, j)] #![trigger amount_of(s1, j)]
        amount_of(t1, j) + amount_of(s1, j) == amount_of(t0, j) + amount_of(s0, j)
}

/// For every id, transferred plus supply fits in 128 bits.
pub open spec fn bounded(t: Seq<EntryView>, s: Seq<EntryView>) -> bool {
    forall|j: Seq<char>| #![trigger amount_of(t, j)] #![trigger amount_of(s, j)]
        amount_of(t, j) + amount_of(s, j) <= u128::MAX
}

/// Stores the remaining supply of an id: a zero supply is removed, any other is saved.
fn update_token_supplies(supplies: &mut TokenSupplies, remaining_supply: u128, token_id: String)
    requires
        old(supplies).wf(),
    ensures
        final(supplies).wf(),
        final(supplies)@ == supply_set(old(supplies)@, token_id@, remaining_supply),
{
    if remaining_supply == 0 {
        supplies.remove(&token_id);
    } else {
        supplies.put(token_id, remaining_supply);
    }
}

/// Takes from the supply `token_amount` of `token_id` what is still to transfer, or all of
/// it: adds that to the transfer, lowers what is left, and stores the remaining supply.
fn update_token_amounts(
    supplies: &mut TokenSupplies,
    token_amounts_to_transfer: &mut TokenMap,
    token_amount_left_to_transfer: &mut u128,
    token_id: String,
    token_amount: u128,
)
    requires
        old(supplies).wf(),
        old(token_amounts_to_transfer).wf(),
        amount_of(old(token_amounts_to_transfer)@, token_id@) + token_amount <= u128::MAX,
    ensures
        final(supplies).wf(),
        final(token_amounts_to_transfer).wf(),
        ({
            let take: nat = if token_amount >= *old(token_amount_left_to_transfer) {
                *old(token_amount_left_to_transfer) as nat
            } else {
                token_amount as nat
            };
            &&& final(token_amounts_to_transfer)@ == map_insert(old(token_amounts_to_transfer)@, token_id@,
                (amount_of(old(token_amounts_to_transfer)@, token_id@) + take) as u128)
            &&& *final(token_amount_left_to_transfer) == *old(token_amount_left_to_transfer) - take
            &&& final(supplies)@ == supply_set(old(supplies)@, token_id@, (token_amount - take) as u128)
        }),
{
    let mut amount_to_transfer = match token_amounts_to_transfer.get(&token_id) {
        Some(a) => a,
        None => 0,
    };
    let token_supply = *token_amount_left_to_transfer;
    let remaining_supply;
    if token_amount >= token_supply {
        amount_to_transfer = amount_to_transfer + token_supply;
        remaining_supply = token_amount - token_supply;
        *token_amount_left_to_transfer = 0;
    } else {
        amount_to_transfer = amount_to_transfer + token_amount;
        remaining_supply = 0;
        *token_amount_left_to_transfer = *token_amount_left_to_transfer - token_amount;
    }
    token_amounts_to_transfer.insert(token_id.clone(), amount_to_transfer);
    update_token_supplies(supplies, remaining_supply, token_id);
}

/// Fills what is still to transfer from the supplies, visiting them from the smallest id
/// on (the storage's ascending walk), as `drain` says (`lemma_drain_greedy`: a greedy
/// prefix); fails with the shortfall where the supplies run out.
fn process_token_supplies_in_chunks(
    supplies: &mut TokenSupplies,
    token1155_amounts_to_transfer: &mut TokenMap,
    token1155_amount_left_to_transfer: &mut u128,
    original_token1155_amount: u128,
) -> (r: Result<(), ContractError>)
    requires
        old(supplies).wf(),
        old(token1155_amounts_to_transfer).wf(),
        *old(token1155_amount_left_to_transfer) <= original_token1155_amount,
        bounded(old(token1155_amounts_to_transfer)@, old(supplies)@),
    ensures
        ({
            let d = drain(old(supplies)@, old(token1155_amounts_to_transfer)@, *old(token1155_amount_left_to_transfer) as nat);
            &&& d.2 == 0 ==> r is Ok && final(supplies)@ == d.0 && final(token1155_amounts_to_transfer)@ == d.1
                && *final(token1155_amount_left_to_transfer) == 0
            &&& d.2 > 0 ==> r == Err::<(), ContractError>(ContractError::InsufficientTokenSupply {
                requested: original_token1155_amount,
                available: (original_token1155_amount - d.2) as u128,
            })
        }),
        final(supplies).wf(),
        final(token1155_amounts_to_transfer).wf(),
        conserved(old(token1155_amounts_to_transfer)@, old(supplies)@, final(token1155_amounts_to_transfer)@, final(supplies)@),
        total(final(token1155_amounts_to_transfer)@) + *final(token1155_amount_left_to_transfer)
            == total(old(token1155_amounts_to_transfer)@) + *old(token1155_amount_left_to_transfer),
        forall|j: Seq<char>| #[trigger] amount_of(final(token1155_amounts_to_transfer)@, j) >= amount_of(old(token1155_amounts_to_transfer)@, j),
{
    let ghost d0 = drain(supplies@, token1155_amounts_to_transfer@, *token1155_amount_left_to_transfer as nat);
    let ghost t0 = token1155_amounts_to_transfer@;
    let ghost s0 = supplies@;
    let ghost l0 = *token1155_amount_left_to_transfer;
    while *token1155_amount_left_to_transfer > 0
        invariant
            supplies.wf(),
            token1155_amounts_to_transfer.wf(),
            *token1155_amount_left_to_transfer <= original_token1155_amount,
            drain(supplies@, token1155_amounts_to_transfer@, *token1155_amount_left_to_transfer as nat) == d0,
            bounded(token1155_amounts_to_transfer@, supplies@),
            conserved(t0, s0, token1155_amounts_to_transfer@, supplies@),
            total(token1155_amounts_to_transfer@) + *token1155_amount_left_to_transfer == total(t0) + l0,
            s0 == old(supplies)@,
            t0 == old(token1155_amounts_to_transfer)@,
            l0 == *old(token1155_amount_left_to_transfer),
            d0 == drain(s0, t0, l0 as nat),
            forall|j: Seq<char>| #[trigger] amount_of(token1155_amounts_to_transfer@, j) >= amount_of(t0, j),
        decreases supplies@.len(), *token1155_amount_left_to_transfer,
    {
        if supplies.entries.len() == 0 {
            proof {
                assert(supplies@.len() == 0);
                assert(drain(supplies@, token1155_amounts_to_transfer@, *token1155_amount_left_to_transfer as nat)
                    == (supplies@, token1155_amounts_to_transfer@, *token1155_amount_left_to_transfer as nat));
            }
            let available = original_token1155_amount - *token1155_amount_left_to_transfer;
            return Err(ContractError::InsufficientTokenSupply {
                requested: original_token1155_amount,
                available,
            });
        }
        let token_id = supplies.entries[0].0.clone();
        let token_amount = supplies.entries[0].1;
        let ghost s = supplies@;
        let ghost t = token1155_amounts_to_transfer@;
        let ghost l = *token1155_amount_left_to_transfer;
        proof {
            assert(s[0] == (token_id@, token_amount));
            assert(amount_of(s, token_id@) == token_amount) by {
                lemma_ascending_unique(s);
                lemma_lookup_present(s, 0);
            }
            assert(amount_of(t, token_id@) + amount_of(s, token_id@) <= u128::MAX);
        }
        update_token_amounts(supplies, token1155_amounts_to_transfer, token1155_amount_left_to_transfer, token_id, token_amount);
        proof {
            let take: nat = if token_amount >= l { l as nat } else { token_amount as nat };
            lemma_supply_set(s, s[0].0, (token_amount - take) as u128);
            lemma_map_insert_lookup(t, s[0].0, (amount_of(t, s[0].0) + take) as u128);
            lemma_supply_set_first(s, (token_amount - take) as u128);
            assert forall|j: Seq<char>| #![trigger amount_of(token1155_amounts_to_transfer@, j)] #![trigger amount_of(supplies@, j)]
                amount_of(token1155_amounts_to_transfer@, j) + amount_of(supplies@, j) == amount_of(t, j) + amount_of(s, j) by {
                if j == s[0].0 {
                } else {
                    assert(lookup(token1155_amounts_to_transfer@, j) == lookup(t, j));
                }
            }
            assert forall|j: Seq<char>| #[trigger] amount_of(token1155_amounts_to_transfer@, j) >= amount_of(t0, j) by {
                assert(amount_of(token1155_amounts_to_transfer@, j) >= amount_of(t, j));
            }
            if token_amount >= l {
                assert(drain(s, t, l as nat) == (supplies@, token1155_amounts_to_transfer@, 0nat));
            } else {
                assert(supplies@ == s.drop_first());
            }
        }
    }
    proof {
        assert(drain(supplies@, token1155_amounts_to_transfer@, 0) == (supplies@, token1155_amounts_to_transfer@, 0nat));
    }
    Ok(())
}

/// Chooses the token ids and amounts that leave the pool for `token1155_amount` tokens
/// and takes them from the supplies, as `spec_amounts_to_transfer` says. What leaves
/// totals `token1155_amount`, the supply of each id falls by exactly what leaves of it,
/// and with per-id minimums each requested id gives at least its minimum.
///
/// The per-id minimums must not total more than `token1155_amount`; callers check this
/// before.
pub fn get_token_amounts_to_transfer(
    storage: &mut TokenSupplies,
    token1155_amount: u128,
    min_token1155: TokenAmount,
) -> (r: Result<TokenMap, ContractError>)
    requires
        old(storage).wf(),
        min_token1155.wf(),
        min_token1155@ matches AmountView::Multiple(m) ==> total(m) <= token1155_amount,
    ensures
        final(storage).wf(),
        match spec_amounts_to_transfer(old(storage)@, token1155_amount, min_token1155@) {
            Ok(p) => r matches Ok(m) && m@ == p.1 && final(storage)@ == p.0,
            Err(e) => r == Err::<TokenMap, ContractError>(e),
        },
        r matches Ok(m) ==> {
            &&& m.wf()
            &&& total(m@) == token1155_amount
            &&& conserved(Seq::empty(), old(storage)@, m@, final(storage)@)
            &&& (min_token1155@ matches AmountView::Multiple(mins) ==>
                forall|k: Seq<char>| #[trigger] amount_of(m@, k) >= amount_of(mins, k))
        },
{
    let ghost s0 = storage@;
    let ghost minv = min_token1155@;
    let mut left: u128 = token1155_amount;
    let mut transfer = TokenMap::new();
    proof {
        assert forall|j: Seq<char>| #![trigger amount_of(transfer@, j)] #![trigger amount_of(storage@, j)]
            amount_of(transfer@, j) + amount_of(storage@, j) == amount_of(Seq::<EntryView>::empty(), j) + amount_of(s0, j) by {
            assert(lookup(Seq::<EntryView>::empty(), j) is None);
        }
        assert(total(transfer@) == 0);
    }
    match min_token1155 {
        TokenAmount::Multiple(amounts) => {
            let ghost m = amounts@;
            let ghost pm = phase_min(s0, Seq::empty(), Seq::empty(), token1155_amount as int, m);
            let mut cache = TokenMap::new();
            let mut i: usize = 0;
            proof {
                assert(m.skip(0) =~= m);
            }
            while i < amounts.entries.len()
                invariant
                    i <= m.len(),
                    m == amounts@,
                    ids_unique(m),
                    storage.wf(),
                    cache.wf(),
                    transfer.wf(),
                    phase_min(storage@, cache@, transfer@, left as int, m.skip(i as int)) == pm,
                    pm == phase_min(s0, Seq::empty(), Seq::empty(), token1155_amount as int, m),
                    s0 == old(storage)@,
                    minv == AmountView::Multiple(m),
                    minv == min_token1155@,
                    total(m.skip(i as int)) <= left,
                    total(transfer@) + left == token1155_amount,
                    conserved(Seq::empty(), s0, transfer@, storage@),
                    forall|k: Seq<char>| #[trigger] lookup(cache@, k) is Some ==>
                        lookup(cache@, k) == Some(amount_of(storage@, k)) && amount_of(storage@, k) > 0,
                    forall|k: Seq<char>| #[trigger] lookup(transfer@, k) is Some ==>
                        exists|j: int| 0 <= j < i && (#[trigger] m[j]).0 == k,
                    forall|j: int| 0 <= j < i ==> #[trigger] amount_of(transfer@, m[j].0) >= m[j].1,
                decreases m.len() - i,
            {
                let token_id = amounts.entries[i].0.clone();
                let token_amount = amounts.entries[i].1;
                let ghost sk = m.skip(i as int);
                proof {
                    assert(m[i as int] == (token_id@, token_amount));
                    assert(sk[0] == m[i as int]);
                    assert(sk.drop_first() =~= m.skip(i + 1));
                }
                let token_supply = match storage.get(&token_id) {
                    Some(x) => x,
                    None => 0,
                };
                if token_supply < token_amount {
                    proof {
                        assert(amount_of(storage@, token_id@) == token_supply);
                        assert(pm == Err::<(Seq<EntryView>, Seq<EntryView>, Seq<EntryView>, int), ContractError>(
                            ContractError::MinToken1155Error { requested: token_amount, available: token_supply }));
                        assert(spec_amounts_to_transfer(old(storage)@, token1155_amount, minv)
                            == Err::<(Seq<EntryView>, Seq<EntryView>), ContractError>(
                            ContractError::MinToken1155Error { requested: token_amount, available: token_supply }));
                    }
                    return Err(ContractError::MinToken1155Error { requested: token_amount, available: token_supply });
                }
                let ghost s = storage@;
                let ghost c = cache@;
                let ghost t = transfer@;
                proof {
                    assert(lookup(t, token_id@) is None) by {
                        if lookup(t, token_id@) is Some {
                            let j = choose|j: int| 0 <= j < i && (#[trigger] m[j]).0 == token_id@;
                            assert(m[j].0 != m[i as int].0);
                        }
                    }
                }
                left = left - token_amount;
                transfer.insert(token_id.clone(), token_amount);
                update_token_supplies(storage, token_supply - token_amount, token_id.clone());
                if token_supply - token_amount == 0 {
                    cache.remove(&token_id);
                } else {
                    cache.insert(token_id.clone(), token_supply - token_amount);
                }
                proof {
                    let rem = (token_supply - token_amount) as u128;
                    lemma_supply_set(s, token_id@, rem);
                    lemma_map_insert_lookup(t, token_id@, token_amount);
                    lemma_remove_id_lookup(c, token_id@);
                    lemma_map_insert_lookup(c, token_id@, rem);
                    assert(cache@ == cache_set(c, token_id@, rem));
                    assert(phase_min(s, c, t, (left + token_amount) as int, sk)
                        == phase_min(storage@, cache@, transfer@, left as int, m.skip(i + 1)));
                    assert(total(sk) == token_amount + total(m.skip(i + 1)));
                    assert forall|j: Seq<char>| #![trigger amount_of(transfer@, j)] #![trigger amount_of(storage@, j)]
                        amount_of(transfer@, j) + amount_of(storage@, j) == amount_of(Seq::<EntryView>::empty(), j) + amount_of(s0, j) by {
                        if j != token_id@ {
                            assert(lookup(transfer@, j) == lookup(t, j));
                            assert(amount_of(t, j) + amount_of(s, j) == amount_of(Seq::<EntryView>::empty(), j) + amount_of(s0, j));
                        } else {
                            assert(amount_of(t, j) + amount_of(s, j) == amount_of(Seq::<EntryView>::empty(), j) + amount_of(s0, j));
                        }
                    }
                    assert forall|k: Seq<char>| #[trigger] lookup(cache@, k) is Some implies
                        lookup(cache@, k) == Some(amount_of(storage@, k)) && amount_of(storage@, k) > 0 by {
                        if k != token_id@ {
                            assert(lookup(cache@, k) == lookup(c, k));
                        }
                    }
                    assert forall|k: Seq<char>| #[trigger] lookup(transfer@, k) is Some implies
                        exists|j: int| 0 <= j < i + 1 && (#[trigger] m[j]).0 == k by {
                        if k == token_id@ {
                            assert(m[i as int].0 == k);
                        } else {
                            assert(lookup(t, k) is Some);
                            let j = choose|j: int| 0 <= j < i && (#[trigger] m[j]).0 == k;
                            assert(0 <= j < i + 1 && m[j].0 == k);
                        }
                    }
                    assert forall|j: int| 0 <= j < i + 1 implies #[trigger] amount_of(transfer@, m[j].0) >= m[j].1 by {
                        if j < i {
                            assert(m[j].0 != m[i as int].0);
                            assert(lookup(transfer@, m[j].0) == lookup(t, m[j].0));
                        }
                    }
                }
                i = i + 1;
            }
            proof {
                assert(m.skip(i as int) =~= Seq::<EntryView>::empty());
                assert(pm == Ok::<(Seq<EntryView>, Seq<EntryView>, Seq<EntryView>, int), ContractError>((storage@, cache@, transfer@, left as int)));
            }
            let ghost s1 = storage@;
            let ghost t1 = transfer@;
            let ghost c1 = cache@;
            let ghost l1 = left;
            let ghost q = sort_entries(c1);
            let ghost pf = phase_fill(s1, t1, l1 as nat, q);
            proof {
                lemma_sorted_ids_unique(c1);
                crate::ids::lemma_sort_entries_sorted_permutation(c1);
                assert forall|j: int| 0 <= j < q.len() implies amount_of(s1, (#[trigger] q[j]).0) == q[j].1 by {
                    broadcast use vstd::seq_lib::group_to_multiset_ensures;
                    assert(q.to_multiset().count(q[j]) > 0);
                    assert(c1.contains(q[j]));
                    let k = choose|k: int| 0 <= k < c1.len() && c1[k] == q[j];
                    lemma_lookup_present(c1, k);
                }
            }
            if left > 0 {
                let sorted_supplies = sort_by_amount_then_id(cache.entries);
                let mut k: usize = 0;
                proof {
                    assert(view_entries(sorted_supplies@) == q);
                    assert(q.skip(0) =~= q);
                }
                while k < sorted_supplies.len() && left > 0
                    invariant
                        k <= q.len(),
                        q == view_entries(sorted_supplies@),
                        ids_unique(q),
                        storage.wf(),
                        transfer.wf(),
                        phase_fill(storage@, transfer@, left as nat, q.skip(k as int)) == pf,
                        forall|j: int| k <= j < q.len() ==> amount_of(storage@, (#[trigger] q[j]).0) == q[j].1,
                        total(transfer@) + left == token1155_amount,
                        conserved(Seq::empty(), s0, transfer@, storage@),
                        forall|j: int| 0 <= j < m.len() ==> #[trigger] amount_of(transfer@, m[j].0) >= m[j].1,
                    decreases q.len() - k,
                {
                    let token_id = sorted_supplies[k].0.clone();
                    let token_supply = sorted_supplies[k].1;
                    let ghost sk = q.skip(k as int);
                    let ghost s = storage@;
                    let ghost t = transfer@;
                    proof {
                        assert(q[k as int] == (token_id@, token_supply));
                        assert(sk[0] == q[k as int]);
                        assert(sk.drop_first() =~= q.skip(k + 1));
                        assert(amount_of(t, token_id@) + amount_of(s, token_id@) == amount_of(Seq::<EntryView>::empty(), token_id@) + amount_of(s0, token_id@));
                        assert(lookup(Seq::<EntryView>::empty(), token_id@) is None);
                    }
                    let take_amount = if token_supply >= left { left } else { token_supply };
                    left = left - take_amount;
                    let current = match transfer.get(&token_id) {
                        Some(a) => a,
                        None => 0,
                    };
                    transfer.insert(token_id.clone(), current + take_amount);
                    update_token_supplies(storage, token_supply - take_amount, token_id);
                    proof {
                        let id = q[k as int].0;
                        lemma_supply_set(s, id, (token_supply - take_amount) as u128);
                        lemma_map_insert_lookup(t, id, (current + take_amount) as u128);
                        assert forall|j: int| k + 1 <= j < q.len() implies amount_of(storage@, (#[trigger] q[j]).0) == q[j].1 by {
                            assert(q[j].0 != q[k as int].0);
                        }
                        assert forall|j: Seq<char>| #![trigger amount_of(transfer@, j)] #![trigger amount_of(storage@, j)]
                            amount_of(transfer@, j) + amount_of(storage@, j) == amount_of(Seq::<EntryView>::empty(), j) + amount_of(s0, j) by {
                            if j != id {
                                assert(lookup(transfer@, j) == lookup(t, j));
                                assert(amount_of(t, j) + amount_of(s, j) == amount_of(Seq::<EntryView>::empty(), j) + amount_of(s0, j));
                            }
                        }
                        assert forall|j: int| 0 <= j < m.len() implies #[trigger] amount_of(transfer@, m[j].0) >= m[j].1 by {
                            assert(amount_of(transfer@, m[j].0) >= amount_of(t, m[j].0));
                        }
                    }
                    k = k + 1;
                }
                proof {
                    if k == q.len() {
                        assert(q.skip(k as int) =~= Seq::<EntryView>::empty());
                    }
                    assert(pf == (storage@, transfer@, left as nat));
                }
            } else {
                proof {
                    assert(pf == (storage@, transfer@, left as nat));
                }
            }
            let ghost t2 = transfer@;
            proof {
                assert forall|j: Seq<char>| #![trigger amount_of(transfer@, j)] #![trigger amount_of(storage@, j)]
                    amount_of(transfer@, j) + amount_of(storage@, j) <= u128::MAX by {
                    assert(amount_of(transfer@, j) + amount_of(storage@, j) == amount_of(Seq::<EntryView>::empty(), j) + amount_of(s0, j));
                    assert(lookup(Seq::<EntryView>::empty(), j) is None);
                }
            }
            let res = process_token_supplies_in_chunks(storage, &mut transfer, &mut left, token1155_amount);
            match res {
                Err(e) => return Err(e),
                Ok(()) => {},
            }
            proof {
                assert forall|k: Seq<char>| #[trigger] amount_of(transfer@, k) >= amount_of(m, k) by {
                    if lookup(m, k) is Some {
                        let j = lemma_lookup_some_index(m, k);
                        assert(amount_of(t2, m[j].0) >= m[j].1);
                    }
                }
            }
        },
        TokenAmount::Single(_) => {
            proof {
                assert forall|j: Seq<char>| #![trigger amount_of(transfer@, j)] #![trigger amount_of(storage@, j)]
                    amount_of(transfer@, j) + amount_of(storage@, j) <= u128::MAX by {
                    assert(lookup(transfer@, j) is None);
                }
            }
            let res = process_token_supplies_in_chunks(storage, &mut transfer, &mut left, token1155_amount);
            match res {
                Err(e) => return Err(e),
                Ok(()) => {},
            }
        },
    }
    proof {
        assert forall|j: Seq<char>| #![trigger amount_of(transfer@, j)] #![trigger amount_of(storage@, j)]
            amount_of(transfer@, j) + amount_of(storage@, j) == amount_of(Seq::<EntryView>::empty(), j) + amount_of(s0, j) by {
        }
    }
    Ok(transfer)
}

/// `n` is `s` with the amounts of `m` added: each id of `m` holds its supply in `s` plus
/// its amount in `m`, every other id is as in `s`.
pub open spec fn supplies_added(n: Seq<EntryView>, s: Seq<EntryView>, m: Seq<EntryView>) -> bool {
    &&& ids_ascending(n)
    &&& forall|k: Seq<char>| #[trigger] lookup(n, k) == match lookup(m, k) {
        Some(a) => Some((amount_of(s, k) + a) as u128),
        None => lookup(s, k),
    }
}

/// Whether every id's supply plus its amount in `m` fits in 128 bits.
pub open spec fn supplies_addable(s: Seq<EntryView>, m: Seq<EntryView>) -> bool {
    forall|i: int| 0 <= i < m.len() ==> amount_of(s, (#[trigger] m[i]).0) + m[i].1 <= u128::MAX
}

/// Adding amounts to the supplies adds, id by id, to the amounts and to the total.
pub proof fn lemma_supplies_added_total(n: Seq<EntryView>, s: Seq<EntryView>, m: Seq<EntryView>)
    requires
        supplies_added(n, s, m),
        supplies_addable(s, m),
        ids_ascending(s),
        ids_unique(m),
    ensures
        forall|k: Seq<char>| #[trigger] amount_of(n, k) == amount_of(s, k) + amount_of(m, k),
        total(n) == total(s) + total(m),
{
    assert forall|k: Seq<char>| #[trigger] amount_of(n, k) == amount_of(s, k) + amount_of(m, k) by {
        assert(lookup(n, k) == match lookup(m, k) {
            Some(a) => Some((amount_of(s, k) + a) as u128),
            None => lookup(s, k),
        });
        if lookup(m, k) is Some {
            let i = lemma_lookup_some_index(m, k);
            assert(amount_of(s, m[i].0) + m[i].1 <= u128::MAX);
        }
    }
    lemma_ascending_unique(s);
    lemma_ascending_unique(n);
    lemma_total_pointwise(s, m, n);
}

/// Adds each id's amount of `amounts` to its supply, storing ids that had none.
pub fn add_token_supplies(supplies: &mut TokenSupplies, amounts: &TokenMap)
    requires
        old(supplies).wf(),
        amounts.wf(),
        supplies_addable(old(supplies)@, amounts@),
    ensures
        final(supplies).wf(),
        supplies_added(final(supplies)@, old(supplies)@, amounts@),
{
    let ghost s0 = supplies@;
    let ghost m = amounts@;
    let mut i: usize = 0;
    while i < amounts.entries.len()
        invariant
            i <= m.len(),
            m == amounts@,
            ids_unique(m),
            s0 == old(supplies)@,
            supplies_addable(s0, m),
            supplies.wf(),
            forall|k: Seq<char>| #[trigger] lookup(supplies@, k) == match lookup(m.take(i as int), k) {
                Some(a) => Some((amount_of(s0, k) + a) as u128),
                None => lookup(s0, k),
            },
        decreases m.len() - i,
    {
        let id = amounts.entries[i].0.clone();
        let amount = amounts.entries[i].1;
        proof {
            assert(m[i as int] == (id@, amount));
            if lookup(m.take(i as int), id@) is Some {
                let j = lemma_lookup_some_index(m.take(i as int), id@);
                assert(m.take(i as int)[j] == m[j]);
            }
            assert(lookup(supplies@, id@) == lookup(s0, id@));
            assert(amount_of(s0, m[i as int].0) + m[i as int].1 <= u128::MAX);
        }
        let current = match supplies.get(&id) {
            Some(x) => x,
            None => 0,
        };
        let ghost before = supplies@;
        let ghost idv = id@;
        proof {
            lemma_put_sorted(before, idv, (current + amount) as u128);
        }
        supplies.put(id, current + amount);
        proof {
            assert(m.take(i + 1) =~= m.take(i as int).push(m[i as int]));
            assert forall|k: Seq<char>| #[trigger] lookup(supplies@, k) == match lookup(m.take(i + 1), k) {
                Some(a) => Some((amount_of(s0, k) + a) as u128),
                None => lookup(s0, k),
            } by {
                lemma_lookup_push(m.take(i as int), m[i as int], k);
                assert(lookup(put_sorted(before, idv, (current + amount) as u128), k)
                    == if k == idv { Some((current + amount) as u128) } else { lookup(before, k) });
            }
        }
        i = i + 1;
    }
    proof {
        assert(m.take(m.len() as int) =~= m);
    }
}

/// Setting an id that does not occur appends it.
proof fn lemma_map_insert_absent(t: Seq<EntryView>, k: Seq<char>, v: u128)
    requires
        lookup(t, k) is None,
    ensures
        map_insert(t, k, v) == t.push((k, v)),
    decreases t.len(),
{
    if t.len() > 0 {
        lemma_map_insert_absent(t.drop_first(), k, v);
        assert(t.push((k, v)) =~= seq![t[0]] + t.drop_first().push((k, v)));
    } else {
        assert(t.push((k, v)) =~= seq![(k, v)]);
    }
}

/// The supplies left after taking the greedy entries `r` from `s`: all of `s` where nothing
/// was taken; otherwise the entries after the last one taken from, preceded by what remains
/// of that one where anything remains.
pub open spec fn greedy_rest(s: Seq<EntryView>, r: Seq<EntryView>) -> Seq<EntryView> {
    let k = r.len() as int;
    if k == 0 {
        s
    } else if s[k - 1].1 == r[k - 1].1 {
        s.skip(k)
    } else {
        s.skip(k - 1).update(0, (s[k - 1].0, (s[k - 1].1 - r[k - 1].1) as u128))
    }
}

/// The walk over the supplies in ascending order of id is greedy: it takes whole supplies
/// from the smallest id on, and of the last one it reaches only what is still missing. The
/// transfer grows by `take_greedy(s, left)`, the supplies become `greedy_rest` of it, and
/// what stays missing is `left` less what was taken.
pub proof fn lemma_drain_greedy(s: Seq<EntryView>, t: Seq<EntryView>, left: nat)
    requires
        ids_ascending(s),
        forall|i: int| 0 <= i < s.len() ==> lookup(t, (#[trigger] s[i]).0) is None,
    ensures
        drain(s, t, left).1 == t + take_greedy(s, left),
        drain(s, t, left).0 == greedy_rest(s, take_greedy(s, left)),
        drain(s, t, left).2 + total(take_greedy(s, left)) == left,
    decreases s.len(),
{
    let r = take_greedy(s, left);
    crate::token_amount::lemma_take_greedy(s, left);
    if left == 0 || s.len() == 0 {
        assert(t + r =~= t);
    } else {
        let id = s[0].0;
        let sup = s[0].1;
        assert(lookup(t, id) is None);
        let s1 = s.drop_first();
        lemma_ascending_tail(s);
        if sup >= left {
            lemma_map_insert_absent(t, id, left as u128);
            lemma_supply_set_first(s, (sup - left) as u128);
            assert(take_greedy(s1, 0) =~= Seq::<EntryView>::empty());
            assert(r =~= seq![(id, left as u128)]);
            assert(t + r =~= t.push((id, left as u128)));
            assert(s1 =~= s.skip(1));
            assert(s.skip(0) =~= s);
            crate::token_amount::lemma_total_concat(seq![(id, left as u128)], Seq::<EntryView>::empty());
            assert(seq![(id, left as u128)].drop_first() =~= Seq::<EntryView>::empty());
        } else {
            lemma_map_insert_absent(t, id, sup);
            let t1 = t.push((id, sup));
            let l1 = (left - sup) as nat;
            assert forall|i: int| 0 <= i < s1.len() implies lookup(t1, (#[trigger] s1[i]).0) is None by {
                assert(s1[i] == s[i + 1]);
                assert(lookup(t, s[i + 1].0) is None);
                crate::token_amount::lemma_lookup_push(t, (id, sup), s1[i].0);
                assert(id_lt(s[0].0, s[i + 1].0));
                if s1[i].0 == id {
                    lemma_id_lt_irreflexive(id);
                }
            }
            lemma_drain_greedy(s1, t1, l1);
            let r1 = take_greedy(s1, l1);
            crate::token_amount::lemma_take_greedy(s1, l1);
            assert(r == seq![(id, sup)] + r1);
            assert(t1 + r1 =~= t + r);
            crate::token_amount::lemma_total_concat(seq![(id, sup)], r1);
            assert(seq![(id, sup)].drop_first() =~= Seq::<EntryView>::empty());
            let k1 = r1.len() as int;
            if k1 == 0 {
                assert(s1.len() == 0);
                assert(r[0].1 == sup);
                assert(s.skip(1) =~= s1);
            } else {
                assert(r[k1] == r1[k1 - 1]);
                assert(s[k1] == s1[k1 - 1]);
                assert(s1.skip(k1) =~= s.skip(k1 + 1));
                assert(s1.skip(k1 - 1) =~= s.skip(k1));
            }
        }
    }
}

/// Whether every supply held is above zero.
pub open spec fn supplies_positive(s: Seq<EntryView>) -> bool {
    forall|i: int| 0 <= i < s.len() ==> (#[trigger] s[i]).1 > 0
}

proof fn lemma_put_sorted_positive(s: Seq<EntryView>, k: Seq<char>, v: u128)
    requires
        supplies_positive(s),
        v > 0,
    ensures
        supplies_positive(put_sorted(s, k, v)),
    decreases s.len(),
{
    let r = put_sorted(s, k, v);
    if s.len() == 0 {
    } else if s[0].0 == k {
    } else if id_lt(k, s[0].0) {
        assert forall|i: int| 0 <= i < r.len() implies (#[trigger] r[i]).1 > 0 by {
            if i > 0 {
                assert(r[i] == s[i - 1]);
            }
        }
    } else {
        let t = s.drop_first();
        lemma_put_sorted_positive(t, k, v);
        let q = put_sorted(t, k, v);
        assert forall|i: int| 0 <= i < r.len() implies (#[trigger] r[i]).1 > 0 by {
            if i > 0 {
                assert(r[i] == q[i - 1]);
            }
        }
    }
}

proof fn lemma_remove_id_positive(s: Seq<EntryView>, k: Seq<char>)
    requires
        supplies_positive(s),
    ensures
        supplies_positive(remove_id(s, k)),
    decreases s.len(),
{
    if s.len() > 0 {
        let t = s.drop_first();
        lemma_remove_id_positive(t, k);
        let q = remove_id(t, k);
        let r = remove_id(s, k);
        if s[0].0 != k {
            assert forall|i: int| 0 <= i < r.len() implies (#[trigger] r[i]).1 > 0 by {
                if i > 0 {
                    assert(r[i] == q[i - 1]);
                }
            }
        }
    }
}

/// Setting a supply never stores a zero: a supply set to zero is removed.
pub proof fn lemma_supply_set_positive(s: Seq<EntryView>, k: Seq<char>, v: u128)
    requires
        supplies_positive(s),
    ensures
        supplies_positive(supply_set(s, k, v)),
{
    if v == 0 {
        lemma_remove_id_positive(s, k);
    } else {
        lemma_put_sorted_positive(s, k, v);
    }
}

proof fn lemma_phase_min_positive(s: Seq<EntryView>, c: Seq<EntryView>, t: Seq<EntryView>, left: int, m: Seq<EntryView>)
    requires
        supplies_positive(s),
    ensures
        phase_min(s, c, t, left, m) matches Ok(p) ==> supplies_positive(p.0),
    decreases m.len(),
{
    if m.len() > 0 {
        let id = m[0].0;
        let amt = m[0].1;
        let sup = amount_of(s, id);
        if sup >= amt {
            lemma_supply_set_positive(s, id, (sup - amt) as u128);
            lemma_phase_min_positive(supply_set(s, id, (sup - amt) as u128), cache_set(c, id, (sup - amt) as u128),
                map_insert(t, id, amt), left - amt, m.drop_first());
        }
    }
}

proof fn lemma_phase_fill_positive(s: Seq<EntryView>, t: Seq<EntryView>, left: nat, q: Seq<EntryView>)
    requires
        supplies_positive(s),
    ensures
        supplies_positive(phase_fill(s, t, left, q).0),
    decreases q.len(),
{
    if q.len() > 0 && left > 0 {
        let id = q[0].0;
        let sup = q[0].1;
        let take: nat = if sup >= left { left } else { sup as nat };
        lemma_supply_set_positive(s, id, (sup - take) as u128);
        lemma_phase_fill_positive(supply_set(s, id, (sup - take) as u128),
            map_insert(t, id, (amount_of(t, id) + take) as u128), (left - take) as nat, q.drop_first());
    }
}

proof fn lemma_drain_positive(s: Seq<EntryView>, t: Seq<EntryView>, left: nat)
    requires
        supplies_positive(s),
    ensures
        supplies_positive(drain(s, t, left).0),
    decreases s.len(),
{
    if left > 0 && s.len() > 0 {
        let id = s[0].0;
        let sup = s[0].1;
        if sup >= left {
            lemma_supply_set_positive(s, id, (sup - left) as u128);
        } else {
            let t1 = s.drop_first();
            assert forall|i: int| 0 <= i < t1.len() implies (#[trigger] t1[i]).1 > 0 by {
                assert(t1[i] == s[i + 1]);
            }
            lemma_drain_positive(t1, map_insert(t, id, (amount_of(t, id) + sup) as u128), (left - sup) as nat);
        }
    }
}

/// The supplies never hold a zero: where every supply is above zero, so is every supply
/// left after tokens leave the pool (an id whose supply runs out is removed).
pub proof fn lemma_transfer_keeps_supplies_positive(s: Seq<EntryView>, amount: u128, min: AmountView)
    requires
        supplies_positive(s),
    ensures
        spec_amounts_to_transfer(s, amount, min) matches Ok(p) ==> supplies_positive(p.0),
{
    match min {
        AmountView::Single(_) => {
            lemma_drain_positive(s, Seq::empty(), amount as nat);
        },
        AmountView::Multiple(m) => {
            lemma_phase_min_positive(s, Seq::empty(), Seq::empty(), amount as int, m);
            if let Ok(p) = phase_min(s, Seq::empty(), Seq::empty(), amount as int, m) {
                lemma_phase_fill_positive(p.0, p.2, p.3 as nat, sort_entries(p.1));
                let f = phase_fill(p.0, p.2, p.3 as nat, sort_entries(p.1));
                lemma_drain_positive(f.0, f.1, f.2);
            }
        },
    }
}

} // verus!
