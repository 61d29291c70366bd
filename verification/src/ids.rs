//! The order of token ids, and sorting of token entries.
//!
//! Token ids are ordered as strings are: by their UTF-8 bytes, lexicographically.
//! Entries (an id with an amount) are ordered by amount first and by id among equal
//! amounts.
use vstd::prelude::*;
use vstd::utf8::{encode_utf8, encode_utf8_decode_utf8};

verus! {

/// Lexicographic order on byte sequences; a proper prefix comes first.
pub open spec fn bytes_lt(x: Seq<u8>, y: Seq<u8>) -> bool
    decreases x.len(),
{
    if x.len() == 0 {
        y.len() > 0
    } else if y.len() == 0 {
        false
    } else if x[0] != y[0] {
        x[0] < y[0]
    } else {
        bytes_lt(x.drop_first(), y.drop_first())
    }
}

/// The order of token ids: that of their UTF-8 encodings.
pub open spec fn id_lt(a: Seq<char>, b: Seq<char>) -> bool {
    bytes_lt(encode_utf8(a), encode_utf8(b))
}

/// An amount of one token id.
pub type EntryView = (Seq<char>, u128);

/// The order in which entries are visited: by amount, then by id.
pub open spec fn entry_lt(a: EntryView, b: EntryView) -> bool {
    a.1 < b.1 || (a.1 == b.1 && id_lt(a.0, b.0))
}

pub proof fn lemma_bytes_lt_irreflexive(x: Seq<u8>)
    ensures
        !bytes_lt(x, x),
    decreases x.len(),
{
    if x.len() > 0 {
        lemma_bytes_lt_irreflexive(x.drop_first());
    }
}

pub proof fn lemma_bytes_lt_transitive(x: Seq<u8>, y: Seq<u8>, z: Seq<u8>)
    requires
        bytes_lt(x, y),
        bytes_lt(y, z),
    ensures
        bytes_lt(x, z),
    decreases x.len(),
{
    if x.len() > 0 && y.len() > 0 && z.len() > 0 && x[0] == y[0] && y[0] == z[0] {
        lemma_bytes_lt_transitive(x.drop_first(), y.drop_first(), z.drop_first());
    }
}

/// Two different byte sequences are ordered one way or the other.
pub proof fn lemma_bytes_lt_total(x: Seq<u8>, y: Seq<u8>)
    requires
        x != y,
    ensures
        bytes_lt(x, y) || bytes_lt(y, x),
    decreases x.len(),
{
    if x.len() == 0 {
        if y.len() == 0 {
            assert(x =~= y);
        }
    } else if y.len() > 0 && x[0] == y[0] {
        if x.drop_first() == y.drop_first() {
            assert(x =~= y.drop_first().insert(0, y[0]));
            assert(y =~= y.drop_first().insert(0, y[0]));
        }
        lemma_bytes_lt_total(x.drop_first(), y.drop_first());
    }
}

pub proof fn lemma_id_lt_irreflexive(a: Seq<char>)
    ensures
        !id_lt(a, a),
{
    lemma_bytes_lt_irreflexive(encode_utf8(a));
}

pub proof fn lemma_id_lt_transitive(a: Seq<char>, b: Seq<char>, c: Seq<char>)
    requires
        id_lt(a, b),
        id_lt(b, c),
    ensures
        id_lt(a, c),
{
    lemma_bytes_lt_transitive(encode_utf8(a), encode_utf8(b), encode_utf8(c));
}

/// Two different ids are ordered one way or the other.
pub proof fn lemma_id_lt_total(a: Seq<char>, b: Seq<char>)
    requires
        a != b,
    ensures
        id_lt(a, b) || id_lt(b, a),
{
    if encode_utf8(a) == encode_utf8(b) {
        encode_utf8_decode_utf8(a);
        encode_utf8_decode_utf8(b);
    }
    lemma_bytes_lt_total(encode_utf8(a), encode_utf8(b));
}

/// Whether id `a` comes before id `b`.
pub fn id_less(a: &String, b: &String) -> (r: bool)
    ensures
        r == id_lt(a@, b@),
{
    let x = a.as_str().as_bytes();
    let y = b.as_str().as_bytes();
    let mut i: usize = 0;
    proof {
        assert(x@.skip(0) =~= x@);
        assert(y@.skip(0) =~= y@);
    }
    while i < x.len() && i < y.len()
        invariant
            x@ == encode_utf8(a@),
            y@ == encode_utf8(b@),
            i <= x@.len(),
            i <= y@.len(),
            bytes_lt(x@, y@) == bytes_lt(x@.skip(i as int), y@.skip(i as int)),
        decreases x@.len() - i,
    {
        let bx = x[i];
        let by = y[i];
        proof {
            assert(x@.skip(i as int)[0] == bx);
            assert(y@.skip(i as int)[0] == by);
            assert(x@.skip(i as int).drop_first() =~= x@.skip(i + 1));
            assert(y@.skip(i as int).drop_first() =~= y@.skip(i + 1));
        }
        if bx != by {
            return bx < by;
        }
        i = i + 1;
    }
    i == x.len() && i < y.len()
}

/// Whether entry `a` comes before entry `b`: a smaller amount, or the same amount and a
/// smaller id.
pub fn entry_less(a: &(String, u128), b: &(String, u128)) -> (r: bool)
    ensures
        r == entry_lt((a.0@, a.1), (b.0@, b.1)),
{
    if a.1 == b.1 {
        id_less(&a.0, &b.0)
    } else {
        a.1 < b.1
    }
}

/// `e` inserted into `s` before the first entry that comes after it.
pub open spec fn insert_sorted(e: EntryView, s: Seq<EntryView>) -> Seq<EntryView>
    decreases s.len(),
{
    if s.len() == 0 || entry_lt(e, s[0]) {
        seq![e] + s
    } else {
        seq![s[0]] + insert_sorted(e, s.drop_first())
    }
}

/// The entries of `s` in the order of `entry_lt`, by insertion one after the other.
pub open spec fn sort_entries(s: Seq<EntryView>) -> Seq<EntryView>
    decreases s.len(),
{
    if s.len() == 0 {
        Seq::empty()
    } else {
        insert_sorted(s.last(), sort_entries(s.drop_last()))
    }
}

/// Whether the entries are in strictly ascending order.
pub open spec fn entries_sorted(s: Seq<EntryView>) -> bool {
    forall|i: int, j: int| 0 <= i < j < s.len() ==> entry_lt(#[trigger] s[i], #[trigger] s[j])
}

/// Whether no id occurs twice.
pub open spec fn ids_unique(s: Seq<EntryView>) -> bool {
    forall|i: int, j: int| 0 <= i < j < s.len() ==> (#[trigger] s[i]).0 != (#[trigger] s[j]).0
}

pub open spec fn view_entries(v: Seq<(String, u128)>) -> Seq<EntryView> {
    v.map_values(|e: (String, u128)| (e.0@, e.1))
}

/// Inserting before the first entry that comes after `e` is `insert_sorted`.
proof fn lemma_insert_at_first_greater(e: EntryView, s: Seq<EntryView>, j: int)
    requires
        0 <= j <= s.len(),
        forall|i: int| 0 <= i < j ==> !entry_lt(e, #[trigger] s[i]),
        j < s.len() ==> entry_lt(e, s[j]),
    ensures
        insert_sorted(e, s) == s.insert(j, e),
    decreases j,
{
    if j == 0 {
        assert(s.insert(0, e) =~= seq![e] + s);
    } else {
        assert(!entry_lt(e, s[0]));
        let t = s.drop_first();
        assert forall|i: int| 0 <= i < j - 1 implies !entry_lt(e, #[trigger] t[i]) by {
            assert(t[i] == s[i + 1]);
        }
        if j - 1 < t.len() {
            assert(t[j - 1] == s[j]);
        }
        lemma_insert_at_first_greater(e, t, j - 1);
        assert(s.insert(j, e) =~= seq![s[0]] + t.insert(j - 1, e));
    }
}

/// The entries sorted by amount, then by id.
pub fn sort_by_amount_then_id(v: Vec<(String, u128)>) -> (r: Vec<(String, u128)>)
    ensures
        view_entries(r@) == sort_entries(view_entries(v@)),
{
    let mut r: Vec<(String, u128)> = Vec::new();
    let mut k: usize = 0;
    let n = v.len();
    proof {
        assert(view_entries(v@).take(0) =~= Seq::<EntryView>::empty());
        assert(view_entries(r@) =~= Seq::<EntryView>::empty());
    }
    while k < n
        invariant
            n == v@.len(),
            k <= n,
            view_entries(r@) == sort_entries(view_entries(v@).take(k as int)),
        decreases n - k,
    {
        let e = (v[k].0.clone(), v[k].1);
        let mut j: usize = 0;
        while j < r.len()
            invariant
                j <= r@.len(),
                k < n,
                n == v@.len(),
                (e.0@, e.1) == view_entries(v@)[k as int],
                forall|i: int| 0 <= i < j ==> !entry_lt((e.0@, e.1), #[trigger] view_entries(r@)[i]),
            ensures
                j <= r@.len(),
                forall|i: int| 0 <= i < j ==> !entry_lt((e.0@, e.1), #[trigger] view_entries(r@)[i]),
                j < r@.len() ==> entry_lt((e.0@, e.1), view_entries(r@)[j as int]),
            decreases r@.len() - j,
        {
            if entry_less(&e, &r[j]) {
                break;
            }
            j = j + 1;
        }
        let ghost rv_before = view_entries(r@);
        proof {
            let ev = (e.0@, e.1);
            let rv = view_entries(r@);
            if j < r@.len() {
                assert(entry_lt(ev, rv[j as int]));
            }
            lemma_insert_at_first_greater(ev, rv, j as int);
            let vk = view_entries(v@).take(k + 1);
            assert(vk.drop_last() =~= view_entries(v@).take(k as int));
            assert(vk.last() == ev);
        }
        let ghost ev = (e.0@, e.1);
        r.insert(j, e);
        proof {
            assert(view_entries(r@) =~= rv_before.insert(j as int, ev));
        }
        k = k + 1;
    }
    proof {
        assert(view_entries(v@).take(n as int) =~= view_entries(v@));
    }
    r
}

pub proof fn lemma_entry_lt_transitive(a: EntryView, b: EntryView, c: EntryView)
    requires
        entry_lt(a, b),
        entry_lt(b, c),
    ensures
        entry_lt(a, c),
{
    if a.1 == b.1 && b.1 == c.1 {
        lemma_id_lt_transitive(a.0, b.0, c.0);
    }
}

/// Entries of different ids are ordered one way or the other.
pub proof fn lemma_entry_lt_total(a: EntryView, b: EntryView)
    requires
        a.0 != b.0,
    ensures
        entry_lt(a, b) || entry_lt(b, a),
{
    lemma_id_lt_total(a.0, b.0);
}

/// Whatever comes before `e` and every entry of `s` comes before every entry of the
/// insertion.
proof fn lemma_insert_sorted_bound(x: EntryView, e: EntryView, s: Seq<EntryView>)
    requires
        entry_lt(x, e),
        forall|i: int| 0 <= i < s.len() ==> entry_lt(x, #[trigger] s[i]),
    ensures
        insert_sorted(e, s).len() == s.len() + 1,
        forall|i: int| 0 <= i < insert_sorted(e, s).len() ==> entry_lt(x, #[trigger] insert_sorted(e, s)[i]),
    decreases s.len(),
{
    if s.len() == 0 || entry_lt(e, s[0]) {
    } else {
        let t = s.drop_first();
        assert forall|i: int| 0 <= i < t.len() implies entry_lt(x, #[trigger] t[i]) by {
            assert(t[i] == s[i + 1]);
        }
        lemma_insert_sorted_bound(x, e, t);
        let r = insert_sorted(e, s);
        assert forall|i: int| 0 <= i < r.len() implies entry_lt(x, #[trigger] r[i]) by {
            if i > 0 {
                assert(r[i] == insert_sorted(e, t)[i - 1]);
            }
        }
    }
}

/// Inserting an entry whose id is new into a sorted sequence keeps it sorted.
pub proof fn lemma_insert_sorted_sorted(e: EntryView, s: Seq<EntryView>)
    requires
        entries_sorted(s),
        forall|i: int| 0 <= i < s.len() ==> (#[trigger] s[i]).0 != e.0,
    ensures
        entries_sorted(insert_sorted(e, s)),
        insert_sorted(e, s).len() == s.len() + 1,
    decreases s.len(),
{
    let r = insert_sorted(e, s);
    if s.len() == 0 {
    } else if entry_lt(e, s[0]) {
        assert forall|i: int, j: int| 0 <= i < j < r.len() implies entry_lt(#[trigger] r[i], #[trigger] r[j]) by {
            if i == 0 {
                assert(r[j] == s[j - 1]);
                if j - 1 > 0 {
                    lemma_entry_lt_transitive(e, s[0], s[j - 1]);
                }
            } else {
                assert(r[i] == s[i - 1]);
                assert(r[j] == s[j - 1]);
            }
        }
    } else {
        let t = s.drop_first();
        assert(s[0].0 != e.0);
        lemma_entry_lt_total(s[0], e);
        assert(entry_lt(s[0], e));
        assert forall|i: int, j: int| 0 <= i < j < t.len() implies entry_lt(#[trigger] t[i], #[trigger] t[j]) by {
            assert(t[i] == s[i + 1]);
            assert(t[j] == s[j + 1]);
        }
        assert forall|i: int| 0 <= i < t.len() implies (#[trigger] t[i]).0 != e.0 by {
            assert(t[i] == s[i + 1]);
        }
        lemma_insert_sorted_sorted(e, t);
        assert forall|i: int| 0 <= i < t.len() implies entry_lt(s[0], #[trigger] t[i]) by {
            assert(t[i] == s[i + 1]);
        }
        lemma_insert_sorted_bound(s[0], e, t);
        let q = insert_sorted(e, t);
        assert forall|i: int, j: int| 0 <= i < j < r.len() implies entry_lt(#[trigger] r[i], #[trigger] r[j]) by {
            assert(r[j] == q[j - 1]);
            if i > 0 {
                assert(r[i] == q[i - 1]);
            }
        }
    }
}

/// Inserting adds exactly the inserted entry.
pub proof fn lemma_insert_sorted_multiset(e: EntryView, s: Seq<EntryView>)
    ensures
        insert_sorted(e, s).to_multiset() == s.to_multiset().insert(e),
    decreases s.len(),
{
    broadcast use vstd::seq_lib::group_to_multiset_ensures;
    if s.len() == 0 || entry_lt(e, s[0]) {
        assert(seq![e] + s =~= s.insert(0, e));
    } else {
        let t = s.drop_first();
        lemma_insert_sorted_multiset(e, t);
        assert(s =~= t.insert(0, s[0]));
        assert(seq![s[0]] + insert_sorted(e, t) =~= insert_sorted(e, t).insert(0, s[0]));
        assert(s.to_multiset() == t.to_multiset().insert(s[0]));
    }
}

/// Sorting entries with distinct ids gives them in ascending order, as a permutation of
/// the input: entries are visited by ascending amount, and by ascending id among equal
/// amounts.
pub proof fn lemma_sort_entries_sorted_permutation(s: Seq<EntryView>)
    requires
        ids_unique(s),
    ensures
        entries_sorted(sort_entries(s)),
        sort_entries(s).to_multiset() == s.to_multiset(),
        sort_entries(s).len() == s.len(),
    decreases s.len(),
{
    broadcast use vstd::seq_lib::group_to_multiset_ensures;
    if s.len() == 0 {
        assert(sort_entries(s) =~= s);
    } else {
        let p = s.drop_last();
        assert forall|i: int, j: int| 0 <= i < j < p.len() implies (#[trigger] p[i]).0 != (#[trigger] p[j]).0 by {
            assert(p[i] == s[i]);
            assert(p[j] == s[j]);
        }
        lemma_sort_entries_sorted_permutation(p);
        let q = sort_entries(p);
        assert forall|i: int| 0 <= i < q.len() implies (#[trigger] q[i]).0 != s.last().0 by {
            assert(q.to_multiset().count(q[i]) > 0);
            assert(p.to_multiset().count(q[i]) > 0);
            assert(p.contains(q[i]));
            let k = choose|k: int| 0 <= k < p.len() && p[k] == q[i];
            assert(s[k] == q[i]);
            assert(s[s.len() - 1] == s.last());
        }
        lemma_insert_sorted_sorted(s.last(), q);
        lemma_insert_sorted_multiset(s.last(), q);
        assert(s =~= p.push(s.last()));
        assert(s.to_multiset() == p.to_multiset().insert(s.last()));
    }
}

} // verus!
