//! Sorting of a directory listing by file name: the ordering contract
//! that decides final page order.

use vstd::prelude::*;
use crate::plan::{entry_views, EntryView, PageEntry};

verus! {

broadcast use vstd::seq_lib::group_to_multiset_ensures;

/// Lexicographic byte order on names: `a` sorts at or before `b`.
pub open spec fn lex_le(a: Seq<u8>, b: Seq<u8>) -> bool
    decreases a.len(),
{
    if a.len() == 0 {
        true
    } else if b.len() == 0 {
        false
    } else if a[0] < b[0] {
        true
    } else if a[0] > b[0] {
        false
    } else {
        lex_le(a.drop_first(), b.drop_first())
    }
}

/// Any two names are ordered one way or the other.
pub proof fn lemma_lex_total(a: Seq<u8>, b: Seq<u8>)
    ensures
        lex_le(a, b) || lex_le(b, a),
    decreases a.len(),
{
    if a.len() > 0 && b.len() > 0 && a[0] == b[0] {
        lemma_lex_total(a.drop_first(), b.drop_first());
    }
}

/// Two names that sort at or before each other are the same name.
pub proof fn lemma_lex_antisymmetric(a: Seq<u8>, b: Seq<u8>)
    requires
        lex_le(a, b),
        lex_le(b, a),
    ensures
        a == b,
    decreases a.len(),
{
    if a.len() == 0 {
        assert(a =~= b);
    } else {
        lemma_lex_antisymmetric(a.drop_first(), b.drop_first());
        assert(a.len() == b.len());
        assert forall|i: int| 0 <= i < a.len() implies a[i] == b[i] by {
            if i > 0 {
                assert(a[i] == a.drop_first()[i - 1]);
                assert(b[i] == b.drop_first()[i - 1]);
            }
        }
        assert(a =~= b);
    }
}

/// The order is transitive.
pub proof fn lemma_lex_trans(a: Seq<u8>, b: Seq<u8>, c: Seq<u8>)
    requires
        lex_le(a, b),
        lex_le(b, c),
    ensures
        lex_le(a, c),
    decreases a.len(),
{
    if a.len() > 0 && b.len() > 0 && c.len() > 0 && a[0] == b[0] && b[0] == c[0] {
        lemma_lex_trans(a.drop_first(), b.drop_first(), c.drop_first());
    }
}

/// Two names that agree on their first `k` bytes compare as their tails do.
proof fn lemma_lex_skip(a: Seq<u8>, b: Seq<u8>, k: int)
    requires
        0 <= k <= a.len(),
        k <= b.len(),
        forall|m: int| 0 <= m < k ==> a[m] == b[m],
    ensures
        lex_le(a, b) == lex_le(a.skip(k), b.skip(k)),
    decreases k,
{
    if k > 0 {
        assert(a[0] == b[0]);
        assert(forall|m: int| 0 <= m < k - 1 ==> a.drop_first()[m] == b.drop_first()[m]);
        lemma_lex_skip(a.drop_first(), b.drop_first(), k - 1);
        assert(a.drop_first().skip(k - 1) =~= a.skip(k));
        assert(b.drop_first().skip(k - 1) =~= b.skip(k));
    } else {
        assert(a.skip(0) =~= a);
        assert(b.skip(0) =~= b);
    }
}

/// Compare two names in lexicographic byte order.
pub fn lex_le_bytes(a: &Vec<u8>, b: &Vec<u8>) -> (r: bool)
    ensures
        r == lex_le(a@, b@),
{
    let mut k: usize = 0;
    while k < a.len() && k < b.len()
        invariant
            k <= a@.len(),
            k <= b@.len(),
            forall|m: int| 0 <= m < k ==> a@[m] == b@[m],
        decreases a@.len() - k,
    {
        let x = a[k];
        let y = b[k];
        if x < y {
            proof {
                lemma_lex_skip(a@, b@, k as int);
                assert(a@.skip(k as int)[0] == a@[k as int]);
                assert(b@.skip(k as int)[0] == b@[k as int]);
            }
            return true;
        }
        if x > y {
            proof {
                lemma_lex_skip(a@, b@, k as int);
                assert(a@.skip(k as int)[0] == a@[k as int]);
                assert(b@.skip(k as int)[0] == b@[k as int]);
            }
            return false;
        }
        k = k + 1;
    }
    proof {
        lemma_lex_skip(a@, b@, k as int);
    }
    k == a.len()
}

/// A listing stands in sorted order when every earlier name sorts at or
/// before every later one.
pub open spec fn sorted_by_name(s: Seq<EntryView>) -> bool {
    forall|p: int, q: int|
        0 <= p < q < s.len() ==> lex_le(#[trigger] s[p].name, #[trigger] s[q].name)
}

/// Sort a directory listing by name, keeping exactly the same entries.
pub fn sort_entries(entries: &mut Vec<PageEntry>)
    ensures
        final(entries)@.len() == old(entries)@.len(),
        sorted_by_name(entry_views(final(entries)@)),
        entry_views(final(entries)@).to_multiset() == entry_views(old(entries)@).to_multiset(),
{
    let ghost ms0 = entry_views(old(entries)@).to_multiset();
    let ghost n0 = old(entries)@.len();
    let mut i: usize = 1;
    while i < entries.len()
        invariant
            1 <= i,
            entries@.len() == n0,
            i <= n0 || i == 1,
            entry_views(entries@).to_multiset() == ms0,
            forall|p: int, q: int|
                0 <= p < q < i ==> lex_le(
                    #[trigger] entry_views(entries@)[p].name,
                    #[trigger] entry_views(entries@)[q].name,
                ),
        decreases n0 - i,
    {
        let mut j: usize = i;
        let mut moving = true;
        while moving && j > 0
            invariant
                j <= i < n0,
                entries@.len() == n0,
                entry_views(entries@).to_multiset() == ms0,
                forall|p: int, q: int|
                    0 <= p < q <= i && p != j && q != j ==> lex_le(
                        #[trigger] entry_views(entries@)[p].name,
                        #[trigger] entry_views(entries@)[q].name,
                    ),
                forall|q: int|
                    j < q <= i ==> lex_le(
                        entry_views(entries@)[j as int].name,
                        #[trigger] entry_views(entries@)[q].name,
                    ),
                !moving ==> (j == 0 || lex_le(
                    entry_views(entries@)[j - 1].name,
                    entry_views(entries@)[j as int].name,
                )),
            decreases (if moving { 1int } else { 0int }), j,
        {
            if lex_le_bytes(&entries[j - 1].name, &entries[j].name) {
                moving = false;
            } else {
                let ghost before = entries@;
                let ghost vb = entry_views(before);
                proof {
                    lemma_lex_total(vb[j - 1].name, vb[j as int].name);
                    assert(lex_le(vb[j as int].name, vb[j - 1].name));
                }
                let e = entries.remove(j);
                entries.insert(j - 1, e);
                proof {
                    let va = entry_views(entries@);
                    assert(entry_views(before.remove(j as int)) =~= vb.remove(j as int));
                    assert(va =~= vb.remove(j as int).insert(j - 1, vb[j as int]));
                    assert(vb.contains(vb[j as int]));
                    assert(va.to_multiset() =~= vb.to_multiset());
                    // the listing is the old one with positions j - 1 and j swapped
                    assert(va =~= vb.update(j - 1, vb[j as int]).update(j as int, vb[j - 1]));
                    assert forall|p: int, q: int|
                        0 <= p < q <= i && p != j - 1 && q != j - 1 implies lex_le(
                        va[p].name,
                        va[q].name,
                    ) by {
                        if p == j {
                            assert(va[p] == vb[j - 1]);
                        } else if q == j {
                            assert(va[q] == vb[j - 1]);
                        }
                    }
                    assert forall|q: int| j - 1 < q <= i implies lex_le(
                        va[j - 1].name,
                        #[trigger] va[q].name,
                    ) by {
                        assert(va[j - 1] == vb[j as int]);
                        if q == j {
                            assert(va[q] == vb[j - 1]);
                        }
                    }
                }
                j = j - 1;
            }
        }
        proof {
            let v = entry_views(entries@);
            assert forall|p: int, q: int| 0 <= p < q <= i implies lex_le(
                v[p].name,
                v[q].name,
            ) by {
                if p == j && q != j {
                } else if q == j {
                    assert(j > 0);
                    assert(lex_le(v[j - 1].name, v[j as int].name));
                    if p < j - 1 {
                        lemma_lex_trans(v[p].name, v[j - 1].name, v[j as int].name);
                    }
                }
            }
        }
        i = i + 1;
    }
}

} // verus!
