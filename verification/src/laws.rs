//! The properties that hold of the two passes, stated and proved over
//! their plans.

use vstd::prelude::*;
use crate::canonical::{
    bak_suffix, dp_base_spec, ends_with, lemma_base_not_staged, lemma_strip_staged, sp_base_spec,
    staged_spec, strip_bak_spec,
};
use crate::classify::{classify_spec, PageKind};
use crate::ext::{ext_of, is_recognized_ext};
use crate::image::image_dims;
use crate::sort::{lemma_lex_antisymmetric, lex_le, sorted_by_name};
use crate::plan::{
    counter_after, entry_action, entry_advance, is_portrait, opt_seq, plan_prefix, plan_spec,
    renamed, ActionView, EntryView,
};

verus! {

/// Whether an action never puts a bare canonical name on disk: a rename
/// writes only a name that still carries the protective suffix.
pub open spec fn action_is_staged(a: ActionView) -> bool {
    a matches ActionView::Rename { from, to } ==> ends_with(to, bak_suffix())
}

proof fn lemma_staged_prefix(s: Seq<EntryView>, i0: nat, n: int)
    requires
        0 <= n <= s.len(),
    ensures
        forall|m: int|
            0 <= m < plan_prefix(s, i0, n).len() ==> action_is_staged(
                #[trigger] plan_prefix(s, i0, n)[m],
            ),
    decreases n,
{
    if n > 0 {
        lemma_staged_prefix(s, i0, n - 1);
        let p = plan_prefix(s, i0, n - 1);
        let a = entry_action(s[n - 1], counter_after(s, i0, n - 1));
        match a {
            Some(ActionView::Rename { from, to }) => {
                assert(ends_with(to, bak_suffix())) by {
                    assert(to.subrange(to.len() - 4, to.len() as int) =~= bak_suffix());
                }
            },
            _ => {},
        }
        assert forall|m: int| 0 <= m < plan_prefix(s, i0, n).len() implies action_is_staged(
            #[trigger] plan_prefix(s, i0, n)[m],
        ) by {
            if m < p.len() {
                assert(plan_prefix(s, i0, n)[m] == p[m]);
            } else {
                assert(plan_prefix(s, i0, n)[m] == opt_seq(a)[m - p.len()]);
            }
        }
    }
}

/// Round-trip safety: every name that the rename pass writes carries the
/// protective suffix, so at no intermediate point does a file bear a bare
/// canonical name that a later rename could collide with.
pub proof fn lemma_rename_pass_staged_only(s: Seq<EntryView>, i0: nat)
    ensures
        forall|m: int|
            0 <= m < plan_spec(s, i0).len() ==> action_is_staged(#[trigger] plan_spec(s, i0)[m]),
{
    lemma_staged_prefix(s, i0, s.len() as int);
}

/// The counter never decreases as the pass walks the listing.
pub proof fn lemma_counter_monotone(s: Seq<EntryView>, i0: nat, a: int, b: int)
    requires
        0 <= a <= b <= s.len(),
    ensures
        counter_after(s, i0, a) <= counter_after(s, i0, b),
    decreases b - a,
{
    if a < b {
        lemma_counter_monotone(s, i0, a, b - 1);
    }
}

/// Ordering: of two entries that are both renamed, the one earlier in the
/// sorted listing is assigned the strictly smaller index. The rename pass
/// names entry `j` with `counter_after(s, i0, j)` as its first index, so
/// index assignment follows the sorted path order.
pub proof fn lemma_indices_follow_order(s: Seq<EntryView>, i0: nat, j: int, k: int)
    requires
        0 <= j < k < s.len(),
        renamed(s[j]),
        renamed(s[k]),
    ensures
        counter_after(s, i0, j) < counter_after(s, i0, k),
{
    assert(counter_after(s, i0, j + 1) == counter_after(s, i0, j) + entry_advance(s[j]));
    assert(entry_advance(s[j]) >= 1);
    lemma_counter_monotone(s, i0, j + 1, k);
}

/// Ordering by path: in a sorted listing, a renamed entry whose name
/// sorts strictly before another renamed entry's name is assigned the
/// strictly smaller index.
pub proof fn lemma_path_order_gives_index_order(s: Seq<EntryView>, i0: nat, j: int, k: int)
    requires
        sorted_by_name(s),
        0 <= j < s.len(),
        0 <= k < s.len(),
        renamed(s[j]),
        renamed(s[k]),
        lex_le(s[j].name, s[k].name),
        s[j].name != s[k].name,
    ensures
        counter_after(s, i0, j) < counter_after(s, i0, k),
{
    if k <= j {
        assert(k < j);
        assert(lex_le(s[k].name, s[j].name));
        lemma_lex_antisymmetric(s[j].name, s[k].name);
    }
    lemma_indices_follow_order(s, i0, j, k);
}

/// A square image is not a portrait: it is classified as a double-page
/// spread and consumes two consecutive index slots.
pub proof fn lemma_square_is_double_page(e: EntryView, w: usize)
    requires
        renamed(e),
        e.data matches Some(d) && image_dims(d) == Some((w, w)),
    ensures
        classify_spec(w as nat, w as nat) == PageKind::Double,
        !is_portrait(e),
        entry_advance(e) == 2,
{
}

/// The bare canonical name an entry ends up with after both passes, given
/// the counter stood at `i` when the entry was renamed.
pub open spec fn canonical_base(e: EntryView, i: nat) -> Seq<u8> {
    match ext_of(e.name) {
        Some(x) => if is_portrait(e) {
            sp_base_spec(i, x)
        } else {
            dp_base_spec(i, x)
        },
        None => Seq::empty(),
    }
}

proof fn lemma_full_run_prefix(s: Seq<EntryView>, i0: nat, n: int)
    requires
        0 <= n <= s.len(),
        forall|m: int| 0 <= m < s.len() ==> renamed(#[trigger] s[m]),
    ensures
        plan_prefix(s, i0, n).len() == n,
        forall|m: int|
            0 <= m < n ==> {
                &&& #[trigger] plan_prefix(s, i0, n)[m] matches ActionView::Rename { from, to }
                &&& from == s[m].name
                &&& to == staged_spec(canonical_base(s[m], counter_after(s, i0, m)))
                &&& strip_bak_spec(to) == canonical_base(s[m], counter_after(s, i0, m))
                &&& !ends_with(strip_bak_spec(to), bak_suffix())
            },
    decreases n,
{
    if n > 0 {
        lemma_full_run_prefix(s, i0, n - 1);
        let e = s[n - 1];
        let i = counter_after(s, i0, n - 1);
        let x = match ext_of(e.name) {
            Some(x) => x,
            None => Seq::empty(),
        };
        assert(is_recognized_ext(x));
        lemma_base_not_staged(i, x);
        if is_portrait(e) {
            lemma_strip_staged(sp_base_spec(i, x));
        } else {
            lemma_strip_staged(dp_base_spec(i, x));
        }
        assert(plan_prefix(s, i0, n)[n - 1] == entry_action(s[n - 1], i)->Some_0);
        assert(forall|m: int|
            0 <= m < n - 1 ==> #[trigger] plan_prefix(s, i0, n)[m] == plan_prefix(
                s,
                i0,
                n - 1,
            )[m]);
    }
}

/// A full clean run: in a listing of only recognized, decodable image
/// files, every file is renamed exactly once, each to its staged
/// canonical name, and stripping that name yields the bare canonical
/// name, which carries no protective suffix.
pub proof fn lemma_full_run_canonical(s: Seq<EntryView>, i0: nat)
    requires
        forall|m: int| 0 <= m < s.len() ==> renamed(#[trigger] s[m]),
    ensures
        plan_spec(s, i0).len() == s.len(),
        forall|m: int|
            0 <= m < s.len() ==> {
                &&& #[trigger] plan_spec(s, i0)[m] matches ActionView::Rename { from, to }
                &&& from == s[m].name
                &&& to == staged_spec(canonical_base(s[m], counter_after(s, i0, m)))
                &&& strip_bak_spec(to) == canonical_base(s[m], counter_after(s, i0, m))
                &&& !ends_with(strip_bak_spec(to), bak_suffix())
            },
{
    lemma_full_run_prefix(s, i0, s.len() as int);
}

} // verus!
