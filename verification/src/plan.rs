//! The two passes of the renamer, computed as plans over a directory
//! listing: the classifying pass that assigns canonical indices and staged
//! names, and the stripping pass that removes the protective suffix.
//!
//! The caller lists the directory, sorts the entries by name, and applies
//! the returned actions in order: a rename is performed on the filesystem,
//! a skip is reported as a diagnostic.

use vstd::prelude::*;
use crate::canonical::{
    bak_ext, copy_bytes, dp_base_spec, dp_staged_name, is_bak_ext, sp_base_spec, sp_staged_name,
    staged_spec, strip_bak, strip_bak_spec,
};
use crate::classify::{classify, classify_spec, PageKind};
use crate::ext::{ext_of, extension_of, is_recognized, is_recognized_ext};
use crate::image::{blob_dims, image_dims};
use crate::sort::{sort_entries, sorted_by_name};

verus! {

/// One directory entry as the caller hands it in: the file name, whether
/// the entry is a regular file, and the file's bytes where they could be
/// read (`None` marks an unreadable file).
pub struct PageEntry {
    pub name: Vec<u8>,
    pub is_file: bool,
    pub data: Option<Vec<u8>>,
}

/// The mathematical view of a directory entry.
pub ghost struct EntryView {
    pub name: Seq<u8>,
    pub is_file: bool,
    pub data: Option<Seq<u8>>,
}

impl View for PageEntry {
    type V = EntryView;

    open spec fn view(&self) -> EntryView {
        EntryView {
            name: self.name@,
            is_file: self.is_file,
            data: match self.data {
                Some(d) => Some(d@),
                None => None,
            },
        }
    }
}

/// One step of a pass: rename a file, or report one skipped because its
/// dimensions could not be read. A `cause` of `None` means the file's
/// bytes were not readable at all; otherwise it carries the decoder's
/// message.
pub enum Action {
    Rename { from: Vec<u8>, to: Vec<u8> },
    Skip { name: Vec<u8>, cause: Option<String> },
}

/// The mathematical view of an action; the diagnostic text is not part
/// of it.
pub ghost enum ActionView {
    Rename { from: Seq<u8>, to: Seq<u8> },
    Skip { name: Seq<u8> },
}

impl View for Action {
    type V = ActionView;

    open spec fn view(&self) -> ActionView {
        match self {
            Action::Rename { from, to } => ActionView::Rename { from: from@, to: to@ },
            Action::Skip { name, cause: _ } => ActionView::Skip { name: name@ },
        }
    }
}

/// Whether the classifying pass renames this entry: a regular file with a
/// recognized extension whose bytes decode as an image.
pub open spec fn renamed(e: EntryView) -> bool {
    &&& e.is_file
    &&& match ext_of(e.name) {
        Some(x) => is_recognized_ext(x),
        None => false,
    }
    &&& match e.data {
        Some(d) => image_dims(d) is Some,
        None => false,
    }
}

/// Whether this entry decodes as a portrait image: a single page.
pub open spec fn is_portrait(e: EntryView) -> bool {
    match e.data {
        Some(d) => match image_dims(d) {
            Some(dim) => classify_spec(dim.0 as nat, dim.1 as nat) == PageKind::Single,
            None => false,
        },
        None => false,
    }
}

/// How many canonical index slots this entry consumes: one for a single
/// page, two for a double-page spread, none when it is not renamed.
pub open spec fn entry_advance(e: EntryView) -> nat {
    if renamed(e) {
        if is_portrait(e) {
            1
        } else {
            2
        }
    } else {
        0
    }
}

/// The action of the classifying pass on one entry when the counter
/// stands at `i`: nothing for entries out of scope, a skip diagnostic for
/// an undecodable image, a rename to the staged canonical name otherwise.
pub open spec fn entry_action(e: EntryView, i: nat) -> Option<ActionView> {
    if !e.is_file {
        None
    } else {
        match ext_of(e.name) {
            Some(x) => if is_recognized_ext(x) {
                match e.data {
                    Some(d) => match image_dims(d) {
                        Some(dim) => Some(
                            ActionView::Rename {
                                from: e.name,
                                to: if classify_spec(dim.0 as nat, dim.1 as nat)
                                    == PageKind::Single {
                                    staged_spec(sp_base_spec(i, x))
                                } else {
                                    staged_spec(dp_base_spec(i, x))
                                },
                            },
                        ),
                        None => Some(ActionView::Skip { name: e.name }),
                    },
                    None => Some(ActionView::Skip { name: e.name }),
                }
            } else {
                None
            },
            None => None,
        }
    }
}

/// The sequence a single optional action contributes to a plan.
pub open spec fn opt_seq(a: Option<ActionView>) -> Seq<ActionView> {
    match a {
        Some(x) => seq![x],
        None => Seq::empty(),
    }
}

/// The counter after the first `n` entries, starting from `i0`.
pub open spec fn counter_after(s: Seq<EntryView>, i0: nat, n: int) -> nat
    decreases n,
{
    if n <= 0 {
        i0
    } else {
        counter_after(s, i0, n - 1) + entry_advance(s[n - 1])
    }
}

/// The actions of the classifying pass on the first `n` entries.
pub open spec fn plan_prefix(s: Seq<EntryView>, i0: nat, n: int) -> Seq<ActionView>
    decreases n,
{
    if n <= 0 {
        Seq::empty()
    } else {
        plan_prefix(s, i0, n - 1) + opt_seq(
            entry_action(s[n - 1], counter_after(s, i0, n - 1)),
        )
    }
}

/// The whole classifying pass over a directory listing, in order.
pub open spec fn plan_spec(s: Seq<EntryView>, i0: nat) -> Seq<ActionView> {
    plan_prefix(s, i0, s.len() as int)
}

/// The views of a listing.
pub open spec fn entry_views(s: Seq<PageEntry>) -> Seq<EntryView> {
    s.map_values(|e: PageEntry| e@)
}

/// The views of a plan.
pub open spec fn action_views(s: Seq<Action>) -> Seq<ActionView> {
    s.map_values(|a: Action| a@)
}

/// The counter never exceeds the start plus two slots per entry seen.
pub proof fn lemma_counter_bound(s: Seq<EntryView>, i0: nat, n: int)
    requires
        0 <= n <= s.len(),
    ensures
        counter_after(s, i0, n) <= i0 + 2 * n,
    decreases n,
{
    if n > 0 {
        lemma_counter_bound(s, i0, n - 1);
    }
}

/// Compute the classifying pass over a directory listing, already sorted
/// by name, with the counter starting at `first_index`. Every recognized,
/// decodable image file gets exactly one rename to its staged canonical
/// name; every recognized file that does not decode gets a skip
/// diagnostic; everything else is passed over silently.
pub fn plan_renames(entries: &Vec<PageEntry>, first_index: usize) -> (r: Vec<Action>)
    requires
        first_index + 2 * entries@.len() <= usize::MAX,
    ensures
        action_views(r@) == plan_spec(entry_views(entries@), first_index as nat),
{
    let ghost sv = entry_views(entries@);
    let mut acts: Vec<Action> = Vec::new();
    let mut i: usize = first_index;
    let mut n: usize = 0;
    proof {
        assert(action_views(acts@) =~= plan_prefix(sv, first_index as nat, 0));
    }
    while n < entries.len()
        invariant
            n <= entries@.len(),
            sv == entry_views(entries@),
            sv.len() == entries@.len(),
            first_index + 2 * entries@.len() <= usize::MAX,
            i as nat == counter_after(sv, first_index as nat, n as int),
            action_views(acts@) == plan_prefix(sv, first_index as nat, n as int),
        decreases entries@.len() - n,
    {
        let e = &entries[n];
        proof {
            assert(sv[n as int] == e@);
            lemma_counter_bound(sv, first_index as nat, n as int);
        }
        let ghost i0 = i as nat;
        let ghost acts0 = acts@;
        if e.is_file {
            match extension_of(&e.name) {
                Some(x) => {
                    if is_recognized(&x) {
                        match &e.data {
                            Some(d) => {
                                match blob_dims(d) {
                                    Ok(dim) => {
                                        let from = copy_bytes(&e.name);
                                        let kind = classify(dim.0, dim.1);
                                        if kind == PageKind::Single {
                                            let to = sp_staged_name(i, &x);
                                            acts.push(Action::Rename { from, to });
                                            i = i + 1;
                                        } else {
                                            let to = dp_staged_name(i, &x);
                                            acts.push(Action::Rename { from, to });
                                            i = i + 2;
                                        }
                                    },
                                    Err(cause) => {
                                        let name = copy_bytes(&e.name);
                                        acts.push(Action::Skip { name, cause: Some(cause) });
                                    },
                                }
                            },
                            None => {
                                let name = copy_bytes(&e.name);
                                acts.push(Action::Skip { name, cause: None });
                            },
                        }
                    }
                },
                None => {},
            }
        }
        proof {
            let ghost act = entry_action(sv[n as int], i0);
            assert(i as nat == i0 + entry_advance(sv[n as int]));
            assert(action_views(acts@) =~= plan_prefix(sv, first_index as nat, n as int + 1));
        }
        n = n + 1;
    }
    proof {
        assert(plan_prefix(sv, first_index as nat, sv.len() as int) == plan_spec(
            sv,
            first_index as nat,
        ));
    }
    acts
}

/// The classifying pass as the renamer runs it: sort the listing by
/// name, then compute the plan over the sorted listing.
pub fn plan_rename_pass(entries: &mut Vec<PageEntry>, first_index: usize) -> (r: Vec<Action>)
    requires
        first_index + 2 * old(entries)@.len() <= usize::MAX,
    ensures
        final(entries)@.len() == old(entries)@.len(),
        sorted_by_name(entry_views(final(entries)@)),
        entry_views(final(entries)@).to_multiset() == entry_views(old(entries)@).to_multiset(),
        action_views(r@) == plan_spec(entry_views(final(entries)@), first_index as nat),
{
    sort_entries(entries);
    plan_renames(entries, first_index)
}

/// The action of the stripping pass on one entry: a regular file whose
/// extension is exactly the protective marker is renamed to its name with
/// the trailing `.bak` marker removed; everything else is passed over.
pub open spec fn strip_action(e: EntryView) -> Option<ActionView> {
    if e.is_file && ext_of(e.name) == Some(bak_ext()) {
        Some(ActionView::Rename { from: e.name, to: strip_bak_spec(e.name) })
    } else {
        None
    }
}

/// The actions of the stripping pass on the first `n` entries.
pub open spec fn strip_prefix(s: Seq<EntryView>, n: int) -> Seq<ActionView>
    decreases n,
{
    if n <= 0 {
        Seq::empty()
    } else {
        strip_prefix(s, n - 1) + opt_seq(strip_action(s[n - 1]))
    }
}

/// The whole stripping pass over a directory listing.
pub open spec fn strip_plan_spec(s: Seq<EntryView>) -> Seq<ActionView> {
    strip_prefix(s, s.len() as int)
}

/// Compute the stripping pass over a directory listing: every staged file
/// loses its protective suffix. Order does not matter here, as every
/// staged name already carries its unique canonical index.
pub fn plan_strip(entries: &Vec<PageEntry>) -> (r: Vec<Action>)
    ensures
        action_views(r@) == strip_plan_spec(entry_views(entries@)),
{
    let ghost sv = entry_views(entries@);
    let mut acts: Vec<Action> = Vec::new();
    let mut n: usize = 0;
    proof {
        assert(action_views(acts@) =~= strip_prefix(sv, 0));
    }
    while n < entries.len()
        invariant
            n <= entries@.len(),
            sv == entry_views(entries@),
            sv.len() == entries@.len(),
            action_views(acts@) == strip_prefix(sv, n as int),
        decreases entries@.len() - n,
    {
        let e = &entries[n];
        proof {
            assert(sv[n as int] == e@);
        }
        if e.is_file {
            match extension_of(&e.name) {
                Some(x) => {
                    if is_bak_ext(&x) {
                        let from = copy_bytes(&e.name);
                        let to = strip_bak(&e.name);
                        acts.push(Action::Rename { from, to });
                    }
                },
                None => {},
            }
        }
        proof {
            assert(action_views(acts@) =~= strip_prefix(sv, n as int + 1));
        }
        n = n + 1;
    }
    acts
}

} // verus!
