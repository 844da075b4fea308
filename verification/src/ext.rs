//! File-extension extraction and the allow-list of recognized image types.

use vstd::prelude::*;

verus! {

/// The byte that separates a file name from its extension.
pub const DOT: u8 = 46;

/// ASCII letter bytes used by the recognized extensions and the
/// protective suffix.
pub const LC_A: u8 = 97;

pub const LC_B: u8 = 98;

pub const LC_E: u8 = 101;

pub const LC_G: u8 = 103;

pub const LC_J: u8 = 106;

pub const LC_K: u8 = 107;

pub const LC_L: u8 = 108;

pub const LC_N: u8 = 110;

pub const LC_P: u8 = 112;

pub const LC_W: u8 = 119;

pub const LC_X: u8 = 120;

/// The extension of a file name: the bytes after the last `.`, or `None`
/// when the name holds no dot at all.
pub open spec fn ext_of(name: Seq<u8>) -> Option<Seq<u8>>
    decreases name.len(),
{
    if name.len() == 0 {
        None
    } else if name.last() == DOT {
        Some(Seq::empty())
    } else {
        match ext_of(name.drop_last()) {
            Some(e) => Some(e.push(name.last())),
            None => None,
        }
    }
}

/// If the last dot of `name` stands at index `j`, the extension is
/// everything after it.
proof fn lemma_ext_at(name: Seq<u8>, j: int)
    requires
        0 <= j < name.len(),
        name[j] == DOT,
        forall|k: int| j < k < name.len() ==> name[k] != DOT,
    ensures
        ext_of(name) == Some(name.subrange(j + 1, name.len() as int)),
    decreases name.len(),
{
    if j == name.len() - 1 {
        assert(name.subrange(j + 1, name.len() as int) =~= Seq::<u8>::empty());
    } else {
        let prefix = name.drop_last();
        assert(prefix.len() == name.len() - 1);
        lemma_ext_at(prefix, j);
        assert(prefix.subrange(j + 1, prefix.len() as int).push(name.last()) =~= name.subrange(
            j + 1,
            name.len() as int,
        ));
    }
}

/// A name with no dot at all has no extension.
proof fn lemma_ext_none(name: Seq<u8>)
    requires
        forall|k: int| 0 <= k < name.len() ==> name[k] != DOT,
    ensures
        ext_of(name) is None,
    decreases name.len(),
{
    if name.len() == 0 {
    } else {
        lemma_ext_none(name.drop_last());
    }
}

/// Extract the extension of a file name: the bytes after the
/// last dot, or `None` when the name has no extension.
pub fn extension_of(name: &Vec<u8>) -> (r: Option<Vec<u8>>)
    ensures
        match r {
            Some(e) => ext_of(name@) == Some(e@),
            None => ext_of(name@) is None,
        },
{
    let n = name.len();
    let mut j: usize = n;
    while j > 0
        invariant
            j <= n,
            n == name@.len(),
            forall|k: int| j <= k < n ==> name@[k] != DOT,
        decreases j,
    {
        if name[j - 1] == DOT {
            // Last dot found at index j - 1: the extension follows it.
            let mut e: Vec<u8> = Vec::new();
            let mut k: usize = j;
            while k < n
                invariant
                    j <= k <= n,
                    n == name@.len(),
                    e@ == name@.subrange(j as int, k as int),
                decreases n - k,
            {
                e.push(name[k]);
                assert(name@.subrange(j as int, k as int).push(name@[k as int]) =~= name@.subrange(
                    j as int,
                    k + 1 as int,
                ));
                k = k + 1;
            }
            proof {
                lemma_ext_at(name@, j - 1);
            }
            return Some(e);
        }
        j = j - 1;
    }
    proof {
        lemma_ext_none(name@);
    }
    None
}

/// The fixed allow-list of page-image extensions.
pub open spec fn is_recognized_ext(e: Seq<u8>) -> bool {
    ||| e == seq![LC_J, LC_P, LC_G]
    ||| e == seq![LC_P, LC_N, LC_G]
    ||| e == seq![LC_W, LC_E, LC_B, LC_P]
    ||| e == seq![LC_J, LC_X, LC_L]
}

/// Decide whether an extension is one of the recognized image types.
pub fn is_recognized(e: &Vec<u8>) -> (r: bool)
    ensures
        r == is_recognized_ext(e@),
{
    if e.len() == 3 {
        let jpg = e[0] == LC_J && e[1] == LC_P && e[2] == LC_G;
        let png = e[0] == LC_P && e[1] == LC_N && e[2] == LC_G;
        let jxl = e[0] == LC_J && e[1] == LC_X && e[2] == LC_L;
        proof {
            if jpg {
                assert(e@ =~= seq![LC_J, LC_P, LC_G]);
            }
            if png {
                assert(e@ =~= seq![LC_P, LC_N, LC_G]);
            }
            if jxl {
                assert(e@ =~= seq![LC_J, LC_X, LC_L]);
            }
        }
        jpg || png || jxl
    } else if e.len() == 4 {
        let webp = e[0] == LC_W && e[1] == LC_E && e[2] == LC_B && e[3] == LC_P;
        proof {
            if webp {
                assert(e@ =~= seq![LC_W, LC_E, LC_B, LC_P]);
            }
        }
        webp
    } else {
        false
    }
}

} // verus!
