//! Canonical page names: zero-padded decimal indices, the staged `.bak`
//! form used during the rename pass, and the stripping of that suffix.

use vstd::prelude::*;
use crate::ext::{DOT, LC_A, LC_B, LC_K, is_recognized_ext};

verus! {

/// The byte that joins the two indices of a double-page spread.
pub const HYPHEN: u8 = 45;

/// The ASCII digit `0`.
pub const DIGIT_ZERO: u8 = 48;

/// The decimal digits of `n`, most significant first.
pub open spec fn dec_spec(n: nat) -> Seq<u8>
    decreases n,
{
    if n < 10 {
        seq![(DIGIT_ZERO + n) as u8]
    } else {
        dec_spec(n / 10).push((DIGIT_ZERO + n % 10) as u8)
    }
}

/// The decimal digits of `n`, zero-padded on the left to at least three
/// digits; a larger index keeps all of its digits.
pub open spec fn pad3_spec(n: nat) -> Seq<u8> {
    if n < 10 {
        seq![DIGIT_ZERO, DIGIT_ZERO] + dec_spec(n)
    } else if n < 100 {
        seq![DIGIT_ZERO] + dec_spec(n)
    } else {
        dec_spec(n)
    }
}

/// The protective suffix `.bak` appended to every staged name.
pub open spec fn bak_suffix() -> Seq<u8> {
    seq![DOT, LC_B, LC_A, LC_K]
}

/// The extension that marks a staged file: `bak`.
pub open spec fn bak_ext() -> Seq<u8> {
    seq![LC_B, LC_A, LC_K]
}

/// Decide whether an extension is exactly the protective marker.
pub fn is_bak_ext(e: &Vec<u8>) -> (r: bool)
    ensures
        r == (e@ == bak_ext()),
{
    let r = e.len() == 3 && e[0] == LC_B && e[1] == LC_A && e[2] == LC_K;
    proof {
        if r {
            assert(e@ =~= bak_ext());
        }
    }
    r
}

/// The bare canonical name of a single page: `NNN.<ext>`.
pub open spec fn sp_base_spec(i: nat, ext: Seq<u8>) -> Seq<u8> {
    pad3_spec(i) + seq![DOT] + ext
}

/// The bare canonical name of a double-page spread: `NNN-MMM.<ext>` with
/// `MMM` the successor of `NNN`.
pub open spec fn dp_base_spec(i: nat, ext: Seq<u8>) -> Seq<u8> {
    pad3_spec(i) + seq![HYPHEN] + pad3_spec(i + 1) + seq![DOT] + ext
}

/// A staged name: the bare canonical name with the protective suffix.
pub open spec fn staged_spec(base: Seq<u8>) -> Seq<u8> {
    base + bak_suffix()
}

/// Whether `s` ends with `suffix`.
pub open spec fn ends_with(s: Seq<u8>, suffix: Seq<u8>) -> bool {
    s.len() >= suffix.len() && s.subrange(s.len() - suffix.len(), s.len() as int) == suffix
}

/// A name with its single trailing `.bak` marker removed; a name without
/// the marker is left as it is.
pub open spec fn strip_bak_spec(name: Seq<u8>) -> Seq<u8> {
    if ends_with(name, bak_suffix()) {
        name.subrange(0, name.len() - 4)
    } else {
        name
    }
}

/// Append all bytes of `src` to `dst`.
pub(crate) fn push_bytes(dst: &mut Vec<u8>, src: &Vec<u8>)
    ensures
        final(dst)@ == old(dst)@ + src@,
{
    let ghost dst0 = dst@;
    let mut k: usize = 0;
    while k < src.len()
        invariant
            k <= src@.len(),
            dst@ == dst0 + src@.subrange(0, k as int),
        decreases src@.len() - k,
    {
        dst.push(src[k]);
        proof {
            assert((dst0 + src@.subrange(0, k as int)).push(src@[k as int]) =~= dst0
                + src@.subrange(0, k + 1 as int));
        }
        k = k + 1;
    }
    proof {
        assert(src@.subrange(0, src@.len() as int) =~= src@);
    }
}

/// A fresh copy of a byte string.
pub(crate) fn copy_bytes(src: &Vec<u8>) -> (r: Vec<u8>)
    ensures
        r@ == src@,
{
    let mut v: Vec<u8> = Vec::new();
    push_bytes(&mut v, src);
    v
}

/// The decimal digits of `n`, most significant first.
fn dec_digits(n: usize) -> (r: Vec<u8>)
    ensures
        r@ == dec_spec(n as nat),
    decreases n,
{
    if n < 10 {
        let mut v: Vec<u8> = Vec::new();
        v.push(DIGIT_ZERO + (n as u8));
        proof {
            assert(v@ =~= dec_spec(n as nat));
        }
        v
    } else {
        let mut v = dec_digits(n / 10);
        v.push(DIGIT_ZERO + ((n % 10) as u8));
        v
    }
}

/// The zero-padded decimal form of an index, at least three digits wide.
pub fn pad3(i: usize) -> (r: Vec<u8>)
    ensures
        r@ == pad3_spec(i as nat),
{
    let mut v: Vec<u8> = Vec::new();
    if i < 10 {
        v.push(DIGIT_ZERO);
        v.push(DIGIT_ZERO);
    } else if i < 100 {
        v.push(DIGIT_ZERO);
    }
    let mut d = dec_digits(i);
    v.append(&mut d);
    proof {
        assert(v@ =~= pad3_spec(i as nat));
    }
    v
}

/// Append the protective suffix to a name under construction.
fn push_bak(dst: &mut Vec<u8>)
    ensures
        final(dst)@ == old(dst)@ + bak_suffix(),
{
    dst.push(DOT);
    dst.push(LC_B);
    dst.push(LC_A);
    dst.push(LC_K);
    proof {
        assert(dst@ =~= old(dst)@ + bak_suffix());
    }
}

/// The staged name of a single page at index `i`: `NNN.<ext>.bak`.
pub fn sp_staged_name(i: usize, ext: &Vec<u8>) -> (r: Vec<u8>)
    ensures
        r@ == staged_spec(sp_base_spec(i as nat, ext@)),
{
    let mut v = pad3(i);
    v.push(DOT);
    push_bytes(&mut v, ext);
    push_bak(&mut v);
    proof {
        assert(v@ =~= staged_spec(sp_base_spec(i as nat, ext@)));
    }
    v
}

/// The staged name of a double-page spread at indices `i` and `i + 1`:
/// `NNN-MMM.<ext>.bak`.
pub fn dp_staged_name(i: usize, ext: &Vec<u8>) -> (r: Vec<u8>)
    requires
        i < usize::MAX,
    ensures
        r@ == staged_spec(dp_base_spec(i as nat, ext@)),
{
    let mut v = pad3(i);
    v.push(HYPHEN);
    let mut second = pad3(i + 1);
    v.append(&mut second);
    v.push(DOT);
    push_bytes(&mut v, ext);
    push_bak(&mut v);
    proof {
        assert(v@ =~= staged_spec(dp_base_spec(i as nat, ext@)));
    }
    v
}

/// Whether a name currently ends with the protective suffix.
fn has_bak(v: &Vec<u8>) -> (r: bool)
    ensures
        r == ends_with(v@, bak_suffix()),
{
    let n = v.len();
    if n < 4 {
        return false;
    }
    let r = v[n - 4] == DOT && v[n - 3] == LC_B && v[n - 2] == LC_A && v[n - 1] == LC_K;
    proof {
        if r {
            assert(v@.subrange(v@.len() - 4, v@.len() as int) =~= bak_suffix());
        } else {
            assert(v@.subrange(v@.len() - 4, v@.len() as int) != bak_suffix()) by {
                if v@.subrange(v@.len() - 4, v@.len() as int) == bak_suffix() {
                    assert(v@[v@.len() - 4] == DOT);
                    assert(v@[v@.len() - 3] == LC_B);
                    assert(v@[v@.len() - 2] == LC_A);
                    assert(v@[v@.len() - 1] == LC_K);
                }
            }
        }
    }
    r
}

/// Remove the trailing `.bak` marker from a name, as the stripping pass
/// does.
pub fn strip_bak(name: &Vec<u8>) -> (r: Vec<u8>)
    ensures
        r@ == strip_bak_spec(name@),
{
    let mut v: Vec<u8> = Vec::new();
    push_bytes(&mut v, name);
    assert(v@ == name@);
    if has_bak(&v) {
        let n = v.len();
        v.truncate(n - 4);
    }
    v
}

/// Stripping the suffix from a staged name yields the bare canonical
/// name.
pub proof fn lemma_strip_staged(base: Seq<u8>)
    ensures
        strip_bak_spec(staged_spec(base)) == base,
{
    let s = staged_spec(base);
    assert(s.subrange(s.len() - 4, s.len() as int) =~= bak_suffix());
    assert(ends_with(s, bak_suffix()));
    assert(s.subrange(0, s.len() - 4) =~= base);
}

/// A bare canonical name never ends in the protective suffix, because its
/// recognized extension differs from `bak`.
pub proof fn lemma_base_not_staged(i: nat, ext: Seq<u8>)
    requires
        is_recognized_ext(ext),
    ensures
        !ends_with(sp_base_spec(i, ext), bak_suffix()),
        !ends_with(dp_base_spec(i, ext), bak_suffix()),
{
    let sp = sp_base_spec(i, ext);
    let dp = dp_base_spec(i, ext);
    if ext.len() == 3 {
        assert(sp[sp.len() - 3] == ext[0]);
        assert(dp[dp.len() - 3] == ext[0]);
        if ends_with(sp, bak_suffix()) {
            assert(sp.subrange(sp.len() - 4, sp.len() as int)[1] == LC_B);
        }
        if ends_with(dp, bak_suffix()) {
            assert(dp.subrange(dp.len() - 4, dp.len() as int)[1] == LC_B);
        }
    } else {
        assert(sp[sp.len() - 4] == ext[0]);
        assert(dp[dp.len() - 4] == ext[0]);
        if ends_with(sp, bak_suffix()) {
            assert(sp.subrange(sp.len() - 4, sp.len() as int)[0] == DOT);
        }
        if ends_with(dp, bak_suffix()) {
            assert(dp.subrange(dp.len() - 4, dp.len() as int)[0] == DOT);
        }
    }
}

} // verus!
