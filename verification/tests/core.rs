use page_renamer::canonical::{dp_staged_name, is_bak_ext, pad3, sp_staged_name, strip_bak};
use page_renamer::ext::{extension_of, is_recognized};
use page_renamer::offset::resolve_page_offset;

#[test]
fn extension_simple() {
    assert_eq!(extension_of(&b"a.png".to_vec()), Some(b"png".to_vec()));
}

#[test]
fn extension_missing() {
    assert_eq!(extension_of(&b"noext".to_vec()), None);
}

#[test]
fn extension_leading_dot_name() {
    assert_eq!(extension_of(&b".bashrc".to_vec()), Some(b"bashrc".to_vec()));
}

#[test]
fn extension_leading_dot_marker() {
    assert_eq!(extension_of(&b".bak".to_vec()), Some(b"bak".to_vec()));
}

#[test]
fn extension_trailing_dot() {
    assert_eq!(extension_of(&b"foo.".to_vec()), Some(b"".to_vec()));
}

#[test]
fn extension_last_dot_wins() {
    assert_eq!(extension_of(&b"a.tar.gz".to_vec()), Some(b"gz".to_vec()));
}

#[test]
fn extension_empty_name() {
    assert_eq!(extension_of(&Vec::new()), None);
}

#[test]
fn recognized_extensions() {
    assert!(is_recognized(&b"jpg".to_vec()));
    assert!(is_recognized(&b"png".to_vec()));
    assert!(is_recognized(&b"webp".to_vec()));
    assert!(is_recognized(&b"jxl".to_vec()));
}

#[test]
fn unrecognized_extensions() {
    assert!(!is_recognized(&b"JPG".to_vec()));
    assert!(!is_recognized(&b"jpeg".to_vec()));
    assert!(!is_recognized(&b"txt".to_vec()));
    assert!(!is_recognized(&b"bak".to_vec()));
    assert!(!is_recognized(&b"".to_vec()));
}

#[test]
fn bak_marker() {
    assert!(is_bak_ext(&b"bak".to_vec()));
    assert!(!is_bak_ext(&b"jpg".to_vec()));
    assert!(!is_bak_ext(&b"bak ".to_vec()));
}

#[test]
fn pad_one_digit() {
    assert_eq!(pad3(7), b"007".to_vec());
}

#[test]
fn pad_two_digits() {
    assert_eq!(pad3(42), b"042".to_vec());
}

#[test]
fn pad_three_digits() {
    assert_eq!(pad3(123), b"123".to_vec());
}

#[test]
fn pad_keeps_wide_numbers() {
    assert_eq!(pad3(1000), b"1000".to_vec());
}

#[test]
fn pad_zero() {
    assert_eq!(pad3(0), b"000".to_vec());
}

#[test]
fn single_page_staged_name() {
    assert_eq!(sp_staged_name(7, &b"jpg".to_vec()), b"007.jpg.bak".to_vec());
}

#[test]
fn double_page_staged_name() {
    assert_eq!(dp_staged_name(7, &b"png".to_vec()), b"007-008.png.bak".to_vec());
}

#[test]
fn double_page_staged_name_crosses_padding() {
    assert_eq!(dp_staged_name(99, &b"webp".to_vec()), b"099-100.webp.bak".to_vec());
}

#[test]
fn strip_removes_suffix() {
    assert_eq!(strip_bak(&b"003.jpg.bak".to_vec()), b"003.jpg".to_vec());
}

#[test]
fn strip_removes_single_marker_only() {
    assert_eq!(strip_bak(&b"a.bak.bak".to_vec()), b"a.bak".to_vec());
}

#[test]
fn strip_leaves_plain_names() {
    assert_eq!(strip_bak(&b"003.jpg".to_vec()), b"003.jpg".to_vec());
}

#[test]
fn offset_absent_is_default() {
    assert_eq!(resolve_page_offset(None), 1);
}

#[test]
fn offset_plain_number() {
    assert_eq!(resolve_page_offset(Some(b"5".to_vec())), 5);
}

#[test]
fn offset_zero() {
    assert_eq!(resolve_page_offset(Some(b"0".to_vec())), 0);
}

#[test]
fn offset_leading_zeros() {
    assert_eq!(resolve_page_offset(Some(b"018".to_vec())), 18);
}

#[test]
fn offset_plus_sign() {
    assert_eq!(resolve_page_offset(Some(b"+7".to_vec())), 7);
}

#[test]
fn offset_invalid_falls_back() {
    assert_eq!(resolve_page_offset(Some(b"abc".to_vec())), 1);
}

#[test]
fn offset_invalid_matches_absent() {
    assert_eq!(
        resolve_page_offset(Some(b"abc".to_vec())),
        resolve_page_offset(None),
    );
}

#[test]
fn offset_empty_falls_back() {
    assert_eq!(resolve_page_offset(Some(Vec::new())), 1);
}

#[test]
fn offset_bare_plus_falls_back() {
    assert_eq!(resolve_page_offset(Some(b"+".to_vec())), 1);
}

#[test]
fn offset_trailing_space_falls_back() {
    assert_eq!(resolve_page_offset(Some(b"5 ".to_vec())), 1);
}

#[test]
fn offset_negative_falls_back() {
    assert_eq!(resolve_page_offset(Some(b"-3".to_vec())), 1);
}

#[test]
fn offset_overflow_falls_back() {
    assert_eq!(
        resolve_page_offset(Some(b"999999999999999999999999999999".to_vec())),
        1,
    );
}

#[test]
fn offset_resolution_is_repeatable() {
    let a = resolve_page_offset(Some(b"12".to_vec()));
    let b = resolve_page_offset(Some(b"12".to_vec()));
    assert_eq!(a, b);
}
