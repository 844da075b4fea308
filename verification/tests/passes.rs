use page_renamer::offset::resolve_page_offset;
use page_renamer::plan::{plan_rename_pass, plan_renames, plan_strip, Action, PageEntry};
use page_renamer::sort::sort_entries;

fn png_bytes(w: u32, h: u32) -> Vec<u8> {
    let mut v = vec![0x89u8, b'P', b'N', b'G', 0x0D, 0x0A, 0x1A, 0x0A, 0, 0, 0, 13];
    v.extend_from_slice(b"IHDR");
    v.extend_from_slice(&w.to_be_bytes());
    v.extend_from_slice(&h.to_be_bytes());
    v
}

fn jpg_bytes(w: u16, h: u16) -> Vec<u8> {
    let mut v = vec![0xFFu8, 0xD8, 0xFF, 0xC0, 0, 0, 0];
    v.extend_from_slice(&h.to_be_bytes());
    v.extend_from_slice(&w.to_be_bytes());
    v.push(0);
    v
}

fn webp_bytes(w: u16, h: u16) -> Vec<u8> {
    let mut v = Vec::new();
    v.extend_from_slice(b"RIFF");
    v.extend_from_slice(&[0, 0, 0, 0]);
    v.extend_from_slice(b"WEBP");
    v.extend_from_slice(b"VP8 ");
    while v.len() < 0x1A {
        v.push(0);
    }
    v.extend_from_slice(&w.to_le_bytes());
    v.extend_from_slice(&h.to_le_bytes());
    v
}

fn jxl_bytes(w: u32, h: u32) -> Vec<u8> {
    assert!(1 <= w && w <= 512 && 1 <= h && h <= 512);
    let header: u128 =
        0xFF | (0x0A << 8) | (((h - 1) as u128) << 19) | (((w - 1) as u128) << 33);
    header.to_le_bytes().to_vec()
}

fn file(name: &str, data: Vec<u8>) -> PageEntry {
    PageEntry { name: name.as_bytes().to_vec(), is_file: true, data: Some(data) }
}

fn expect_rename(action: &Action, from: &str, to: &str) {
    match action {
        Action::Rename { from: f, to: t } => {
            assert_eq!(f, &from.as_bytes().to_vec());
            assert_eq!(t, &to.as_bytes().to_vec());
        }
        Action::Skip { .. } => panic!("expected a rename"),
    }
}

#[test]
fn scenario_landscape_then_portrait() {
    let mut entries = vec![
        file("b.jpg", jpg_bytes(100, 200)),
        file("a.png", png_bytes(200, 100)),
    ];
    sort_entries(&mut entries);
    assert_eq!(entries[0].name, b"a.png".to_vec());
    let plan = plan_renames(&entries, resolve_page_offset(None));
    assert_eq!(plan.len(), 2);
    expect_rename(&plan[0], "a.png", "001-002.png.bak");
    expect_rename(&plan[1], "b.jpg", "003.jpg.bak");
}

#[test]
fn scenario_offset_single_portrait() {
    let entries = vec![file("x.webp", webp_bytes(100, 200))];
    let plan = plan_renames(&entries, resolve_page_offset(Some(b"5".to_vec())));
    assert_eq!(plan.len(), 1);
    expect_rename(&plan[0], "x.webp", "005.webp.bak");
    let staged = vec![file("005.webp.bak", Vec::new())];
    let strip = plan_strip(&staged);
    assert_eq!(strip.len(), 1);
    expect_rename(&strip[0], "005.webp.bak", "005.webp");
}

#[test]
fn scenario_unrecognized_file_untouched() {
    let mut entries = vec![
        file("notes.txt", b"some notes".to_vec()),
        file("cover.jxl", jxl_bytes(150, 300)),
    ];
    sort_entries(&mut entries);
    let plan = plan_renames(&entries, 1);
    assert_eq!(plan.len(), 1);
    expect_rename(&plan[0], "cover.jxl", "001.jxl.bak");
}

#[test]
fn scenario_corrupt_image_skipped() {
    let mut entries = vec![
        file("bad.png", b"this is not a png at all".to_vec()),
        file("good.png", png_bytes(100, 200)),
    ];
    sort_entries(&mut entries);
    let plan = plan_renames(&entries, 1);
    assert_eq!(plan.len(), 2);
    match &plan[0] {
        Action::Skip { name, cause } => {
            assert_eq!(name, &b"bad.png".to_vec());
            assert!(cause.is_some());
        }
        Action::Rename { .. } => panic!("expected a skip"),
    }
    // the skipped file consumes no index slot
    expect_rename(&plan[1], "good.png", "001.png.bak");
}

#[test]
fn unreadable_file_skipped() {
    let entries = vec![PageEntry {
        name: b"gone.jpg".to_vec(),
        is_file: true,
        data: None,
    }];
    let plan = plan_renames(&entries, 1);
    assert_eq!(plan.len(), 1);
    match &plan[0] {
        Action::Skip { name, cause } => {
            assert_eq!(name, &b"gone.jpg".to_vec());
            assert!(cause.is_none());
        }
        Action::Rename { .. } => panic!("expected a skip"),
    }
}

#[test]
fn directories_are_ignored() {
    let entries = vec![PageEntry {
        name: b"folder.png".to_vec(),
        is_file: false,
        data: None,
    }];
    let plan = plan_renames(&entries, 1);
    assert_eq!(plan.len(), 0);
}

#[test]
fn square_image_is_double_page() {
    let mut entries = vec![
        file("s.png", png_bytes(150, 150)),
        file("t.png", png_bytes(100, 200)),
    ];
    sort_entries(&mut entries);
    let plan = plan_renames(&entries, 1);
    assert_eq!(plan.len(), 2);
    expect_rename(&plan[0], "s.png", "001-002.png.bak");
    // the square spread consumed two slots
    expect_rename(&plan[1], "t.png", "003.png.bak");
}

#[test]
fn portrait_indices_follow_name_order() {
    let mut entries = vec![
        file("c.png", png_bytes(100, 200)),
        file("a.png", png_bytes(100, 300)),
        file("b.png", png_bytes(100, 400)),
    ];
    sort_entries(&mut entries);
    let plan = plan_renames(&entries, 1);
    assert_eq!(plan.len(), 3);
    expect_rename(&plan[0], "a.png", "001.png.bak");
    expect_rename(&plan[1], "b.png", "002.png.bak");
    expect_rename(&plan[2], "c.png", "003.png.bak");
}

#[test]
fn full_run_leaves_only_canonical_names() {
    let mut entries = vec![
        file("b.jpg", jpg_bytes(100, 200)),
        file("a.png", png_bytes(200, 100)),
    ];
    sort_entries(&mut entries);
    let plan = plan_renames(&entries, 1);
    // every staged name carries the protective suffix
    let mut staged = Vec::new();
    for action in &plan {
        match action {
            Action::Rename { from: _, to } => {
                assert!(to.ends_with(b".bak"));
                staged.push(PageEntry { name: to.clone(), is_file: true, data: None });
            }
            Action::Skip { .. } => panic!("expected a rename"),
        }
    }
    let strip = plan_strip(&staged);
    assert_eq!(strip.len(), 2);
    expect_rename(&strip[0], "001-002.png.bak", "001-002.png");
    expect_rename(&strip[1], "003.jpg.bak", "003.jpg");
}

#[test]
fn strip_touches_only_staged_files() {
    let entries = vec![
        file("001.png", Vec::new()),
        file("keep.txt", Vec::new()),
        file("x.bak", Vec::new()),
        PageEntry { name: b"d.bak".to_vec(), is_file: false, data: None },
    ];
    let strip = plan_strip(&entries);
    assert_eq!(strip.len(), 1);
    expect_rename(&strip[0], "x.bak", "x");
}

#[test]
fn sort_orders_names_bytewise() {
    let mut entries = vec![
        file("10.png", Vec::new()),
        file("2.png", Vec::new()),
        file("1.png", Vec::new()),
    ];
    sort_entries(&mut entries);
    assert_eq!(entries[0].name, b"1.png".to_vec());
    assert_eq!(entries[1].name, b"10.png".to_vec());
    assert_eq!(entries[2].name, b"2.png".to_vec());
}

#[test]
fn combined_pass_sorts_then_plans() {
    let mut entries = vec![
        file("b.jpg", jpg_bytes(100, 200)),
        file("a.png", png_bytes(200, 100)),
    ];
    let plan = plan_rename_pass(&mut entries, 1);
    assert_eq!(entries[0].name, b"a.png".to_vec());
    assert_eq!(plan.len(), 2);
    expect_rename(&plan[0], "a.png", "001-002.png.bak");
    expect_rename(&plan[1], "b.jpg", "003.jpg.bak");
}

#[test]
fn leading_dot_image_is_renamed() {
    let entries = vec![file(".jpg", jpg_bytes(100, 200))];
    let plan = plan_renames(&entries, 1);
    assert_eq!(plan.len(), 1);
    expect_rename(&plan[0], ".jpg", "001.jpg.bak");
}

#[test]
fn wide_indices_keep_all_digits() {
    let entries = vec![file("a.png", png_bytes(100, 200))];
    let plan = plan_renames(&entries, 1000);
    assert_eq!(plan.len(), 1);
    expect_rename(&plan[0], "a.png", "1000.png.bak");
}
