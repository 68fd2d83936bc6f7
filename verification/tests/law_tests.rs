use game_asset::commands::{plan_bgm, plan_green_source, plan_image_generate, sfx_targets};
use game_asset::kinds::{GreenKind, ImageKind, SfxPreset};
use game_asset::layout::{frame_file_name, pack_layout, pack_sheet, slice_sheet};
use game_asset::manifest::{sort_entries, ManifestEntry};
use game_asset::pixels::{overlay, trim_alpha, Rgba8Image};
use game_asset::shell::shell_quote;
use game_asset::version::version_is_newer;

#[test]
fn existing_output_is_refused_by_every_plan() {
    let e = plan_image_generate(ImageKind::Scene, "a.png", true, false, 0, None, None, None, Some("bad")).unwrap_err();
    assert_eq!((e.code, e.message.as_str()), (4, "output exists: a.png"));
    let e = plan_green_source(GreenKind::Button, "b.png", true, false, 0, "nope", None, None).unwrap_err();
    assert_eq!((e.code, e.message.as_str()), (4, "output exists: b.png"));
    let e = plan_bgm("c.mp3", true, false, 0, 0, None, None, None, None, false, false).unwrap_err();
    assert_eq!((e.code, e.message.as_str()), (4, "output exists: c.mp3"));
    assert!(plan_image_generate(ImageKind::Scene, "a.png", true, true, 5, None, Some("x"), None, None).is_ok());
}

#[test]
fn image_plan_checks_in_order() {
    let e = plan_image_generate(ImageKind::GameMap, "m.png", false, false, 0, None, Some("x"), None, None).unwrap_err();
    assert_eq!((e.code, e.message.as_str()), (2, "--timeout-seconds must be greater than 0"));
    let e = plan_image_generate(ImageKind::GameMap, "m.png", false, false, 5, None, Some("x"), Some(Err("gone".into())), None)
        .unwrap_err();
    assert_eq!((e.code, e.message.as_str()), (3, "gone"));
    let e = plan_image_generate(ImageKind::GameMap, "m.png", false, false, 5, None, Some("x"), None, Some("0x5")).unwrap_err();
    assert_eq!(e.code, 2);
    let p = plan_image_generate(ImageKind::GameMap, "m.png", false, false, 5, None, Some("x"), Some(Ok("ink".into())), Some("8x4"))
        .unwrap();
    assert_eq!(p.size, Some((8, 4)));
    assert!(p.instruction.contains("Asset kind: map."));
    assert!(p.instruction.contains("ink"));
    let g = plan_green_source(GreenKind::Prop, "p.png", false, false, 5, "#112233", None, Some("a barrel")).unwrap();
    assert_eq!(g.key, [0x11, 0x22, 0x33]);
    assert!(g.instruction.contains("#112233"));
}

#[test]
fn frame_and_variation_names_never_collide() {
    let names: Vec<String> = (0..1200).map(frame_file_name).collect();
    let mut sorted = names.clone();
    sorted.sort();
    sorted.dedup();
    assert_eq!(sorted.len(), names.len());
    let targets = sfx_targets(SfxPreset::Laser, 120, 0, None, Some("d")).unwrap();
    let mut v: Vec<String> = targets.iter().map(|t| t.name.clone()).collect();
    v.sort();
    v.dedup();
    assert_eq!(v.len(), 120);
}

#[test]
fn sliced_frames_pack_back_in_place() {
    let mut sheet = Rgba8Image::from_pixel(6, 4, [0, 0, 0, 255]);
    for y in 0..4u32 {
        for x in 0..6u32 {
            sheet.put_pixel(x, y, [x as u8, y as u8, 0, 255]);
        }
    }
    let s = slice_sheet(&sheet, 3, 2).unwrap();
    let layout = pack_layout(s.frames.len() as u32, 3, 2, 2).unwrap();
    assert_eq!((layout.sheet_width, layout.sheet_height), (6, 4));
    for (frame, (px, py)) in s.frames.iter().zip(layout.positions.iter()) {
        for y in 0..2u32 {
            for x in 0..2u32 {
                assert_eq!(frame.get_pixel(x, y), sheet.get_pixel(px + x, py + y));
            }
        }
    }
}

#[test]
fn trim_keeps_every_opaque_pixel() {
    let mut img = Rgba8Image::from_pixel(7, 7, [0, 0, 0, 0]);
    img.put_pixel(2, 5, [5, 5, 5, 9]);
    img.put_pixel(6, 3, [6, 6, 6, 9]);
    let t = trim_alpha(&img).unwrap();
    assert_eq!(t.dimensions(), (5, 3));
    assert_eq!(t.get_pixel(0, 2), [5, 5, 5, 9]);
    assert_eq!(t.get_pixel(4, 0), [6, 6, 6, 9]);
}

#[test]
fn versions_are_strictly_ordered_on_examples() {
    let vs = ["0.1.0", "0.1.2", "0.1.10", "0.2", "1.0.0", "1.0.0.1"];
    for (i, a) in vs.iter().enumerate() {
        for (j, b) in vs.iter().enumerate() {
            assert_eq!(version_is_newer(a, b), i > j, "{a} vs {b}");
        }
    }
}

fn unquote(q: &str) -> String {
    // A POSIX shell word made of bare characters, single-quoted runs and
    // backslash escapes.
    let mut out = String::new();
    let mut chars = q.chars();
    let mut quoted = false;
    while let Some(c) = chars.next() {
        match (quoted, c) {
            (true, '\'') => quoted = false,
            (true, c) => out.push(c),
            (false, '\'') => quoted = true,
            (false, '\\') => out.push(chars.next().unwrap()),
            (false, c) => out.push(c),
        }
    }
    assert!(!quoted);
    out
}

#[test]
fn shell_quote_round_trips() {
    for s in ["", "plain", "two words", "it's", "''", "a\\b", "$HOME", "tab\there", "ü ñ"] {
        assert_eq!(unquote(&shell_quote(s)), s);
    }
}

fn entry(path: &str, bytes: u64) -> ManifestEntry {
    ManifestEntry { path: path.to_string(), kind: "file".to_string(), bytes, sha256: String::new() }
}

#[test]
fn manifest_order_is_byte_order_and_keeps_every_entry() {
    let sorted = sort_entries(vec![entry("é", 1), entry("z", 2), entry("Z", 3), entry("a b", 4), entry("ab", 5)]);
    let paths: Vec<&str> = sorted.iter().map(|e| e.path.as_str()).collect();
    let mut expected = vec!["é", "z", "Z", "a b", "ab"];
    expected.sort();
    assert_eq!(paths, expected);
}

fn frame(seed: u8, alpha_hole: bool) -> Rgba8Image {
    let mut f = Rgba8Image::from_pixel(3, 2, [seed, seed, seed, 255]);
    f.put_pixel(1, 1, [seed, 7, 9, 255]);
    if alpha_hole {
        f.put_pixel(2, 0, [50, 60, 70, 0]);
    }
    f
}

#[test]
fn packed_frames_slice_back_unchanged() {
    let frames: Vec<Rgba8Image> = (0..6u8).map(|i| frame(10 * i + 1, i == 4)).collect();
    let sheet = pack_sheet(&frames, 3).unwrap();
    assert_eq!(sheet.dimensions(), (9, 4));
    let sliced = slice_sheet(&sheet, 3, 2).unwrap();
    assert!(sliced.warning.is_none());
    for (m, (s, f)) in sliced.frames.iter().zip(frames.iter()).enumerate() {
        assert_eq!(s.dimensions(), f.dimensions());
        for y in 0..2 {
            for x in 0..3 {
                let expected = if m == 4 && (x, y) == (2, 0) { [0, 0, 0, 0] } else { f.get_pixel(x, y) };
                assert_eq!(s.get_pixel(x, y), expected, "frame {m} at {x},{y}");
            }
        }
    }
}

#[test]
fn pack_sheet_leaves_missing_cells_transparent_and_refuses_huge_sheets() {
    let frames: Vec<Rgba8Image> = (0..4u8).map(|i| frame(i + 1, false)).collect();
    let sheet = pack_sheet(&frames, 3).unwrap();
    assert_eq!(sheet.dimensions(), (9, 4));
    assert_eq!(sheet.get_pixel(8, 3), [0, 0, 0, 0]);
    assert_eq!(sheet.get_pixel(1, 3), [4, 7, 9, 255]);
    assert_eq!(sheet.get_pixel(4, 1), [2, 7, 9, 255]);
    let wide = vec![Rgba8Image::from_pixel(9000, 1, [1, 1, 1, 255])];
    assert_eq!(pack_sheet(&wide, 2).unwrap_err().code, 2);
}

#[test]
fn overlay_clips_and_keeps_what_is_not_covered() {
    let mut bottom = Rgba8Image::from_pixel(4, 3, [5, 5, 5, 255]);
    let mut top = Rgba8Image::from_pixel(3, 3, [9, 8, 7, 255]);
    top.put_pixel(0, 0, [1, 1, 1, 0]);
    overlay(&mut bottom, &top, 2, 1);
    assert_eq!(bottom.get_pixel(1, 1), [5, 5, 5, 255]);
    assert_eq!(bottom.get_pixel(2, 1), [5, 5, 5, 255]);
    assert_eq!(bottom.get_pixel(3, 1), [9, 8, 7, 255]);
    assert_eq!(bottom.get_pixel(3, 2), [9, 8, 7, 255]);
    assert_eq!(bottom.get_pixel(0, 0), [5, 5, 5, 255]);
    let mut far = Rgba8Image::from_pixel(2, 2, [5, 5, 5, 255]);
    overlay(&mut far, &top, 7, 7);
    assert_eq!(far.get_pixel(1, 1), [5, 5, 5, 255]);
}
