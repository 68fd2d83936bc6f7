use game_asset::codex::codex_reasoning_effort;
use game_asset::instruction::{codex_command_display, codex_final_instruction, image_instruction, reasoning_effort_setting};
use game_asset::shell::shell_quote;
use game_asset::text::char_is_whitespace;
use game_asset::version::{current_target, version_is_newer};
use game_asset::upgrade::release_version;

#[test]
fn image_instruction_always_includes_imagegen_keyword() {
    let plain = image_instruction("scene", "a cat", None, None, false, "#00FF00", "hero/cat.png");
    assert!(plain.contains("$imagegen"), "plain: {plain}");
    assert!(plain.contains("cat.png"), "plain out target: {plain}");
    let green = image_instruction("button", "a coin", None, None, true, "#00FF00", "ui/coin.png");
    assert!(green.contains("$imagegen"), "green: {green}");
}

#[test]
fn instruction_names_size_style_and_key() {
    let s = image_instruction("sprite", "a knight", Some("pixel art"), Some((64, 32)), true, "#FF00FF", "out/knight.png");
    assert!(s.contains("a knight"));
    assert!(s.contains("pixel art"));
    assert!(s.contains("64x32"));
    assert!(s.contains("#FF00FF"));
    assert!(s.contains("knight.png"));
}

#[test]
fn version_comparison_orders_releases() {
    assert!(version_is_newer("0.2.0", "0.1.0"));
    assert!(version_is_newer("1.0.0", "0.9.9"));
    assert!(version_is_newer("0.1.10", "0.1.2"));
    assert!(!version_is_newer("0.1.0", "0.1.0"));
    assert!(!version_is_newer("0.1.0", "0.2.0"));
    assert!(version_is_newer("0.1.0".trim_start_matches('v'), "0.0.9"));
}

#[test]
fn version_comparison_is_asymmetric_on_examples() {
    for (a, b) in [("0.2.0", "0.1.0"), ("1.0", "1.0.0"), ("1.0.1", "1.0"), ("2.0.0-rc1", "2.0.0")] {
        assert!(!(version_is_newer(a, b) && version_is_newer(b, a)), "{a} {b}");
        assert!(!version_is_newer(a, a));
    }
    assert!(version_is_newer("1.0.1", "1.0"));
    assert!(!version_is_newer("1.0.0-rc1", "1.0.0"));
    assert!(!version_is_newer("1.0.0", "1.0.0-rc1"));
    assert!(!version_is_newer("1.0", "1.0.0"));
    assert!(!version_is_newer("1.0", "1.0.0"));
}

#[test]
fn release_tag_loses_leading_v() {
    assert_eq!(release_version("v0.3.1"), "0.3.1");
    assert_eq!(release_version("0.3.1"), "0.3.1");
    assert!(version_is_newer(release_version("v0.3.1"), "0.3.0"));
}

#[test]
fn current_target_is_known_for_this_platform() {
    let target = current_target("linux", "x86_64").unwrap();
    assert!(target.contains('-'));
    assert_eq!(target, "x86_64-unknown-linux-gnu");
    assert_eq!(current_target("macos", "aarch64").unwrap(), "aarch64-apple-darwin");
    let err = current_target("freebsd", "x86_64").unwrap_err();
    assert_eq!(err.code, 2);
    assert_eq!(err.message, "no prebuilt binary is published for freebsd/x86_64");
}

#[test]
fn shell_quote_leaves_safe_words_and_quotes_others() {
    assert_eq!(shell_quote("abc/def-1.2_x"), "abc/def-1.2_x");
    assert_eq!(shell_quote("a b"), "'a b'");
    assert_eq!(shell_quote("it's"), "'it'\\''s'");
    assert_eq!(shell_quote(""), "''");
}

#[test]
fn final_instruction_appends_save_directive() {
    let s = codex_final_instruction("draw");
    assert!(s.starts_with("draw\n\nGenerate the image for THIS request now"));
    assert!(s.ends_with("exit with a non-zero status."));
}

#[test]
fn command_display_quotes_paths_and_hides_instruction() {
    let s = codex_command_display("/usr/bin/codex", "read-only", "/tmp/w d", "high", Some("m1"), &vec!["/r/a.png".to_string()]);
    assert_eq!(
        s,
        "/usr/bin/codex exec --skip-git-repo-check --sandbox read-only -C '/tmp/w d' -c model_reasoning_effort=high --model m1 '<instruction shown above>' --image /r/a.png"
    );
}

#[test]
fn reasoning_effort_defaults_to_high() {
    assert_eq!(codex_reasoning_effort(None), "high");
    assert_eq!(codex_reasoning_effort(Some("medium")), "medium");
    assert_eq!(reasoning_effort_setting("high"), "model_reasoning_effort=high");
}

#[test]
fn white_space_matches_every_character() {
    for u in 0..=0x10FFFFu32 {
        if let Some(c) = char::from_u32(u) {
            assert_eq!(char_is_whitespace(c), c.is_whitespace(), "U+{u:04X}");
        }
    }
}
