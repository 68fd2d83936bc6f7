use game_asset::codex::{
    codex_sandbox, inspect_generated, last_line, pick_newest, poll_step, size_mismatch_warning, validate_generated_png, PollAction,
    PollObservation,
};
use game_asset::commands::{
    check_frame_yield, decode_bgm_reply, parse_key_mode, plan_bgm, sfx_targets, trim_samples, validate_frame_count,
    validate_sfx, FrameYield, KeyMode,
};
use game_asset::doctor::{doctor_lines, first_line, DoctorFindings};
use game_asset::events::{command_label, human_line, CommandTarget, EventFields, EventQueue};
use game_asset::kinds::{
    anchor_offset, is_frame_file, kind_from_ext, require_wav_extension, temp_file_name, Anchor, SfxPreset, XorShift64,
};
use game_asset::manifest::{hex_lower, manifest_entry, manifest_path, sort_entries, ManifestEntry};
use game_asset::prompt::{check_output_available, read_prompt, PromptFile};
use game_asset::upgrade::{plan_upgrade, select_asset, ReleaseAsset, UpgradeStep};

#[test]
fn rejects_invalid_sfx_parameters() {
    let err = validate_sfx(260, 0, 1).unwrap_err();
    assert_eq!(err.code, 2);
    assert!(validate_sfx(260, 44_100, 1).is_ok());
    assert_eq!(validate_sfx(0, 44_100, 1).unwrap_err().message, "--duration-ms must be greater than 0");
    assert_eq!(validate_sfx(10, 44_100, 0).unwrap_err().message, "--variations must be greater than 0");
}

#[test]
fn require_wav_extension_rejects_mp3() {
    assert!(require_wav_extension("song.mp3").is_err());
    assert!(require_wav_extension("clip.wav").is_ok());
    assert!(require_wav_extension("CLIP.WAV").is_ok());
    let err = require_wav_extension("noext").unwrap_err();
    assert_eq!(err.code, 3);
    assert!(err.message.contains("'no extension'"));
}

#[test]
fn read_prompt_rejects_empty_and_whitespace_text() {
    assert!(read_prompt(None, Some("")).is_err());
    assert!(read_prompt(None, Some("   \n\t ")).is_err());
    assert_eq!(read_prompt(None, Some("")).unwrap_err().code, 2);
    assert_eq!(read_prompt(None, Some(" hi ")).unwrap(), " hi ");
}

#[test]
fn read_prompt_rejects_empty_file() {
    let f = PromptFile { path: "empty.md".to_string(), content: Ok("   \n".to_string()) };
    let err = read_prompt(Some(f), None).unwrap_err();
    assert_eq!(err.code, 2);
    assert_eq!(err.message, "prompt file is empty: empty.md");
}

#[test]
fn read_prompt_source_rules() {
    let f = PromptFile { path: "p.md".to_string(), content: Ok("x".to_string()) };
    assert_eq!(read_prompt(Some(f), Some("y")).unwrap_err().code, 2);
    assert_eq!(read_prompt(None, None).unwrap_err().message, "prompt is required");
    let f = PromptFile { path: "p.md".to_string(), content: Err("denied".to_string()) };
    let err = read_prompt(Some(f), None).unwrap_err();
    assert_eq!((err.code, err.message.as_str()), (3, "p.md: denied"));
    let f = PromptFile { path: "p.md".to_string(), content: Ok("\u{3000}a castle\n".to_string()) };
    assert_eq!(read_prompt(Some(f), None).unwrap(), "\u{3000}a castle\n");
}

#[test]
fn existing_outputs_are_refused_without_overwrite() {
    let err = check_output_available("a.png", true, false).unwrap_err();
    assert_eq!((err.code, err.message.as_str()), (4, "output exists: a.png"));
    assert!(check_output_available("a.png", true, true).is_ok());
    assert!(check_output_available("a.png", false, false).is_ok());
}

#[test]
fn sfx_variations_are_numbered_and_seeded() {
    let one = sfx_targets(SfxPreset::Coin, 1, 7, Some("c.wav"), None).unwrap();
    assert_eq!(one.len(), 1);
    assert_eq!((one[0].name.as_str(), one[0].seed), ("c.wav", 7));
    let many = sfx_targets(SfxPreset::Coin, 2, u64::MAX, None, Some("out")).unwrap();
    assert_eq!(many[0].name, "coin_01.wav");
    assert_eq!(many[1].name, "coin_02.wav");
    assert_eq!(many[0].seed, u64::MAX);
    assert_eq!(many[1].seed, 0);
    assert_eq!(sfx_targets(SfxPreset::Hit, 3, 0, None, None).unwrap_err().code, 2);
    assert_eq!(sfx_targets(SfxPreset::Hit, 1, 0, None, Some("d")).unwrap_err().code, 2);
}

#[test]
fn trim_clamps_to_the_input() {
    let v: Vec<i32> = (0..10).collect();
    assert_eq!(trim_samples(&v, 2, 5), vec![2, 3, 4]);
    assert_eq!(trim_samples(&v, 8, 50), vec![8, 9]);
    assert!(trim_samples(&v, 20, 30).is_empty());
}

#[test]
fn frame_counts_and_yield() {
    assert!(validate_frame_count(1).is_ok());
    assert!(validate_frame_count(64).is_ok());
    assert_eq!(validate_frame_count(65).unwrap_err().code, 2);
    assert_eq!(validate_frame_count(0).unwrap_err().code, 2);
    assert_eq!(check_frame_yield(8, 0).unwrap_err().code, 6);
    assert!(matches!(check_frame_yield(8, 5), Ok(FrameYield::Short)));
    assert!(matches!(check_frame_yield(8, 8), Ok(FrameYield::Complete)));
}

#[test]
fn key_modes() {
    assert!(matches!(parse_key_mode(None), Ok(None)));
    assert!(matches!(parse_key_mode(Some("auto")), Ok(Some(KeyMode::Auto))));
    assert!(matches!(parse_key_mode(Some("#00ff00")), Ok(Some(KeyMode::Fixed([0, 255, 0])))));
    assert_eq!(parse_key_mode(Some("green")).unwrap_err().code, 2);
}

#[test]
fn bgm_rules() {
    let ok = plan_bgm("m.mp3", false, false, 44_100, 256_000, None, Some("calm"), None, None, true, false).unwrap();
    assert_eq!(ok.prompt, "calm");
    assert!(ok.lyrics.is_none());
    let err = plan_bgm("m.mp3", false, false, 44_100, 256_000, None, Some("calm"), None, None, false, false).unwrap_err();
    assert_eq!((err.code, err.message.as_str()), (2, "vocals require --lyrics/--lyrics-text or --lyrics-optimizer"));
    assert_eq!(plan_bgm("m.mp3", true, false, 44_100, 1, None, Some("calm"), None, None, true, false).unwrap_err().code, 4);
}

#[test]
fn bgm_reply_decodes_hex_audio() {
    assert_eq!(decode_bgm_reply(true, "200 OK", "{}", Some(0), Some("49443303")).unwrap(), vec![0x49, 0x44, 0x33, 0x03]);
    assert_eq!(decode_bgm_reply(true, "200 OK", "{}", None, Some("ff00")).unwrap(), vec![0xff, 0x00]);
    let err = decode_bgm_reply(true, "200 OK", "{}", None, Some("abc")).unwrap_err();
    assert_eq!(err.code, 6);
    assert!(err.message.starts_with("decode hex audio: "));
    let err = decode_bgm_reply(false, "500 Internal Server Error", "boom", None, None).unwrap_err();
    assert_eq!(err.message, "MiniMax HTTP 500 Internal Server Error: boom");
    let err = decode_bgm_reply(true, "200 OK", "{\"x\":1}", Some(1004), Some("00")).unwrap_err();
    assert_eq!(err.message, "MiniMax error: {\"x\":1}");
    let err = decode_bgm_reply(true, "200 OK", "{}", Some(0), None).unwrap_err();
    assert_eq!(err.message, "MiniMax response missing data.audio");
}

#[test]
fn manifest_single_file_uses_file_name() {
    assert_eq!(manifest_path("", Some("solo.wav")), "solo.wav");
    assert_eq!(manifest_path("", None), "file");
    assert_eq!(manifest_path("sub\\a.png", Some("a.png")), "sub/a.png");
}

#[test]
fn manifest_entry_hashes_contents() {
    let e = manifest_entry("sfx/abc.WAV", None, "/data/sfx/abc.WAV", b"abc");
    assert_eq!(e.path, "sfx/abc.WAV");
    assert_eq!(e.kind, "audio");
    assert_eq!(e.bytes, 3);
    assert_eq!(e.sha256, "ba7816bf8f01cfea414140de5dae2223b00361a396177a9cb410ff61f20015ad");
    assert_eq!(hex_lower(&[0x00, 0x0f, 0xa0, 0xff]), "000fa0ff");
}

fn entry(path: &str, bytes: u64) -> ManifestEntry {
    ManifestEntry { path: path.to_string(), kind: "file".to_string(), bytes, sha256: String::new() }
}

#[test]
fn manifest_entries_sort_by_path_stably() {
    let sorted = sort_entries(vec![entry("b", 1), entry("a/z", 2), entry("B", 3), entry("a", 4), entry("b", 5)]);
    let got: Vec<(&str, u64)> = sorted.iter().map(|e| (e.path.as_str(), e.bytes)).collect();
    assert_eq!(got, vec![("B", 3), ("a", 4), ("a/z", 2), ("b", 1), ("b", 5)]);
    assert!(sort_entries(Vec::new()).is_empty());
}

#[test]
fn kinds_by_extension() {
    assert_eq!(kind_from_ext("x/y.PNG"), "image");
    assert_eq!(kind_from_ext("a.yml"), "metadata");
    assert_eq!(kind_from_ext("a.webm"), "video");
    assert_eq!(kind_from_ext("README"), "file");
    assert!(is_frame_file("out/frame_001.png"));
    assert!(!is_frame_file("out/sheet.png"));
    assert_eq!(temp_file_name("dir/hero.png", 42), ".hero.42.png");
    assert_eq!(temp_file_name("dir/notes", 7), ".notes.7.tmp");
}

#[test]
fn anchors_place_the_image() {
    assert_eq!(anchor_offset(Anchor::Center, 64, 64, 32, 16), (16, 24));
    assert_eq!(anchor_offset(Anchor::BottomCenter, 64, 64, 32, 16), (16, 48));
    assert_eq!(anchor_offset(Anchor::TopLeft, 64, 64, 32, 16), (0, 0));
    assert_eq!(anchor_offset(Anchor::Center, 10, 10, 30, 30), (0, 0));
}

#[test]
fn xorshift_steps() {
    let mut g = XorShift64(1);
    assert_eq!(g.next_u64(), 1082269761);
    assert_eq!(g.0, 1082269761);
    assert_ne!(g.next_u64(), 0);
}

#[test]
fn sandbox_setting() {
    assert_eq!(codex_sandbox(None).unwrap(), "workspace-write");
    assert_eq!(codex_sandbox(Some("read-only")).unwrap(), "read-only");
    assert_eq!(codex_sandbox(Some("full")).unwrap_err().code, 2);
}

fn obs(exited: Option<bool>, candidate: Option<(&str, Option<u64>)>, timed_out: bool) -> PollObservation {
    PollObservation {
        exited,
        stderr_last: Some("boom".to_string()),
        candidate: candidate.map(|(p, s)| (p.to_string(), s)),
        timed_out,
    }
}

#[test]
fn polling_waits_for_a_steady_image() {
    let (a, last) = poll_step(None, obs(None, Some(("x.png", Some(100))), false), 30);
    assert!(matches!(a, Ok(PollAction::Wait)));
    assert_eq!(last, Some(("x.png".to_string(), 100)));
    let (a, _) = poll_step(last.clone(), obs(None, Some(("x.png", Some(100))), false), 30);
    assert!(matches!(a, Ok(PollAction::Stop)));
    let (a, l2) = poll_step(last, obs(None, Some(("x.png", Some(120))), true), 30);
    let err = a.unwrap_err();
    assert_eq!((err.code, err.message.as_str()), (6, "codex-image timed out after 30s"));
    assert_eq!(l2, Some(("x.png".to_string(), 120)));
    let (a, _) = poll_step(None, obs(Some(false), None, false), 30);
    assert_eq!(a.unwrap_err().message, "codex failed: boom");
    let (a, _) = poll_step(Some(("x.png".to_string(), 100)), obs(Some(false), Some(("x.png", Some(100))), false), 30);
    let err = a.unwrap_err();
    assert_eq!((err.code, err.message.as_str()), (6, "codex failed: boom"));
    let (a, _) = poll_step(None, obs(Some(true), None, false), 30);
    assert!(matches!(a, Ok(PollAction::Exited)));
}

#[test]
fn generated_png_checks() {
    let mut png = vec![0x89, b'P', b'N', b'G', b'\r', b'\n', 0x1a, b'\n'];
    assert_eq!(validate_generated_png(&png).unwrap_err().message, "generated PNG is implausibly small (8 bytes)");
    png.resize(67, 0);
    assert!(validate_generated_png(&png).is_ok());
    assert_eq!(validate_generated_png(b"GIF89a").unwrap_err().code, 7);
    assert_eq!(size_mismatch_warning(Some((64, 64)), (32, 64)).unwrap(), "provider returned 32x64 but --size requested 64x64");
    assert!(size_mismatch_warning(Some((64, 64)), (64, 64)).is_none());
    assert!(size_mismatch_warning(None, (64, 64)).is_none());
}

#[test]
fn newest_fresh_image_is_picked() {
    assert_eq!(pick_newest(&[Some(5)], 10), None);
    assert_eq!(pick_newest(&[Some(5), None, Some(12)], 10), Some(2));
    assert_eq!(pick_newest(&[Some(20), Some(12), Some(20), Some(15)], 10), Some(2));
    assert_eq!(pick_newest(&[], 0), None);
}

#[test]
fn output_lines() {
    assert_eq!(last_line("a\nb\r\n"), Some("b"));
    assert_eq!(last_line(""), None);
    assert_eq!(first_line("codex 1.2\nmore"), Some("codex 1.2"));
    assert_eq!(first_line("v1\r\n"), Some("v1"));
    assert_eq!(first_line("\n"), Some(""));
    assert_eq!(first_line(""), None);
}

#[test]
fn doctor_report_lines() {
    let f = DoctorFindings {
        codex: None,
        codex_version: Some("codex 0.9".to_string()),
        codex_exec: false,
        sandbox: "open".to_string(),
        ffmpeg: Some("/usr/bin/ffmpeg".to_string()),
        minimax_key: true,
        temp_dir_writable: true,
    };
    assert_eq!(
        doctor_lines(&f),
        vec![
            "codex: missing",
            "codex version: codex 0.9",
            "codex exec: unavailable",
            "codex image probe: not run",
            "CODEX_SANDBOX: open (invalid)",
            "ffmpeg: /usr/bin/ffmpeg",
            "MINIMAX_API_KEY: set",
            "temp dir writable: yes",
        ]
    );
}

#[test]
fn start_event_waits_for_the_next_event() {
    let mut q: EventQueue<u32> = EventQueue::new();
    assert!(q.event("start", 1).is_empty());
    let out = q.event("artifact", 2);
    assert_eq!(out, vec![("start".to_string(), 1), ("artifact".to_string(), 2)]);
    assert_eq!(q.event("warning", 3), vec![("warning".to_string(), 3)]);
    assert_eq!(command_label(&CommandTarget::Manifest { out: "m.json".to_string() }), ("manifest".to_string(), Some("m.json".to_string())));
    assert_eq!(
        command_label(&CommandTarget::AudioSfx { out: None, out_dir: Some("d".to_string()) }),
        ("audio.sfx".to_string(), Some("d".to_string()))
    );
    assert_eq!(command_label(&CommandTarget::Doctor), ("doctor".to_string(), None));
}

#[test]
fn human_log_lines() {
    let f = EventFields { path: Some("a.png".to_string()), provider: None, dry_run: None, timeout_seconds: None, message: None };
    assert_eq!(human_line("artifact", &f).unwrap(), "wrote a.png");
    let f = EventFields { path: None, provider: Some("codex-image".to_string()), dry_run: None, timeout_seconds: Some(600), message: None };
    assert_eq!(human_line("provider_request", &f).unwrap(), "running codex-image (timeout 600s)");
    assert!(human_line("start", &f).is_none());
}

fn asset(name: Option<&str>, url: Option<&str>) -> ReleaseAsset {
    ReleaseAsset { name: name.map(str::to_string), url: url.map(str::to_string) }
}

#[test]
fn upgrade_plans() {
    let assets = vec![
        asset(Some("game-asset-aarch64-apple-darwin.tar.gz"), Some("u1")),
        asset(None, Some("u0")),
        asset(Some("game-asset-x86_64-unknown-linux-gnu.tar.gz"), Some("u2")),
    ];
    assert_eq!(select_asset(&assets, "x86_64-unknown-linux-gnu"), Some(2));
    assert_eq!(select_asset(&assets, "riscv"), None);
    let p = plan_upgrade("0.1.0", "x86_64-unknown-linux-gnu", Some("v0.2.0"), &assets, false, false).unwrap();
    assert_eq!((p.tag.as_str(), p.latest.as_str(), p.newer), ("v0.2.0", "0.2.0", true));
    assert_eq!(p.step, UpgradeStep::Install);
    assert_eq!(p.asset, Some(("game-asset-x86_64-unknown-linux-gnu.tar.gz".to_string(), "u2".to_string())));
    let p = plan_upgrade("0.2.0", "x86_64-unknown-linux-gnu", Some("v0.2.0"), &assets, false, false).unwrap();
    assert_eq!(p.step, UpgradeStep::UpToDate);
    let p = plan_upgrade("0.2.0", "riscv", Some("v0.2.0"), &assets, true, false).unwrap();
    assert_eq!(p.step, UpgradeStep::Report);
    let err = plan_upgrade("0.1.0", "riscv", Some("v0.2.0"), &assets, false, false).unwrap_err();
    assert_eq!(err.message, "release v0.2.0 has no asset for target riscv");
    assert_eq!(plan_upgrade("0.1.0", "riscv", None, &assets, false, false).unwrap_err().message, "release is missing tag_name");
    let bad = vec![asset(Some("x-riscv"), None)];
    assert_eq!(plan_upgrade("0.1.0", "riscv", Some("1.0"), &bad, false, true).unwrap_err().message, "asset is missing its API url");
}

#[test]
fn sfx_variation_seed_does_not_overflow() {
    let targets = sfx_targets(SfxPreset::Coin, 2, u64::MAX, None, Some("out")).unwrap();
    assert_eq!(targets.len(), 2);
    assert_eq!(targets[0].seed, u64::MAX);
    assert_eq!(targets[1].seed, 0);
}

#[test]
fn newest_generated_png_ignores_stale_and_picks_fresh() {
    // "old.png" was written before the cutoff; nothing fresh yet.
    let cutoff = 1_000u128;
    assert_eq!(pick_newest(&[Some(500)], cutoff), None);
    // "sub/new.png" appears after the cutoff and is picked.
    assert_eq!(pick_newest(&[Some(500), Some(1_200)], cutoff), Some(1));
}

#[test]
fn hex_decode_errors_name_the_problem() {
    let err = decode_bgm_reply(true, "200 OK", "{}", None, Some("abc")).unwrap_err();
    assert_eq!(err.message, "decode hex audio: Odd number of digits");
    let err = decode_bgm_reply(true, "200 OK", "{}", None, Some("00zz")).unwrap_err();
    assert_eq!(err.message, "decode hex audio: Invalid character 'z' at position 2");
}

fn png_bytes(img: &image::RgbaImage) -> Vec<u8> {
    let mut buf = std::io::Cursor::new(Vec::new());
    img.write_to(&mut buf, image::ImageFormat::Png).unwrap();
    buf.into_inner()
}

#[test]
fn generated_images_are_decoded_and_checked() {
    let mut img = image::RgbaImage::from_pixel(16, 8, image::Rgba([0, 255, 0, 255]));
    img.put_pixel(3, 3, image::Rgba([200, 10, 10, 255]));
    let bytes = png_bytes(&img);
    assert!(bytes.len() >= 67);
    let g = inspect_generated(&bytes, Some((16, 16)), Some([0, 255, 0])).unwrap();
    assert_eq!((g.width, g.height), (16, 8));
    assert_eq!(g.size_warning.unwrap(), "provider returned 16x8 but --size requested 16x16");
    assert!(g.background_warning.is_none());
    let g = inspect_generated(&bytes, None, None).unwrap();
    assert!(g.size_warning.is_none());
    assert!(g.background_warning.is_none());
    let flat = png_bytes(&image::RgbaImage::from_pixel(64, 64, image::Rgba([9, 9, 9, 255])));
    let g = inspect_generated(&flat, Some((64, 64)), None).unwrap();
    assert_eq!(g.background_warning.unwrap(), "generated image is a single flat color; it may be blank or a failed render");
    let g = inspect_generated(&flat, None, Some([0, 255, 0])).unwrap();
    assert_eq!(
        g.background_warning.unwrap(),
        "generated green-source image does not appear to contain a solid key-color background"
    );
    let mut broken = bytes[..8].to_vec();
    broken.extend(std::iter::repeat(0u8).take(70));
    let err = inspect_generated(&broken, None, None).unwrap_err();
    assert_eq!(err.code, 7);
    assert!(err.message.starts_with("generated file is not a decodable image: "));
    assert_eq!(inspect_generated(b"not a png at all, just some text that is long enough to pass the size check.", None, None).unwrap_err().message, "generated file is not a PNG (missing PNG signature)");
}
