//! The checks and decisions of each command, in the order the command
//! makes them, on values its caller has already read.
use vstd::prelude::*;
use crate::error::{CliError, outcome};
use crate::external::{hex_decode, hex_decode_spec, hex_error_message};
use vstd::utf8::encode_utf8;
use crate::instruction::{
    green_lines, image_instruction, instruction_spec, opt_view, size_lines, style_lines, target_format, target_name,
};
use crate::kinds::{green_kind_name, green_kind_text, image_kind_name, image_kind_text, preset_name, preset_text, GreenKind, ImageKind, SfxPreset};
use crate::number::{lemma_padded_decimal_value, push_decimal, push_padded};
use crate::parse::{hex_color_outcome, parse_hex_color, parse_size, positive_message, sample_rate_range_message, size_outcome, validate_positive_u32, validate_sample_rate, validate_timeout, MAX_SAMPLE_RATE};
use crate::prompt::{check_output_available, prompt_outcome, read_prompt, string_outcome, text_view, PromptFile};
use crate::text::{contains_seq, decimal, lemma_middle_eq, occurs_at, str_eq, zero_padded};

verus! {

pub open spec fn out_exists_error(out: Seq<char>) -> (i32, Seq<char>) {
    (4, "output exists: "@ + out)
}

/// What `image generate` hands the provider: the instruction and the
/// requested canvas size.
#[derive(Debug)]
pub struct ImagePlan {
    pub instruction: String,
    pub size: Option<(u32, u32)>,
}

pub open spec fn style_view(style: Option<Result<String, String>>) -> Option<Seq<char>> {
    match style {
        Some(Ok(s)) => Some(s@),
        _ => None,
    }
}

/// The checks of `image generate`, in order: the output, the timeout, the
/// prompt, the style file, the size; then the instruction.
pub open spec fn image_generate_outcome(
    kind: ImageKind,
    out: Seq<char>,
    out_exists: bool,
    overwrite: bool,
    timeout_seconds: u64,
    prompt_file: Option<PromptFile>,
    prompt_text: Option<Seq<char>>,
    style: Option<Result<String, String>>,
    size: Option<Seq<char>>,
) -> Result<(Seq<char>, Option<(u32, u32)>), (i32, Seq<char>)> {
    if out_exists && !overwrite {
        Err(out_exists_error(out))
    } else if timeout_seconds == 0 {
        Err((2, "--timeout-seconds must be greater than 0"@))
    } else {
        match prompt_outcome(prompt_file, prompt_text) {
            Err(e) => Err(e),
            Ok(p) => match style {
                Some(Err(e)) => Err((3, e@)),
                _ => {
                    let sz = match size {
                        None => Ok(None),
                        Some(z) => match size_outcome(z) {
                            Ok(wh) => Ok(Some(wh)),
                            Err(e) => Err(e),
                        },
                    };
                    match sz {
                        Err(e) => Err(e),
                        Ok(sz) => Ok(
                            (
                                instruction_spec(
                                    image_kind_text(kind),
                                    p,
                                    style_view(style),
                                    sz,
                                    false,
                                    "#00FF00"@,
                                    out,
                                ),
                                sz,
                            ),
                        ),
                    }
                },
            },
        }
    }
}

pub open spec fn image_plan_view(r: Result<ImagePlan, CliError>) -> Result<(Seq<char>, Option<(u32, u32)>), (i32, Seq<char>)> {
    match r {
        Ok(p) => Ok((p.instruction@, p.size)),
        Err(e) => Err((e.code, e.message@)),
    }
}

/// Everything `image generate` decides before calling the provider.
pub fn plan_image_generate(
    kind: ImageKind,
    out: &str,
    out_exists: bool,
    overwrite: bool,
    timeout_seconds: u64,
    prompt_file: Option<PromptFile>,
    prompt_text: Option<&str>,
    style: Option<Result<String, String>>,
    size: Option<&str>,
) -> (r: Result<ImagePlan, CliError>)
    ensures
        image_plan_view(r) == image_generate_outcome(
            kind,
            out@,
            out_exists,
            overwrite,
            timeout_seconds,
            prompt_file,
            text_view(prompt_text),
            style,
            text_view(size),
        ),
{
    let ghost pf = prompt_file;
    check_output_available(out, out_exists, overwrite)?;
    validate_timeout(timeout_seconds)?;
    let prompt = read_prompt(prompt_file, prompt_text)?;
    let style_text: Option<String> = match style {
        Some(Err(e)) => return Err(CliError::new(3, e)),
        Some(Ok(s)) => Some(s),
        None => None,
    };
    let sz = match size {
        Some(z) => Some(parse_size(z)?),
        None => None,
    };
    let st: Option<&str> = match &style_text {
        Some(s) => Some(s.as_str()),
        None => None,
    };
    let instruction = image_instruction(image_kind_name(&kind), prompt.as_str(), st, sz, false, "#00FF00", out);
    Ok(ImagePlan { instruction, size: sz })
}

/// What `image green-source` hands the provider: the instruction and the
/// key color the result is checked against.
#[derive(Debug)]
pub struct GreenPlan {
    pub instruction: String,
    pub key: [u8; 3],
}

/// The checks of `image green-source`, in order: the output, the timeout,
/// the key color, the prompt; then the instruction.
pub open spec fn green_source_outcome(
    kind: GreenKind,
    out: Seq<char>,
    out_exists: bool,
    overwrite: bool,
    timeout_seconds: u64,
    key_color: Seq<char>,
    prompt_file: Option<PromptFile>,
    prompt_text: Option<Seq<char>>,
) -> Result<(Seq<char>, Seq<u8>), (i32, Seq<char>)> {
    if out_exists && !overwrite {
        Err(out_exists_error(out))
    } else if timeout_seconds == 0 {
        Err((2, "--timeout-seconds must be greater than 0"@))
    } else {
        match hex_color_outcome(key_color) {
            Err(e) => Err(e),
            Ok(key) => match prompt_outcome(prompt_file, prompt_text) {
                Err(e) => Err(e),
                Ok(p) => Ok(
                    (
                        instruction_spec(green_kind_text(kind), p, None, None, true, key_color, out),
                        key,
                    ),
                ),
            },
        }
    }
}

pub open spec fn green_plan_view(r: Result<GreenPlan, CliError>) -> Result<(Seq<char>, Seq<u8>), (i32, Seq<char>)> {
    match r {
        Ok(p) => Ok((p.instruction@, p.key@)),
        Err(e) => Err((e.code, e.message@)),
    }
}

/// Everything `image green-source` decides before calling the provider.
pub fn plan_green_source(
    kind: GreenKind,
    out: &str,
    out_exists: bool,
    overwrite: bool,
    timeout_seconds: u64,
    key_color: &str,
    prompt_file: Option<PromptFile>,
    prompt_text: Option<&str>,
) -> (r: Result<GreenPlan, CliError>)
    ensures
        green_plan_view(r) == green_source_outcome(
            kind,
            out@,
            out_exists,
            overwrite,
            timeout_seconds,
            key_color@,
            prompt_file,
            text_view(prompt_text),
        ),
{
    check_output_available(out, out_exists, overwrite)?;
    validate_timeout(timeout_seconds)?;
    let key = parse_hex_color(key_color)?;
    let prompt = read_prompt(prompt_file, prompt_text)?;
    let instruction = image_instruction(green_kind_name(&kind), prompt.as_str(), None, None, true, key_color, out);
    Ok(GreenPlan { instruction, key })
}

/// The prompt and lyrics of a background music request.
#[derive(Debug)]
pub struct BgmPlan {
    pub prompt: String,
    pub lyrics: Option<String>,
}

/// The checks of `audio bgm`, in order: the output, the sample rate, the
/// bitrate, the prompt, the lyrics (when any source is given), and the rule
/// that vocals need lyrics or the lyrics optimizer.
pub open spec fn bgm_outcome(
    out: Seq<char>,
    out_exists: bool,
    overwrite: bool,
    sample_rate: u32,
    bitrate: u32,
    prompt_file: Option<PromptFile>,
    prompt_text: Option<Seq<char>>,
    lyrics_file: Option<PromptFile>,
    lyrics_text: Option<Seq<char>>,
    instrumental: bool,
    lyrics_optimizer: bool,
) -> Result<(Seq<char>, Option<Seq<char>>), (i32, Seq<char>)> {
    if out_exists && !overwrite {
        Err(out_exists_error(out))
    } else if sample_rate == 0 {
        Err((2, positive_message("--sample-rate"@)))
    } else if sample_rate > MAX_SAMPLE_RATE {
        Err((2, sample_rate_range_message()))
    } else if bitrate == 0 {
        Err((2, positive_message("--bitrate"@)))
    } else {
        match prompt_outcome(prompt_file, prompt_text) {
            Err(e) => Err(e),
            Ok(p) => {
                let lyrics = if lyrics_file is Some || lyrics_text is Some {
                    match prompt_outcome(lyrics_file, lyrics_text) {
                        Ok(l) => Ok(Some(l)),
                        Err(e) => Err(e),
                    }
                } else {
                    Ok(None)
                };
                match lyrics {
                    Err(e) => Err(e),
                    Ok(l) => if !instrumental && l is None && !lyrics_optimizer {
                        Err((2, "vocals require --lyrics/--lyrics-text or --lyrics-optimizer"@))
                    } else {
                        Ok((p, l))
                    },
                }
            },
        }
    }
}

pub open spec fn bgm_plan_view(r: Result<BgmPlan, CliError>) -> Result<(Seq<char>, Option<Seq<char>>), (i32, Seq<char>)> {
    match r {
        Ok(p) => Ok(
            (
                p.prompt@,
                match p.lyrics {
                    Some(l) => Some(l@),
                    None => None,
                },
            ),
        ),
        Err(e) => Err((e.code, e.message@)),
    }
}

/// Everything `audio bgm` decides before calling the music provider.
pub fn plan_bgm(
    out: &str,
    out_exists: bool,
    overwrite: bool,
    sample_rate: u32,
    bitrate: u32,
    prompt_file: Option<PromptFile>,
    prompt_text: Option<&str>,
    lyrics_file: Option<PromptFile>,
    lyrics_text: Option<&str>,
    instrumental: bool,
    lyrics_optimizer: bool,
) -> (r: Result<BgmPlan, CliError>)
    ensures
        bgm_plan_view(r) == bgm_outcome(
            out@,
            out_exists,
            overwrite,
            sample_rate,
            bitrate,
            prompt_file,
            text_view(prompt_text),
            lyrics_file,
            text_view(lyrics_text),
            instrumental,
            lyrics_optimizer,
        ),
{
    check_output_available(out, out_exists, overwrite)?;
    validate_sample_rate(sample_rate)?;
    validate_positive_u32("--bitrate", bitrate)?;
    let prompt = read_prompt(prompt_file, prompt_text)?;
    let lyrics = if lyrics_file.is_some() || lyrics_text.is_some() {
        Some(read_prompt(lyrics_file, lyrics_text)?)
    } else {
        None
    };
    if !instrumental && lyrics.is_none() && !lyrics_optimizer {
        return Err(CliError::with_text(2, "vocals require --lyrics/--lyrics-text or --lyrics-optimizer"));
    }
    Ok(BgmPlan { prompt, lyrics })
}

/// What the music provider's reply yields: the audio bytes, decoded from
/// hex, or an error with exit code 6.
pub open spec fn bgm_reply_outcome(
    http_ok: bool,
    status: Seq<char>,
    body: Seq<char>,
    status_code: Option<i64>,
    audio_hex: Option<Seq<char>>,
) -> Option<Result<Seq<u8>, (i32, Seq<char>)>> {
    if !http_ok {
        Some(Err((6, "MiniMax HTTP "@ + status + ": "@ + body)))
    } else if (match status_code {
        Some(c) => c,
        None => 0,
    }) != 0 {
        Some(Err((6, "MiniMax error: "@ + body)))
    } else {
        match audio_hex {
            None => Some(Err((6, "MiniMax response missing data.audio"@))),
            Some(h) => match hex_decode_spec(vstd::utf8::encode_utf8(h)) {
                Some(bytes) => Some(Ok(bytes)),
                // the message carries the decoder's own description
                None => None,
            },
        }
    }
}

/// Interprets the music provider's reply: the HTTP status, the provider's
/// own status code (`base_resp.status_code`, 0 when absent) and the
/// hex-encoded audio (`data.audio`).
pub fn decode_bgm_reply(
    http_ok: bool,
    status: &str,
    body: &str,
    status_code: Option<i64>,
    audio_hex: Option<&str>,
) -> (r: Result<Vec<u8>, CliError>)
    ensures
        match bgm_reply_outcome(http_ok, status@, body@, status_code, text_view(audio_hex)) {
            Some(Ok(bytes)) => r matches Ok(v) && v@ == bytes,
            Some(Err(e)) => r matches Err(x) && (x.code, x.message@) == e,
            None => r matches Err(x) && x.code == 6 && x.message@.len() >= "decode hex audio: "@.len()
                && x.message@.take("decode hex audio: "@.len() as int) == "decode hex audio: "@
                && hex_error_message(
                encode_utf8(audio_hex.unwrap()@),
                x.message@.skip("decode hex audio: "@.len() as int),
            ),
        },
{
    if !http_ok {
        let mut m = String::from_str("MiniMax HTTP ");
        m.append(status);
        m.append(": ");
        m.append(body);
        return Err(CliError::new(6, m));
    }
    let code = match status_code {
        Some(c) => c,
        None => 0,
    };
    if code != 0 {
        let mut m = String::from_str("MiniMax error: ");
        m.append(body);
        return Err(CliError::new(6, m));
    }
    let h = match audio_hex {
        Some(h) => h,
        None => return Err(CliError::with_text(6, "MiniMax response missing data.audio")),
    };
    match hex_decode(h.as_bytes()) {
        Ok(bytes) => Ok(bytes),
        Err(t) => {
            let mut m = String::from_str("decode hex audio: ");
            let ghost prefix = m@;
            m.append(t.as_str());
            assert(m@.take(prefix.len() as int) =~= prefix);
            assert(m@.skip(prefix.len() as int) =~= t@);
            Err(CliError::new(6, m))
        },
    }
}

/// Checks the numeric options of `audio sfx` that are integers, in order:
/// duration, sample rate, variation count.
pub fn validate_sfx(duration_ms: u32, sample_rate: u32, variations: u32) -> (r: Result<(), CliError>)
    ensures
        duration_ms == 0 ==> outcome(r) == Err::<(), _>((2i32, positive_message("--duration-ms"@))),
        duration_ms > 0 && sample_rate == 0 ==> outcome(r) == Err::<(), _>(
            (2i32, positive_message("--sample-rate"@)),
        ),
        duration_ms > 0 && sample_rate > MAX_SAMPLE_RATE ==> outcome(r) == Err::<(), _>(
            (2i32, sample_rate_range_message()),
        ),
        duration_ms > 0 && 1 <= sample_rate <= MAX_SAMPLE_RATE && variations == 0 ==> outcome(r) == Err::<
            (),
            _,
        >((2i32, positive_message("--variations"@))),
        duration_ms > 0 && 1 <= sample_rate <= MAX_SAMPLE_RATE && variations > 0 ==> r is Ok,
{
    validate_positive_u32("--duration-ms", duration_ms)?;
    validate_sample_rate(sample_rate)?;
    validate_positive_u32("--variations", variations)?;
    Ok(())
}

/// One sound effect file to render: where it goes (the output path, or a
/// file name inside the output directory) and its seed.
#[derive(Debug)]
pub struct SfxTarget {
    pub name: String,
    pub seed: u64,
}

/// The numbered name of variation `i` (counting from 0) of a preset:
/// `coin_01.wav`, `coin_02.wav`, ...
pub open spec fn variation_name(p: SfxPreset, i: nat) -> Seq<char> {
    preset_text(p) + "_"@ + zero_padded(decimal(i + 1), 2) + ".wav"@
}

pub open spec fn targets_view(v: Seq<SfxTarget>) -> Seq<(Seq<char>, u64)> {
    v.map_values(|t: SfxTarget| (t.name@, t.seed))
}

/// The files of `audio sfx`: one file at `--out` with the given seed, or,
/// for several variations, numbered files in `--out-dir` whose seeds count
/// up from the given seed (wrapping around).
pub fn sfx_targets(preset: SfxPreset, variations: u32, seed: u64, out: Option<&str>, out_dir: Option<&str>) -> (r: Result<
    Vec<SfxTarget>,
    CliError,
>)
    ensures
        variations <= 1 && out is None ==> outcome(r) == Err::<Vec<SfxTarget>, _>(
            (2i32, "--out is required when --variations is 1"@),
        ),
        variations <= 1 && out is Some ==> (r matches Ok(v) && targets_view(v@) == seq![(out.unwrap()@, seed)]),
        variations > 1 && out_dir is None ==> outcome(r) == Err::<Vec<SfxTarget>, _>(
            (2i32, "--out-dir is required when --variations > 1"@),
        ),
        variations > 1 && out_dir is Some ==> (r matches Ok(v) && targets_view(v@) == Seq::new(
            variations as nat,
            |i: int| (variation_name(preset, i as nat), seed.wrapping_add(i as u64)),
        )),
{
    if variations <= 1 {
        let out = match out {
            Some(o) => o,
            None => return Err(CliError::with_text(2, "--out is required when --variations is 1")),
        };
        let mut v: Vec<SfxTarget> = Vec::new();
        v.push(SfxTarget { name: String::from_str(out), seed });
        assert(targets_view(v@) =~= seq![(out@, seed)]);
        return Ok(v);
    }
    if out_dir.is_none() {
        return Err(CliError::with_text(2, "--out-dir is required when --variations > 1"));
    }
    let mut v: Vec<SfxTarget> = Vec::new();
    let mut i: u32 = 0;
    while i < variations
        invariant
            i <= variations,
            targets_view(v@) =~= Seq::new(
                i as nat,
                |k: int| (variation_name(preset, k as nat), seed.wrapping_add(k as u64)),
            ),
        decreases variations - i,
    {
        let mut name = String::from_str(preset_name(preset));
        name.append("_");
        push_padded(&mut name, i as u64 + 1, 2);
        name.append(".wav");
        assert(name@ =~= variation_name(preset, i as nat));
        let ghost old_v = v@;
        let t = SfxTarget { name, seed: seed.wrapping_add(i as u64) };
        let ghost tv = (t.name@, t.seed);
        v.push(t);
        assert(targets_view(v@) =~= targets_view(old_v).push(tv));
        i = i + 1;
    }
    Ok(v)
}

/// The samples from `start` to `end`, both clamped to the input.
pub fn trim_samples<T: Copy>(samples: &Vec<T>, start: usize, end: usize) -> (r: Vec<T>)
    requires
        start <= end,
    ensures
        ({
            let s = if start <= samples@.len() { start as int } else { samples@.len() as int };
            let e = if end <= samples@.len() { end as int } else { samples@.len() as int };
            r@ == samples@.subrange(s, e)
        }),
{
    let n = samples.len();
    let s = if start <= n { start } else { n };
    let e = if end <= n { end } else { n };
    let mut r: Vec<T> = Vec::new();
    let mut i = s;
    while i < e
        invariant
            s <= i <= e <= n,
            n == samples@.len(),
            r@ =~= samples@.subrange(s as int, i as int),
        decreases e - i,
    {
        r.push(samples[i]);
        i = i + 1;
    }
    r
}

/// How `video slice` keys the extracted frames.
#[derive(Clone, Copy, Debug)]
pub enum KeyMode {
    Auto,
    Fixed([u8; 3]),
}

/// `--frames` must be between 1 and 64.
pub fn validate_frame_count(frames: u32) -> (r: Result<(), CliError>)
    ensures
        1 <= frames <= 64 ==> r is Ok,
        !(1 <= frames <= 64) ==> outcome(r) == Err::<(), _>((2i32, "--frames must be between 1 and 64"@)),
{
    if frames == 0 || frames > 64 {
        return Err(CliError::with_text(2, "--frames must be between 1 and 64"));
    }
    Ok(())
}

/// `--key`: absent, `auto`, or a color `#RRGGBB`.
pub fn parse_key_mode(key: Option<&str>) -> (r: Result<Option<KeyMode>, CliError>)
    ensures
        key is None ==> r matches Ok(None),
        key matches Some(k) && k@ == "auto"@ ==> r matches Ok(Some(KeyMode::Auto)),
        key is Some && key.unwrap()@ != "auto"@ ==> match hex_color_outcome(key.unwrap()@) {
            Ok(c) => r matches Ok(Some(KeyMode::Fixed(x))) && x@ == c,
            Err(e) => r matches Err(x) && (x.code, x.message@) == e,
        },
{
    match key {
        None => Ok(None),
        Some(k) => {
            if str_eq(k, "auto") {
                Ok(Some(KeyMode::Auto))
            } else {
                let c = parse_hex_color(k)?;
                Ok(Some(KeyMode::Fixed(c)))
            }
        },
    }
}

/// How many frames the extraction produced against the request.
#[derive(Clone, Copy, Debug, PartialEq, Eq, Structural)]
pub enum FrameYield {
    Complete,
    Short,
}

/// No frame at all is an error (exit code 6); fewer than requested is a
/// shortfall to warn about.
pub fn check_frame_yield(requested: u32, produced: u32) -> (r: Result<FrameYield, CliError>)
    ensures
        produced == 0 ==> outcome(r) == Err::<FrameYield, _>(
            (
                6i32,
                "no frames produced: --start may be past the end of the video, or the input has no decodable video stream"@,
            ),
        ),
        produced > 0 && produced < requested ==> r matches Ok(FrameYield::Short),
        produced > 0 && produced >= requested ==> r matches Ok(FrameYield::Complete),
{
    if produced == 0 {
        return Err(
            CliError::with_text(
                6,
                "no frames produced: --start may be past the end of the video, or the input has no decodable video stream",
            ),
        );
    }
    if produced < requested {
        Ok(FrameYield::Short)
    } else {
        Ok(FrameYield::Complete)
    }
}

/// Different variations of a sound effect get different file names.
pub proof fn law_variation_names_distinct(p: SfxPreset, i: nat, j: nat)
    requires
        i != j,
    ensures
        variation_name(p, i) != variation_name(p, j),
{
    if variation_name(p, i) == variation_name(p, j) {
        lemma_middle_eq(
            preset_text(p) + "_"@,
            zero_padded(decimal(i + 1), 2),
            zero_padded(decimal(j + 1), 2),
            ".wav"@,
        );
        lemma_padded_decimal_value(i + 1, 2);
        lemma_padded_decimal_value(j + 1, 2);
    }
}

/// Outputs are fail-closed: when the output exists and `--overwrite` is not
/// given, every planned command stops with exit code 4 before anything else
/// is looked at.
pub proof fn law_fail_closed(
    out: Seq<char>,
    timeout_seconds: u64,
    image_kind: ImageKind,
    green_kind: GreenKind,
    key_color: Seq<char>,
    prompt_file: Option<PromptFile>,
    prompt_text: Option<Seq<char>>,
    style: Option<Result<String, String>>,
    size: Option<Seq<char>>,
    sample_rate: u32,
    bitrate: u32,
    lyrics_file: Option<PromptFile>,
    lyrics_text: Option<Seq<char>>,
    instrumental: bool,
    lyrics_optimizer: bool,
)
    ensures
        image_generate_outcome(image_kind, out, true, false, timeout_seconds, prompt_file, prompt_text, style, size)
            == Err::<(Seq<char>, Option<(u32, u32)>), _>((4i32, "output exists: "@ + out)),
        green_source_outcome(green_kind, out, true, false, timeout_seconds, key_color, prompt_file, prompt_text)
            == Err::<(Seq<char>, Seq<u8>), _>((4i32, "output exists: "@ + out)),
        bgm_outcome(
            out,
            true,
            false,
            sample_rate,
            bitrate,
            prompt_file,
            prompt_text,
            lyrics_file,
            lyrics_text,
            instrumental,
            lyrics_optimizer,
        ) == Err::<(Seq<char>, Option<Seq<char>>), _>((4i32, "output exists: "@ + out)),
{
}

/// `image generate` tells the provider the canvas it asked for: whenever
/// the plan succeeds, the size it carries is exactly the parsed `--size`
/// (none without one), and the instruction holds the line
/// `Requested canvas: WxH.` for that size.
pub proof fn law_image_plan_requests_size(
    kind: ImageKind,
    out: Seq<char>,
    out_exists: bool,
    overwrite: bool,
    timeout_seconds: u64,
    prompt_file: Option<PromptFile>,
    prompt_text: Option<Seq<char>>,
    style: Option<Result<String, String>>,
    size: Option<Seq<char>>,
)
    ensures
        match image_generate_outcome(kind, out, out_exists, overwrite, timeout_seconds, prompt_file, prompt_text, style, size) {
            Ok((instruction, sz)) => {
                &&& size is None ==> sz is None
                &&& size matches Some(z) ==> (sz matches Some(wh) && size_outcome(z) == Ok::<(u32, u32), (i32, Seq<char>)>(wh))
                &&& sz matches Some((w, h)) ==> contains_seq(
                    instruction,
                    "Requested canvas: "@ + decimal(w as nat) + "x"@ + decimal(h as nat) + ".\n"@,
                )
                &&& contains_seq(instruction, "Asset kind: "@ + image_kind_text(kind) + ".\n"@)
                &&& style matches Some(Ok(st)) ==> contains_seq(instruction, "Style constraints:\n"@ + st@ + "\n"@)
                &&& prompt_outcome(prompt_file, prompt_text) matches Ok(p) && instruction.len() >= p.len()
                    && instruction.skip(instruction.len() - p.len()) == p
            },
            Err(_) => true,
        },
{
    match image_generate_outcome(kind, out, out_exists, overwrite, timeout_seconds, prompt_file, prompt_text, style, size) {
        Ok((instruction, sz)) => {
            let p = match prompt_outcome(prompt_file, prompt_text) {
                Ok(p) => p,
                Err(_) => Seq::<char>::empty(),
            };
            assert(instruction == instruction_spec(image_kind_text(kind), p, style_view(style), sz, false, "#00FF00"@, out));
            lemma_instruction_parts(image_kind_text(kind), p, style_view(style), sz, false, "#00FF00"@, out);
        },
        Err(_) => {},
    }
}

proof fn lemma_instruction_parts(
    kind: Seq<char>,
    prompt: Seq<char>,
    style: Option<Seq<char>>,
    size: Option<(u32, u32)>,
    green: bool,
    key: Seq<char>,
    out: Seq<char>,
)
    ensures
        ({
            let i = instruction_spec(kind, prompt, style, size, green, key, out);
            &&& size matches Some((w, h)) ==> contains_seq(
                i,
                "Requested canvas: "@ + decimal(w as nat) + "x"@ + decimal(h as nat) + ".\n"@,
            )
            &&& contains_seq(i, "Asset kind: "@ + kind + ".\n"@)
            &&& style matches Some(st) ==> contains_seq(i, "Style constraints:\n"@ + st + "\n"@)
            &&& green ==> contains_seq(
                i,
                "Green-screen constraint: isolate exactly one asset on a flat pure "@ + key + " background. No gradients, no cast shadows, no scene background, no extra UI elements.\n"@,
            )
            &&& i.len() >= prompt.len() && i.skip(i.len() - prompt.len()) == prompt
        }),
{
    let instruction = instruction_spec(kind, prompt, style, size, green, key, out);
    let a = "$imagegen\n"@;
    let intro = "Generate a production-ready 2D game asset.\n"@;
    let kind_line = "Asset kind: "@ + kind + ".\n"@;
    let target = "Output target: the final deliverable is `"@ + target_name(out) + "`, a "@ + target_format(out)
        + " image. Compose for this exact format and aspect.\n"@;
    let sl = size_lines(size);
    let stl = style_lines(style);
    let tail = green_lines(green, key) + "User brief:\n"@;
    assert(instruction =~= a + intro + kind_line + target + sl + stl + tail + prompt);
    let k = (a.len() + intro.len()) as int;
    assert(instruction.subrange(k, k + kind_line.len() as int) =~= kind_line);
    assert(occurs_at(instruction, kind_line, k));
    if let Some((w, h)) = size {
        let j = (a.len() + intro.len() + kind_line.len() + target.len()) as int;
        assert(instruction.subrange(j, j + sl.len() as int) =~= sl);
        assert(occurs_at(instruction, sl, j));
    }
    if let Some(st) = style {
        let j = (a.len() + intro.len() + kind_line.len() + target.len() + sl.len()) as int;
        assert(instruction.subrange(j, j + stl.len() as int) =~= stl);
        assert(occurs_at(instruction, stl, j));
    }
    if green {
        let g = "Green-screen constraint: isolate exactly one asset on a flat pure "@ + key + " background. No gradients, no cast shadows, no scene background, no extra UI elements.\n"@;
        let j = (a.len() + intro.len() + kind_line.len() + target.len() + sl.len() + stl.len()) as int;
        assert(instruction.subrange(j, j + g.len() as int) =~= g);
        assert(occurs_at(instruction, g, j));
    }
    assert(instruction.skip(instruction.len() - prompt.len()) =~= prompt);
}

/// `image green-source` keys the color it was given: a successful plan
/// carries `--key-color` parsed as `#RRGGBB`, and its instruction names the
/// asset kind, demands a flat background of exactly that color and ends
/// with the user's brief.
pub proof fn law_green_plan_names_key(
    kind: GreenKind,
    out: Seq<char>,
    out_exists: bool,
    overwrite: bool,
    timeout_seconds: u64,
    key_color: Seq<char>,
    prompt_file: Option<PromptFile>,
    prompt_text: Option<Seq<char>>,
)
    ensures
        match green_source_outcome(kind, out, out_exists, overwrite, timeout_seconds, key_color, prompt_file, prompt_text) {
            Ok((instruction, key)) => {
                &&& hex_color_outcome(key_color) == Ok::<Seq<u8>, (i32, Seq<char>)>(key)
                &&& contains_seq(instruction, "Asset kind: "@ + green_kind_text(kind) + ".\n"@)
                &&& contains_seq(
                    instruction,
                    "Green-screen constraint: isolate exactly one asset on a flat pure "@ + key_color + " background. No gradients, no cast shadows, no scene background, no extra UI elements.\n"@,
                )
                &&& prompt_outcome(prompt_file, prompt_text) matches Ok(p) && instruction.len() >= p.len()
                    && instruction.skip(instruction.len() - p.len()) == p
            },
            Err(_) => true,
        },
{
    match green_source_outcome(kind, out, out_exists, overwrite, timeout_seconds, key_color, prompt_file, prompt_text) {
        Ok((instruction, key)) => {
            let p = match prompt_outcome(prompt_file, prompt_text) {
                Ok(p) => p,
                Err(_) => Seq::<char>::empty(),
            };
            lemma_instruction_parts(green_kind_text(kind), p, None, None, true, key_color, out);
        },
        Err(_) => {},
    }
}

/// `audio bgm` asks for lyrics only when vocals are wanted and nothing
/// supplies them: once the output, rates, prompt and any lyrics source check
/// out, the plan succeeds whenever the track is instrumental, the lyrics
/// optimizer is on, or lyrics are given, and fails with exit code 2
/// otherwise; a plan carries the prompt, and lyrics exactly when a lyrics
/// source was given.
pub proof fn law_bgm_lyrics_rule(
    out: Seq<char>,
    out_exists: bool,
    overwrite: bool,
    sample_rate: u32,
    bitrate: u32,
    prompt_file: Option<PromptFile>,
    prompt_text: Option<Seq<char>>,
    lyrics_file: Option<PromptFile>,
    lyrics_text: Option<Seq<char>>,
    instrumental: bool,
    lyrics_optimizer: bool,
)
    ensures
        ({
            let lyrics_given = lyrics_file is Some || lyrics_text is Some;
            let checks_pass = !(out_exists && !overwrite) && 1 <= sample_rate <= MAX_SAMPLE_RATE && bitrate > 0
                && prompt_outcome(prompt_file, prompt_text) is Ok && (lyrics_given ==> prompt_outcome(
                lyrics_file,
                lyrics_text,
            ) is Ok);
            let r = bgm_outcome(
                out,
                out_exists,
                overwrite,
                sample_rate,
                bitrate,
                prompt_file,
                prompt_text,
                lyrics_file,
                lyrics_text,
                instrumental,
                lyrics_optimizer,
            );
            &&& checks_pass && (instrumental || lyrics_optimizer || lyrics_given) ==> r is Ok
            &&& checks_pass && !(instrumental || lyrics_optimizer || lyrics_given) ==> (r matches Err(e) && e.0 == 2)
            &&& !checks_pass ==> r is Err
            &&& r matches Ok((p, l)) ==> Ok::<Seq<char>, (i32, Seq<char>)>(p) == prompt_outcome(prompt_file, prompt_text)
                && (l is Some <==> lyrics_given)
            &&& r matches Ok((p, Some(lv))) ==> Ok::<Seq<char>, (i32, Seq<char>)>(lv) == prompt_outcome(
                lyrics_file,
                lyrics_text,
            )
        }),
{
}

} // verus!
