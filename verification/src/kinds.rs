//! The enumerated choices of the command line and the names they carry.
use vstd::prelude::*;
use crate::error::{CliError, outcome};
use crate::number::push_decimal;
use crate::path::{extension_spec, file_name, file_name_spec, lower_extension, lowercase_extension, name_stem, name_stem_of, extension};
use crate::text::{ascii_lower_seq, decimal, lowercase_ascii, str_eq};

verus! {

/// What kind of picture `image generate` asks for.
#[derive(Clone, Copy, Debug, PartialEq, Eq, Structural)]
pub enum ImageKind {
    Scene,
    Concept,
    Background,
    Character,
    Sprite,
    Ui,
    Icon,
    Logo,
    Effect,
    Frames,
    GameMap,
    Tile,
}

/// What kind of asset `image green-source` isolates on a key color.
#[derive(Clone, Copy, Debug, PartialEq, Eq, Structural)]
pub enum GreenKind {
    Button,
    Panel,
    Icon,
    Bar,
    Character,
    Prop,
    Effect,
}

/// How `sprite normalize` fits the sprite into its canvas.
#[derive(Clone, Copy, Debug, PartialEq, Eq, Structural)]
pub enum FitMode {
    Contain,
    Cover,
    Stretch,
}

/// Where `sprite normalize` places the sprite on its canvas.
#[derive(Clone, Copy, Debug, PartialEq, Eq, Structural)]
pub enum Anchor {
    Center,
    TopLeft,
    BottomCenter,
}

/// The synthesised sound effects.
#[derive(Clone, Copy, Debug, PartialEq, Eq, Structural)]
pub enum SfxPreset {
    Click,
    Confirm,
    Cancel,
    Coin,
    Powerup,
    Error,
    Hit,
    Explosion,
    Jump,
    Laser,
    Whoosh,
}

pub open spec fn image_kind_text(k: ImageKind) -> Seq<char> {
    match k {
        ImageKind::Scene => "scene"@,
        ImageKind::Concept => "concept"@,
        ImageKind::Background => "background"@,
        ImageKind::Character => "character"@,
        ImageKind::Sprite => "sprite"@,
        ImageKind::Ui => "ui"@,
        ImageKind::Icon => "icon"@,
        ImageKind::Logo => "logo"@,
        ImageKind::Effect => "effect"@,
        ImageKind::Frames => "frames"@,
        ImageKind::GameMap => "map"@,
        ImageKind::Tile => "tile"@,
    }
}

pub fn image_kind_name(kind: &ImageKind) -> (r: &'static str)
    ensures
        r@ == image_kind_text(*kind),
{
    match kind {
        ImageKind::Scene => "scene",
        ImageKind::Concept => "concept",
        ImageKind::Background => "background",
        ImageKind::Character => "character",
        ImageKind::Sprite => "sprite",
        ImageKind::Ui => "ui",
        ImageKind::Icon => "icon",
        ImageKind::Logo => "logo",
        ImageKind::Effect => "effect",
        ImageKind::Frames => "frames",
        ImageKind::GameMap => "map",
        ImageKind::Tile => "tile",
    }
}

pub open spec fn green_kind_text(k: GreenKind) -> Seq<char> {
    match k {
        GreenKind::Button => "button"@,
        GreenKind::Panel => "panel"@,
        GreenKind::Icon => "icon"@,
        GreenKind::Bar => "bar"@,
        GreenKind::Character => "character"@,
        GreenKind::Prop => "prop"@,
        GreenKind::Effect => "effect"@,
    }
}

pub fn green_kind_name(kind: &GreenKind) -> (r: &'static str)
    ensures
        r@ == green_kind_text(*kind),
{
    match kind {
        GreenKind::Button => "button",
        GreenKind::Panel => "panel",
        GreenKind::Icon => "icon",
        GreenKind::Bar => "bar",
        GreenKind::Character => "character",
        GreenKind::Prop => "prop",
        GreenKind::Effect => "effect",
    }
}

pub open spec fn preset_text(p: SfxPreset) -> Seq<char> {
    match p {
        SfxPreset::Click => "click"@,
        SfxPreset::Confirm => "confirm"@,
        SfxPreset::Cancel => "cancel"@,
        SfxPreset::Coin => "coin"@,
        SfxPreset::Powerup => "powerup"@,
        SfxPreset::Error => "error"@,
        SfxPreset::Hit => "hit"@,
        SfxPreset::Explosion => "explosion"@,
        SfxPreset::Jump => "jump"@,
        SfxPreset::Laser => "laser"@,
        SfxPreset::Whoosh => "whoosh"@,
    }
}

pub fn preset_name(p: SfxPreset) -> (r: &'static str)
    ensures
        r@ == preset_text(p),
{
    match p {
        SfxPreset::Click => "click",
        SfxPreset::Confirm => "confirm",
        SfxPreset::Cancel => "cancel",
        SfxPreset::Coin => "coin",
        SfxPreset::Powerup => "powerup",
        SfxPreset::Error => "error",
        SfxPreset::Hit => "hit",
        SfxPreset::Explosion => "explosion",
        SfxPreset::Jump => "jump",
        SfxPreset::Laser => "laser",
        SfxPreset::Whoosh => "whoosh",
    }
}

pub open spec fn half_gap(c: u32, i: u32) -> u32 {
    (if c >= i { c - i } else { 0 }) as u32 / 2
}

/// Where a `iw` x `ih` image goes on a `cw` x `ch` canvas: centered, at the
/// top left, or centered at the bottom; an image larger than the canvas is
/// placed at the edge.
pub open spec fn anchor_spec(anchor: Anchor, cw: u32, ch: u32, iw: u32, ih: u32) -> (u32, u32) {
    match anchor {
        Anchor::Center => (half_gap(cw, iw), half_gap(ch, ih)),
        Anchor::TopLeft => (0, 0),
        Anchor::BottomCenter => (half_gap(cw, iw), (if ch >= ih { ch - ih } else { 0 }) as u32),
    }
}

pub fn anchor_offset(anchor: Anchor, cw: u32, ch: u32, iw: u32, ih: u32) -> (r: (u32, u32))
    ensures
        r == anchor_spec(anchor, cw, ch, iw, ih),
        r.0 + iw <= cw || r.0 == 0,
        r.1 + ih <= ch || r.1 == 0,
{
    match anchor {
        Anchor::Center => ((cw.saturating_sub(iw)) / 2, (ch.saturating_sub(ih)) / 2),
        Anchor::TopLeft => (0, 0),
        Anchor::BottomCenter => ((cw.saturating_sub(iw)) / 2, ch.saturating_sub(ih)),
    }
}

/// What kind of asset a file holds, judged by its extension (any case).
pub open spec fn kind_text(ext: Seq<char>) -> Seq<char> {
    if ext == "png"@ || ext == "jpg"@ || ext == "jpeg"@ || ext == "webp"@ {
        "image"@
    } else if ext == "wav"@ || ext == "mp3"@ || ext == "ogg"@ || ext == "m4a"@ {
        "audio"@
    } else if ext == "json"@ || ext == "yaml"@ || ext == "yml"@ {
        "metadata"@
    } else if ext == "mp4"@ || ext == "mov"@ || ext == "webm"@ {
        "video"@
    } else {
        "file"@
    }
}

pub fn kind_from_ext(path: &str) -> (r: &'static str)
    ensures
        r@ == kind_text(lower_extension(path@)),
{
    let ext = lowercase_extension(path);
    let e = ext.as_str();
    if str_eq(e, "png") || str_eq(e, "jpg") || str_eq(e, "jpeg") || str_eq(e, "webp") {
        "image"
    } else if str_eq(e, "wav") || str_eq(e, "mp3") || str_eq(e, "ogg") || str_eq(e, "m4a") {
        "audio"
    } else if str_eq(e, "json") || str_eq(e, "yaml") || str_eq(e, "yml") {
        "metadata"
    } else if str_eq(e, "mp4") || str_eq(e, "mov") || str_eq(e, "webm") {
        "video"
    } else {
        "file"
    }
}

/// The kind a file is recorded with follows its extension, in any case:
/// `png`, `jpg`, `jpeg` and `webp` files are images; `wav`, `mp3`, `ogg` and
/// `m4a` audio; `json`, `yaml` and `yml` metadata; `mp4`, `mov` and `webm`
/// video; anything else is a plain file.
pub proof fn law_kind_by_extension(p: Seq<char>)
    ensures
        (lower_extension(p) == "png"@ || lower_extension(p) == "jpg"@ || lower_extension(p) == "jpeg"@
            || lower_extension(p) == "webp"@) ==> kind_text(lower_extension(p)) == "image"@,
        (lower_extension(p) == "wav"@ || lower_extension(p) == "mp3"@ || lower_extension(p) == "ogg"@
            || lower_extension(p) == "m4a"@) ==> kind_text(lower_extension(p)) == "audio"@,
        (lower_extension(p) == "json"@ || lower_extension(p) == "yaml"@ || lower_extension(p) == "yml"@)
            ==> kind_text(lower_extension(p)) == "metadata"@,
        (lower_extension(p) == "mp4"@ || lower_extension(p) == "mov"@ || lower_extension(p) == "webm"@)
            ==> kind_text(lower_extension(p)) == "video"@,
        !(lower_extension(p) == "png"@ || lower_extension(p) == "jpg"@ || lower_extension(p) == "jpeg"@
            || lower_extension(p) == "webp"@ || lower_extension(p) == "wav"@ || lower_extension(p) == "mp3"@
            || lower_extension(p) == "ogg"@ || lower_extension(p) == "m4a"@ || lower_extension(p) == "json"@
            || lower_extension(p) == "yaml"@ || lower_extension(p) == "yml"@ || lower_extension(p) == "mp4"@
            || lower_extension(p) == "mov"@ || lower_extension(p) == "webm"@) ==> kind_text(lower_extension(p))
            == "file"@,
{
    reveal_strlit("png");
    reveal_strlit("jpg");
    reveal_strlit("jpeg");
    reveal_strlit("webp");
    reveal_strlit("wav");
    reveal_strlit("mp3");
    reveal_strlit("ogg");
    reveal_strlit("m4a");
    reveal_strlit("json");
    reveal_strlit("yaml");
    reveal_strlit("yml");
    reveal_strlit("mp4");
    reveal_strlit("mov");
    reveal_strlit("webm");
    let e = lower_extension(p);
    if e == "png"@ {
        assert(e.len() == 3 && e[0] == 'p' && e[2] == 'g');
    }
    if e == "jpg"@ {
        assert(e.len() == 3 && e[0] == 'j' && e[2] == 'g');
    }
    if e == "jpeg"@ {
        assert(e.len() == 4 && e[0] == 'j' && e[3] == 'g');
    }
    if e == "webp"@ {
        assert(e.len() == 4 && e[0] == 'w' && e[3] == 'p');
    }
    if e == "wav"@ {
        assert(e.len() == 3 && e[0] == 'w' && e[2] == 'v');
    }
    if e == "mp3"@ {
        assert(e.len() == 3 && e[0] == 'm' && e[2] == '3');
    }
    if e == "ogg"@ {
        assert(e.len() == 3 && e[0] == 'o' && e[2] == 'g');
    }
    if e == "m4a"@ {
        assert(e.len() == 3 && e[0] == 'm' && e[2] == 'a');
    }
    if e == "json"@ {
        assert(e.len() == 4 && e[0] == 'j' && e[3] == 'n');
    }
    if e == "yaml"@ {
        assert(e.len() == 4 && e[0] == 'y' && e[3] == 'l');
    }
    if e == "yml"@ {
        assert(e.len() == 3 && e[0] == 'y' && e[2] == 'l');
    }
    if e == "mp4"@ {
        assert(e.len() == 3 && e[0] == 'm' && e[2] == '4');
    }
    if e == "mov"@ {
        assert(e.len() == 3 && e[0] == 'm' && e[2] == 'v');
    }
    if e == "webm"@ {
        assert(e.len() == 4 && e[0] == 'w' && e[3] == 'm');
    }
}

/// Where an `iw` x `ih` sprite goes on a `cw` x `ch` canvas, axis by axis
/// and each axis on its own: along an axis where it fits, `Center` leaves
/// equal margins on both sides (the far one at most a pixel wider) and
/// `BottomCenter` centers it across and puts its bottom edge on the
/// canvas's; along an axis where it is larger than the canvas it starts at
/// the edge; `TopLeft` puts it at the origin.
pub proof fn law_anchor_placement(anchor: Anchor, cw: u32, ch: u32, iw: u32, ih: u32)
    ensures
        ({
            let (x, y) = anchor_spec(anchor, cw, ch, iw, ih);
            let centered_x = (iw <= cw ==> (x + iw + x == cw || x + iw + x + 1 == cw)) && (iw > cw ==> x == 0);
            let centered_y = (ih <= ch ==> (y + ih + y == ch || y + ih + y + 1 == ch)) && (ih > ch ==> y == 0);
            &&& anchor == Anchor::Center ==> centered_x && centered_y
            &&& anchor == Anchor::BottomCenter ==> centered_x && (ih <= ch ==> y + ih == ch) && (ih > ch ==> y == 0)
            &&& anchor == Anchor::TopLeft ==> x == 0 && y == 0
        }),
{
}

pub open spec fn wav_message(ext: Seq<char>) -> Seq<char> {
    "trim/waveform require a PCM WAV input; got '"@ + (if ext.len() == 0 {
        "no extension"@
    } else {
        ext
    }) + "'. Convert to WAV first (compressed formats like mp3/ogg are not decoded by this tool)."@
}

/// Accepts only a `.wav` input (any case); exit code 3 otherwise.
pub fn require_wav_extension(path: &str) -> (r: Result<(), CliError>)
    ensures
        lower_extension(path@) == "wav"@ ==> r is Ok,
        lower_extension(path@) != "wav"@ ==> outcome(r) == Err::<(), _>(
            (3i32, wav_message(lower_extension(path@))),
        ),
{
    let ext = lowercase_extension(path);
    if str_eq(ext.as_str(), "wav") {
        return Ok(());
    }
    let mut m = String::from_str("trim/waveform require a PCM WAV input; got '");
    if ext.as_str().unicode_len() == 0 {
        m.append("no extension");
    } else {
        m.append(ext.as_str());
    }
    m.append("'. Convert to WAV first (compressed formats like mp3/ogg are not decoded by this tool).");
    Err(CliError::new(3, m))
}

/// The warning given when the output's extension differs from `--format`.
pub open spec fn format_warning_spec(out: Seq<char>, format: Seq<char>) -> Option<Seq<char>> {
    let ext = lower_extension(out);
    if ext.len() != 0 && ext != ascii_lower_seq(format) {
        Some(
            "output extension '."@ + ext + "' does not match --format '"@ + format
                + "'; the file will contain "@ + format + "-encoded audio"@,
        )
    } else {
        None
    }
}

pub fn warn_format_extension(out: &str, format: &str) -> (r: Option<String>)
    ensures
        match format_warning_spec(out@, format@) {
            Some(m) => r matches Some(s) && s@ == m,
            None => r is None,
        },
{
    let ext = lowercase_extension(out);
    let f = lowercase_ascii(format);
    if ext.as_str().unicode_len() != 0 && !str_eq(ext.as_str(), f.as_str()) {
        let mut m = String::from_str("output extension '.");
        m.append(ext.as_str());
        m.append("' does not match --format '");
        m.append(format);
        m.append("'; the file will contain ");
        m.append(format);
        m.append("-encoded audio");
        Some(m)
    } else {
        None
    }
}

/// The warning given when the output format cannot hold an alpha channel.
pub open spec fn alpha_warning_spec(out: Seq<char>) -> Option<Seq<char>> {
    let ext = lower_extension(out);
    if ext == "jpg"@ || ext == "jpeg"@ {
        Some(
            "output '."@ + ext
                + "' cannot store transparency; the alpha channel will be discarded. Use a .png output to preserve transparency."@,
        )
    } else {
        None
    }
}

pub fn warn_if_alpha_dropping_format(out: &str) -> (r: Option<String>)
    ensures
        match alpha_warning_spec(out@) {
            Some(m) => r matches Some(s) && s@ == m,
            None => r is None,
        },
{
    let ext = lowercase_extension(out);
    if str_eq(ext.as_str(), "jpg") || str_eq(ext.as_str(), "jpeg") {
        let mut m = String::from_str("output '.");
        m.append(ext.as_str());
        m.append(
            "' cannot store transparency; the alpha channel will be discarded. Use a .png output to preserve transparency.",
        );
        Some(m)
    } else {
        None
    }
}

/// A `.png` file (extension in any case).
pub fn is_png_path(path: &str) -> (r: bool)
    ensures
        r == (lower_extension(path@) == "png"@),
{
    let ext = lowercase_extension(path);
    str_eq(ext.as_str(), "png")
}

/// A frame written by this tool: a file whose name starts with `frame_`.
pub fn is_frame_file(path: &str) -> (r: bool)
    ensures
        r == (file_name_spec(path@) matches Some(n) && n.len() >= 6 && n.take(6) == "frame_"@),
{
    match file_name(path) {
        Some(n) => {
            if n.unicode_len() < 6 {
                false
            } else {
                let head = n.substring_char(0, 6);
                assert(head@ =~= n@.take(6));
                str_eq(head, "frame_")
            }
        },
        None => false,
    }
}

/// The name of the hidden temporary sibling that an output is first written
/// to: `.{stem}.{pid}.{ext}`, or `.{stem}.{pid}.tmp` without an extension,
/// where the stem is `out` when the path has no file name.
pub open spec fn temp_name_spec(path: Seq<char>, pid: u32) -> Seq<char> {
    let stem = match file_name_spec(path) {
        Some(n) => name_stem(n),
        None => "out"@,
    };
    "."@ + stem + "."@ + decimal(pid as nat) + "."@ + match extension_spec(path) {
        Some(e) => e,
        None => "tmp"@,
    }
}

pub fn temp_file_name(path: &str, pid: u32) -> (r: String)
    ensures
        r@ == temp_name_spec(path@, pid),
{
    let mut r = String::from_str(".");
    match file_name(path) {
        Some(n) => r.append(name_stem_of(n)),
        None => r.append("out"),
    }
    r.append(".");
    push_decimal(&mut r, pid as u64);
    r.append(".");
    match extension(path) {
        Some(e) => r.append(e),
        None => r.append("tmp"),
    }
    r
}

pub open spec fn xorshift(x: u64) -> u64 {
    let a = x ^ (x << 13u64);
    let b = a ^ (a >> 7u64);
    b ^ (b << 17u64)
}

/// The xorshift64 generator behind the noise of the synthesised effects.
#[derive(Debug)]
pub struct XorShift64(pub u64);

impl XorShift64 {
    /// Advances the state by one xorshift64 step (shifts 13, 7, 17) and
    /// returns the new state.
    pub fn next_u64(&mut self) -> (r: u64)
        ensures
            r == xorshift(old(self).0),
            final(self).0 == r,
    {
        let mut x = self.0;
        x = x ^ (x << 13u64);
        x = x ^ (x >> 7u64);
        x = x ^ (x << 17u64);
        self.0 = x;
        x
    }

    /// The generator for the noise of a sound effect rendered with `seed`.
    pub fn for_noise(seed: u64) -> (r: Self)
        ensures
            r.0 == seed ^ 0x9e3779b97f4a7c15u64,
    {
        XorShift64(seed ^ 0x9e3779b97f4a7c15u64)
    }

    /// The generator of the pitch detune of a sound effect rendered with a
    /// non-zero `seed`.
    pub fn for_detune(seed: u64) -> (r: Self)
        ensures
            r.0 == seed.wrapping_mul(0xD1B54A32D192ED03u64) ^ 0x94D049BB133111EBu64,
    {
        XorShift64(seed.wrapping_mul(0xD1B54A32D192ED03u64) ^ 0x94D049BB133111EBu64)
    }
}

/// A generator whose state is not zero never reaches the zero state, from
/// which it could not leave.
pub proof fn law_xorshift_nonzero(x: u64)
    requires
        x != 0,
    ensures
        xorshift(x) != 0,
{
    assert(x != 0 ==> xorshift(x) != 0) by (bit_vector);
}

} // verus!
