//! Decisions around the image provider process: the sandbox setting, when
//! to stop waiting, and whether its output is a usable PNG.
use vstd::prelude::*;
use crate::error::{CliError, outcome};
use crate::pixels::{
    decode_image, decoded_image, green_source_has_key_background, image_is_uniform, key_background_spec, uniform, Rgba8Image,
};
use crate::number::push_decimal;
use crate::text::{decimal, str_eq};

verus! {

/// The sandbox values the provider accepts.
pub open spec fn sandbox_ok(s: Seq<char>) -> bool {
    s == "workspace-write"@ || s == "read-only"@ || s == "danger-full-access"@
}

pub fn sandbox_allowed(s: &str) -> (r: bool)
    ensures
        r == sandbox_ok(s@),
{
    str_eq(s, "workspace-write") || str_eq(s, "read-only") || str_eq(s, "danger-full-access")
}

/// The sandbox to run the provider in: `CODEX_SANDBOX` when set (it must be
/// one of the accepted values), `workspace-write` otherwise.
pub fn codex_sandbox(setting: Option<&str>) -> (r: Result<String, CliError>)
    ensures
        setting is None ==> (r matches Ok(s) && s@ == "workspace-write"@),
        setting is Some && sandbox_ok(setting.unwrap()@) ==> (r matches Ok(s) && s@ == setting.unwrap()@),
        setting is Some && !sandbox_ok(setting.unwrap()@) ==> outcome(r) == Err::<String, _>(
            (2i32, "CODEX_SANDBOX must be workspace-write, read-only, or danger-full-access"@),
        ),
{
    let s = match setting {
        Some(v) => v,
        None => "workspace-write",
    };
    if sandbox_allowed(s) {
        Ok(String::from_str(s))
    } else {
        Err(CliError::with_text(2, "CODEX_SANDBOX must be workspace-write, read-only, or danger-full-access"))
    }
}

/// The reasoning effort the provider is run with: `CODEX_REASONING_EFFORT`
/// when set, `high` otherwise (lower efforts make it describe an image
/// instead of generating one).
pub fn codex_reasoning_effort(setting: Option<&str>) -> (r: String)
    ensures
        setting is None ==> r@ == "high"@,
        setting matches Some(v) ==> r@ == v@,
{
    match setting {
        Some(v) => String::from_str(v),
        None => String::from_str("high"),
    }
}

/// The last line of `s` as `str::lines` yields it: `None` for empty text;
/// a final line ending (`\n` or `\r\n`) is not part of the line.
pub open spec fn last_line_spec(s: Seq<char>) -> Option<Seq<char>> {
    if s.len() == 0 {
        None
    } else {
        let t = if s.last() == '\n' {
            s.drop_last()
        } else {
            s
        };
        let t = if s.last() == '\n' && t.len() > 0 && t.last() == '\r' {
            t.drop_last()
        } else {
            t
        };
        let k = crate::path::rfind(t, '\n') + 1;
        Some(t.subrange(k, t.len() as int))
    }
}

pub fn last_line(s: &str) -> (r: Option<&str>)
    ensures
        match last_line_spec(s@) {
            Some(l) => r matches Some(x) && x@ == l,
            None => r is None,
        },
{
    let n = s.unicode_len();
    if n == 0 {
        return None;
    }
    let mut end = n;
    let ends_nl = s.get_char(n - 1) == '\n';
    if ends_nl {
        end = end - 1;
        if end > 0 && s.get_char(end - 1) == '\r' {
            end = end - 1;
        }
    }
    let ghost t = s@.take(end as int);
    let mut k = end;
    while k > 0 && s.get_char(k - 1) != '\n'
        invariant
            k <= end <= n,
            n == s@.len(),
            forall|i: int| k <= i < end ==> s@[i] != '\n',
        decreases k,
    {
        k = k - 1;
    }
    proof {
        let t1 = if s@.last() == '\n' {
            s@.drop_last()
        } else {
            s@
        };
        let t2 = if s@.last() == '\n' && t1.len() > 0 && t1.last() == '\r' {
            t1.drop_last()
        } else {
            t1
        };
        assert(t2 =~= t);
        assert forall|i: int| k - 1 < i < t.len() implies t[i] != '\n' by {
            assert(t[i] == s@[i]);
        }
        crate::path::lemma_rfind_is_pub(t, '\n', k - 1);
    }
    let l = s.substring_char(k, end);
    assert(l@ =~= t.subrange(k as int, t.len() as int));
    Some(l)
}

/// The outcome of one poll while waiting for the provider.
#[derive(Clone, Copy, Debug, PartialEq, Eq, Structural)]
pub enum PollAction {
    /// Nothing conclusive yet: sleep and poll again.
    Wait,
    /// The provider exited: collect its image.
    Exited,
    /// The image has been written completely: stop the provider and
    /// collect it.
    Stop,
}

/// What one poll observed of the provider process.
#[derive(Debug)]
pub struct PollObservation {
    /// `Some(success)` once the process has exited.
    pub exited: Option<bool>,
    /// The last line of the provider's error output, if any.
    pub stderr_last: Option<String>,
    /// The newest fresh image and its size, when its size could be read.
    pub candidate: Option<(String, Option<u64>)>,
    /// The deadline has passed.
    pub timed_out: bool,
}

/// The candidate remembered for the next poll: the image and its size when
/// the size is positive, nothing otherwise.
pub open spec fn next_last(candidate: Option<(String, Option<u64>)>) -> Option<(Seq<char>, u64)> {
    match candidate {
        Some((p, Some(size))) => if size > 0 {
            Some((p@, size))
        } else {
            None
        },
        _ => None,
    }
}

pub open spec fn last_view(l: Option<(String, u64)>) -> Option<(Seq<char>, u64)> {
    match l {
        Some((p, s)) => Some((p@, s)),
        None => None,
    }
}

/// The same image was seen with the same positive size in two consecutive
/// polls, so it has been written completely.
pub open spec fn steady(last: Option<(Seq<char>, u64)>, candidate: Option<(String, Option<u64>)>) -> bool {
    match (last, candidate) {
        (Some((lp, ls)), Some((p, Some(size)))) => size > 0 && lp == p@ && ls == size,
        _ => false,
    }
}

pub open spec fn timeout_message(seconds: u64) -> Seq<char> {
    "codex-image timed out after "@ + decimal(seconds as nat) + "s"@
}

/// Decides one poll of the provider process: an exit ends the wait, and a
/// failed (non-zero) exit is an error with exit code 6; an image whose
/// size is steady across two polls ends it early; otherwise the deadline
/// is checked. Returns the action and the candidate to remember.
pub fn poll_step(last: Option<(String, u64)>, obs: PollObservation, timeout_seconds: u64) -> (r: (
    Result<PollAction, CliError>,
    Option<(String, u64)>,
))
    ensures
        obs.exited matches Some(ok) ==> (!ok ==> (r.0 matches Err(e) && e.code == 6
            && e.message@ == "codex failed: "@ + match obs.stderr_last {
            Some(l) => l@,
            None => "no stderr"@,
        })),
        obs.exited matches Some(ok) ==> (ok ==> r.0 matches Ok(PollAction::Exited)),
        obs.exited is None && steady(last_view(last), obs.candidate) ==> r.0 matches Ok(PollAction::Stop),
        obs.exited is None && !steady(last_view(last), obs.candidate) && obs.timed_out ==> outcome(r.0)
            == Err::<PollAction, _>((6i32, timeout_message(timeout_seconds))),
        obs.exited is None && !steady(last_view(last), obs.candidate) && !obs.timed_out ==> r.0 matches Ok(
            PollAction::Wait,
        ),
        obs.exited is None ==> last_view(r.1) == next_last(obs.candidate),
        obs.exited is Some ==> r.1 == last,
{
    if let Some(ok) = obs.exited {
        if !ok {
            let mut m = String::from_str("codex failed: ");
            match &obs.stderr_last {
                Some(l) => m.append(l.as_str()),
                None => m.append("no stderr"),
            }
            return (Err(CliError::new(6, m)), last);
        }
        return (Ok(PollAction::Exited), last);
    }
    let next: Option<(String, u64)> = match obs.candidate {
        Some((p, Some(size))) => {
            if size > 0 {
                let same = match &last {
                    Some((lp, ls)) => str_eq(lp.as_str(), p.as_str()) && *ls == size,
                    None => false,
                };
                if same {
                    return (Ok(PollAction::Stop), Some((p, size)));
                }
                Some((p, size))
            } else {
                None
            }
        },
        _ => None,
    };
    if obs.timed_out {
        let mut m = String::from_str("codex-image timed out after ");
        push_decimal(&mut m, timeout_seconds);
        m.append("s");
        return (Err(CliError::new(6, m)), next);
    }
    (Ok(PollAction::Wait), next)
}

/// The eight-byte PNG file signature.
pub open spec fn png_magic() -> Seq<u8> {
    seq![0x89u8, 0x50u8, 0x4Eu8, 0x47u8, 0x0Du8, 0x0Au8, 0x1Au8, 0x0Au8]
}

/// The generated file must start with the PNG signature and be at least 67
/// bytes, the smallest structurally valid PNG; exit code 7 otherwise.
pub fn validate_generated_png(bytes: &[u8]) -> (r: Result<(), CliError>)
    ensures
        !(bytes@.len() >= 8 && bytes@.take(8) == png_magic()) ==> outcome(r) == Err::<(), _>(
            (7i32, "generated file is not a PNG (missing PNG signature)"@),
        ),
        bytes@.len() >= 8 && bytes@.take(8) == png_magic() && bytes@.len() < 67 ==> outcome(r) == Err::<(), _>(
            (7i32, "generated PNG is implausibly small ("@ + decimal(bytes@.len()) + " bytes)"@),
        ),
        bytes@.len() >= 67 && bytes@.take(8) == png_magic() ==> r is Ok,
{
    let magic: [u8; 8] = [0x89, 0x50, 0x4E, 0x47, 0x0D, 0x0A, 0x1A, 0x0A];
    assert(magic@ =~= png_magic());
    if bytes.len() < 8 {
        return Err(CliError::with_text(7, "generated file is not a PNG (missing PNG signature)"));
    }
    let mut i: usize = 0;
    while i < 8
        invariant
            bytes@.len() >= 8,
            i <= 8,
            magic@ == png_magic(),
            forall|k: int| 0 <= k < i ==> bytes@[k] == magic@[k],
        decreases 8 - i,
    {
        if bytes[i] != magic[i] {
            assert(bytes@.take(8)[i as int] != png_magic()[i as int]);
            return Err(CliError::with_text(7, "generated file is not a PNG (missing PNG signature)"));
        }
        i = i + 1;
    }
    assert(bytes@.take(8) =~= png_magic());
    if bytes.len() < 67 {
        let mut m = String::from_str("generated PNG is implausibly small (");
        push_decimal(&mut m, bytes.len() as u64);
        m.append(" bytes)");
        return Err(CliError::new(7, m));
    }
    Ok(())
}

/// The warning given when the provider ignored the requested canvas size.
pub open spec fn size_warning_spec(requested: Option<(u32, u32)>, actual: (u32, u32)) -> Option<Seq<char>> {
    match requested {
        Some((ew, eh)) => if actual.0 != ew || actual.1 != eh {
            Some(
                "provider returned "@ + decimal(actual.0 as nat) + "x"@ + decimal(actual.1 as nat)
                    + " but --size requested "@ + decimal(ew as nat) + "x"@ + decimal(eh as nat),
            )
        } else {
            None
        },
        None => None,
    }
}

pub fn size_mismatch_warning(requested: Option<(u32, u32)>, actual: (u32, u32)) -> (r: Option<String>)
    ensures
        match size_warning_spec(requested, actual) {
            Some(m) => r matches Some(s) && s@ == m,
            None => r is None,
        },
{
    match requested {
        Some((ew, eh)) => {
            if actual.0 != ew || actual.1 != eh {
                let mut m = String::from_str("provider returned ");
                push_decimal(&mut m, actual.0 as u64);
                m.append("x");
                push_decimal(&mut m, actual.1 as u64);
                m.append(" but --size requested ");
                push_decimal(&mut m, ew as u64);
                m.append("x");
                push_decimal(&mut m, eh as u64);
                Some(m)
            } else {
                None
            }
        },
        None => None,
    }
}

} // verus!

verus! {

/// Candidate `k` is fresh: its modification time is known and not before
/// `after`.
pub open spec fn is_fresh(mtimes: Seq<Option<u128>>, after: u128, k: int) -> bool {
    0 <= k < mtimes.len() && (mtimes[k] matches Some(t) && t >= after)
}

pub open spec fn mtime_of(mtimes: Seq<Option<u128>>, k: int) -> u128 {
    match mtimes[k] {
        Some(t) => t,
        None => 0,
    }
}

/// The image a run produced, among candidates listed in path order with their
/// modification times (`None` where unknown): the newest of those modified at
/// or after `after`, the last in path order among equally new ones; `None`
/// when no candidate is that fresh.
pub fn pick_newest(mtimes: &[Option<u128>], after: u128) -> (r: Option<usize>)
    ensures
        r is None <==> !exists|k: int| is_fresh(mtimes@, after, k),
        r matches Some(i) ==> {
            &&& is_fresh(mtimes@, after, i as int)
            &&& forall|k: int| is_fresh(mtimes@, after, k) ==> mtime_of(mtimes@, k) <= mtime_of(mtimes@, i as int)
            &&& forall|k: int| i < k && is_fresh(mtimes@, after, k) ==> mtime_of(mtimes@, k) < mtime_of(mtimes@, i as int)
        },
{
    let mut best: Option<usize> = None;
    let mut k: usize = 0;
    while k < mtimes.len()
        invariant
            k <= mtimes@.len(),
            best is None <==> !exists|j: int| 0 <= j < k && is_fresh(mtimes@, after, j),
            best matches Some(i) ==> {
                &&& i < k
                &&& is_fresh(mtimes@, after, i as int)
                &&& forall|j: int| 0 <= j < k && is_fresh(mtimes@, after, j) ==> mtime_of(mtimes@, j) <= mtime_of(mtimes@, i as int)
                &&& forall|j: int| i < j < k && is_fresh(mtimes@, after, j) ==> mtime_of(mtimes@, j) < mtime_of(mtimes@, i as int)
            },
        decreases mtimes@.len() - k,
    {
        if let Some(t) = mtimes[k] {
            if t >= after {
                assert(is_fresh(mtimes@, after, k as int));
                let better = match best {
                    None => true,
                    Some(i) => match mtimes[i] {
                        Some(u) => t >= u,
                        None => true,
                    },
                };
                if better {
                    best = Some(k);
                }
            }
        }
        k = k + 1;
    }
    best
}

/// What the checks of a decoded provider image found.
#[derive(Debug)]
pub struct GeneratedImage {
    pub width: u32,
    pub height: u32,
    /// The warning when the provider ignored the requested size.
    pub size_warning: Option<String>,
    /// The warning about the picture's background: no key-color background
    /// for a green-source image, a single flat color for any other.
    pub background_warning: Option<String>,
}

/// The background warning for a decoded image: for a green-source image
/// (`green_key` given), when it shows no key-color background; for any
/// other, when it is one flat color.
pub open spec fn background_warning_spec(img: Rgba8Image, green_key: Option<[u8; 3]>) -> Option<Seq<char>> {
    match green_key {
        Some(k) => if !key_background_spec(img, k) {
            Some("generated green-source image does not appear to contain a solid key-color background"@)
        } else {
            None
        },
        None => if uniform(img) {
            Some("generated image is a single flat color; it may be blank or a failed render"@)
        } else {
            None
        },
    }
}

pub open spec fn opt_text(o: Option<String>) -> Option<Seq<char>> {
    match o {
        Some(s) => Some(s@),
        None => None,
    }
}

/// The findings for a decoded picture `img`.
pub open spec fn findings_match(g: GeneratedImage, img: Rgba8Image, requested: Option<(u32, u32)>, green_key: Option<[u8; 3]>) -> bool {
    &&& g.width == img.w()
    &&& g.height == img.h()
    &&& opt_text(g.size_warning) == size_warning_spec(requested, (img.w() as u32, img.h() as u32))
    &&& opt_text(g.background_warning) == background_warning_spec(img, green_key)
}

/// Checks the provider's image once decoded: an undecodable file is an
/// error with exit code 7; a decoded one gets its size compared with the
/// requested one and its background checked.
pub fn assess_decoded(decoded: Result<Rgba8Image, String>, requested: Option<(u32, u32)>, green_key: Option<[u8; 3]>) -> (r: Result<GeneratedImage, CliError>)
    requires
        decoded matches Ok(img) ==> img.wf(),
    ensures
        match decoded {
            Err(m) => outcome(r) == Err::<GeneratedImage, _>((7i32, "generated file is not a decodable image: "@ + m@)),
            Ok(img) => r matches Ok(g) && findings_match(g, img, requested, green_key),
        },
{
    match decoded {
        Err(m) => {
            let mut t = String::from_str("generated file is not a decodable image: ");
            t.append(m.as_str());
            Err(CliError::new(7, t))
        },
        Ok(img) => {
            let (w, h) = img.dimensions();
            let size_warning = size_mismatch_warning(requested, (w, h));
            let background_warning = match green_key {
                Some(k) => if !green_source_has_key_background(&img, k) {
                    Some(String::from_str("generated green-source image does not appear to contain a solid key-color background"))
                } else {
                    None
                },
                None => if image_is_uniform(&img) {
                    Some(String::from_str("generated image is a single flat color; it may be blank or a failed render"))
                } else {
                    None
                },
            };
            Ok(GeneratedImage { width: w, height: h, size_warning, background_warning })
        },
    }
}

/// Checks the bytes the provider produced: the PNG signature and size
/// (`validate_generated_png`), then the decoded picture (`assess_decoded`
/// applied to `decoded_image` of the bytes).
pub fn inspect_generated(bytes: &[u8], requested: Option<(u32, u32)>, green_key: Option<[u8; 3]>) -> (r: Result<GeneratedImage, CliError>)
    ensures
        !(bytes@.len() >= 8 && bytes@.take(8) == png_magic()) ==> outcome(r) == Err::<GeneratedImage, _>(
            (7i32, "generated file is not a PNG (missing PNG signature)"@),
        ),
        bytes@.len() >= 8 && bytes@.take(8) == png_magic() && bytes@.len() < 67 ==> outcome(r) == Err::<GeneratedImage, _>(
            (7i32, "generated PNG is implausibly small ("@ + decimal(bytes@.len()) + " bytes)"@),
        ),
        bytes@.len() >= 67 && bytes@.take(8) == png_magic() ==> match decoded_image(bytes@) {
            Err(m) => outcome(r) == Err::<GeneratedImage, _>((7i32, "generated file is not a decodable image: "@ + m)),
            Ok((w, h, rows)) => r matches Ok(g) && exists|img: Rgba8Image|
                img.wf() && img.w() == w && img.h() == h && #[trigger] img.row_views() == rows && findings_match(g, img, requested, green_key),
        },
{
    validate_generated_png(bytes)?;
    let decoded = decode_image(bytes);
    let ghost d = decoded;
    let r = assess_decoded(decoded, requested, green_key);
    proof {
        if let Ok(img) = d {
            assert(img.wf() && img.row_views() == img.row_views());
        }
    }
    r
}

} // verus!
