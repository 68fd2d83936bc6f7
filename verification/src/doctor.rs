//! The `doctor` report: what was found of the local tools and credentials,
//! one line per check.
use vstd::prelude::*;
use crate::codex::{sandbox_allowed, sandbox_ok};

verus! {

/// The first line of `s` as `str::lines` yields it: `None` for empty text;
/// the line stops before the first `\n`, and a `\r` just before that `\n`
/// is not part of it.
pub open spec fn first_line_spec(s: Seq<char>) -> Option<Seq<char>> {
    if s.len() == 0 {
        None
    } else if exists|k: int| 0 <= k < s.len() && s[k] == '\n' {
        let k = choose|k: int| 0 <= k < s.len() && s[k] == '\n' && forall|i: int| 0 <= i < k ==> s[i] != '\n';
        let l = s.subrange(0, k);
        Some(if l.len() > 0 && l.last() == '\r' { l.drop_last() } else { l })
    } else {
        Some(s)
    }
}

pub fn first_line(s: &str) -> (r: Option<&str>)
    ensures
        match first_line_spec(s@) {
            Some(l) => r matches Some(x) && x@ == l,
            None => r is None,
        },
{
    let n = s.unicode_len();
    if n == 0 {
        return None;
    }
    let mut k: usize = 0;
    while k < n && s.get_char(k) != '\n'
        invariant
            k <= n,
            n == s@.len(),
            forall|i: int| 0 <= i < k ==> s@[i] != '\n',
        decreases n - k,
    {
        k = k + 1;
    }
    if k == n {
        assert(!exists|j: int| 0 <= j < s@.len() && s@[j] == '\n');
        assert(s@.subrange(0, n as int) =~= s@);
        return Some(s.substring_char(0, n));
    }
    proof {
        let c = choose|j: int| 0 <= j < s@.len() && s@[j] == '\n' && forall|i: int| 0 <= i < j ==> s@[i] != '\n';
        assert(0 <= k < s@.len() && s@[k as int] == '\n' && forall|i: int| 0 <= i < k ==> s@[i] != '\n');
        if c < k {
        } else if c > k {
            assert(s@[k as int] != '\n');
        }
        assert(c == k);
    }
    let end = if k > 0 && s.get_char(k - 1) == '\r' { k - 1 } else { k };
    let l = s.substring_char(0, end);
    assert(l@ =~= (if s@.subrange(0, k as int).len() > 0 && s@.subrange(0, k as int).last() == '\r' {
        s@.subrange(0, k as int).drop_last()
    } else {
        s@.subrange(0, k as int)
    }));
    Some(l)
}

/// What the local checks found.
#[derive(Debug)]
pub struct DoctorFindings {
    /// The provider executable, when found.
    pub codex: Option<String>,
    /// The first line of its `--version` output.
    pub codex_version: Option<String>,
    /// Whether its `exec --help` mentions `codex exec`.
    pub codex_exec: bool,
    /// The sandbox setting in effect.
    pub sandbox: String,
    /// The ffmpeg executable, when found.
    pub ffmpeg: Option<String>,
    /// Whether a MiniMax API key is set.
    pub minimax_key: bool,
    /// Whether a file could be written in a temporary directory.
    pub temp_dir_writable: bool,
}

pub open spec fn or_text(o: Option<String>, fallback: Seq<char>) -> Seq<char> {
    match o {
        Some(s) => s@,
        None => fallback,
    }
}

/// The human-readable report, line by line.
pub open spec fn doctor_lines_spec(f: DoctorFindings) -> Seq<Seq<char>> {
    seq![
        "codex: "@ + or_text(f.codex, "missing"@),
        "codex version: "@ + or_text(f.codex_version, "unknown"@),
        "codex exec: "@ + (if f.codex_exec { "available"@ } else { "unavailable"@ }),
        "codex image probe: not run"@,
        "CODEX_SANDBOX: "@ + (if sandbox_ok(f.sandbox@) { f.sandbox@ } else { f.sandbox@ + " (invalid)"@ }),
        "ffmpeg: "@ + or_text(f.ffmpeg, "missing"@),
        "MINIMAX_API_KEY: "@ + (if f.minimax_key { "set"@ } else { "missing"@ }),
        "temp dir writable: "@ + (if f.temp_dir_writable { "yes"@ } else { "no"@ }),
    ]
}

fn labelled(label: &str, value: &str) -> (r: String)
    ensures
        r@ == label@ + value@,
{
    let s = String::from_str(label);
    s.concat(value)
}

fn or_str<'a>(o: &'a Option<String>, fallback: &'a str) -> (r: &'a str)
    ensures
        r@ == or_text(*o, fallback@),
{
    match o {
        Some(s) => s.as_str(),
        None => fallback,
    }
}

/// The lines `doctor` prints, in order.
pub fn doctor_lines(f: &DoctorFindings) -> (r: Vec<String>)
    ensures
        r@.len() == doctor_lines_spec(*f).len(),
        forall|i: int| 0 <= i < r@.len() ==> #[trigger] r@[i]@ == doctor_lines_spec(*f)[i],
{
    let mut v: Vec<String> = Vec::new();
    v.push(labelled("codex: ", or_str(&f.codex, "missing")));
    v.push(labelled("codex version: ", or_str(&f.codex_version, "unknown")));
    v.push(labelled("codex exec: ", if f.codex_exec { "available" } else { "unavailable" }));
    v.push(String::from_str("codex image probe: not run"));
    let sandbox_line = if sandbox_allowed(f.sandbox.as_str()) {
        labelled("CODEX_SANDBOX: ", f.sandbox.as_str())
    } else {
        labelled("CODEX_SANDBOX: ", f.sandbox.as_str()).concat(" (invalid)")
    };
    v.push(sandbox_line);
    v.push(labelled("ffmpeg: ", or_str(&f.ffmpeg, "missing")));
    v.push(labelled("MINIMAX_API_KEY: ", if f.minimax_key { "set" } else { "missing" }));
    v.push(labelled("temp dir writable: ", if f.temp_dir_writable { "yes" } else { "no" }));
    proof {
        let t = doctor_lines_spec(*f);
        assert(v@.len() == 8);
        assert(v@[0]@ == t[0]);
        assert(v@[1]@ == t[1]);
        assert(v@[2]@ == t[2]);
        assert(v@[3]@ == t[3]);
        assert(v@[4]@ =~= t[4]);
        assert(v@[5]@ == t[5]);
        assert(v@[6]@ == t[6]);
        assert(v@[7]@ == t[7]);
    }
    v
}

} // verus!
