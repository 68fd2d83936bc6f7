//! Decisions of the self-update: which release, whether to install, and
//! which asset fits this platform.
use vstd::prelude::*;
use crate::error::{CliError, outcome};
use crate::prompt::text_view;
use crate::text::{contains_seq, str_contains, strip_leading, trim_start_char};
use crate::version::{is_newer, version_is_newer};

verus! {

/// The GitHub API address of the release to install: the given tag, or the
/// latest release.
pub open spec fn release_url_spec(repo: Seq<char>, tag: Option<Seq<char>>) -> Seq<char> {
    match tag {
        Some(t) => "https://api.github.com/repos/"@ + repo + "/releases/tags/"@ + t,
        None => "https://api.github.com/repos/"@ + repo + "/releases/latest"@,
    }
}

pub fn release_url(repo: &str, tag: Option<&str>) -> (r: String)
    ensures
        r@ == release_url_spec(repo@, text_view(tag)),
{
    let mut s = String::from_str("https://api.github.com/repos/");
    s.append(repo);
    match tag {
        Some(t) => {
            s.append("/releases/tags/");
            s.append(t);
        },
        None => s.append("/releases/latest"),
    }
    s
}

pub open spec fn token_hint(has_token: bool) -> Seq<char> {
    if has_token {
        Seq::<char>::empty()
    } else {
        " (set GITHUB_TOKEN for private repositories or to raise rate limits)"@
    }
}

/// The error for a failed release lookup (exit code 6), with the API's own
/// message (or `unknown error`) and, without a token, a hint to set one.
pub fn github_http_error(status: &str, repo: &str, detail: Option<&str>, has_token: bool) -> (e: CliError)
    ensures
        e.code == 6,
        e.message@ == "GitHub HTTP "@ + status@ + " for "@ + repo@ + ": "@ + match detail {
            Some(d) => d@,
            None => "unknown error"@,
        } + token_hint(has_token),
{
    let mut m = String::from_str("GitHub HTTP ");
    m.append(status);
    m.append(" for ");
    m.append(repo);
    m.append(": ");
    match detail {
        Some(d) => m.append(d),
        None => m.append("unknown error"),
    }
    if !has_token {
        m.append(" (set GITHUB_TOKEN for private repositories or to raise rate limits)");
    }
    CliError::new(6, m)
}

/// The token for GitHub requests: `GITHUB_TOKEN` when set, else `GH_TOKEN`;
/// an empty token counts as none.
pub fn pick_github_token(github_token: Option<String>, gh_token: Option<String>) -> (r: Option<String>)
    ensures
        ({
            let chosen = if github_token is Some {
                github_token
            } else {
                gh_token
            };
            match chosen {
                Some(t) => if t@.len() > 0 {
                    r == Some(t)
                } else {
                    r is None
                },
                None => r is None,
            }
        }),
{
    let chosen = match github_token {
        Some(t) => Some(t),
        None => gh_token,
    };
    match chosen {
        Some(t) => {
            if t.as_str().unicode_len() > 0 {
                Some(t)
            } else {
                None
            }
        },
        None => None,
    }
}

/// The version a release tag names: the tag without its leading `v`s.
pub fn release_version(tag: &str) -> (r: &str)
    ensures
        r@ == strip_leading(tag@, 'v'),
{
    trim_start_char(tag, 'v')
}

/// What the self-update does once the release is known.
#[derive(Clone, Copy, Debug, PartialEq, Eq, Structural)]
pub enum UpgradeStep {
    /// `--check`: only report whether an update exists.
    Report,
    /// Already current and not forced: nothing to do.
    UpToDate,
    /// Download and install the release.
    Install,
}

/// `--check` never installs; otherwise install when the release is newer or
/// the reinstall is forced.
pub fn upgrade_step(check: bool, newer: bool, force: bool) -> (r: UpgradeStep)
    ensures
        check ==> r == UpgradeStep::Report,
        !check && !newer && !force ==> r == UpgradeStep::UpToDate,
        !check && (newer || force) ==> r == UpgradeStep::Install,
{
    if check {
        UpgradeStep::Report
    } else if !newer && !force {
        UpgradeStep::UpToDate
    } else {
        UpgradeStep::Install
    }
}

/// One asset of a release, as the release listing describes it.
#[derive(Debug)]
pub struct ReleaseAsset {
    pub name: Option<String>,
    pub url: Option<String>,
}

pub open spec fn name_matches(name: Option<String>, target: Seq<char>) -> bool {
    match name {
        Some(n) => contains_seq(n@, target),
        None => false,
    }
}

/// The index of the first asset whose name contains the target triple.
pub open spec fn first_asset(s: Seq<ReleaseAsset>, target: Seq<char>) -> Option<int>
    decreases s.len(),
{
    if s.len() == 0 {
        None
    } else if name_matches(s[0].name, target) {
        Some(0)
    } else {
        match first_asset(s.drop_first(), target) {
            Some(i) => Some(i + 1),
            None => None,
        }
    }
}

proof fn lemma_first_asset(s: Seq<ReleaseAsset>, target: Seq<char>, i: int)
    requires
        0 <= i <= s.len(),
        forall|j: int| 0 <= j < i ==> !name_matches(#[trigger] s[j].name, target),
        i == s.len() || name_matches(s[i].name, target),
    ensures
        first_asset(s, target) == (if i == s.len() { None } else { Some(i) }),
    decreases i,
{
    if i > 0 {
        let t = s.drop_first();
        assert(!name_matches(s[0].name, target));
        assert forall|j: int| 0 <= j < i - 1 implies !name_matches(#[trigger] t[j].name, target) by {
            assert(t[j] == s[j + 1]);
        }
        if i < s.len() {
            assert(t[i - 1] == s[i]);
        }
        lemma_first_asset(t, target, i - 1);
    }
}

/// The first release asset whose name contains the target triple.
pub fn select_asset(assets: &[ReleaseAsset], target: &str) -> (r: Option<usize>)
    ensures
        match r {
            Some(i) => i < assets@.len() && first_asset(assets@, target@) == Some(i as int),
            None => first_asset(assets@, target@) is None,
        },
{
    let mut i: usize = 0;
    while i < assets.len()
        invariant
            i <= assets@.len(),
            forall|j: int| 0 <= j < i ==> !name_matches(#[trigger] assets@[j].name, target@),
        decreases assets@.len() - i,
    {
        let found = match &assets[i].name {
            Some(n) => str_contains(n.as_str(), target),
            None => false,
        };
        if found {
            proof {
                lemma_first_asset(assets@, target@, i as int);
            }
            return Some(i);
        }
        i = i + 1;
    }
    proof {
        lemma_first_asset(assets@, target@, i as int);
    }
    None
}

pub fn missing_asset_error(tag: &str, target: &str) -> (e: CliError)
    ensures
        e.code == 6,
        e.message@ == "release "@ + tag@ + " has no asset for target "@ + target@,
{
    let mut m = String::from_str("release ");
    m.append(tag);
    m.append(" has no asset for target ");
    m.append(target);
    CliError::new(6, m)
}

/// The name of the executable inside a release archive.
pub fn release_binary_name(windows: bool) -> (r: &'static str)
    ensures
        windows ==> r@ == "game-asset.exe"@,
        !windows ==> r@ == "game-asset"@,
{
    if windows {
        "game-asset.exe"
    } else {
        "game-asset"
    }
}

/// The line `upgrade --check` prints.
pub fn check_report_line(newer: bool, current: &str, latest: &str) -> (r: String)
    ensures
        newer ==> r@ == "update available: "@ + current@ + " -> "@ + latest@,
        !newer ==> r@ == "up to date ("@ + current@ + ")"@,
{
    if newer {
        let mut s = String::from_str("update available: ");
        s.append(current);
        s.append(" -> ");
        s.append(latest);
        s
    } else {
        let mut s = String::from_str("up to date (");
        s.append(current);
        s.append(")");
        s
    }
}

/// What the self-update settled on once the release listing is known.
#[derive(Debug)]
pub struct UpgradePlan {
    /// The release tag.
    pub tag: String,
    /// The version the tag names.
    pub latest: String,
    /// Whether that version is newer than the running one.
    pub newer: bool,
    pub step: UpgradeStep,
    /// For an install: the asset's name and API address.
    pub asset: Option<(String, String)>,
}

/// The plan as plain values: tag, version, whether newer, step, and the
/// asset's name and address.
pub open spec fn plan_view(p: UpgradePlan) -> (Seq<char>, Seq<char>, bool, UpgradeStep, Option<(Seq<char>, Seq<char>)>) {
    (p.tag@, p.latest@, p.newer, p.step, match p.asset {
        Some((n, u)) => Some((n@, u@)),
        None => None,
    })
}

pub open spec fn step_spec(check: bool, newer: bool, force: bool) -> UpgradeStep {
    if check {
        UpgradeStep::Report
    } else if !newer && !force {
        UpgradeStep::UpToDate
    } else {
        UpgradeStep::Install
    }
}

/// The self-update's decisions for a release with tag `tag` (if the listing
/// has one) and the given assets: the release must name its tag; `--check`
/// only reports; an up-to-date, unforced run does nothing; an install needs
/// the first asset built for `target`, and that asset's address.
pub open spec fn upgrade_outcome(
    current: Seq<char>,
    target: Seq<char>,
    tag: Option<Seq<char>>,
    assets: Seq<ReleaseAsset>,
    check: bool,
    force: bool,
) -> Result<(Seq<char>, Seq<char>, bool, UpgradeStep, Option<(Seq<char>, Seq<char>)>), (i32, Seq<char>)> {
    match tag {
        None => Err((6i32, "release is missing tag_name"@)),
        Some(t) => {
            let latest = strip_leading(t, 'v');
            let newer = is_newer(latest, current);
            let step = step_spec(check, newer, force);
            if step != UpgradeStep::Install {
                Ok((t, latest, newer, step, None))
            } else {
                match first_asset(assets, target) {
                    None => Err((6i32, "release "@ + t + " has no asset for target "@ + target)),
                    Some(i) => match assets[i].url {
                        None => Err((6i32, "asset is missing its API url"@)),
                        Some(u) => Ok((t, latest, newer, step, Some((match assets[i].name {
                            Some(n) => n@,
                            None => "asset"@,
                        }, u@)))),
                    },
                }
            }
        },
    }
}

/// Decides what `upgrade` does with a release listing; see
/// `upgrade_outcome`.
pub fn plan_upgrade(
    current: &str,
    target: &str,
    tag: Option<&str>,
    assets: &[ReleaseAsset],
    check: bool,
    force: bool,
) -> (r: Result<UpgradePlan, CliError>)
    ensures
        match r {
            Ok(p) => upgrade_outcome(current@, target@, text_view(tag), assets@, check, force) == Ok::<_, (i32, Seq<char>)>(plan_view(p)),
            Err(e) => upgrade_outcome(current@, target@, text_view(tag), assets@, check, force) == Err::<(Seq<char>, Seq<char>, bool, UpgradeStep, Option<(Seq<char>, Seq<char>)>), _>((e.code, e.message@)),
        },
{
    let t = match tag {
        Some(t) => t,
        None => {
            return Err(CliError::with_text(6, "release is missing tag_name"));
        },
    };
    let latest = release_version(t);
    let newer = version_is_newer(latest, current);
    let step = upgrade_step(check, newer, force);
    if step != UpgradeStep::Install {
        return Ok(UpgradePlan { tag: String::from_str(t), latest: String::from_str(latest), newer, step, asset: None });
    }
    let i = match select_asset(assets, target) {
        Some(i) => i,
        None => {
            return Err(missing_asset_error(t, target));
        },
    };
    let url = match &assets[i].url {
        Some(u) => u.clone(),
        None => {
            return Err(CliError::with_text(6, "asset is missing its API url"));
        },
    };
    let name = match &assets[i].name {
        Some(n) => n.clone(),
        None => String::from_str("asset"),
    };
    proof {
        reveal_strlit("asset");
    }
    Ok(UpgradePlan { tag: String::from_str(t), latest: String::from_str(latest), newer, step, asset: Some((name, url)) })
}

/// What the self-update decides, for every release listing: a listing
/// without a tag is refused; otherwise the plan names the tag and the
/// version it gives (without leading `v`s) and whether that is newer than
/// the running version; `--check` only reports; otherwise it installs
/// exactly when the release is newer or `--force` is given, and then always
/// with the first asset built for the target; a refusal other than the
/// missing tag only ever comes from installing without such an asset or
/// without its address.
pub proof fn law_upgrade_decision(
    current: Seq<char>,
    target: Seq<char>,
    tag: Option<Seq<char>>,
    assets: Seq<ReleaseAsset>,
    check: bool,
    force: bool,
)
    ensures
        tag is None ==> upgrade_outcome(current, target, tag, assets, check, force) is Err,
        tag is Some && check ==> upgrade_outcome(current, target, tag, assets, check, force) is Ok,
        match upgrade_outcome(current, target, tag, assets, check, force) {
            Ok((t, latest, newer, step, asset)) => {
                &&& tag == Some(t)
                &&& latest == strip_leading(t, 'v')
                &&& newer == is_newer(latest, current)
                &&& check ==> step == UpgradeStep::Report
                &&& !check ==> (step == UpgradeStep::Install <==> (newer || force))
                &&& !check && !(newer || force) ==> step == UpgradeStep::UpToDate
                &&& step == UpgradeStep::Install ==> match (asset, first_asset(assets, target)) {
                    (Some((n, u)), Some(i)) => 0 <= i < assets.len() && match (assets[i].name, assets[i].url) {
                        (Some(an), Some(au)) => an@ == n && au@ == u,
                        _ => false,
                    },
                    _ => false,
                }
                &&& step != UpgradeStep::Install ==> asset is None
            },
            Err((code, _)) => {
                &&& code == 6
                &&& tag is Some ==> !check && match first_asset(assets, target) {
                    Some(i) => 0 <= i < assets.len() && assets[i].url is None,
                    None => true,
                }
            },
        },
{
    if let Some(t) = tag {
        let latest = strip_leading(t, 'v');
        let newer = is_newer(latest, current);
        if !check && (newer || force) {
            if let Some(i) = first_asset(assets, target) {
                lemma_first_asset_found(assets, target);
            }
        }
    }
}

proof fn lemma_first_asset_found(s: Seq<ReleaseAsset>, target: Seq<char>)
    ensures
        first_asset(s, target) matches Some(i) ==> 0 <= i < s.len() && name_matches(s[i].name, target),
    decreases s.len(),
{
    if s.len() > 0 && !name_matches(s[0].name, target) {
        lemma_first_asset_found(s.drop_first(), target);
        if let Some(i) = first_asset(s.drop_first(), target) {
            assert(s.drop_first()[i] == s[i + 1]);
        }
    }
}

} // verus!
