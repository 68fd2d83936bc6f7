//! Release version comparison.
use vstd::prelude::*;
use crate::error::{CliError, outcome};
use crate::number::parse_u64;
use crate::text::{parse_unsigned_spec, split_on, split_seq, str_eq, views};

verus! {

/// The characters that separate the numeric fields of a version.
pub open spec fn version_separators() -> Seq<char> {
    seq!['.', '-', '+']
}

/// The value of one version field: its decimal number, or 0 when it is not
/// a number (a pre-release or build tag, or empty).
pub open spec fn field_value(p: Seq<char>) -> u64 {
    match parse_unsigned_spec(p, u64::MAX as nat) {
        Some(v) => v as u64,
        None => 0,
    }
}

/// The numeric fields of a dotted version such as `0.2.1`.
pub open spec fn version_fields(s: Seq<char>) -> Seq<u64> {
    split_seq(s, version_separators()).map_values(|p: Seq<char>| field_value(p))
}

/// Field `i` of a version, where missing trailing fields count as 0.
pub open spec fn field_at(v: Seq<u64>, i: int) -> u64 {
    if 0 <= i < v.len() {
        v[i]
    } else {
        0
    }
}

/// `a` and `b` agree on every field before `k`.
pub open spec fn same_prefix(a: Seq<u64>, b: Seq<u64>, k: int) -> bool {
    forall|j: int| 0 <= j < k ==> #[trigger] field_at(a, j) == field_at(b, j)
}

/// Field sequence `a` is greater than `b` at the first field where they
/// differ (missing fields count as 0).
pub open spec fn fields_newer(a: Seq<u64>, b: Seq<u64>) -> bool {
    exists|k: int| 0 <= k && same_prefix(a, b, k) && #[trigger] field_at(a, k) > field_at(b, k)
}

/// The version written `candidate` is newer than the version `current`.
pub open spec fn is_newer(candidate: Seq<char>, current: Seq<char>) -> bool {
    fields_newer(version_fields(candidate), version_fields(current))
}

fn version_fields_exec(s: &str) -> (r: Vec<u64>)
    ensures
        r@ == version_fields(s@),
{
    let seps = ['.', '-', '+'];
    assert(seps@ =~= version_separators());
    let pieces = split_on(s, &seps);
    let mut out: Vec<u64> = Vec::new();
    let mut i: usize = 0;
    while i < pieces.len()
        invariant
            i <= pieces@.len(),
            views(pieces@) == split_seq(s@, version_separators()),
            out@ =~= views(pieces@).take(i as int).map_values(|p: Seq<char>| field_value(p)),
        decreases pieces@.len() - i,
    {
        let v = match parse_u64(pieces[i]) {
            Some(v) => v,
            None => 0,
        };
        assert(views(pieces@)[i as int] == pieces@[i as int]@);
        out.push(v);
        assert(views(pieces@).take(i + 1) =~= views(pieces@).take(i as int).push(pieces@[i as int]@));
        i = i + 1;
    }
    assert(views(pieces@).take(pieces@.len() as int) =~= views(pieces@));
    out
}

/// Compares dotted numeric versions field by field: true when `candidate`
/// is greater at the first field where the two differ. Fields that are not
/// numbers count as 0, as do missing trailing fields, so `1.0` and `1.0.0`
/// are equal.
pub fn version_is_newer(candidate: &str, current: &str) -> (r: bool)
    ensures
        r == is_newer(candidate@, current@),
{
    let a = version_fields_exec(candidate);
    let b = version_fields_exec(current);
    let n = if a.len() > b.len() {
        a.len()
    } else {
        b.len()
    };
    let mut i: usize = 0;
    while i < n
        invariant
            n == if a@.len() > b@.len() { a@.len() } else { b@.len() },
            i <= n,
            a@ == version_fields(candidate@),
            b@ == version_fields(current@),
            same_prefix(a@, b@, i as int),
        decreases n - i,
    {
        let x = if i < a.len() {
            a[i]
        } else {
            0
        };
        let y = if i < b.len() {
            b[i]
        } else {
            0
        };
        assert(x == field_at(a@, i as int) && y == field_at(b@, i as int));
        if x != y {
            if x > y {
                assert(same_prefix(a@, b@, i as int) && field_at(a@, i as int) > field_at(b@, i as int));
                return true;
            }
            assert(!fields_newer(a@, b@)) by {
                if fields_newer(a@, b@) {
                    let k = choose|k: int| 0 <= k && same_prefix(a@, b@, k) && #[trigger] field_at(a@, k) > field_at(b@, k);
                    if k > i {
                        assert(field_at(a@, i as int) == field_at(b@, i as int));
                    } else if k < i {
                        assert(field_at(a@, k) == field_at(b@, k));
                    }
                }
            }
            return false;
        }
        i = i + 1;
    }
    assert(!fields_newer(a@, b@)) by {
        if fields_newer(a@, b@) {
            let k = choose|k: int| 0 <= k && same_prefix(a@, b@, k) && #[trigger] field_at(a@, k) > field_at(b@, k);
            if k < n {
                assert(field_at(a@, k) == field_at(b@, k));
            }
        }
    }
    false
}

/// No version is newer than itself.
pub proof fn law_version_irreflexive(v: Seq<char>)
    ensures
        !is_newer(v, v),
{
}

/// Of two versions, at most one is newer than the other.
pub proof fn law_version_asymmetric(a: Seq<char>, b: Seq<char>)
    ensures
        !(is_newer(a, b) && is_newer(b, a)),
{
    let fa = version_fields(a);
    let fb = version_fields(b);
    if is_newer(a, b) && is_newer(b, a) {
        let k1 = choose|k: int| 0 <= k && same_prefix(fa, fb, k) && #[trigger] field_at(fa, k) > field_at(fb, k);
        let k2 = choose|k: int| 0 <= k && same_prefix(fb, fa, k) && #[trigger] field_at(fb, k) > field_at(fa, k);
        if k1 < k2 {
            assert(field_at(fb, k1) == field_at(fa, k1));
        } else if k2 < k1 {
            assert(field_at(fa, k2) == field_at(fb, k2));
        }
    }
}

/// Being newer is transitive: an upgrade path never runs in a circle.
pub proof fn law_version_transitive(a: Seq<char>, b: Seq<char>, c: Seq<char>)
    requires
        is_newer(a, b),
        is_newer(b, c),
    ensures
        is_newer(a, c),
{
    let fa = version_fields(a);
    let fb = version_fields(b);
    let fc = version_fields(c);
    let k1 = choose|k: int| 0 <= k && same_prefix(fa, fb, k) && #[trigger] field_at(fa, k) > field_at(fb, k);
    let k2 = choose|k: int| 0 <= k && same_prefix(fb, fc, k) && #[trigger] field_at(fb, k) > field_at(fc, k);
    let k = if k1 < k2 {
        k1
    } else {
        k2
    };
    assert(same_prefix(fa, fc, k)) by {
        assert forall|j: int| 0 <= j < k implies #[trigger] field_at(fa, j) == field_at(fc, j) by {
            assert(field_at(fa, j) == field_at(fb, j));
            assert(field_at(fb, j) == field_at(fc, j));
        }
    }
    if k1 < k2 {
        assert(field_at(fb, k1) == field_at(fc, k1));
    } else if k2 < k1 {
        assert(field_at(fa, k2) == field_at(fb, k2));
    }
    assert(field_at(fa, k) > field_at(fc, k));
}

proof fn lemma_first_difference(a: Seq<u64>, b: Seq<u64>, k0: int)
    requires
        0 <= k0,
        field_at(a, k0) != field_at(b, k0),
    ensures
        exists|k: int| 0 <= k <= k0 && same_prefix(a, b, k) && #[trigger] field_at(a, k) != field_at(b, k),
    decreases k0,
{
    if !same_prefix(a, b, k0) {
        let j = choose|j: int| 0 <= j < k0 && #[trigger] field_at(a, j) != field_at(b, j);
        lemma_first_difference(a, b, j);
    }
}

/// Versions are totally ordered once missing fields count as 0: of two
/// versions, one is newer, or the other is, or they have the same numeric
/// fields (as `1.0` and `1.0.0`, or `1.0.0-rc1` and `1.0.0`, whose tag
/// counts as 0), and then neither is newer.
pub proof fn law_version_trichotomy(a: Seq<char>, b: Seq<char>)
    ensures
        is_newer(a, b) || is_newer(b, a) || (forall|k: int| 0 <= k ==> #[trigger] field_at(version_fields(a), k) == field_at(version_fields(b), k)),
        (forall|k: int| 0 <= k ==> #[trigger] field_at(version_fields(a), k) == field_at(version_fields(b), k)) ==> !is_newer(a, b) && !is_newer(b, a),
{
    let fa = version_fields(a);
    let fb = version_fields(b);
    if exists|k0: int| 0 <= k0 && #[trigger] field_at(fa, k0) != field_at(fb, k0) {
        let k0 = choose|k0: int| 0 <= k0 && #[trigger] field_at(fa, k0) != field_at(fb, k0);
        lemma_first_difference(fa, fb, k0);
        let k = choose|k: int| 0 <= k <= k0 && same_prefix(fa, fb, k) && #[trigger] field_at(fa, k) != field_at(fb, k);
        if field_at(fa, k) > field_at(fb, k) {
            assert(is_newer(a, b));
        } else {
            assert(same_prefix(fb, fa, k));
            assert(is_newer(b, a));
        }
    }
    if forall|k: int| 0 <= k ==> #[trigger] field_at(fa, k) == field_at(fb, k) {
        if is_newer(a, b) {
            let k = choose|k: int| 0 <= k && same_prefix(fa, fb, k) && #[trigger] field_at(fa, k) > field_at(fb, k);
            assert(field_at(fa, k) == field_at(fb, k));
        }
        if is_newer(b, a) {
            let k = choose|k: int| 0 <= k && same_prefix(fb, fa, k) && #[trigger] field_at(fb, k) > field_at(fa, k);
            assert(field_at(fa, k) == field_at(fb, k));
        }
    }
}

/// The release target triple of a platform, named by `std::env::consts::OS`
/// and `ARCH`.
pub open spec fn target_spec(os: Seq<char>, arch: Seq<char>) -> Option<Seq<char>> {
    if os == "macos"@ && arch == "aarch64"@ {
        Some("aarch64-apple-darwin"@)
    } else if os == "macos"@ && arch == "x86_64"@ {
        Some("x86_64-apple-darwin"@)
    } else if os == "linux"@ && arch == "x86_64"@ {
        Some("x86_64-unknown-linux-gnu"@)
    } else if os == "windows"@ && arch == "x86_64"@ {
        Some("x86_64-pc-windows-msvc"@)
    } else {
        None
    }
}

/// The triple of the prebuilt release binary for the platform `os`/`arch`;
/// exit code 2 for a platform without one.
pub fn current_target(os: &str, arch: &str) -> (r: Result<String, CliError>)
    ensures
        match target_spec(os@, arch@) {
            Some(t) => r matches Ok(s) && s@ == t,
            None => outcome(r) == Err::<String, _>(
                (2i32, "no prebuilt binary is published for "@ + os@ + "/"@ + arch@),
            ),
        },
{
    let triple = if str_eq(os, "macos") && str_eq(arch, "aarch64") {
        "aarch64-apple-darwin"
    } else if str_eq(os, "macos") && str_eq(arch, "x86_64") {
        "x86_64-apple-darwin"
    } else if str_eq(os, "linux") && str_eq(arch, "x86_64") {
        "x86_64-unknown-linux-gnu"
    } else if str_eq(os, "windows") && str_eq(arch, "x86_64") {
        "x86_64-pc-windows-msvc"
    } else {
        let mut m = String::from_str("no prebuilt binary is published for ");
        m.append(os);
        m.append("/");
        m.append(arch);
        return Err(CliError::new(2, m));
    };
    Ok(String::from_str(triple))
}

} // verus!
