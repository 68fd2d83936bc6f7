//! Entries of an asset manifest: a stable path, a kind, a size and a SHA-256
//! digest per file, listed in path order.
use vstd::prelude::*;
use crate::external::{sha256_digest, sha256_spec};
use crate::kinds::{kind_from_ext, kind_text};
use crate::path::lower_extension;
use crate::text::push_char;

verus! {

/// The path a manifest records for a file: its path below the input root with
/// `\` turned into `/`; when the input is that file itself (the relative path
/// is empty), its file name, or `file` when it has none.
pub open spec fn manifest_path_spec(rel: Seq<char>, name: Option<Seq<char>>) -> Seq<char> {
    let base = if rel.len() == 0 {
        match name {
            Some(n) => n,
            None => "file"@,
        }
    } else {
        rel
    };
    base.map_values(|c: char| if c == '\\' { '/' } else { c })
}

pub fn manifest_path(rel: &str, name: Option<&str>) -> (r: String)
    ensures
        r@ == manifest_path_spec(rel@, match name { Some(n) => Some(n@), None => None }),
{
    let base: &str = if rel.unicode_len() == 0 {
        match name {
            Some(n) => n,
            None => "file",
        }
    } else {
        rel
    };
    proof {
        reveal_strlit("file");
    }
    let ghost target = manifest_path_spec(rel@, match name { Some(n) => Some(n@), None => None });
    assert(base@.len() == target.len());
    let n = base.unicode_len();
    let mut out = String::new();
    let mut i: usize = 0;
    while i < n
        invariant
            n == base@.len(),
            i <= n,
            target == base@.map_values(|c: char| if c == '\\' { '/' } else { c }),
            out@ == target.subrange(0, i as int),
        decreases n - i,
    {
        let c = base.get_char(i);
        let d = if c == '\\' { '/' } else { c };
        push_char(&mut out, d);
        assert(out@ =~= target.subrange(0, i + 1));
        i = i + 1;
    }
    assert(out@ =~= target);
    out
}

/// The lower-case hexadecimal digit for a value below sixteen.
pub open spec fn hex_digit(v: int) -> char {
    if v < 10 {
        (('0' as int) + v) as char
    } else {
        (('a' as int) + v - 10) as char
    }
}

/// Bytes written as lower-case hexadecimal, two digits per byte, high digit
/// first (the `{:x}` form of a digest).
pub open spec fn hex_lower_spec(b: Seq<u8>) -> Seq<char>
    decreases b.len(),
{
    if b.len() == 0 {
        Seq::<char>::empty()
    } else {
        hex_lower_spec(b.drop_last()) + seq![hex_digit((b.last() / 16) as int), hex_digit((b.last() % 16) as int)]
    }
}

fn hex_digit_char(v: u8) -> (c: char)
    requires
        v < 16,
    ensures
        c == hex_digit(v as int),
{
    let digits: [char; 16] = ['0', '1', '2', '3', '4', '5', '6', '7', '8', '9', 'a', 'b', 'c', 'd', 'e', 'f'];
    digits[v as usize]
}

pub fn hex_lower(b: &[u8]) -> (r: String)
    ensures
        r@ == hex_lower_spec(b@),
        r@.len() == 2 * b@.len(),
{
    let mut out = String::new();
    let mut i: usize = 0;
    while i < b.len()
        invariant
            i <= b@.len(),
            out@ == hex_lower_spec(b@.subrange(0, i as int)),
            out@.len() == 2 * i,
        decreases b@.len() - i,
    {
        let v = b[i];
        push_char(&mut out, hex_digit_char(v / 16));
        push_char(&mut out, hex_digit_char(v % 16));
        assert(b@.subrange(0, i + 1).drop_last() =~= b@.subrange(0, i as int));
        i = i + 1;
    }
    assert(b@.subrange(0, b@.len() as int) =~= b@);
    out
}

/// One file of a manifest.
#[derive(Debug)]
pub struct ManifestEntry {
    pub path: String,
    pub kind: String,
    pub bytes: u64,
    pub sha256: String,
}

/// The manifest entry of a file with the given relative path (see
/// `manifest_path_spec`), path on disk and contents.
pub fn manifest_entry(rel: &str, name: Option<&str>, path: &str, contents: &[u8]) -> (e: ManifestEntry)
    ensures
        e.path@ == manifest_path_spec(rel@, match name { Some(n) => Some(n@), None => None }),
        e.kind@ == kind_text(lower_extension(path@)),
        e.bytes == contents@.len(),
        e.sha256@ == hex_lower_spec(sha256_spec(contents@)),
        e.sha256@.len() == 64,
{
    let digest = sha256_digest(contents);
    let sha256 = hex_lower(digest.as_slice());
    ManifestEntry {
        path: manifest_path(rel, name),
        kind: String::from_str(kind_from_ext(path)),
        bytes: contents.len() as u64,
        sha256,
    }
}

/// `a` comes strictly before `b` in lexicographic order of code points, which
/// is the byte order of their UTF-8 forms, the order of `str` comparison.
pub open spec fn path_less(a: Seq<char>, b: Seq<char>) -> bool
    decreases a.len(),
{
    if a.len() == 0 {
        b.len() > 0
    } else if b.len() == 0 {
        false
    } else if a[0] != b[0] {
        (a[0] as int) < (b[0] as int)
    } else {
        path_less(a.drop_first(), b.drop_first())
    }
}

proof fn lemma_path_less_transitive(a: Seq<char>, b: Seq<char>, c: Seq<char>)
    requires
        path_less(a, b),
        path_less(b, c),
    ensures
        path_less(a, c),
    decreases a.len(),
{
    if a.len() > 0 && b.len() > 0 && c.len() > 0 && a[0] == b[0] && b[0] == c[0] {
        lemma_path_less_transitive(a.drop_first(), b.drop_first(), c.drop_first());
    }
}

proof fn lemma_path_less_total(a: Seq<char>, b: Seq<char>)
    ensures
        a == b || path_less(a, b) || path_less(b, a),
    decreases a.len(),
{
    if a.len() > 0 && b.len() > 0 && a[0] == b[0] {
        lemma_path_less_total(a.drop_first(), b.drop_first());
        if a.drop_first() == b.drop_first() {
            assert(a =~= seq![a[0]] + a.drop_first());
            assert(b =~= seq![b[0]] + b.drop_first());
        }
    } else if a.len() > 0 && b.len() > 0 {
        assert((a[0] as int) != (b[0] as int));
    } else if a.len() == 0 && b.len() == 0 {
        assert(a =~= b);
    }
}

proof fn lemma_path_less_irreflexive(a: Seq<char>)
    ensures
        !path_less(a, a),
    decreases a.len(),
{
    if a.len() > 0 {
        lemma_path_less_irreflexive(a.drop_first());
    }
}

fn str_less(a: &str, b: &str) -> (r: bool)
    ensures
        r == path_less(a@, b@),
{
    let na = a.unicode_len();
    let nb = b.unicode_len();
    let mut i: usize = 0;
    assert(a@.skip(0) =~= a@);
    assert(b@.skip(0) =~= b@);
    while i < na && i < nb
        invariant
            na == a@.len(),
            nb == b@.len(),
            i <= na,
            i <= nb,
            path_less(a@, b@) == path_less(a@.skip(i as int), b@.skip(i as int)),
        decreases na - i,
    {
        let x = a.get_char(i);
        let y = b.get_char(i);
        assert(a@.skip(i as int)[0] == x);
        assert(b@.skip(i as int)[0] == y);
        if x != y {
            return (x as u32) < (y as u32);
        }
        assert(a@.skip(i as int).drop_first() =~= a@.skip(i + 1));
        assert(b@.skip(i as int).drop_first() =~= b@.skip(i + 1));
        i = i + 1;
    }
    i < nb
}

/// Entries in path order: no entry's path comes before that of an earlier one.
pub open spec fn sorted_by_path(s: Seq<ManifestEntry>) -> bool {
    forall|i: int, j: int| 0 <= i < j < s.len() ==> !path_less(#[trigger] s[j].path@, #[trigger] s[i].path@)
}

/// Where a stable insertion puts an entry with path `p`: after every entry
/// whose path is not greater than `p`.
pub open spec fn insert_pos(s: Seq<ManifestEntry>, p: Seq<char>) -> nat
    decreases s.len(),
{
    if s.len() == 0 || path_less(p, s[0].path@) {
        0
    } else {
        1 + insert_pos(s.drop_first(), p)
    }
}

/// The entries sorted by path, equal paths keeping their order (what a stable
/// sort by path gives).
pub open spec fn sort_by_path_spec(s: Seq<ManifestEntry>) -> Seq<ManifestEntry>
    decreases s.len(),
{
    if s.len() == 0 {
        s
    } else {
        let t = sort_by_path_spec(s.drop_last());
        t.insert(insert_pos(t, s.last().path@) as int, s.last())
    }
}

proof fn lemma_insert_pos_scan(s: Seq<ManifestEntry>, p: Seq<char>, j: int)
    requires
        0 <= j <= s.len(),
        forall|k: int| 0 <= k < j ==> !path_less(p, #[trigger] s[k].path@),
        j == s.len() || path_less(p, s[j].path@),
    ensures
        insert_pos(s, p) == j,
    decreases j,
{
    if j > 0 {
        assert(!path_less(p, s[0].path@));
        let t = s.drop_first();
        assert forall|k: int| 0 <= k < j - 1 implies !path_less(p, #[trigger] t[k].path@) by {
            assert(t[k] == s[k + 1]);
        }
        lemma_insert_pos_scan(t, p, j - 1);
    }
}

proof fn lemma_insert_sorted(s: Seq<ManifestEntry>, e: ManifestEntry, j: int)
    requires
        sorted_by_path(s),
        0 <= j <= s.len(),
        forall|k: int| 0 <= k < j ==> !path_less(e.path@, #[trigger] s[k].path@),
        j == s.len() || path_less(e.path@, s[j].path@),
    ensures
        sorted_by_path(s.insert(j, e)),
{
    let t = s.insert(j, e);
    assert forall|a: int, b: int| 0 <= a < b < t.len() implies !path_less(#[trigger] t[b].path@, #[trigger] t[a].path@) by {
        if a < j && b == j {
            assert(t[a] == s[a]);
        } else if a == j && b > j {
            assert(t[b] == s[b - 1]);
            if b - 1 > j {
                assert(!path_less(s[b - 1].path@, s[j].path@));
            }
            if path_less(s[b - 1].path@, e.path@) {
                lemma_path_less_transitive(s[b - 1].path@, e.path@, s[j].path@);
                if b - 1 == j {
                    lemma_path_less_irreflexive(s[j].path@);
                }
            }
        } else if b < j {
            assert(t[a] == s[a] && t[b] == s[b]);
        } else if a > j {
            assert(t[a] == s[a - 1] && t[b] == s[b - 1]);
        } else {
            assert(a < j && b > j);
            assert(t[a] == s[a] && t[b] == s[b - 1]);
        }
    }
}

proof fn lemma_sort_spec_sorted(s: Seq<ManifestEntry>)
    ensures
        sorted_by_path(sort_by_path_spec(s)),
        sort_by_path_spec(s).to_multiset() == s.to_multiset(),
        sort_by_path_spec(s).len() == s.len(),
    decreases s.len(),
{
    broadcast use vstd::seq_lib::group_to_multiset_ensures;
    if s.len() > 0 {
        let t = sort_by_path_spec(s.drop_last());
        lemma_sort_spec_sorted(s.drop_last());
        let e = s.last();
        let p = e.path@;
        let j = insert_pos(t, p) as int;
        lemma_insert_pos_bounds(t, p);
        lemma_insert_sorted(t, e, j);
        assert(s =~= s.drop_last().push(e));
    }
}

proof fn lemma_insert_pos_bounds(s: Seq<ManifestEntry>, p: Seq<char>)
    ensures
        insert_pos(s, p) <= s.len(),
        forall|k: int| 0 <= k < insert_pos(s, p) ==> !path_less(p, #[trigger] s[k].path@),
        insert_pos(s, p) == s.len() || path_less(p, s[insert_pos(s, p) as int].path@),
    decreases s.len(),
{
    if s.len() > 0 && !path_less(p, s[0].path@) {
        let t = s.drop_first();
        lemma_insert_pos_bounds(t, p);
        assert forall|k: int| 0 <= k < insert_pos(s, p) implies !path_less(p, #[trigger] s[k].path@) by {
            if k > 0 {
                assert(s[k] == t[k - 1]);
            }
        }
    }
}

/// Sorts manifest entries by path, as the manifest lists them; entries with
/// equal paths keep their order.
pub fn sort_entries(entries: Vec<ManifestEntry>) -> (r: Vec<ManifestEntry>)
    ensures
        r@ == sort_by_path_spec(entries@),
        sorted_by_path(r@),
        r@.to_multiset() == entries@.to_multiset(),
{
    let ghost orig = entries@;
    let mut rest = entries;
    let mut out: Vec<ManifestEntry> = Vec::new();
    let ghost mut taken: int = 0;
    while rest.len() > 0
        invariant
            0 <= taken <= orig.len(),
            rest@ == orig.subrange(taken, orig.len() as int),
            out@ == sort_by_path_spec(orig.subrange(0, taken)),
        decreases rest@.len(),
    {
        let e = rest.remove(0);
        let mut j: usize = 0;
        while j < out.len() && !str_less(e.path.as_str(), out[j].path.as_str())
            invariant
                j <= out@.len(),
                forall|k: int| 0 <= k < j ==> !path_less(e.path@, #[trigger] out@[k].path@),
            decreases out@.len() - j,
        {
            j = j + 1;
        }
        proof {
            lemma_insert_pos_scan(out@, e.path@, j as int);
            let pre = orig.subrange(0, taken + 1);
            assert(pre.drop_last() =~= orig.subrange(0, taken));
            assert(pre.last() == e);
        }
        out.insert(j, e);
        proof {
            taken = taken + 1;
            assert(rest@ =~= orig.subrange(taken, orig.len() as int));
        }
    }
    proof {
        assert(orig.subrange(0, taken) =~= orig);
        lemma_sort_spec_sorted(orig);
    }
    out
}

} // verus!
