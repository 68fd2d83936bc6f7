//! The parts of a `/`-separated path that the tool inspects, with the
//! meaning that `std::path::Path` gives them on Unix.
use vstd::prelude::*;
use crate::text::{ascii_lower_seq, lowercase_ascii, str_eq};

verus! {

/// Index of the last `c` in `s`, or -1.
pub open spec fn rfind(s: Seq<char>, c: char) -> int
    decreases s.len(),
{
    if s.len() == 0 {
        -1
    } else if s.last() == c {
        s.len() - 1
    } else {
        rfind(s.drop_last(), c)
    }
}

pub proof fn lemma_rfind_bounds(s: Seq<char>, c: char)
    ensures
        -1 <= rfind(s, c) < s.len(),
        rfind(s, c) >= 0 ==> s[rfind(s, c)] == c,
        forall|i: int| rfind(s, c) < i < s.len() ==> s[i] != c,
    decreases s.len(),
{
    if s.len() > 0 && s.last() != c {
        lemma_rfind_bounds(s.drop_last(), c);
        assert forall|i: int| rfind(s, c) < i < s.len() implies s[i] != c by {
            if i < s.len() - 1 {
                assert(s[i] == s.drop_last()[i]);
            }
        }
    }
}

proof fn lemma_rfind_is(s: Seq<char>, c: char, k: int)
    requires
        -1 <= k < s.len(),
        k >= 0 ==> s[k] == c,
        forall|i: int| k < i < s.len() ==> s[i] != c,
    ensures
        rfind(s, c) == k,
    decreases s.len(),
{
    if s.len() > 0 && k < s.len() - 1 {
        assert(s.last() != c);
        assert forall|i: int| k < i < s.drop_last().len() implies s.drop_last()[i] != c by {
            assert(s.drop_last()[i] == s[i]);
        }
        lemma_rfind_is(s.drop_last(), c, k);
    }
}

pub proof fn lemma_rfind_is_pub(s: Seq<char>, c: char, k: int)
    requires
        -1 <= k < s.len(),
        k >= 0 ==> s[k] == c,
        forall|i: int| k < i < s.len() ==> s[i] != c,
    ensures
        rfind(s, c) == k,
{
    lemma_rfind_is(s, c, k);
}

/// The last component of a path, as `Path::file_name` finds it: trailing
/// `/` and `.` components are skipped; a final `..`, a bare root or an
/// empty path have none.
pub open spec fn file_name_spec(p: Seq<char>) -> Option<Seq<char>>
    decreases p.len(),
{
    if p.len() == 0 {
        None
    } else if p.last() == '/' {
        file_name_spec(p.drop_last())
    } else {
        let k = rfind(p, '/') + 1;
        let seg = p.subrange(k, p.len() as int);
        if seg == seq!['.'] {
            if 0 <= k < p.len() {
                file_name_spec(p.take(k))
            } else {
                None
            }
        } else if seg == seq!['.', '.'] {
            None
        } else {
            Some(seg)
        }
    }
}

/// The extension of a file name, as `Path::extension` finds it: the text
/// after the last `.`, unless there is none, the only `.` is the first
/// character, or the name is `..`.
pub open spec fn name_extension(name: Seq<char>) -> Option<Seq<char>> {
    let d = rfind(name, '.');
    if name == seq!['.', '.'] || d <= 0 {
        None
    } else {
        Some(name.subrange(d + 1, name.len() as int))
    }
}

/// The stem of a file name, as `Path::file_stem` finds it: the text before
/// the last `.`, or the whole name when `name_extension` has none.
pub open spec fn name_stem(name: Seq<char>) -> Seq<char> {
    let d = rfind(name, '.');
    if name == seq!['.', '.'] || d <= 0 {
        name
    } else {
        name.take(d)
    }
}

pub open spec fn extension_spec(p: Seq<char>) -> Option<Seq<char>> {
    match file_name_spec(p) {
        Some(n) => name_extension(n),
        None => None,
    }
}

fn rfind_exec(s: &str, c: char, end: usize) -> (k: usize)
    requires
        end <= s@.len(),
    ensures
        k == rfind(s@.take(end as int), c) + 1,
        k <= end,
{
    let mut k = end;
    while k > 0 && s.get_char(k - 1) != c
        invariant
            k <= end <= s@.len(),
            forall|i: int| k <= i < end ==> s@[i] != c,
        decreases k,
    {
        k = k - 1;
    }
    proof {
        let t = s@.take(end as int);
        assert forall|i: int| k - 1 < i < t.len() implies t[i] != c by {
            assert(t[i] == s@[i]);
        }
        lemma_rfind_is(t, c, k - 1);
    }
    k
}

/// `Path::file_name`.
pub fn file_name(p: &str) -> (r: Option<&str>)
    ensures
        match file_name_spec(p@) {
            Some(n) => r matches Some(x) && x@ == n,
            None => r is None,
        },
{
    let n = p.unicode_len();
    let mut end = n;
    assert(p@.take(n as int) =~= p@);
    loop
        invariant
            n == p@.len(),
            end <= n,
            file_name_spec(p@) == file_name_spec(p@.take(end as int)),
        decreases end,
    {
        let ghost t = p@.take(end as int);
        if end == 0 {
            return None;
        }
        if p.get_char(end - 1) == '/' {
            assert(t.drop_last() =~= p@.take(end - 1));
            end = end - 1;
        } else {
            let k = rfind_exec(p, '/', end);
            let seg = p.substring_char(k, end);
            assert(seg@ =~= t.subrange(k as int, t.len() as int));
            proof {
                lemma_rfind_bounds(t, '/');
            }
            if str_eq(seg, ".") {
                proof {
                    reveal_strlit(".");
                }
                assert(seg@ =~= seq!['.']);
                assert(t.take(k as int) =~= p@.take(k as int));
                end = k;
            } else if str_eq(seg, "..") {
                proof {
                    reveal_strlit("..");
                }
                assert(seg@ =~= seq!['.', '.']);
                return None;
            } else {
                proof {
                    reveal_strlit(".");
                    reveal_strlit("..");
                    assert("."@ =~= seq!['.']);
                    assert(".."@ =~= seq!['.', '.']);
                }
                assert(seg@ != seq!['.']);
                assert(seg@ != seq!['.', '.']);
                return Some(seg);
            }
        }
    }
}

/// `Path::extension` of a file name.
pub fn name_extension_of(name: &str) -> (r: Option<&str>)
    ensures
        match name_extension(name@) {
            Some(e) => r matches Some(x) && x@ == e,
            None => r is None,
        },
{
    let n = name.unicode_len();
    assert(name@.take(n as int) =~= name@);
    let d = rfind_exec(name, '.', n);
    proof {
        reveal_strlit("..");
        assert(".."@ =~= seq!['.', '.']);
    }
    if str_eq(name, "..") || d <= 1 {
        None
    } else {
        let e = name.substring_char(d, n);
        Some(e)
    }
}

/// `Path::file_stem` of a file name.
pub fn name_stem_of(name: &str) -> (r: &str)
    ensures
        r@ == name_stem(name@),
{
    let n = name.unicode_len();
    assert(name@.take(n as int) =~= name@);
    let d = rfind_exec(name, '.', n);
    proof {
        reveal_strlit("..");
        assert(".."@ =~= seq!['.', '.']);
    }
    if str_eq(name, "..") || d <= 1 {
        name
    } else {
        let s = name.substring_char(0, d - 1);
        assert(s@ =~= name@.take(d - 1));
        s
    }
}

/// `Path::extension`.
pub fn extension(p: &str) -> (r: Option<&str>)
    ensures
        match extension_spec(p@) {
            Some(e) => r matches Some(x) && x@ == e,
            None => r is None,
        },
{
    match file_name(p) {
        Some(n) => name_extension_of(n),
        None => None,
    }
}

/// The extension of `p` in ASCII lower case, or empty when it has none:
/// `p.extension().and_then(OsStr::to_str).unwrap_or("").to_ascii_lowercase()`.
pub open spec fn lower_extension(p: Seq<char>) -> Seq<char> {
    match extension_spec(p) {
        Some(e) => ascii_lower_seq(e),
        None => Seq::<char>::empty(),
    }
}

pub fn lowercase_extension(p: &str) -> (r: String)
    ensures
        r@ == lower_extension(p@),
{
    match extension(p) {
        Some(e) => lowercase_ascii(e),
        None => {
            let r = String::new();
            r
        },
    }
}

} // verus!
