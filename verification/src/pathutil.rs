//! Paths as sequences of characters.
//!
//! The surrounding program hands paths in as plain character vectors
//! (one entry per Unicode scalar value); everything here is defined over
//! their `Seq<char>` views.

use vstd::prelude::*;
use vstd::string::StrSliceExecFns;

verus! {

/// A filesystem path, one `char` per Unicode scalar value.
pub type PathChars = Vec<char>;

/// True when `pre` is a prefix of `s`.
pub open spec fn is_prefix_of(pre: Seq<char>, s: Seq<char>) -> bool {
    pre.len() <= s.len() && s.subrange(0, pre.len() as int) == pre
}

/// True when `suf` is a suffix of `s`.
pub open spec fn is_suffix_of(suf: Seq<char>, s: Seq<char>) -> bool {
    suf.len() <= s.len() && s.subrange(s.len() - suf.len(), s.len() as int) == suf
}

/// Character-wise prefix test.
pub fn starts_with(s: &Vec<char>, pre: &Vec<char>) -> (r: bool)
    ensures
        r == is_prefix_of(pre@, s@),
{
    if pre.len() > s.len() {
        return false;
    }
    let mut i: usize = 0;
    while i < pre.len()
        invariant
            i <= pre.len() <= s.len(),
            forall|j: int| 0 <= j < i ==> s@[j] == pre@[j],
        decreases pre.len() - i,
    {
        if s[i] != pre[i] {
            assert(s@.subrange(0, pre.len() as int)[i as int] != pre@[i as int]);
            return false;
        }
        i += 1;
    }
    assert(s@.subrange(0, pre.len() as int) =~= pre@);
    true
}

/// Character-wise suffix test.
pub fn ends_with(s: &Vec<char>, suf: &Vec<char>) -> (r: bool)
    ensures
        r == is_suffix_of(suf@, s@),
{
    if suf.len() > s.len() {
        return false;
    }
    let off = s.len() - suf.len();
    let mut i: usize = 0;
    while i < suf.len()
        invariant
            i <= suf.len() <= s.len(),
            off == s.len() - suf.len(),
            forall|j: int| 0 <= j < i ==> s@[off + j] == suf@[j],
        decreases suf.len() - i,
    {
        if s[off + i] != suf[i] {
            assert(s@.subrange(s@.len() - suf@.len(), s@.len() as int)[i as int] != suf@[i as int]);
            return false;
        }
        i += 1;
    }
    assert(s@.subrange(s@.len() - suf@.len(), s@.len() as int) =~= suf@);
    true
}

/// Character-wise equality of two paths.
pub fn chars_eq(a: &Vec<char>, b: &Vec<char>) -> (r: bool)
    ensures
        r == (a@ == b@),
{
    if a.len() != b.len() {
        assert(a@ != b@);
        return false;
    }
    let mut i: usize = 0;
    while i < a.len()
        invariant
            i <= a.len(),
            a.len() == b.len(),
            forall|j: int| 0 <= j < i ==> a@[j] == b@[j],
        decreases a.len() - i,
    {
        if a[i] != b[i] {
            return false;
        }
        i += 1;
    }
    assert(a@ =~= b@);
    true
}

/// Copies the characters of a string slice into a vector.
pub fn str_to_chars(s: &str) -> (v: Vec<char>)
    ensures
        v@ == s@,
{
    let n = s.unicode_len();
    let mut v: Vec<char> = Vec::new();
    let mut i: usize = 0;
    while i < n
        invariant
            i <= n,
            n == s@.len(),
            v@ == s@.subrange(0, i as int),
        decreases n - i,
    {
        v.push(s.get_char(i));
        assert(v@ =~= s@.subrange(0, i + 1 as int));
        i += 1;
    }
    assert(v@ =~= s@);
    v
}

/// The deep view of a table of paths gives, entry by entry, the view of
/// each path.
pub proof fn lemma_deep_view_entry(v: &Vec<Vec<char>>, i: int)
    requires
        0 <= i < v@.len(),
    ensures
        v.deep_view()[i] == v@[i]@,
{
    assert(v.deep_view()[i] =~= v@[i]@);
}

/// `s` with every `/` replaced by the separator of the host platform.
pub open spec fn normalized(s: Seq<char>, sep: char) -> Seq<char> {
    s.map_values(|c: char| if c == '/' { sep } else { c })
}

/// Replaces `/` by the platform separator, so that one table of paths,
/// written with `/`, serves every platform.
pub fn normalize_seps(s: &Vec<char>, sep: char) -> (v: Vec<char>)
    ensures
        v@ == normalized(s@, sep),
{
    let mut v: Vec<char> = Vec::new();
    let mut i: usize = 0;
    while i < s.len()
        invariant
            i <= s.len(),
            v@ == normalized(s@.subrange(0, i as int), sep),
        decreases s.len() - i,
    {
        let c = s[i];
        if c == '/' {
            v.push(sep);
        } else {
            v.push(c);
        }
        assert(v@ =~= normalized(s@.subrange(0, i + 1 as int), sep)) by {
            assert(s@.subrange(0, i + 1 as int) =~= s@.subrange(0, i as int).push(s@[i as int]));
        }
        i += 1;
    }
    assert(s@.subrange(0, s@.len() as int) =~= s@);
    v
}

/// `base`, a separator, then `rel` with its `/` normalized.
pub open spec fn joined(base: Seq<char>, sep: char, rel: Seq<char>) -> Seq<char> {
    base + seq![sep] + normalized(rel, sep)
}

/// Appends a relative entry (written with `/`) to a base path.
pub fn path_join(base: &Vec<char>, sep: char, rel: &Vec<char>) -> (v: Vec<char>)
    ensures
        v@ == joined(base@, sep, rel@),
{
    let mut v = base.clone();
    v.push(sep);
    let mut tail = normalize_seps(rel, sep);
    v.append(&mut tail);
    assert(v@ =~= joined(base@, sep, rel@));
    v
}

/// The position of the last occurrence of `c` in `s`, or `-1` if none.
pub open spec fn last_index_of(s: Seq<char>, c: char) -> int
    decreases s.len(),
{
    if s.len() == 0 {
        -1
    } else if s[s.len() - 1] == c {
        s.len() - 1
    } else {
        last_index_of(s.drop_last(), c)
    }
}

proof fn lemma_last_index_of_found(s: Seq<char>, c: char, i: int)
    requires
        0 <= i < s.len(),
        s[i] == c,
        forall|j: int| i < j < s.len() ==> s[j] != c,
    ensures
        last_index_of(s, c) == i,
    decreases s.len(),
{
    if i == s.len() - 1 {
    } else {
        lemma_last_index_of_found(s.drop_last(), c, i);
    }
}

proof fn lemma_last_index_of_none(s: Seq<char>, c: char)
    requires
        forall|j: int| 0 <= j < s.len() ==> s[j] != c,
    ensures
        last_index_of(s, c) == -1,
    decreases s.len(),
{
    if s.len() > 0 {
        lemma_last_index_of_none(s.drop_last(), c);
    }
}

/// The position of the last occurrence of `c`, as the scan finds it.
pub fn rfind(s: &Vec<char>, c: char) -> (r: Option<usize>)
    ensures
        match r {
            Some(i) => i < s@.len() && last_index_of(s@, c) == i,
            None => last_index_of(s@, c) == -1,
        },
{
    let mut i: usize = s.len();
    while i > 0
        invariant
            i <= s.len(),
            forall|j: int| i <= j < s@.len() ==> s@[j] != c,
        decreases i,
    {
        i -= 1;
        if s[i] == c {
            proof {
                lemma_last_index_of_found(s@, c, i as int);
            }
            return Some(i);
        }
    }
    proof {
        lemma_last_index_of_none(s@, c);
    }
    None
}

/// The part of `path` before its last separator: its parent directory.
pub open spec fn parent_of(path: Seq<char>, sep: char) -> Seq<char>
    recommends
        last_index_of(path, sep) >= 0,
{
    path.subrange(0, last_index_of(path, sep))
}

/// True when `path` has a parent in this model: it contains a separator.
pub open spec fn has_parent(path: Seq<char>, sep: char) -> bool {
    last_index_of(path, sep) >= 0
}

/// The parent directory of `path`, or `None` when it has no separator.
pub fn parent(path: &Vec<char>, sep: char) -> (r: Option<Vec<char>>)
    ensures
        match r {
            Some(p) => has_parent(path@, sep) && p@ == parent_of(path@, sep),
            None => !has_parent(path@, sep),
        },
{
    match rfind(path, sep) {
        Some(i) => {
            let mut p: Vec<char> = Vec::new();
            let mut j: usize = 0;
            while j < i
                invariant
                    j <= i < path@.len(),
                    p@ == path@.subrange(0, j as int),
                decreases i - j,
            {
                p.push(path[j]);
                assert(p@ =~= path@.subrange(0, j + 1 as int));
                j += 1;
            }
            Some(p)
        },
        None => None,
    }
}

/// The part of `path` after its last separator (the whole of `path`
/// when it has none): its file name.
pub open spec fn file_name_of(path: Seq<char>, sep: char) -> Seq<char> {
    path.subrange(last_index_of(path, sep) + 1, path.len() as int)
}

/// The file name of `path`: everything after the last separator.
pub fn file_name(path: &Vec<char>, sep: char) -> (r: Vec<char>)
    ensures
        r@ == file_name_of(path@, sep),
{
    let plen = path.len();
    let start: usize = match rfind(path, sep) {
        Some(i) => {
            assert(i < plen);
            i + 1
        },
        None => 0,
    };
    let mut r: Vec<char> = Vec::new();
    let mut j: usize = start;
    while j < path.len()
        invariant
            start <= j <= path@.len(),
            start == last_index_of(path@, sep) + 1,
            r@ == path@.subrange(start as int, j as int),
        decreases path.len() - j,
    {
        r.push(path[j]);
        assert(r@ =~= path@.subrange(start as int, j + 1 as int));
        j += 1;
    }
    r
}

/// Lower-case image of an ASCII letter; any other character is unchanged.
pub open spec fn lower_char(c: char) -> char {
    if 'A' <= c && c <= 'Z' {
        (((c as u8) + 32) as char)
    } else {
        c
    }
}

/// Upper-case image of an ASCII letter; any other character is unchanged.
pub open spec fn upper_char(c: char) -> char {
    if 'a' <= c && c <= 'z' {
        (((c as u8) - 32) as char)
    } else {
        c
    }
}

/// `s` with every ASCII letter lower-cased.
pub open spec fn lowered(s: Seq<char>) -> Seq<char> {
    s.map_values(|c: char| lower_char(c))
}

/// `s` with every ASCII letter upper-cased.
pub open spec fn uppered(s: Seq<char>) -> Seq<char> {
    s.map_values(|c: char| upper_char(c))
}

/// ASCII lower-casing, character by character.
pub fn to_lowercase(s: &Vec<char>) -> (v: Vec<char>)
    ensures
        v@ == lowered(s@),
{
    let mut v: Vec<char> = Vec::new();
    let mut i: usize = 0;
    while i < s.len()
        invariant
            i <= s.len(),
            v@ == lowered(s@.subrange(0, i as int)),
        decreases s.len() - i,
    {
        let c = s[i];
        if 'A' <= c && c <= 'Z' {
            v.push(((c as u8) + 32) as char);
        } else {
            v.push(c);
        }
        assert(v@ =~= lowered(s@.subrange(0, i + 1 as int))) by {
            assert(s@.subrange(0, i + 1 as int) =~= s@.subrange(0, i as int).push(s@[i as int]));
        }
        i += 1;
    }
    assert(s@.subrange(0, s@.len() as int) =~= s@);
    v
}

/// ASCII upper-casing, character by character.
pub fn to_uppercase(s: &Vec<char>) -> (v: Vec<char>)
    ensures
        v@ == uppered(s@),
{
    let mut v: Vec<char> = Vec::new();
    let mut i: usize = 0;
    while i < s.len()
        invariant
            i <= s.len(),
            v@ == uppered(s@.subrange(0, i as int)),
        decreases s.len() - i,
    {
        let c = s[i];
        if 'a' <= c && c <= 'z' {
            v.push(((c as u8) - 32) as char);
        } else {
            v.push(c);
        }
        assert(v@ =~= uppered(s@.subrange(0, i + 1 as int))) by {
            assert(s@.subrange(0, i + 1 as int) =~= s@.subrange(0, i as int).push(s@[i as int]));
        }
        i += 1;
    }
    assert(s@.subrange(0, s@.len() as int) =~= s@);
    v
}

/// True when `pat` occurs in `s` at position `i`.
pub open spec fn occurs_at(s: Seq<char>, pat: Seq<char>, i: int) -> bool {
    0 <= i && i + pat.len() <= s.len() && s.subrange(i, i + pat.len()) == pat
}

/// True when `pat` occurs somewhere in `s`.
pub open spec fn contains_seq(s: Seq<char>, pat: Seq<char>) -> bool {
    exists|i: int| occurs_at(s, pat, i)
}

fn matches_at(s: &Vec<char>, pat: &Vec<char>, i: usize) -> (r: bool)
    requires
        i + pat@.len() <= s@.len(),
    ensures
        r == occurs_at(s@, pat@, i as int),
{
    let slen = s.len();
    let mut j: usize = 0;
    while j < pat.len()
        invariant
            j <= pat@.len(),
            i + pat@.len() <= s@.len(),
            slen == s@.len(),
            forall|k: int| 0 <= k < j ==> s@[i + k] == pat@[k],
        decreases pat.len() - j,
    {
        if s[i + j] != pat[j] {
            assert(s@.subrange(i as int, i + pat@.len())[j as int] != pat@[j as int]);
            return false;
        }
        j += 1;
    }
    assert(s@.subrange(i as int, i + pat@.len()) =~= pat@);
    true
}

/// Substring search, character by character.
pub fn contains_chars(s: &Vec<char>, pat: &Vec<char>) -> (r: bool)
    ensures
        r == contains_seq(s@, pat@),
{
    if pat.len() > s.len() {
        assert(forall|i: int| !occurs_at(s@, pat@, i));
        return false;
    }
    if pat.len() == 0 {
        assert(occurs_at(s@, pat@, 0)) by {
            assert(s@.subrange(0, 0) =~= pat@);
        }
        return true;
    }
    let last = s.len() - pat.len();
    let mut i: usize = 0;
    while i <= last
        invariant
            i <= last + 1,
            last == s@.len() - pat@.len(),
            pat@.len() >= 1,
            last < s@.len() <= usize::MAX,
            forall|k: int| 0 <= k < i ==> !occurs_at(s@, pat@, k),
        decreases last + 1 - i,
    {
        if matches_at(s, pat, i) {
            return true;
        }
        i += 1;
    }
    assert(forall|k: int| !occurs_at(s@, pat@, k));
    false
}

/// The extension of `path`: what follows the last dot of its file name.
/// Empty when the name has no dot, or only a leading one (a hidden file).
pub open spec fn extension_of(path: Seq<char>, sep: char) -> Seq<char> {
    let name = file_name_of(path, sep);
    let d = last_index_of(name, '.');
    if d <= 0 {
        Seq::empty()
    } else {
        name.subrange(d + 1, name.len() as int)
    }
}

/// The extension of `path`, as `extension_of` gives it.
pub fn extension(path: &Vec<char>, sep: char) -> (r: Vec<char>)
    ensures
        r@ == extension_of(path@, sep),
{
    let name = file_name(path, sep);
    let nlen = name.len();
    match rfind(&name, '.') {
        Some(d) if d > 0 => {
            assert(d < nlen);
            let mut r: Vec<char> = Vec::new();
            let mut j: usize = d + 1;
            while j < name.len()
                invariant
                    d + 1 <= j <= name@.len(),
                    r@ == name@.subrange(d + 1, j as int),
                decreases name.len() - j,
            {
                r.push(name[j]);
                assert(r@ =~= name@.subrange(d + 1, j + 1 as int));
                j += 1;
            }
            r
        },
        _ => Vec::new(),
    }
}

} // verus!
