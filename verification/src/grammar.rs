//! The archive-filename grammar: the single naming convention
//! `name-version-release-arch.pkg.tar.zst` that validates and parses every
//! catalog entry. The logical package name may itself contain hyphens; the
//! version is one or more dot-separated numeric groups; the release is an
//! integer; the architecture is `any` or `x86_64`.

use vstd::prelude::*;
use vstd::string::*;

use crate::strutil::to_chars;

verus! {

/// An ASCII decimal digit.
pub open spec fn is_digit(c: char) -> bool {
    48 <= c as u32 && c as u32 <= 57
}

/// The fixed extension `.pkg.tar.zst`.
pub open spec fn suffix_spec() -> Seq<char> {
    seq!['.', 'p', 'k', 'g', '.', 't', 'a', 'r', '.', 'z', 's', 't']
}

/// The architecture `any`.
pub open spec fn arch_any() -> Seq<char> {
    seq!['a', 'n', 'y']
}

/// The architecture `x86_64`.
pub open spec fn arch_x86_64() -> Seq<char> {
    seq!['x', '8', '6', '_', '6', '4']
}

/// The optional distribution prefix `archcraft-` that exact-name resolution
/// accepts in front of the requested package name.
pub open spec fn archcraft_prefix() -> Seq<char> {
    seq!['a', 'r', 'c', 'h', 'c', 'r', 'a', 'f', 't', '-']
}

/// One or more dot-separated groups of digits: digits and dots only, starting
/// and ending with a digit, with no two adjacent dots.
pub open spec fn is_version_seq(s: Seq<char>) -> bool {
    &&& s.len() > 0
    &&& is_digit(s[0])
    &&& is_digit(s[s.len() - 1])
    &&& forall|i: int| 0 <= i < s.len() ==> is_digit(#[trigger] s[i]) || s[i] == '.'
    &&& forall|i: int| 0 <= i < s.len() - 1 ==> !((#[trigger] s[i]) == '.' && s[i + 1] == '.')
}

/// A non-empty run of digits.
pub open spec fn is_release_seq(s: Seq<char>) -> bool {
    s.len() > 0 && forall|i: int| 0 <= i < s.len() ==> is_digit(#[trigger] s[i])
}

/// One of the two accepted architectures.
pub open spec fn is_arch_seq(s: Seq<char>) -> bool {
    s == arch_any() || s == arch_x86_64()
}

/// The hyphens at positions `p1 < p2 < p3` split `s` as
/// `name "-" version "-" release "-" arch ".pkg.tar.zst"`, with a non-empty
/// name and well-formed version, release and architecture.
pub open spec fn valid_split(s: Seq<char>, p1: int, p2: int, p3: int) -> bool {
    &&& 1 <= p1 && p1 < p2 && p2 < p3 && p3 < s.len() - 12
    &&& s[p1] == '-' && s[p2] == '-' && s[p3] == '-'
    &&& is_version_seq(s.subrange(p1 + 1, p2))
    &&& is_release_seq(s.subrange(p2 + 1, p3))
    &&& is_arch_seq(s.subrange(p3 + 1, s.len() - 12))
    &&& s.subrange(s.len() - 12, s.len() as int) == suffix_spec()
}

/// `s` follows the archive-filename grammar.
pub open spec fn is_archive_name_seq(s: Seq<char>) -> bool {
    exists|p: (int, int, int)| valid_split(s, p.0, p.1, p.2)
}

/// The (unique) splitting hyphen positions of a grammar-valid filename.
pub open spec fn split_of(s: Seq<char>) -> (int, int, int) {
    choose|p: (int, int, int)| valid_split(s, p.0, p.1, p.2)
}

/// The logical package name: everything before the version-release-arch tail.
pub open spec fn name_of(s: Seq<char>) -> Seq<char> {
    s.subrange(0, split_of(s).0)
}

/// The version component of a grammar-valid filename.
pub open spec fn version_of(s: Seq<char>) -> Seq<char> {
    s.subrange(split_of(s).0 + 1, split_of(s).1)
}

/// The release component of a grammar-valid filename.
pub open spec fn release_of(s: Seq<char>) -> Seq<char> {
    s.subrange(split_of(s).1 + 1, split_of(s).2)
}

/// The architecture component of a grammar-valid filename.
pub open spec fn arch_of(s: Seq<char>) -> Seq<char> {
    s.subrange(split_of(s).2 + 1, s.len() - 12)
}

/// A well-formed version contains no hyphen.
proof fn lemma_version_no_hyphen(v: Seq<char>)
    requires
        is_version_seq(v),
    ensures
        forall|k: int| 0 <= k < v.len() ==> (#[trigger] v[k]) != '-',
{
    assert forall|k: int| 0 <= k < v.len() implies (#[trigger] v[k]) != '-' by {
        assert(is_digit(v[k]) || v[k] == '.');
    }
}

/// A well-formed release contains no hyphen.
proof fn lemma_release_no_hyphen(r: Seq<char>)
    requires
        is_release_seq(r),
    ensures
        forall|k: int| 0 <= k < r.len() ==> (#[trigger] r[k]) != '-',
{
    assert forall|k: int| 0 <= k < r.len() implies (#[trigger] r[k]) != '-' by {
        assert(is_digit(r[k]));
    }
}

/// Neither accepted architecture contains a hyphen.
proof fn lemma_arch_no_hyphen(a: Seq<char>)
    requires
        is_arch_seq(a),
    ensures
        forall|k: int| 0 <= k < a.len() ==> (#[trigger] a[k]) != '-',
{
    assert forall|k: int| 0 <= k < a.len() implies (#[trigger] a[k]) != '-' by {
        if a == arch_any() {
            assert(a[k] == arch_any()[k]);
            if k == 0 {
                assert(arch_any()[0] == 'a');
            } else if k == 1 {
                assert(arch_any()[1] == 'n');
            } else {
                assert(arch_any()[2] == 'y');
            }
        } else {
            assert(a[k] == arch_x86_64()[k]);
            if k == 0 {
                assert(arch_x86_64()[0] == 'x');
            } else if k == 1 {
                assert(arch_x86_64()[1] == '8');
            } else if k == 2 {
                assert(arch_x86_64()[2] == '6');
            } else if k == 3 {
                assert(arch_x86_64()[3] == '_');
            } else if k == 4 {
                assert(arch_x86_64()[4] == '6');
            } else {
                assert(arch_x86_64()[5] == '4');
            }
        }
    }
}

/// In a valid split, the last hyphen strictly before the suffix is `p3`.
proof fn lemma_p3_determined(s: Seq<char>, p1: int, p2: int, p3: int, h: int)
    requires
        valid_split(s, p1, p2, p3),
        0 <= h < s.len() - 12,
        s[h] == '-',
        forall|j: int| h < j < s.len() - 12 ==> (#[trigger] s[j]) != '-',
    ensures
        p3 == h,
{
    let a = s.subrange(p3 + 1, s.len() - 12);
    lemma_arch_no_hyphen(a);
    if p3 < h {
        assert(s[h] == a[h - (p3 + 1)]);
        assert(false);
    }
    if p3 > h {
        assert(s[p3] != '-');
        assert(false);
    }
}

/// In a valid split, the last hyphen strictly before `p3` is `p2`.
proof fn lemma_p2_determined(s: Seq<char>, p1: int, p2: int, p3: int, h: int)
    requires
        valid_split(s, p1, p2, p3),
        0 <= h < p3,
        s[h] == '-',
        forall|j: int| h < j < p3 ==> (#[trigger] s[j]) != '-',
    ensures
        p2 == h,
{
    let r = s.subrange(p2 + 1, p3);
    lemma_release_no_hyphen(r);
    if p2 < h {
        assert(s[h] == r[h - (p2 + 1)]);
        assert(false);
    }
    if p2 > h {
        assert(s[p2] != '-');
        assert(false);
    }
}

/// In a valid split, the last hyphen strictly before `p2` is `p1`.
proof fn lemma_p1_determined(s: Seq<char>, p1: int, p2: int, p3: int, h: int)
    requires
        valid_split(s, p1, p2, p3),
        0 <= h < p2,
        s[h] == '-',
        forall|j: int| h < j < p2 ==> (#[trigger] s[j]) != '-',
    ensures
        p1 == h,
{
    let v = s.subrange(p1 + 1, p2);
    lemma_version_no_hyphen(v);
    if p1 < h {
        assert(s[h] == v[h - (p1 + 1)]);
        assert(false);
    }
    if p1 > h {
        assert(s[p1] != '-');
        assert(false);
    }
}

/// A grammar-valid filename splits in exactly one way.
pub proof fn lemma_split_unique(s: Seq<char>, a1: int, a2: int, a3: int, b1: int, b2: int, b3: int)
    requires
        valid_split(s, a1, a2, a3),
        valid_split(s, b1, b2, b3),
    ensures
        a1 == b1 && a2 == b2 && a3 == b3,
{
    let arch_b = s.subrange(b3 + 1, s.len() - 12);
    lemma_arch_no_hyphen(arch_b);
    assert forall|j: int| b3 < j < s.len() - 12 implies (#[trigger] s[j]) != '-' by {
        assert(s[j] == arch_b[j - (b3 + 1)]);
    }
    lemma_p3_determined(s, a1, a2, a3, b3);
    let rel_b = s.subrange(b2 + 1, b3);
    lemma_release_no_hyphen(rel_b);
    assert forall|j: int| b2 < j < b3 implies (#[trigger] s[j]) != '-' by {
        assert(s[j] == rel_b[j - (b2 + 1)]);
    }
    lemma_p2_determined(s, a1, a2, a3, b2);
    let ver_b = s.subrange(b1 + 1, b2);
    lemma_version_no_hyphen(ver_b);
    assert forall|j: int| b1 < j < b2 implies (#[trigger] s[j]) != '-' by {
        assert(s[j] == ver_b[j - (b1 + 1)]);
    }
    lemma_p1_determined(s, a1, a2, a3, b1);
}

/// Any witness of a valid split is the split that the component accessors use.
pub proof fn lemma_split_is(s: Seq<char>, p1: int, p2: int, p3: int)
    requires
        valid_split(s, p1, p2, p3),
    ensures
        is_archive_name_seq(s),
        split_of(s) == (p1, p2, p3),
        name_of(s) == s.subrange(0, p1),
        version_of(s) == s.subrange(p1 + 1, p2),
        release_of(s) == s.subrange(p2 + 1, p3),
        arch_of(s) == s.subrange(p3 + 1, s.len() - 12),
{
    let w = (p1, p2, p3);
    assert(valid_split(s, w.0, w.1, w.2));
    assert(is_archive_name_seq(s));
    let p = split_of(s);
    assert(valid_split(s, p.0, p.1, p.2));
    lemma_split_unique(s, p.0, p.1, p.2, p1, p2, p3);
}

/// Decides whether `c` is an ASCII decimal digit.
fn is_digit_x(c: char) -> (r: bool)
    ensures
        r == is_digit(c),
{
    let u = c as u32;
    48 <= u && u <= 57
}

/// The characters of the fixed extension.
fn suffix_chars() -> (r: Vec<char>)
    ensures
        r@ == suffix_spec(),
{
    let mut v: Vec<char> = Vec::new();
    v.push('.');
    v.push('p');
    v.push('k');
    v.push('g');
    v.push('.');
    v.push('t');
    v.push('a');
    v.push('r');
    v.push('.');
    v.push('z');
    v.push('s');
    v.push('t');
    proof {
        assert(v@ =~= suffix_spec());
    }
    v
}

/// The characters of `any`.
fn arch_any_chars() -> (r: Vec<char>)
    ensures
        r@ == arch_any(),
{
    let mut v: Vec<char> = Vec::new();
    v.push('a');
    v.push('n');
    v.push('y');
    proof {
        assert(v@ =~= arch_any());
    }
    v
}

/// The characters of `x86_64`.
fn arch_x86_64_chars() -> (r: Vec<char>)
    ensures
        r@ == arch_x86_64(),
{
    let mut v: Vec<char> = Vec::new();
    v.push('x');
    v.push('8');
    v.push('6');
    v.push('_');
    v.push('6');
    v.push('4');
    proof {
        assert(v@ =~= arch_x86_64());
    }
    v
}

/// The characters of the optional distribution prefix.
pub(crate) fn archcraft_prefix_chars() -> (r: Vec<char>)
    ensures
        r@ == archcraft_prefix(),
{
    let mut v: Vec<char> = Vec::new();
    v.push('a');
    v.push('r');
    v.push('c');
    v.push('h');
    v.push('c');
    v.push('r');
    v.push('a');
    v.push('f');
    v.push('t');
    v.push('-');
    proof {
        assert(v@ =~= archcraft_prefix());
    }
    v
}

/// Decides whether the characters of `chars` starting at `from` equal `pat`.
pub(crate) fn region_matches(chars: &Vec<char>, from: usize, pat: &Vec<char>) -> (r: bool)
    requires
        from + pat@.len() <= chars@.len(),
    ensures
        r == (chars@.subrange(from as int, from + pat@.len()) == pat@),
{
    let m = pat.len();
    let clen = chars.len();
    let ghost sub = chars@.subrange(from as int, from + m);
    let mut k: usize = 0;
    while k < m
        invariant
            clen == chars@.len(),
            from + m <= chars@.len(),
            m == pat@.len(),
            k <= m,
            sub == chars@.subrange(from as int, from + m),
            forall|j: int| 0 <= j < k ==> chars@[from + j] == pat@[j],
        decreases m - k,
    {
        if chars[from + k] != pat[k] {
            proof {
                if sub == pat@ {
                    assert(sub[k as int] == pat@[k as int]);
                    assert(sub[k as int] == chars@[from + k]);
                    assert(false);
                }
            }
            return false;
        }
        k = k + 1;
    }
    proof {
        assert(sub =~= pat@);
    }
    true
}

/// Decides whether `chars[from..to]` is a non-empty run of digits.
fn check_digits(chars: &Vec<char>, from: usize, to: usize) -> (r: bool)
    requires
        from <= to,
        to <= chars@.len(),
    ensures
        r == is_release_seq(chars@.subrange(from as int, to as int)),
{
    let ghost sub = chars@.subrange(from as int, to as int);
    if to == from {
        return false;
    }
    let mut i: usize = from;
    while i < to
        invariant
            from <= i <= to,
            to <= chars@.len(),
            sub == chars@.subrange(from as int, to as int),
            forall|j: int| from <= j < i ==> is_digit(#[trigger] chars@[j]),
        decreases to - i,
    {
        if !is_digit_x(chars[i]) {
            proof {
                assert(sub[i - from] == chars@[i as int]);
            }
            return false;
        }
        i = i + 1;
    }
    proof {
        assert forall|k: int| 0 <= k < sub.len() implies is_digit(#[trigger] sub[k]) by {
            assert(sub[k] == chars@[from + k]);
        }
    }
    true
}

/// Decides whether `chars[from..to]` is a well-formed version.
fn check_version(chars: &Vec<char>, from: usize, to: usize) -> (r: bool)
    requires
        from <= to,
        to <= chars@.len(),
    ensures
        r == is_version_seq(chars@.subrange(from as int, to as int)),
{
    let ghost sub = chars@.subrange(from as int, to as int);
    if to == from {
        return false;
    }
    if !is_digit_x(chars[from]) {
        proof {
            assert(sub[0] == chars@[from as int]);
        }
        return false;
    }
    if !is_digit_x(chars[to - 1]) {
        proof {
            assert(sub[sub.len() - 1] == chars@[to - 1]);
        }
        return false;
    }
    let mut i: usize = from;
    while i < to
        invariant
            from <= i <= to,
            from < to <= chars@.len(),
            sub == chars@.subrange(from as int, to as int),
            forall|j: int| from <= j < i ==> is_digit(#[trigger] chars@[j]) || chars@[j] == '.',
            forall|j: int| from < j < i ==> !(chars@[j - 1] == '.' && (#[trigger] chars@[j]) == '.'),
        decreases to - i,
    {
        let c = chars[i];
        if !is_digit_x(c) && c != '.' {
            proof {
                assert(sub[i - from] == chars@[i as int]);
            }
            return false;
        }
        if i > from && c == '.' && chars[i - 1] == '.' {
            proof {
                let k = i - from - 1;
                assert(sub[k] == chars@[i - 1]);
                assert(sub[k + 1] == chars@[i as int]);
            }
            return false;
        }
        i = i + 1;
    }
    proof {
        assert(sub[0] == chars@[from as int]);
        assert(sub[sub.len() - 1] == chars@[to - 1]);
        assert forall|k: int| 0 <= k < sub.len() implies is_digit(#[trigger] sub[k]) || sub[k]
            == '.' by {
            assert(sub[k] == chars@[from + k]);
        }
        assert forall|k: int| 0 <= k < sub.len() - 1 implies !((#[trigger] sub[k]) == '.' && sub[k
            + 1] == '.') by {
            assert(sub[k] == chars@[from + k]);
            assert(sub[k + 1] == chars@[from + k + 1]);
        }
    }
    true
}

/// Decides whether `chars[from..to]` is one of the accepted architectures.
fn check_arch(chars: &Vec<char>, from: usize, to: usize) -> (r: bool)
    requires
        from <= to,
        to <= chars@.len(),
    ensures
        r == is_arch_seq(chars@.subrange(from as int, to as int)),
{
    let ghost sub = chars@.subrange(from as int, to as int);
    let n = to - from;
    if n == 3 {
        let pat = arch_any_chars();
        let r = region_matches(chars, from, &pat);
        proof {
            assert(chars@.subrange(from as int, from + pat@.len()) == sub);
            if !r {
                assert(sub.len() == 3);
                assert(arch_x86_64().len() == 6);
            }
        }
        r
    } else if n == 6 {
        let pat = arch_x86_64_chars();
        let r = region_matches(chars, from, &pat);
        proof {
            assert(chars@.subrange(from as int, from + pat@.len()) == sub);
            if !r {
                assert(sub.len() == 6);
                assert(arch_any().len() == 3);
            }
        }
        r
    } else {
        proof {
            assert(sub.len() == to - from);
            assert(arch_any().len() == 3);
            assert(arch_x86_64().len() == 6);
        }
        false
    }
}

/// Finds the last hyphen strictly before position `end`.
fn last_hyphen_before(chars: &Vec<char>, end: usize) -> (r: Option<usize>)
    requires
        end <= chars@.len(),
    ensures
        match r {
            Some(i) => i < end && chars@[i as int] == '-' && forall|j: int|
                i < j < end ==> (#[trigger] chars@[j]) != '-',
            None => forall|j: int| 0 <= j < end ==> (#[trigger] chars@[j]) != '-',
        },
{
    let mut k: usize = end;
    while k > 0
        invariant
            end <= chars@.len(),
            k <= end,
            forall|j: int| k <= j < end ==> (#[trigger] chars@[j]) != '-',
        decreases k,
    {
        k = k - 1;
        if chars[k] == '-' {
            return Some(k);
        }
    }
    None
}

/// Parses a filename into its three splitting hyphen positions, or decides
/// that it does not follow the grammar.
pub(crate) fn parse_positions(chars: &Vec<char>) -> (r: Option<(usize, usize, usize)>)
    ensures
        match r {
            Some(p) => valid_split(chars@, p.0 as int, p.1 as int, p.2 as int) && split_of(chars@)
                == (p.0 as int, p.1 as int, p.2 as int) && is_archive_name_seq(chars@),
            None => !is_archive_name_seq(chars@),
        },
{
    let ghost s = chars@;
    let n = chars.len();
    if n < 16 {
        proof {
            if is_archive_name_seq(s) {
                let p = choose|p: (int, int, int)| valid_split(s, p.0, p.1, p.2);
                assert(false);
            }
        }
        return None;
    }
    let suf = suffix_chars();
    if !region_matches(chars, n - 12, &suf) {
        proof {
            assert(n - 12 + suf@.len() == s.len());
            if is_archive_name_seq(s) {
                let p = choose|p: (int, int, int)| valid_split(s, p.0, p.1, p.2);
                assert(s.subrange(s.len() - 12, s.len() as int) == suffix_spec());
                assert(false);
            }
        }
        return None;
    }
    let h3 = match last_hyphen_before(chars, n - 12) {
        Some(i) => i,
        None => {
            proof {
                if is_archive_name_seq(s) {
                    let p = choose|p: (int, int, int)| valid_split(s, p.0, p.1, p.2);
                    assert(s[p.2] == '-');
                    assert(false);
                }
            }
            return None;
        },
    };
    if !check_arch(chars, h3 + 1, n - 12) {
        proof {
            if is_archive_name_seq(s) {
                let p = choose|p: (int, int, int)| valid_split(s, p.0, p.1, p.2);
                lemma_p3_determined(s, p.0, p.1, p.2, h3 as int);
                assert(false);
            }
        }
        return None;
    }
    let h2 = match last_hyphen_before(chars, h3) {
        Some(i) => i,
        None => {
            proof {
                if is_archive_name_seq(s) {
                    let p = choose|p: (int, int, int)| valid_split(s, p.0, p.1, p.2);
                    lemma_p3_determined(s, p.0, p.1, p.2, h3 as int);
                    assert(s[p.1] == '-');
                    assert(false);
                }
            }
            return None;
        },
    };
    if !check_digits(chars, h2 + 1, h3) {
        proof {
            if is_archive_name_seq(s) {
                let p = choose|p: (int, int, int)| valid_split(s, p.0, p.1, p.2);
                lemma_p3_determined(s, p.0, p.1, p.2, h3 as int);
                lemma_p2_determined(s, p.0, p.1, p.2, h2 as int);
                assert(false);
            }
        }
        return None;
    }
    let h1 = match last_hyphen_before(chars, h2) {
        Some(i) => i,
        None => {
            proof {
                if is_archive_name_seq(s) {
                    let p = choose|p: (int, int, int)| valid_split(s, p.0, p.1, p.2);
                    lemma_p3_determined(s, p.0, p.1, p.2, h3 as int);
                    lemma_p2_determined(s, p.0, p.1, p.2, h2 as int);
                    assert(s[p.0] == '-');
                    assert(false);
                }
            }
            return None;
        },
    };
    if !check_version(chars, h1 + 1, h2) {
        proof {
            if is_archive_name_seq(s) {
                let p = choose|p: (int, int, int)| valid_split(s, p.0, p.1, p.2);
                lemma_p3_determined(s, p.0, p.1, p.2, h3 as int);
                lemma_p2_determined(s, p.0, p.1, p.2, h2 as int);
                lemma_p1_determined(s, p.0, p.1, p.2, h1 as int);
                assert(false);
            }
        }
        return None;
    }
    if h1 == 0 {
        proof {
            if is_archive_name_seq(s) {
                let p = choose|p: (int, int, int)| valid_split(s, p.0, p.1, p.2);
                lemma_p3_determined(s, p.0, p.1, p.2, h3 as int);
                lemma_p2_determined(s, p.0, p.1, p.2, h2 as int);
                lemma_p1_determined(s, p.0, p.1, p.2, h1 as int);
                assert(p.0 >= 1);
                assert(false);
            }
        }
        return None;
    }
    proof {
        assert(s.subrange(s.len() - 12, s.len() as int) == suffix_spec());
        assert(valid_split(s, h1 as int, h2 as int, h3 as int));
        lemma_split_is(s, h1 as int, h2 as int, h3 as int);
    }
    Some((h1, h2, h3))
}

/// The components of a grammar-valid archive filename.
pub struct ParsedName {
    pub name: String,
    pub version: String,
    pub release: String,
    pub arch: String,
}

/// Parses an archive filename into its name, version, release and
/// architecture, or returns `None` when it does not follow the grammar.
pub fn parse_archive_name(s: &str) -> (r: Option<ParsedName>)
    ensures
        match r {
            Some(p) => is_archive_name_seq(s@) && p.name@ == name_of(s@) && p.version@
                == version_of(s@) && p.release@ == release_of(s@) && p.arch@ == arch_of(s@),
            None => !is_archive_name_seq(s@),
        },
{
    let chars = to_chars(s);
    match parse_positions(&chars) {
        None => None,
        Some((p1, p2, p3)) => {
            let n = s.unicode_len();
            let name = s.substring_char(0, p1).to_owned();
            let version = s.substring_char(p1 + 1, p2).to_owned();
            let release = s.substring_char(p2 + 1, p3).to_owned();
            let arch = s.substring_char(p3 + 1, n - 12).to_owned();
            Some(ParsedName { name, version, release, arch })
        },
    }
}

/// The logical package name of a grammar-valid archive filename: everything
/// before the trailing `-version-release-arch.pkg.tar.zst`.
pub fn extract_name(s: &str) -> (r: Option<String>)
    ensures
        match r {
            Some(n) => is_archive_name_seq(s@) && n@ == name_of(s@),
            None => !is_archive_name_seq(s@),
        },
{
    match parse_archive_name(s) {
        Some(p) => Some(p.name),
        None => None,
    }
}

/// Decides whether a filename follows the archive-filename grammar.
pub fn is_archive_name(s: &str) -> (r: bool)
    ensures
        r == is_archive_name_seq(s@),
{
    let chars = to_chars(s);
    parse_positions(&chars).is_some()
}

/// A filename assembled from the four components.
pub open spec fn recombine_spec(n: Seq<char>, v: Seq<char>, r: Seq<char>, a: Seq<char>) -> Seq<
    char,
> {
    n + seq!['-'] + v + seq!['-'] + r + seq!['-'] + a + suffix_spec()
}

/// Assembles an archive filename from name, version, release and architecture.
pub fn make_archive_name(name: &str, version: &str, release: &str, arch: &str) -> (r: String)
    ensures
        r@ == recombine_spec(name@, version@, release@, arch@),
{
    let mut r = name.to_owned();
    r.append("-");
    r.append(version);
    r.append("-");
    r.append(release);
    r.append("-");
    r.append(arch);
    r.append(".pkg.tar.zst");
    proof {
        reveal_strlit("-");
        reveal_strlit(".pkg.tar.zst");
        assert(r@ =~= recombine_spec(name@, version@, release@, arch@));
    }
    r
}

/// A filename assembled from a non-empty name and well-formed version,
/// release and architecture follows the grammar, and parsing it gives the
/// four components back unchanged.
pub proof fn lemma_recombine_valid(n: Seq<char>, v: Seq<char>, rl: Seq<char>, a: Seq<char>)
    requires
        n.len() >= 1,
        is_version_seq(v),
        is_release_seq(rl),
        is_arch_seq(a),
    ensures
        is_archive_name_seq(recombine_spec(n, v, rl, a)),
        name_of(recombine_spec(n, v, rl, a)) == n,
        version_of(recombine_spec(n, v, rl, a)) == v,
        release_of(recombine_spec(n, v, rl, a)) == rl,
        arch_of(recombine_spec(n, v, rl, a)) == a,
{
    let s = recombine_spec(n, v, rl, a);
    let p1 = n.len() as int;
    let p2 = p1 + 1 + v.len();
    let p3 = p2 + 1 + rl.len();
    assert(s.len() == n.len() + 1 + v.len() + 1 + rl.len() + 1 + a.len() + 12);
    assert(a.len() == 3 || a.len() == 6) by {
        if a == arch_any() {
            assert(a.len() == arch_any().len());
        } else {
            assert(a.len() == arch_x86_64().len());
        }
    }
    assert(s.subrange(0, p1) =~= n);
    assert(s.subrange(p1 + 1, p2) =~= v);
    assert(s.subrange(p2 + 1, p3) =~= rl);
    assert(s.subrange(p3 + 1, s.len() - 12) =~= a);
    assert(s.subrange(s.len() - 12, s.len() as int) =~= suffix_spec());
    assert(s[p1] == '-');
    assert(s[p2] == '-');
    assert(s[p3] == '-');
    assert(valid_split(s, p1, p2, p3));
    lemma_split_is(s, p1, p2, p3);
}

/// Round trip: extracting the components of a grammar-valid filename and
/// reassembling them yields the same filename, which is grammar-valid again.
pub proof fn lemma_extract_name_round_trip(s: Seq<char>)
    requires
        is_archive_name_seq(s),
    ensures
        recombine_spec(name_of(s), version_of(s), release_of(s), arch_of(s)) == s,
        is_archive_name_seq(recombine_spec(name_of(s), version_of(s), release_of(s), arch_of(s))),
{
    let p = split_of(s);
    assert(valid_split(s, p.0, p.1, p.2));
    lemma_split_is(s, p.0, p.1, p.2);
    lemma_recombine_valid(name_of(s), version_of(s), release_of(s), arch_of(s));
    assert(recombine_spec(name_of(s), version_of(s), release_of(s), arch_of(s)) =~= s);
}

} // verus!
