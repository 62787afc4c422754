//! Catalog matching: resolving a package name to its current archive
//! filename, filtering the catalog by a case-insensitive keyword, and listing
//! every grammar-valid entry. All three operations are built on the one
//! archive-filename grammar.

use vstd::prelude::*;
use vstd::string::*;

use crate::grammar::archcraft_prefix;
use crate::grammar::archcraft_prefix_chars;
use crate::grammar::is_archive_name;
use crate::grammar::is_archive_name_seq;
use crate::grammar::name_of;
use crate::grammar::parse_positions;
use crate::grammar::region_matches;
use crate::strutil::to_chars;

verus! {

/// The case-folded code of a character: ASCII upper-case letters map to their
/// lower-case counterparts, every other character to its own code point.
pub open spec fn lower_code(c: char) -> int {
    let u = c as u32;
    if 65 <= u && u <= 90 {
        u + 32
    } else {
        u as int
    }
}

/// The two sequences are equal up to ASCII case.
pub open spec fn ci_eq_seq(a: Seq<char>, b: Seq<char>) -> bool {
    a.len() == b.len() && forall|i: int|
        0 <= i < a.len() ==> #[trigger] lower_code(a[i]) == lower_code(b[i])
}

/// `n` occurs in `h` as a substring, up to ASCII case.
pub open spec fn contains_ci(h: Seq<char>, n: Seq<char>) -> bool {
    exists|i: int| 0 <= i && i + n.len() <= h.len() && ci_eq_seq(#[trigger] h.subrange(i, i + n.len()), n)
}

/// A catalog entry satisfies a keyword search: it is grammar-valid and the
/// keyword occurs case-insensitively in its logical name component only.
pub open spec fn keyword_matches(e: Seq<char>, kw: Seq<char>) -> bool {
    is_archive_name_seq(e) && contains_ci(name_of(e), kw)
}

/// The grammar-valid entries of a catalog, in catalog order.
pub open spec fn filter_valid_spec(c: Seq<Seq<char>>) -> Seq<Seq<char>>
    decreases c.len(),
{
    if c.len() == 0 {
        Seq::empty()
    } else {
        let rest = filter_valid_spec(c.drop_last());
        if is_archive_name_seq(c.last()) {
            rest.push(c.last())
        } else {
            rest
        }
    }
}

/// The entries satisfying a keyword search, in catalog order.
pub open spec fn filter_keyword_spec(c: Seq<Seq<char>>, kw: Seq<char>) -> Seq<Seq<char>>
    decreases c.len(),
{
    if c.len() == 0 {
        Seq::empty()
    } else {
        let rest = filter_keyword_spec(c.drop_last(), kw);
        if keyword_matches(c.last(), kw) {
            rest.push(c.last())
        } else {
            rest
        }
    }
}

/// A catalog entry resolves a requested package name exactly: it is
/// grammar-valid and its logical name is the requested name, optionally
/// preceded by the distribution prefix.
pub open spec fn resolve_matches(e: Seq<char>, n: Seq<char>) -> bool {
    is_archive_name_seq(e) && (name_of(e) == n || name_of(e) == archcraft_prefix() + n)
}

/// The first catalog entry that resolves the requested name, in catalog
/// order; which version is returned when several coexist is deliberately
/// whatever the listing offered first, not necessarily the newest.
pub open spec fn first_resolve(c: Seq<Seq<char>>, n: Seq<char>) -> Option<Seq<char>>
    decreases c.len(),
{
    if c.len() == 0 {
        None
    } else if resolve_matches(c[0], n) {
        Some(c[0])
    } else {
        first_resolve(c.drop_first(), n)
    }
}

/// The case-folded code of a character.
fn lower_code_x(c: char) -> (r: u32)
    ensures
        r == lower_code(c),
{
    let u = c as u32;
    if 65 <= u && u <= 90 {
        u + 32
    } else {
        u
    }
}

/// Decides whether the window of `chars` at `at` equals `kw` up to case.
fn window_ci_eq(chars: &Vec<char>, at: usize, kw: &Vec<char>) -> (r: bool)
    requires
        at + kw@.len() <= chars@.len(),
    ensures
        r == ci_eq_seq(chars@.subrange(at as int, at + kw@.len()), kw@),
{
    let ghost w = chars@.subrange(at as int, at + kw@.len());
    let m = kw.len();
    let clen = chars.len();
    let mut j: usize = 0;
    while j < m
        invariant
            clen == chars@.len(),
            at + m <= clen,
            m == kw@.len(),
            j <= m,
            w == chars@.subrange(at as int, at + m),
            forall|k: int| 0 <= k < j ==> #[trigger] lower_code(w[k]) == lower_code(kw@[k]),
        decreases m - j,
    {
        if lower_code_x(chars[at + j]) != lower_code_x(kw[j]) {
            proof {
                assert(w[j as int] == chars@[at + j]);
            }
            return false;
        }
        proof {
            assert(w[j as int] == chars@[at + j]);
        }
        j = j + 1;
    }
    true
}

/// Decides whether `kw` occurs, up to case, in the first `to` characters.
fn contains_ci_region(chars: &Vec<char>, to: usize, kw: &Vec<char>) -> (r: bool)
    requires
        to <= chars@.len(),
    ensures
        r == contains_ci(chars@.subrange(0, to as int), kw@),
{
    let ghost h = chars@.subrange(0, to as int);
    let m = kw.len();
    if m > to {
        proof {
            if contains_ci(h, kw@) {
                let i = choose|i: int|
                    0 <= i && i + kw@.len() <= h.len() && ci_eq_seq(
                        #[trigger] h.subrange(i, i + kw@.len()),
                        kw@,
                    );
                assert(false);
            }
        }
        return false;
    }
    let mut i: usize = 0;
    while i <= to - m
        invariant
            m == kw@.len(),
            m <= to,
            to <= chars@.len(),
            h == chars@.subrange(0, to as int),
            i <= to - m + 1,
            forall|j: int| 0 <= j < i ==> !ci_eq_seq(#[trigger] h.subrange(j, j + kw@.len()), kw@),
        decreases to - m + 1 - i,
    {
        let hit = window_ci_eq(chars, i, kw);
        proof {
            assert(h.subrange(i as int, i + m) =~= chars@.subrange(i as int, i + m));
        }
        if hit {
            proof {
                assert(ci_eq_seq(h.subrange(i as int, i + kw@.len()), kw@));
            }
            return true;
        }
        i = i + 1;
    }
    proof {
        if contains_ci(h, kw@) {
            let j = choose|j: int|
                0 <= j && j + kw@.len() <= h.len() && ci_eq_seq(
                    #[trigger] h.subrange(j, j + kw@.len()),
                    kw@,
                );
            assert(!ci_eq_seq(h.subrange(j, j + kw@.len()), kw@));
            assert(false);
        }
    }
    false
}

/// Decides whether one catalog entry satisfies a keyword search.
fn entry_keyword_matches(e: &str, kw: &Vec<char>) -> (r: bool)
    ensures
        r == keyword_matches(e@, kw@),
{
    let chars = to_chars(e);
    match parse_positions(&chars) {
        None => false,
        Some((p1, _p2, _p3)) => contains_ci_region(&chars, p1, kw),
    }
}

/// Decides whether one catalog entry resolves the requested name exactly.
fn entry_resolves(e: &str, nv: &Vec<char>, pre: &Vec<char>) -> (r: bool)
    requires
        pre@ == archcraft_prefix(),
    ensures
        r == resolve_matches(e@, nv@),
{
    let chars = to_chars(e);
    match parse_positions(&chars) {
        None => false,
        Some((p1, _p2, _p3)) => {
            let nlen = nv.len();
            if p1 == nlen {
                let r = region_matches(&chars, 0, nv);
                proof {
                    if !r && name_of(e@) == archcraft_prefix() + nv@ {
                        assert(name_of(e@).len() == 10 + nv@.len());
                    }
                }
                r
            } else if p1 >= 10 && p1 - 10 == nlen {
                let pref_ok = region_matches(&chars, 0, pre);
                if !pref_ok {
                    proof {
                        if name_of(e@) == archcraft_prefix() + nv@ {
                            assert forall|k: int| 0 <= k < 10 implies chars@.subrange(0, 10)[k]
                                == archcraft_prefix()[k] by {
                                assert(name_of(e@)[k] == (archcraft_prefix() + nv@)[k]);
                            }
                            assert(chars@.subrange(0, 10) =~= archcraft_prefix());
                        }
                    }
                    false
                } else {
                    let r = region_matches(&chars, 10, nv);
                    proof {
                        if r {
                            assert(chars@.subrange(0, p1 as int) =~= archcraft_prefix() + nv@);
                        } else {
                            if name_of(e@) == archcraft_prefix() + nv@ {
                                assert forall|k: int| 0 <= k < nv@.len() implies chars@.subrange(
                                    10,
                                    10 + nv@.len() as int,
                                )[k] == nv@[k] by {
                                    assert(name_of(e@)[10 + k] == (archcraft_prefix() + nv@)[10
                                        + k]);
                                }
                                assert(chars@.subrange(10, 10 + nv@.len() as int) =~= nv@);
                            }
                        }
                    }
                    r
                }
            } else {
                proof {
                    if name_of(e@) == archcraft_prefix() + nv@ {
                        assert(name_of(e@).len() == 10 + nv@.len());
                    }
                }
                false
            }
        },
    }
}

/// Returns every grammar-valid entry of the catalog, in catalog order.
pub fn list_all(catalog: &Vec<String>) -> (r: Vec<String>)
    ensures
        r.deep_view() == filter_valid_spec(catalog.deep_view()),
{
    let ghost cv = catalog.deep_view();
    let n = catalog.len();
    let mut out: Vec<String> = Vec::new();
    let mut i: usize = 0;
    while i < n
        invariant
            n == catalog@.len(),
            i <= n,
            cv == catalog.deep_view(),
            cv.len() == n,
            out.deep_view() == filter_valid_spec(cv.subrange(0, i as int)),
        decreases n - i,
    {
        let e = &catalog[i];
        let ghost prev = out.deep_view();
        let hit = is_archive_name(e.as_str());
        if hit {
            out.push(e.clone());
            proof {
                assert(out.deep_view() =~= prev.push(cv[i as int]));
            }
        }
        i = i + 1;
        proof {
            let c1 = cv.subrange(0, i as int);
            assert(c1.drop_last() =~= cv.subrange(0, i - 1));
            assert(c1.last() == cv[i - 1]);
        }
    }
    proof {
        assert(cv.subrange(0, n as int) =~= cv);
    }
    out
}

/// Returns, in catalog order, every grammar-valid entry whose logical name
/// contains the keyword, compared case-insensitively. Case folding covers the
/// ASCII letters; characters outside ASCII compare verbatim. The empty
/// keyword matches every grammar-valid entry.
pub fn filter_by_keyword(catalog: &Vec<String>, keyword: &str) -> (r: Vec<String>)
    ensures
        r.deep_view() == filter_keyword_spec(catalog.deep_view(), keyword@),
{
    let ghost cv = catalog.deep_view();
    let kw = to_chars(keyword);
    let n = catalog.len();
    let mut out: Vec<String> = Vec::new();
    let mut i: usize = 0;
    while i < n
        invariant
            n == catalog@.len(),
            i <= n,
            cv == catalog.deep_view(),
            cv.len() == n,
            kw@ == keyword@,
            out.deep_view() == filter_keyword_spec(cv.subrange(0, i as int), keyword@),
        decreases n - i,
    {
        let e = &catalog[i];
        let ghost prev = out.deep_view();
        let hit = entry_keyword_matches(e.as_str(), &kw);
        if hit {
            out.push(e.clone());
            proof {
                assert(out.deep_view() =~= prev.push(cv[i as int]));
            }
        }
        i = i + 1;
        proof {
            let c1 = cv.subrange(0, i as int);
            assert(c1.drop_last() =~= cv.subrange(0, i - 1));
            assert(c1.last() == cv[i - 1]);
        }
    }
    proof {
        assert(cv.subrange(0, n as int) =~= cv);
    }
    out
}

/// Resolves a package name to the first catalog entry whose logical name is
/// the requested name, optionally preceded by the distribution prefix. The
/// requested name is compared literally, character by character. Returns
/// `None`, a normal outcome, when no entry matches.
pub fn resolve_exact(catalog: &Vec<String>, name: &str) -> (r: Option<String>)
    ensures
        match r {
            Some(f) => first_resolve(catalog.deep_view(), name@) == Some(f@)
                && is_archive_name_seq(f@) && (name_of(f@) == name@ || name_of(f@)
                == archcraft_prefix() + name@),
            None => first_resolve(catalog.deep_view(), name@) is None,
        },
{
    let ghost cv = catalog.deep_view();
    let nv = to_chars(name);
    let pre = archcraft_prefix_chars();
    let n = catalog.len();
    let mut i: usize = 0;
    proof {
        assert(cv.subrange(0, n as int) =~= cv);
    }
    while i < n
        invariant
            n == catalog@.len(),
            i <= n,
            cv == catalog.deep_view(),
            cv.len() == n,
            nv@ == name@,
            pre@ == archcraft_prefix(),
            first_resolve(cv, name@) == first_resolve(cv.subrange(i as int, n as int), name@),
        decreases n - i,
    {
        let e = &catalog[i];
        let hit = entry_resolves(e.as_str(), &nv, &pre);
        proof {
            let sub = cv.subrange(i as int, n as int);
            assert(sub[0] == cv[i as int]);
            assert(sub.drop_first() =~= cv.subrange(i + 1, n as int));
        }
        if hit {
            return Some(e.clone());
        }
        i = i + 1;
    }
    proof {
        assert(cv.subrange(n as int, n as int).len() == 0);
    }
    None
}

/// Law: filtering with the empty keyword returns exactly the grammar-valid
/// entries of the catalog, in order.
pub proof fn lemma_empty_keyword_matches_all(c: Seq<Seq<char>>)
    ensures
        filter_keyword_spec(c, Seq::<char>::empty()) == filter_valid_spec(c),
    decreases c.len(),
{
    if c.len() != 0 {
        lemma_empty_keyword_matches_all(c.drop_last());
        if is_archive_name_seq(c.last()) {
            let nm = name_of(c.last());
            let e = Seq::<char>::empty();
            let zero: int = 0;
            assert(ci_eq_seq(nm.subrange(zero, zero + e.len()), e));
            assert(contains_ci(nm, e));
        }
    }
}

/// Two keywords that are equal up to ASCII case select the same substring
/// windows of any name.
proof fn lemma_contains_ci_equiv(h: Seq<char>, k1: Seq<char>, k2: Seq<char>)
    requires
        ci_eq_seq(k1, k2),
    ensures
        contains_ci(h, k1) == contains_ci(h, k2),
{
    if contains_ci(h, k1) {
        let i = choose|i: int|
            0 <= i && i + k1.len() <= h.len() && ci_eq_seq(#[trigger] h.subrange(i, i + k1.len()), k1);
        assert(ci_eq_seq(h.subrange(i, i + k2.len()), k2));
        assert(contains_ci(h, k2));
    }
    if contains_ci(h, k2) {
        let i = choose|i: int|
            0 <= i && i + k2.len() <= h.len() && ci_eq_seq(#[trigger] h.subrange(i, i + k2.len()), k2);
        assert(ci_eq_seq(h.subrange(i, i + k1.len()), k1));
        assert(contains_ci(h, k1));
    }
}

/// Law: keyword filtering is case-insensitive. Two keywords that are equal up
/// to ASCII case yield identical result lists on every catalog.
pub proof fn lemma_filter_case_insensitive(c: Seq<Seq<char>>, k1: Seq<char>, k2: Seq<char>)
    requires
        ci_eq_seq(k1, k2),
    ensures
        filter_keyword_spec(c, k1) == filter_keyword_spec(c, k2),
    decreases c.len(),
{
    if c.len() != 0 {
        lemma_filter_case_insensitive(c.drop_last(), k1, k2);
        if is_archive_name_seq(c.last()) {
            lemma_contains_ci_equiv(name_of(c.last()), k1, k2);
        }
    }
}

} // verus!
