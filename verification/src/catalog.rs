//! Extraction of the package catalog from the remote directory-listing page:
//! the page embeds one JSON document between two fixed marker strings; the
//! catalog is the `name` field of each entry of the document's
//! `/payload/tree/items` array. Locating the marker-delimited span is
//! verified exactly; the JSON reading itself is delegated to serde_json,
//! whose results are pinned to named functions of the span.

use vstd::prelude::*;
use vstd::string::*;

use crate::grammar::region_matches;
use crate::strutil::to_chars;

verus! {

/// The opening marker in front of the embedded JSON document.
pub open spec fn start_marker() -> Seq<char> {
    "<script type=\"application/json\" data-target=\"react-app.embeddedData\">"@
}

/// The closing marker after the embedded JSON document.
pub open spec fn end_marker() -> Seq<char> {
    "</script>"@
}

/// The first occurrence of `n` in `h` at or after `from`.
pub open spec fn first_match_from(h: Seq<char>, n: Seq<char>, from: int) -> Option<int>
    decreases h.len() + 1 - from,
{
    if from < 0 {
        None
    } else if from + n.len() > h.len() {
        None
    } else if h.subrange(from, from + n.len()) == n {
        Some(from)
    } else {
        first_match_from(h, n, from + 1)
    }
}

/// The span between the first opening marker and the next closing marker:
/// `None` when either marker is missing.
pub open spec fn embedded_json_of(body: Seq<char>) -> Option<Seq<char>> {
    match first_match_from(body, start_marker(), 0) {
        None => None,
        Some(s) => {
            let content_start = s + start_marker().len();
            match first_match_from(body, end_marker(), content_start) {
                None => None,
                Some(e) => Some(body.subrange(content_start, e)),
            }
        },
    }
}

/// Finds the first occurrence of `pat` in `chars` at or after `from`.
fn find_from(chars: &Vec<char>, pat: &Vec<char>, from: usize) -> (r: Option<usize>)
    ensures
        match r {
            Some(i) => first_match_from(chars@, pat@, from as int) == Some(i as int) && from <= i
                && i + pat@.len() <= chars@.len(),
            None => first_match_from(chars@, pat@, from as int) is None,
        },
{
    let n = chars.len();
    let m = pat.len();
    if from > n || m > n - from {
        return None;
    }
    if m == 0 {
        proof {
            assert(chars@.subrange(from as int, from as int) =~= pat@);
        }
        return Some(from);
    }
    let mut i: usize = from;
    while i <= n - m
        invariant
            n == chars@.len(),
            m == pat@.len(),
            from <= i,
            i <= n - m + 1,
            m <= n,
            1 <= m,
            from + m <= n,
            first_match_from(chars@, pat@, from as int) == first_match_from(
                chars@,
                pat@,
                i as int,
            ),
        decreases n - m + 1 - i,
    {
        let hit = region_matches(chars, i, pat);
        if hit {
            return Some(i);
        }
        i = i + 1;
    }
    None
}

/// Extracts the embedded JSON document of a directory-listing page: the text
/// between the first opening marker and the next closing marker after it.
pub fn extract_embedded_json(body: &str) -> (r: Option<String>)
    ensures
        match r {
            Some(j) => embedded_json_of(body@) == Some(j@),
            None => embedded_json_of(body@) is None,
        },
{
    let chars = to_chars(body);
    let blen = chars.len();
    let sm = to_chars(
        "<script type=\"application/json\" data-target=\"react-app.embeddedData\">",
    );
    let em = to_chars("</script>");
    match find_from(&chars, &sm, 0) {
        None => None,
        Some(s) => {
            proof {
                assert(s + sm@.len() <= blen);
            }
            let content_start = s + sm.len();
            match find_from(&chars, &em, content_start) {
                None => None,
                Some(e) => Some(body.substring_char(content_start, e).to_owned()),
            }
        },
    }
}

/// Why no catalog could be extracted from the page.
#[derive(Clone, Copy, Debug, PartialEq, Eq, Structural)]
pub enum CatalogError {
    /// One of the two markers does not occur where expected.
    MarkerNotFound,
    /// The marker-delimited span is not a JSON document.
    InvalidJson,
    /// The document has no `/payload/tree/items` array.
    ItemsNotFound,
}

/// The JSON pointer path under which the listing keeps its items.
pub open spec fn items_pointer() -> Seq<char> {
    "/payload/tree/items"@
}

/// The member that carries an item's filename.
pub open spec fn name_key() -> Seq<char> {
    "name"@
}

/// Whether serde_json accepts `s` as one JSON document. The answer depends on
/// the characters of `s` alone.
pub uninterp spec fn json_parses(s: Seq<char>) -> bool;

/// The `key` string member of each item object of the array at pointer `path`
/// of the document `doc`, in array order, items without such a member
/// skipped; `None` when `doc` does not parse or `path` is absent or not an
/// array. The answer depends on the three arguments alone.
pub uninterp spec fn member_names_of(doc: Seq<char>, path: Seq<char>, key: Seq<char>) -> Option<
    Seq<Seq<char>>,
>;

/// Relies on serde_json::from_str: whether the span parses as one JSON
/// document, deterministically in the span.
#[verifier::external_body]
fn json_parse_check(s: &str) -> (r: bool)
    ensures
        r == json_parses(s@),
{
    serde_json::from_str::<serde_json::Value>(s).is_ok()
}

/// Relies on serde_json::from_str, Value::pointer, Value::as_array,
/// Value::get and Value::as_str: parses the span, walks to the array at
/// `path`, and collects the string member under `key` of each item object,
/// skipping items without one. Every step is deterministic in the three
/// arguments, so the whole chain is the named function of them.
#[verifier::external_body]
fn json_member_names(span: &str, path: &str, key: &str) -> (r: Option<Vec<String>>)
    ensures
        r is Some <==> member_names_of(span@, path@, key@) is Some,
        r matches Some(v) ==> member_names_of(span@, path@, key@) == Some(v.deep_view()),
{
    let doc: serde_json::Value = match serde_json::from_str(span) {
        Ok(v) => v,
        Err(_) => return None,
    };
    let arr = doc.pointer(path)?.as_array()?;
    let mut out: Vec<String> = Vec::new();
    for item in arr {
        if let Some(n) = item.get(key).and_then(|v| v.as_str()) {
            out.push(n.to_owned());
        }
    }
    Some(out)
}

/// The embedded span exists and parses as JSON.
pub open spec fn span_parses(body: Seq<char>) -> bool {
    match embedded_json_of(body) {
        Some(j) => json_parses(j),
        None => false,
    }
}

/// The item names of the embedded span's document, when the span exists and
/// its `/payload/tree/items` array does.
pub open spec fn span_member_names(body: Seq<char>) -> Option<Seq<Seq<char>>> {
    match embedded_json_of(body) {
        Some(j) => member_names_of(j, items_pointer(), name_key()),
        None => None,
    }
}

/// Extracts the raw catalog from a directory-listing page: the `name` of each
/// item of the embedded document's `/payload/tree/items` array, in listing
/// order, items without a string `name` skipped silently. Each outcome is
/// pinned: `MarkerNotFound` exactly when the marker-delimited span is
/// missing, `InvalidJson` exactly when the span exists but does not parse,
/// `ItemsNotFound` exactly when it parses but the items array is absent, and
/// success exactly otherwise, with the names as the document has them. The
/// names are raw listing entries: filtering them into grammar-valid archive
/// names is the matcher's affair.
pub fn parse_catalog(body: &str) -> (r: Result<Vec<String>, CatalogError>)
    ensures
        (r == Result::<Vec<String>, CatalogError>::Err(CatalogError::MarkerNotFound)) <==> (
        embedded_json_of(body@) is None),
        (r == Result::<Vec<String>, CatalogError>::Err(CatalogError::InvalidJson)) <==> (
        embedded_json_of(body@) is Some && !span_parses(body@)),
        (r == Result::<Vec<String>, CatalogError>::Err(CatalogError::ItemsNotFound)) <==> (
        span_parses(body@) && span_member_names(body@) is None),
        (r is Ok) <==> (span_parses(body@) && span_member_names(body@) is Some),
        r matches Ok(v) ==> span_member_names(body@) == Some(v.deep_view()),
{
    let json_text = match extract_embedded_json(body) {
        None => {
            return Err(CatalogError::MarkerNotFound);
        },
        Some(t) => t,
    };
    if !json_parse_check(json_text.as_str()) {
        return Err(CatalogError::InvalidJson);
    }
    match json_member_names(json_text.as_str(), "/payload/tree/items", "name") {
        None => Err(CatalogError::ItemsNotFound),
        Some(v) => Ok(v),
    }
}

} // verus!
