//! Content resolution: the inner fragment of a stored document, the bundled
//! fallback set, the placeholder, and the chain that tries them in turn.

use vstd::prelude::*;
use crate::text::str_eq;
use crate::catalogue::Catalogue;
use crate::catalogue::Records;
use crate::catalogue::has_name;
use crate::catalogue::content_of;

verus! {

/// The fragment shown when a name resolves through no tier.
pub open spec fn placeholder() -> Seq<char> {
    "<path d=\"M12 2L2 7l10 5 10-5-10-5zM2 17l10 5 10-5M2 12l10 5 10-5\"></path>"@
}

/// The placeholder as a string.
pub fn placeholder_content() -> (r: String)
    ensures
        r@ == placeholder(),
{
    "<path d=\"M12 2L2 7l10 5 10-5-10-5zM2 17l10 5 10-5M2 12l10 5 10-5\"></path>".to_owned()
}

/// What the bundled fallback set holds under `name`.
pub open spec fn fallback_content(name: Seq<char>) -> Option<Seq<char>> {
    if name == "home"@ {
        Some(
            "<path d=\"M15 21v-8a1 1 0 0 0-1-1h-4a1 1 0 0 0-1 1v8\"/><path d=\"M3 10a2 2 0 0 1 .709-1.528l7-5.999a2 2 0 0 1 2.582 0l7 5.999A2 2 0 0 1 21 10v9a2 2 0 0 1-2 2H5a2 2 0 0 1-2-2z\"/>"@,
        )
    } else if name == "user"@ {
        Some(
            "<path d=\"M19 21v-2a4 4 0 0 0-4-4H9a4 4 0 0 0-4 4v2\"/><circle cx=\"12\" cy=\"7\" r=\"4\"/>"@,
        )
    } else if name == "heart"@ {
        Some(
            "<path d=\"M19 14c1.49-1.46 3-3.21 3-5.5A5.5 5.5 0 0 0 16.5 3c-1.76 0-3 .5-4.5 2-1.5-1.5-2.74-2-4.5-2A5.5 5.5 0 0 0 2 8.5c0 2.3 1.5 4.05 3 5.5l7 7Z\"/>"@,
        )
    } else if name == "search"@ {
        Some("<circle cx=\"11\" cy=\"11\" r=\"8\"/><path d=\"m21 21-4.3-4.3\"/>"@)
    } else if name == "star"@ {
        Some(
            "<polygon points=\"12 2 15.09 8.26 22 9.27 17 14.14 18.18 21.02 12 17.77 5.82 21.02 7 14.14 2 9.27 8.91 8.26 12 2\"/>"@,
        )
    } else {
        None
    }
}

/// Looks `name` up in the bundled fallback set.
pub fn fallback(name: &str) -> (r: Option<String>)
    ensures
        match r {
            Some(s) => fallback_content(name@) == Some(s@),
            None => fallback_content(name@) is None,
        },
{
    if str_eq(name, "home") {
        Some(
            "<path d=\"M15 21v-8a1 1 0 0 0-1-1h-4a1 1 0 0 0-1 1v8\"/><path d=\"M3 10a2 2 0 0 1 .709-1.528l7-5.999a2 2 0 0 1 2.582 0l7 5.999A2 2 0 0 1 21 10v9a2 2 0 0 1-2 2H5a2 2 0 0 1-2-2z\"/>".to_owned(),
        )
    } else if str_eq(name, "user") {
        Some(
            "<path d=\"M19 21v-2a4 4 0 0 0-4-4H9a4 4 0 0 0-4 4v2\"/><circle cx=\"12\" cy=\"7\" r=\"4\"/>".to_owned(),
        )
    } else if str_eq(name, "heart") {
        Some(
            "<path d=\"M19 14c1.49-1.46 3-3.21 3-5.5A5.5 5.5 0 0 0 16.5 3c-1.76 0-3 .5-4.5 2-1.5-1.5-2.74-2-4.5-2A5.5 5.5 0 0 0 2 8.5c0 2.3 1.5 4.05 3 5.5l7 7Z\"/>".to_owned(),
        )
    } else if str_eq(name, "search") {
        Some("<circle cx=\"11\" cy=\"11\" r=\"8\"/><path d=\"m21 21-4.3-4.3\"/>".to_owned())
    } else if str_eq(name, "star") {
        Some(
            "<polygon points=\"12 2 15.09 8.26 22 9.27 17 14.14 18.18 21.02 12 17.77 5.82 21.02 7 14.14 2 9.27 8.91 8.26 12 2\"/>".to_owned(),
        )
    } else {
        None
    }
}

/// The tag that closes a stored document.
pub open spec fn closing_tag() -> Seq<char> {
    "</svg>"@
}

/// `i` is where the first `>` of `s` stands.
pub open spec fn is_first_gt(s: Seq<char>, i: int) -> bool {
    &&& 0 <= i < s.len()
    &&& s[i] == '>'
    &&& forall|j: int| 0 <= j < i ==> s[j] != '>'
}

/// The closing tag stands in `s` from `j` on.
pub open spec fn closes_at(s: Seq<char>, j: int) -> bool {
    0 <= j && j + 6 <= s.len() && s.subrange(j, j + 6) == closing_tag()
}

/// `j` is where the last closing tag of `s` begins.
pub open spec fn is_last_close(s: Seq<char>, j: int) -> bool {
    &&& closes_at(s, j)
    &&& forall|k: int| j < k ==> !closes_at(s, k)
}

/// `i` and `j` delimit the inner fragment of `s`.
pub open spec fn delimits(s: Seq<char>, i: int, j: int) -> bool {
    is_first_gt(s, i) && is_last_close(s, j) && i < j
}

/// What stands strictly between the first `>` of `s` and its last closing
/// tag; nothing where either is absent or the tag does not come after the `>`.
pub open spec fn inner_fragment(s: Seq<char>) -> Option<Seq<char>> {
    if exists|i: int, j: int| delimits(s, i, j) {
        let (i, j) = choose|i: int, j: int| delimits(s, i, j);
        Some(s.subrange(i + 1, j))
    } else {
        None
    }
}

/// The delimiters of a document are unique, so any pair that delimits gives
/// the inner fragment.
pub proof fn lemma_inner_fragment(s: Seq<char>, i: int, j: int)
    requires
        delimits(s, i, j),
    ensures
        inner_fragment(s) == Some(s.subrange(i + 1, j)),
{
    let (ci, cj) = choose|i: int, j: int| delimits(s, i, j);
    assert(delimits(s, ci, cj));
    assert(ci == i);
    assert(cj == j);
}

/// A document made of an opening tag, a fragment and the closing tag has that
/// fragment as its inner fragment, whatever the fragment holds.
pub proof fn lemma_wrapped_fragment(open: Seq<char>, x: Seq<char>)
    requires
        open.len() > 0,
        open.last() == '>',
        forall|i: int| 0 <= i < open.len() - 1 ==> open[i] != '>',
    ensures
        inner_fragment(open + x + closing_tag()) == Some(x),
{
    reveal_strlit("</svg>");
    let s = open + x + closing_tag();
    let i: int = open.len() - 1;
    let j: int = (open.len() + x.len()) as int;
    assert(s[i] == open[i]);
    assert forall|k: int| 0 <= k < i implies s[k] != '>' by {
        assert(s[k] == open[k]);
    }
    assert(s.subrange(j, j + 6) =~= closing_tag());
    assert(delimits(s, i, j));
    lemma_inner_fragment(s, i, j);
    assert(s.subrange(i + 1, j) =~= x);
}

/// A document without a closing tag, or without any `>`, has no inner
/// fragment.
pub proof fn lemma_malformed_fragment(s: Seq<char>)
    requires
        (forall|j: int| !closes_at(s, j)) || (forall|i: int| 0 <= i < s.len() ==> s[i] != '>'),
    ensures
        inner_fragment(s) is None,
{
    if exists|i: int, j: int| delimits(s, i, j) {
        let (i, j) = choose|i: int, j: int| delimits(s, i, j);
        assert(is_first_gt(s, i));
        assert(closes_at(s, j));
    }
}

/// Where the first `>` of `s` stands.
fn find_first_gt(s: &str) -> (r: Option<usize>)
    ensures
        match r {
            Some(i) => is_first_gt(s@, i as int),
            None => forall|i: int| 0 <= i < s@.len() ==> s@[i] != '>',
        },
{
    let n = s.unicode_len();
    let mut i: usize = 0;
    while i < n
        invariant
            n == s@.len(),
            i <= n,
            forall|j: int| 0 <= j < i ==> s@[j] != '>',
        decreases n - i,
    {
        if s.get_char(i) == '>' {
            return Some(i);
        }
        i = i + 1;
    }
    None
}

/// Where the last closing tag of `s` begins.
fn find_last_close(s: &str) -> (r: Option<usize>)
    ensures
        match r {
            Some(j) => is_last_close(s@, j as int),
            None => forall|j: int| !closes_at(s@, j),
        },
{
    let n = s.unicode_len();
    if n < 6 {
        return None;
    }
    let mut j: usize = n - 5;
    while j > 0
        invariant
            n == s@.len(),
            n >= 6,
            j <= n - 5,
            forall|k: int| j <= k ==> !closes_at(s@, k),
        decreases j,
    {
        j = j - 1;
        if str_eq(s.substring_char(j, j + 6), "</svg>") {
            return Some(j);
        }
    }
    None
}

/// The inner fragment of a stored document.
pub fn extract_inner(content: &str) -> (r: Option<String>)
    ensures
        match r {
            Some(x) => inner_fragment(content@) == Some(x@),
            None => inner_fragment(content@) is None,
        },
{
    match (find_first_gt(content), find_last_close(content)) {
        (Some(start), Some(end)) => {
            if start < end {
                proof {
                    lemma_inner_fragment(content@, start as int, end as int);
                }
                Some(content.substring_char(start + 1, end).to_owned())
            } else {
                proof {
                    if exists|i: int, j: int| delimits(content@, i, j) {
                        let (i, j) = choose|i: int, j: int| delimits(content@, i, j);
                        assert(delimits(content@, i, j));
                        assert(i == start);
                        assert(j == end);
                    }
                }
                None
            }
        },
        _ => {
            proof {
                lemma_malformed_fragment(content@);
            }
            None
        },
    }
}

/// What the first tier gives for `name`: the inner fragment of what the
/// catalogue holds under it.
pub open spec fn primary(name: Seq<char>, source: Option<Records>) -> Option<Seq<char>> {
    match source {
        Some(recs) => if has_name(recs, name) {
            inner_fragment(content_of(recs, name))
        } else {
            None
        },
        None => None,
    }
}

/// The content that `name` resolves to: the first tier that has it, of the
/// catalogue, the fallback set and the placeholder.
pub open spec fn resolved(name: Seq<char>, source: Option<Records>) -> Seq<char> {
    match primary(name, source) {
        Some(x) => x,
        None => match fallback_content(name) {
            Some(f) => f,
            None => placeholder(),
        },
    }
}

/// The records of an optional catalogue.
pub open spec fn records_of(catalogue: Option<&Catalogue>) -> Option<Records> {
    match catalogue {
        Some(c) => Some(c@),
        None => None,
    }
}

/// Resolves `name` to content. A catalogue that holds a document with an
/// inner fragment under `name` gives that fragment; failing that the fallback
/// set gives its entry; failing that the placeholder is returned.
pub fn resolve(name: &str, catalogue: Option<&Catalogue>) -> (r: String)
    ensures
        r@ == resolved(name@, records_of(catalogue)),
{
    if let Some(c) = catalogue {
        if let Some(doc) = c.get(name) {
            if let Some(x) = extract_inner(doc.as_str()) {
                return x;
            }
        }
    }
    match fallback(name) {
        Some(f) => f,
        None => placeholder_content(),
    }
}

/// A name under which the catalogue holds an opening tag, a fragment and the
/// closing tag resolves to that fragment.
pub proof fn lemma_resolve_wrapped(name: Seq<char>, recs: Records, open: Seq<char>, x: Seq<char>)
    requires
        has_name(recs, name),
        content_of(recs, name) == open + x + closing_tag(),
        open.len() > 0,
        open.last() == '>',
        forall|i: int| 0 <= i < open.len() - 1 ==> open[i] != '>',
    ensures
        resolved(name, Some(recs)) == x,
{
    lemma_wrapped_fragment(open, x);
}

/// A name under which the catalogue holds a document without a closing tag
/// resolves as if there were no catalogue: to its entry in the fallback set,
/// or to the placeholder.
pub proof fn lemma_resolve_malformed(name: Seq<char>, recs: Records)
    requires
        has_name(recs, name),
        forall|j: int| !closes_at(content_of(recs, name), j),
    ensures
        resolved(name, Some(recs)) == resolved(name, None),
        resolved(name, None) == match fallback_content(name) {
            Some(f) => f,
            None => placeholder(),
        },
{
    lemma_malformed_fragment(content_of(recs, name));
}

} // verus!
