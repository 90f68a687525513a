use vstd::prelude::*;
use crate::config::RouteConfig;
use crate::text::{chars_of, chars_occur_at, has_prefix, has_suffix, str_eq, str_starts_with, string_from_chars, lowercase, to_lowercase};

verus! {

/// One request header as the gateway sees it: `name` is lower case (as HTTP header maps
/// store names), `value` is the text of the value when it is visible ASCII and `None`
/// when it is not.
pub struct HeaderEntry {
    pub name: String,
    pub value: Option<String>,
}

/// The request headers, in the order the header map yields them.
pub struct Headers {
    pub entries: Vec<HeaderEntry>,
}

/// Index of the first header named `name`.
pub open spec fn header_index(entries: Seq<HeaderEntry>, name: Seq<char>) -> Option<int>
    decreases entries.len(),
{
    if entries.len() == 0 {
        None
    } else {
        match header_index(entries.drop_last(), name) {
            Some(i) => Some(i),
            None => if entries.last().name@ == name {
                Some(entries.len() - 1)
            } else {
                None
            },
        }
    }
}

/// The text of header `name`: `None` when absent or not visible ASCII.
pub open spec fn header_text(entries: Seq<HeaderEntry>, name: Seq<char>) -> Option<Seq<char>> {
    match header_index(entries, name) {
        Some(i) => match entries[i].value {
            Some(v) => Some(v@),
            None => None,
        },
        None => None,
    }
}

pub proof fn lemma_header_index(entries: Seq<HeaderEntry>, name: Seq<char>)
    ensures
        match header_index(entries, name) {
            Some(i) => 0 <= i < entries.len() && entries[i].name@ == name
                && forall|j: int| 0 <= j < i ==> entries[j].name@ != name,
            None => forall|j: int| 0 <= j < entries.len() ==> entries[j].name@ != name,
        },
    decreases entries.len(),
{
    if entries.len() > 0 {
        let prefix = entries.drop_last();
        lemma_header_index(prefix, name);
        assert(forall|j: int| 0 <= j < prefix.len() ==> prefix[j] == entries[j]);
    }
}

proof fn lemma_header_index_at(entries: Seq<HeaderEntry>, name: Seq<char>, i: int)
    requires
        0 <= i < entries.len(),
        entries[i].name@ == name,
        forall|j: int| 0 <= j < i ==> entries[j].name@ != name,
    ensures
        header_index(entries, name) == Some(i),
{
    lemma_header_index(entries, name);
}

impl Headers {
    /// Position of the first header named `name` (compared exactly).
    pub fn index_of(&self, name: &str) -> (r: Option<usize>)
        ensures
            match r {
                Some(i) => header_index(self.entries@, name@) == Some(i as int),
                None => header_index(self.entries@, name@) is None,
            },
    {
        let mut i: usize = 0;
        while i < self.entries.len()
            invariant
                i <= self.entries@.len(),
                forall|j: int| 0 <= j < i ==> self.entries@[j].name@ != name@,
            decreases self.entries@.len() - i,
        {
            if str_eq(self.entries[i].name.as_str(), name) {
                proof {
                    lemma_header_index_at(self.entries@, name@, i as int);
                }
                return Some(i);
            }
            i = i + 1;
        }
        proof {
            lemma_header_index(self.entries@, name@);
            match header_index(self.entries@, name@) {
                Some(k) => {
                    assert(self.entries@[k].name@ == name@);
                },
                None => {},
            }
        }
        None
    }

    /// The text of the first header named `name`, when it is present and visible ASCII.
    pub fn text(&self, name: &str) -> (r: Option<String>)
        ensures
            match r {
                Some(v) => header_text(self.entries@, name@) == Some(v@),
                None => header_text(self.entries@, name@) is None,
            },
    {
        proof {
            lemma_header_index(self.entries@, name@);
        }
        match self.index_of(name) {
            Some(i) => match &self.entries[i].value {
                Some(v) => Some(v.clone()),
                None => None,
            },
            None => None,
        }
    }
}

/// Is the pattern a glob prefix, `<prefix>/*`?
pub open spec fn is_glob(p: Seq<char>) -> bool {
    has_suffix(p, seq!['/', '*'])
}

/// The catch-all pattern `*`.
pub open spec fn is_catch_all(p: Seq<char>) -> bool {
    p == seq!['*']
}

/// A path matches a pattern when the pattern is `*`, equals the path, or is
/// `<prefix>/*` and the path starts with `<prefix>`.
pub open spec fn path_matches(pattern: Seq<char>, path: Seq<char>) -> bool {
    ||| is_catch_all(pattern)
    ||| pattern == path
    ||| (is_glob(pattern) && has_prefix(path, pattern.take(pattern.len() - 2)))
}

fn is_star(p: &str) -> (r: bool)
    ensures
        r == is_catch_all(p@),
{
    let cs = chars_of(p);
    let r = cs.len() == 1 && cs[0] == '*';
    proof {
        if cs@.len() == 1 && cs@[0] == '*' {
            assert(p@ =~= seq!['*']);
        }
    }
    r
}

fn ends_with_glob(p: &str) -> (r: bool)
    ensures
        r == is_glob(p@),
{
    let cs = chars_of(p);
    if cs.len() < 2 {
        return false;
    }
    let r = cs[cs.len() - 2] == '/' && cs[cs.len() - 1] == '*';
    proof {
        let tail = p@.skip(p@.len() - 2);
        if r {
            assert(tail =~= seq!['/', '*']);
        } else {
            if tail == seq!['/', '*'] {
                assert(tail[0] == p@[p@.len() - 2]);
                assert(tail[1] == p@[p@.len() - 1]);
            }
        }
    }
    r
}

/// Checks if a request path matches a route pattern (exact, glob prefix, or catch-all).
pub fn matches_path(pattern: &str, path: &str) -> (r: bool)
    ensures
        r == path_matches(pattern@, path@),
{
    if is_star(pattern) {
        return true;
    }
    if str_eq(pattern, path) {
        return true;
    }
    if ends_with_glob(pattern) {
        let pc = chars_of(pattern);
        let prefix = string_from_chars(&pc, 0, pc.len() - 2);
        proof {
            assert(pc@.subrange(0, pc@.len() - 2) =~= pattern@.take(pattern@.len() - 2));
        }
        return str_starts_with(path, prefix.as_str());
    }
    false
}

/// How specific a pattern is: `*` is 0, a glob is the length in bytes of its prefix
/// (the pattern's UTF-8 length less the two bytes of `/*`), an exact path is `usize::MAX`.
pub open spec fn specificity(p: Seq<char>) -> int {
    if is_catch_all(p) {
        0
    } else if is_glob(p) {
        vstd::utf8::encode_utf8(p).len() - 2
    } else {
        usize::MAX as int
    }
}

/// A string takes at least one byte per character in UTF-8.
proof fn lemma_utf8_len(s: Seq<char>)
    ensures
        vstd::utf8::encode_utf8(s).len() >= s.len(),
    decreases s.len(),
{
    if s.len() > 0 {
        lemma_utf8_len(s.drop_first());
    }
}

/// The byte length of a string slice.
fn byte_len(p: &str) -> (r: usize)
    ensures
        r == vstd::utf8::encode_utf8(p@).len(),
        r >= p@.len(),
{
    proof {
        lemma_utf8_len(p@);
    }
    p.as_bytes().len()
}

/// The index of the pattern `find_route` picks: among the matching patterns, the first
/// one of the greatest specificity.
pub open spec fn best_route(patterns: Seq<Seq<char>>, path: Seq<char>) -> Option<int>
    decreases patterns.len(),
{
    if patterns.len() == 0 {
        None
    } else {
        let prev = best_route(patterns.drop_last(), path);
        let i = patterns.len() - 1;
        if path_matches(patterns[i], path) && (prev is None || specificity(patterns[i]) > specificity(
            patterns[prev->0],
        )) {
            Some(i)
        } else {
            prev
        }
    }
}

pub proof fn lemma_best_route(patterns: Seq<Seq<char>>, path: Seq<char>)
    ensures
        match best_route(patterns, path) {
            Some(b) => {
                &&& 0 <= b < patterns.len()
                &&& path_matches(patterns[b], path)
                &&& forall|j: int|
                    0 <= j < patterns.len() && path_matches(#[trigger] patterns[j], path)
                        ==> specificity(patterns[j]) <= specificity(patterns[b])
                &&& forall|j: int|
                    0 <= j < b && path_matches(#[trigger] patterns[j], path)
                        ==> specificity(patterns[j]) < specificity(patterns[b])
            },
            None => forall|j: int| 0 <= j < patterns.len() ==> !path_matches(#[trigger] patterns[j], path),
        },
    decreases patterns.len(),
{
    if patterns.len() > 0 {
        let prefix = patterns.drop_last();
        lemma_best_route(prefix, path);
        assert(forall|j: int| 0 <= j < prefix.len() ==> prefix[j] == patterns[j]);
    }
}

/// The views of a slice of strings.
pub open spec fn views(v: Seq<String>) -> Seq<Seq<char>> {
    v.map_values(|s: String| s@)
}

/// Pushing a string pushes its view.
pub proof fn lemma_views_push(v: Seq<String>, x: String)
    ensures
        views(v.push(x)) == views(v).push(x@),
{
    assert(views(v.push(x)) =~= views(v).push(x@));
}

/// Of the patterns that match `path`, returns the most specific one: an exact pattern
/// beats any glob, a longer glob prefix beats a shorter one, and `*` comes last; among
/// equally specific patterns the first wins.
pub fn find_route<'a>(patterns: &'a [String], path: &str) -> (r: Option<&'a str>)
    ensures
        match best_route(views(patterns@), path@) {
            Some(b) => r is Some && r->0@ == patterns@[b]@,
            None => r is None,
        },
        r matches Some(p) ==> path_matches(p@, path@),
        r matches Some(p) ==> forall|j: int|
            0 <= j < patterns@.len() && path_matches(#[trigger] patterns@[j]@, path@)
                ==> specificity(patterns@[j]@) <= specificity(p@),
{
    let mut best: Option<usize> = None;
    let mut best_len: usize = 0;
    let mut i: usize = 0;
    while i < patterns.len()
        invariant
            i <= patterns@.len(),
            match best {
                Some(b) => best_route(views(patterns@).take(i as int), path@) == Some(b as int),
                None => best_route(views(patterns@).take(i as int), path@) is None,
            },
            best matches Some(b) ==> b < i && best_len == specificity(patterns@[b as int]@),
        decreases patterns@.len() - i,
    {
        proof {
            assert(views(patterns@).take(i + 1).drop_last() =~= views(patterns@).take(i as int));
            assert(views(patterns@).take(i + 1)[i as int] == patterns@[i as int]@);
            assert(forall|k: int| 0 <= k < i ==> views(patterns@).take(i as int)[k] == patterns@[k]@);
        }
        let p = patterns[i].as_str();
        if matches_path(p, path) {
            let specificity: usize = if is_star(p) {
                0
            } else if ends_with_glob(p) {
                byte_len(p) - 2
            } else {
                usize::MAX
            };
            if specificity > best_len || best.is_none() {
                best_len = specificity;
                best = Some(i);
            }
        }
        i = i + 1;
    }
    proof {
        assert(views(patterns@).take(patterns@.len() as int) =~= views(patterns@));
        lemma_best_route(views(patterns@), path@);
        assert(forall|k: int| 0 <= k < patterns@.len() ==> views(patterns@)[k] == patterns@[k]@);
        if let Some(b) = best {
            assert forall|j: int|
                0 <= j < patterns@.len() && path_matches(#[trigger] patterns@[j]@, path@)
                implies specificity(patterns@[j]@) <= specificity(patterns@[b as int]@) by {
                assert(views(patterns@)[j] == patterns@[j]@);
            }
        }
    }
    match best {
        Some(b) => Some(patterns[b].as_str()),
        None => None,
    }
}

/// Does the route's header condition hold? The configured name is lower-cased and
/// looked up; the first such header must be text equal to the configured value.
pub open spec fn header_condition(route: RouteConfig, headers: Seq<HeaderEntry>) -> bool {
    match route.match_header {
        Some(hm) => header_text(headers, lowercase(hm.name@)) == Some(hm.value@),
        None => true,
    }
}

/// Does the route's path condition hold? A route without a pattern matches every path.
pub open spec fn path_condition(route: RouteConfig, path: Seq<char>) -> bool {
    match route.match_pattern {
        Some(p) => path_matches(p@, path),
        None => true,
    }
}

/// Returns true if the request matches this route's path and header conditions (AND logic).
pub fn match_route(route: &RouteConfig, path: &str, headers: &Headers) -> (r: bool)
    ensures
        r == (path_condition(*route, path@) && header_condition(*route, headers.entries@)),
{
    let path_ok = match &route.match_pattern {
        Some(p) => matches_path(p.as_str(), path),
        None => true,
    };
    let header_ok = match &route.match_header {
        Some(hm) => {
            let name = to_lowercase(hm.name.as_str());
            match headers.text(name.as_str()) {
                Some(v) => str_eq(v.as_str(), hm.value.as_str()),
                None => false,
            }
        },
        None => true,
    };
    path_ok && header_ok
}

/// Among the patterns matching `path`, one is strictly more specific than every other
/// (different) one.
pub open spec fn unique_best(patterns: Seq<Seq<char>>, path: Seq<char>) -> bool {
    exists|m: int|
        0 <= m < patterns.len() && path_matches(#[trigger] patterns[m], path) && forall|j: int|
            0 <= j < patterns.len() && path_matches(#[trigger] patterns[j], path) && patterns[j] != patterns[m]
                ==> specificity(patterns[j]) < specificity(patterns[m])
}

/// The order of the patterns does not matter when one matching pattern is the most
/// specific: any reordering picks the same pattern (an exact match beats a glob wherever
/// it is listed).
pub proof fn law_find_route_order_free(p1: Seq<Seq<char>>, p2: Seq<Seq<char>>, path: Seq<char>)
    requires
        p1.to_multiset() == p2.to_multiset(),
        unique_best(p1, path),
    ensures
        best_route(p1, path) matches Some(b1) && best_route(p2, path) matches Some(b2) && p1[b1] == p2[b2],
{
    broadcast use vstd::seq_lib::group_to_multiset_ensures;

    let m = choose|m: int|
        0 <= m < p1.len() && path_matches(#[trigger] p1[m], path) && forall|j: int|
            0 <= j < p1.len() && path_matches(#[trigger] p1[j], path) && p1[j] != p1[m]
                ==> specificity(p1[j]) < specificity(p1[m]);
    let best = p1[m];
    lemma_best_route(p1, path);
    lemma_best_route(p2, path);
    assert(p1.contains(best));
    assert(p1.to_multiset().count(best) > 0);
    assert(p2.to_multiset().count(best) > 0);
    assert(p2.contains(best));
    let k = choose|k: int| 0 <= k < p2.len() && p2[k] == best;
    assert(path_matches(p2[k], path));
    let b1 = best_route(p1, path)->0;
    let b2 = best_route(p2, path)->0;
    assert(specificity(p1[m]) <= specificity(p1[b1]));
    assert(specificity(p2[k]) <= specificity(p2[b2]));
    assert(p2.contains(p2[b2]));
    assert(p2.to_multiset().count(p2[b2]) > 0);
    assert(p1.to_multiset().count(p2[b2]) > 0);
    assert(p1.contains(p2[b2]));
    let j = choose|j: int| 0 <= j < p1.len() && p1[j] == p2[b2];
    assert(path_matches(p1[j], path));
}

} // verus!
