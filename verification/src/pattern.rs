//! Regular-expression matching, done by the `regex` crate.
use vstd::prelude::*;

verus! {

/// A vertex line: `v` and three coordinates.
pub const VERTEX_PATTERN: &'static str = r"v\s+([\d\-\.e]+)\s+([\d\-\.e]+)\s+([\d\-\.e]+)";

/// A face line: `f` and three corners `vertex/texture...`.
pub const FACE_PATTERN: &'static str = r"f\s+(\d*)/(\d*)[^ ]+\s+(\d*)/(\d*)[^ ]+\s+(\d*)/(\d*)[^ ]+";

/// A texture vertex line: `vt` and two coordinates.
pub const TEXTURE_PATTERN: &'static str = r"vt\s+([\d\-\.e]+)\s+([\d\-\.e]+)";

/// A vertex normal line: `vn` and three coordinates.
pub const NORMAL_PATTERN: &'static str = r"vn\s+([\d\-\.e]+)\s+([\d\-\.e]+)\s+([\d\-\.e]+)";

/// What `regex` finds of `pattern` in `haystack`: `None` when `Regex::new`
/// refuses the pattern; otherwise, for each successive non-overlapping match
/// that `Regex::captures_iter` yields, its capture groups in order (group 0
/// being the whole match), each the matched text or `None` where the group
/// took no part in the match.
pub uninterp spec fn regex_captures(pattern: Seq<char>, haystack: Seq<char>) -> Option<
    Seq<Seq<Option<Seq<char>>>>,
>;

/// Compiles `pattern` with `regex::Regex::new` and lists the capture groups
/// of every match of it in `haystack` (`Regex::captures_iter`, then
/// `Captures::iter`). The contract names the result, which depends on the
/// pattern and the haystack alone, and claims that `Regex::new` accepts the
/// four line patterns above: it refuses only bad syntax or a compiled size
/// over its limit, and these are well-formed and small.
#[verifier::external_body]
pub(crate) fn captures_all(pattern: &str, haystack: &str) -> (res: Option<Vec<Vec<Option<String>>>>)
    ensures
        res.deep_view() == regex_captures(pattern@, haystack@),
        pattern@ == VERTEX_PATTERN@ || pattern@ == FACE_PATTERN@ || pattern@ == TEXTURE_PATTERN@ || pattern@
            == NORMAL_PATTERN@ ==> res is Some,
{
    let re = match regex::Regex::new(pattern) {
        Ok(re) => re,
        Err(_) => return None,
    };
    let mut all = Vec::new();
    for caps in re.captures_iter(haystack) {
        let mut groups = Vec::new();
        for m in caps.iter() {
            groups.push(match m { Some(m) => Some(m.as_str().to_string()), None => None });
        }
        all.push(groups);
    }
    Some(all)
}

} // verus!
