//! Path containment checks on decoded path segments: the routing layer
//! refuses a request whose decoded segments smuggle a slash in, and only
//! serves files whose canonical path still lies under the serving root.

use vstd::prelude::*;
use crate::strutil::str_eq;

verus! {

/// Whether the components of `a` are a prefix of the components of `c`.
pub open spec fn is_path_prefix(a: Seq<Seq<char>>, c: Seq<Seq<char>>) -> bool {
    a.len() <= c.len() && a == c.subrange(0, a.len() as int)
}

/// Whether `ancestor` names the directory `child` lies under (or is),
/// component by component.
pub fn is_path_ancestor_of(ancestor: &Vec<String>, child: &Vec<String>) -> (r: bool)
    ensures
        r == is_path_prefix(
            ancestor@.map_values(|s: String| s@),
            child@.map_values(|s: String| s@),
        ),
{
    let ghost av = ancestor@.map_values(|s: String| s@);
    let ghost cv = child@.map_values(|s: String| s@);
    if ancestor.len() > child.len() {
        return false;
    }
    let mut i: usize = 0;
    while i < ancestor.len()
        invariant
            i <= ancestor.len() <= child.len(),
            av == ancestor@.map_values(|s: String| s@),
            cv == child@.map_values(|s: String| s@),
            av.len() == ancestor@.len(),
            cv.len() == child@.len(),
            forall|k: int| 0 <= k < i ==> av[k] == cv[k],
        decreases ancestor.len() - i,
    {
        if !str_eq(ancestor[i].as_str(), child[i].as_str()) {
            proof {
                assert(cv.subrange(0, av.len() as int)[i as int] == cv[i as int]);
            }
            return false;
        }
        i = i + 1;
    }
    proof {
        assert(av =~= cv.subrange(0, av.len() as int));
    }
    true
}

/// Whether any decoded segment of a path contains a slash (which can only
/// arrive percent-encoded); such a request is refused before any lookup.
pub open spec fn any_segment_has_slash(path: Seq<Seq<char>>) -> bool {
    exists|i: int| 0 <= i < path.len() && path[i].contains('/')
}

/// Whether a string contains a slash.
fn contains_slash(s: &str) -> (r: bool)
    ensures
        r == s@.contains('/'),
{
    let len = s.unicode_len();
    let mut i: usize = 0;
    while i < len
        invariant
            i <= len,
            len == s@.len(),
            forall|k: int| 0 <= k < i ==> s@[k] != '/',
        decreases len - i,
    {
        if s.get_char(i) == '/' {
            return true;
        }
        i = i + 1;
    }
    false
}

/// Whether any of the decoded path segments contains a slash.
pub fn any_segment_contains_slash(path: &Vec<String>) -> (r: bool)
    ensures
        r == any_segment_has_slash(path@.map_values(|s: String| s@)),
{
    let ghost pv = path@.map_values(|s: String| s@);
    let mut i: usize = 0;
    while i < path.len()
        invariant
            i <= path.len(),
            pv == path@.map_values(|s: String| s@),
            pv.len() == path@.len(),
            forall|k: int| 0 <= k < i ==> !(#[trigger] pv[k]).contains('/'),
        decreases path.len() - i,
    {
        if contains_slash(path[i].as_str()) {
            proof {
                assert(0 <= i < pv.len() && pv[i as int].contains('/'));
            }
            return true;
        }
        i = i + 1;
    }
    false
}

} // verus!
