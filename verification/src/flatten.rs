//! The flattener: collapses a parsed message into the canonical request
//! value, and the header mapping that backs it.

use vstd::prelude::*;
use crate::grammar::{headers_map, sp_flatten, version_of, RequestV};
use crate::rule::{HTTPMessage, Method};
use crate::strutil::str_eq;

verus! {

/// The three recognised HTTP versions.  Any other major/minor pair fails
/// the whole request, so an HTTP/2 prefix is rejected, not merely
/// unsupported.
#[derive(Debug, Clone, Copy, PartialEq, Eq, Structural)]
pub enum Version {
    Http0_9,
    Http1_0,
    Http1_1,
}

/// The header mapping of a canonical request: field names to raw decoded
/// values, case-sensitive, a later field with the same name overwriting an
/// earlier one.  The entries keep every field in parse order; the view folds
/// them so that the last write wins.
pub struct HeaderMap {
    entries: Vec<(String, Vec<u8>)>,
}

impl View for HeaderMap {
    type V = Map<Seq<char>, Seq<u8>>;

    closed spec fn view(&self) -> Map<Seq<char>, Seq<u8>> {
        headers_map(self.entries@.map_values(|e: (String, Vec<u8>)| (e.0@, e.1@)))
    }
}

impl HeaderMap {
    pub fn new() -> (r: Self)
        ensures
            r@ == Map::<Seq<char>, Seq<u8>>::empty(),
    {
        let r = Self { entries: Vec::new() };
        proof {
            assert(r.entries@.map_values(|e: (String, Vec<u8>)| (e.0@, e.1@)) =~= Seq::empty());
        }
        r
    }

    /// Record a field; a later field with the same name wins.
    pub fn insert(&mut self, name: String, value: Vec<u8>)
        ensures
            final(self)@ == old(self)@.insert(name@, value@),
    {
        let ghost before = self.entries@.map_values(|e: (String, Vec<u8>)| (e.0@, e.1@));
        let ghost name_v = name@;
        let ghost value_v = value@;
        self.entries.push((name, value));
        proof {
            let after = self.entries@.map_values(|e: (String, Vec<u8>)| (e.0@, e.1@));
            assert(after.drop_last() =~= before);
            assert(after.last() == (name_v, value_v));
        }
    }

    /// Look a field up by name.
    pub fn get(&self, name: &str) -> (r: Option<&Vec<u8>>)
        ensures
            match r {
                Some(v) => self@.contains_key(name@) && v@ == self@[name@],
                None => !self@.contains_key(name@),
            },
    {
        let ghost mapped = self.entries@.map_values(|e: (String, Vec<u8>)| (e.0@, e.1@));
        let mut i: usize = self.entries.len();
        while i > 0
            invariant
                i <= self.entries.len(),
                mapped == self.entries@.map_values(|e: (String, Vec<u8>)| (e.0@, e.1@)),
                forall|j: int| i <= j < mapped.len() ==> mapped[j].0 != name@,
            decreases i,
        {
            i = i - 1;
            let entry = &self.entries[i];
            if str_eq(entry.0.as_str(), name) {
                proof {
                    lemma_header_later_value_wins(mapped, i as int, name@);
                }
                return Some(&self.entries[i].1);
            }
        }
        proof {
            lemma_headers_map_absent(mapped, name@);
        }
        None
    }

    /// Whether a field with this name was recorded.
    pub fn contains_key(&self, name: &str) -> (r: bool)
        ensures
            r == self@.contains_key(name@),
    {
        self.get(name).is_some()
    }
}

/// A name that no recorded field bears is not in the mapping.
pub proof fn lemma_headers_map_absent(hs: Seq<(Seq<char>, Seq<u8>)>, k: Seq<char>)
    requires
        forall|j: int| 0 <= j < hs.len() ==> hs[j].0 != k,
    ensures
        !headers_map(hs).contains_key(k),
    decreases hs.len(),
{
    if hs.len() == 0 {
    } else {
        assert(forall|j: int| 0 <= j < hs.drop_last().len() ==> hs.drop_last()[j].0 != k);
        lemma_headers_map_absent(hs.drop_last(), k);
    }
}

/// Duplicate header fields: of all fields that bear a name, the latest one
/// supplies the value the canonical mapping retains.
pub proof fn lemma_header_later_value_wins(
    hs: Seq<(Seq<char>, Seq<u8>)>,
    i: int,
    k: Seq<char>,
)
    requires
        0 <= i < hs.len(),
        hs[i].0 == k,
        forall|j: int| i < j < hs.len() ==> hs[j].0 != k,
    ensures
        headers_map(hs).contains_key(k),
        headers_map(hs)[k] == hs[i].1,
    decreases hs.len(),
{
    if i == hs.len() - 1 {
    } else {
        assert(forall|j: int| i < j < hs.drop_last().len() ==> hs.drop_last()[j].0 != k);
        lemma_header_later_value_wins(hs.drop_last(), i, k);
    }
}

/// The canonical request: built once at the end of a successful parse,
/// immutable thereafter.
pub struct HTTPRequest {
    pub method: Method,
    pub version: Version,
    pub requested_path: Vec<String>,
    pub headers: HeaderMap,
}

impl View for HTTPRequest {
    type V = RequestV;

    open spec fn view(&self) -> RequestV {
        RequestV {
            method: self.method,
            version: self.version,
            path: self.requested_path@.map_values(|s: String| s@),
            headers: self.headers@,
        }
    }
}

/// Copy a byte vector.
fn copy_bytes(v: &Vec<u8>) -> (r: Vec<u8>)
    ensures
        r@ == v@,
{
    let mut r: Vec<u8> = Vec::new();
    let mut i: usize = 0;
    while i < v.len()
        invariant
            i <= v.len(),
            r@ == v@.subrange(0, i as int),
        decreases v.len() - i,
    {
        r.push(v[i]);
        i = i + 1;
        proof {
            assert(r@ =~= v@.subrange(0, i as int));
        }
    }
    proof {
        assert(v@.subrange(0, v@.len() as int) =~= v@);
    }
    r
}

/// Maps the parse tree to the canonical request: resolves the version pair
/// to the `Version` enum or fails the whole request, collects the decoded
/// path segments, and folds the header fields into the mapping with
/// later-field-wins resolution.  No path normalisation is performed.
pub fn flatten(message: HTTPMessage) -> (r: Option<HTTPRequest>)
    ensures
        match (r, sp_flatten(message@)) {
            (Some(req), Some(v)) => req@ == v,
            (None, None) => true,
            _ => false,
        },
{
    let method = message.request_line.method;
    let major = message.request_line.http_version.major;
    let minor = message.request_line.http_version.minor;
    let version = if major == 0 && minor == 9 {
        Version::Http0_9
    } else if major == 1 && minor == 0 {
        Version::Http1_0
    } else if major == 1 && minor == 1 {
        Version::Http1_1
    } else {
        proof {
            assert(version_of(major, minor) is None);
        }
        return None;
    };
    let segments = &message.request_line.request_target.absolute_path.segments;
    let mut requested_path: Vec<String> = Vec::new();
    let mut i: usize = 0;
    while i < segments.len()
        invariant
            i <= segments.len(),
            requested_path@.len() == i,
            forall|k: int| 0 <= k < i ==> requested_path@[k]@ == segments@[k]@,
        decreases segments.len() - i,
    {
        requested_path.push(segments[i].lexeme.clone());
        i = i + 1;
    }
    let fields = &message.header_fields;
    let mut headers = HeaderMap::new();
    let mut j: usize = 0;
    while j < fields.len()
        invariant
            j <= fields.len(),
            headers@ == headers_map(
                fields@.map_values(|h: crate::rule::HeaderField| h@).take(j as int),
            ),
        decreases fields.len() - j,
    {
        let field = &fields[j];
        headers.insert(field.name.lexeme.clone(), copy_bytes(&field.value.content));
        j = j + 1;
        proof {
            let mapped = fields@.map_values(|h: crate::rule::HeaderField| h@);
            assert(mapped.take(j as int).drop_last() =~= mapped.take(j - 1));
            assert(mapped.take(j as int).last() == mapped[j - 1]);
        }
    }
    proof {
        let mapped = fields@.map_values(|h: crate::rule::HeaderField| h@);
        assert(mapped.take(mapped.len() as int) =~= mapped);
        assert(requested_path@.map_values(|s: String| s@) =~= segments@.map_values(
            |seg: crate::rule::Segment| seg@,
        ));
    }
    Some(
        HTTPRequest {
            method,
            version,
            requested_path,
            headers,
        },
    )
}

} // verus!
