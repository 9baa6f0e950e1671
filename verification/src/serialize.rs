//! Re-serialising a canonical request's request-line, and the proof that
//! parsing what was serialised gives the same request-line back.
//!
//! The serialiser writes every path character as a percent-encoded
//! triplet, which is always within the grammar, so the request-line it
//! produces is equivalent to (not necessarily byte-identical with) the one
//! that was parsed.

use vstd::prelude::*;
use vstd::arithmetic::div_mod::lemma_fundamental_div_mod;
use crate::flatten::{HTTPRequest, Version};
use crate::grammar::{
    is_hex_digit, sp_char, sp_parse, is_sub_delim, is_tchar, is_unreserved, hex_byte, hex_value,
    sp_absolute_path, sp_abs_path_rest, sp_http_version, sp_method, sp_path_char,
    sp_query_char, sp_request_line, sp_segment_chars, sp_token_chars, version_of, CharOut,
    RequestV, ATSIGN, COLON, CR, DOT, LF, PERCENT, QUESTION_MARK, SLASH, SPACE,
};
use crate::rule::Method;

verus! {

/// The bytes of each recognised method token.
pub open spec fn method_bytes(m: Method) -> Seq<u8> {
    match m {
        Method::GET => seq![0x47u8, 0x45, 0x54],
        Method::HEAD => seq![0x48u8, 0x45, 0x41, 0x44],
        Method::POST => seq![0x50u8, 0x4F, 0x53, 0x54],
        Method::PUT => seq![0x50u8, 0x55, 0x54],
        Method::DELETE => seq![0x44u8, 0x45, 0x4C, 0x45, 0x54, 0x45],
        Method::CONNECT => seq![0x43u8, 0x4F, 0x4E, 0x4E, 0x45, 0x43, 0x54],
        Method::OPTIONS => seq![0x4Fu8, 0x50, 0x54, 0x49, 0x4F, 0x4E, 0x53],
        Method::TRACE => seq![0x54u8, 0x52, 0x41, 0x43, 0x45],
    }
}

/// The uppercase hex digit character for a value below sixteen.
pub open spec fn hex_digit_of(v: u8) -> u8 {
    if v < 10 {
        (0x30 + v) as u8
    } else {
        (0x41 + v - 10) as u8
    }
}

/// One path character, written as a percent-encoded triplet.
pub open spec fn pct_triplet(c: char) -> Seq<u8> {
    seq![
        PERCENT,
        hex_digit_of(((c as u32) / 16) as u8),
        hex_digit_of(((c as u32) % 16) as u8),
    ]
}

/// A serialised segment: each decoded character percent-encoded.
pub open spec fn ser_segment(cs: Seq<char>) -> Seq<u8>
    decreases cs.len(),
{
    if cs.len() == 0 {
        Seq::empty()
    } else {
        pct_triplet(cs.first()) + ser_segment(cs.drop_first())
    }
}

/// A serialised absolute path: "/" before each segment.
pub open spec fn ser_path(path: Seq<Seq<char>>) -> Seq<u8>
    decreases path.len(),
{
    if path.len() == 0 {
        Seq::empty()
    } else {
        seq![SLASH] + ser_segment(path.first()) + ser_path(path.drop_first())
    }
}

/// The bytes of each recognised version.
pub open spec fn version_bytes(v: Version) -> Seq<u8> {
    match v {
        Version::Http0_9 => seq![0x48u8, 0x54, 0x54, 0x50, 0x2F, 0x30, 0x2E, 0x39],
        Version::Http1_0 => seq![0x48u8, 0x54, 0x54, 0x50, 0x2F, 0x31, 0x2E, 0x30],
        Version::Http1_1 => seq![0x48u8, 0x54, 0x54, 0x50, 0x2F, 0x31, 0x2E, 0x31],
    }
}

/// The serialised request-line of a canonical request: the query was
/// dropped by the flattener, so none is written.
pub open spec fn ser_request_line(r: RequestV) -> Seq<u8> {
    method_bytes(r.method) + seq![SPACE] + ser_path(r.path) + seq![SPACE] + version_bytes(
        r.version,
    ) + seq![CR, LF]
}

/// What the serialiser needs of a canonical request; every request a
/// successful parse produces satisfies it: the path holds at least one
/// segment and each decoded character is one decoded byte.
pub open spec fn serializable(r: RequestV) -> bool {
    r.path.len() >= 1 && forall|i: int, j: int|
        0 <= i < r.path.len() && 0 <= j < r.path[i].len() ==> ((#[trigger] r.path[i][j])
            as u32) < 256
}

pub proof fn lemma_ser_segment_len(cs: Seq<char>)
    ensures
        ser_segment(cs).len() == 3 * cs.len(),
    decreases cs.len(),
{
    if cs.len() > 0 {
        lemma_ser_segment_len(cs.drop_first());
    }
}

pub proof fn lemma_ser_segment_snoc(cs: Seq<char>)
    requires
        cs.len() >= 1,
    ensures
        ser_segment(cs) == ser_segment(cs.drop_last()) + pct_triplet(cs.last()),
    decreases cs.len(),
{
    if cs.len() == 1 {
        reveal_with_fuel(ser_segment, 3);
        assert(cs.drop_last() =~= Seq::empty());
        assert(cs.drop_first() =~= Seq::empty());
        assert(ser_segment(cs) =~= Seq::<u8>::empty() + pct_triplet(cs.last()));
    } else {
        lemma_ser_segment_snoc(cs.drop_first());
        assert(cs.drop_first().drop_last() =~= cs.drop_last().drop_first());
        assert(cs.drop_first().last() == cs.last());
        assert(cs.drop_last().first() == cs.first());
        assert(cs.drop_last().len() >= 1);
        assert(pct_triplet(cs.first()) + (ser_segment(cs.drop_last().drop_first())
            + pct_triplet(cs.last())) =~= (pct_triplet(cs.drop_last().first()) + ser_segment(
            cs.drop_last().drop_first(),
        )) + pct_triplet(cs.last()));
    }
}

pub proof fn lemma_ser_path_snoc(p: Seq<Seq<char>>)
    requires
        p.len() >= 1,
    ensures
        ser_path(p) == ser_path(p.drop_last()) + seq![SLASH] + ser_segment(p.last()),
    decreases p.len(),
{
    if p.len() == 1 {
        reveal_with_fuel(ser_path, 3);
        assert(p.drop_last() =~= Seq::empty());
        assert(p.drop_first() =~= Seq::empty());
        assert(ser_path(p) =~= (Seq::<u8>::empty() + seq![SLASH]) + ser_segment(p.last()));
    } else {
        lemma_ser_path_snoc(p.drop_first());
        assert(p.drop_first().drop_last() =~= p.drop_last().drop_first());
        assert(p.drop_first().last() == p.last());
        assert(p.drop_last().first() == p.first());
        assert(p.drop_last().len() >= 1);
        assert(seq![SLASH] + ser_segment(p.first()) + ((ser_path(p.drop_last().drop_first())
            + seq![SLASH]) + ser_segment(p.last())) =~= ((seq![SLASH] + ser_segment(
            p.drop_last().first(),
        ) + ser_path(p.drop_last().drop_first())) + seq![SLASH]) + ser_segment(p.last()));
    }
}

/// The uppercase hex digit character for a value below sixteen.
fn hex_digit_char(v: u8) -> (r: u8)
    requires
        v < 16,
    ensures
        r == hex_digit_of(v),
{
    if v < 10 {
        0x30 + v
    } else {
        0x41 + v - 10
    }
}

/// Write the request-line of a canonical request back out.  Every path
/// character is percent-encoded, so the output always lies within the
/// grammar, whatever the decoded segments hold.
#[verifier::rlimit(100)]
pub fn serialize_request_line(request: &HTTPRequest) -> (r: Vec<u8>)
    requires
        serializable(request@),
    ensures
        r@ == ser_request_line(request@),
{
    let ghost rv = request@;
    let mut out: Vec<u8> = Vec::new();
    match request.method {
        Method::GET => {
            out.push(0x47);
            out.push(0x45);
            out.push(0x54);
            proof {
                assert(out@ =~= method_bytes(rv.method));
            }
        },
        Method::HEAD => {
            out.push(0x48);
            out.push(0x45);
            out.push(0x41);
            out.push(0x44);
            proof {
                assert(out@ =~= method_bytes(rv.method));
            }
        },
        Method::POST => {
            out.push(0x50);
            out.push(0x4F);
            out.push(0x53);
            out.push(0x54);
            proof {
                assert(out@ =~= method_bytes(rv.method));
            }
        },
        Method::PUT => {
            out.push(0x50);
            out.push(0x55);
            out.push(0x54);
            proof {
                assert(out@ =~= method_bytes(rv.method));
            }
        },
        Method::DELETE => {
            out.push(0x44);
            out.push(0x45);
            out.push(0x4C);
            out.push(0x45);
            out.push(0x54);
            out.push(0x45);
            proof {
                assert(out@ =~= method_bytes(rv.method));
            }
        },
        Method::CONNECT => {
            out.push(0x43);
            out.push(0x4F);
            out.push(0x4E);
            out.push(0x4E);
            out.push(0x45);
            out.push(0x43);
            out.push(0x54);
            proof {
                assert(out@ =~= method_bytes(rv.method));
            }
        },
        Method::OPTIONS => {
            out.push(0x4F);
            out.push(0x50);
            out.push(0x54);
            out.push(0x49);
            out.push(0x4F);
            out.push(0x4E);
            out.push(0x53);
            proof {
                assert(out@ =~= method_bytes(rv.method));
            }
        },
        Method::TRACE => {
            out.push(0x54);
            out.push(0x52);
            out.push(0x41);
            out.push(0x43);
            out.push(0x45);
            proof {
                assert(out@ =~= method_bytes(rv.method));
            }
        },
    }
    out.push(SPACE);
    let ghost base = out@;
    proof {
        assert(base =~= method_bytes(rv.method) + seq![SPACE]);
        assert(ser_path(rv.path.take(0)) =~= Seq::<u8>::empty());
        assert(base + Seq::<u8>::empty() =~= base);
    }
    let segments = &request.requested_path;
    let mut i: usize = 0;
    while i < segments.len()
        invariant
            i <= segments.len(),
            rv == request@,
            serializable(rv),
            rv.path == segments@.map_values(|s: String| s@),
            rv.path.len() == segments@.len(),
            base == method_bytes(rv.method) + seq![SPACE],
            out@ == base + ser_path(rv.path.take(i as int)),
        decreases segments.len() - i,
    {
        out.push(SLASH);
        let ghost seg_base = out@;
        proof {
            assert(ser_segment(rv.path[i as int].take(0)) =~= Seq::<u8>::empty());
            assert(seg_base + Seq::<u8>::empty() =~= seg_base);
        }
        let segment = &segments[i];
        let seg_len = segment.unicode_len();
        let mut k: usize = 0;
        while k < seg_len
            invariant
                k <= seg_len,
                rv == request@,
                serializable(rv),
                rv.path == segments@.map_values(|s: String| s@),
                rv.path.len() == segments@.len(),
                0 <= i < segments@.len(),
                segment@ == rv.path[i as int],
                seg_len == segment@.len(),
                out@ == seg_base + ser_segment(rv.path[i as int].take(k as int)),
            decreases seg_len - k,
        {
            let c = segment.get_char(k);
            let ghost out0 = out@;
            proof {
                assert(rv.path[i as int][k as int] == c);
                assert((c as u32) < 256);
            }
            let v = c as u32;
            out.push(PERCENT);
            out.push(hex_digit_char((v / 16) as u8));
            out.push(hex_digit_char((v % 16) as u8));
            k = k + 1;
            proof {
                let cs = rv.path[i as int];
                assert(cs.take(k as int).drop_last() =~= cs.take(k - 1));
                assert(cs.take(k as int).last() == c);
                lemma_ser_segment_snoc(cs.take(k as int));
                assert(out@ =~= out0 + pct_triplet(c));
                assert(out0 + pct_triplet(c) =~= seg_base + (ser_segment(cs.take(k - 1))
                    + pct_triplet(c)));
            }
        }
        i = i + 1;
        proof {
            let pv = rv.path;
            assert(rv.path[i - 1].take(seg_len as int) =~= rv.path[i - 1]);
            assert(pv.take(i as int).drop_last() =~= pv.take(i - 1));
            assert(pv.take(i as int).last() == pv[i - 1]);
            lemma_ser_path_snoc(pv.take(i as int));
            assert(out@ =~= seg_base + ser_segment(pv[i - 1]));
            assert(seg_base =~= (base + ser_path(pv.take(i - 1))) + seq![SLASH]);
            assert(out@ =~= base + ((ser_path(pv.take(i - 1)) + seq![SLASH]) + ser_segment(
                pv[i - 1],
            )));
        }
    }
    proof {
        assert(rv.path.take(rv.path.len() as int) =~= rv.path);
    }
    out.push(SPACE);
    let ghost base2 = out@;
    match request.version {
        Version::Http0_9 => {
            out.push(0x48);
            out.push(0x54);
            out.push(0x54);
            out.push(0x50);
            out.push(0x2F);
            out.push(0x30);
            out.push(0x2E);
            out.push(0x39);
            proof {
                assert(out@ =~= base2 + version_bytes(rv.version));
            }
        },
        Version::Http1_0 => {
            out.push(0x48);
            out.push(0x54);
            out.push(0x54);
            out.push(0x50);
            out.push(0x2F);
            out.push(0x31);
            out.push(0x2E);
            out.push(0x30);
            proof {
                assert(out@ =~= base2 + version_bytes(rv.version));
            }
        },
        Version::Http1_1 => {
            out.push(0x48);
            out.push(0x54);
            out.push(0x54);
            out.push(0x50);
            out.push(0x2F);
            out.push(0x31);
            out.push(0x2E);
            out.push(0x31);
            proof {
                assert(out@ =~= base2 + version_bytes(rv.version));
            }
        },
    }
    out.push(CR);
    out.push(LF);
    proof {
        assert(out@ =~= ((((method_bytes(rv.method) + seq![SPACE]) + ser_path(rv.path))
            + seq![SPACE]) + version_bytes(rv.version)) + seq![CR, LF]);
        assert(out@ =~= ser_request_line(rv));
    }
    out
}


// ---------------------------------------------------------------------------
// The round trip: parsing a serialised request-line gives the same
// request-line back.
// ---------------------------------------------------------------------------

/// Whether a byte can begin a path character (so a byte that cannot ends
/// the run of a segment).
pub open spec fn starts_path_char(c: u8) -> bool {
    is_unreserved(c) || is_sub_delim(c) || c == COLON || c == ATSIGN || c == PERCENT
}

/// A run of tchars bounded by a non-tchar (or the end of input) is read
/// back exactly as the token it spells.
pub proof fn lemma_token_chars_run(s: Seq<u8>, i: int, t: Seq<u8>)
    requires
        0 <= i,
        i + t.len() <= s.len(),
        s.subrange(i, i + t.len()) == t,
        forall|k: int| 0 <= k < t.len() ==> is_tchar(#[trigger] t[k]),
        i + t.len() == s.len() || !is_tchar(s[i + t.len()]),
    ensures
        sp_token_chars(s, i) == (t.map_values(|b: u8| b as char), i + t.len()),
    decreases t.len(),
{
    if t.len() == 0 {
        assert(t.map_values(|b: u8| b as char) =~= Seq::empty());
    } else {
        assert(s[i] == t[0]);
        let t2 = t.drop_first();
        assert(s.subrange(i + 1, i + 1 + t2.len()) =~= t2);
        assert(forall|k: int| 0 <= k < t2.len() ==> is_tchar(#[trigger] t2[k]));
        lemma_token_chars_run(s, i + 1, t2);
        assert(t.map_values(|b: u8| b as char) =~= seq![t[0] as char] + t2.map_values(
            |b: u8| b as char,
        ));
    }
}

/// A percent-encoded triplet decodes back to the character it encoded, in
/// a path as in a query.
pub proof fn lemma_parse_pct(s: Seq<u8>, i: int, c: char)
    requires
        0 <= i,
        i + 3 <= s.len(),
        (c as u32) < 256,
        s[i] == PERCENT,
        s[i + 1] == hex_digit_of(((c as u32) / 16) as u8),
        s[i + 2] == hex_digit_of(((c as u32) % 16) as u8),
    ensures
        sp_path_char(s, i) == (CharOut::Got((c as u32) as u8), i + 3),
        sp_query_char(s, i) == (CharOut::Got((c as u32) as u8), i + 3),
        (((c as u32) as u8) as char) == c,
{
    let v = c as u32;
    let hi = (v / 16) as u8;
    let lo = (v % 16) as u8;
    lemma_fundamental_div_mod(v as int, 16);
    assert(hi < 16);
    assert(lo < 16);
    assert(is_hex_digit(hex_digit_of(hi)));
    assert(is_hex_digit(hex_digit_of(lo)));
    assert(hex_value(hex_digit_of(hi)) == hi);
    assert(hex_value(hex_digit_of(lo)) == lo);
    assert(hex_byte(s[i + 1], s[i + 2]) == (c as u32) as u8);
}

/// A serialised segment bounded by a byte that cannot begin a path
/// character is read back exactly as the decoded characters it encoded.
pub proof fn lemma_parse_segment_run(s: Seq<u8>, i: int, cs: Seq<char>)
    requires
        0 <= i,
        i + 3 * cs.len() <= s.len(),
        s.subrange(i, i + 3 * cs.len()) == ser_segment(cs),
        forall|j: int| 0 <= j < cs.len() ==> ((#[trigger] cs[j]) as u32) < 256,
        i + 3 * cs.len() == s.len() || !starts_path_char(s[i + 3 * cs.len()]),
    ensures
        sp_segment_chars(s, i) == (Some(cs), i + 3 * cs.len()),
    decreases cs.len(),
{
    lemma_ser_segment_len(cs);
    if cs.len() == 0 {
        assert(cs =~= Seq::<char>::empty());
    } else {
        let c = cs.first();
        let cs2 = cs.drop_first();
        lemma_ser_segment_len(cs2);
        assert(ser_segment(cs)[0] == PERCENT);
        assert(s[i] == ser_segment(cs)[0]);
        assert(s[i + 1] == ser_segment(cs)[1]);
        assert(s[i + 2] == ser_segment(cs)[2]);
        assert(ser_segment(cs)[1] == pct_triplet(c)[1]);
        assert(ser_segment(cs)[2] == pct_triplet(c)[2]);
        lemma_parse_pct(s, i, c);
        assert(s.subrange(i + 3, i + 3 + 3 * cs2.len()) =~= ser_segment(cs2)) by {
            assert(forall|k: int|
                0 <= k < 3 * cs2.len() ==> #[trigger] s.subrange(i + 3, i + 3 + 3
                    * cs2.len())[k] == ser_segment(cs)[k + 3]);
        }
        assert(forall|j: int| 0 <= j < cs2.len() ==> ((#[trigger] cs2[j]) as u32) < 256);
        lemma_parse_segment_run(s, i + 3, cs2);
        assert(seq![((c as u32) as u8) as char] + cs2 =~= cs);
    }
}

/// The "/" segment repetitions of a serialised path, bounded by a byte
/// that neither begins a path character nor is a slash, read back exactly
/// as the segments they encoded.
pub proof fn lemma_parse_path_rest(s: Seq<u8>, i: int, p: Seq<Seq<char>>)
    requires
        0 <= i,
        i + ser_path(p).len() <= s.len(),
        s.subrange(i, i + ser_path(p).len()) == ser_path(p),
        forall|a: int, j: int|
            0 <= a < p.len() && 0 <= j < p[a].len() ==> ((#[trigger] p[a][j]) as u32) < 256,
        i + ser_path(p).len() == s.len() || (!starts_path_char(s[i + ser_path(p).len()]) && s[i
            + ser_path(p).len()] != SLASH),
    ensures
        sp_abs_path_rest(s, i) == (Some(p), i + ser_path(p).len()),
    decreases p.len(),
{
    if p.len() == 0 {
        assert(p =~= Seq::<Seq<char>>::empty());
    } else {
        let seg = p.first();
        let p2 = p.drop_first();
        lemma_ser_segment_len(seg);
        let sb = ser_segment(seg);
        let rb = ser_path(p2);
        assert(ser_path(p) == seq![SLASH] + sb + rb);
        assert(ser_path(p).len() == 1 + sb.len() + rb.len());
        assert(s[i] == ser_path(p)[0]);
        assert(ser_path(p)[0] == SLASH);
        let k = i + 1 + 3 * seg.len();
        assert(s.subrange(i + 1, k) =~= sb) by {
            assert(forall|m: int|
                0 <= m < sb.len() ==> #[trigger] s.subrange(i + 1, k)[m] == ser_path(p)[m
                    + 1]);
        }
        // the byte after the segment: the slash of the next group, or the
        // outer terminator
        if p2.len() == 0 {
            assert(rb.len() == 0);
            assert(k == i + ser_path(p).len());
        } else {
            assert(ser_path(p2)[0] == SLASH);
            assert(s[k] == ser_path(p)[k - i]);
            assert(ser_path(p)[k - i] == rb[0]);
            assert(!starts_path_char(SLASH));
        }
        assert(forall|j: int| 0 <= j < seg.len() ==> ((#[trigger] seg[j]) as u32) < 256) by {
            assert(forall|j: int| 0 <= j < p[0].len() ==> ((#[trigger] p[0][j]) as u32) < 256);
        }
        lemma_parse_segment_run(s, i + 1, seg);
        assert(s.subrange(k, k + rb.len()) =~= rb) by {
            assert(forall|m: int|
                0 <= m < rb.len() ==> #[trigger] s.subrange(k, k + rb.len())[m]
                    == ser_path(p)[m + (k - i)]);
        }
        assert(forall|a: int, j: int|
            0 <= a < p2.len() && 0 <= j < p2[a].len() ==> ((#[trigger] p2[a][j]) as u32)
                < 256) by {
            assert(forall|a: int, j: int|
                0 <= a < p.len() && 0 <= j < p[a].len() ==> ((#[trigger] p[a][j]) as u32)
                    < 256);
            assert(forall|a: int| 0 <= a < p2.len() ==> p2[a] == p[a + 1]);
        }
        lemma_parse_path_rest(s, k, p2);
        assert(seq![seg] + p2 =~= p);
    }
}

/// A whole serialised absolute path reads back as the path it encoded.
pub proof fn lemma_parse_path(s: Seq<u8>, i: int, p: Seq<Seq<char>>)
    requires
        0 <= i,
        p.len() >= 1,
        i + ser_path(p).len() <= s.len(),
        s.subrange(i, i + ser_path(p).len()) == ser_path(p),
        forall|a: int, j: int|
            0 <= a < p.len() && 0 <= j < p[a].len() ==> ((#[trigger] p[a][j]) as u32) < 256,
        i + ser_path(p).len() == s.len() || (!starts_path_char(s[i + ser_path(p).len()]) && s[i
            + ser_path(p).len()] != SLASH),
    ensures
        sp_absolute_path(s, i) == (Some(p), i + ser_path(p).len()),
{
    let seg = p.first();
    let p2 = p.drop_first();
    lemma_ser_segment_len(seg);
    let sb = ser_segment(seg);
    let rb = ser_path(p2);
    assert(ser_path(p) == seq![SLASH] + sb + rb);
    assert(ser_path(p).len() == 1 + sb.len() + rb.len());
    assert(s[i] == ser_path(p)[0]);
    assert(ser_path(p)[0] == SLASH);
    let k = i + 1 + 3 * seg.len();
    assert(s.subrange(i + 1, k) =~= sb) by {
        assert(forall|m: int|
            0 <= m < sb.len() ==> #[trigger] s.subrange(i + 1, k)[m] == ser_path(p)[m + 1]);
    }
    if p2.len() == 0 {
        assert(rb.len() == 0);
        assert(k == i + ser_path(p).len());
    } else {
        assert(ser_path(p2)[0] == SLASH);
        assert(s[k] == ser_path(p)[k - i]);
        assert(ser_path(p)[k - i] == rb[0]);
        assert(!starts_path_char(SLASH));
    }
    assert(forall|j: int| 0 <= j < seg.len() ==> ((#[trigger] seg[j]) as u32) < 256) by {
        assert(forall|j: int| 0 <= j < p[0].len() ==> ((#[trigger] p[0][j]) as u32) < 256);
    }
    lemma_parse_segment_run(s, i + 1, seg);
    assert(s.subrange(k, k + rb.len()) =~= rb) by {
        assert(forall|m: int|
            0 <= m < rb.len() ==> #[trigger] s.subrange(k, k + rb.len())[m] == ser_path(p)[m
                + (k - i)]);
    }
    assert(forall|a: int, j: int|
        0 <= a < p2.len() && 0 <= j < p2[a].len() ==> ((#[trigger] p2[a][j]) as u32) < 256) by {
        assert(forall|a: int| 0 <= a < p2.len() ==> p2[a] == p[a + 1]);
    }
    lemma_parse_path_rest(s, k, p2);
    assert(seq![seg] + p2 =~= p);
}

/// A serialised version token reads back as the version pair it encoded.
pub proof fn lemma_parse_version(s: Seq<u8>, i: int, v: Version)
    requires
        0 <= i,
        i + 8 <= s.len(),
        s.subrange(i, i + 8) == version_bytes(v),
    ensures
        ({
            let (o, j) = sp_http_version(s, i);
            j == i + 8 && match v {
                Version::Http0_9 => o == Some((0u32, 9u32)),
                Version::Http1_0 => o == Some((1u32, 0u32)),
                Version::Http1_1 => o == Some((1u32, 1u32)),
            }
        }),
{
    let t = seq![0x48u8, 0x54u8, 0x54u8, 0x50u8];
    assert(s.subrange(i, i + 4) =~= t) by {
        assert(s[i] == version_bytes(v)[0]);
        assert(s[i + 1] == version_bytes(v)[1]);
        assert(s[i + 2] == version_bytes(v)[2]);
        assert(s[i + 3] == version_bytes(v)[3]);
    }
    assert(forall|k: int| 0 <= k < t.len() ==> is_tchar(#[trigger] t[k])) by {
        assert(is_tchar(0x48) && is_tchar(0x54) && is_tchar(0x50));
    }
    assert(s[i + 4] == version_bytes(v)[4]);
    assert(version_bytes(v)[4] == 0x2F);
    assert(!is_tchar(0x2F));
    lemma_token_chars_run(s, i, t);
    assert(t.map_values(|b: u8| b as char) =~= seq!['H', 'T', 'T', 'P']);
    assert(s[i + 5] == version_bytes(v)[5]);
    assert(s[i + 6] == version_bytes(v)[6]);
    assert(s[i + 7] == version_bytes(v)[7]);
    assert(version_bytes(v)[6] == DOT);
}

/// A serialised method token bounded by a non-tchar reads back as the
/// method it names.
pub proof fn lemma_parse_method(s: Seq<u8>, i: int, m: Method)
    requires
        0 <= i,
        i + method_bytes(m).len() <= s.len(),
        s.subrange(i, i + method_bytes(m).len()) == method_bytes(m),
        i + method_bytes(m).len() == s.len() || !is_tchar(s[i + method_bytes(m).len()]),
    ensures
        sp_method(s, i) == (Some(m), i + method_bytes(m).len()),
{
    let t = method_bytes(m);
    assert(forall|k: int| 0 <= k < t.len() ==> is_tchar(#[trigger] t[k])) by {
        assert(is_tchar(0x41) && is_tchar(0x43) && is_tchar(0x44) && is_tchar(0x45));
        assert(is_tchar(0x47) && is_tchar(0x48) && is_tchar(0x49) && is_tchar(0x4C));
        assert(is_tchar(0x4E) && is_tchar(0x4F) && is_tchar(0x50) && is_tchar(0x52));
        assert(is_tchar(0x53) && is_tchar(0x54) && is_tchar(0x55));
    }
    lemma_token_chars_run(s, i, t);
    match m {
        Method::GET => {
            assert(t.map_values(|b: u8| b as char) =~= seq!['G', 'E', 'T']);
        },
        Method::HEAD => {
            assert(t.map_values(|b: u8| b as char) =~= seq!['H', 'E', 'A', 'D']);
        },
        Method::POST => {
            assert(t.map_values(|b: u8| b as char) =~= seq!['P', 'O', 'S', 'T']);
            assert(seq!['P', 'O', 'S', 'T'] != seq!['H', 'E', 'A', 'D']) by {
                assert(seq!['P', 'O', 'S', 'T'][0] == 'P');
                assert(seq!['H', 'E', 'A', 'D'][0] == 'H');
            }
        },
        Method::PUT => {
            assert(t.map_values(|b: u8| b as char) =~= seq!['P', 'U', 'T']);
            assert(seq!['P', 'U', 'T'] != seq!['G', 'E', 'T']) by {
                assert(seq!['P', 'U', 'T'][0] == 'P');
                assert(seq!['G', 'E', 'T'][0] == 'G');
            }
        },
        Method::DELETE => {
            assert(t.map_values(|b: u8| b as char) =~= seq!['D', 'E', 'L', 'E', 'T', 'E']);
        },
        Method::CONNECT => {
            assert(t.map_values(|b: u8| b as char) =~= seq!['C', 'O', 'N', 'N', 'E', 'C', 'T']);
        },
        Method::OPTIONS => {
            assert(t.map_values(|b: u8| b as char) =~= seq!['O', 'P', 'T', 'I', 'O', 'N', 'S']);
            assert(seq!['O', 'P', 'T', 'I', 'O', 'N', 'S'] != seq!['C', 'O', 'N', 'N', 'E', 'C', 'T']) by {
                assert(seq!['O', 'P', 'T', 'I', 'O', 'N', 'S'][0] == 'O');
                assert(seq!['C', 'O', 'N', 'N', 'E', 'C', 'T'][0] == 'C');
            }
        },
        Method::TRACE => {
            assert(t.map_values(|b: u8| b as char) =~= seq!['T', 'R', 'A', 'C', 'E']);
        },
    }
}

/// The request-line round trip: for every canonical request the parse can
/// produce, parsing its re-serialised request-line succeeds and yields an
/// equivalent request-line: the same method, the same decoded path
/// segments, the same version, and no query (the flattener dropped it),
/// with every serialised byte consumed.
#[verifier::rlimit(100)]
pub proof fn lemma_request_line_round_trip(r: RequestV)
    requires
        serializable(r),
    ensures
        ({
            let s = ser_request_line(r);
            let (o, j) = sp_request_line(s, 0);
            match o {
                Some(rl) => rl.method == r.method && rl.target.path == r.path
                    && rl.target.query is None && version_of(rl.major, rl.minor) == Some(
                    r.version,
                ) && j == s.len(),
                None => false,
            }
        }),
{
    let s = ser_request_line(r);
    let mb = method_bytes(r.method);
    let pb = ser_path(r.path);
    let vb = version_bytes(r.version);
    assert(vb.len() == 8);
    let p1 = mb.len() as int;
    let p2 = p1 + 1;
    let p3 = p2 + pb.len();
    let p4 = p3 + 1;
    let p5 = p4 + 8;
    assert(s.len() == p5 + 2);
    assert(s.subrange(0, p1) =~= mb) by {
        assert(forall|k: int| 0 <= k < mb.len() ==> #[trigger] s[k] == mb[k]);
    }
    assert(s[p1] == SPACE);
    assert(s.subrange(p2, p3) =~= pb) by {
        assert(forall|k: int| 0 <= k < pb.len() ==> s[p2 + k] == #[trigger] pb[k]);
    }
    assert(s[p3] == SPACE);
    assert(s.subrange(p4, p4 + 8) =~= vb) by {
        assert(forall|k: int| 0 <= k < 8 ==> s[p4 + k] == #[trigger] vb[k]);
    }
    assert(s[p5] == CR);
    assert(s[p5 + 1] == LF);
    assert(!is_tchar(SPACE));
    lemma_parse_method(s, 0, r.method);
    assert(!starts_path_char(SPACE) && SPACE != SLASH);
    lemma_parse_path(s, p2, r.path);
    assert(SPACE != QUESTION_MARK);
    lemma_parse_version(s, p4, r.version);
}


// ---------------------------------------------------------------------------
// Every request the parser produces can be re-serialised: its path holds
// at least one segment, and each decoded character is one decoded byte.
// ---------------------------------------------------------------------------

proof fn lemma_segment_chars_bytes(s: Seq<u8>, i: int)
    ensures
        ({
            match sp_segment_chars(s, i).0 {
                Some(cs) => forall|j: int|
                    0 <= j < cs.len() ==> ((#[trigger] cs[j]) as u32) < 256,
                None => true,
            }
        }),
    decreases s.len() - i,
{
    match sp_path_char(s, i) {
        (CharOut::Got(b), j) => {
            if i < j <= s.len() {
                lemma_segment_chars_bytes(s, j);
            }
        },
        _ => {},
    }
}

proof fn lemma_abs_path_rest_bytes(s: Seq<u8>, i: int)
    ensures
        ({
            match sp_abs_path_rest(s, i).0 {
                Some(p) => forall|a: int, j: int|
                    0 <= a < p.len() && 0 <= j < p[a].len() ==> ((#[trigger] p[a][j]) as u32)
                        < 256,
                None => true,
            }
        }),
    decreases s.len() - i,
{
    let (sl, j) = sp_char(s, i, SLASH);
    if sl is Some {
        match sp_segment_chars(s, j) {
            (Some(seg), k) => {
                lemma_segment_chars_bytes(s, j);
                if i < k <= s.len() {
                    lemma_abs_path_rest_bytes(s, k);
                    match sp_abs_path_rest(s, k).0 {
                        Some(rest) => {
                            let p = seq![seg] + rest;
                            assert(forall|a: int| 1 <= a < p.len() ==> p[a] == rest[a - 1]);
                        },
                        None => {},
                    }
                }
            },
            _ => {},
        }
    }
}

/// A request-line the grammar accepts always has a serialisable target:
/// one or more segments, every decoded character one byte.
pub proof fn lemma_request_line_serializable(s: Seq<u8>, i: int)
    ensures
        ({
            match sp_request_line(s, i).0 {
                Some(rl) => rl.target.path.len() >= 1 && forall|a: int, j: int|
                    0 <= a < rl.target.path.len() && 0 <= j < rl.target.path[a].len() ==> ((
                    #[trigger] rl.target.path[a][j]) as u32) < 256,
                None => true,
            }
        }),
{
    match sp_method(s, i) {
        (None, _) => {},
        (Some(_), j) => {
            let (sp1, k) = sp_char(s, j, SPACE);
            if sp1 is Some {
                let (sl, k1) = sp_char(s, k, SLASH);
                if sl is Some {
                    match sp_segment_chars(s, k1) {
                        (Some(seg), k2) => {
                            lemma_segment_chars_bytes(s, k1);
                            lemma_abs_path_rest_bytes(s, k2);
                            match sp_abs_path_rest(s, k2).0 {
                                Some(rest) => {
                                    let p = seq![seg] + rest;
                                    assert(forall|a: int|
                                        1 <= a < p.len() ==> p[a] == rest[a - 1]);
                                },
                                None => {},
                            }
                        },
                        _ => {},
                    }
                }
            }
        },
    }
}

/// For every byte sequence the grammar accepts as a whole request,
/// re-serialising the canonical request's request-line and parsing it
/// again reproduces an equivalent request-line: same method, same decoded
/// path segments, same version, no query.
pub proof fn lemma_parse_then_reserialize(s: Seq<u8>)
    requires
        sp_parse(s) is Some,
    ensures
        ({
            match sp_parse(s) {
                Some(r) => {
                    let (o, j) = sp_request_line(ser_request_line(r), 0);
                    match o {
                        Some(rl) => rl.method == r.method && rl.target.path == r.path
                            && rl.target.query is None && version_of(rl.major, rl.minor)
                            == Some(r.version) && j == ser_request_line(r).len(),
                        None => false,
                    }
                },
                None => false,
            }
        }),
{
    lemma_request_line_serializable(s, 0);
    match sp_parse(s) {
        Some(r) => {
            lemma_request_line_round_trip(r);
        },
        None => {},
    }
}

} // verus!
