//! The request grammar, written as specification-level functions.
//!
//! Every production takes the full byte sequence `s` and a position `i`, and
//! returns what it recognised together with the position of the first byte it
//! did not consume.  A production that fails still reports a position: the
//! bytes up to it were irreversibly consumed, which is what a one-byte
//! lookahead recursive-descent parser with no backtracking does.  The
//! executable parser is proved to follow these functions exactly.

use vstd::prelude::*;
use crate::peekable_bufreader::peek_spec;
use crate::rule::Method;
use crate::flatten::Version;

verus! {

pub const HTAB: u8 = 0x09;
pub const LF: u8 = 0x0A;
pub const CR: u8 = 0x0D;
pub const SPACE: u8 = 0x20;
pub const PERCENT: u8 = 0x25;
pub const SLASH: u8 = 0x2F;
pub const DOT: u8 = 0x2E;
pub const COLON: u8 = 0x3A;
pub const QUESTION_MARK: u8 = 0x3F;
pub const ATSIGN: u8 = 0x40;

// ---------------------------------------------------------------------------
// Character classes (RFC 5234, RFC 3986, RFC 7230)
// ---------------------------------------------------------------------------

/// ALPHA: a latin letter.
pub open spec fn is_alpha(c: u8) -> bool {
    (0x41 <= c <= 0x5A) || (0x61 <= c <= 0x7A)
}

/// DIGIT: an ascii decimal digit.
pub open spec fn is_digit(c: u8) -> bool {
    0x30 <= c <= 0x39
}

/// HEXDIG, upper or lower case.
pub open spec fn is_hex_digit(c: u8) -> bool {
    is_digit(c) || (0x41 <= c <= 0x46) || (0x61 <= c <= 0x66)
}

/// tchar: the characters a logical token (method, header field name) is made
/// of.
pub open spec fn is_tchar(c: u8) -> bool {
    ||| c == 0x21  // !
    ||| c == 0x23  // #
    ||| c == 0x24  // $
    ||| c == 0x25  // %
    ||| c == 0x26  // &
    ||| c == 0x27  // '
    ||| c == 0x2A  // *
    ||| c == 0x2B  // +
    ||| c == 0x2D  // -
    ||| c == 0x2E  // .
    ||| c == 0x5E  // ^
    ||| c == 0x5F  // _
    ||| c == 0x60  // `
    ||| c == 0x7C  // |
    ||| c == 0x7E  // ~
    ||| is_digit(c)
    ||| is_alpha(c)
}

/// unreserved path characters.
pub open spec fn is_unreserved(c: u8) -> bool {
    is_alpha(c) || is_digit(c) || c == 0x2D || c == 0x2E || c == 0x5F || c == 0x7E
}

/// sub-delims path characters.
pub open spec fn is_sub_delim(c: u8) -> bool {
    ||| c == 0x21  // !
    ||| c == 0x24  // $
    ||| c == 0x26  // &
    ||| c == 0x27  // '
    ||| c == 0x28  // (
    ||| c == 0x29  // )
    ||| c == 0x2A  // *
    ||| c == 0x2B  // +
    ||| c == 0x2C  // ,
    ||| c == 0x3B  // ;
    ||| c == 0x3D  // =
}

/// VCHAR: a visible ascii character.
pub open spec fn is_vchar(c: u8) -> bool {
    0x21 <= c <= 0x7E
}

/// obs-text: bytes with the high bit set, accepted in header field values.
pub open spec fn is_obs_text(c: u8) -> bool {
    c >= 0x80
}

/// The value of a hex digit character.
pub open spec fn hex_value(c: u8) -> u8 {
    if is_digit(c) {
        (c - 0x30) as u8
    } else if 0x41 <= c <= 0x46 {
        (c - 0x41 + 10) as u8
    } else {
        (c - 0x61 + 10) as u8
    }
}

/// The byte denoted by a percent-encoded triplet with hex digits `h` and `l`.
pub open spec fn hex_byte(h: u8, l: u8) -> u8 {
    (hex_value(h) * 16 + hex_value(l)) as u8
}

// ---------------------------------------------------------------------------
// Single-byte steps
// ---------------------------------------------------------------------------

/// How many bytes a cursor standing at `i` can still consume; loop
/// variants are phrased over this so that they never go negative.
pub open spec fn remaining(s: Seq<u8>, i: int) -> int {
    if i <= s.len() {
        s.len() - i
    } else {
        0
    }
}

/// Consume the byte `c` if it is next.
pub open spec fn sp_char(s: Seq<u8>, i: int, c: u8) -> (Option<u8>, int) {
    if peek_spec(s, i) == Some(c) {
        (Some(c), i + 1)
    } else {
        (None, i)
    }
}

/// Consume a decimal digit.
pub open spec fn sp_digit(s: Seq<u8>, i: int) -> (Option<u8>, int) {
    if 0 <= i < s.len() && is_digit(s[i]) {
        (Some(s[i]), i + 1)
    } else {
        (None, i)
    }
}

/// Consume a hex digit.
pub open spec fn sp_hex_digit(s: Seq<u8>, i: int) -> (Option<u8>, int) {
    if 0 <= i < s.len() && is_hex_digit(s[i]) {
        (Some(s[i]), i + 1)
    } else {
        (None, i)
    }
}

/// Consume an unreserved character.
pub open spec fn sp_unreserved(s: Seq<u8>, i: int) -> (Option<u8>, int) {
    if 0 <= i < s.len() && is_unreserved(s[i]) {
        (Some(s[i]), i + 1)
    } else {
        (None, i)
    }
}

/// Consume a sub-delims character.
pub open spec fn sp_sub_delim(s: Seq<u8>, i: int) -> (Option<u8>, int) {
    if 0 <= i < s.len() && is_sub_delim(s[i]) {
        (Some(s[i]), i + 1)
    } else {
        (None, i)
    }
}

/// Consume a field-vchar (visible or obs-text) character.
pub open spec fn sp_field_vchar(s: Seq<u8>, i: int) -> (Option<u8>, int) {
    if 0 <= i < s.len() && (is_vchar(s[i]) || is_obs_text(s[i])) {
        (Some(s[i]), i + 1)
    } else {
        (None, i)
    }
}

/// Consume CRLF.  On failure the CR alone may already have been consumed.
pub open spec fn sp_crlf(s: Seq<u8>, i: int) -> (bool, int) {
    if peek_spec(s, i) != Some(CR) {
        (false, i)
    } else if peek_spec(s, i + 1) != Some(LF) {
        (false, i + 1)
    } else {
        (true, i + 2)
    }
}

/// Consume optional whitespace (spaces and horizontal tabs); returns the
/// position of the first byte past the run.
pub open spec fn sp_ows(s: Seq<u8>, i: int) -> int
    decreases s.len() - i,
{
    if 0 <= i < s.len() && (s[i] == SPACE || s[i] == HTAB) {
        sp_ows(s, i + 1)
    } else {
        i
    }
}

/// Consume required whitespace: at least one space or tab, then any run.
pub open spec fn sp_rws(s: Seq<u8>, i: int) -> (bool, int) {
    if 0 <= i < s.len() && (s[i] == SPACE || s[i] == HTAB) {
        (true, sp_ows(s, i + 1))
    } else {
        (false, i)
    }
}

// ---------------------------------------------------------------------------
// Tokens
// ---------------------------------------------------------------------------

/// The maximal run of tchars starting at `i`, as characters.
pub open spec fn sp_token_chars(s: Seq<u8>, i: int) -> (Seq<char>, int)
    decreases s.len() - i,
{
    if 0 <= i < s.len() && is_tchar(s[i]) {
        let (rest, j) = sp_token_chars(s, i + 1);
        (seq![s[i] as char] + rest, j)
    } else {
        (Seq::empty(), i)
    }
}

/// A logical token: a non-empty maximal run of tchars.
pub open spec fn sp_logical_token(s: Seq<u8>, i: int) -> (Option<Seq<char>>, int) {
    if 0 <= i < s.len() && is_tchar(s[i]) {
        let (cs, j) = sp_token_chars(s, i);
        (Some(cs), j)
    } else {
        (None, i)
    }
}

// ---------------------------------------------------------------------------
// Path and query characters, with percent-decoding
// ---------------------------------------------------------------------------

/// What one attempt at a path or query character produced.  `Stop` is the
/// structural "no match" that lets the enclosing production end the run;
/// `Fail` is a malformed percent-encoding, fatal to the whole production.
pub enum CharOut {
    Got(u8),
    Stop,
    Fail,
}

/// Consume a percent-encoded triplet.  Without a percent sign nothing is
/// consumed; a percent sign not followed by two hex digits is malformed.
pub open spec fn sp_percent_encoded(s: Seq<u8>, i: int) -> (CharOut, int) {
    if peek_spec(s, i) != Some(PERCENT) {
        (CharOut::Stop, i)
    } else {
        match sp_hex_digit(s, i + 1) {
            (None, _) => (CharOut::Fail, i + 1),
            (Some(h), k) => match sp_hex_digit(s, k) {
                (None, _) => (CharOut::Fail, k),
                (Some(l), m) => (CharOut::Got(hex_byte(h, l)), m),
            },
        }
    }
}

/// One character of a path segment: unreserved, sub-delims, ":", "@", or a
/// percent-encoded byte.
pub open spec fn sp_path_char(s: Seq<u8>, i: int) -> (CharOut, int) {
    if 0 <= i < s.len() && (is_unreserved(s[i]) || is_sub_delim(s[i]) || s[i] == COLON || s[i]
        == ATSIGN) {
        (CharOut::Got(s[i]), i + 1)
    } else {
        sp_percent_encoded(s, i)
    }
}

/// One character of a query: the path characters plus "/" and "?".
pub open spec fn sp_query_char(s: Seq<u8>, i: int) -> (CharOut, int) {
    if 0 <= i < s.len() && (is_unreserved(s[i]) || is_sub_delim(s[i]) || s[i] == COLON || s[i]
        == ATSIGN || s[i] == SLASH || s[i] == QUESTION_MARK) {
        (CharOut::Got(s[i]), i + 1)
    } else {
        sp_percent_encoded(s, i)
    }
}

/// Prefix a decoded run with `p`, keeping a hard failure a failure.
pub open spec fn opt_prepend(p: Seq<char>, o: Option<Seq<char>>) -> Option<Seq<char>> {
    match o {
        Some(cs) => Some(p + cs),
        None => None,
    }
}

/// A segment: the maximal run of path characters, decoded.  `None` means a
/// malformed percent-encoding; an empty run is a valid (empty) segment.
/// Decoded bytes are stored as characters with the same code (bytes at or
/// above 0x80 become Latin-1 code points).
pub open spec fn sp_segment_chars(s: Seq<u8>, i: int) -> (Option<Seq<char>>, int)
    decreases s.len() - i,
{
    match sp_path_char(s, i) {
        (CharOut::Got(b), j) => if i < j <= s.len() {
            // a matched path character always consumes at least one byte;
            // the test keeps the recursion visibly well-founded
            let (rest, k) = sp_segment_chars(s, j);
            (opt_prepend(seq![b as char], rest), k)
        } else {
            (None, j)
        },
        (CharOut::Stop, j) => (Some(Seq::empty()), j),
        (CharOut::Fail, j) => (None, j),
    }
}

/// A query: the maximal run of query characters, decoded; `None` means a
/// malformed percent-encoding.
pub open spec fn sp_query_chars(s: Seq<u8>, i: int) -> (Option<Seq<char>>, int)
    decreases s.len() - i,
{
    match sp_query_char(s, i) {
        (CharOut::Got(b), j) => if i < j <= s.len() {
            // a matched query character always consumes at least one byte
            let (rest, k) = sp_query_chars(s, j);
            (opt_prepend(seq![b as char], rest), k)
        } else {
            (None, j)
        },
        (CharOut::Stop, j) => (Some(Seq::empty()), j),
        (CharOut::Fail, j) => (None, j),
    }
}

// ---------------------------------------------------------------------------
// absolute-path, origin-form
// ---------------------------------------------------------------------------

/// Prefix a parsed segment list, keeping a failure a failure.
pub open spec fn opt_prepend_seg(p: Seq<Seq<char>>, o: Option<Seq<Seq<char>>>) -> Option<
    Seq<Seq<char>>,
> {
    match o {
        Some(segs) => Some(p + segs),
        None => None,
    }
}

/// The "/" segment repetitions after the first segment of an absolute path.
pub open spec fn sp_abs_path_rest(s: Seq<u8>, i: int) -> (Option<Seq<Seq<char>>>, int)
    decreases s.len() - i,
{
    let (sl, j) = sp_char(s, i, SLASH);
    if sl is None {
        (Some(Seq::empty()), i)
    } else {
        match sp_segment_chars(s, j) {
            (Some(seg), k) => if i < k <= s.len() {
                // the slash was consumed, so the group is at least one
                // byte; the test keeps the recursion visibly well-founded
                let (rest, m) = sp_abs_path_rest(s, k);
                (opt_prepend_seg(seq![seg], rest), m)
            } else {
                (None, k)
            },
            (None, k) => (None, k),
        }
    }
}

/// absolute-path: one or more "/" segment groups.
pub open spec fn sp_absolute_path(s: Seq<u8>, i: int) -> (Option<Seq<Seq<char>>>, int) {
    let (sl, j) = sp_char(s, i, SLASH);
    if sl is None {
        (None, i)
    } else {
        match sp_segment_chars(s, j) {
            (Some(seg), k) => {
                let (rest, m) = sp_abs_path_rest(s, k);
                (opt_prepend_seg(seq![seg], rest), m)
            },
            (None, k) => (None, k),
        }
    }
}

/// An origin-form request target: an absolute path and an optional query.
pub ghost struct OriginFormV {
    pub path: Seq<Seq<char>>,
    pub query: Option<Seq<char>>,
}

/// origin-form: absolute-path [ "?" query ].
pub open spec fn sp_origin_form(s: Seq<u8>, i: int) -> (Option<OriginFormV>, int) {
    match sp_absolute_path(s, i) {
        (None, j) => (None, j),
        (Some(path), j) => {
            let (q, k) = sp_char(s, j, QUESTION_MARK);
            if q is None {
                (Some(OriginFormV { path, query: None }), j)
            } else {
                match sp_query_chars(s, k) {
                    (Some(qs), m) => (Some(OriginFormV { path, query: Some(qs) }), m),
                    (None, m) => (None, m),
                }
            }
        },
    }
}

// ---------------------------------------------------------------------------
// HTTP version, method, request-line
// ---------------------------------------------------------------------------

/// HTTP-version: the literal token "HTTP", "/", one digit, ".", one digit.
pub open spec fn sp_http_version(s: Seq<u8>, i: int) -> (Option<(u32, u32)>, int) {
    match sp_logical_token(s, i) {
        (None, j) => (None, j),
        (Some(t), j) => if t != seq!['H', 'T', 'T', 'P'] {
            (None, j)
        } else {
            let (sl, k) = sp_char(s, j, SLASH);
            if sl is None {
                (None, k)
            } else {
                match sp_digit(s, k) {
                    (None, m) => (None, m),
                    (Some(d1), m) => {
                        let (dot, n) = sp_char(s, m, DOT);
                        if dot is None {
                            (None, n)
                        } else {
                            match sp_digit(s, n) {
                                (None, p) => (None, p),
                                (Some(d2), p) => (
                                    Some(((d1 - 0x30) as u32, (d2 - 0x30) as u32)),
                                    p,
                                ),
                            }
                        }
                    },
                }
            }
        },
    }
}

/// Which of the eight recognised method tokens a token is, if any.
pub open spec fn method_of(t: Seq<char>) -> Option<Method> {
    if t == seq!['G', 'E', 'T'] {
        Some(Method::GET)
    } else if t == seq!['H', 'E', 'A', 'D'] {
        Some(Method::HEAD)
    } else if t == seq!['P', 'O', 'S', 'T'] {
        Some(Method::POST)
    } else if t == seq!['P', 'U', 'T'] {
        Some(Method::PUT)
    } else if t == seq!['D', 'E', 'L', 'E', 'T', 'E'] {
        Some(Method::DELETE)
    } else if t == seq!['C', 'O', 'N', 'N', 'E', 'C', 'T'] {
        Some(Method::CONNECT)
    } else if t == seq!['O', 'P', 'T', 'I', 'O', 'N', 'S'] {
        Some(Method::OPTIONS)
    } else if t == seq!['T', 'R', 'A', 'C', 'E'] {
        Some(Method::TRACE)
    } else {
        None
    }
}

/// method: a logical token that is one of the eight recognised methods; any
/// other token fails the parse.
pub open spec fn sp_method(s: Seq<u8>, i: int) -> (Option<Method>, int) {
    match sp_logical_token(s, i) {
        (None, j) => (None, j),
        (Some(t), j) => match method_of(t) {
            Some(m) => (Some(m), j),
            None => (None, j),
        },
    }
}

/// A parsed request line.
pub ghost struct RequestLineV {
    pub method: Method,
    pub target: OriginFormV,
    pub major: u32,
    pub minor: u32,
}

/// request-line: method SP origin-form SP HTTP-version CRLF.
pub open spec fn sp_request_line(s: Seq<u8>, i: int) -> (Option<RequestLineV>, int) {
    match sp_method(s, i) {
        (None, j) => (None, j),
        (Some(m), j) => {
            let (sp1, k) = sp_char(s, j, SPACE);
            if sp1 is None {
                (None, k)
            } else {
                match sp_origin_form(s, k) {
                    (None, n) => (None, n),
                    (Some(target), n) => {
                        let (sp2, p) = sp_char(s, n, SPACE);
                        if sp2 is None {
                            (None, p)
                        } else {
                            match sp_http_version(s, p) {
                                (None, q) => (None, q),
                                (Some((major, minor)), q) => {
                                    let (eol, r) = sp_crlf(s, q);
                                    if !eol {
                                        (None, r)
                                    } else {
                                        (
                                            Some(
                                                RequestLineV {
                                                    method: m,
                                                    target,
                                                    major,
                                                    minor,
                                                },
                                            ),
                                            r,
                                        )
                                    }
                                },
                            }
                        }
                    },
                }
            }
        },
    }
}

// ---------------------------------------------------------------------------
// Header fields
// ---------------------------------------------------------------------------

/// field-content: one field-vchar, optionally followed by required
/// whitespace and a second field-vchar.  Whitespace that turns out to be
/// trailing (no further field-vchar) ends the unit without a second
/// character; the run of whitespace between two field-vchars collapses to a
/// single space on emission.
pub open spec fn sp_field_content(s: Seq<u8>, i: int) -> (Option<(u8, Option<u8>)>, int) {
    match sp_field_vchar(s, i) {
        (None, _) => (None, i),
        (Some(c1), j) => {
            let (ws, k) = sp_rws(s, j);
            if !ws {
                (Some((c1, None)), j)
            } else {
                match sp_field_vchar(s, k) {
                    (Some(c2), m) => (Some((c1, Some(c2))), m),
                    (None, _) => (Some((c1, None)), k),
                }
            }
        },
    }
}

/// The bytes a field-content unit contributes to the flattened value.
pub open spec fn field_content_bytes(c1: u8, c2: Option<u8>) -> Seq<u8> {
    match c2 {
        Some(c) => seq![c1, SPACE, c],
        None => seq![c1],
    }
}

/// field-value: zero or more field-content units, flattened as they are
/// read.
pub open spec fn sp_field_value(s: Seq<u8>, i: int) -> (Seq<u8>, int)
    decreases s.len() - i,
{
    match sp_field_content(s, i) {
        (None, _) => (Seq::empty(), i),
        (Some((c1, c2)), j) => if i < j <= s.len() {
            // a field-content unit always consumes at least one byte;
            // the test keeps the recursion visibly well-founded
            let (rest, k) = sp_field_value(s, j);
            (field_content_bytes(c1, c2) + rest, k)
        } else {
            (Seq::empty(), j)
        },
    }
}

/// header-field: field-name ":" OWS field-value OWS.
pub open spec fn sp_header_field(s: Seq<u8>, i: int) -> (Option<(Seq<char>, Seq<u8>)>, int) {
    match sp_logical_token(s, i) {
        (None, j) => (None, j),
        (Some(name), j) => {
            let (col, k) = sp_char(s, j, COLON);
            if col is None {
                (None, k)
            } else {
                let k2 = sp_ows(s, k);
                let (value, k3) = sp_field_value(s, k2);
                let k4 = sp_ows(s, k3);
                (Some((name, value)), k4)
            }
        },
    }
}

/// The header section: header fields each ended by CRLF, terminated by an
/// empty line (a bare CRLF).
pub open spec fn sp_headers(s: Seq<u8>, i: int) -> (Option<Seq<(Seq<char>, Seq<u8>)>>, int)
    decreases s.len() - i,
{
    let (eol, j) = sp_crlf(s, i);
    if eol {
        (Some(Seq::empty()), j)
    } else {
        match sp_header_field(s, j) {
            (None, k) => (None, k),
            (Some(h), k) => {
                let (eol2, m) = sp_crlf(s, k);
                if !eol2 {
                    (None, m)
                } else if i < m <= s.len() {
                    // a header field and its CRLF consume at least one
                    // byte; the test keeps the recursion visibly
                    // well-founded
                    match sp_headers(s, m) {
                        (Some(rest), p) => (Some(seq![h] + rest), p),
                        (None, p) => (None, p),
                    }
                } else {
                    (None, m)
                }
            },
        }
    }
}

/// A parsed message: the request line and the header fields in order.
pub ghost struct MessageV {
    pub line: RequestLineV,
    pub headers: Seq<(Seq<char>, Seq<u8>)>,
}

/// HTTP-message: request-line, then the header section.  The message has no
/// body; bytes past the empty line are never read.
pub open spec fn sp_http_message(s: Seq<u8>, i: int) -> (Option<MessageV>, int) {
    match sp_request_line(s, i) {
        (None, j) => (None, j),
        (Some(line), j) => match sp_headers(s, j) {
            (None, k) => (None, k),
            (Some(headers), k) => (Some(MessageV { line, headers }), k),
        },
    }
}

// ---------------------------------------------------------------------------
// Flattening to the canonical request
// ---------------------------------------------------------------------------

/// The canonical request value.
pub ghost struct RequestV {
    pub method: Method,
    pub version: Version,
    pub path: Seq<Seq<char>>,
    pub headers: Map<Seq<char>, Seq<u8>>,
}

/// The version enum for a recognised major/minor pair; any other pair fails
/// the whole request.
pub open spec fn version_of(major: u32, minor: u32) -> Option<Version> {
    if major == 0 && minor == 9 {
        Some(Version::Http0_9)
    } else if major == 1 && minor == 0 {
        Some(Version::Http1_0)
    } else if major == 1 && minor == 1 {
        Some(Version::Http1_1)
    } else {
        None
    }
}

/// The header mapping: fields folded in order, a later field with the same
/// name overwriting an earlier one.
pub open spec fn headers_map(hs: Seq<(Seq<char>, Seq<u8>)>) -> Map<Seq<char>, Seq<u8>>
    decreases hs.len(),
{
    if hs.len() == 0 {
        Map::empty()
    } else {
        headers_map(hs.drop_last()).insert(hs.last().0, hs.last().1)
    }
}

/// Flattening a parsed message into the canonical request.
pub open spec fn sp_flatten(m: MessageV) -> Option<RequestV> {
    match version_of(m.line.major, m.line.minor) {
        None => None,
        Some(version) => Some(
            RequestV {
                method: m.line.method,
                version,
                path: m.line.target.path,
                headers: headers_map(m.headers),
            },
        ),
    }
}

/// The whole pipeline on a byte source positioned at `i`.
pub open spec fn sp_parse_at(s: Seq<u8>, i: int) -> Option<RequestV> {
    match sp_http_message(s, i) {
        (Some(m), _) => sp_flatten(m),
        (None, _) => None,
    }
}

/// The whole pipeline: parse the bytes of one request and flatten.
pub open spec fn sp_parse(s: Seq<u8>) -> Option<RequestV> {
    sp_parse_at(s, 0)
}

// ---------------------------------------------------------------------------
// Position facts: no production ever reports a position before where it
// started, nor past the end of the bytes it was given.
// ---------------------------------------------------------------------------

pub proof fn lemma_ows_pos(s: Seq<u8>, i: int)
    requires
        0 <= i,
    ensures
        i <= sp_ows(s, i),
        i <= s.len() ==> sp_ows(s, i) <= s.len(),
    decreases s.len() - i,
{
    if 0 <= i < s.len() && (s[i] == SPACE || s[i] == HTAB) {
        lemma_ows_pos(s, i + 1);
    }
}

pub proof fn lemma_token_chars_pos(s: Seq<u8>, i: int)
    requires
        0 <= i,
    ensures
        i <= sp_token_chars(s, i).1,
        i <= s.len() ==> sp_token_chars(s, i).1 <= s.len(),
    decreases s.len() - i,
{
    if 0 <= i < s.len() && is_tchar(s[i]) {
        lemma_token_chars_pos(s, i + 1);
    }
}

pub proof fn lemma_path_char_pos(s: Seq<u8>, i: int)
    requires
        0 <= i,
    ensures
        ({
            let (out, j) = sp_path_char(s, i);
            match out {
                CharOut::Got(_) => i < j <= s.len(),
                CharOut::Stop => j == i,
                CharOut::Fail => i < j <= s.len(),
            }
        }),
{
}

pub proof fn lemma_query_char_pos(s: Seq<u8>, i: int)
    requires
        0 <= i,
    ensures
        ({
            let (out, j) = sp_query_char(s, i);
            match out {
                CharOut::Got(_) => i < j <= s.len(),
                CharOut::Stop => j == i,
                CharOut::Fail => i < j <= s.len(),
            }
        }),
{
}

pub proof fn lemma_segment_chars_pos(s: Seq<u8>, i: int)
    requires
        0 <= i,
    ensures
        i <= sp_segment_chars(s, i).1,
        i <= s.len() ==> sp_segment_chars(s, i).1 <= s.len(),
    decreases s.len() - i,
{
    lemma_path_char_pos(s, i);
    match sp_path_char(s, i) {
        (CharOut::Got(_), j) => {
            lemma_segment_chars_pos(s, j);
        },
        _ => {},
    }
}

pub proof fn lemma_query_chars_pos(s: Seq<u8>, i: int)
    requires
        0 <= i,
    ensures
        i <= sp_query_chars(s, i).1,
        i <= s.len() ==> sp_query_chars(s, i).1 <= s.len(),
    decreases s.len() - i,
{
    lemma_query_char_pos(s, i);
    match sp_query_char(s, i) {
        (CharOut::Got(_), j) => {
            lemma_query_chars_pos(s, j);
        },
        _ => {},
    }
}

pub proof fn lemma_field_content_pos(s: Seq<u8>, i: int)
    requires
        0 <= i,
    ensures
        ({
            let (out, j) = sp_field_content(s, i);
            match out {
                Some(_) => i < j <= s.len(),
                None => j == i,
            }
        }),
{
    match sp_field_vchar(s, i) {
        (Some(_), j1) => {
            lemma_ows_pos(s, j1 + 1);
        },
        _ => {},
    }
}

pub proof fn lemma_field_value_pos(s: Seq<u8>, i: int)
    requires
        0 <= i,
    ensures
        i <= sp_field_value(s, i).1,
        i <= s.len() ==> sp_field_value(s, i).1 <= s.len(),
    decreases s.len() - i,
{
    lemma_field_content_pos(s, i);
    match sp_field_content(s, i) {
        (Some(_), j) => {
            lemma_field_value_pos(s, j);
        },
        _ => {},
    }
}

pub proof fn lemma_header_field_pos(s: Seq<u8>, i: int)
    requires
        0 <= i,
    ensures
        ({
            let (out, j) = sp_header_field(s, i);
            match out {
                Some(_) => i < j && (i <= s.len() ==> j <= s.len()),
                None => i <= j && (i <= s.len() ==> j <= s.len()),
            }
        }),
{
    lemma_token_chars_pos(s, i);
    match sp_logical_token(s, i) {
        (Some(name), j) => {
            assert(j == sp_token_chars(s, i).1);
            assert(sp_token_chars(s, i).1 == sp_token_chars(s, i + 1).1);
            lemma_token_chars_pos(s, i + 1);
            match sp_char(s, j, COLON) {
                (Some(_), k) => {
                    lemma_ows_pos(s, k);
                    let k2 = sp_ows(s, k);
                    lemma_field_value_pos(s, k2);
                    let k3 = sp_field_value(s, k2).1;
                    lemma_ows_pos(s, k3);
                },
                _ => {},
            }
        },
        _ => {},
    }
}

} // verus!
