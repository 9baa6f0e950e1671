//! The grammar parser: deterministic recursive descent with one byte of
//! lookahead and no backtracking, driven over the byte cursor.  Every
//! production is proved to behave exactly as the corresponding
//! specification function in `grammar`.

use vstd::prelude::*;
use crate::grammar::{
    is_alpha, is_digit, is_hex_digit, is_obs_text, is_sub_delim, is_tchar, is_unreserved,
    is_vchar, hex_byte, hex_value, remaining, sp_char, sp_crlf, sp_digit, sp_field_vchar,
    sp_hex_digit, sp_logical_token, sp_ows, sp_percent_encoded, sp_path_char, sp_query_char,
    sp_rws, sp_sub_delim, sp_token_chars, sp_unreserved, CharOut, ATSIGN, COLON, CR, DOT, HTAB,
    LF, PERCENT, QUESTION_MARK, SLASH, SPACE,
};
use crate::grammar::{
    lemma_field_content_pos, lemma_header_field_pos, lemma_path_char_pos, lemma_query_char_pos,
    lemma_segment_chars_pos, field_content_bytes, opt_prepend, opt_prepend_seg,
    sp_absolute_path, sp_abs_path_rest, sp_field_content, sp_field_value, sp_header_field,
    sp_headers, sp_http_message, sp_http_version, sp_method, sp_origin_form, sp_parse_at,
    sp_request_line, sp_segment_chars, sp_query_chars,
};
use crate::rule::{
    AbsolutePath, FieldContent, FieldName, FieldValue, HTTPMessage, HTTPVersion, HeaderField,
    Method, OriginForm, Query, RequestLine, Segment,
};
use crate::flatten::{flatten, HTTPRequest};
use crate::strutil::str_eq;
use crate::peekable_bufreader::PeekableBufReader;

verus! {

broadcast use crate::peekable_bufreader::lemma_cursor_at_nonneg;

/// Which way a path or query character attempt failed: the expected class
/// was simply absent (the run may end there), or a percent sign was present
/// but malformed (fatal to the enclosing production).
enum ErrorType {
    Missing,
    Malformed,
}

/// The recursive-descent parser.  It exclusively owns the byte cursor for
/// the duration of one parse.
pub struct Parser {
    source: PeekableBufReader,
}

impl Parser {
    /// The bytes the underlying source delivers.
    pub closed spec fn bytes(&self) -> Seq<u8> {
        self.source.bytes()
    }

    /// How many bytes have been consumed.
    pub closed spec fn at(&self) -> int {
        self.source.at()
    }

    pub fn new(source: PeekableBufReader) -> (r: Self)
        ensures
            r.bytes() == source.bytes(),
            r.at() == source.at(),
    {
        Self { source }
    }

    /// Drive the parser to completion over its source and flatten the
    /// result: either a canonical request or nothing at all.
    pub fn parse(self) -> (r: Option<HTTPRequest>)
        ensures
            match (r, sp_parse_at(self.bytes(), self.at())) {
                (Some(req), Some(v)) => req@ == v,
                (None, None) => true,
                _ => false,
            },
    {
        let mut this = self;
        match this.http_message() {
            Some(message) => flatten(message),
            None => None,
        }
    }

    /// HTTP-message: the request line, then header fields until the empty
    /// line.  The message has no body: a GET-only server never reads one,
    /// so nothing past the empty line is consumed.
    fn http_message(&mut self) -> (r: Option<HTTPMessage>)
        ensures
            final(self).bytes() == old(self).bytes(),
            ({
                let (m, j) = sp_http_message(old(self).bytes(), old(self).at());
                match (r, m) {
                    (Some(msg), Some(v)) => msg@ == v,
                    (None, None) => true,
                    _ => false,
                }
            }),
    {
        let ghost s0 = self.bytes();
        let ghost i0 = self.at();
        let start_line = match self.start_line() {
            Some(rl) => rl,
            None => {
                return None;
            },
        };
        let ghost j1 = self.at();
        let mut header_fields: Vec<HeaderField> = Vec::new();
        proof {
            assert(header_fields@.map_values(|h: HeaderField| h@) =~= Seq::empty());
            match sp_headers(s0, j1).0 {
                Some(rest) => {
                    assert(Seq::<(Seq<char>, Seq<u8>)>::empty() + rest =~= rest);
                },
                None => {},
            }
        }
        loop
            invariant_except_break
                sp_headers(s0, j1).1 == sp_headers(s0, self.at()).1,
                sp_headers(s0, j1).0 == match sp_headers(s0, self.at()).0 {
                    Some(rest) => Some(header_fields@.map_values(|h: HeaderField| h@) + rest),
                    None => None::<Seq<(Seq<char>, Seq<u8>)>>,
                },
            invariant
                self.bytes() == s0,
                0 <= self.at(),
                s0 == old(self).bytes(),
                i0 == old(self).at(),
                sp_request_line(s0, i0) == (Some(start_line@), j1),
            ensures
                self.bytes() == s0,
                sp_headers(s0, j1).0 == Some(header_fields@.map_values(|h: HeaderField| h@)),
                sp_headers(s0, j1).1 == self.at(),
            decreases remaining(s0, self.at()),
        {
            let ghost i_prev = self.at();
            if self.consume_carriage_return().is_some() {
                proof {
                    let hs = header_fields@.map_values(|h: HeaderField| h@);
                    assert(sp_headers(s0, i_prev) == (Some(Seq::<(Seq<char>, Seq<u8>)>::empty()), self.at()));
                    assert(hs + Seq::<(Seq<char>, Seq<u8>)>::empty() =~= hs);
                    assert(sp_headers(s0, j1).0 == Some(hs));
                    assert(sp_headers(s0, j1).1 == self.at());
                }
                break;
            }
            let ghost jj = self.at();
            let h = match self.header_field() {
                Some(h) => h,
                None => {
                    return None;
                },
            };
            let ghost k = self.at();
            if self.consume_carriage_return().is_none() {
                return None;
            }
            proof {
                lemma_header_field_pos(s0, jj);
                let hs = header_fields@.map_values(|h: HeaderField| h@);
                let (rest, _p) = sp_headers(s0, self.at());
                match rest {
                    Some(inner) => {
                        assert(hs + (seq![h@] + inner) =~= (hs + seq![h@]) + inner);
                    },
                    None => {},
                }
            }
            header_fields.push(h);
            proof {
                assert(header_fields@.map_values(|h: HeaderField| h@) =~= header_fields@.drop_last().map_values(|h: HeaderField| h@) + seq![h@]);
            }
        }
        Some(HTTPMessage { request_line: start_line, header_fields })
    }

    /// start-line: this is a server, so exclusively a request-line.
    fn start_line(&mut self) -> (r: Option<RequestLine>)
        ensures
            final(self).bytes() == old(self).bytes(),
            ({
                let (l, j) = sp_request_line(old(self).bytes(), old(self).at());
                final(self).at() == j && match (r, l) {
                    (Some(rl), Some(v)) => rl@ == v,
                    (None, None) => true,
                    _ => false,
                }
            }),
    {
        self.request_line()
    }

    /// request-line: method SP origin-form SP HTTP-version CRLF.
    fn request_line(&mut self) -> (r: Option<RequestLine>)
        ensures
            final(self).bytes() == old(self).bytes(),
            ({
                let (l, j) = sp_request_line(old(self).bytes(), old(self).at());
                final(self).at() == j && match (r, l) {
                    (Some(rl), Some(v)) => rl@ == v,
                    (None, None) => true,
                    _ => false,
                }
            }),
    {
        let method = match self.method() {
            Some(m) => m,
            None => {
                return None;
            },
        };
        if self.consume_char(SPACE).is_none() {
            return None;
        }
        let request_target = match self.request_target() {
            Some(t) => t,
            None => {
                return None;
            },
        };
        if self.consume_char(SPACE).is_none() {
            return None;
        }
        let http_version = match self.http_version() {
            Some(v) => v,
            None => {
                return None;
            },
        };
        if self.consume_carriage_return().is_none() {
            return None;
        }
        Some(RequestLine { method, request_target, http_version })
    }

    /// request-target: only origin-form is served.
    fn request_target(&mut self) -> (r: Option<OriginForm>)
        ensures
            final(self).bytes() == old(self).bytes(),
            ({
                let (o, j) = sp_origin_form(old(self).bytes(), old(self).at());
                final(self).at() == j && match (r, o) {
                    (Some(of), Some(v)) => of@ == v,
                    (None, None) => true,
                    _ => false,
                }
            }),
    {
        self.origin_form()
    }

    /// origin-form: absolute-path [ "?" query ].
    fn origin_form(&mut self) -> (r: Option<OriginForm>)
        ensures
            final(self).bytes() == old(self).bytes(),
            ({
                let (o, j) = sp_origin_form(old(self).bytes(), old(self).at());
                final(self).at() == j && match (r, o) {
                    (Some(of), Some(v)) => of@ == v,
                    (None, None) => true,
                    _ => false,
                }
            }),
    {
        let absolute_path = match self.absolute_path() {
            Some(p) => p,
            None => {
                return None;
            },
        };
        let query = if self.consume_char(QUESTION_MARK).is_some() {
            match self.query() {
                Some(q) => Some(q),
                None => {
                    return None;
                },
            }
        } else {
            None
        };
        Some(OriginForm { absolute_path, query })
    }

    /// absolute-path: one or more "/" segment groups.
    fn absolute_path(&mut self) -> (r: Option<AbsolutePath>)
        ensures
            final(self).bytes() == old(self).bytes(),
            ({
                let (p, j) = sp_absolute_path(old(self).bytes(), old(self).at());
                final(self).at() == j && match (r, p) {
                    (Some(ap), Some(segs)) => ap@ == segs,
                    (None, None) => true,
                    _ => false,
                }
            }),
    {
        let ghost s0 = self.bytes();
        let ghost i0 = self.at();
        if self.consume_char(SLASH).is_none() {
            return None;
        }
        let first = match self.segment() {
            Some(seg) => seg,
            None => {
                return None;
            },
        };
        let mut segments: Vec<Segment> = Vec::new();
        let ghost first_v = first@;
        segments.push(first);
        proof {
            assert(segments@.map_values(|seg: Segment| seg@) =~= seq![first_v]);
            match sp_abs_path_rest(s0, self.at()).0 {
                Some(rest) => {
                    assert(seq![first_v] + rest =~= opt_prepend_seg(seq![first_v], Some(rest)).unwrap());
                },
                None => {},
            }
        }
        loop
            invariant
                self.bytes() == s0,
                0 <= self.at(),
                s0 == old(self).bytes(),
                i0 == old(self).at(),
                sp_absolute_path(s0, i0).1 == sp_abs_path_rest(s0, self.at()).1,
                sp_absolute_path(s0, i0).0 == opt_prepend_seg(
                    segments@.map_values(|seg: Segment| seg@),
                    sp_abs_path_rest(s0, self.at()).0,
                ),
            ensures
                self.bytes() == s0,
                sp_absolute_path(s0, i0).0 == Some(segments@.map_values(|seg: Segment| seg@)),
                sp_absolute_path(s0, i0).1 == self.at(),
            decreases remaining(s0, self.at()),
        {
            let ghost i_prev = self.at();
            if self.consume_char(SLASH).is_none() {
                proof {
                    let segs = segments@.map_values(|seg: Segment| seg@);
                    assert(segs + Seq::<Seq<char>>::empty() =~= segs);
                }
                break;
            }
            let ghost j = self.at();
            match self.segment() {
                Some(seg) => {
                    proof {
                        lemma_segment_chars_pos(s0, j);
                        let segs = segments@.map_values(|seg2: Segment| seg2@);
                        match sp_abs_path_rest(s0, self.at()).0 {
                            Some(inner) => {
                                assert(segs + (seq![seg@] + inner) =~= (segs + seq![seg@]) + inner);
                            },
                            None => {},
                        }
                    }
                    segments.push(seg);
                    proof {
                        assert(segments@.map_values(|seg2: Segment| seg2@) =~= segments@.drop_last().map_values(|seg2: Segment| seg2@) + seq![segments@.last()@]);
                    }
                },
                None => {
                    return None;
                },
            }
        }
        Some(AbsolutePath { segments })
    }

    /// segment: the maximal run of path characters, percent-decoded as it
    /// is read.  A malformed percent-encoding aborts the segment and the
    /// whole parse with it.
    fn segment(&mut self) -> (r: Option<Segment>)
        ensures
            final(self).bytes() == old(self).bytes(),
            ({
                let (sc, j) = sp_segment_chars(old(self).bytes(), old(self).at());
                final(self).at() == j && match (r, sc) {
                    (Some(seg), Some(cs)) => seg@ == cs,
                    (None, None) => true,
                    _ => false,
                }
            }),
    {
        let ghost s0 = self.bytes();
        let ghost i0 = self.at();
        let mut lexeme = String::new();
        loop
            invariant
                self.bytes() == s0,
                0 <= self.at(),
                s0 == old(self).bytes(),
                i0 == old(self).at(),
                sp_segment_chars(s0, i0).1 == sp_segment_chars(s0, self.at()).1,
                sp_segment_chars(s0, i0).0 == opt_prepend(
                    lexeme@,
                    sp_segment_chars(s0, self.at()).0,
                ),
            ensures
                self.bytes() == s0,
                sp_segment_chars(s0, i0).0 == Some(lexeme@),
                sp_segment_chars(s0, i0).1 == self.at(),
            decreases remaining(s0, self.at()),
        {
            let ghost i_prev = self.at();
            match self.consume_path_character() {
                Result::Ok(character) => {
                    proof {
                        lemma_path_char_pos(s0, i_prev);
                        match sp_segment_chars(s0, self.at()).0 {
                            Some(inner) => {
                                assert(lexeme@ + (seq![character as char] + inner) =~= (lexeme@
                                    + seq![character as char]) + inner);
                            },
                            None => {},
                        }
                    }
                    lexeme.push(character as char);
                },
                Result::Err(ErrorType::Missing) => {
                    proof {
                        assert(lexeme@ + Seq::<char>::empty() =~= lexeme@);
                    }
                    break;
                },
                Result::Err(ErrorType::Malformed) => {
                    return None;
                },
            }
        }
        Some(Segment { lexeme })
    }

    /// query: the maximal run of query characters, percent-decoded, stored
    /// undivided.
    fn query(&mut self) -> (r: Option<Query>)
        ensures
            final(self).bytes() == old(self).bytes(),
            ({
                let (qc, j) = sp_query_chars(old(self).bytes(), old(self).at());
                final(self).at() == j && match (r, qc) {
                    (Some(q), Some(cs)) => q@ == cs,
                    (None, None) => true,
                    _ => false,
                }
            }),
    {
        let ghost s0 = self.bytes();
        let ghost i0 = self.at();
        let mut lexeme = String::new();
        loop
            invariant
                self.bytes() == s0,
                0 <= self.at(),
                s0 == old(self).bytes(),
                i0 == old(self).at(),
                sp_query_chars(s0, i0).1 == sp_query_chars(s0, self.at()).1,
                sp_query_chars(s0, i0).0 == opt_prepend(
                    lexeme@,
                    sp_query_chars(s0, self.at()).0,
                ),
            ensures
                self.bytes() == s0,
                sp_query_chars(s0, i0).0 == Some(lexeme@),
                sp_query_chars(s0, i0).1 == self.at(),
            decreases remaining(s0, self.at()),
        {
            let ghost i_prev = self.at();
            match self.consume_query_character() {
                Result::Ok(character) => {
                    proof {
                        lemma_query_char_pos(s0, i_prev);
                        match sp_query_chars(s0, self.at()).0 {
                            Some(inner) => {
                                assert(lexeme@ + (seq![character as char] + inner) =~= (lexeme@
                                    + seq![character as char]) + inner);
                            },
                            None => {},
                        }
                    }
                    lexeme.push(character as char);
                },
                Result::Err(ErrorType::Missing) => {
                    proof {
                        assert(lexeme@ + Seq::<char>::empty() =~= lexeme@);
                    }
                    break;
                },
                Result::Err(ErrorType::Malformed) => {
                    return None;
                },
            }
        }
        Some(Query { lexeme })
    }

    /// HTTP-version: "HTTP" "/" DIGIT "." DIGIT; only single-digit major
    /// and minor versions are recognised.
    fn http_version(&mut self) -> (r: Option<HTTPVersion>)
        ensures
            final(self).bytes() == old(self).bytes(),
            ({
                let (v, j) = sp_http_version(old(self).bytes(), old(self).at());
                final(self).at() == j && match (r, v) {
                    (Some(hv), Some((major, minor))) => hv.major == major && hv.minor == minor,
                    (None, None) => true,
                    _ => false,
                }
            }),
    {
        proof {
            reveal_strlit("HTTP");
            assert("HTTP"@ =~= seq!['H', 'T', 'T', 'P']);
        }
        if self.consume_logical_token("HTTP").is_none() {
            return None;
        }
        if self.consume_char(SLASH).is_none() {
            return None;
        }
        let major_digit = match self.consume_digit() {
            Some(d) => d,
            None => {
                return None;
            },
        };
        if self.consume_char(DOT).is_none() {
            return None;
        }
        let minor_digit = match self.consume_digit() {
            Some(d) => d,
            None => {
                return None;
            },
        };
        Some(
            HTTPVersion {
                major: (major_digit - 0x30) as u32,
                minor: (minor_digit - 0x30) as u32,
            },
        )
    }

    /// method: a logical token that must name one of the eight recognised
    /// methods; any other token fails the whole parse.
    fn method(&mut self) -> (r: Option<Method>)
        ensures
            final(self).bytes() == old(self).bytes(),
            ({
                let (m, j) = sp_method(old(self).bytes(), old(self).at());
                r == m && final(self).at() == j
            }),
    {
        let token = match self.logical_token() {
            Some(t) => t,
            None => {
                return None;
            },
        };
        Method::from_string(token.as_str())
    }

    /// header-field: field-name ":" OWS field-value OWS.
    fn header_field(&mut self) -> (r: Option<HeaderField>)
        ensures
            final(self).bytes() == old(self).bytes(),
            ({
                let (h, j) = sp_header_field(old(self).bytes(), old(self).at());
                final(self).at() == j && match (r, h) {
                    (Some(hf), Some(v)) => hf@ == v,
                    (None, None) => true,
                    _ => false,
                }
            }),
    {
        let name = match self.field_name() {
            Some(n) => n,
            None => {
                return None;
            },
        };
        if self.consume_char(COLON).is_none() {
            return None;
        }
        self.consume_optional_whitespace();
        let value = match self.field_value() {
            Some(v) => v,
            None => {
                return None;
            },
        };
        self.consume_optional_whitespace();
        Some(HeaderField { name, value })
    }

    /// field-name: a logical token.
    fn field_name(&mut self) -> (r: Option<FieldName>)
        ensures
            final(self).bytes() == old(self).bytes(),
            ({
                let (t, j) = sp_logical_token(old(self).bytes(), old(self).at());
                final(self).at() == j && match (r, t) {
                    (Some(n), Some(cs)) => n@ == cs,
                    (None, None) => true,
                    _ => false,
                }
            }),
    {
        match self.logical_token() {
            Some(t) => Some(FieldName { lexeme: t }),
            None => None,
        }
    }

    /// field-value: zero or more field-content units, flattened as they
    /// are read (whitespace runs between two visible characters collapse to
    /// one space; trailing whitespace is dropped).
    fn field_value(&mut self) -> (r: Option<FieldValue>)
        ensures
            final(self).bytes() == old(self).bytes(),
            ({
                let (v, j) = sp_field_value(old(self).bytes(), old(self).at());
                final(self).at() == j && match r {
                    Some(fv) => fv@ == v,
                    None => false,
                }
            }),
    {
        let ghost s0 = self.bytes();
        let ghost i0 = self.at();
        let mut content: Vec<u8> = Vec::new();
        loop
            invariant
                self.bytes() == s0,
                0 <= self.at(),
                sp_field_value(s0, i0).1 == sp_field_value(s0, self.at()).1,
                sp_field_value(s0, i0).0 == content@ + sp_field_value(s0, self.at()).0,
            ensures
                self.bytes() == s0,
                sp_field_value(s0, i0).0 == content@,
                sp_field_value(s0, i0).1 == self.at(),
            decreases remaining(s0, self.at()),
        {
            let ghost i_prev = self.at();
            let ghost content0 = content@;
            match self.field_content() {
                Some(unit) => {
                    proof {
                        lemma_field_content_pos(s0, i_prev);
                        let (rest, _k) = sp_field_value(s0, self.at());
                        assert(content0 + (field_content_bytes(
                            unit.first_char,
                            unit.second_char,
                        ) + rest) =~= (content0 + field_content_bytes(
                            unit.first_char,
                            unit.second_char,
                        )) + rest);
                    }
                    content.push(unit.first_char);
                    if let Some(second) = unit.second_char {
                        content.push(SPACE);
                        content.push(second);
                    }
                    proof {
                        assert(content@ =~= content0 + field_content_bytes(
                            unit.first_char,
                            unit.second_char,
                        ));
                    }
                },
                None => {
                    proof {
                        assert(content@ + Seq::<u8>::empty() =~= content@);
                    }
                    break;
                },
            }
        }
        Some(FieldValue { content })
    }

    /// field-content: a field-vchar, optionally paired with a second one
    /// across a run of required whitespace.  Whitespace with no further
    /// field-vchar after it is trailing and yields no second character.
    fn field_content(&mut self) -> (r: Option<FieldContent>)
        ensures
            final(self).bytes() == old(self).bytes(),
            ({
                let (fc, j) = sp_field_content(old(self).bytes(), old(self).at());
                final(self).at() == j && match (r, fc) {
                    (Some(c), Some((c1, c2))) => c.first_char == c1 && c.second_char == c2,
                    (None, None) => true,
                    _ => false,
                }
            }),
    {
        let first_char = match self.field_vchar() {
            Some(c) => c,
            None => {
                return None;
            },
        };
        let second_char = if self.consume_required_whitespace().is_some() {
            self.field_vchar()
        } else {
            None
        };
        Some(FieldContent { first_char, second_char })
    }

    /// A logical token: a non-empty maximal run of tchars.
    fn logical_token(&mut self) -> (r: Option<String>)
        ensures
            final(self).bytes() == old(self).bytes(),
            ({
                let (t, j) = sp_logical_token(old(self).bytes(), old(self).at());
                final(self).at() == j && match (r, t) {
                    (Some(x), Some(cs)) => x@ == cs,
                    (None, None) => true,
                    _ => false,
                }
            }),
    {
        let first = match self.source.peek() {
            Some(c) => c,
            None => {
                return None;
            },
        };
        if !Self::is_logical_token_char(first) {
            return None;
        }
        let ghost s0 = self.bytes();
        let ghost i0 = self.at();
        let mut lexeme = String::new();
        loop
            invariant
                self.bytes() == s0,
                0 <= self.at(),
                sp_token_chars(s0, i0).1 == sp_token_chars(s0, self.at()).1,
                sp_token_chars(s0, i0).0 == lexeme@ + sp_token_chars(s0, self.at()).0,
            ensures
                self.bytes() == s0,
                sp_token_chars(s0, i0).0 == lexeme@,
                sp_token_chars(s0, i0).1 == self.at(),
            decreases remaining(s0, self.at()),
        {
            let ghost lex0 = lexeme@;
            let c = match self.source.peek() {
                Some(c) => c,
                None => {
                    proof {
                        assert(lexeme@ + Seq::<char>::empty() =~= lexeme@);
                    }
                    break;
                },
            };
            if !Self::is_logical_token_char(c) {
                proof {
                    assert(lexeme@ + Seq::<char>::empty() =~= lexeme@);
                }
                break;
            }
            self.source.next();
            lexeme.push(c as char);
            proof {
                assert(lex0 + (seq![c as char] + sp_token_chars(s0, self.at()).0) =~= (lex0
                    + seq![c as char]) + sp_token_chars(s0, self.at()).0);
            }
        }
        Some(lexeme)
    }

    /// A logical token that must equal the given literal.
    fn consume_logical_token(&mut self, value: &str) -> (r: Option<String>)
        ensures
            final(self).bytes() == old(self).bytes(),
            ({
                let (t, j) = sp_logical_token(old(self).bytes(), old(self).at());
                final(self).at() == j && match t {
                    Some(cs) => if cs == value@ {
                        r matches Some(x) && x@ == cs
                    } else {
                        r is None
                    },
                    None => r is None,
                }
            }),
    {
        let logical_token = match self.logical_token() {
            Some(t) => t,
            None => {
                return None;
            },
        };
        if str_eq(logical_token.as_str(), value) {
            Some(logical_token)
        } else {
            None
        }
    }

    fn consume_char(&mut self, character: u8) -> (r: Option<u8>)
        ensures
            final(self).bytes() == old(self).bytes(),
            ({
                let (v, j) = sp_char(old(self).bytes(), old(self).at(), character);
                r == v && final(self).at() == j
            }),
    {
        match self.source.peek() {
            Some(next_char) => if next_char == character {
                self.source.next()
            } else {
                None
            },
            None => None,
        }
    }

    fn consume_digit(&mut self) -> (r: Option<u8>)
        ensures
            final(self).bytes() == old(self).bytes(),
            ({
                let (v, j) = sp_digit(old(self).bytes(), old(self).at());
                r == v && final(self).at() == j
            }),
    {
        match self.source.peek() {
            Some(next_char) => if Self::is_digit_char(next_char) {
                self.source.next()
            } else {
                None
            },
            None => None,
        }
    }

    fn consume_hex_digit(&mut self) -> (r: Option<u8>)
        ensures
            final(self).bytes() == old(self).bytes(),
            ({
                let (v, j) = sp_hex_digit(old(self).bytes(), old(self).at());
                r == v && final(self).at() == j
            }),
    {
        match self.source.peek() {
            Some(next_char) => if Self::is_hex_digit_char(next_char) {
                self.source.next()
            } else {
                None
            },
            None => None,
        }
    }

    fn consume_unreserved_character(&mut self) -> (r: Option<u8>)
        ensures
            final(self).bytes() == old(self).bytes(),
            ({
                let (v, j) = sp_unreserved(old(self).bytes(), old(self).at());
                r == v && final(self).at() == j
            }),
    {
        match self.source.peek() {
            Some(next_char) => if Self::is_unreserved_char(next_char) {
                self.source.next()
            } else {
                None
            },
            None => None,
        }
    }

    fn consume_sub_delim_character(&mut self) -> (r: Option<u8>)
        ensures
            final(self).bytes() == old(self).bytes(),
            ({
                let (v, j) = sp_sub_delim(old(self).bytes(), old(self).at());
                r == v && final(self).at() == j
            }),
    {
        match self.source.peek() {
            Some(next_char) => if Self::is_sub_delim_char(next_char) {
                self.source.next()
            } else {
                None
            },
            None => None,
        }
    }

    fn field_vchar(&mut self) -> (r: Option<u8>)
        ensures
            final(self).bytes() == old(self).bytes(),
            ({
                let (v, j) = sp_field_vchar(old(self).bytes(), old(self).at());
                r == v && final(self).at() == j
            }),
    {
        match self.source.peek() {
            Some(next_char) => if Self::is_visible_char(next_char) || Self::is_obs_text_char(
                next_char,
            ) {
                self.source.next()
            } else {
                None
            },
            None => None,
        }
    }

    /// CRLF.  If the carriage return matched but the line feed did not, the
    /// carriage return stays consumed: nothing is ever un-read.
    fn consume_carriage_return(&mut self) -> (r: Option<()>)
        ensures
            final(self).bytes() == old(self).bytes(),
            ({
                let (ok, j) = sp_crlf(old(self).bytes(), old(self).at());
                (r is Some) == ok && final(self).at() == j
            }),
    {
        if self.consume_char(CR).is_none() {
            return None;
        }
        if self.consume_char(LF).is_none() {
            return None;
        }
        Some(())
    }

    fn consume_optional_whitespace(&mut self)
        ensures
            final(self).bytes() == old(self).bytes(),
            final(self).at() == sp_ows(old(self).bytes(), old(self).at()),
    {
        let ghost s0 = self.bytes();
        let ghost i0 = self.at();
        loop
            invariant
                self.bytes() == s0,
                sp_ows(s0, i0) == sp_ows(s0, self.at()),
            ensures
                self.bytes() == s0,
                self.at() == sp_ows(s0, i0),
            decreases remaining(s0, self.at()),
        {
            match self.source.peek() {
                Some(c) => {
                    if c == SPACE || c == HTAB {
                        self.source.next();
                    } else {
                        break;
                    }
                },
                None => {
                    break;
                },
            }
        }
    }

    fn consume_required_whitespace(&mut self) -> (r: Option<()>)
        ensures
            final(self).bytes() == old(self).bytes(),
            ({
                let (ok, j) = sp_rws(old(self).bytes(), old(self).at());
                (r is Some) == ok && final(self).at() == j
            }),
    {
        match self.source.peek() {
            Some(c) => {
                if c == SPACE || c == HTAB {
                    self.source.next();
                    self.consume_optional_whitespace();
                    Some(())
                } else {
                    None
                }
            },
            None => None,
        }
    }

    fn consume_percent_encoded(&mut self) -> (r: Result<u8, ErrorType>)
        ensures
            final(self).bytes() == old(self).bytes(),
            ({
                let (out, j) = sp_percent_encoded(old(self).bytes(), old(self).at());
                final(self).at() == j && match (r, out) {
                    (Result::Ok(b), CharOut::Got(c)) => b == c,
                    (Result::Err(ErrorType::Missing), CharOut::Stop) => true,
                    (Result::Err(ErrorType::Malformed), CharOut::Fail) => true,
                    _ => false,
                }
            }),
    {
        if self.consume_char(PERCENT).is_none() {
            return Result::Err(ErrorType::Missing);
        }
        let high_word = match self.consume_hex_digit() {
            Some(h) => h,
            None => {
                return Result::Err(ErrorType::Malformed);
            },
        };
        let low_word = match self.consume_hex_digit() {
            Some(l) => l,
            None => {
                return Result::Err(ErrorType::Malformed);
            },
        };
        Result::Ok(Self::hex_digits_to_byte(high_word, low_word))
    }

    fn consume_path_character(&mut self) -> (r: Result<u8, ErrorType>)
        ensures
            final(self).bytes() == old(self).bytes(),
            ({
                let (out, j) = sp_path_char(old(self).bytes(), old(self).at());
                final(self).at() == j && match (r, out) {
                    (Result::Ok(b), CharOut::Got(c)) => b == c,
                    (Result::Err(ErrorType::Missing), CharOut::Stop) => true,
                    (Result::Err(ErrorType::Malformed), CharOut::Fail) => true,
                    _ => false,
                }
            }),
    {
        if let Some(character) = self.consume_unreserved_character() {
            return Result::Ok(character);
        }
        if let Some(character) = self.consume_sub_delim_character() {
            return Result::Ok(character);
        }
        if let Some(character) = self.consume_char(COLON) {
            return Result::Ok(character);
        }
        if let Some(character) = self.consume_char(ATSIGN) {
            return Result::Ok(character);
        }
        self.consume_percent_encoded()
    }

    fn consume_query_character(&mut self) -> (r: Result<u8, ErrorType>)
        ensures
            final(self).bytes() == old(self).bytes(),
            ({
                let (out, j) = sp_query_char(old(self).bytes(), old(self).at());
                final(self).at() == j && match (r, out) {
                    (Result::Ok(b), CharOut::Got(c)) => b == c,
                    (Result::Err(ErrorType::Missing), CharOut::Stop) => true,
                    (Result::Err(ErrorType::Malformed), CharOut::Fail) => true,
                    _ => false,
                }
            }),
    {
        if let Some(character) = self.consume_unreserved_character() {
            return Result::Ok(character);
        }
        if let Some(character) = self.consume_sub_delim_character() {
            return Result::Ok(character);
        }
        if let Some(character) = self.consume_char(COLON) {
            return Result::Ok(character);
        }
        if let Some(character) = self.consume_char(ATSIGN) {
            return Result::Ok(character);
        }
        if let Some(character) = self.consume_char(SLASH) {
            return Result::Ok(character);
        }
        if let Some(character) = self.consume_char(QUESTION_MARK) {
            return Result::Ok(character);
        }
        self.consume_percent_encoded()
    }

    fn hex_digits_to_byte(high_word: u8, low_word: u8) -> (r: u8)
        requires
            is_hex_digit(high_word),
            is_hex_digit(low_word),
        ensures
            r == hex_byte(high_word, low_word),
    {
        Self::hex_digit_value(high_word) * 16 + Self::hex_digit_value(low_word)
    }

    fn hex_digit_value(character: u8) -> (r: u8)
        requires
            is_hex_digit(character),
        ensures
            r == hex_value(character),
    {
        if character >= 0x61 {
            character - 0x61 + 10
        } else if character >= 0x41 {
            character - 0x41 + 10
        } else {
            character - 0x30
        }
    }

    fn is_logical_token_char(character: u8) -> (r: bool)
        ensures
            r == is_tchar(character),
    {
        character == 0x21 ||  // !
        character == 0x23 ||  // #
        character == 0x24 ||  // $
        character == 0x25 ||  // %
        character == 0x26 ||  // &
        character == 0x27 ||  // '
        character == 0x2A ||  // *
        character == 0x2B ||  // +
        character == 0x2D ||  // -
        character == 0x2E ||  // .
        character == 0x5E ||  // ^
        character == 0x5F ||  // _
        character == 0x60 ||  // `
        character == 0x7C ||  // |
        character == 0x7E ||  // ~
        Self::is_digit_char(character) || Self::is_alpha_char(character)
    }

    fn is_unreserved_char(character: u8) -> (r: bool)
        ensures
            r == is_unreserved(character),
    {
        Self::is_alpha_char(character) || Self::is_digit_char(character) || character == 0x2D
            || character == 0x2E || character == 0x5F || character == 0x7E
    }

    fn is_sub_delim_char(character: u8) -> (r: bool)
        ensures
            r == is_sub_delim(character),
    {
        character == 0x21 ||  // !
        character == 0x24 ||  // $
        character == 0x26 ||  // &
        character == 0x27 ||  // '
        character == 0x28 ||  // (
        character == 0x29 ||  // )
        character == 0x2A ||  // *
        character == 0x2B ||  // +
        character == 0x2C ||  // ,
        character == 0x3B ||  // ;
        character == 0x3D  // =
    }

    fn is_alpha_char(character: u8) -> (r: bool)
        ensures
            r == is_alpha(character),
    {
        (character >= 0x41 && character <= 0x5A) || (character >= 0x61 && character <= 0x7A)
    }

    fn is_digit_char(character: u8) -> (r: bool)
        ensures
            r == is_digit(character),
    {
        character >= 0x30 && character <= 0x39
    }

    fn is_hex_digit_char(character: u8) -> (r: bool)
        ensures
            r == is_hex_digit(character),
    {
        Self::is_digit_char(character) ||
        character == 0x41 ||  // A
        character == 0x42 ||  // B
        character == 0x43 ||  // C
        character == 0x44 ||  // D
        character == 0x45 ||  // E
        character == 0x46 ||  // F
        character == 0x61 ||  // a
        character == 0x62 ||  // b
        character == 0x63 ||  // c
        character == 0x64 ||  // d
        character == 0x65 ||  // e
        character == 0x66  // f
    }

    fn is_visible_char(character: u8) -> (r: bool)
        ensures
            r == is_vchar(character),
    {
        character >= 0x21 && character <= 0x7E
    }

    fn is_obs_text_char(character: u8) -> (r: bool)
        ensures
            r == is_obs_text(character),
    {
        character >= 0x80
    }
}

} // verus!
