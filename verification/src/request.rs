//! The request parser: a raw byte buffer is split at the first CRLFCRLF into
//! a header block and a body; the header block must be valid UTF-8 and is
//! split into a request line (method, path, version) and header lines; the
//! body is decoded with lossy UTF-8 replacement. A malformed buffer yields
//! `None` and never a panic.

use crate::chars::find_char_from;
use crate::chars::terminator_at;
use crate::chars::find_term_from;
use crate::chars::find_terminator;
use crate::chars::find_char;
use crate::chars::copy_bytes;
use crate::chars::lemma_find_char_shift;
use crate::chars::lemma_find_term_properties;
use crate::chars::lemma_split_crlf_nonempty;
use crate::chars::line_ranges;
use crate::chars::split_crlf;
use crate::chars::split_ws;
use crate::chars::str_to_chars;
use crate::chars::token_ranges;
use crate::chars::trim_range;
use crate::chars::trim_spec;
use crate::headers::headers_view;
use crate::headers::header_lookup;
use crate::headers::insert_header;
use crate::headers::insert_entry;
use crate::headers::lookup_entry;
use vstd::prelude::*;
use vstd::string::*;
use vstd::utf8::decode_utf8;
use vstd::utf8::encode_utf8;
use vstd::utf8::valid_utf8;

verus! {

/// The closed set of methods the server understands; any other token fails
/// the whole parse.
#[derive(Clone, Copy, PartialEq, Eq, Structural, Debug, Hash)]
pub enum Method {
    GET,
    POST,
    DELETE,
}

/// The method named by `tok`, if it is one of the three recognized tokens,
/// compared case-sensitively.
pub open spec fn method_of(tok: Seq<char>) -> Option<Method> {
    if tok == seq!['G', 'E', 'T'] {
        Some(Method::GET)
    } else if tok == seq!['P', 'O', 'S', 'T'] {
        Some(Method::POST)
    } else if tok == seq!['D', 'E', 'L', 'E', 'T', 'E'] {
        Some(Method::DELETE)
    } else {
        None
    }
}

impl Method {
    /// Matches a method token against the closed set.
    pub fn from_token(tok: &str) -> (r: Option<Method>)
        ensures
            r == method_of(tok@),
    {
        let n = tok.unicode_len();
        if n == 3 && tok.get_char(0) == 'G' && tok.get_char(1) == 'E' && tok.get_char(2) == 'T' {
            proof {
                assert(tok@ =~= seq!['G', 'E', 'T']);
            }
            Some(Method::GET)
        } else if n == 4 && tok.get_char(0) == 'P' && tok.get_char(1) == 'O' && tok.get_char(2)
            == 'S' && tok.get_char(3) == 'T' {
            proof {
                assert(tok@ =~= seq!['P', 'O', 'S', 'T']);
            }
            Some(Method::POST)
        } else if n == 6 && tok.get_char(0) == 'D' && tok.get_char(1) == 'E' && tok.get_char(2)
            == 'L' && tok.get_char(3) == 'E' && tok.get_char(4) == 'T' && tok.get_char(5) == 'E' {
            proof {
                assert(tok@ =~= seq!['D', 'E', 'L', 'E', 'T', 'E']);
            }
            Some(Method::DELETE)
        } else {
            proof {
                if tok@ == seq!['G', 'E', 'T'] || tok@ == seq!['P', 'O', 'S', 'T'] || tok@
                    == seq!['D', 'E', 'L', 'E', 'T', 'E'] {
                    assert(false);
                }
            }
            None
        }
    }
}

/// The abstract value of a parsed request.
pub struct ReqView {
    pub method: Method,
    pub path: Seq<char>,
    pub version: Seq<char>,
    pub headers: Seq<(Seq<char>, Seq<char>)>,
    pub body: Seq<char>,
}

/// One request, immutable once parsed.
pub struct Request {
    headers: Vec<(String, String)>,
    body: String,
    method: Method,
    path: String,
    version: String,
}

impl View for Request {
    type V = ReqView;

    closed spec fn view(&self) -> ReqView {
        ReqView {
            method: self.method,
            path: self.path@,
            version: self.version@,
            headers: headers_view(self.headers@),
            body: self.body@,
        }
    }
}

/// What `String::from_utf8_lossy` yields on `bytes`: a function of the bytes
/// alone, equal to plain UTF-8 decoding whenever the bytes are valid.
pub uninterp spec fn lossy_decode(bytes: Seq<u8>) -> Seq<char>;

/// Relies on std's `str::from_utf8`: succeeds exactly on valid UTF-8 and
/// yields its decoding, per vstd's model of UTF-8.
#[verifier::external_body]
fn try_utf8(bytes: &[u8]) -> (r: Option<&str>)
    ensures
        r is Some <==> valid_utf8(bytes@),
        r matches Some(s) ==> s@ == decode_utf8(bytes@),
{
    std::str::from_utf8(bytes).ok()
}

/// Relies on std's `String::from_utf8_lossy`: a pure function of the bytes,
/// which decodes valid UTF-8 unchanged (invalid sequences become U+FFFD).
#[verifier::external_body]
fn lossy_utf8(bytes: &[u8]) -> (r: String)
    ensures
        r@ == lossy_decode(bytes@),
        valid_utf8(bytes@) ==> r@ == decode_utf8(bytes@),
{
    String::from_utf8_lossy(bytes).into_owned()
}

/// The header entries collected from the given header lines, in order, with
/// the last write to a name winning; a line without a colon is skipped, and
/// name and value are trimmed of surrounding whitespace.
pub open spec fn parse_header_lines(lines: Seq<Seq<char>>) -> Seq<(Seq<char>, Seq<char>)>
    decreases lines.len(),
{
    if lines.len() == 0 {
        Seq::empty()
    } else {
        let rest = parse_header_lines(lines.drop_last());
        let line = lines.last();
        match find_char_from(line, 0, line.len() as int, ':') {
            Some(c) => insert_header(
                rest,
                trim_spec(line.subrange(0, c)),
                trim_spec(line.subrange(c + 1, line.len() as int)),
            ),
            None => rest,
        }
    }
}

/// What parsing a raw buffer yields: `None` when the CRLFCRLF terminator is
/// missing, the header block is not UTF-8, the request line has fewer than
/// three tokens, or the method token is unrecognized; otherwise the request
/// assembled from the pieces of the buffer.
pub open spec fn parse_spec(bytes: Seq<u8>) -> Option<ReqView> {
    match find_term_from(bytes, 0) {
        None => None,
        Some(p) => {
            let head = bytes.subrange(0, p);
            let body = bytes.subrange(p + 4, bytes.len() as int);
            if !valid_utf8(head) {
                None
            } else {
                let lines = split_crlf(decode_utf8(head));
                let toks = split_ws(lines[0]);
                if toks.len() < 3 {
                    None
                } else {
                    match method_of(toks[0]) {
                        None => None,
                        Some(m) => Some(
                            ReqView {
                                method: m,
                                path: toks[1],
                                version: toks[2],
                                headers: parse_header_lines(lines.drop_first()),
                                body: lossy_decode(body),
                            },
                        ),
                    }
                }
            }
        },
    }
}

/// The four terminator bytes CRLFCRLF.
pub open spec fn crlfcrlf() -> Seq<u8> {
    seq![13u8, 10u8, 13u8, 10u8]
}

/// A buffer laid out as a header block, the terminator, and a body parses to
/// exactly the pieces that layout implies: the method, path and version are
/// the first three whitespace-separated tokens of the header block's first
/// line, the headers are collected from its remaining lines, and the body is
/// the trailing bytes, decoded lossily. The terminator placed between the
/// parts must be the first in the buffer, and the request line must carry at
/// least three tokens, the first a recognized method.
pub proof fn lemma_parse_complete(head: Seq<char>, body: Seq<u8>)
    requires
        ({
            let bytes = encode_utf8(head) + crlfcrlf() + body;
            forall|j: int| j < encode_utf8(head).len() ==> !terminator_at(bytes, j)
        }),
        split_ws(split_crlf(head)[0]).len() >= 3,
        method_of(split_ws(split_crlf(head)[0])[0]) is Some,
    ensures
        parse_spec(encode_utf8(head) + crlfcrlf() + body) == Some(
            ReqView {
                method: method_of(split_ws(split_crlf(head)[0])[0]).unwrap(),
                path: split_ws(split_crlf(head)[0])[1],
                version: split_ws(split_crlf(head)[0])[2],
                headers: parse_header_lines(split_crlf(head).drop_first()),
                body: lossy_decode(body),
            },
        ),
{
    let enc = encode_utf8(head);
    let bytes = enc + crlfcrlf() + body;
    let p = enc.len() as int;
    assert(bytes[p] == 13u8 && bytes[p + 1] == 10u8 && bytes[p + 2] == 13u8 && bytes[p + 3]
        == 10u8);
    assert(terminator_at(bytes, p));
    crate::chars::lemma_find_term_first(bytes, p);
    assert(bytes.subrange(0, p) =~= enc);
    vstd::utf8::encode_utf8_valid_utf8(head);
    vstd::utf8::encode_utf8_decode_utf8(head);
    assert(bytes.subrange(p + 4, bytes.len() as int) =~= body);
}

/// A buffer that nowhere contains the CRLFCRLF header terminator never
/// parses.
pub proof fn lemma_parse_needs_terminator(bytes: Seq<u8>)
    requires
        forall|j: int| !terminator_at(bytes, j),
    ensures
        parse_spec(bytes) is None,
{
    lemma_find_term_properties(bytes, 0);
}

/// A buffer whose request line carries a method token outside the closed set
/// {GET, POST, DELETE} never parses, however well-formed the rest is.
pub proof fn lemma_parse_rejects_method(bytes: Seq<u8>, p: int)
    requires
        find_term_from(bytes, 0) == Some(p),
        valid_utf8(bytes.subrange(0, p)),
        ({
            let toks = split_ws(split_crlf(decode_utf8(bytes.subrange(0, p)))[0]);
            toks.len() < 3 || method_of(toks[0]) is None
        }),
    ensures
        parse_spec(bytes) is None,
{
}

impl Request {
    /// Parses one request from a raw buffer, or fails with no partial result.
    pub fn parse(buf: &[u8]) -> (r: Option<Request>)
        ensures
            match r {
                Some(req) => parse_spec(buf@) == Some(req@),
                None => parse_spec(buf@) is None,
            },
    {
        let p = match find_terminator(buf) {
            Some(p) => p,
            None => {
                return None;
            },
        };
        proof {
            lemma_find_term_properties(buf@, 0);
        }
        let n = buf.len();
        let head_bytes = copy_bytes(buf, 0, p);
        let body_bytes = copy_bytes(buf, p + 4, n);
        let hs: &str = match try_utf8(head_bytes.as_slice()) {
            Some(s) => s,
            None => {
                return None;
            },
        };
        let ghost head_chars = decode_utf8(buf@.subrange(0, p as int));
        let chars = str_to_chars(hs);
        let lines = line_ranges(&chars);
        proof {
            lemma_split_crlf_nonempty(chars@);
        }
        let (l0a, l0b) = (lines[0].0, lines[0].1);
        let toks = token_ranges(&chars, l0a, l0b);
        proof {
            assert(chars@.subrange(l0a as int, l0b as int) == split_crlf(head_chars)[0]);
        }
        if toks.len() < 3 {
            return None;
        }
        let (m_a, m_b) = (toks[0].0, toks[0].1);
        let method_str = hs.substring_char(m_a, m_b);
        let m = match Method::from_token(method_str) {
            Some(m) => m,
            None => {
                return None;
            },
        };
        let (p_a, p_b) = (toks[1].0, toks[1].1);
        let path = hs.substring_char(p_a, p_b).to_owned();
        let (v_a, v_b) = (toks[2].0, toks[2].1);
        let version = hs.substring_char(v_a, v_b).to_owned();
        let ghost speclines = split_crlf(head_chars);
        let mut headers: Vec<(String, String)> = Vec::new();
        let mut i: usize = 1;
        proof {
            assert(speclines.subrange(1, 1) =~= Seq::<Seq<char>>::empty());
        }
        while i < lines.len()
            invariant
                1 <= i <= lines@.len(),
                chars@ == head_chars,
                hs@ == head_chars,
                speclines == split_crlf(head_chars),
                lines@.len() == speclines.len(),
                forall|k: int|
                    0 <= k < lines@.len() ==> #[trigger] lines@[k].0 <= lines@[k].1 <= chars@.len()
                        && chars@.subrange(lines@[k].0 as int, lines@[k].1 as int) == speclines[k],
                headers_view(headers@) == parse_header_lines(speclines.subrange(1, i as int)),
            decreases lines@.len() - i,
        {
            let (a, b) = (lines[i].0, lines[i].1);
            let ghost line = speclines[i as int];
            proof {
                assert(chars@.subrange(a as int, b as int) == line);
                assert(speclines.subrange(1, (i + 1) as int).drop_last() =~= speclines.subrange(
                    1,
                    i as int,
                ));
                assert(speclines.subrange(1, (i + 1) as int).last() == line);
                lemma_find_char_shift(chars@, a as int, b as int, a as int, ':');
                crate::chars::lemma_find_char_bounds(chars@, a as int, b as int, ':');
            }
            match find_char(&chars, a, b, ':') {
                Some(c) => {
                    let (ka, kb) = trim_range(&chars, a, c);
                    let (va, vb) = trim_range(&chars, c + 1, b);
                    let key = hs.substring_char(ka, kb).to_owned();
                    let val = hs.substring_char(va, vb).to_owned();
                    proof {
                        assert(line.subrange(0, (c - a) as int) =~= chars@.subrange(
                            a as int,
                            c as int,
                        ));
                        assert(line.subrange((c - a) as int + 1, line.len() as int)
                            =~= chars@.subrange((c + 1) as int, b as int));
                    }
                    insert_entry(&mut headers, key, val);
                },
                None => {},
            }
            i = i + 1;
        }
        proof {
            assert(speclines.subrange(1, speclines.len() as int) =~= speclines.drop_first());
        }
        let body = lossy_utf8(body_bytes.as_slice());
        Some(
            Request {
                headers,
                body,
                method: m,
                path,
                version,
            },
        )
    }

    /// The header mapping, in insertion order with unique names.
    #[inline]
    pub fn headers(&self) -> (r: &Vec<(String, String)>)
        ensures
            headers_view(r@) == self@.headers,
    {
        &self.headers
    }

    /// The body, decoded with lossy UTF-8 replacement.
    #[inline]
    pub fn body(&self) -> (r: &String)
        ensures
            r@ == self@.body,
    {
        &self.body
    }

    /// The request method.
    #[inline]
    pub fn method(&self) -> (r: &Method)
        ensures
            r == self@.method,
    {
        &self.method
    }

    /// The request path, matched exactly by the router.
    #[inline]
    pub fn path(&self) -> (r: &String)
        ensures
            r@ == self@.path,
    {
        &self.path
    }

    /// The value of the last header of the given name, if any.
    pub fn header(&self, name: &str) -> (r: Option<String>)
        ensures
            match r {
                Some(v) => header_lookup(self@.headers, name@) == Some(v@),
                None => header_lookup(self@.headers, name@) is None,
            },
    {
        lookup_entry(&self.headers, name)
    }
}

} // verus!
