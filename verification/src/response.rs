//! The response model: a status code with fixed numeric code and reason
//! phrase, a header mapping, and raw body bytes. Construction always forces
//! `Content-Length` to the body's byte length and `Connection` to `close`,
//! overriding any caller-supplied value of those two names. Serialization
//! emits the status line, each header, a blank line, and the body verbatim.

use crate::headers::header_lookup;
use crate::headers::headers_view;
use crate::headers::insert_header;
use crate::headers::insert_entry;
use crate::headers::lookup_entry;
use crate::headers::lemma_lookup_inserted;
use crate::headers::lemma_lookup_other;
use vstd::prelude::*;
use vstd::string::*;
use vstd::utf8::encode_utf8;

verus! {

/// The closed set of status codes the server can emit.
#[derive(Clone, Copy, PartialEq, Eq, Structural, Debug)]
pub enum StatusCode {
    OK,
    Created,
    Accepted,
    MovedPermanently,
    Found,
    NotModified,
    BadRequest,
    Unauthorized,
    PaymentRequired,
    Forbidden,
    NotFound,
    InternalServerError,
}

/// The numeric code of each status.
pub open spec fn code_of(s: StatusCode) -> int {
    match s {
        StatusCode::OK => 200,
        StatusCode::Created => 201,
        StatusCode::Accepted => 202,
        StatusCode::MovedPermanently => 301,
        StatusCode::Found => 302,
        StatusCode::NotModified => 304,
        StatusCode::BadRequest => 400,
        StatusCode::Unauthorized => 401,
        StatusCode::PaymentRequired => 402,
        StatusCode::Forbidden => 403,
        StatusCode::NotFound => 404,
        StatusCode::InternalServerError => 500,
    }
}

/// The fixed reason phrase of each status.
pub open spec fn reason_of(s: StatusCode) -> Seq<char> {
    match s {
        StatusCode::OK => "OK"@,
        StatusCode::Created => "Created"@,
        StatusCode::Accepted => "Accepted"@,
        StatusCode::MovedPermanently => "Moved Permanently"@,
        StatusCode::Found => "Found"@,
        StatusCode::NotModified => "Not Modified"@,
        StatusCode::BadRequest => "Bad Request"@,
        StatusCode::Unauthorized => "Unauthorized"@,
        StatusCode::PaymentRequired => "Payment Required"@,
        StatusCode::Forbidden => "Forbidden"@,
        StatusCode::NotFound => "Not Found"@,
        StatusCode::InternalServerError => "Internal Server Error"@,
    }
}

impl StatusCode {
    /// The numeric code sent on the status line.
    pub fn code(&self) -> (r: u16)
        ensures
            r == code_of(*self),
    {
        match self {
            StatusCode::OK => 200,
            StatusCode::Created => 201,
            StatusCode::Accepted => 202,
            StatusCode::MovedPermanently => 301,
            StatusCode::Found => 302,
            StatusCode::NotModified => 304,
            StatusCode::BadRequest => 400,
            StatusCode::Unauthorized => 401,
            StatusCode::PaymentRequired => 402,
            StatusCode::Forbidden => 403,
            StatusCode::NotFound => 404,
            StatusCode::InternalServerError => 500,
        }
    }

    /// The fixed reason phrase sent on the status line.
    pub fn as_str(&self) -> (r: &'static str)
        ensures
            r@ == reason_of(*self),
    {
        match self {
            StatusCode::OK => "OK",
            StatusCode::Created => "Created",
            StatusCode::Accepted => "Accepted",
            StatusCode::MovedPermanently => "Moved Permanently",
            StatusCode::Found => "Found",
            StatusCode::NotModified => "Not Modified",
            StatusCode::BadRequest => "Bad Request",
            StatusCode::Unauthorized => "Unauthorized",
            StatusCode::PaymentRequired => "Payment Required",
            StatusCode::Forbidden => "Forbidden",
            StatusCode::NotFound => "Not Found",
            StatusCode::InternalServerError => "Internal Server Error",
        }
    }
}

/// The decimal digit character for `d`.
pub open spec fn digit_char(d: int) -> char {
    if d == 0 {
        '0'
    } else if d == 1 {
        '1'
    } else if d == 2 {
        '2'
    } else if d == 3 {
        '3'
    } else if d == 4 {
        '4'
    } else if d == 5 {
        '5'
    } else if d == 6 {
        '6'
    } else if d == 7 {
        '7'
    } else if d == 8 {
        '8'
    } else {
        '9'
    }
}

/// The decimal rendering of a non-negative number, most significant digit
/// first, with no leading zeros (a single `0` for zero).
pub open spec fn dec_chars(n: int) -> Seq<char>
    decreases n,
{
    if n < 10 {
        seq![digit_char(n)]
    } else {
        dec_chars(n / 10).push(digit_char(n % 10))
    }
}

fn digit_str(d: u64) -> (r: &'static str)
    requires
        d < 10,
    ensures
        r@ == seq![digit_char(d as int)],
{
    if d == 0 {
        proof {
            reveal_strlit("0");
            assert("0"@ =~= seq![digit_char(0)]);
        }
        "0"
    } else if d == 1 {
        proof {
            reveal_strlit("1");
            assert("1"@ =~= seq![digit_char(1)]);
        }
        "1"
    } else if d == 2 {
        proof {
            reveal_strlit("2");
            assert("2"@ =~= seq![digit_char(2)]);
        }
        "2"
    } else if d == 3 {
        proof {
            reveal_strlit("3");
            assert("3"@ =~= seq![digit_char(3)]);
        }
        "3"
    } else if d == 4 {
        proof {
            reveal_strlit("4");
            assert("4"@ =~= seq![digit_char(4)]);
        }
        "4"
    } else if d == 5 {
        proof {
            reveal_strlit("5");
            assert("5"@ =~= seq![digit_char(5)]);
        }
        "5"
    } else if d == 6 {
        proof {
            reveal_strlit("6");
            assert("6"@ =~= seq![digit_char(6)]);
        }
        "6"
    } else if d == 7 {
        proof {
            reveal_strlit("7");
            assert("7"@ =~= seq![digit_char(7)]);
        }
        "7"
    } else if d == 8 {
        proof {
            reveal_strlit("8");
            assert("8"@ =~= seq![digit_char(8)]);
        }
        "8"
    } else {
        proof {
            reveal_strlit("9");
            assert("9"@ =~= seq![digit_char(9)]);
        }
        "9"
    }
}

/// Renders `n` in decimal.
pub fn dec_u64(n: u64) -> (r: String)
    ensures
        r@ == dec_chars(n as int),
    decreases n,
{
    if n < 10 {
        String::from_str(digit_str(n))
    } else {
        let mut s = dec_u64(n / 10);
        s.append(digit_str(n % 10));
        proof {
            assert(dec_chars((n / 10) as int) + seq![digit_char((n % 10) as int)] =~= dec_chars(
                (n / 10) as int,
            ).push(digit_char((n % 10) as int)));
        }
        s
    }
}

/// The abstract value of a response.
pub struct RespView {
    pub status: StatusCode,
    pub headers: Seq<(Seq<char>, Seq<char>)>,
    pub body: Seq<u8>,
}

/// One response, built once per request and serialized exactly once.
pub struct Response {
    status: StatusCode,
    headers: Vec<(String, String)>,
    body: Vec<u8>,
}

impl View for Response {
    type V = RespView;

    closed spec fn view(&self) -> RespView {
        RespView {
            status: self.status,
            headers: headers_view(self.headers@),
            body: self.body@,
        }
    }
}

/// The response assembled from a status, caller headers and a body: the
/// caller's headers with `Content-Length` forced to the body's length and
/// `Connection` forced to `close`, in that insertion order.
pub open spec fn new_spec(
    status: StatusCode,
    headers: Seq<(Seq<char>, Seq<char>)>,
    body: Seq<u8>,
) -> RespView {
    RespView {
        status,
        headers: insert_header(
            insert_header(headers, "Content-Length"@, dec_chars(body.len() as int)),
            "Connection"@,
            "close"@,
        ),
        body,
    }
}

/// The characters of the serialized head: the status line, each header as
/// `name: value` followed by CRLF, and a blank line.
pub open spec fn render_headers(hs: Seq<(Seq<char>, Seq<char>)>) -> Seq<char>
    decreases hs.len(),
{
    if hs.len() == 0 {
        Seq::empty()
    } else {
        render_headers(hs.drop_last()) + hs.last().0 + ": "@ + hs.last().1 + seq!['\r', '\n']
    }
}

pub open spec fn head_chars(r: RespView) -> Seq<char> {
    "HTTP/1.1 "@ + dec_chars(code_of(r.status)) + seq![' '] + reason_of(r.status)
        + seq!['\r', '\n'] + render_headers(r.headers) + seq!['\r', '\n']
}

/// The exact bytes that serialization emits: the UTF-8 encoding of the head
/// followed by the body verbatim.
pub open spec fn serialize_spec(r: RespView) -> Seq<u8> {
    encode_utf8(head_chars(r)) + r.body
}

impl Response {
    /// Builds a response; the two injected headers override any entry of the
    /// same name that the caller supplied.
    pub fn new(status: StatusCode, headers: Vec<(String, String)>, body: Vec<u8>) -> (r: Response)
        ensures
            r@ == new_spec(status, headers_view(headers@), body@),
    {
        let mut hs = headers;
        let len_str = dec_u64(body.len() as u64);
        insert_entry(&mut hs, String::from_str("Content-Length"), len_str);
        insert_entry(&mut hs, String::from_str("Connection"), String::from_str("close"));
        Response { status, headers: hs, body }
    }

    /// The status code.
    #[inline]
    pub fn status(&self) -> (r: &StatusCode)
        ensures
            r == self@.status,
    {
        &self.status
    }

    /// The header mapping, in insertion order with unique names.
    #[inline]
    pub fn headers(&self) -> (r: &Vec<(String, String)>)
        ensures
            headers_view(r@) == self@.headers,
    {
        &self.headers
    }

    /// The raw body bytes.
    #[inline]
    pub fn body(&self) -> (r: &[u8])
        ensures
            r@ == self@.body,
    {
        self.body.as_slice()
    }

    /// The value of the last header of the given name, if any.
    pub fn header(&self, name: &str) -> (r: Option<String>)
        ensures
            match r {
                Some(v) => header_lookup(self@.headers, name@) == Some(v@),
                None => header_lookup(self@.headers, name@) is None,
            },
    {
        lookup_entry(&self.headers, name)
    }

    /// Serializes the response: status line, headers in insertion order, a
    /// blank line, then the body bytes appended verbatim.
    pub fn to_bytes(&self) -> (r: Vec<u8>)
        ensures
            r@ == serialize_spec(self@),
    {
        let ghost hv = headers_view(self.headers@);
        let mut head = String::from_str("HTTP/1.1 ");
        head.append(dec_u64(self.status.code() as u64).as_str());
        head.append(" ");
        head.append(self.status.as_str());
        head.append("\r\n");
        let ghost pre = head@;
        proof {
            reveal_strlit(" ");
            reveal_strlit("\r\n");
            assert(" "@ =~= seq![' ']);
            assert("\r\n"@ =~= seq!['\r', '\n']);
            assert(hv.subrange(0, 0) =~= Seq::<(Seq<char>, Seq<char>)>::empty());
        }
        let n = self.headers.len();
        let mut i: usize = 0;
        while i < n
            invariant
                0 <= i <= n,
                n == self.headers@.len(),
                hv == headers_view(self.headers@),
                head@ == pre + render_headers(hv.subrange(0, i as int)),
            decreases n - i,
        {
            let ghost before = hv.subrange(0, i as int);
            head.append(self.headers[i].0.as_str());
            head.append(": ");
            head.append(self.headers[i].1.as_str());
            head.append("\r\n");
            proof {
                reveal_strlit("\r\n");
                assert("\r\n"@ =~= seq!['\r', '\n']);
                let now = hv.subrange(0, (i + 1) as int);
                assert(now.drop_last() =~= before);
                assert(now.last() == (self.headers@[i as int].0@, self.headers@[i as int].1@));
                assert(pre + render_headers(before) + hv[i as int].0 + ": "@ + hv[i as int].1
                    + seq!['\r', '\n'] =~= pre + render_headers(now));
            }
            i = i + 1;
        }
        head.append("\r\n");
        proof {
            reveal_strlit("\r\n");
            assert("\r\n"@ =~= seq!['\r', '\n']);
            assert(hv.subrange(0, n as int) =~= hv);
            assert(head@ =~= head_chars(self@));
        }
        let mut out = head.as_str().as_bytes_vec();
        let m = self.body.len();
        let mut j: usize = 0;
        proof {
            assert(out@ + self.body@.subrange(0, 0) =~= out@);
        }
        while j < m
            invariant
                0 <= j <= m,
                m == self.body@.len(),
                out@ == encode_utf8(head_chars(self@)) + self.body@.subrange(0, j as int),
                head@ == head_chars(self@),
            decreases m - j,
        {
            out.push(self.body[j]);
            proof {
                assert(encode_utf8(head_chars(self@)) + self.body@.subrange(0, (j + 1) as int)
                    =~= (encode_utf8(head_chars(self@)) + self.body@.subrange(0, j as int)).push(
                    self.body@[j as int],
                ));
            }
            j = j + 1;
        }
        proof {
            assert(self.body@.subrange(0, m as int) =~= self.body@);
        }
        out
    }
}

/// Anything a handler may return that the server knows how to turn into a
/// response.
pub trait IntoResponse {
    /// The response this value stands for.
    spec fn response_view(&self) -> RespView;

    fn into_response(&self) -> (r: Response)
        ensures
            r@ == self.response_view(),
    ;
}

impl IntoResponse for (StatusCode, String) {
    open spec fn response_view(&self) -> RespView {
        new_spec(self.0, Seq::empty(), encode_utf8(self.1@))
    }

    fn into_response(&self) -> (r: Response)
        ensures
            r@ == self.response_view(),
    {
        Response::new(self.0, Vec::new(), self.1.as_str().as_bytes_vec())
    }
}

impl<'a> IntoResponse for (StatusCode, &'a str) {
    open spec fn response_view(&self) -> RespView {
        new_spec(self.0, Seq::empty(), encode_utf8(self.1@))
    }

    fn into_response(&self) -> (r: Response)
        ensures
            r@ == self.response_view(),
    {
        Response::new(self.0, Vec::new(), self.1.as_bytes_vec())
    }
}

impl<'a> IntoResponse for &'a str {
    open spec fn response_view(&self) -> RespView {
        new_spec(StatusCode::OK, Seq::empty(), encode_utf8(self@))
    }

    fn into_response(&self) -> (r: Response)
        ensures
            r@ == self.response_view(),
    {
        Response::new(StatusCode::OK, Vec::new(), self.as_bytes_vec())
    }
}

/// The serialized head ends, just before the blank line, with the two
/// injected headers rendered in full: whatever the caller supplied, the byte
/// stream of every response carries `Content-Length` equal to the body's
/// length and `Connection: close`.
pub proof fn lemma_serialized_injected_headers(
    status: StatusCode,
    headers: Seq<(Seq<char>, Seq<char>)>,
    body: Seq<u8>,
)
    ensures
        ({
            let kept = crate::headers::remove_key(
                crate::headers::remove_key(headers, "Content-Length"@),
                "Connection"@,
            );
            head_chars(new_spec(status, headers, body)) == ("HTTP/1.1 "@ + dec_chars(
                code_of(status),
            ) + seq![' '] + reason_of(status) + seq!['\r', '\n']) + render_headers(kept) + (
            "Content-Length"@ + ": "@ + dec_chars(body.len() as int) + seq!['\r', '\n']) + (
            "Connection"@ + ": "@ + "close"@ + seq!['\r', '\n']) + seq!['\r', '\n']
        }),
{
    let cl = "Content-Length"@;
    let conn = "Connection"@;
    let dec = dec_chars(body.len() as int);
    reveal_strlit("Content-Length");
    reveal_strlit("Connection");
    assert(cl.len() == 14);
    assert(conn.len() == 10);
    let kept = crate::headers::remove_key(crate::headers::remove_key(headers, cl), conn);
    crate::headers::lemma_remove_key_push(
        crate::headers::remove_key(headers, cl),
        (cl, dec),
        conn,
    );
    let h2 = insert_header(insert_header(headers, cl, dec), conn, "close"@);
    assert(h2 == kept.push((cl, dec)).push((conn, "close"@)));
    assert(h2.drop_last() =~= kept.push((cl, dec)));
    assert(kept.push((cl, dec)).drop_last() =~= kept);
    assert(h2.last() == (conn, "close"@));
    assert(kept.push((cl, dec)).last() == (cl, dec));
    assert(render_headers(h2) == render_headers(kept.push((cl, dec))) + conn + ": "@ + "close"@
        + seq!['\r', '\n']);
    assert(render_headers(kept.push((cl, dec))) == render_headers(kept) + cl + ": "@ + dec
        + seq!['\r', '\n']);
    assert(head_chars(new_spec(status, headers, body)) =~= ("HTTP/1.1 "@ + dec_chars(
        code_of(status),
    ) + seq![' '] + reason_of(status) + seq!['\r', '\n']) + render_headers(kept) + (cl + ": "@
        + dec + seq!['\r', '\n']) + (conn + ": "@ + "close"@ + seq!['\r', '\n']) + seq![
        '\r',
        '\n',
    ]);
}

/// However a response is constructed, its header mapping carries
/// `Content-Length` equal to the body's byte length and `Connection: close`,
/// whatever entries of those names the caller supplied.
pub proof fn lemma_injected_headers(
    status: StatusCode,
    headers: Seq<(Seq<char>, Seq<char>)>,
    body: Seq<u8>,
)
    ensures
        header_lookup(new_spec(status, headers, body).headers, "Content-Length"@) == Some(
            dec_chars(body.len() as int),
        ),
        header_lookup(new_spec(status, headers, body).headers, "Connection"@) == Some("close"@),
{
    let h1 = insert_header(headers, "Content-Length"@, dec_chars(body.len() as int));
    lemma_lookup_inserted(h1, "Connection"@, "close"@);
    reveal_strlit("Content-Length");
    reveal_strlit("Connection");
    assert("Content-Length"@.len() == 14);
    assert("Connection"@.len() == 10);
    lemma_lookup_other(h1, "Connection"@, "close"@, "Content-Length"@);
    lemma_lookup_inserted(headers, "Content-Length"@, dec_chars(body.len() as int));
}

} // verus!
