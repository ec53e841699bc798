//! HTTP response construction: a builder holding a status code, an ordered
//! header list and a body, serialized to wire bytes, with optional gzip
//! compression of the body.

use vstd::prelude::*;
use vstd::string::StrSliceExecFns;
use vstd::utf8::encode_utf8;

use flate2::write::GzEncoder;
use flate2::Compression;
use std::io::Write;

use crate::text::{dec_string, spec_dec_chars};

verus! {

/// Mathematical model of a response: status code, headers in insertion
/// order (as character sequences), and the body bytes.
pub ghost struct RespModel {
    pub status: u16,
    pub headers: Seq<(Seq<char>, Seq<char>)>,
    pub body: Seq<u8>,
}

/// What compressing `data` with flate2's gzip encoder at the default level returns.
pub uninterp spec fn gzip_of(data: Seq<u8>) -> Seq<u8>;

/// What decompressing `data` with flate2's gzip decoder returns: the decoded
/// bytes, or `None` when `data` is not a well-formed gzip stream.
pub uninterp spec fn gunzip_of(data: Seq<u8>) -> Option<Seq<u8>>;

/// Relies on flate2's `write::GzEncoder` at the default compression level: the
/// output is a function of the input bytes alone (the gzip header it emits has a
/// zero timestamp and a fixed operating-system byte), and gzip coding is lossless,
/// so decoding the output gives back exactly the input; writing into a `Vec`
/// cannot fail.
#[verifier::external_body]
fn gzip_bytes(data: &[u8]) -> (r: Vec<u8>)
    ensures
        r@ == gzip_of(data@),
        gunzip_of(r@) == Some(data@),
{
    let mut encoder = GzEncoder::new(Vec::new(), Compression::default());
    encoder.write_all(data).unwrap();
    encoder.finish().unwrap()
}

/// Relies on `String::into_bytes`: a `String`'s buffer is exactly the UTF-8
/// encoding of its characters.
#[verifier::external_body]
fn string_into_bytes(s: String) -> (r: Vec<u8>)
    ensures
        r@ == encode_utf8(s@),
{
    s.into_bytes()
}

/// The reason phrase for a status code.
pub open spec fn spec_status_text(status: u16) -> Seq<char> {
    if status == 200 {
        "OK"@
    } else if status == 201 {
        "Created"@
    } else if status == 400 {
        "Bad Request"@
    } else if status == 404 {
        "Not Found"@
    } else if status == 500 {
        "Internal Server Error"@
    } else {
        "Unknown"@
    }
}

pub fn status_text(status: u16) -> (r: &'static str)
    ensures
        r@ == spec_status_text(status),
{
    if status == 200 {
        "OK"
    } else if status == 201 {
        "Created"
    } else if status == 400 {
        "Bad Request"
    } else if status == 404 {
        "Not Found"
    } else if status == 500 {
        "Internal Server Error"
    } else {
        "Unknown"
    }
}

/// One serialized header line.
pub open spec fn spec_header_line(name: Seq<char>, value: Seq<char>) -> Seq<char> {
    name + ": "@ + value + "\r\n"@
}

/// The serialized header lines, in order.
pub open spec fn spec_header_lines(headers: Seq<(Seq<char>, Seq<char>)>) -> Seq<char>
    decreases headers.len(),
{
    if headers.len() == 0 {
        Seq::empty()
    } else {
        spec_header_line(headers[0].0, headers[0].1) + spec_header_lines(headers.drop_first())
    }
}

proof fn lemma_header_lines_snoc(headers: Seq<(Seq<char>, Seq<char>)>, p: (Seq<char>, Seq<char>))
    ensures
        spec_header_lines(headers.push(p)) == spec_header_lines(headers) + spec_header_line(
            p.0,
            p.1,
        ),
    decreases headers.len(),
{
    let hp = headers.push(p);
    if headers.len() == 0 {
        assert(hp[0] == p);
        assert(hp.drop_first() =~= headers);
        assert(spec_header_lines(hp) =~= spec_header_lines(headers) + spec_header_line(p.0, p.1));
    } else {
        assert(hp[0] == headers[0]);
        assert(hp.drop_first() =~= headers.drop_first().push(p));
        lemma_header_lines_snoc(headers.drop_first(), p);
        assert(spec_header_lines(hp) =~= spec_header_lines(headers) + spec_header_line(p.0, p.1));
    }
}

/// The status line and the `Content-Length` line, which always come first.
pub open spec fn spec_head_prefix(m: RespModel) -> Seq<char> {
    "HTTP/1.1 "@ + spec_dec_chars(m.status as nat) + " "@ + spec_status_text(m.status) + "\r\n"@
        + "Content-Length: "@ + spec_dec_chars(m.body.len()) + "\r\n"@
}

/// The full response head: status line, `Content-Length`, the remaining
/// headers in order, and the blank line.
pub open spec fn spec_head_chars(m: RespModel) -> Seq<char> {
    spec_head_prefix(m) + spec_header_lines(m.headers) + "\r\n"@
}

/// The wire bytes of a response: the UTF-8 bytes of the head, then the body.
pub open spec fn spec_response_bytes(m: RespModel) -> Seq<u8> {
    encode_utf8(spec_head_chars(m)) + m.body
}

/// Model of `HttpResponse::new`.
pub open spec fn spec_new(status: u16) -> RespModel {
    RespModel { status, headers: Seq::empty(), body: Seq::empty() }
}

/// Model of `HttpResponse::with_text_body`: the body becomes the UTF-8 bytes
/// of the text and a `Content-Type` header is appended.
pub open spec fn spec_with_text_body(m: RespModel, content_type: Seq<char>, text: Seq<char>) -> RespModel {
    RespModel {
        status: m.status,
        headers: m.headers.push(("Content-Type"@, content_type)),
        body: encode_utf8(text),
    }
}

/// Model of `HttpResponse::with_gzip_compression`: a no-op on an empty body;
/// otherwise the body is replaced by its gzip coding and a
/// `Content-Encoding: gzip` header is appended.
pub open spec fn spec_with_gzip(m: RespModel) -> RespModel {
    if m.body.len() == 0 {
        m
    } else {
        RespModel {
            status: m.status,
            headers: m.headers.push(("Content-Encoding"@, "gzip"@)),
            body: gzip_of(m.body),
        }
    }
}

/// Model of `HttpResponse::add_header`.
pub open spec fn spec_add_header(m: RespModel, name: Seq<char>, value: Seq<char>) -> RespModel {
    RespModel { status: m.status, headers: m.headers.push((name, value)), body: m.body }
}

/// A response under construction.
pub struct HttpResponse {
    status: u16,
    headers: Vec<(String, String)>,
    body: Vec<u8>,
}

impl View for HttpResponse {
    type V = RespModel;

    closed spec fn view(&self) -> RespModel {
        RespModel {
            status: self.status,
            headers: self.headers@.map_values(|p: (String, String)| (p.0@, p.1@)),
            body: self.body@,
        }
    }
}

impl HttpResponse {
    pub fn new(status: u16) -> (r: Self)
        ensures
            r@ == spec_new(status),
    {
        let r = HttpResponse { status, headers: Vec::new(), body: Vec::new() };
        proof {
            assert(r@.headers =~= spec_new(status).headers);
        }
        r
    }

    /// Sets the body to the UTF-8 bytes of `body` and appends a
    /// `Content-Type` header.
    pub fn with_text_body(self, content_type: &str, body: &str) -> (r: Self)
        ensures
            r@ == spec_with_text_body(self@, content_type@, body@),
    {
        let mut headers = self.headers;
        headers.push((String::from_str("Content-Type"), content_type.to_owned()));
        let r = HttpResponse { status: self.status, headers, body: body.as_bytes_vec() };
        proof {
            assert(r@.headers =~= spec_with_text_body(self@, content_type@, body@).headers);
        }
        r
    }

    /// Replaces a non-empty body by its gzip coding and appends
    /// `Content-Encoding: gzip`; leaves an empty body alone. Decompressing
    /// the new body gives back the old one exactly.
    pub fn with_gzip_compression(self) -> (r: Self)
        ensures
            r@ == spec_with_gzip(self@),
            self@.body.len() > 0 ==> gunzip_of(r@.body) == Some(self@.body),
    {
        if self.body.is_empty() {
            self
        } else {
            let compressed = gzip_bytes(self.body.as_slice());
            let mut headers = self.headers;
            headers.push((String::from_str("Content-Encoding"), String::from_str("gzip")));
            let r = HttpResponse { status: self.status, headers, body: compressed };
            proof {
                assert(r@.headers =~= spec_with_gzip(self@).headers);
            }
            r
        }
    }

    /// Appends a header pair; no deduplication.
    pub fn add_header(self, name: &str, value: &str) -> (r: Self)
        ensures
            r@ == spec_add_header(self@, name@, value@),
    {
        let mut headers = self.headers;
        headers.push((name.to_owned(), value.to_owned()));
        let r = HttpResponse { status: self.status, headers, body: self.body };
        proof {
            assert(r@.headers =~= spec_add_header(self@, name@, value@).headers);
        }
        r
    }

    /// Serializes the response: status line, `Content-Length` computed from
    /// the final body, the headers in insertion order, a blank line, then the
    /// body bytes.
    pub fn to_bytes(self) -> (r: Vec<u8>)
        ensures
            r@ == spec_response_bytes(self@),
    {
        let ghost m = self@;
        let HttpResponse { status, headers, body } = self;
        let mut head = String::new();
        head.append("HTTP/1.1 ");
        head.append(dec_string(status as usize).as_str());
        head.append(" ");
        head.append(status_text(status));
        head.append("\r\n");
        head.append("Content-Length: ");
        head.append(dec_string(body.len()).as_str());
        head.append("\r\n");
        proof {
            assert(head@ =~= spec_head_prefix(m));
        }
        let mut i: usize = 0;
        while i < headers.len()
            invariant
                0 <= i <= headers@.len(),
                m.headers == headers@.map_values(|p: (String, String)| (p.0@, p.1@)),
                head@ == spec_head_prefix(m) + spec_header_lines(m.headers.take(i as int)),
            decreases headers@.len() - i,
        {
            let ghost prev = head@;
            head.append(headers[i].0.as_str());
            head.append(": ");
            head.append(headers[i].1.as_str());
            head.append("\r\n");
            proof {
                let line = spec_header_line(m.headers[i as int].0, m.headers[i as int].1);
                assert(head@ =~= prev + line);
                lemma_header_lines_snoc(m.headers.take(i as int), m.headers[i as int]);
                assert(m.headers.take(i as int).push(m.headers[i as int]) =~= m.headers.take(
                    i as int + 1,
                ));
                assert(head@ =~= spec_head_prefix(m) + spec_header_lines(
                    m.headers.take(i as int + 1),
                ));
            }
            i += 1;
        }
        head.append("\r\n");
        proof {
            assert(m.headers.take(headers@.len() as int) =~= m.headers);
            assert(head@ =~= spec_head_chars(m));
        }
        let mut r = string_into_bytes(head);
        let mut b = body;
        r.append(&mut b);
        proof {
            assert(r@ =~= spec_response_bytes(m));
        }
        r
    }
}

/// A compressed body is framed with the compressed length: serializing after
/// compression of a non-empty body emits a `Content-Length` whose digits are
/// those of `gzip_of(body).len()`, the length of what is sent, not the length
/// of the body that was compressed.
pub proof fn lemma_gzip_framing(m: RespModel)
    requires
        m.body.len() > 0,
    ensures
        spec_with_gzip(m).body == gzip_of(m.body),
        spec_response_bytes(spec_with_gzip(m)) == encode_utf8(spec_head_chars(spec_with_gzip(m)))
            + gzip_of(m.body),
        spec_head_prefix(spec_with_gzip(m)) == "HTTP/1.1 "@ + spec_dec_chars(m.status as nat)
            + " "@ + spec_status_text(m.status) + "\r\n"@ + "Content-Length: "@ + spec_dec_chars(
            gzip_of(m.body).len(),
        ) + "\r\n"@,
{
}

} // verus!
