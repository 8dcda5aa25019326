//! The outbound wire format: a status line, the assembled header lines, a
//! `Content-Length` computed from the body's byte length, `Connection:
//! close`, a blank line, and the body.

use vstd::prelude::*;
use vstd::utf8::encode_utf8;
use crate::text::dec_of;
use crate::text::dec_val;
use crate::text::push_decimal;
use crate::text::lemma_dec_of_value;

verus! {

/// An in-memory response, ready to be serialized and written to a stream.
pub struct HttpResponse {
    pub status_code: u16,
    pub headers: Vec<String>,
    pub body: String,
}

/// The reason phrase written after the status code.
pub open spec fn reason_of(code: u16) -> Seq<char> {
    if code == 200 { "OK"@ }
    else if code == 404 { "Not Found"@ }
    else if code == 500 { "Internal Server Error"@ }
    else { "Unknown"@ }
}

/// The header lines joined by CRLF, with no trailing separator.
pub open spec fn joined_headers(hs: Seq<Seq<char>>) -> Seq<char>
    decreases hs.len(),
{
    if hs.len() == 0 {
        Seq::empty()
    } else if hs.len() == 1 {
        hs[0]
    } else {
        joined_headers(hs.drop_last()) + "\r\n"@ + hs.last()
    }
}

impl HttpResponse {
    /// The body's length in bytes, the value the `Content-Length` header
    /// reports.
    pub open spec fn body_byte_len(self) -> nat {
        (encode_utf8(self.body@).len() as usize) as nat
    }

    /// The full serialized response.
    pub open spec fn wire(self) -> Seq<char> {
        "HTTP/1.1 "@ + dec_of(self.status_code as nat) + " "@ + reason_of(self.status_code)
            + "\r\n"@ + joined_headers(self.headers.deep_view()) + "\r\nContent-Length: "@
            + dec_of(self.body_byte_len()) + "\r\nConnection: close\r\n\r\n"@ + self.body@
    }

    pub fn new(status_code: u16, headers: Vec<String>, body: String) -> (r: HttpResponse)
        ensures
            r.status_code == status_code,
            r.headers == headers,
            r.body == body,
    {
        HttpResponse { status_code, headers, body }
    }

    /// Serializes the response; the result is exactly `self.wire()`.
    pub fn to_string(&self) -> (r: String)
        ensures
            r@ == self.wire(),
    {
        let mut r = String::from_str("HTTP/1.1 ");
        push_decimal(&mut r, self.status_code as u64);
        r.append(" ");
        if self.status_code == 200 {
            r.append("OK");
        } else if self.status_code == 404 {
            r.append("Not Found");
        } else if self.status_code == 500 {
            r.append("Internal Server Error");
        } else {
            r.append("Unknown");
        }
        r.append("\r\n");
        let ghost prefix = r@;
        let hn = self.headers.len();
        let mut i: usize = 0;
        while i < hn
            invariant
                i <= hn,
                hn == self.headers@.len(),
                r@ == prefix + joined_headers(self.headers.deep_view().take(i as int)),
            decreases hn - i,
        {
            if i > 0 {
                r.append("\r\n");
            }
            r.append(self.headers[i].as_str());
            proof {
                let ghost hs = self.headers.deep_view();
                assert(hs.len() == self.headers@.len());
                assert(hs[i as int] == self.headers@[i as int]@);
                if i == 0 {
                    assert(hs.take(1)[0] == hs[0]);
                    assert(joined_headers(hs.take(0)) =~= Seq::<char>::empty());
                    assert(r@ =~= prefix + joined_headers(hs.take(1)));
                } else {
                    assert(hs.take(i as int + 1).drop_last() =~= hs.take(i as int));
                    assert(hs.take(i as int + 1).last() == hs[i as int]);
                    assert(r@ =~= prefix + joined_headers(hs.take(i as int + 1)));
                }
            }
            i = i + 1;
        }
        proof {
            assert(self.headers.deep_view().take(hn as int) =~= self.headers.deep_view());
        }
        r.append("\r\nContent-Length: ");
        let blen = self.body.as_str().len();
        push_decimal(&mut r, blen as u64);
        r.append("\r\nConnection: close\r\n\r\n");
        r.append(self.body.as_str());
        proof {
            assert(r@ =~= self.wire());
        }
        r
    }
}

/// The `Content-Length` header's digits denote exactly the byte length of
/// the body: `wire()` writes `dec_of(body_byte_len())` as the header's
/// value just before the blank line and the body, and reading those digits
/// back as a number gives the body's byte length.
pub proof fn lemma_content_length_exact(r: HttpResponse)
    ensures
        dec_val(dec_of(r.body_byte_len())) == r.body_byte_len(),
        r.wire() == "HTTP/1.1 "@ + dec_of(r.status_code as nat) + " "@ + reason_of(r.status_code)
            + "\r\n"@ + joined_headers(r.headers.deep_view()) + "\r\nContent-Length: "@ + dec_of(
            r.body_byte_len(),
        ) + "\r\nConnection: close\r\n\r\n"@ + r.body@,
{
    lemma_dec_of_value(r.body_byte_len());
}

} // verus!
