//! The rqbit API: its data, and the decisions of the client and of the
//! persistent streams.
use base64::Engine;
use vstd::prelude::*;

pub mod types;
pub mod client;
pub mod streaming;
pub mod circuit_breaker;

verus! {

/// The digit of the standard base64 alphabet for a value below 64.
pub open spec fn base64_digit(v: int) -> char {
    "ABCDEFGHIJKLMNOPQRSTUVWXYZabcdefghijklmnopqrstuvwxyz0123456789+/"@[v]
}

/// The standard base64 text (with `=` padding) of some bytes: each group
/// of three bytes gives four digits of six bits each, high bits first; a
/// last group of one or two bytes gives two or three digits, its missing
/// bits taken as 0, padded to four with `=`.
pub open spec fn base64_standard(data: Seq<u8>) -> Seq<char>
    decreases data.len(),
{
    if data.len() == 0 {
        Seq::empty()
    } else if data.len() == 1 {
        let a = data[0] as int;
        seq![base64_digit(a / 4), base64_digit((a % 4) * 16), '=', '=']
    } else if data.len() == 2 {
        let a = data[0] as int;
        let b = data[1] as int;
        seq![base64_digit(a / 4), base64_digit((a % 4) * 16 + b / 16), base64_digit((b % 16) * 4), '=']
    } else {
        let a = data[0] as int;
        let b = data[1] as int;
        let c = data[2] as int;
        seq![
            base64_digit(a / 4),
            base64_digit((a % 4) * 16 + b / 16),
            base64_digit((b % 16) * 4 + c / 64),
            base64_digit(c % 64),
        ] + base64_standard(data.subrange(3, data.len() as int))
    }
}

/// `base64::engine::general_purpose::STANDARD.encode`: the standard base64
/// text, with padding, of the UTF-8 bytes of `text` (see
/// [`base64_standard`]).
#[verifier::external_body]
fn base64_encode(text: &str) -> (r: String)
    requires
        vstd::utf8::encode_utf8(text@).len() <= usize::MAX / 2,
    ensures
        r@ == base64_standard(vstd::utf8::encode_utf8(text@)),
{
    base64::engine::general_purpose::STANDARD.encode(text)
}

/// The `Authorization` value for HTTP Basic Auth with an encoded
/// `user:password`.
pub fn basic_auth_value(encoded: &str) -> (r: String)
    ensures
        r@ == "Basic "@ + encoded@,
{
    crate::text::concat2("Basic ", encoded)
}

/// The text of credentials for HTTP Basic Auth: `user:password`.
pub open spec fn credentials_text(username: Seq<char>, password: Seq<char>) -> Seq<char> {
    username + ":"@ + password
}

/// Create the Authorization header for HTTP Basic Auth: `Basic ` and the
/// base64 text of `user:password`, when there are credentials.
pub fn create_auth_header(auth_credentials: Option<&(String, String)>) -> (r: Option<String>)
    requires
        auth_credentials matches Some(c) ==> vstd::utf8::encode_utf8(credentials_text(c.0@, c.1@)).len() <= usize::MAX / 2,
    ensures
        auth_credentials is None ==> r is None,
        auth_credentials matches Some(c) ==> (r matches Some(h) && h@ == "Basic "@ + base64_standard(
            vstd::utf8::encode_utf8(credentials_text(c.0@, c.1@)),
        )),
{
    match auth_credentials {
        Some((username, password)) => {
            let credentials = crate::text::concat3(username.as_str(), ":", password.as_str());
            let encoded = base64_encode(credentials.as_str());
            Some(basic_auth_value(encoded.as_str()))
        },
        None => None,
    }
}

} // verus!
