//! The accept key that answers a client's handshake nonce, and the `101`
//! response that carries it.

use vstd::prelude::*;
use vstd::string::*;
use vstd::utf8::encode_utf8;

verus! {

/// The SHA-1 digest of `data`: twenty bytes, as FIPS 180 defines them.
pub uninterp spec fn sha1_digest(data: Seq<u8>) -> Seq<u8>;

/// The digit that stands for the six-bit value `v` in the standard alphabet.
pub open spec fn base64_digit(v: int) -> char {
    "ABCDEFGHIJKLMNOPQRSTUVWXYZabcdefghijklmnopqrstuvwxyz0123456789+/"@[v]
}

/// The base64 text of `data` in the standard alphabet, without line breaks:
/// four digits for every three bytes, and a last group padded with `=`
/// where one or two bytes are left over.
pub open spec fn base64_standard(data: Seq<u8>) -> Seq<char>
    decreases data.len(),
{
    if data.len() == 0 {
        Seq::empty()
    } else if data.len() == 1 {
        let a = data[0] as int;
        seq![base64_digit(a / 4), base64_digit(a % 4 * 16), '=', '=']
    } else if data.len() == 2 {
        let a = data[0] as int;
        let b = data[1] as int;
        seq![
            base64_digit(a / 4),
            base64_digit(a % 4 * 16 + b / 16),
            base64_digit(b % 16 * 4),
            '=',
        ]
    } else {
        let a = data[0] as int;
        let b = data[1] as int;
        let c = data[2] as int;
        seq![
            base64_digit(a / 4),
            base64_digit(a % 4 * 16 + b / 16),
            base64_digit(b % 16 * 4 + c / 64),
            base64_digit(c % 64),
        ] + base64_standard(data.skip(3))
    }
}

/// Base64 text has four characters for every three bytes begun.
pub proof fn lemma_base64_len(data: Seq<u8>)
    ensures
        base64_standard(data).len() == (data.len() + 2) / 3 * 4,
    decreases data.len(),
{
    if data.len() >= 3 {
        lemma_base64_len(data.skip(3));
    }
}

/// Hashes `data` with `sha1::Sha1::from(..).digest().bytes()`. The result is
/// the SHA-1 digest of exactly these bytes.
#[verifier::external_body]
fn sha1_of(data: &[u8]) -> (r: [u8; 20])
    ensures
        r@ == sha1_digest(data@),
{
    sha1::Sha1::from(data).digest().bytes()
}

/// Encodes `data` with `rustc_serialize`'s `to_base64` under its `STANDARD`
/// configuration: standard alphabet, padding, no line wrapping. The result
/// is the text that `base64_standard` spells out.
#[verifier::external_body]
fn base64_of(data: &[u8]) -> (r: String)
    ensures
        r@ == base64_standard(data@),
{
    rustc_serialize::base64::ToBase64::to_base64(data, rustc_serialize::base64::STANDARD)
}

/// The fixed text that every server appends to the client's nonce.
pub open spec fn magic_guid() -> Seq<char> {
    "258EAFA5-E914-47DA-95CA-C5AB0DC85B11"@
}

/// The accept key for `nonce`: the base64 text of the SHA-1 digest of the
/// nonce followed by the fixed text, both as UTF-8.
pub open spec fn accept_key(nonce: Seq<char>) -> Seq<char> {
    base64_standard(sha1_digest(encode_utf8(nonce + magic_guid())))
}

/// The name of the request header that carries the nonce.
pub open spec fn nonce_header() -> Seq<char> {
    "Sec-WebSocket-Key"@
}

/// What precedes the accept key in the response.
pub open spec fn response_head() -> Seq<char> {
    "HTTP/1.1 101 Switching Protocols\r\nUpgrade: websocket\r\nConnection: Upgrade\r\nSec-WebSocket-Accept: "@
}

/// What follows the accept key: the end of its line and the blank line that
/// closes the headers.
pub open spec fn response_tail() -> Seq<char> {
    "\r\n\r\n"@
}

/// The whole response that carries the accept key `accept`.
pub open spec fn response_text(accept: Seq<char>) -> Seq<char> {
    response_head() + accept + response_tail()
}

/// Derives the accept key from the client's nonce. The nonce is taken as it
/// is: nothing about its length or alphabet is checked.
pub fn gen_key(key: &String) -> (r: String)
    ensures
        r@ == accept_key(key@),
        sha1_digest(encode_utf8(key@ + magic_guid())).len() == 20,
        r@.len() == 28,
{
    let mut text = key.clone();
    text.append("258EAFA5-E914-47DA-95CA-C5AB0DC85B11");
    let digest = sha1_of(text.as_str().as_bytes());
    proof {
        lemma_base64_len(digest@);
    }
    base64_of(digest.as_slice())
}

/// Composes the response that switches protocols, with `accept` as the
/// value of `Sec-WebSocket-Accept`.
pub fn handshake_response(accept: &String) -> (r: String)
    ensures
        r@ == response_text(accept@),
{
    let mut text = String::from_str(
        "HTTP/1.1 101 Switching Protocols\r\nUpgrade: websocket\r\nConnection: Upgrade\r\nSec-WebSocket-Accept: ",
    );
    text.append(accept.as_str());
    text.append("\r\n\r\n");
    text
}

} // verus!
