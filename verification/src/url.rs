//! Building the remote request URLs: percent-encoding of the query and the
//! two fixed endpoint templates.

use vstd::prelude::*;
use vstd::string::StringExecFns;
use vstd::utf8::encode_utf8;

verus! {

/// Bytes that percent-encoding leaves as they are: ASCII alphanumerics and
/// `-`, `.`, `_`, `~`.
pub open spec fn is_url_safe_byte(b: u8) -> bool {
    ||| (48 <= b && b <= 57)  // '0'..='9'
    ||| (65 <= b && b <= 90)  // 'A'..='Z'
    ||| (97 <= b && b <= 122)  // 'a'..='z'
    ||| b == 45  // '-'
    ||| b == 46  // '.'
    ||| b == 95  // '_'
    ||| b == 126  // '~'
}

/// The uppercase hexadecimal digit for a value below 16.
pub open spec fn hex_digit(d: u8) -> char
    recommends
        d < 16,
{
    if d <= 9 {
        ((48 + d) as char)  // '0' + d
    } else {
        ((55 + d) as char)  // 'A' + d - 10
    }
}

/// How one byte appears in a percent-encoded string: safe bytes stand as
/// their own ASCII character, every other byte as `%` and two hex digits.
pub open spec fn encoded_byte(b: u8) -> Seq<char> {
    if is_url_safe_byte(b) {
        seq![b as char]
    } else {
        seq!['%', hex_digit(b / 16), hex_digit(b % 16)]
    }
}

/// The percent-encoded form of a byte string.
pub open spec fn percent_encoded(bs: Seq<u8>) -> Seq<char>
    decreases bs.len(),
{
    if bs.len() == 0 {
        Seq::empty()
    } else {
        encoded_byte(bs[0]) + percent_encoded(bs.drop_first())
    }
}

/// Relies on urlencoding::encode: it percent-encodes every byte of the
/// argument's UTF-8 form except ASCII alphanumerics and `-`, `.`, `_`, `~`,
/// writing skipped bytes unchanged and the rest as `%` with two uppercase
/// hex digits, in order.
#[verifier::external_body]
fn url_encode(s: &str) -> (r: String)
    ensures
        r@ == percent_encoded(encode_utf8(s@)),
{
    urlencoding::encode(s).into_owned()
}

/// The autocomplete endpoint for a query, with the query percent-encoded.
pub fn suggest_url(query: &str) -> (r: String)
    ensures
        r@ == "https://ac.duckduckgo.com/ac/?q="@ + percent_encoded(encode_utf8(query@)),
{
    let mut url = String::from_str("https://ac.duckduckgo.com/ac/?q=");
    let encoded = url_encode(query);
    url.append(encoded.as_str());
    url
}

/// The full-search URL opened for a selected title, with the title
/// percent-encoded.
pub fn open_url(title: &str) -> (r: String)
    ensures
        r@ == "https://ac.duckduckgo.com/?q="@ + percent_encoded(encode_utf8(title@)),
{
    let mut url = String::from_str("https://ac.duckduckgo.com/?q=");
    let encoded = url_encode(title);
    url.append(encoded.as_str());
    url
}

} // verus!
