//! Calls into outside crates and into parts of std that Verus does not
//! specify. Each result is either stated or given a name below.

use vstd::prelude::*;
use vstd::utf8::*;
use base64::Engine;

verus! {

/// What `regex::Regex::captures_iter` yields for `pattern` on `text`: for each
/// match, its capture groups (group 0 is the whole match); `None` when the
/// pattern does not compile.
pub uninterp spec fn regex_all_captures(pattern: Seq<char>, text: Seq<char>) -> Option<
    Seq<Seq<Option<Seq<char>>>>,
>;

/// What `regex::Regex::captures` yields for `pattern` on `text`: the capture
/// groups of the first match, if any; `None` when the pattern does not compile.
pub uninterp spec fn regex_first_captures(pattern: Seq<char>, text: Seq<char>) -> Option<
    Option<Seq<Option<Seq<char>>>>,
>;

/// What `scraper` finds in the HTML document `html`: for each element that the
/// CSS `selector` selects, in document order, the value of each attribute in
/// `attrs`; `None` when the selector does not parse.
pub uninterp spec fn html_select_attrs(
    html: Seq<char>,
    selector: Seq<char>,
    attrs: Seq<Seq<char>>,
) -> Option<Seq<Seq<Option<Seq<char>>>>>;

/// The host that `url::Url::parse` finds in `input`, if it parses and has one.
pub uninterp spec fn url_host(input: Seq<char>) -> Option<Seq<char>>;

/// The value of the hexadecimal digit `b`, in either case.
pub open spec fn hex_value(b: u8) -> Option<u8> {
    if 0x30 <= b <= 0x39 {
        Some((b - 0x30) as u8)
    } else if 0x41 <= b <= 0x46 {
        Some((b - 0x41 + 10) as u8)
    } else if 0x61 <= b <= 0x66 {
        Some((b - 0x61 + 10) as u8)
    } else {
        None
    }
}

/// The bytes `b` with each `%` followed by two hexadecimal digits replaced by the
/// byte they spell; every other byte, a lone `%` among them, stays.
pub open spec fn percent_decode_bytes(b: Seq<u8>) -> Seq<u8>
    decreases b.len(),
{
    if b.len() == 0 {
        b
    } else if b.len() >= 3 && b[0] == 0x25 && hex_value(b[1]) is Some && hex_value(b[2]) is Some {
        seq![(hex_value(b[1])->0 * 16 + hex_value(b[2])->0) as u8] + percent_decode_bytes(b.skip(3))
    } else {
        seq![b[0]] + percent_decode_bytes(b.skip(1))
    }
}

/// What `urlencoding::decode` makes of `data`: the percent-decoded bytes of its
/// UTF-8, read as UTF-8; `None` when they are not UTF-8.
pub open spec fn percent_decode(data: Seq<char>) -> Option<Seq<char>> {
    let b = percent_decode_bytes(encode_utf8(data));
    if valid_utf8(b) {
        Some(decode_utf8(b))
    } else {
        None
    }
}

proof fn lemma_high_bit_bytes(y: u8)
    by (bit_vector)
    ensures
        (0x80u8 | y) >= 0x80u8,
        (0xC0u8 | y) >= 0x80u8,
        (0xE0u8 | y) >= 0x80u8,
        (0xF0u8 | y) >= 0x80u8,
{
}

proof fn lemma_low_scalar_byte(v: u32)
    by (bit_vector)
    requires
        v <= 0x7F,
    ensures
        ((v & 0x7F) as u8) as u32 == v,
{
}

proof fn lemma_encode_no_percent(chars: Seq<char>)
    requires
        !chars.contains('%'),
    ensures
        !encode_utf8(chars).contains(0x25u8),
    decreases chars.len(),
{
    if chars.len() > 0 {
        let rest = chars.drop_first();
        assert(!rest.contains('%')) by {
            if rest.contains('%') {
                let k = choose|k: int| 0 <= k < rest.len() && rest[k] == '%';
                assert(chars[k + 1] == '%');
            }
        }
        lemma_encode_no_percent(rest);
        let c = chars[0];
        assert(c != '%') by {
            assert(chars.contains(chars[0]));
        }
        let v = c as u32;
        let e = encode_scalar(v);
        if has_width_1_encoding(v) {
            lemma_low_scalar_byte(v);
            assert(v != 0x25) by {
                if v == 0x25 {
                    assert(('%' as u32) == 0x25);
                    vstd::utf8::char_u32_cast(c, v);
                    vstd::utf8::char_u32_cast('%', v);
                }
            }
        } else {
            lemma_high_bit_bytes(((v >> 6) & 0x1F) as u8);
            lemma_high_bit_bytes(((v >> 12) & 0x0F) as u8);
            lemma_high_bit_bytes(((v >> 18) & 0x7) as u8);
            lemma_high_bit_bytes((v & 0x3F) as u8);
            lemma_high_bit_bytes(((v >> 6) & 0x3F) as u8);
            lemma_high_bit_bytes(((v >> 12) & 0x3F) as u8);
        }
        assert(!e.contains(0x25u8));
        let all = encode_utf8(chars);
        assert(all == e + encode_utf8(rest));
        if all.contains(0x25u8) {
            let k = choose|k: int| 0 <= k < all.len() && all[k] == 0x25u8;
            if k < e.len() {
                assert(e[k] == 0x25u8);
            } else {
                assert(encode_utf8(rest)[k - e.len()] == 0x25u8);
            }
        }
    }
}

proof fn lemma_percent_bytes_plain(b: Seq<u8>)
    requires
        !b.contains(0x25u8),
    ensures
        percent_decode_bytes(b) == b,
    decreases b.len(),
{
    if b.len() > 0 {
        let rest = b.skip(1);
        assert(!rest.contains(0x25u8)) by {
            if rest.contains(0x25u8) {
                let k = choose|k: int| 0 <= k < rest.len() && rest[k] == 0x25u8;
                assert(b[k + 1] == 0x25u8);
            }
        }
        assert(b[0] != 0x25u8) by {
            assert(b.contains(b[0]));
        }
        lemma_percent_bytes_plain(rest);
        assert(seq![b[0]] + rest =~= b);
    }
}

/// A string without `%` decodes to itself.
pub proof fn lemma_percent_decode_plain(data: Seq<char>)
    requires
        !data.contains('%'),
    ensures
        percent_decode(data) == Some(data),
{
    lemma_encode_no_percent(data);
    lemma_percent_bytes_plain(encode_utf8(data));
    vstd::utf8::encode_utf8_valid_utf8(data);
    vstd::utf8::encode_utf8_decode_utf8(data);
}

/// What the standard base64 engine of `base64` decodes from the bytes of `input`.
pub uninterp spec fn base64_standard_decode(input: Seq<char>) -> Option<Seq<u8>>;

/// The value that `cookie::Cookie::parse` reads from a `Set-Cookie` header value.
pub uninterp spec fn cookie_value(header: Seq<char>) -> Option<Seq<char>>;

/// What `cruet::to_title_case` makes of `s`.
pub uninterp spec fn title_case(s: Seq<char>) -> Seq<char>;

/// Calls `cruet::to_title_case`; the contract claims only that the result is the
/// one named `title_case` for this input.
#[verifier::external_body]
pub(crate) fn to_title_case(s: &str) -> (r: String)
    ensures
        r@ == title_case(s@),
{
    cruet::to_title_case(s)
}

/// Calls `regex::Regex::new` and `Regex::captures_iter`; the contract claims only
/// that the result is the one named `regex_all_captures` for these arguments.
#[verifier::external_body]
pub(crate) fn regex_captures_all(pattern: &str, text: &str) -> (r: Option<Vec<Vec<Option<String>>>>)
    ensures
        r.deep_view() == regex_all_captures(pattern@, text@),
{
    let re = regex::Regex::new(pattern).ok()?;
    Some(
        re.captures_iter(text).map(
            |c| c.iter().map(|m| m.map(|m| m.as_str().to_string())).collect(),
        ).collect(),
    )
}

/// Calls `regex::Regex::new` and `Regex::captures`; the contract claims only that
/// the result is the one named `regex_first_captures` for these arguments.
#[verifier::external_body]
pub(crate) fn regex_captures_first(pattern: &str, text: &str) -> (r: Option<
    Option<Vec<Option<String>>>,
>)
    ensures
        r.deep_view() == regex_first_captures(pattern@, text@),
{
    let re = regex::Regex::new(pattern).ok()?;
    Some(re.captures(text).map(|c| c.iter().map(|m| m.map(|m| m.as_str().to_string())).collect()))
}

/// Calls `scraper::Html::parse_document`, `scraper::Selector::parse`,
/// `Html::select` and `Element::attr`; the contract claims only that the result is
/// the one named `html_select_attrs` for these arguments.
#[verifier::external_body]
pub(crate) fn html_select(html: &str, selector: &str, attrs: &Vec<String>) -> (r: Option<
    Vec<Vec<Option<String>>>,
>)
    ensures
        r.deep_view() == html_select_attrs(html@, selector@, attrs.deep_view()),
{
    let doc = scraper::Html::parse_document(html);
    let sel = scraper::Selector::parse(selector).ok()?;
    Some(
        doc.select(&sel).map(
            |e| attrs.iter().map(|a| e.value().attr(a).map(|v| v.to_string())).collect(),
        ).collect(),
    )
}

/// Calls `url::Url::parse` and `Url::host_str`; the contract claims only that the
/// result is the one named `url_host` for this input.
#[verifier::external_body]
pub(crate) fn parse_url_host(input: &str) -> (r: Option<String>)
    ensures
        r.deep_view() == url_host(input@),
{
    url::Url::parse(input).ok()?.host_str().map(|h| h.to_string())
}

/// Calls `urlencoding::decode`, which percent-decodes the UTF-8 of `data` and
/// reads the bytes back as UTF-8 (a string without `%` comes back as it is); the
/// contract claims that the result is `percent_decode` of `data`, `None` where the
/// crate returns its UTF-8 error.
#[verifier::external_body]
pub(crate) fn url_decode(data: &str) -> (r: Option<String>)
    ensures
        r.deep_view() == percent_decode(data@),
{
    urlencoding::decode(data).ok().map(|s| s.into_owned())
}

/// Calls `base64::engine::general_purpose::STANDARD.decode`; the contract claims
/// only that the result is the one named `base64_standard_decode` for this input.
#[verifier::external_body]
pub(crate) fn base64_decode(input: &str) -> (r: Option<Vec<u8>>)
    ensures
        r.deep_view() == base64_standard_decode(input@),
{
    base64::engine::general_purpose::STANDARD.decode(input).ok()
}

/// Calls `cookie::Cookie::parse` and `Cookie::value`; the contract claims only
/// that the result is the one named `cookie_value` for this header value.
#[verifier::external_body]
pub(crate) fn parse_cookie_value(header: &str) -> (r: Option<String>)
    ensures
        r.deep_view() == cookie_value(header@),
{
    cookie::Cookie::parse(header).ok().map(|c| c.value().to_string())
}

/// Calls `std::str::from_utf8`, which accepts exactly the valid UTF-8 byte
/// sequences and decodes them.
#[verifier::external_body]
pub(crate) fn utf8_decode(bytes: &[u8]) -> (r: Option<String>)
    ensures
        r is Some <==> valid_utf8(bytes@),
        r matches Some(s) ==> s@ == decode_utf8(bytes@),
{
    std::str::from_utf8(bytes).ok().map(|s| s.to_string())
}

} // verus!
