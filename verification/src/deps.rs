//! The functions this crate takes from std and from other crates, each with
//! the contract that this crate relies on. Nothing here is proved: each
//! contract restates what the called function's documentation or source says.
use vstd::prelude::*;
use vstd::utf8::encode_utf8;

verus! {

// ---------------------------------------------------------------------------
// std: case mapping and paths
// ---------------------------------------------------------------------------

/// What `str::to_lowercase` returns for a string (Unicode lowercase mapping,
/// including its context-dependent rules).
pub uninterp spec fn lowercase(s: Seq<char>) -> Seq<char>;

/// `str::to_lowercase`. Claimed: the result is a function of the input alone;
/// nothing is claimed about how each character is mapped.
#[verifier::external_body]
pub(crate) fn to_lowercase(s: &str) -> (r: String)
    ensures
        r@ == lowercase(s@),
{
    s.to_lowercase()
}

/// What `Path::extension` gives for the path written as `path`, read as text.
pub uninterp spec fn extension_of(path: Seq<char>) -> Option<Seq<char>>;

/// `std::path::Path::extension` on the path written as `path`. Claimed: the
/// result is a function of the path alone.
#[verifier::external_body]
pub(crate) fn path_extension(path: &str) -> (r: Option<String>)
    ensures
        r.deep_view() == extension_of(path@),
{
    std::path::Path::new(path).extension().and_then(|e| e.to_str()).map(|e| e.to_string())
}

/// Whether `Path::starts_with` holds: `base`'s components are a prefix of `path`'s.
pub uninterp spec fn path_has_prefix(path: Seq<char>, base: Seq<char>) -> bool;

/// `std::path::Path::starts_with`. Claimed: the answer is a function of the two
/// paths alone.
#[verifier::external_body]
pub(crate) fn path_starts_with(path: &str, base: &str) -> (r: bool)
    ensures
        r == path_has_prefix(path@, base@),
{
    std::path::Path::new(path).starts_with(std::path::Path::new(base))
}

// ---------------------------------------------------------------------------
// urlencoding
// ---------------------------------------------------------------------------

/// A byte that `urlencoding::encode` leaves as it is: ASCII letters and digits,
/// `-`, `.`, `_` and `~`.
pub open spec fn unreserved_byte(b: u8) -> bool {
    ||| 0x30 <= b <= 0x39
    ||| 0x41 <= b <= 0x5A
    ||| 0x61 <= b <= 0x7A
    ||| b == 0x2D
    ||| b == 0x2E
    ||| b == 0x5F
    ||| b == 0x7E
}

/// The upper-case hexadecimal digit for `d < 16`.
pub open spec fn hex_upper(d: u8) -> char {
    if d < 10 {
        (d + 0x30) as char
    } else {
        (d - 10 + 0x41) as char
    }
}

/// The text that stands for one byte in a percent-encoded string.
pub open spec fn percent_encode_byte(b: u8) -> Seq<char> {
    if unreserved_byte(b) {
        seq![b as char]
    } else {
        seq!['%', hex_upper(b / 16), hex_upper(b % 16)]
    }
}

/// Percent-encoding of a byte string, byte by byte.
pub open spec fn percent_encode_bytes(bytes: Seq<u8>) -> Seq<char>
    decreases bytes.len(),
{
    if bytes.len() == 0 {
        Seq::<char>::empty()
    } else {
        percent_encode_byte(bytes[0]) + percent_encode_bytes(bytes.drop_first())
    }
}

/// Percent-encoding of the UTF-8 bytes of `s`.
pub open spec fn percent_encoded(s: Seq<char>) -> Seq<char> {
    percent_encode_bytes(encode_utf8(s))
}

/// `urlencoding::encode`: every UTF-8 byte of the input except ASCII letters,
/// digits and `-._~` is written as `%` and two upper-case hex digits.
#[verifier::external_body]
pub(crate) fn url_encode(s: &str) -> (r: String)
    ensures
        r@ == percent_encoded(s@),
{
    urlencoding::encode(s).into_owned()
}

// ---------------------------------------------------------------------------
// url
// ---------------------------------------------------------------------------

/// The text of the URL that `Url::join` builds from the base URL written as
/// `base` and the reference `input`, or `None` where parsing fails.
pub uninterp spec fn joined_url(base: Seq<char>, input: Seq<char>) -> Option<Seq<char>>;

/// `url::Url::join` on the base URL written as `base`. Claimed: the result is a
/// function of the two texts alone.
#[verifier::external_body]
pub(crate) fn url_join(base: &str, input: &str) -> (r: Option<String>)
    ensures
        r.deep_view() == joined_url(base@, input@),
{
    url::Url::parse(base).and_then(|b| b.join(input)).ok().map(|u| u.to_string())
}

// ---------------------------------------------------------------------------
// scraper
// ---------------------------------------------------------------------------

/// For the document `html` and the CSS selector `selector`: `None` where the
/// selector does not parse, else the value of attribute `attr` of each matching
/// element, in document order.
pub uninterp spec fn selected_attrs(
    html: Seq<char>,
    selector: Seq<char>,
    attr: Seq<char>,
) -> Option<Seq<Option<Seq<char>>>>;

/// `scraper::Html::parse_document`, `Selector::parse`, `Html::select` and
/// `Element::attr`: the attribute `attr` of every element of `html` that
/// `selector` matches. Claimed: the result is a function of the three texts alone.
#[verifier::external_body]
pub(crate) fn select_attrs(html: &str, selector: &str, attr: &str) -> (r: Option<Vec<Option<String>>>)
    ensures
        r.deep_view() == selected_attrs(html@, selector@, attr@),
{
    let document = scraper::Html::parse_document(html);
    let selector = scraper::Selector::parse(selector).ok()?;
    Some(document.select(&selector).map(|e| e.value().attr(attr).map(|v| v.to_string())).collect())
}

// ---------------------------------------------------------------------------
// regex
// ---------------------------------------------------------------------------

/// Capture group 1 of the leftmost match of `pattern` in `text`; `None` where
/// the pattern does not compile, nothing matches or the group is not set.
pub uninterp spec fn first_capture(pattern: Seq<char>, text: Seq<char>) -> Option<Seq<char>>;

/// `regex::Regex::new` and `Regex::captures`: group 1 of the first match.
/// Claimed: the result is a function of the two texts alone.
#[verifier::external_body]
pub(crate) fn regex_first_capture(pattern: &str, text: &str) -> (r: Option<String>)
    ensures
        r.deep_view() == first_capture(pattern@, text@),
{
    let re = regex::Regex::new(pattern).ok()?;
    re.captures(text).and_then(|c| c.get(1)).map(|m| m.as_str().to_string())
}

/// Capture group 1 of each successive non-overlapping match of `pattern` in
/// `text`; empty where the pattern does not compile.
pub uninterp spec fn all_captures(pattern: Seq<char>, text: Seq<char>) -> Seq<Option<Seq<char>>>;

/// `regex::Regex::new` and `Regex::captures_iter`: group 1 of every match.
/// Claimed: the result is a function of the two texts alone.
#[verifier::external_body]
pub(crate) fn regex_all_captures(pattern: &str, text: &str) -> (r: Vec<Option<String>>)
    ensures
        r.deep_view() == all_captures(pattern@, text@),
{
    match regex::Regex::new(pattern) {
        Ok(re) => re.captures_iter(text).map(|c| c.get(1).map(|m| m.as_str().to_string())).collect(),
        Err(_) => Vec::new(),
    }
}

} // verus!
