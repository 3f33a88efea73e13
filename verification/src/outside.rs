//! Calls that leave the crate: base64, Unicode tables, the clock, random tokens.

use base64::Engine;
use fuzzy_matcher::FuzzyMatcher;
use unicode_normalization::UnicodeNormalization;
use vstd::prelude::*;

verus! {

/// The standard base64 text of some bytes.
pub uninterp spec fn base64_of(bytes: Seq<u8>) -> Seq<char>;

/// What decoding a text as standard base64 gives: the bytes, or the text of the
/// error.
pub uninterp spec fn base64_decoding(text: Seq<char>) -> Result<Seq<u8>, Seq<char>>;

/// `Engine::encode` of the standard engine (padded, standard alphabet). Decoding
/// its result gives the bytes back.
#[verifier::external_body]
pub(crate) fn base64_encode(bytes: &[u8]) -> (text: String)
    ensures
        text@ == base64_of(bytes@),
        base64_decoding(text@) is Ok,
        base64_decoding(text@)->Ok_0 == bytes@,
{
    base64::engine::general_purpose::STANDARD.encode(bytes)
}

/// `Engine::decode` of the standard engine (padded, standard alphabet).
#[verifier::external_body]
pub(crate) fn base64_decode(text: &str) -> (decoded: Result<Vec<u8>, String>)
    ensures
        decoded is Ok <==> base64_decoding(text@) is Ok,
        decoded matches Ok(bytes) ==> bytes@ == base64_decoding(text@)->Ok_0,
        decoded matches Err(error) ==> error@ == base64_decoding(text@)->Err_0,
{
    base64::engine::general_purpose::STANDARD.decode(text).map_err(|e| e.to_string())
}

/// What decoding a compressed image gives, no side longer than `max_side` and no
/// more than `max_alloc` bytes in use: its pixels as RGBA bytes with its width and
/// height; or whether the format was recognised at all, and the text of the error.
pub uninterp spec fn decoded_image(data: Seq<u8>, max_side: u32, max_alloc: u64) -> Result<
    (Seq<u8>, u32, u32),
    (bool, Seq<char>),
>;

/// `ImageReader::decode` on bytes whose format was guessed, under the given limits,
/// then `DynamicImage::to_rgba8`. No decoder but those of the crate itself is
/// registered. There are four bytes to a pixel.
#[verifier::external_body]
pub(crate) fn decode_image(data: Vec<u8>, max_side: u32, max_alloc: u64) -> (decoded: Result<
    (Vec<u8>, u32, u32),
    (bool, String),
>)
    ensures
        decoded is Ok <==> decoded_image(data@, max_side, max_alloc) is Ok,
        decoded matches Ok(image) ==> (image.0@, image.1, image.2) == decoded_image(
            data@,
            max_side,
            max_alloc,
        )->Ok_0,
        decoded matches Ok(image) ==> image.0@.len() == image.1 * image.2 * 4,
        decoded matches Err(error) ==> (error.0, error.1@) == decoded_image(
            data@,
            max_side,
            max_alloc,
        )->Err_0,
{
    let source = std::io::Cursor::new(data);
    let guess = image::ImageReader::new(source).with_guessed_format();
    let mut reader = guess.map_err(|e| (false, e.to_string()))?;
    let mut limits = image::Limits::default();
    limits.max_image_width = Some(max_side);
    limits.max_image_height = Some(max_side);
    limits.max_alloc = Some(max_alloc);
    reader.limits(limits);
    let image = reader.decode().map_err(|e| (true, e.to_string()))?;
    Ok((image.to_rgba8().into_raw(), image.width(), image.height()))
}

/// The NFC form (canonical composition) of a text.
pub uninterp spec fn nfc_of(text: Seq<char>) -> Seq<char>;

/// `UnicodeNormalization::nfc`: the text in normalization form C.
#[verifier::external_body]
pub(crate) fn nfc(text: &str) -> (composed: String)
    ensures
        composed@ == nfc_of(text@),
{
    text.nfc().collect()
}

/// Whether Unicode counts a character as a letter or a number.
pub uninterp spec fn unicode_alphanumeric(c: char) -> bool;

/// `char::is_alphanumeric`: of the ASCII characters, the letters and digits.
#[verifier::external_body]
pub(crate) fn is_alphanumeric(c: char) -> (v: bool)
    ensures
        v == unicode_alphanumeric(c),
        (c as u32) < 128 ==> v == ('0' <= c <= '9' || 'a' <= c <= 'z' || 'A' <= c <= 'Z'),
{
    c.is_alphanumeric()
}

/// How well a query matches a text, if it does.
pub uninterp spec fn fuzzy_score(text: Seq<char>, query: Seq<char>) -> Option<i64>;

/// `SkimMatcherV2::fuzzy_match` of the default matcher.
#[verifier::external_body]
pub(crate) fn fuzzy_match(text: &str, query: &str) -> (score: Option<i64>)
    ensures
        score == fuzzy_score(text@, query@),
{
    fuzzy_matcher::skim::SkimMatcherV2::default().fuzzy_match(text, query)
}

/// The lower-case form of a text.
pub uninterp spec fn lowercase_of(text: Seq<char>) -> Seq<char>;

/// `str::to_lowercase`.
#[verifier::external_body]
pub(crate) fn lowercase(text: &str) -> (lower: String)
    ensures
        lower@ == lowercase_of(text@),
{
    text.to_lowercase()
}

/// The first character of a character's lower-case form.
pub uninterp spec fn lower_char(c: char) -> char;

/// `char::to_lowercase`, which gives at least one character: the first. Of the ASCII
/// characters, only the capital letters change.
#[verifier::external_body]
pub(crate) fn lowercase_char(c: char) -> (lower: char)
    ensures
        lower == lower_char(c),
        (c as u32) < 128 ==> lower as u32 == (if 'A' <= c <= 'Z' {
            c as u32 + 32
        } else {
            c as int
        }),
{
    c.to_lowercase().next().unwrap_or(c)
}

/// The first character of a character's upper-case form.
pub uninterp spec fn upper_char(c: char) -> char;

/// `char::to_uppercase`, which gives at least one character: the first. Of the ASCII
/// characters, only the small letters change.
#[verifier::external_body]
pub(crate) fn uppercase_char(c: char) -> (upper: char)
    ensures
        upper == upper_char(c),
        (c as u32) < 128 ==> upper as u32 == (if 'a' <= c <= 'z' {
            c as u32 - 32
        } else {
            c as int
        }),
{
    c.to_uppercase().next().unwrap_or(c)
}

/// The matches of a regular expression in a text, from left to right and without
/// overlap: what stands before each, and what it is. Or the text of the error in
/// the expression.
pub uninterp spec fn regex_matches(
    pattern: Seq<char>,
    case_insensitive: bool,
    multi_line: bool,
    text: Seq<char>,
) -> Result<Seq<(Seq<char>, Seq<char>)>, Seq<char>>;

/// `RegexBuilder::build` and `Regex::find_iter`. A match lies in the text: what
/// stands before it and the match itself start the text. It ends before the next.
#[verifier::external_body]
pub(crate) fn find_matches(pattern: &str, case_insensitive: bool, multi_line: bool, text: &str) -> (found:
    Result<Vec<(String, String)>, String>)
    ensures
        found is Ok <==> regex_matches(pattern@, case_insensitive, multi_line, text@) is Ok,
        found matches Ok(all) ==> match_texts(all@) == regex_matches(
            pattern@,
            case_insensitive,
            multi_line,
            text@,
        )->Ok_0,
        found matches Ok(all) ==> forall|i: int|
            0 <= i < all@.len() ==> (#[trigger] all@[i].0@ + all@[i].1@).is_prefix_of(text@),
        found matches Ok(all) ==> forall|i: int, j: int|
            0 <= i < j < all@.len() ==> #[trigger] all@[i].0@.len() + all@[i].1@.len()
                <= #[trigger] all@[j].0@.len(),
        found matches Err(error) ==> error@ == regex_matches(
            pattern@,
            case_insensitive,
            multi_line,
            text@,
        )->Err_0,
{
    let mut builder = regex::RegexBuilder::new(pattern);
    builder.case_insensitive(case_insensitive).multi_line(multi_line);
    let regex = builder.build().map_err(|e| e.to_string())?;
    let matches = regex.find_iter(text);
    Ok(matches.map(|m| (text[..m.start()].to_string(), m.as_str().to_string())).collect())
}

/// What some matches are, as text.
pub open spec fn match_texts(found: Seq<(String, String)>) -> Seq<(Seq<char>, Seq<char>)> {
    Seq::new(found.len(), |i: int| (found[i].0@, found[i].1@))
}

/// A text with matches of a regular expression replaced, at most `limit` of them, or
/// all where `limit` is zero. Or the text of the error in the expression.
pub uninterp spec fn regex_replaced(
    pattern: Seq<char>,
    case_insensitive: bool,
    multi_line: bool,
    text: Seq<char>,
    limit: usize,
    replacement: Seq<char>,
) -> Result<Seq<char>, Seq<char>>;

/// `RegexBuilder::build` and `Regex::replacen`, with references to groups in the
/// replacement expanded.
#[verifier::external_body]
pub(crate) fn replace_matches(
    pattern: &str,
    case_insensitive: bool,
    multi_line: bool,
    text: &str,
    limit: usize,
    replacement: &str,
) -> (replaced: Result<String, String>)
    ensures
        replaced is Ok <==> regex_replaced(
            pattern@,
            case_insensitive,
            multi_line,
            text@,
            limit,
            replacement@,
        ) is Ok,
        replaced matches Ok(result) ==> result@ == regex_replaced(
            pattern@,
            case_insensitive,
            multi_line,
            text@,
            limit,
            replacement@,
        )->Ok_0,
        replaced matches Err(error) ==> error@ == regex_replaced(
            pattern@,
            case_insensitive,
            multi_line,
            text@,
            limit,
            replacement@,
        )->Err_0,
{
    let mut builder = regex::RegexBuilder::new(pattern);
    builder.case_insensitive(case_insensitive).multi_line(multi_line);
    let regex = builder.build().map_err(|e| e.to_string())?;
    Ok(regex.replacen(text, limit, replacement).to_string())
}

/// The characters that mean something else than themselves in a regular expression.
pub open spec fn is_meta(c: char) -> bool {
    c == '\\' || c == '.' || c == '+' || c == '*' || c == '?' || c == '(' || c == ')' || c == '|'
        || c == '[' || c == ']' || c == '{' || c == '}' || c == '^' || c == '$' || c == '#' || c
        == '&' || c == '-' || c == '~'
}

/// A text as a regular expression that matches it: a backslash before each character that
/// would mean something else.
pub open spec fn regex_escaped(text: Seq<char>) -> Seq<char>
    decreases text.len(),
{
    if text.len() == 0 {
        text
    } else {
        let rest = regex_escaped(text.drop_last());
        if is_meta(text.last()) {
            rest.push('\\').push(text.last())
        } else {
            rest.push(text.last())
        }
    }
}

/// `regex::escape`: the text with a backslash before each of the characters of
/// `regex_syntax::is_meta_character`.
#[verifier::external_body]
pub(crate) fn escape_pattern(text: &str) -> (pattern: String)
    ensures
        pattern@ == regex_escaped(text@),
{
    regex::escape(text)
}

/// A point in time of the monotonic clock.
#[verifier::external_type_specification]
#[verifier::external_body]
pub struct ExInstant(std::time::Instant);

/// `Instant::now`: nothing can be said of what it returns.
#[verifier::external_body]
pub(crate) fn now() -> (t: std::time::Instant) {
    std::time::Instant::now()
}

/// `Instant::elapsed`, in nanoseconds: nothing can be said of what it returns.
#[verifier::external_body]
pub(crate) fn nanos_since(start: &std::time::Instant) -> (nanos: u128) {
    start.elapsed().as_nanos()
}

pub open spec fn is_lower_hex(c: char) -> bool {
    '0' <= c <= '9' || 'a' <= c <= 'f'
}

/// The text of a random UUID: groups of 8, 4, 4, 4 and 12 digits, with the version at the
/// head of the third group and the variant at the head of the fourth.
pub open spec fn is_token(text: Seq<char>) -> bool {
    &&& text.len() == 36
    &&& forall|i: int| 0 <= i < 36 ==> if i == 8 || i == 13 || i == 18 || i == 23 {
        #[trigger] text[i] == '-'
    } else {
        is_lower_hex(text[i])
    }
    &&& text[14] == '4'
    &&& text[19] == '8' || text[19] == '9' || text[19] == 'a' || text[19] == 'b'
}

/// `Uuid::new_v4`, as text: a random UUID of version 4 in lower-case digits, with hyphens.
/// Which one it is rests on chance, and is not said.
#[verifier::external_body]
pub(crate) fn random_token() -> (token: String)
    ensures
        is_token(token@),
{
    uuid::Uuid::new_v4().to_string()
}

} // verus!
