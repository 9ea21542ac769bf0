//! What the library takes from std and from other crates without proof: one item per outside
//! function, each with the contract that the rest of the library relies on.
use crate::model::{view_option, EpgChannel};
use crate::xml::{attribute_views, RawAttribute, ReadEvent, SpecAttribute, SpecEvent};
use quick_xml::events::attributes::Attribute;
use quick_xml::events::{BytesStart, Event};
use quick_xml::name::QName;
use quick_xml::reader::Reader;
use regex::Regex;
use rphonetic::{Encoder, Metaphone};
use std::borrow::Cow;
use std::sync::Arc;
use url::Url;
use vstd::prelude::*;
use vstd::utf8::{decode_utf8, is_ascii_chars, valid_utf8};

verus! {

/// Whether an ASCII character is white space: a space, or one from the tab to the carriage return.
pub open spec fn ascii_whitespace(c: char) -> bool {
    c == ' ' || '\t' <= c <= '\r'
}

/// Whether `c` has the Unicode property `White_Space`, as `char::is_whitespace` answers it.
pub uninterp spec fn char_is_whitespace(c: char) -> bool;

/// `char::is_whitespace` answers by the Unicode property `White_Space`. Which characters have it is
/// stated for ASCII; beyond that the answer is only named.
pub assume_specification[ char::is_whitespace ](c: char) -> (b: bool)
    ensures
        b == (if c <= '\x7f' {
            ascii_whitespace(c)
        } else {
            char_is_whitespace(c)
        }),
;

/// Whether a character is white space.
pub open spec fn whitespace(c: char) -> bool {
    if c <= '\x7f' {
        ascii_whitespace(c)
    } else {
        char_is_whitespace(c)
    }
}

/// Whether an ASCII character is a letter or a digit.
pub open spec fn ascii_alphanumeric(c: char) -> bool {
    '0' <= c <= '9' || 'A' <= c <= 'Z' || 'a' <= c <= 'z'
}

/// Whether `c` is a letter or a number in the sense of Unicode, as `char::is_alphanumeric`
/// answers it.
pub uninterp spec fn char_is_alphanumeric(c: char) -> bool;

/// `char::is_alphanumeric` answers by the Unicode properties of letters and numbers. Which
/// characters have them is stated for ASCII; beyond that the answer is only named.
pub assume_specification[ char::is_alphanumeric ](c: char) -> (b: bool)
    ensures
        b == (if c <= '\x7f' {
            ascii_alphanumeric(c)
        } else {
            char_is_alphanumeric(c)
        }),
;

/// Whether a character is a letter or a number.
pub open spec fn alphanumeric(c: char) -> bool {
    if c <= '\x7f' {
        ascii_alphanumeric(c)
    } else {
        char_is_alphanumeric(c)
    }
}

/// `String::push` appends one character.
pub assume_specification[ String::push ](s: &mut String, c: char)
    ensures
        final(s)@ == old(s)@.push(c),
;

/// The lower case of an ASCII character.
pub open spec fn ascii_lower(c: char) -> char {
    if 'A' <= c <= 'Z' {
        (c as int + 0x20) as char
    } else {
        c
    }
}

/// The lowercase equivalent of a text, as `str::to_lowercase` gives it.
pub uninterp spec fn lowercase(text: Seq<char>) -> Seq<char>;

/// `str::to_lowercase` depends on the text alone and not on a locale. Of a text in ASCII it lowers
/// the letters from A to Z; what it does to other characters is only named. Every character has a
/// lower case of at least one character, so that nothing vanishes.
pub assume_specification[ str::to_lowercase ](s: &str) -> (r: String)
    ensures
        r@ == (if is_ascii_chars(s@) {
            s@.map_values(|c: char| ascii_lower(c))
        } else {
            lowercase(s@)
        }),
        s@.len() > 0 ==> r@.len() > 0,
;

/// A text in lower case.
pub open spec fn lowered(text: Seq<char>) -> Seq<char> {
    if is_ascii_chars(text) {
        text.map_values(|c: char| ascii_lower(c))
    } else {
        lowercase(text)
    }
}

/// The text that `String::from_utf8_lossy` reads out of bytes of any kind.
pub uninterp spec fn utf8_lossy(bytes: Seq<u8>) -> Seq<char>;

/// `String::from_utf8_lossy` decodes UTF-8 and puts U+FFFD in the place of what is not UTF-8.
/// Valid UTF-8 comes out as it is; which characters stand for invalid bytes is only named.
#[verifier::external_body]
pub(crate) fn text_lossy(bytes: &[u8]) -> (r: String)
    ensures
        r@ == (if valid_utf8(bytes@) {
            decode_utf8(bytes@)
        } else {
            utf8_lossy(bytes@)
        }),
{
    String::from_utf8_lossy(bytes).into_owned()
}

/// The text in bytes that may not be UTF-8.
pub open spec fn lossy_text(bytes: Seq<u8>) -> Seq<char> {
    if valid_utf8(bytes) {
        decode_utf8(bytes)
    } else {
        utf8_lossy(bytes)
    }
}

/// `quick_xml`'s `Decoder::decode`, which is what `BytesText::decode` runs on the bytes of a text
/// event. Without the `encoding` feature it accepts valid UTF-8 and nothing else.
#[verifier::external_body]
pub(crate) fn decode_text(bytes: &[u8]) -> (r: Option<String>)
    ensures
        match r {
            Some(text) => valid_utf8(bytes@) && text@ == decode_utf8(bytes@),
            None => !valid_utf8(bytes@),
        },
{
    Reader::from_reader(bytes).decoder().decode(bytes).ok().map(Cow::into_owned)
}

/// What `quick_xml`'s `Attribute::unescape_value` makes of the raw value of an attribute.
pub uninterp spec fn unescaped_value(raw: Seq<u8>) -> Option<Seq<char>>;

/// `Attribute::unescape_value` decodes the raw value as UTF-8 and resolves character references
/// and the predefined entities. It fails on invalid UTF-8, and a value without `&` holds nothing
/// to resolve. What it does to a reference is only named.
#[verifier::external_body]
pub(crate) fn unescape_value(raw: &[u8]) -> (r: Option<String>)
    ensures
        view_option(r) == (if !valid_utf8(raw@) {
            None
        } else if !raw@.contains(0x26u8) {
            Some(decode_utf8(raw@))
        } else {
            unescaped_value(raw@)
        }),
{
    let attribute = Attribute { key: QName(b""), value: Cow::Borrowed(raw) };
    attribute.unescape_value().ok().map(Cow::into_owned)
}

/// The text of the raw value of an attribute.
pub open spec fn attribute_text(raw: Seq<u8>) -> Option<Seq<char>> {
    if !valid_utf8(raw) {
        None
    } else if !raw.contains(0x26u8) {
        Some(decode_utf8(raw))
    } else {
        unescaped_value(raw)
    }
}

/// The event reader of `quick_xml`.
#[verifier::external_type_specification]
#[verifier::external_body]
#[verifier::reject_recursive_types(R)]
pub struct ExReader<R>(Reader<R>);

/// The events that `quick_xml` reads out of a document, up to the end of it, errors among them.
pub uninterp spec fn document_events(content: Seq<u8>) -> Seq<SpecEvent>;

/// The events that a reader over bytes in memory still holds.
pub uninterp spec fn events_left(reader: Reader<&[u8]>) -> Seq<SpecEvent>;

/// `Reader::from_reader` on bytes in memory, with the default configuration: the reader holds the
/// events of the whole document.
#[verifier::external_body]
pub(crate) fn open_document<'a>(content: &'a [u8]) -> (reader: Reader<&'a [u8]>)
    ensures
        events_left(reader) == document_events(content@),
{
    Reader::from_reader(content)
}

/// `Reader::read_event` hands out the first of the events that the reader holds, or reports the
/// end of the document when it holds none. Every event but the end takes bytes from the document
/// or puts the reader at the end, so the events run out.
#[verifier::external_body]
pub(crate) fn next_event<'a>(reader: &mut Reader<&'a [u8]>) -> (event: Option<ReadEvent<'a>>)
    ensures
        match event {
            Some(e) => {
                &&& events_left(*old(reader)).len() > 0
                &&& e@ == events_left(*old(reader))[0]
                &&& events_left(*final(reader)) == events_left(*old(reader)).drop_first()
            },
            None => events_left(*old(reader)).len() == 0 && events_left(*final(reader)).len() == 0,
        },
{
    let Ok(event) = reader.read_event() else { return Some(ReadEvent::Error) };
    Some(match event {
        Event::Eof => return None,
        Event::Start(tag) => ReadEvent::Start(tag),
        Event::Empty(tag) => ReadEvent::Empty(tag),
        Event::End(_) => ReadEvent::End,
        Event::Text(text) => ReadEvent::Text(text.to_vec()),
        Event::CData(_) => ReadEvent::CData,
        Event::Comment(_) => ReadEvent::Comment,
        Event::Decl(_) => ReadEvent::Decl,
        Event::PI(_) => ReadEvent::Instruction,
        Event::DocType(_) => ReadEvent::DocType,
        Event::GeneralRef(_) => ReadEvent::Reference,
    })
}

/// A start tag of `quick_xml`, which holds a name and attributes.
#[verifier::external_type_specification]
#[verifier::external_body]
pub struct ExBytesStart<'a>(BytesStart<'a>);

/// The undecoded name in a start tag.
pub uninterp spec fn start_tag_name(tag: BytesStart) -> Seq<u8>;

/// `BytesStart::name` gives the undecoded name in a start tag.
#[verifier::external_body]
pub(crate) fn start_name(tag: &BytesStart) -> (name: Vec<u8>)
    ensures
        name@ == start_tag_name(*tag),
{
    tag.name().0.to_vec()
}

/// The attributes in a start tag, in the order of the document: undecoded, their values still
/// escaped. `None` stands for one that is not well-formed.
pub uninterp spec fn start_tag_attributes(tag: BytesStart) -> Seq<Option<SpecAttribute>>;

/// `BytesStart::attributes` goes through the attributes in a start tag. One that is not well-formed
/// comes out as an error.
#[verifier::external_body]
pub(crate) fn start_attributes(tag: &BytesStart) -> (attributes: Vec<Option<RawAttribute>>)
    ensures
        attribute_views(attributes@) == start_tag_attributes(*tag),
{
    let plain = |a: Attribute| RawAttribute { key: a.key.0.to_vec(), value: a.value.to_vec() };
    tag.attributes().map(|attribute| attribute.ok().map(plain)).collect()
}

/// `Arc::try_unwrap`, which gives the channel if nobody else holds it. Whether somebody does is not
/// stated: it is not in the arguments.
#[verifier::external_body]
pub(crate) fn take_channel(channel: Arc<EpgChannel>) -> (taken: Option<EpgChannel>)
    ensures
        taken is Some ==> taken->0 == *channel,
{
    Arc::try_unwrap(channel).ok()
}

/// The Jaro-Winkler similarity of two texts, as the bits of the double that `strsim` computes.
pub uninterp spec fn jaro_winkler_bits(a: Seq<char>, b: Seq<char>) -> u64;

/// `strsim::jaro_winkler` compares the characters of two texts; the similarity is handed on as
/// the bits of its IEEE 754 representation.
#[verifier::external_body]
pub(crate) fn jaro_winkler(a: &str, b: &str) -> (bits: u64)
    ensures
        bits == jaro_winkler_bits(a@, b@),
{
    strsim::jaro_winkler(a, b).to_bits()
}

/// The Metaphone code of an ASCII text, at most four characters long.
pub uninterp spec fn metaphone_code(text: Seq<char>) -> Seq<char>;

/// `rphonetic`'s `Metaphone::encode` with the default code length. On a text that is not ASCII it
/// may index into the middle of a character and panic.
#[verifier::external_body]
pub(crate) fn metaphone(text: &str) -> (code: String)
    requires
        is_ascii_chars(text@),
    ensures
        code@ == metaphone_code(text@),
{
    Metaphone::default().encode(text)
}

/// Whether a text is made of the ASCII characters before the last one, which is the control
/// character for deletion.
pub open spec fn all_below_delete(text: Seq<char>) -> bool {
    forall|i: int| 0 <= i < text.len() ==> text[i] <= '~'
}

/// The ASCII transliteration of a text that `deunicode` gives.
pub uninterp spec fn transliterated(text: Seq<char>) -> Seq<char>;

/// `deunicode::deunicode` puts ASCII in the place of every other character and leaves what is
/// ASCII as it is. Which ASCII stands for another character is only named.
#[verifier::external_body]
pub(crate) fn deunicode_string(text: &str) -> (r: String)
    ensures
        r@ == (if all_below_delete(text@) {
            text@
        } else {
            transliterated(text@)
        }),
        is_ascii_chars(r@),
{
    deunicode::deunicode(text)
}

/// A text in ASCII.
pub open spec fn in_ascii(text: Seq<char>) -> Seq<char> {
    if all_below_delete(text) {
        text
    } else {
        transliterated(text)
    }
}

/// Whether `regex` compiles a pattern.
pub uninterp spec fn regex_is_valid(pattern: Seq<char>) -> bool;

/// `Regex::new` accepts the patterns of the syntax that the crate documents.
#[verifier::external_body]
pub(crate) fn regex_compiles(pattern: &str) -> (b: bool)
    ensures
        b == regex_is_valid(pattern@),
{
    Regex::new(pattern).is_ok()
}

/// A text with a replacement in the place of each part that a pattern matches.
pub uninterp spec fn regex_replaced(
    pattern: Seq<char>,
    text: Seq<char>,
    replacement: Seq<char>,
) -> Seq<char>;

/// `Regex::replace_all`: every match of the pattern gives way to the replacement. With an empty
/// replacement, all that is left is characters of the text.
#[verifier::external_body]
pub(crate) fn regex_replace_all(pattern: &str, text: &str, replacement: &str) -> (r: String)
    requires
        regex_is_valid(pattern@),
    ensures
        r@ == regex_replaced(pattern@, text@, replacement@),
        replacement@.len() == 0 ==> forall|c: char| r@.contains(c) ==> text@.contains(c),
{
    Regex::new(pattern).unwrap().replace_all(text, replacement).into_owned()
}

/// The second since the Unix epoch that a text denotes when it is read by a format of `chrono`.
pub uninterp spec fn parsed_seconds(text: Seq<char>, format: Seq<char>) -> Option<i64>;

/// `chrono`'s `DateTime::parse_from_str`, and the timestamp of what it read. It fails on a text
/// that does not fit the format, and on a format that is none.
#[verifier::external_body]
pub(crate) fn parse_timestamp(text: &str, format: &str) -> (r: Option<i64>)
    ensures
        r == parsed_seconds(text@, format@),
{
    chrono::DateTime::parse_from_str(text, format).ok().map(|time| time.timestamp())
}

/// The scheme of an absolute URL, or `None` for a text that is none.
pub uninterp spec fn url_scheme(text: Seq<char>) -> Option<Seq<char>>;

/// `Url::parse`, and the `scheme` of the URL that it read.
#[verifier::external_body]
pub(crate) fn parse_url_scheme(text: &str) -> (r: Option<String>)
    ensures
        match r {
            Some(scheme) => url_scheme(text@) == Some(scheme@),
            None => url_scheme(text@) is None,
        },
{
    Url::parse(text).ok().map(|url| url.scheme().to_string())
}

} // verus!
