//! What the post-processing of a rendered page decides from the text of
//! its markup.
use crate::pattern::find;
use crate::pattern::regex_find;
use crate::text::split_once;
use crate::text::split_once_at;
use vstd::prelude::*;
use vstd::string::StringExecFns;
use vstd::string::StringSliceAdditionalSpecFns;
use vstd::utf8::decode_utf8;
use vstd::utf8::encode_utf8;

verus! {

/// The language that the class of a code element names: markdown gives a
/// code block of language `L` the class `language-L`, so the language is
/// what follows the first `-`.
pub open spec fn language_of_class(class: Seq<char>) -> Option<Seq<char>> {
    match split_once_at(class, '-') {
        Some((_, language)) => Some(language),
        None => None,
    }
}

/// The language that the class of a code element names, if it names one.
pub fn code_language(class: &str) -> (r: Option<String>)
    ensures
        match r {
            Some(language) => language_of_class(class@) == Some(language@),
            None => language_of_class(class@) is None,
        },
{
    match split_once(class, '-') {
        Some((_, language)) => Some(language),
        None => None,
    }
}

/// The form of the opening tag of the body, with the space that follows it.
pub open spec fn body_open_pattern() -> Seq<char> {
    r"<body[^>]*>\s*"@
}

/// The form of the closing tag of the body, with the space before it.
pub open spec fn body_close_pattern() -> Seq<char> {
    r"\s*</body>"@
}

/// The text that the bytes of `text` from `start` to `end` spell.
pub open spec fn slice_of(text: Seq<char>, start: int, end: int) -> Seq<char> {
    decode_utf8(encode_utf8(text).subrange(start, end))
}

/// Where the content of the body of a document starts and ends, as offsets
/// into the UTF-8 bytes of the document: it starts behind the first opening
/// tag of the body and the space after it, and ends before the space in
/// front of the first closing tag that follows. `None` where one of the two
/// tags is missing.
pub open spec fn body_bounds(html: Seq<char>) -> Option<(int, int)> {
    match regex_find(body_open_pattern(), html) {
        Some((_, start)) => match regex_find(
            body_close_pattern(),
            slice_of(html, start, encode_utf8(html).len() as int),
        ) {
            Some((close, _)) => Some((start, start + close)),
            None => None,
        },
        None => None,
    }
}

/// A document in three parts: what stands before the content of its body,
/// the content, and what stands after it.
pub struct Document {
    pub before: String,
    pub body: String,
    pub after: String,
}

/// Parts `html` around the content of its body; `None` where the document
/// has no body to find.
pub fn split_document(html: &str) -> (r: Option<Document>)
    ensures
        match (r, body_bounds(html@)) {
            (Some(doc), Some((start, end))) => {
                &&& doc.before@ == slice_of(html@, 0, start)
                &&& doc.body@ == slice_of(html@, start, end)
                &&& doc.after@ == slice_of(html@, end, encode_utf8(html@).len() as int)
            },
            (None, None) => true,
            _ => false,
        },
{
    let ghost bytes = html.spec_bytes();
    let start = match find(r"<body[^>]*>\s*", html) {
        Some((_, end)) => end,
        None => {
            return None;
        },
    };
    let (before, rest) = html.split_at(start);
    proof {
        vstd::utf8::encode_utf8_decode_utf8(rest@);
        vstd::utf8::encode_utf8_decode_utf8(before@);
        assert(rest@ == slice_of(html@, start as int, bytes.len() as int));
    }
    let close = match find(r"\s*</body>", rest) {
        Some((close, _)) => close,
        None => {
            return None;
        },
    };
    let (body, after) = rest.split_at(close);
    proof {
        vstd::utf8::encode_utf8_decode_utf8(body@);
        vstd::utf8::encode_utf8_decode_utf8(after@);
        assert(body.spec_bytes() =~= bytes.subrange(start as int, start + close));
        assert(after.spec_bytes() =~= bytes.subrange(start + close, bytes.len() as int));
    }
    Some(Document { before: before.to_owned(), body: body.to_owned(), after: after.to_owned() })
}

/// Puts a document together again, with `body` as the content of its body.
pub fn rejoin(before: &str, body: &str, after: &str) -> (html: String)
    ensures
        html@ == before@ + body@ + after@,
{
    let mut html = before.to_owned();
    html.append(body);
    html.append(after);
    html
}

} // verus!
