//! The response side: cutting the raw text of a response into head and
//! body, and rendering the body for display.

use crate::json::{
    document_content, document_to_pretty_string, parse_document, parsed_json, pretty_json,
};
use crate::text::{chars_of, find_pattern, first_match, lemma_first_match_from, matches_at};
use vstd::prelude::*;
use vstd::string::StrSliceExecFns;

verus! {

/// The blank line that ends the head of a message: two line ends in a row.
pub open spec fn separator() -> Seq<char> {
    seq!['\r', '\n', '\r', '\n']
}

/// Head and body of a raw response: what lies before and after the first
/// separator. Without a separator all of it is head, and the body is empty.
pub open spec fn split_at_blank_line(raw: Seq<char>) -> (Seq<char>, Seq<char>) {
    match first_match(raw, separator()) {
        Some(i) => (raw.take(i), raw.skip(i + 4)),
        None => (raw, Seq::empty()),
    }
}

/// What is shown for a body, given what the JSON parser and printer made of
/// it: the indented form where there is one, the body itself otherwise.
pub open spec fn display_text(body: Seq<char>, pretty: Option<Seq<char>>) -> Seq<char> {
    match pretty {
        Some(text) => text,
        None => body,
    }
}

/// The indented form of a body that is a JSON document; `None` for any
/// other body.
pub open spec fn pretty_form(body: Seq<char>) -> Option<Seq<char>> {
    match parsed_json(body) {
        Some(content) => pretty_json(content),
        None => None,
    }
}

/// What is shown for a body: its indented form if it is a JSON document,
/// else the body as it is.
pub open spec fn rendered(body: Seq<char>) -> Seq<char> {
    display_text(body, pretty_form(body))
}

/// A response, cut into the text of its head and the text of its body.
pub struct RawResponse {
    head: String,
    body: String,
}

/// A response as a mathematical value.
pub struct ResponseView {
    pub head: Seq<char>,
    pub body: Seq<char>,
}

impl View for RawResponse {
    type V = ResponseView;

    closed spec fn view(&self) -> ResponseView {
        ResponseView { head: self.head@, body: self.body@ }
    }
}

impl RawResponse {
    #[verifier::type_invariant]
    spec fn is_valid(self) -> bool {
        first_match(self.head@, separator()) is None
    }

    /// Cuts a raw response at its first blank line.
    pub fn split(raw: &str) -> (response: RawResponse)
        ensures
            (response@.head, response@.body) == split_at_blank_line(raw@),
            first_match(response@.head, separator()) is None,
    {
        let chars = chars_of(raw);
        let pattern: Vec<char> = vec!['\r', '\n', '\r', '\n'];
        assert(pattern@ =~= separator());
        proof {
            lemma_head_has_no_separator(raw@);
        }
        match find_pattern(&chars, &pattern) {
            Some(i) => {
                proof {
                    lemma_first_match_from(raw@, separator(), 0);
                    assert(separator().len() == 4);
                    assert(raw@.len() == chars.len());
                }
                let head = raw.substring_char(0, i).to_owned();
                let body = raw.substring_char(i + 4, chars.len()).to_owned();
                RawResponse { head, body }
            },
            None => RawResponse { head: raw.to_owned(), body: String::new() },
        }
    }

    /// The text before the first blank line; it holds no blank line itself.
    pub fn head(&self) -> (text: &str)
        ensures
            text@ == self@.head,
            first_match(text@, separator()) is None,
    {
        proof {
            use_type_invariant(self);
        }
        self.head.as_str()
    }

    /// The text after the first blank line.
    pub fn body(&self) -> (text: &str)
        ensures
            text@ == self@.body,
    {
        self.body.as_str()
    }
}

/// The head of a split holds no separator, and head, separator and body
/// together are the raw text again.
pub proof fn lemma_head_has_no_separator(raw: Seq<char>)
    ensures
        first_match(split_at_blank_line(raw).0, separator()) is None,
        match first_match(raw, separator()) {
            Some(_) => raw == split_at_blank_line(raw).0 + separator() + split_at_blank_line(raw).1,
            None => raw == split_at_blank_line(raw).0 && split_at_blank_line(raw).1.len() == 0,
        },
{
    let head = split_at_blank_line(raw).0;
    lemma_first_match_from(raw, separator(), 0);
    lemma_first_match_from(head, separator(), 0);
    match first_match(raw, separator()) {
        Some(i) => {
            assert(raw.subrange(i, i + 4) == separator());
            assert(raw =~= raw.take(i) + raw.subrange(i, i + 4) + raw.skip(i + 4));
            if let Some(j) = first_match(head, separator()) {
                assert(matches_at(head, separator(), j));
                assert(raw.subrange(j, j + 4) =~= head.subrange(j, j + 4));
                assert(matches_at(raw, separator(), j));
            }
        },
        None => {},
    }
}

/// What to show for a body, given its indented form where it has one.
pub fn display(body: &str, pretty: Option<String>) -> (shown: String)
    ensures
        shown@ == display_text(
            body@,
            match pretty {
                Some(text) => Some(text@),
                None => None,
            },
        ),
{
    match pretty {
        Some(text) => text,
        None => body.to_owned(),
    }
}

/// What to show for a body, once the JSON parser has been asked: the
/// indented form of the document, or the body as it is where the parser
/// rejected it or the printer failed.
pub fn render_parsed(body: &str, parsed: Result<serde_json::Value, serde_json::Error>) -> (shown:
    String)
    ensures
        shown@ == display_text(
            body@,
            match parsed {
                Ok(document) => pretty_json(document_content(document)),
                Err(_) => None,
            },
        ),
{
    let pretty = match parsed {
        Ok(document) => match document_to_pretty_string(&document) {
            Ok(text) => Some(text),
            Err(_) => None,
        },
        Err(_) => None,
    };
    display(body, pretty)
}

/// Renders a response body for display: a JSON document is printed with
/// indentation, anything else is returned as it is, white space included.
pub fn render_body(body: &str) -> (shown: String)
    ensures
        shown@ == rendered(body@),
{
    render_parsed(body, parse_document(body))
}

} // verus!
