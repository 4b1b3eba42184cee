//! The token source: the lexical tokens the deserializer consumes, and
//! the trusted bridge that obtains them from the XML tokenizer.
//!
//! Text carried by a token is still entity-encoded; decoding is the
//! adapters' business. The deserializer can also be driven from a token
//! vector built by hand, which is how its logic is exercised directly.

use vstd::prelude::*;
use crate::Error;

verus! {

/// One lexical token of a document, in document order.
#[derive(Debug)]
pub enum XmlToken {
    /// `<prefix:local`, a start tag up to its name; attributes and the
    /// tag's end follow as their own tokens.
    ElemStart { prefix: String, local: String },
    /// One attribute inside a start tag; the value is raw.
    Attr { prefix: String, local: String, value: String },
    /// The `>` that ends a start tag; children follow.
    StartClose,
    /// The `/>` that ends a self-closing element.
    StartCloseEmpty,
    /// `</prefix:local>`.
    ElemClose { prefix: String, local: String },
    /// Text between tags; raw.
    Text { raw: String },
    /// A CDATA section; the deserializer does not support these.
    Cdata { raw: String },
    /// A declaration, processing instruction, comment or DTD part; the
    /// deserializer skips these.
    Misc,
}

/// Declares the tokenizer's token type so the bridge below can take it.
#[verifier::external_type_specification]
#[verifier::external_body]
pub struct ExToken<'a>(xmlparser::Token<'a>);

/// Declares the tokenizer's tag-end type so the bridge below can take it.
#[verifier::external_type_specification]
#[verifier::external_body]
pub struct ExElementEnd<'a>(xmlparser::ElementEnd<'a>);

/// Relies on xmlparser::ElementEnd: one arm per way a tag ends, moving
/// the close tag's names out as owned strings.
#[verifier::external_body]
fn lower_end(e: xmlparser::ElementEnd<'_>) -> XmlToken {
    match e {
        xmlparser::ElementEnd::Open => XmlToken::StartClose,
        xmlparser::ElementEnd::Empty => XmlToken::StartCloseEmpty,
        xmlparser::ElementEnd::Close(prefix, local) => XmlToken::ElemClose { prefix: prefix.as_str().to_owned(), local: local.as_str().to_owned() },
    }
}

/// Relies on xmlparser::Token: one arm per lexical token variant, moving
/// its text out as owned strings; the variants the deserializer never
/// reads all map to `XmlToken::Misc`.
#[verifier::external_body]
fn lower_token(t: xmlparser::Token<'_>) -> XmlToken {
    match t {
        xmlparser::Token::ElementStart { prefix, local, .. } => XmlToken::ElemStart { prefix: prefix.as_str().to_owned(), local: local.as_str().to_owned() },
        xmlparser::Token::Attribute { prefix, local, value, .. } => XmlToken::Attr { prefix: prefix.as_str().to_owned(), local: local.as_str().to_owned(), value: value.as_str().to_owned() },
        xmlparser::Token::ElementEnd { end, .. } => lower_end(end),
        xmlparser::Token::Text { text } => XmlToken::Text { raw: text.as_str().to_owned() },
        xmlparser::Token::Cdata { text, .. } => XmlToken::Cdata { raw: text.as_str().to_owned() },
        _ => XmlToken::Misc,
    }
}

/// What the token source yields for a document: its tokens in document
/// order, or nothing when the document is lexically broken. The result
/// depends on the input characters alone.
pub uninterp spec fn tokens_of(s: Seq<char>) -> Option<Seq<XmlToken>>;

/// Relies on xmlparser::Tokenizer: lexes a whole document into its
/// tokens, in document order; a lexical error maps to `Error::Parse`.
/// The tokenizer reads nothing but the input, so its outcome is the
/// named function of the input characters.
#[verifier::external_body]
pub fn tokenize(input: &str) -> (r: Result<Vec<XmlToken>, Error>)
    ensures
        match tokens_of(input@) {
            Some(ts) => r matches Ok(v) && v@ == ts,
            None => r == Err::<Vec<XmlToken>, Error>(Error::Parse),
        },
{
    let mut out = Vec::new();
    for t in xmlparser::Tokenizer::from(input) {
        match t {
            Ok(tok) => out.push(lower_token(tok)),
            Err(_) => return Err(Error::Parse),
        }
    }
    Ok(out)
}

} // verus!
