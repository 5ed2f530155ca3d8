//! Tokenizer events, the token vocabulary of the tree builder, and the tag
//! classifier that turns the one into the other.
use vstd::prelude::*;
use crate::error::{ErrorCode, ParserError};
use crate::text::{chars_of, decimal_in, float_text, is_float_text, parse_decimal};

verus! {

/// One event of the streaming XML tokenizer. Element names are local names;
/// character data is already unescaped.
pub enum ReaderEvent {
    StartDocument,
    EndDocument,
    StartElement(String),
    EndElement(String),
    Characters(String),
    /// Character data made of whitespace alone.
    Whitespace(String),
    /// Comments, processing instructions and the like.
    Ignored,
    /// The tokenizer failed with this message; nothing follows.
    Failed(String),
}

/// The element names of the wire grammar.
#[derive(Clone, Copy, PartialEq, Eq, Debug, Structural)]
pub enum Tag {
    Struct,
    Member,
    Name,
    Value,
    Array,
    Data,
    Boolean,
    Int,
    Double,
    String,
    Nil,
    /// `base64` and `dateTime.iso8601`: known, but not read.
    Unsupported,
    Params,
    Param,
}

/// One token of the tree builder.
#[derive(Clone, PartialEq, Eq, Debug)]
pub enum XmlEvent {
    Start(Tag),
    End(Tag),
    BooleanValue(bool),
    I32Value(i32),
    /// The text of a double.
    F64Value(String),
    StringValue(String),
    NameValue(String),
    Error(ParserError),
}

/// The model of a parse failure.
pub enum Fault {
    Syntax(ErrorCode),
    Reader(Seq<char>),
}

pub open spec fn fault(e: ParserError) -> Fault {
    match e {
        ParserError::SyntaxError(c) => Fault::Syntax(c),
        ParserError::IoError(m) => Fault::Reader(m@),
    }
}

/// The model of a tokenizer event.
pub enum Event {
    DocStart,
    DocEnd,
    Open(Seq<char>),
    Close(Seq<char>),
    Text(Seq<char>),
    Blank(Seq<char>),
    Skip,
    Failed(Seq<char>),
}

/// The model of a token.
pub enum Tok {
    Start(Tag),
    End(Tag),
    Bool(bool),
    Int(i32),
    Double(Seq<char>),
    Str(Seq<char>),
    Name(Seq<char>),
    Error(Fault),
}

impl View for ReaderEvent {
    type V = Event;

    open spec fn view(&self) -> Event {
        match self {
            ReaderEvent::StartDocument => Event::DocStart,
            ReaderEvent::EndDocument => Event::DocEnd,
            ReaderEvent::StartElement(n) => Event::Open(n@),
            ReaderEvent::EndElement(n) => Event::Close(n@),
            ReaderEvent::Characters(t) => Event::Text(t@),
            ReaderEvent::Whitespace(t) => Event::Blank(t@),
            ReaderEvent::Ignored => Event::Skip,
            ReaderEvent::Failed(m) => Event::Failed(m@),
        }
    }
}

impl View for XmlEvent {
    type V = Tok;

    open spec fn view(&self) -> Tok {
        match self {
            XmlEvent::Start(t) => Tok::Start(*t),
            XmlEvent::End(t) => Tok::End(*t),
            XmlEvent::BooleanValue(b) => Tok::Bool(*b),
            XmlEvent::I32Value(n) => Tok::Int(*n),
            XmlEvent::F64Value(t) => Tok::Double(t@),
            XmlEvent::StringValue(s) => Tok::Str(s@),
            XmlEvent::NameValue(s) => Tok::Name(s@),
            XmlEvent::Error(e) => Tok::Error(fault(*e)),
        }
    }
}

pub open spec fn opt_tok(t: Option<XmlEvent>) -> Option<Tok> {
    match t {
        Some(e) => Some(e@),
        None => None,
    }
}

/// The models of a token list.
pub open spec fn toks_model(ts: Seq<Option<XmlEvent>>) -> Seq<Option<Tok>> {
    Seq::new(ts.len(), |i: int| opt_tok(ts[i]))
}

/// The models of an event list.
pub open spec fn events_model(es: Seq<ReaderEvent>) -> Seq<Event> {
    Seq::new(es.len(), |i: int| es[i]@)
}

/// The tag that an element name stands for.
pub open spec fn tag_of(name: Seq<char>) -> Option<Tag> {
    if name == "struct"@ {
        Some(Tag::Struct)
    } else if name == "member"@ {
        Some(Tag::Member)
    } else if name == "name"@ {
        Some(Tag::Name)
    } else if name == "value"@ {
        Some(Tag::Value)
    } else if name == "array"@ {
        Some(Tag::Array)
    } else if name == "data"@ {
        Some(Tag::Data)
    } else if name == "boolean"@ {
        Some(Tag::Boolean)
    } else if name == "int"@ || name == "i4"@ {
        Some(Tag::Int)
    } else if name == "double"@ {
        Some(Tag::Double)
    } else if name == "string"@ {
        Some(Tag::String)
    } else if name == "nil"@ {
        Some(Tag::Nil)
    } else if name == "base64"@ || name == "dateTime.iso8601"@ {
        Some(Tag::Unsupported)
    } else if name == "params"@ {
        Some(Tag::Params)
    } else if name == "param"@ {
        Some(Tag::Param)
    } else {
        None
    }
}

/// The token for character data, given the element that the token before
/// it opened.
pub open spec fn text_token(text: Seq<char>, open: Option<Tag>) -> Option<Tok> {
    match open {
        Some(Tag::Boolean) => if text == "0"@ {
            Some(Tok::Bool(false))
        } else if text == "1"@ {
            Some(Tok::Bool(true))
        } else {
            None
        },
        Some(Tag::Int) => match decimal_in(text, i32::MIN as int, i32::MAX as int) {
            Some(n) => Some(Tok::Int(n as i32)),
            None => None,
        },
        Some(Tag::Double) => if float_text(text) {
            Some(Tok::Double(text))
        } else {
            None
        },
        Some(Tag::String) => Some(Tok::Str(text)),
        Some(Tag::Name) => Some(Tok::Name(text)),
        _ => None,
    }
}

/// The element that a token opens.
pub open spec fn opened(t: Option<Tok>) -> Option<Tag> {
    match t {
        Some(Tok::Start(g)) => Some(g),
        _ => None,
    }
}

/// Whether whitespace is content here (inside `string` or `name`).
pub open spec fn keeps_blank(open: Option<Tag>) -> bool {
    open == Some(Tag::String) || open == Some(Tag::Name)
}

pub open spec fn start_token(n: Seq<char>) -> Option<Tok> {
    match tag_of(n) {
        Some(g) => Some(Tok::Start(g)),
        None => None,
    }
}

pub open spec fn end_token(n: Seq<char>) -> Option<Tok> {
    match tag_of(n) {
        Some(g) => Some(Tok::End(g)),
        None => None,
    }
}

/// The tokens for `es[i..]`, given the element that the token before them
/// opened. The document start, ignored events and layout whitespace give
/// none; the document end and a tokenizer failure end the stream.
pub open spec fn tokens_from(es: Seq<Event>, i: int, open: Option<Tag>) -> Seq<Option<Tok>>
    decreases es.len() - i,
{
    if i < 0 || i >= es.len() {
        Seq::empty()
    } else {
        match es[i] {
            Event::DocStart | Event::Skip => tokens_from(es, i + 1, open),
            Event::DocEnd => Seq::empty(),
            Event::Failed(m) => seq![Some(Tok::Error(Fault::Reader(m)))],
            Event::Open(n) => seq![start_token(n)] + tokens_from(es, i + 1, opened(start_token(n))),
            Event::Close(n) => seq![end_token(n)] + tokens_from(es, i + 1, None),
            Event::Text(s) => seq![text_token(s, open)] + tokens_from(es, i + 1, None),
            Event::Blank(s) => if keeps_blank(open) {
                seq![text_token(s, open)] + tokens_from(es, i + 1, None)
            } else {
                tokens_from(es, i + 1, open)
            },
        }
    }
}

/// The token stream of a whole event list.
pub open spec fn tokenize_spec(es: Seq<Event>) -> Seq<Option<Tok>> {
    tokens_from(es, 0, None)
}


fn text_is(s: &String, lit: &str) -> (r: bool)
    ensures
        r == (s@ == lit@),
{
    let l = String::from_str(lit);
    *s == l
}

/// The tag of an element name.
pub fn parse_tag(name: &String) -> (r: Option<Tag>)
    ensures
        r == tag_of(name@),
{
    if text_is(name, "struct") {
        Some(Tag::Struct)
    } else if text_is(name, "member") {
        Some(Tag::Member)
    } else if text_is(name, "name") {
        Some(Tag::Name)
    } else if text_is(name, "value") {
        Some(Tag::Value)
    } else if text_is(name, "array") {
        Some(Tag::Array)
    } else if text_is(name, "data") {
        Some(Tag::Data)
    } else if text_is(name, "boolean") {
        Some(Tag::Boolean)
    } else if text_is(name, "int") || text_is(name, "i4") {
        Some(Tag::Int)
    } else if text_is(name, "double") {
        Some(Tag::Double)
    } else if text_is(name, "string") {
        Some(Tag::String)
    } else if text_is(name, "nil") {
        Some(Tag::Nil)
    } else if text_is(name, "base64") || text_is(name, "dateTime.iso8601") {
        Some(Tag::Unsupported)
    } else if text_is(name, "params") {
        Some(Tag::Params)
    } else if text_is(name, "param") {
        Some(Tag::Param)
    } else {
        None
    }
}

/// The token for the character data `text` inside the element `open`.
pub fn parse_tag_characters(text: String, open: Option<Tag>) -> (r: Option<XmlEvent>)
    ensures
        opt_tok(r) == text_token(text@, open),
{
    match open {
        Some(Tag::Boolean) => {
            if text_is(&text, "0") {
                Some(XmlEvent::BooleanValue(false))
            } else if text_is(&text, "1") {
                Some(XmlEvent::BooleanValue(true))
            } else {
                None
            }
        },
        Some(Tag::Int) => {
            let cs = chars_of(text.as_str());
            match parse_decimal(&cs, i32::MIN as i128, i32::MAX as i128) {
                Some(n) => Some(XmlEvent::I32Value(n as i32)),
                None => None,
            }
        },
        Some(Tag::Double) => {
            let cs = chars_of(text.as_str());
            if is_float_text(&cs) {
                Some(XmlEvent::F64Value(text))
            } else {
                None
            }
        },
        Some(Tag::String) => Some(XmlEvent::StringValue(text)),
        Some(Tag::Name) => Some(XmlEvent::NameValue(text)),
        _ => None,
    }
}

/// Turns tokenizer events into builder tokens, one token for each element
/// event or piece of character data (`None` where the classifier has no
/// token for it).
pub fn tokenize(events: &Vec<ReaderEvent>) -> (r: Vec<Option<XmlEvent>>)
    ensures
        toks_model(r@) == tokenize_spec(events_model(events@)),
{
    let ghost es = events_model(events@);
    let mut out: Vec<Option<XmlEvent>> = Vec::new();
    let mut open: Option<Tag> = None;
    let mut i: usize = 0;
    while i < events.len()
        invariant
            i <= events@.len(),
            es == events_model(events@),
            tokenize_spec(es) == toks_model(out@) + tokens_from(es, i as int, open),
        decreases events@.len() - i,
    {
        let ghost before = toks_model(out@);
        match &events[i] {
            ReaderEvent::StartDocument | ReaderEvent::Ignored => {},
            ReaderEvent::EndDocument => {
                assert(tokens_from(es, i as int, open) =~= Seq::<Option<Tok>>::empty());
                assert(tokenize_spec(es) =~= toks_model(out@));
                return out;
            },
            ReaderEvent::Failed(m) => {
                out.push(Some(XmlEvent::Error(ParserError::IoError(m.clone()))));
                assert(toks_model(out@) =~= before + tokens_from(es, i as int, open));
                assert(tokenize_spec(es) =~= toks_model(out@));
                return out;
            },
            ReaderEvent::StartElement(n) => {
                let t = match parse_tag(n) {
                    Some(g) => Some(XmlEvent::Start(g)),
                    None => None,
                };
                open = match parse_tag(n) {
                    Some(g) => Some(g),
                    None => None,
                };
                out.push(t);
                assert(toks_model(out@) =~= before + seq![start_token(n@)]);
            },
            ReaderEvent::EndElement(n) => {
                let t = match parse_tag(n) {
                    Some(g) => Some(XmlEvent::End(g)),
                    None => None,
                };
                open = None;
                out.push(t);
                assert(toks_model(out@) =~= before + seq![end_token(n@)]);
            },
            ReaderEvent::Characters(s) => {
                let t = parse_tag_characters(s.clone(), open);
                open = None;
                out.push(t);
                assert(toks_model(out@) =~= before + seq![opt_tok(t)]);
            },
            ReaderEvent::Whitespace(s) => {
                match open {
                    Some(Tag::String) | Some(Tag::Name) => {
                        let t = parse_tag_characters(s.clone(), open);
                        open = None;
                        out.push(t);
                        assert(toks_model(out@) =~= before + seq![opt_tok(t)]);
                    },
                    _ => {},
                }
            },
        }
        i = i + 1;
    }
    assert(tokens_from(es, i as int, open) =~= Seq::<Option<Tok>>::empty());
    assert(tokenize_spec(es) =~= toks_model(out@));
    out
}

} // verus!
