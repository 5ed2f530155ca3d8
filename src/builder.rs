//! The tree builder: a recursive-descent parser over the token stream, with
//! one token of lookahead, that stops at the first error.
use vstd::prelude::*;
use crate::error::{ErrorCode, ParserError};
use crate::reader::{document_events_of, xml_events};
use crate::token::{Event, events_model, fault, tokenize, tokenize_spec, toks_model, Fault, ReaderEvent, Tag, Tok, XmlEvent};
use crate::value::{well_formed, key_index, lemma_model_array, lemma_model_object, object_index, object_model, Object, Value, Xml};

verus! {

/// The members after inserting `k`: a present key takes the new value in
/// place, a new key goes last.
pub open spec fn insert_member(m: Seq<(Seq<char>, Value)>, k: Seq<char>, v: Value) -> Seq<(Seq<char>, Value)> {
    let i = key_index(m, k);
    if i < m.len() {
        m.update(i, (k, v))
    } else {
        m.push((k, v))
    }
}

pub open spec fn is_tok(ts: Seq<Option<Tok>>, p: int, t: Tok) -> bool {
    0 <= p < ts.len() && ts[p] == Some(t)
}

/// The failure reported when position `p` does not hold what was expected:
/// the end of input, a tokenizer failure, or plain bad syntax.
pub open spec fn fault_at(ts: Seq<Option<Tok>>, p: int, eof: ErrorCode) -> Fault {
    if p < 0 || p >= ts.len() {
        Fault::Syntax(eof)
    } else {
        match ts[p] {
            Some(Tok::Error(f)) => f,
            _ => Fault::Syntax(ErrorCode::InvalidSyntax),
        }
    }
}

pub open spec fn measure(ts: Seq<Option<Tok>>, p: int) -> int {
    if 0 <= p < ts.len() {
        ts.len() - p
    } else {
        0
    }
}

/// A scalar element `open payload close` whose open token stands at `p`.
/// Returns the value and the position of the close token.
pub open spec fn parse_scalar(ts: Seq<Option<Tok>>, p: int, tag: Tag) -> (Result<Value, Fault>, int) {
    let payload = if p + 1 < ts.len() {
        match ts[p + 1] {
            Some(Tok::Bool(b)) => if tag == Tag::Boolean {
                Some(Value::Boolean(b))
            } else {
                None
            },
            Some(Tok::Int(n)) => if tag == Tag::Int {
                Some(Value::Int(n))
            } else {
                None
            },
            Some(Tok::Double(t)) => if tag == Tag::Double {
                Some(Value::Double(t))
            } else {
                None
            },
            Some(Tok::Str(s)) => if tag == Tag::String {
                Some(Value::Str(s))
            } else {
                None
            },
            _ => None,
        }
    } else {
        None
    };
    if tag == Tag::Nil {
        if is_tok(ts, p + 1, Tok::End(Tag::Nil)) {
            (Ok(Value::Null), p + 1)
        } else {
            (Err(fault_at(ts, p + 1, ErrorCode::EOFWhileParsingValue)), p + 1)
        }
    } else if tag == Tag::String && is_tok(ts, p + 1, Tok::End(Tag::String)) {
        (Ok(Value::Str(Seq::empty())), p + 1)
    } else {
        let eof = if tag == Tag::String {
            ErrorCode::EOFWhileParsingString
        } else {
            ErrorCode::EOFWhileParsingValue
        };
        match payload {
            Some(v) => if is_tok(ts, p + 2, Tok::End(tag)) {
                (Ok(v), p + 2)
            } else {
                (Err(fault_at(ts, p + 2, eof)), p + 2)
            },
            None => (Err(fault_at(ts, p + 1, eof)), p + 1),
        }
    }
}

/// The value whose first token stands at `p`, and the position of its last
/// token.
pub open spec fn parse_value(ts: Seq<Option<Tok>>, p: int) -> (Result<Value, Fault>, int)
    decreases measure(ts, p), 1int,
{
    if p < 0 || p >= ts.len() {
        (Err(Fault::Syntax(ErrorCode::EOFWhileParsingValue)), p)
    } else {
        match ts[p] {
            Some(Tok::Start(Tag::Struct)) => parse_members(ts, p + 1, Seq::empty()),
            Some(Tok::Start(Tag::Array)) => parse_elements(ts, p + 1, Seq::empty()),
            Some(Tok::Start(Tag::Unsupported)) => (Err(Fault::Syntax(ErrorCode::NotImplemented)), p),
            Some(Tok::Start(g)) => if g == Tag::Nil || g == Tag::Boolean || g == Tag::Int || g
                == Tag::Double || g == Tag::String {
                parse_scalar(ts, p, g)
            } else {
                (Err(Fault::Syntax(ErrorCode::InvalidSyntax)), p)
            },
            Some(Tok::Error(f)) => (Err(f), p),
            _ => (Err(Fault::Syntax(ErrorCode::InvalidSyntax)), p),
        }
    }
}

/// The key of a member whose `name` open token stands at `p - 1`, and the
/// position of the `name` close token. A name token must stand there.
pub open spec fn parse_name(ts: Seq<Option<Tok>>, p: int) -> Result<(Seq<char>, int), Fault> {
    if 0 <= p < ts.len() && ts[p] is Some && ts[p]->0 is Name {
        if is_tok(ts, p + 1, Tok::End(Tag::Name)) {
            Ok((ts[p]->0->Name_0, p + 1))
        } else {
            Err(fault_at(ts, p + 1, ErrorCode::EOFWhileParsingObject))
        }
    } else {
        Err(fault_at(ts, p, ErrorCode::EOFWhileParsingObject))
    }
}

/// The rest of a struct: members from position `p` until the struct's
/// close token, added to `acc`.
pub open spec fn parse_members(ts: Seq<Option<Tok>>, p: int, acc: Seq<(Seq<char>, Value)>) -> (Result<Value, Fault>, int)
    decreases measure(ts, p), 0int,
{
    let eof = ErrorCode::EOFWhileParsingObject;
    if p < 0 || p >= ts.len() {
        (Err(Fault::Syntax(eof)), p)
    } else if ts[p] == Some(Tok::End(Tag::Struct)) {
        (Ok(Value::Struct(acc)), p)
    } else if !is_tok(ts, p, Tok::Start(Tag::Member)) {
        (Err(fault_at(ts, p, eof)), p)
    } else if !is_tok(ts, p + 1, Tok::Start(Tag::Name)) {
        (Err(fault_at(ts, p + 1, eof)), p + 1)
    } else {
        match parse_name(ts, p + 2) {
            Err(f) => (Err(f), p + 2),
            Ok((k, e)) => if !is_tok(ts, e + 1, Tok::Start(Tag::Value)) {
                (Err(fault_at(ts, e + 1, eof)), e + 1)
            } else if e + 2 <= p {
                (Err(Fault::Syntax(ErrorCode::InvalidSyntax)), p)
            } else {
                let (r, q) = parse_value(ts, e + 2);
                match r {
                    Err(f) => (Err(f), q),
                    Ok(v) => if !is_tok(ts, q + 1, Tok::End(Tag::Value)) {
                        (Err(fault_at(ts, q + 1, eof)), q + 1)
                    } else if !is_tok(ts, q + 2, Tok::End(Tag::Member)) {
                        (Err(fault_at(ts, q + 2, eof)), q + 2)
                    } else if q + 3 <= p {
                        (Err(Fault::Syntax(ErrorCode::InvalidSyntax)), p)
                    } else {
                        parse_members(ts, q + 3, insert_member(acc, k, v))
                    },
                }
            },
        }
    }
}

/// The rest of an array: elements from position `p` until the array's
/// close token, added to `acc`. Tokens other than `value` elements are
/// skipped, one at a time.
pub open spec fn parse_elements(ts: Seq<Option<Tok>>, p: int, acc: Seq<Value>) -> (Result<Value, Fault>, int)
    decreases measure(ts, p), 0int,
{
    let eof = ErrorCode::EOFWhileParsingArray;
    if p < 0 || p >= ts.len() {
        (Err(Fault::Syntax(eof)), p)
    } else {
        match ts[p] {
            Some(Tok::End(Tag::Array)) => (Ok(Value::Array(acc)), p),
            Some(Tok::Start(Tag::Value)) => {
                let (r, q) = parse_value(ts, p + 1);
                match r {
                    Err(f) => (Err(f), q),
                    Ok(v) => if !is_tok(ts, q + 1, Tok::End(Tag::Value)) {
                        (Err(fault_at(ts, q + 1, eof)), q + 1)
                    } else if q + 2 <= p {
                        (Err(Fault::Syntax(ErrorCode::InvalidSyntax)), p)
                    } else {
                        parse_elements(ts, q + 2, acc.push(v))
                    },
                }
            },
            Some(Tok::Error(f)) => (Err(f), p),
            _ => parse_elements(ts, p + 1, acc),
        }
    }
}

/// The position of the `idx`-th `param` open token at or after `p`, or the
/// length of the stream.
pub open spec fn nth_param(ts: Seq<Option<Tok>>, p: int, idx: nat) -> int
    decreases ts.len() - p,
{
    if p < 0 || p >= ts.len() {
        ts.len() as int
    } else if ts[p] == Some(Tok::Start(Tag::Param)) {
        if idx == 0 {
            p
        } else {
            nth_param(ts, p + 1, (idx - 1) as nat)
        }
    } else {
        nth_param(ts, p + 1, idx)
    }
}

/// The value of the `idx`-th parameter of a method call or response:
/// `<param>` holds the value, bare or inside `<value>`.
pub open spec fn param_value(ts: Seq<Option<Tok>>, idx: nat) -> Result<Value, Fault> {
    let p = nth_param(ts, 0, idx);
    if p >= ts.len() {
        Err(Fault::Syntax(ErrorCode::EOFWhileParsingValue))
    } else if is_tok(ts, p + 1, Tok::Start(Tag::Value)) {
        let (r, q) = parse_value(ts, p + 2);
        match r {
            Err(f) => Err(f),
            Ok(v) => if !is_tok(ts, q + 1, Tok::End(Tag::Value)) {
                Err(fault_at(ts, q + 1, ErrorCode::InvalidSyntax))
            } else if !is_tok(ts, q + 2, Tok::End(Tag::Param)) {
                Err(fault_at(ts, q + 2, ErrorCode::InvalidSyntax))
            } else {
                Ok(v)
            },
        }
    } else {
        let (r, q) = parse_value(ts, p + 1);
        match r {
            Err(f) => Err(f),
            Ok(v) => if !is_tok(ts, q + 1, Tok::End(Tag::Param)) {
                Err(fault_at(ts, q + 1, ErrorCode::InvalidSyntax))
            } else {
                Ok(v)
            },
        }
    }
}

/// A whole token stream: one value and nothing after it.
pub open spec fn parse_document(ts: Seq<Option<Tok>>) -> Result<Value, Fault> {
    let (r, q) = parse_value(ts, 0);
    match r {
        Err(f) => Err(f),
        Ok(v) => if q + 1 >= ts.len() {
            Ok(v)
        } else {
            Err(fault_at(ts, q + 1, ErrorCode::InvalidSyntax))
        },
    }
}


pub open spec fn result_model(r: Result<Xml, ParserError>) -> Result<Value, Fault> {
    match r {
        Ok(x) => Ok(x@),
        Err(e) => Err(fault(e)),
    }
}

/// Puts member `k` into `o`: a present key takes the new value in place, a
/// new key goes last.
pub fn insert_member_into(o: &mut Object, k: String, v: Xml)
    ensures
        object_model(final(o)@) == insert_member(object_model(old(o)@), k@, v@),
{
    let i = object_index(o, &k);
    let ghost m = object_model(o@);
    if i < o.len() {
        o[i] = (k, v);
        assert(object_model(o@) =~= m.update(i as int, (k@, v@)));
    } else {
        o.push((k, v));
        assert(object_model(o@) =~= m.push((k@, v@)));
    }
}

pub fn copy_error(e: &ParserError) -> (r: ParserError)
    ensures
        fault(r) == fault(*e),
{
    match e {
        ParserError::SyntaxError(c) => ParserError::SyntaxError(*c),
        ParserError::IoError(m) => ParserError::IoError(m.clone()),
    }
}

/// Builds a value tree from the token stream of one XML-RPC document.
pub struct Builder {
    tokens: Vec<Option<XmlEvent>>,
}

impl Builder {
    /// The model of the token stream.
    pub closed spec fn toks(&self) -> Seq<Option<Tok>> {
        toks_model(self.tokens@)
    }

    /// A builder over the tokens of these tokenizer events.
    pub fn new(events: &Vec<ReaderEvent>) -> (r: Builder)
        ensures
            r.toks() == tokenize_spec(events_model(events@)),
    {
        Builder { tokens: tokenize(events) }
    }

    /// A builder over a token stream.
    pub fn from_tokens(tokens: Vec<Option<XmlEvent>>) -> (r: Builder)
        ensures
            r.toks() == toks_model(tokens@),
    {
        Builder { tokens }
    }

    fn is_start(&self, p: usize, g: Tag) -> (r: bool)
        ensures
            r == is_tok(self.toks(), p as int, Tok::Start(g)),
    {
        if p >= self.tokens.len() {
            return false;
        }
        match &self.tokens[p] {
            Some(XmlEvent::Start(h)) => *h == g,
            _ => false,
        }
    }

    fn is_end(&self, p: usize, g: Tag) -> (r: bool)
        ensures
            r == is_tok(self.toks(), p as int, Tok::End(g)),
    {
        if p >= self.tokens.len() {
            return false;
        }
        match &self.tokens[p] {
            Some(XmlEvent::End(h)) => *h == g,
            _ => false,
        }
    }

    fn fault_at(&self, p: usize, eof: ErrorCode) -> (r: ParserError)
        ensures
            fault(r) == fault_at(self.toks(), p as int, eof),
    {
        if p >= self.tokens.len() {
            return ParserError::SyntaxError(eof);
        }
        match &self.tokens[p] {
            Some(XmlEvent::Error(e)) => copy_error(e),
            _ => ParserError::SyntaxError(ErrorCode::InvalidSyntax),
        }
    }

    /// A scalar element whose open token stands at `p`.
    fn build_scalar(&self, p: usize, tag: Tag) -> (r: (Result<Xml, ParserError>, usize))
        requires
            p < self.toks().len(),
        ensures
            result_model(r.0) == parse_scalar(self.toks(), p as int, tag).0,
            r.1 == parse_scalar(self.toks(), p as int, tag).1,
    {
        let n = self.tokens.len();
        if tag == Tag::Nil {
            if self.is_end(p + 1, Tag::Nil) {
                return (Ok(Xml::Null), p + 1);
            } else {
                return (Err(self.fault_at(p + 1, ErrorCode::EOFWhileParsingValue)), p + 1);
            }
        }
        if tag == Tag::String && self.is_end(p + 1, Tag::String) {
            let e = String::new();
            return (Ok(Xml::String(e)), p + 1);
        }
        let eof = if tag == Tag::String {
            ErrorCode::EOFWhileParsingString
        } else {
            ErrorCode::EOFWhileParsingValue
        };
        if p + 1 >= n {
            return (Err(self.fault_at(p + 1, eof)), p + 1);
        }
        let payload: Option<Xml> = match &self.tokens[p + 1] {
            Some(XmlEvent::BooleanValue(b)) => if tag == Tag::Boolean {
                Some(Xml::Boolean(*b))
            } else {
                None
            },
            Some(XmlEvent::I32Value(v)) => if tag == Tag::Int {
                Some(Xml::I32(*v))
            } else {
                None
            },
            Some(XmlEvent::F64Value(t)) => if tag == Tag::Double {
                Some(Xml::Double(t.clone()))
            } else {
                None
            },
            Some(XmlEvent::StringValue(t)) => if tag == Tag::String {
                Some(Xml::String(t.clone()))
            } else {
                None
            },
            _ => None,
        };
        match payload {
            Some(v) => {
                if self.is_end(p + 2, tag) {
                    (Ok(v), p + 2)
                } else {
                    (Err(self.fault_at(p + 2, eof)), p + 2)
                }
            },
            None => (Err(self.fault_at(p + 1, eof)), p + 1),
        }
    }

    /// The key of a member whose `name` open token stands at `p - 1`, and
    /// the position of the `name` close token.
    fn build_name(&self, p: usize) -> (r: Result<(String, usize), ParserError>)
        requires
            p <= self.toks().len(),
        ensures
            r matches Ok((k, e)) ==> parse_name(self.toks(), p as int) == Ok::<(Seq<char>, int), Fault>((k@, e as int))
                && p <= e < self.toks().len(),
            r matches Err(f) ==> parse_name(self.toks(), p as int) == Err::<(Seq<char>, int), Fault>(fault(f)),
    {
        if p >= self.tokens.len() {
            return Err(self.fault_at(p, ErrorCode::EOFWhileParsingObject));
        }
        match &self.tokens[p] {
            Some(XmlEvent::NameValue(k)) => {
                if self.is_end(p + 1, Tag::Name) {
                    Ok((k.clone(), p + 1))
                } else {
                    Err(self.fault_at(p + 1, ErrorCode::EOFWhileParsingObject))
                }
            },
            _ => Err(self.fault_at(p, ErrorCode::EOFWhileParsingObject)),
        }
    }

    /// The value whose first token stands at `p`, and the position of its
    /// last token.
    pub fn build_value(&self, p: usize) -> (r: (Result<Xml, ParserError>, usize))
        ensures
            result_model(r.0) == parse_value(self.toks(), p as int).0,
            r.0 is Ok ==> r.1 == parse_value(self.toks(), p as int).1 && p <= r.1 < self.toks().len(),
        decreases measure(self.toks(), p as int), 1int,
    {
        if p >= self.tokens.len() {
            return (Err(ParserError::SyntaxError(ErrorCode::EOFWhileParsingValue)), p);
        }
        match &self.tokens[p] {
            Some(XmlEvent::Start(Tag::Struct)) => {
                let acc: Object = Vec::new();
                assert(object_model(acc@) =~= Seq::empty());
                self.build_object(p + 1, acc)
            },
            Some(XmlEvent::Start(Tag::Array)) => {
                let acc: Vec<Xml> = Vec::new();
                assert(crate::value::array_model(acc@) =~= Seq::empty());
                self.build_array(p + 1, acc)
            },
            Some(XmlEvent::Start(Tag::Unsupported)) => (
                Err(ParserError::SyntaxError(ErrorCode::NotImplemented)),
                p,
            ),
            Some(XmlEvent::Start(g)) => {
                if *g == Tag::Nil || *g == Tag::Boolean || *g == Tag::Int || *g == Tag::Double || *g
                    == Tag::String {
                    self.build_scalar(p, *g)
                } else {
                    (Err(ParserError::SyntaxError(ErrorCode::InvalidSyntax)), p)
                }
            },
            Some(XmlEvent::Error(e)) => (Err(copy_error(e)), p),
            _ => (Err(ParserError::SyntaxError(ErrorCode::InvalidSyntax)), p),
        }
    }

    /// The rest of a struct, from position `first`, added to `acc0`.
    fn build_object(&self, first: usize, acc0: Object) -> (r: (Result<Xml, ParserError>, usize))
        requires
            1 <= first <= self.toks().len(),
        ensures
            result_model(r.0) == parse_members(self.toks(), first as int, object_model(acc0@)).0,
            r.0 is Ok ==> r.1 == parse_members(self.toks(), first as int, object_model(acc0@)).1 && first
                <= r.1 < self.toks().len(),
        decreases measure(self.toks(), first as int), 0int,
    {
        let ghost ts = self.toks();
        let eof = ErrorCode::EOFWhileParsingObject;
        let n = self.tokens.len();
        let mut p = first;
        let mut acc = acc0;
        loop
            invariant
                first <= p <= n,
                n == ts.len(),
                ts == self.toks(),
                eof == ErrorCode::EOFWhileParsingObject,
                parse_members(ts, first as int, object_model(acc0@)) == parse_members(
                    ts,
                    p as int,
                    object_model(acc@),
                ),
            decreases n - p,
        {
            let ghost m = object_model(acc@);
            if p >= n {
                return (Err(ParserError::SyntaxError(eof)), p);
            }
            if self.is_end(p, Tag::Struct) {
                proof {
                    lemma_model_object(acc);
                }
                return (Ok(Xml::Object(acc)), p);
            }
            if !self.is_start(p, Tag::Member) {
                return (Err(self.fault_at(p, eof)), p);
            }
            if !self.is_start(p + 1, Tag::Name) {
                return (Err(self.fault_at(p + 1, eof)), p + 1);
            }
            let (k, e) = match self.build_name(p + 2) {
                Err(f) => {
                    return (Err(f), p + 2);
                },
                Ok(x) => x,
            };
            if !self.is_start(e + 1, Tag::Value) {
                return (Err(self.fault_at(e + 1, eof)), e + 1);
            }
            assert(measure(ts, e + 2) < measure(ts, first as int));
            let (r, q) = self.build_value(e + 2);
            let v = match r {
                Err(f) => {
                    return (Err(f), q);
                },
                Ok(v) => v,
            };
            if !self.is_end(q + 1, Tag::Value) {
                return (Err(self.fault_at(q + 1, eof)), q + 1);
            }
            if !self.is_end(q + 2, Tag::Member) {
                return (Err(self.fault_at(q + 2, eof)), q + 2);
            }
            insert_member_into(&mut acc, k, v);
            p = q + 3;
        }
    }

    /// The rest of an array, from position `first`, added to `acc0`.
    fn build_array(&self, first: usize, acc0: Vec<Xml>) -> (r: (Result<Xml, ParserError>, usize))
        requires
            1 <= first <= self.toks().len(),
        ensures
            result_model(r.0) == parse_elements(self.toks(), first as int, crate::value::array_model(acc0@)).0,
            r.0 is Ok ==> r.1 == parse_elements(self.toks(), first as int, crate::value::array_model(acc0@)).1
                && first <= r.1 < self.toks().len(),
        decreases measure(self.toks(), first as int), 0int,
    {
        let ghost ts = self.toks();
        let eof = ErrorCode::EOFWhileParsingArray;
        let n = self.tokens.len();
        let mut p = first;
        let mut acc = acc0;
        loop
            invariant
                first <= p <= n,
                n == ts.len(),
                ts == self.toks(),
                eof == ErrorCode::EOFWhileParsingArray,
                parse_elements(ts, first as int, crate::value::array_model(acc0@)) == parse_elements(
                    ts,
                    p as int,
                    crate::value::array_model(acc@),
                ),
            decreases n - p,
        {
            if p >= n {
                return (Err(ParserError::SyntaxError(eof)), p);
            }
            let ghost am = crate::value::array_model(acc@);
            match &self.tokens[p] {
                Some(XmlEvent::End(Tag::Array)) => {
                    proof {
                        lemma_model_array(acc);
                    }
                    return (Ok(Xml::Array(acc)), p);
                },
                Some(XmlEvent::Start(Tag::Value)) => {
                    assert(measure(ts, p + 1) < measure(ts, first as int));
                    let (r, q) = self.build_value(p + 1);
                    let v = match r {
                        Err(f) => {
                            return (Err(f), q);
                        },
                        Ok(v) => v,
                    };
                    if !self.is_end(q + 1, Tag::Value) {
                        return (Err(self.fault_at(q + 1, eof)), q + 1);
                    }
                    acc.push(v);
                    assert(crate::value::array_model(acc@) =~= am.push(v@));
                    p = q + 2;
                },
                Some(XmlEvent::Error(e)) => {
                    return (Err(copy_error(e)), p);
                },
                _ => {
                    p = p + 1;
                },
            }
        }
    }

    /// The value of the whole token stream, which must hold one value and
    /// nothing after it.
    pub fn build(&self) -> (r: Result<Xml, ParserError>)
        ensures
            result_model(r) == parse_document(self.toks()),
    {
        let res = self.build_value(0);
        let q = res.1;
        match res.0 {
            Err(f) => Err(f),
            Ok(v) => {
                assert(self.toks().len() == self.tokens@.len());
                if q >= self.tokens.len() - 1 {
                    Ok(v)
                } else {
                    Err(self.fault_at(q + 1, ErrorCode::InvalidSyntax))
                }
            },
        }
    }
}

impl Builder {
    fn find_param(&self, idx: usize) -> (r: usize)
        ensures
            r == nth_param(self.toks(), 0, idx as nat),
            r <= self.toks().len(),
    {
        let ghost ts = self.toks();
        let mut p: usize = 0;
        let mut k: usize = idx;
        while p < self.tokens.len()
            invariant
                p <= ts.len(),
                ts == self.toks(),
                nth_param(ts, 0, idx as nat) == nth_param(ts, p as int, k as nat),
            decreases ts.len() - p,
        {
            if self.is_start(p, Tag::Param) {
                if k == 0 {
                    return p;
                }
                k = k - 1;
            }
            p = p + 1;
        }
        p
    }

    /// The value of the `idx`-th parameter of a method call or response.
    pub fn param_value(&self, idx: usize) -> (r: Result<Xml, ParserError>)
        ensures
            result_model(r) == param_value(self.toks(), idx as nat),
    {
        let p = self.find_param(idx);
        if p >= self.tokens.len() {
            return Err(ParserError::SyntaxError(ErrorCode::EOFWhileParsingValue));
        }
        if self.is_start(p + 1, Tag::Value) {
            let res = self.build_value(p + 2);
            let q = res.1;
            match res.0 {
                Err(f) => Err(f),
                Ok(v) => {
                    assert(self.toks().len() == self.tokens@.len());
                    if !self.is_end(q + 1, Tag::Value) {
                        Err(self.fault_at(q + 1, ErrorCode::InvalidSyntax))
                    } else if !self.is_end(q + 2, Tag::Param) {
                        Err(self.fault_at(q + 2, ErrorCode::InvalidSyntax))
                    } else {
                        Ok(v)
                    }
                },
            }
        } else {
            let res = self.build_value(p + 1);
            let q = res.1;
            match res.0 {
                Err(f) => Err(f),
                Ok(v) => {
                    assert(self.toks().len() == self.tokens@.len());
                    if !self.is_end(q + 1, Tag::Param) {
                        Err(self.fault_at(q + 1, ErrorCode::InvalidSyntax))
                    } else {
                        Ok(v)
                    }
                },
            }
        }
    }
}

/// What the tree builder makes of an event list.
pub open spec fn parse_events(es: Seq<Event>) -> Result<Value, Fault> {
    parse_document(tokenize_spec(es))
}

impl Xml {
    /// The value of a document given as tokenizer events.
    pub fn from_events(events: &Vec<ReaderEvent>) -> (r: Result<Xml, ParserError>)
        ensures
            result_model(r) == parse_events(events_model(events@)),
            r matches Ok(x) ==> well_formed(x@),
    {
        proof {
            crate::laws::lemma_parsed_events_well_formed(events_model(events@));
        }
        Builder::new(events).build()
    }

    /// Parses an XML-RPC value document: what the builder makes of the XML
    /// tokenizer's events for the text.
    pub fn from_str(s: &str) -> (r: Result<Xml, ParserError>)
        ensures
            result_model(r) == parse_events(xml_events(s@)),
            r matches Ok(x) ==> well_formed(x@),
    {
        let events = document_events_of(s);
        Xml::from_events(&events)
    }
}

} // verus!
