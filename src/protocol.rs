//! The method-call envelope and the reading of a response's parameters.
use vstd::prelude::*;
use crate::builder::{param_value, Builder};
use crate::encoder::{encodable, encode, wire};
use crate::error::{DecoderError, EncoderError};
use crate::reader::{document_events_of, xml_events};
use crate::text::{escape_spec, escape_str};
use crate::token::{events_model, fault, tokenize_spec, ReaderEvent, Tok};
use crate::value::Xml;

verus! {

/// The start of a method call, up to the parameters.
pub open spec fn call_head(method: Seq<char>) -> Seq<char> {
    "<?xml version=\"1.0\"?><methodCall><methodName>"@ + escape_spec(method)
        + "</methodName><params>"@
}

/// A method call being assembled.
pub struct Request {
    pub method: String,
    pub body: String,
}

/// The body of a method response.
pub struct Response {
    pub body: String,
}

impl Request {
    /// A call of `method` with no parameters yet.
    pub fn new(method: &str) -> (r: Request)
        ensures
            r.method@ == method@,
            r.body@ == call_head(method@),
    {
        let mut body = String::from_str("<?xml version=\"1.0\"?><methodCall><methodName>");
        escape_str(&mut body, method);
        body.append("</methodName><params>");
        Request { method: String::from_str(method), body }
    }

    /// Adds a parameter given by its wire text.
    pub fn argument_wire(self, encoded: &str) -> (r: Request)
        ensures
            r.method == self.method,
            r.body@ == self.body@ + "<param>"@ + encoded@ + "</param>"@,
    {
        let mut body = self.body;
        body.append("<param>");
        body.append(encoded);
        body.append("</param>");
        Request { method: self.method, body }
    }

    /// Adds a parameter.
    pub fn argument(self, object: &Xml) -> (r: Result<Request, EncoderError>)
        ensures
            r is Ok <==> encodable(object@),
            r matches Ok(q) ==> q.method == self.method && q.body@ == self.body@ + "<param>"@ + wire(
                object@,
            ) + "</param>"@,
    {
        match encode(object) {
            Ok(t) => Ok(self.argument_wire(t.as_str())),
            Err(e) => Err(e),
        }
    }

    /// Closes the parameter list and the call.
    pub fn finalize(self) -> (r: Request)
        ensures
            r.method == self.method,
            r.body@ == self.body@ + "</params></methodCall>"@,
    {
        let mut body = self.body;
        body.append("</params></methodCall>");
        Request { method: self.method, body }
    }
}

/// `r` is what decoding parameter `idx` of the token stream `ts` gives.
pub open spec fn param_outcome(ts: Seq<Option<Tok>>, idx: nat, r: Result<Xml, DecoderError>) -> bool {
    match param_value(ts, idx) {
        Ok(v) => r matches Ok(x) && x@ == v,
        Err(f) => r matches Err(DecoderError::ParseError(e)) && fault(e) == f,
    }
}

impl Response {
    pub fn new(body: &str) -> (r: Response)
        ensures
            r.body@ == body@,
    {
        Response { body: String::from_str(body) }
    }

    /// Parameter `idx` of a response given as tokenizer events.
    pub fn param_of_events(events: &Vec<ReaderEvent>, idx: usize) -> (r: Result<Xml, DecoderError>)
        ensures
            param_outcome(tokenize_spec(events_model(events@)), idx as nat, r),
    {
        let b = Builder::new(events);
        match b.param_value(idx) {
            Ok(x) => Ok(x),
            Err(e) => Err(DecoderError::ParseError(e)),
        }
    }

    /// Parameter `idx` of the response, read with the XML tokenizer and the
    /// tree builder.
    pub fn result(&self, idx: usize) -> (r: Result<Xml, DecoderError>)
        ensures
            param_outcome(tokenize_spec(xml_events(self.body@)), idx as nat, r),
    {
        let events = document_events_of(self.body.as_str());
        Response::param_of_events(&events, idx)
    }
}

} // verus!
