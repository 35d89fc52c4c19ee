//! A frame as headers and an optional body.
use vstd::prelude::*;
use crate::headers::HeaderMap;

verus! {

/// One frame: its headers and, when it declared a length, its body.
#[derive(Debug, Clone, PartialEq, Eq, Default)]
pub struct Event {
    headers: HeaderMap,
    body: Option<Vec<u8>>,
}

pub open spec fn opt_bytes(o: Option<Vec<u8>>) -> Option<Seq<u8>> {
    match o {
        Some(b) => Some(b@),
        None => None,
    }
}

impl View for Event {
    type V = (Seq<(Seq<u8>, Seq<u8>)>, Option<Seq<u8>>);

    closed spec fn view(&self) -> (Seq<(Seq<u8>, Seq<u8>)>, Option<Seq<u8>>) {
        (self.headers@, opt_bytes(self.body))
    }
}

impl Event {
    pub fn new(headers: HeaderMap, body: Option<Vec<u8>>) -> (r: Event)
        ensures
            r@ == (headers@, opt_bytes(body)),
    {
        Event { headers, body }
    }

    /// The headers of the frame.
    pub fn headers(&self) -> (r: &HeaderMap)
        ensures
            r@ == self@.0,
    {
        &self.headers
    }

    /// The body of the frame.
    pub fn body(&self) -> (r: &Option<Vec<u8>>)
        ensures
            opt_bytes(*r) == self@.1,
    {
        &self.body
    }
}

} // verus!
