//! HTTP request methods.
use vstd::prelude::*;

verus! {

#[derive(Debug, Clone, Copy, PartialEq, Eq, Structural, Hash)]
pub enum Method {
    Get,
    Put,
    Post,
    Delete,
    Options,
    Head,
    Trace,
    Connect,
    Patch,
}

/// Methods that imply no change of state, and so carry no token.
pub open spec fn is_safe_method(m: Method) -> bool {
    m is Get || m is Head || m is Connect || m is Options
}

impl Method {
    pub fn is_safe(&self) -> (r: bool)
        ensures
            r == is_safe_method(*self),
    {
        match self {
            Method::Get | Method::Head | Method::Connect | Method::Options => true,
            _ => false,
        }
    }
}

} // verus!
