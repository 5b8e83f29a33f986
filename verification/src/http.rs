use vstd::prelude::*;

verus! {

/// The HTTP verb a request is issued with.
#[derive(Debug, Clone, Copy, PartialEq, Eq)]
pub enum HTTPMethod {
    GET,
    POST,
    PUT,
    DELETE,
    PATCH,
    OPTIONS,
    HEAD,
    CONNECT,
}

impl HTTPMethod {
    /// The canonical upper-case name of the verb.
    pub fn as_str(&self) -> (r: &'static str)
        ensures
            r@ == self.spec_name(),
    {
        match self {
            HTTPMethod::GET => "GET",
            HTTPMethod::POST => "POST",
            HTTPMethod::PUT => "PUT",
            HTTPMethod::DELETE => "DELETE",
            HTTPMethod::PATCH => "PATCH",
            HTTPMethod::OPTIONS => "OPTIONS",
            HTTPMethod::HEAD => "HEAD",
            HTTPMethod::CONNECT => "CONNECT",
        }
    }

    pub open spec fn spec_name(&self) -> Seq<char> {
        match self {
            HTTPMethod::GET => "GET"@,
            HTTPMethod::POST => "POST"@,
            HTTPMethod::PUT => "PUT"@,
            HTTPMethod::DELETE => "DELETE"@,
            HTTPMethod::PATCH => "PATCH"@,
            HTTPMethod::OPTIONS => "OPTIONS"@,
            HTTPMethod::HEAD => "HEAD"@,
            HTTPMethod::CONNECT => "CONNECT"@,
        }
    }
}

} // verus!
