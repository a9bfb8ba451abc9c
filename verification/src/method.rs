use vstd::prelude::*;

verus! {

/// The HTTP methods a route can be registered under.
#[derive(Debug, Copy, Clone, Eq, PartialEq, Hash, Structural)]
pub enum ApiMethod {
    Get,
    Post,
    Put,
    Delete,
    Head,
    Options,
    Connect,
    Patch,
    Trace,
}

impl ApiMethod {
    /// The upper-case name of the method as it appears on the wire and in
    /// generated client code.
    pub open spec fn name(self) -> Seq<char> {
        match self {
            ApiMethod::Get => "GET"@,
            ApiMethod::Post => "POST"@,
            ApiMethod::Put => "PUT"@,
            ApiMethod::Delete => "DELETE"@,
            ApiMethod::Head => "HEAD"@,
            ApiMethod::Options => "OPTIONS"@,
            ApiMethod::Connect => "CONNECT"@,
            ApiMethod::Patch => "PATCH"@,
            ApiMethod::Trace => "TRACE"@,
        }
    }

    pub fn as_str(&self) -> (s: &'static str)
        ensures
            s@ == self.name(),
    {
        match self {
            ApiMethod::Get => "GET",
            ApiMethod::Post => "POST",
            ApiMethod::Put => "PUT",
            ApiMethod::Delete => "DELETE",
            ApiMethod::Head => "HEAD",
            ApiMethod::Options => "OPTIONS",
            ApiMethod::Connect => "CONNECT",
            ApiMethod::Patch => "PATCH",
            ApiMethod::Trace => "TRACE",
        }
    }
}

} // verus!
