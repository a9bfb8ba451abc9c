//! Handler parameters and what they contribute to a generated client.
//!
//! A parameter is declared as a wrapper around an inner type. The wrapper
//! decides the channel the parameter is read from: the request body, the
//! path, or the query string. A parameter without a channel belongs to the
//! server alone and leaves no trace in the client.

use vstd::prelude::*;
use vstd::string::*;

use crate::dependencies::{collected_all, Dependencies};
use crate::text::texts;
use crate::types::{TypeRef, TypeRefInfo, TypeRegistry};

verus! {

/// The channel a parameter is read from.
#[derive(Debug, Clone, Copy, PartialEq, Eq, PartialOrd, Ord, Structural)]
pub enum ApiExtractorType {
    Json,
    Path,
    Query,
}

/// The kinds of value a generated function passes on.
pub enum TsType {
    Json,
    Path,
    Query,
}

/// The shape of a declared parameter: the wrapper that stands around its
/// inner type.
#[derive(Debug, PartialEq, Eq)]
pub enum Wrapper {
    /// The request body, as JSON.
    Json,
    /// The query string.
    Query,
    /// A submitted form.
    Form,
    /// The dynamic segments of the path.
    Path,
    /// State shared by the handlers of a server.
    Data,
    /// The cookies of a request.
    CookieJar,
    /// A reference to a parameter of another shape.
    Ref(Box<Wrapper>),
    /// Any other shape.
    Other,
}

impl Wrapper {
    /// The channel of a parameter of this shape. A reference has the channel
    /// of what it refers to; forms, shared state, cookies and unknown shapes
    /// have none.
    pub open spec fn channel(self) -> Option<ApiExtractorType>
        decreases self,
    {
        match self {
            Wrapper::Json => Some(ApiExtractorType::Json),
            Wrapper::Query => Some(ApiExtractorType::Query),
            Wrapper::Path => Some(ApiExtractorType::Path),
            Wrapper::Ref(inner) => inner.channel(),
            Wrapper::Form | Wrapper::Data | Wrapper::CookieJar | Wrapper::Other => None,
        }
    }

    /// Finds the channel of a parameter of this shape.
    pub fn classify(&self) -> (kind: Option<ApiExtractorType>)
        ensures
            kind == self.channel(),
        decreases self,
    {
        match self {
            Wrapper::Json => Some(ApiExtractorType::Json),
            Wrapper::Query => Some(ApiExtractorType::Query),
            Wrapper::Path => Some(ApiExtractorType::Path),
            Wrapper::Ref(inner) => inner.classify(),
            Wrapper::Form | Wrapper::Data | Wrapper::CookieJar | Wrapper::Other => None,
        }
    }
}

/// The name a generated function gives the parameter of a channel.
pub open spec fn channel_name(kind: ApiExtractorType) -> Seq<char> {
    match kind {
        ApiExtractorType::Json => "body"@,
        ApiExtractorType::Path => "path"@,
        ApiExtractorType::Query => "query"@,
    }
}

/// The parameter as it stands in the signature of a generated function.
pub open spec fn param_text(kind: ApiExtractorType, inner_name: Seq<char>) -> Seq<char> {
    channel_name(kind) + ": "@ + inner_name
}

/// The options a generated function passes on for a parameter. The body is
/// sent as JSON.
pub open spec fn options_text(kind: ApiExtractorType) -> Seq<Seq<char>> {
    match kind {
        ApiExtractorType::Json => seq!["body"@, "mediaType: 'application/json; charset=utf-8'"@],
        ApiExtractorType::Path => seq!["path"@],
        ApiExtractorType::Query => seq!["query"@],
    }
}

/// The annotation of what a generated function returns.
pub open spec fn response_text(inner_name: Seq<char>) -> Seq<char> {
    ": CancelablePromise<"@ + inner_name + ">"@
}

/// The text of a string that may be missing.
pub open spec fn text_of(s: Option<String>) -> Option<Seq<char>> {
    match s {
        Some(s) => Some(s@),
        None => None,
    }
}

/// The texts of a list of strings that may be missing.
pub open spec fn texts_of(v: Option<Vec<String>>) -> Option<Seq<Seq<char>>> {
    match v {
        Some(v) => Some(texts(v@)),
        None => None,
    }
}

/// The name of a channel's parameter.
fn channel_str(kind: ApiExtractorType) -> (name: &'static str)
    ensures
        name@ == channel_name(kind),
{
    match kind {
        ApiExtractorType::Json => "body",
        ApiExtractorType::Path => "path",
        ApiExtractorType::Query => "query",
    }
}

/// A parameter of a handler, or its response: something with a channel and
/// an inner type.
pub trait ApiExtractor {
    /// The channel of the parameter, if it has one.
    spec fn channel(&self) -> Option<ApiExtractorType>;

    /// The type inside the wrapper.
    spec fn inner_type(&self) -> TypeRefInfo;

    fn extractor_type(&self) -> (kind: Option<ApiExtractorType>)
        ensures
            kind == self.channel(),
    ;

    fn inner(&self) -> (inner: &TypeRef)
        ensures
            inner@ == self.inner_type(),
    ;

    /// The parameter as it stands in the generated signature: the name of
    /// its channel and the name of its inner type. A parameter without a
    /// channel does not stand there.
    fn param(&self) -> (param: Option<String>)
        ensures
            text_of(param) == match self.channel() {
                Some(kind) => Some(param_text(kind, self.inner_type().name)),
                None => None,
            },
    {
        match self.extractor_type() {
            Some(kind) => {
                let mut param = String::from_str(channel_str(kind));
                param.append(": ");
                param.append(self.inner().name.as_str());
                Some(param)
            },
            None => None,
        }
    }

    /// The options the generated function passes on for the parameter.
    fn options(&self) -> (options: Option<Vec<String>>)
        ensures
            texts_of(options) == match self.channel() {
                Some(kind) => Some(options_text(kind)),
                None => None,
            },
    {
        match self.extractor_type() {
            Some(kind) => {
                let mut options: Vec<String> = Vec::new();
                options.push(String::from_str(channel_str(kind)));
                if let ApiExtractorType::Json = kind {
                    options.push(String::from_str("mediaType: 'application/json; charset=utf-8'"));
                }
                assert(texts(options@) =~= options_text(kind));
                Some(options)
            },
            None => None,
        }
    }

    /// The annotation of the return type, where this is a handler's response.
    fn response_type(&self) -> (annotation: Option<String>)
        ensures
            text_of(annotation) == match self.channel() {
                Some(_) => Some(response_text(self.inner_type().name)),
                None => None,
            },
    {
        match self.extractor_type() {
            Some(_) => {
                let mut annotation = String::from_str(": CancelablePromise<");
                annotation.append(self.inner().name.as_str());
                annotation.append(">");
                Some(annotation)
            },
            None => None,
        }
    }

    /// Collects the declarations the inner type needs. A parameter without a
    /// channel needs none.
    fn add_dependencies(&self, registry: &TypeRegistry, dependencies: &mut Dependencies)
        ensures
            final(dependencies)@ == match self.channel() {
                Some(_) => collected_all(
                    registry@,
                    old(dependencies)@,
                    self.inner_type().dependencies,
                ),
                None => old(dependencies)@,
            },
    {
        if self.extractor_type().is_some() {
            dependencies.add_all(registry, &self.inner().dependencies);
        }
    }
}

/// What an extractor says, as plain text.
pub struct ExtractorInfo {
    pub wrapper: Wrapper,
    pub inner: TypeRefInfo,
}

/// A declared parameter: its wrapper and its inner type.
#[derive(Debug, PartialEq, Eq)]
pub struct Extractor {
    pub wrapper: Wrapper,
    pub inner: TypeRef,
}

impl View for Extractor {
    type V = ExtractorInfo;

    open spec fn view(&self) -> ExtractorInfo {
        ExtractorInfo { wrapper: self.wrapper, inner: self.inner@ }
    }
}

impl Extractor {
    pub fn new(wrapper: Wrapper, inner: TypeRef) -> (e: Extractor)
        ensures
            e.wrapper == wrapper,
            e.inner == inner,
    {
        Extractor { wrapper, inner }
    }
}

impl ApiExtractor for Extractor {
    open spec fn channel(&self) -> Option<ApiExtractorType> {
        self.wrapper.channel()
    }

    open spec fn inner_type(&self) -> TypeRefInfo {
        self.inner@
    }

    fn extractor_type(&self) -> (kind: Option<ApiExtractorType>) {
        self.wrapper.classify()
    }

    fn inner(&self) -> (inner: &TypeRef) {
        &self.inner
    }
}

/// A parameter taken by reference is the parameter it refers to.
impl<T: ApiExtractor> ApiExtractor for &T {
    open spec fn channel(&self) -> Option<ApiExtractorType> {
        (**self).channel()
    }

    open spec fn inner_type(&self) -> TypeRefInfo {
        (**self).inner_type()
    }

    fn extractor_type(&self) -> (kind: Option<ApiExtractorType>) {
        (**self).extractor_type()
    }

    fn inner(&self) -> (inner: &TypeRef) {
        (**self).inner()
    }
}

} // verus!
