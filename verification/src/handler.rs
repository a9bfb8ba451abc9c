//! Routes: what a handler is registered under, and the module that is
//! generated for it.

use vstd::prelude::*;
use vstd::string::*;

use crate::dependencies::{closed, from_registry, lemma_collected_all_closed};
use crate::extractor::{param_text, Extractor, ExtractorInfo};
use crate::method::ApiMethod;
use crate::path::{file_name_spec, ts_file_name, ts_path, ts_path_spec};
use crate::request::{
    empty_request, module_text, with_param, with_response, ApiRequest, ApiRequestView,
};
use crate::types::{TypeInfo, TypeRegistry};

verus! {

/// What the registry needs to know of a handler: the method and the path it
/// answers, and the module that calls it.
pub trait ApiHandler {
    spec fn method_spec(&self) -> ApiMethod;

    spec fn path_spec(&self) -> Seq<char>;

    /// The text of the client module for a server and a set of known types.
    spec fn typescript_spec(
        &self,
        server_url: Seq<char>,
        types: Map<Seq<char>, TypeInfo>,
    ) -> Seq<char>;

    fn method(&self) -> (method: ApiMethod)
        ensures
            method == self.method_spec(),
    ;

    fn path(&self) -> (path: &str)
        ensures
            path@ == self.path_spec(),
    ;

    fn typescript(&self, server_url: &str, types: &TypeRegistry) -> (source: String)
        ensures
            source@ == self.typescript_spec(server_url@, types@),
    ;

    /// The path as the client calls it: every `:name` segment is `{name}`.
    fn ts_path(&self) -> (client_path: String)
        ensures
            client_path@ == ts_path_spec(self.path_spec()),
    {
        ts_path(self.path())
    }

    /// The name of the file the module is written to. Only the path decides
    /// it: handlers of one path under different methods share a file name.
    fn ts_file_name(&self) -> (name: String)
        ensures
            name@ == file_name_spec(self.path_spec()),
    {
        ts_file_name(self.path())
    }
}

/// What a route descriptor says, as plain text.
pub struct RouteInfo {
    pub method: ApiMethod,
    pub path: Seq<char>,
    pub parameters: Seq<ExtractorInfo>,
    pub response: Option<ExtractorInfo>,
}

/// A route: its method, its path, the parameters of its handler in the
/// order of their declaration, and the handler's response, if it has one.
#[derive(Debug, PartialEq, Eq)]
pub struct RouteDescriptor {
    pub method: ApiMethod,
    pub path: String,
    pub parameters: Vec<Extractor>,
    pub response: Option<Extractor>,
}

/// What a sequence of extractors says.
pub open spec fn extractor_infos(v: Seq<Extractor>) -> Seq<ExtractorInfo> {
    Seq::new(v.len(), |i: int| v[i]@)
}

impl View for RouteDescriptor {
    type V = RouteInfo;

    open spec fn view(&self) -> RouteInfo {
        RouteInfo {
            method: self.method,
            path: self.path@,
            parameters: extractor_infos(self.parameters@),
            response: match self.response {
                Some(e) => Some(e@),
                None => None,
            },
        }
    }
}

/// The request with the parameters added one after the other.
pub open spec fn with_params(
    request: ApiRequestView,
    registry: Map<Seq<char>, TypeInfo>,
    parameters: Seq<ExtractorInfo>,
) -> ApiRequestView
    decreases parameters.len(),
{
    if parameters.len() == 0 {
        request
    } else {
        with_param(
            with_params(request, registry, parameters.drop_last()),
            registry,
            parameters.last().wrapper.channel(),
            parameters.last().inner,
        )
    }
}

/// The request of a route: its parameters in the order of their
/// declaration, then its response.
pub open spec fn assembled(route: RouteInfo, registry: Map<Seq<char>, TypeInfo>) -> ApiRequestView {
    let request = with_params(empty_request(), registry, route.parameters);
    match route.response {
        Some(e) => with_response(request, registry, e.wrapper.channel(), e.inner),
        None => request,
    }
}

/// The module of a route: its request, written out for its method and for
/// its path as the client calls it.
pub open spec fn route_module(
    route: RouteInfo,
    server_url: Seq<char>,
    registry: Map<Seq<char>, TypeInfo>,
) -> Seq<char> {
    module_text(assembled(route, registry), server_url, route.method.name(), ts_path_spec(route.path))
}

/// Whether a parameter has a channel, and so a place in the client.
pub open spec fn has_channel() -> spec_fn(ExtractorInfo) -> bool {
    |e: ExtractorInfo| e.wrapper.channel() is Some
}

/// The text of a parameter that has a channel.
pub open spec fn param_of() -> spec_fn(ExtractorInfo) -> Seq<char> {
    |e: ExtractorInfo| param_text(e.wrapper.channel()->0, e.inner.name)
}

/// The signature of a request holds the parameters that have a channel, and
/// no others, in the order of their declaration: as many as the route has
/// parameters with a channel.
pub proof fn lemma_signature(
    request: ApiRequestView,
    registry: Map<Seq<char>, TypeInfo>,
    parameters: Seq<ExtractorInfo>,
)
    ensures
        with_params(request, registry, parameters).params == request.params + parameters.filter(
            has_channel(),
        ).map_values(param_of()),
        with_params(request, registry, parameters).params.len() == request.params.len()
            + parameters.filter(has_channel()).len(),
        with_params(request, registry, parameters).response_type == request.response_type,
    decreases parameters.len(),
{
    reveal(Seq::filter);
    let kept = parameters.filter(has_channel());
    if parameters.len() == 0 {
        assert(request.params + kept.map_values(param_of()) =~= request.params);
    } else {
        let rest = parameters.drop_last();
        let last = parameters.last();
        lemma_signature(request, registry, rest);
        let earlier = rest.filter(has_channel());
        if last.wrapper.channel() is Some {
            assert(kept == earlier.push(last));
            assert(request.params + kept.map_values(param_of()) =~= (request.params
                + earlier.map_values(param_of())).push(param_of()(last)));
        } else {
            assert(kept == earlier);
        }
    }
}

/// The signature of a route's request holds the route's parameters that
/// have a channel, in the order of their declaration.
pub proof fn lemma_assembled_signature(route: RouteInfo, registry: Map<Seq<char>, TypeInfo>)
    ensures
        assembled(route, registry).params == route.parameters.filter(has_channel()).map_values(
            param_of(),
        ),
        assembled(route, registry).params.len() == route.parameters.filter(has_channel()).len(),
{
    lemma_signature(empty_request(), registry, route.parameters);
    assert(empty_request().params + route.parameters.filter(has_channel()).map_values(param_of())
        =~= route.parameters.filter(has_channel()).map_values(param_of()));
}

/// The declarations of a request stay self-contained when parameters are
/// added: with every declaration they hold the registered types that it
/// mentions, each as the registry has it.
pub proof fn lemma_params_self_contained(
    request: ApiRequestView,
    registry: Map<Seq<char>, TypeInfo>,
    parameters: Seq<ExtractorInfo>,
)
    requires
        closed(registry, request.types.dom()),
        from_registry(registry, request.types),
    ensures
        closed(registry, with_params(request, registry, parameters).types.dom()),
        from_registry(registry, with_params(request, registry, parameters).types),
    decreases parameters.len(),
{
    if parameters.len() > 0 {
        let earlier = with_params(request, registry, parameters.drop_last());
        lemma_params_self_contained(request, registry, parameters.drop_last());
        lemma_collected_all_closed(registry, earlier.types, parameters.last().inner.dependencies);
    }
}

/// The module of a route is self-contained: with every declaration it
/// holds, it holds the registered types that the declaration mentions, and
/// every declaration is the registry's.
pub proof fn lemma_assembled_self_contained(route: RouteInfo, registry: Map<Seq<char>, TypeInfo>)
    ensures
        closed(registry, assembled(route, registry).types.dom()),
        from_registry(registry, assembled(route, registry).types),
{
    let request = with_params(empty_request(), registry, route.parameters);
    lemma_params_self_contained(empty_request(), registry, route.parameters);
    if route.response is Some {
        lemma_collected_all_closed(registry, request.types, route.response->0.inner.dependencies);
    }
}

/// A route without parameters that have a channel and without a response
/// has an empty signature and no annotation.
pub proof fn lemma_assembled_bare(route: RouteInfo, registry: Map<Seq<char>, TypeInfo>)
    requires
        forall|i: int|
            0 <= i < route.parameters.len() ==> (#[trigger] route.parameters[i]).wrapper.channel()
                is None,
        route.response is None,
    ensures
        assembled(route, registry) == empty_request(),
{
    lemma_all_without_channel(empty_request(), registry, route.parameters);
}

/// Parameters without a channel leave a request as it is.
proof fn lemma_all_without_channel(
    request: ApiRequestView,
    registry: Map<Seq<char>, TypeInfo>,
    parameters: Seq<ExtractorInfo>,
)
    requires
        forall|i: int|
            0 <= i < parameters.len() ==> (#[trigger] parameters[i]).wrapper.channel() is None,
    ensures
        with_params(request, registry, parameters) == request,
    decreases parameters.len(),
{
    if parameters.len() > 0 {
        let rest = parameters.drop_last();
        assert forall|i: int| 0 <= i < rest.len() implies (#[trigger] rest[i]).wrapper.channel()
            is None by {
            assert(rest[i] == parameters[i]);
        }
        lemma_all_without_channel(request, registry, rest);
        assert(parameters[parameters.len() - 1].wrapper.channel() is None);
    }
}

impl RouteDescriptor {
    pub fn new(
        method: ApiMethod,
        path: &str,
        parameters: Vec<Extractor>,
        response: Option<Extractor>,
    ) -> (route: RouteDescriptor)
        ensures
            route.method == method,
            route.path@ == path@,
            route.parameters == parameters,
            route.response == response,
    {
        RouteDescriptor { method, path: String::from_str(path), parameters, response }
    }

    /// Puts the request of the route together: the parameters in the order
    /// of their declaration, then the response.
    pub fn assemble(&self, registry: &TypeRegistry) -> (request: ApiRequest)
        ensures
            request@ == assembled(self@, registry@),
    {
        let mut request = ApiRequest::new();
        let mut i: usize = 0;
        while i < self.parameters.len()
            invariant
                i <= self.parameters.len(),
                request@ == with_params(
                    empty_request(),
                    registry@,
                    self@.parameters.take(i as int),
                ),
            decreases self.parameters.len() - i,
        {
            proof {
                let next = self@.parameters.take(i + 1);
                assert(next.drop_last() =~= self@.parameters.take(i as int));
                assert(next.last() == self.parameters@[i as int]@);
            }
            request.register_param(&self.parameters[i], registry);
            i = i + 1;
        }
        proof {
            assert(self@.parameters.take(self.parameters.len() as int) =~= self@.parameters);
        }
        match &self.response {
            Some(response) => {
                request.register_response_type(response, registry);
            },
            None => {},
        }
        request
    }
}

impl ApiHandler for RouteDescriptor {
    open spec fn method_spec(&self) -> ApiMethod {
        self.method
    }

    open spec fn path_spec(&self) -> Seq<char> {
        self.path@
    }

    open spec fn typescript_spec(
        &self,
        server_url: Seq<char>,
        types: Map<Seq<char>, TypeInfo>,
    ) -> Seq<char> {
        route_module(self@, server_url, types)
    }

    fn method(&self) -> (method: ApiMethod) {
        self.method
    }

    fn path(&self) -> (path: &str) {
        self.path.as_str()
    }

    fn typescript(&self, server_url: &str, types: &TypeRegistry) -> (source: String) {
        let mut request = self.assemble(types);
        let client_path = ts_path(self.path.as_str());
        request.finish(server_url, self.method.as_str(), client_path.as_str())
    }
}

} // verus!
