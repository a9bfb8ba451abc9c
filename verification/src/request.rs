//! The request function of one route: its signature, the options it passes
//! on, the declarations it needs, and the text of the module that holds it.

use vstd::prelude::*;
use vstd::string::*;

use crate::dependencies::{collected_all, Dependencies};
use crate::extractor::{
    options_text, param_text, response_text, text_of, ApiExtractor, ApiExtractorType,
};
use crate::text::{join, join_spec, texts};
use crate::types::{infos, lemma_ordered, ordered, TypeInfo, TypeRefInfo, TypeRegistry};

verus! {

/// What a request holds, as plain text.
pub struct ApiRequestView {
    /// The parameters of the signature, in the order of their declaration.
    pub params: Seq<Seq<char>>,
    /// The annotation of the return type, if the route has a response.
    pub response_type: Option<Seq<char>>,
    /// The options passed on, in the order of the parameters.
    pub options: Seq<Seq<char>>,
    /// The declarations the signature needs, by the names of their types.
    pub types: Map<Seq<char>, TypeInfo>,
}

/// The request function of one route, as far as it is put together.
#[derive(Debug)]
pub struct ApiRequest {
    params: Vec<String>,
    response_type: Option<String>,
    options: Vec<String>,
    types: Dependencies,
}

impl View for ApiRequest {
    type V = ApiRequestView;

    closed spec fn view(&self) -> ApiRequestView {
        ApiRequestView {
            params: texts(self.params@),
            response_type: text_of(self.response_type),
            options: texts(self.options@),
            types: self.types@,
        }
    }
}

/// A request without parameters, response or declarations.
pub open spec fn empty_request() -> ApiRequestView {
    ApiRequestView {
        params: Seq::empty(),
        response_type: None,
        options: Seq::empty(),
        types: Map::empty(),
    }
}

/// The request with one more parameter. A parameter with a channel adds its
/// text to the signature, its options to the options, and what its inner
/// type needs to the declarations. A parameter without a channel adds
/// nothing.
pub open spec fn with_param(
    request: ApiRequestView,
    registry: Map<Seq<char>, TypeInfo>,
    channel: Option<ApiExtractorType>,
    inner: TypeRefInfo,
) -> ApiRequestView {
    match channel {
        Some(kind) => ApiRequestView {
            params: request.params.push(param_text(kind, inner.name)),
            response_type: request.response_type,
            options: request.options + options_text(kind),
            types: collected_all(registry, request.types, inner.dependencies),
        },
        None => request,
    }
}

/// The request with its response set. A response with a channel sets the
/// annotation of the return type and adds what its inner type needs to the
/// declarations. A response without a channel leaves the request without an
/// annotation.
pub open spec fn with_response(
    request: ApiRequestView,
    registry: Map<Seq<char>, TypeInfo>,
    channel: Option<ApiExtractorType>,
    inner: TypeRefInfo,
) -> ApiRequestView {
    match channel {
        Some(_) => ApiRequestView {
            params: request.params,
            response_type: Some(response_text(inner.name)),
            options: request.options,
            types: collected_all(registry, request.types, inner.dependencies),
        },
        None => ApiRequestView {
            params: request.params,
            response_type: None,
            options: request.options,
            types: request.types,
        },
    }
}

/// The two lines every module starts with.
pub open spec fn imports_text() -> Seq<char> {
    "import { request as __request } from '../request';\n"@
        + "import { CancelablePromise } from '../CancelablePromise';\n\n"@
}

/// The declarations, each exported and followed by an empty line.
pub open spec fn declarations_text(types: Seq<TypeInfo>) -> Seq<char>
    decreases types.len(),
{
    if types.len() == 0 {
        Seq::empty()
    } else {
        declarations_text(types.drop_last()) + "export "@ + types.last().declaration + "\n\n"@
    }
}

/// The annotation of the return type, or nothing.
pub open spec fn annotation_text(response_type: Option<Seq<char>>) -> Seq<char> {
    match response_type {
        Some(annotation) => annotation,
        None => Seq::empty(),
    }
}

/// The request function: it hands the server, the method, the path and the
/// options on to the request helper, and does nothing else.
pub open spec fn function_text(
    request: ApiRequestView,
    server_url: Seq<char>,
    method: Seq<char>,
    path: Seq<char>,
) -> Seq<char> {
    "export function request("@ + join_spec(request.params, ", "@) + ")"@ + annotation_text(
        request.response_type,
    ) + " {\n    return __request(\n        { url: '"@ + server_url
        + "' },\n        {\n            method: '"@ + method + "',\n            url: '"@ + path
        + "',\n            "@ + join_spec(request.options, ",\n\t\t\t"@)
        + "\n        }\n    );\n}"@
}

/// The text of the module: the imports, the declarations in the order of
/// their names, and the request function.
pub open spec fn module_text(
    request: ApiRequestView,
    server_url: Seq<char>,
    method: Seq<char>,
    path: Seq<char>,
) -> Seq<char> {
    imports_text() + declarations_text(ordered(request.types)) + function_text(
        request,
        server_url,
        method,
        path,
    )
}

impl ApiRequest {
    pub fn new() -> (request: ApiRequest)
        ensures
            request@ == empty_request(),
    {
        let request = ApiRequest {
            params: Vec::new(),
            response_type: None,
            options: Vec::new(),
            types: Dependencies::new(),
        };
        assert(texts(request.params@) =~= Seq::<Seq<char>>::empty());
        assert(texts(request.options@) =~= Seq::<Seq<char>>::empty());
        request
    }

    /// The parameters of the signature, in the order of their declaration.
    pub fn params(&self) -> (params: &Vec<String>)
        ensures
            texts(params@) == self@.params,
    {
        &self.params
    }

    /// The annotation of the return type, if the route has a response.
    pub fn response_type(&self) -> (annotation: &Option<String>)
        ensures
            text_of(*annotation) == self@.response_type,
    {
        &self.response_type
    }

    /// The options passed on, in the order of the parameters.
    pub fn options(&self) -> (options: &Vec<String>)
        ensures
            texts(options@) == self@.options,
    {
        &self.options
    }

    /// The declarations the signature needs.
    pub fn types(&self) -> (types: &Dependencies)
        ensures
            types@ == self@.types,
    {
        &self.types
    }

    /// Adds a parameter of the handler.
    pub fn register_param<T: ApiExtractor>(&mut self, extractor: &T, registry: &TypeRegistry)
        ensures
            final(self)@ == with_param(
                old(self)@,
                registry@,
                extractor.channel(),
                extractor.inner_type(),
            ),
    {
        if let Some(param) = extractor.param() {
            let ghost kind = extractor.channel()->0;
            proof {
                assert(texts(self.params@.push(param)) =~= texts(self.params@).push(param@));
            }
            self.params.push(param);
            if let Some(mut options) = extractor.options() {
                proof {
                    assert(texts(self.options@ + options@) =~= texts(self.options@) + texts(
                        options@,
                    ));
                }
                self.options.append(&mut options);
            }
            extractor.add_dependencies(registry, &mut self.types);
        }
    }

    /// Sets the response of the handler.
    pub fn register_response_type<T: ApiExtractor>(
        &mut self,
        extractor: &T,
        registry: &TypeRegistry,
    )
        ensures
            final(self)@ == with_response(
                old(self)@,
                registry@,
                extractor.channel(),
                extractor.inner_type(),
            ),
    {
        self.response_type = extractor.response_type();
        extractor.add_dependencies(registry, &mut self.types);
    }

    /// Writes the module out for a server, a method and a path.
    pub fn finish(&mut self, server_url: &str, method: &str, path: &str) -> (source: String)
        ensures
            source@ == module_text(old(self)@, server_url@, method@, path@),
            final(self)@ == old(self)@,
    {
        let mut source = String::from_str("import { request as __request } from '../request';\n");
        source.append("import { CancelablePromise } from '../CancelablePromise';\n\n");
        let types = self.types.values();
        let mut i: usize = 0;
        proof {
            assert(source@ + declarations_text(infos(types@).take(0)) =~= source@);
        }
        while i < types.len()
            invariant
                i <= types.len(),
                source@ == imports_text() + declarations_text(infos(types@).take(i as int)),
            decreases types.len() - i,
        {
            let ghost done = infos(types@).take(i as int);
            let ghost next = infos(types@).take(i + 1);
            proof {
                assert(next.drop_last() =~= done);
                assert(next.last() == types@[i as int]@);
            }
            source.append("export ");
            source.append(types[i].declaration.as_str());
            source.append("\n\n");
            proof {
                assert(source@ =~= imports_text() + declarations_text(next));
            }
            i = i + 1;
        }
        proof {
            assert(infos(types@).take(types.len() as int) =~= infos(types@));
            lemma_ordered(infos(types@));
        }
        let params = join(&self.params, ", ");
        let options = join(&self.options, ",\n\t\t\t");
        let mut function = String::from_str("export function request(");
        function.append(params.as_str());
        function.append(")");
        match &self.response_type {
            Some(annotation) => {
                function.append(annotation.as_str());
            },
            None => {
                assert(function@ + Seq::<char>::empty() =~= function@);
            },
        }
        function.append(" {\n    return __request(\n        { url: '");
        function.append(server_url);
        function.append("' },\n        {\n            method: '");
        function.append(method);
        function.append("',\n            url: '");
        function.append(path);
        function.append("',\n            ");
        function.append(options.as_str());
        function.append("\n        }\n    );\n}");
        source.append(function.as_str());
        source
    }
}

impl Default for ApiRequest {
    fn default() -> (request: ApiRequest)
        ensures
            request@ == empty_request(),
    {
        ApiRequest::new()
    }
}

} // verus!
