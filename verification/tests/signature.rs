use ts_api::signature::{
    get_crate_name, handler_types, parse_request_type, parse_type_inside_json, ApiAttributes,
    FnArg, FoundCrate, GenericArgument, HandlerTypes, PathArguments, PathSegment, Signature,
    SignatureError, Type, TypeExpr,
};
use ts_api::ApiMethod;

fn segment(ident: &str, arguments: PathArguments) -> PathSegment {
    PathSegment { ident: ident.to_string(), arguments }
}

fn plain(idents: &[&str]) -> TypeExpr {
    TypeExpr::Path(idents.iter().map(|i| segment(i, PathArguments::Bare)).collect())
}

fn argument(tokens: &str, ty: TypeExpr) -> GenericArgument {
    GenericArgument { tokens: tokens.to_string(), ty: Some(ty) }
}

fn generic(ident: &str, arguments: Vec<GenericArgument>) -> TypeExpr {
    TypeExpr::Path(vec![segment(ident, PathArguments::AngleBracketed(arguments))])
}

fn handler(is_async: bool, inputs: Vec<FnArg>, output: Option<TypeExpr>) -> Signature {
    Signature { ident: "a".to_string(), is_async, inputs, output }
}

#[test]
fn test_type() {
    let ty = generic("A", vec![argument("c :: B", plain(&["c", "B"]))]);
    let ty = Type::from_syn(&ty).unwrap();
    println!("{}", ty.to_string());
    assert_eq!(ty.ident, "A");
    assert_eq!(ty.generics.len(), 1);
    assert_eq!(ty.generics[0].ident, "B");
    assert_eq!(ty.to_string(), "A<B>");
}

#[test]
fn test_api() {
    let attributes = ApiAttributes { method: ApiMethod::Get, path: "/".to_string() };
    let input = handler(
        true,
        vec![FnArg::Typed(generic("Json", vec![argument("a :: B", plain(&["a", "B"]))]))],
        Some(generic("Json", vec![argument("C", plain(&["C"]))])),
    );

    let output = handler_types(&input).unwrap();
    println!("{:?}", output);
    assert_eq!(
        output,
        HandlerTypes { request: Some("a :: B".to_string()), response: Some("C".to_string()) }
    );
    assert_eq!(attributes.method.as_str(), "GET");
    assert_eq!(attributes.route_path(), "/");
}

#[test]
fn handler_must_be_async() {
    let error = handler_types(&handler(false, vec![FnArg::Receiver], Some(plain(&["u32"]))))
        .unwrap_err();
    assert_eq!(error.reason, SignatureError::NotAsync);
    assert_eq!(error.handler, "a");
    assert_eq!(error.reason.message(), "Must be async");
}

#[test]
fn first_argument_must_not_be_self() {
    let input = handler(true, vec![FnArg::Receiver], Some(plain(&["u32"])));
    let error = handler_types(&input).unwrap_err();
    assert_eq!(error.reason, SignatureError::SelfArgument);
    assert_eq!(error.reason.message(), "First argument must not be self");
    assert_eq!(parse_request_type(&input), Err(SignatureError::SelfArgument));
}

#[test]
fn response_must_be_json() {
    for output in [plain(&["u32"]), TypeExpr::Other, plain(&["Json"])] {
        let error = handler_types(&handler(true, vec![], Some(output))).unwrap_err();
        assert_eq!(error.reason, SignatureError::ResponseNotJson);
        assert_eq!(error.reason.message(), "Response type must be Json<...>");
    }
}

#[test]
fn handler_without_parameters_or_return_type() {
    assert_eq!(
        handler_types(&handler(true, vec![], None)),
        Ok(HandlerTypes { request: None, response: None })
    );
    assert_eq!(parse_request_type(&handler(true, vec![], None)), Ok(None));
}

#[test]
fn only_the_first_parameter_is_read() {
    let input = handler(
        true,
        vec![
            FnArg::Typed(plain(&["Data"])),
            FnArg::Typed(generic("Json", vec![argument("B", plain(&["B"]))])),
            FnArg::Receiver,
        ],
        None,
    );
    assert_eq!(handler_types(&input), Ok(HandlerTypes { request: None, response: None }));
}

#[test]
fn json_is_found_in_any_segment() {
    let ty = TypeExpr::Path(vec![
        segment("poem", PathArguments::Bare),
        segment("web", PathArguments::Bare),
        segment(
            "Json",
            PathArguments::AngleBracketed(vec![
                argument("Vec < u8 >", generic("Vec", vec![argument("u8", plain(&["u8"]))])),
                GenericArgument { tokens: "'a".to_string(), ty: None },
            ]),
        ),
        segment("Json", PathArguments::AngleBracketed(vec![argument("X", plain(&["X"]))])),
    ]);
    assert_eq!(parse_type_inside_json(&ty), Some("Vec < u8 >".to_string()));
    assert_eq!(parse_type_inside_json(&TypeExpr::Other), None);
    assert_eq!(parse_type_inside_json(&plain(&["a", "B"])), None);
    assert_eq!(
        parse_type_inside_json(&TypeExpr::Path(vec![segment("Json", PathArguments::Parenthesized)])),
        None
    );
}

#[test]
fn named_types_are_read_from_the_last_segment() {
    let ty = TypeExpr::Path(vec![
        segment("std", PathArguments::Bare),
        segment(
            "Result",
            PathArguments::AngleBracketed(vec![
                argument("Vec < a :: B >", generic("Vec", vec![argument("a :: B", plain(&["a", "B"]))])),
                argument("E", plain(&["E"])),
            ]),
        ),
    ]);
    let named = Type::from_syn(&ty).unwrap();
    assert_eq!(named.to_string(), "Result<Vec<B>, E>");
    assert_eq!(Type::from_syn(&plain(&["u32"])).unwrap().to_string(), "u32");
    assert_eq!(Type::from_syn(&generic("Unit", vec![])).unwrap().to_string(), "Unit");
}

#[test]
fn unsupported_types_are_refused() {
    assert_eq!(Type::from_syn(&TypeExpr::Other).unwrap_err(), SignatureError::UnsupportedType);
    assert_eq!(
        Type::from_syn(&TypeExpr::Path(vec![])).unwrap_err(),
        SignatureError::MissingIdent
    );
    let lifetime = GenericArgument { tokens: "'a".to_string(), ty: None };
    assert_eq!(
        Type::from_syn(&generic("A", vec![argument("B", plain(&["B"])), lifetime])).unwrap_err(),
        SignatureError::UnsupportedGeneric
    );
    let nested = generic(
        "A",
        vec![
            argument("& B", TypeExpr::Other),
            GenericArgument { tokens: "'a".to_string(), ty: None },
        ],
    );
    assert_eq!(Type::from_syn(&nested).unwrap_err(), SignatureError::UnsupportedType);
    assert_eq!(
        SignatureError::UnsupportedType.message(),
        "Only syn::Type::Path types are supported."
    );
    assert_eq!(
        SignatureError::MissingIdent.message(),
        "Only types with ident names are supported."
    );
    assert_eq!(
        SignatureError::UnsupportedGeneric.message(),
        "Only types are supported as generics."
    );
}

#[test]
fn route_paths_start_with_a_slash() {
    let path = |p: &str| ApiAttributes { method: ApiMethod::Post, path: p.to_string() }.route_path();
    assert_eq!(path("/user"), "/user");
    assert_eq!(path("user"), "/user");
    assert_eq!(path(""), "/");
    assert_eq!(path("//"), "//");
}

#[test]
fn crate_names() {
    assert_eq!(get_crate_name("poem", true, Some(FoundCrate::Name("web".to_string()))), "crate");
    assert_eq!(get_crate_name("poem", false, Some(FoundCrate::Name("web".to_string()))), "web");
    assert_eq!(get_crate_name("ts_api", false, Some(FoundCrate::Itself)), "ts_api");
    assert_eq!(get_crate_name("ts_rs", false, None), "ts_rs");
}
