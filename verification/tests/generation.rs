use ts_api::dispatch::group_by_path;
use ts_api::{
    Api, ApiExtractor, ApiExtractorType, ApiHandler, ApiMethod, ApiRequest, Dispatch,
    ExportDirectory, Extractor, RouteDescriptor, TypeDescriptor, TypeRef, TypeRegistry, Wrapper,
};

fn names(items: &[&str]) -> Vec<String> {
    items.iter().map(|s| s.to_string()).collect()
}

fn extractor(wrapper: Wrapper, name: &str, dependencies: &[&str]) -> Extractor {
    Extractor::new(wrapper, TypeRef::new(name, names(dependencies)))
}

fn auth_registry() -> TypeRegistry {
    let mut registry = TypeRegistry::new();
    registry.insert(TypeDescriptor::new(
        "Auth",
        "type Auth = { email: string, password: string, }",
        names(&[]),
    ));
    registry.insert(TypeDescriptor::new(
        "AuthResponse",
        "type AuthResponse = { token: string, }",
        names(&[]),
    ));
    registry.insert(TypeDescriptor::new(
        "Error",
        "enum Error { NotAndEmail, InvalidPassword }",
        names(&[]),
    ));
    registry
}

fn user_route() -> RouteDescriptor {
    RouteDescriptor::new(
        ApiMethod::Get,
        "/user",
        vec![extractor(Wrapper::Json, "string", &[])],
        Some(extractor(Wrapper::Json, "number", &[])),
    )
}

fn login_route() -> RouteDescriptor {
    RouteDescriptor::new(
        ApiMethod::Get,
        "/user/login",
        vec![extractor(Wrapper::Json, "Auth", &["Auth"])],
        Some(extractor(
            Wrapper::Json,
            "{ Ok : AuthResponse } | { Err : Error }",
            &["AuthResponse", "Error"],
        )),
    )
}

const USER_MODULE: &str = "import { request as __request } from '../request';
import { CancelablePromise } from '../CancelablePromise';

export function request(body: string): CancelablePromise<number> {
    return __request(
        { url: 'http://localhost:3000' },
        {
            method: 'GET',
            url: '/user',
            body,
\t\t\tmediaType: 'application/json; charset=utf-8'
        }
    );
}";

const LOGIN_MODULE: &str = "import { request as __request } from '../request';
import { CancelablePromise } from '../CancelablePromise';

export type Auth = { email: string, password: string, }

export type AuthResponse = { token: string, }

export enum Error { NotAndEmail, InvalidPassword }

export function request(body: Auth): CancelablePromise<{ Ok : AuthResponse } | { Err : Error }> {
    return __request(
        { url: 'http://localhost:3000' },
        {
            method: 'GET',
            url: '/user/login',
            body,
\t\t\tmediaType: 'application/json; charset=utf-8'
        }
    );
}";

#[test]
fn lib_test_api() {
    let api: Api<&str> = Api::new("http://localhost:3000", auth_registry())
        .register(&user_route(), "user")
        .register(&login_route(), "login");

    let files = api.export_ts_client("// request", "// promise");
    assert_eq!(files.len(), 5);
    assert_eq!(files[0].directory, ExportDirectory::Base);
    assert_eq!(files[0].stem, "request");
    assert_eq!(files[0].content, "// request");
    assert_eq!(files[1].directory, ExportDirectory::Base);
    assert_eq!(files[1].stem, "CancelablePromise");
    assert_eq!(files[1].content, "// promise");
    assert_eq!(files[2].directory, ExportDirectory::Api);
    assert_eq!(files[2].stem, "index");
    assert_eq!(
        files[2].content,
        "import { request as user } from './user';\nexport { user };\n\n\
         import { request as userLogin } from './userLogin';\nexport { userLogin };\n\n"
    );
    assert_eq!(files[3].directory, ExportDirectory::Api);
    assert_eq!(files[3].stem, "user");
    assert_eq!(files[3].content, USER_MODULE);
    assert_eq!(files[4].directory, ExportDirectory::Api);
    assert_eq!(files[4].stem, "userLogin");
    assert_eq!(files[4].content, LOGIN_MODULE);
}

#[test]
fn get_user_with_string_body_and_number_response() {
    let route = user_route();
    let registry = TypeRegistry::new();
    let request = route.assemble(&registry);
    assert_eq!(request.params(), &names(&["body: string"]));
    assert_eq!(request.response_type(), &Some(": CancelablePromise<number>".to_string()));
    assert_eq!(
        request.options(),
        &names(&["body", "mediaType: 'application/json; charset=utf-8'"])
    );
    assert_eq!(request.types().len(), 0);
    assert_eq!(route.typescript("http://localhost:3000", &registry), USER_MODULE);
    assert_eq!(route.ts_file_name(), "user");
    assert_eq!(route.ts_path(), "/user");
}

#[test]
fn same_file_name_keeps_the_later_route() {
    let first = RouteDescriptor::new(ApiMethod::Get, "/user/login", vec![], None);
    let second = RouteDescriptor::new(
        ApiMethod::Post,
        "/user/login",
        vec![extractor(Wrapper::Json, "string", &[])],
        None,
    );
    let registry = TypeRegistry::new();
    let expected = second.typescript("http://h", &registry);
    let api: Api<u32> =
        Api::new("http://h", TypeRegistry::new()).register(&first, 1).register(&second, 2);

    assert_eq!(api.modules().len(), 1);
    assert_eq!(api.modules()[0].file_name, "userLogin");
    assert_eq!(api.modules()[0].source, expected);
    assert!(api.modules()[0].source.contains("method: 'POST'"));
    let line = "import { request as userLogin } from './userLogin';\nexport { userLogin };\n\n";
    assert_eq!(api.index(), format!("{line}{line}"));
    assert_eq!(api.router().len(), 2);
    assert_eq!(api.router()[0].method, ApiMethod::Get);
    assert_eq!(api.router()[0].handler, 1);
    assert_eq!(api.router()[1].method, ApiMethod::Post);
    assert_eq!(api.router()[1].path, "/user/login");
    assert_eq!(api.router()[1].handler, 2);
}

#[test]
fn different_paths_can_share_a_file_name() {
    let first = RouteDescriptor::new(ApiMethod::Get, "/user/login", vec![], None);
    let second = RouteDescriptor::new(ApiMethod::Get, "/user_login", vec![], None);
    let other = RouteDescriptor::new(ApiMethod::Get, "/other", vec![], None);
    let api: Api<()> = Api::new("http://h", TypeRegistry::new())
        .register(&first, ())
        .register(&other, ())
        .register(&second, ());
    let modules = api.modules();
    assert_eq!(modules.len(), 2);
    assert_eq!(modules[0].file_name, "userLogin");
    assert!(modules[0].source.contains("url: '/user_login'"));
    assert_eq!(modules[1].file_name, "other");
}

#[test]
fn registering_again_reproduces_the_files() {
    let build = || -> Api<u8> {
        Api::new("http://localhost:3000", auth_registry())
            .register(&login_route(), 0)
            .register(&user_route(), 1)
    };
    let once = build().export_ts_client("a", "b");
    let twice = build().export_ts_client("a", "b");
    assert_eq!(once, twice);

    let again = build().register(&login_route(), 0).register(&user_route(), 1);
    assert_eq!(again.modules(), build().modules());
    assert_eq!(again.into_router().len(), 4);
}

#[test]
fn signature_holds_the_parameters_with_a_channel_in_order() {
    let route = RouteDescriptor::new(
        ApiMethod::Put,
        "/item/:id",
        vec![
            extractor(Wrapper::Data, "Pool", &[]),
            extractor(Wrapper::Path, "number", &[]),
            extractor(Wrapper::CookieJar, "null", &[]),
            extractor(Wrapper::Query, "Filter", &[]),
            extractor(Wrapper::Form, "Upload", &[]),
            extractor(Wrapper::Ref(Box::new(Wrapper::Json)), "Item", &[]),
            extractor(Wrapper::Other, "Whatever", &[]),
        ],
        None,
    );
    let request = route.assemble(&TypeRegistry::new());
    assert_eq!(request.params(), &names(&["path: number", "query: Filter", "body: Item"]));
    assert_eq!(
        request.options(),
        &names(&["path", "query", "body", "mediaType: 'application/json; charset=utf-8'"])
    );
    assert_eq!(request.response_type(), &None);
    assert_eq!(route.ts_path(), "/item/{id}");
    assert_eq!(route.ts_file_name(), "itemId");
}

#[test]
fn route_without_parameters_or_response_is_callable() {
    let route = RouteDescriptor::new(
        ApiMethod::Delete,
        "/",
        vec![extractor(Wrapper::Data, "State", &["State"])],
        None,
    );
    let mut registry = TypeRegistry::new();
    registry.insert(TypeDescriptor::new("State", "type State = {}", names(&[])));
    let request = route.assemble(&registry);
    assert!(request.params().is_empty());
    assert!(request.options().is_empty());
    assert_eq!(request.types().len(), 0);
    assert_eq!(
        route.typescript("http://h", &registry),
        "import { request as __request } from '../request';
import { CancelablePromise } from '../CancelablePromise';

export function request() {
    return __request(
        { url: 'http://h' },
        {
            method: 'DELETE',
            url: '/',
            
        }
    );
}"
    );
    assert_eq!(route.ts_file_name(), "root");
}

#[test]
fn channels_of_the_wrappers() {
    assert_eq!(Wrapper::Json.classify(), Some(ApiExtractorType::Json));
    assert_eq!(Wrapper::Query.classify(), Some(ApiExtractorType::Query));
    assert_eq!(Wrapper::Path.classify(), Some(ApiExtractorType::Path));
    assert_eq!(Wrapper::Form.classify(), None);
    assert_eq!(Wrapper::Data.classify(), None);
    assert_eq!(Wrapper::CookieJar.classify(), None);
    assert_eq!(Wrapper::Other.classify(), None);
    assert_eq!(
        Wrapper::Ref(Box::new(Wrapper::Ref(Box::new(Wrapper::Path)))).classify(),
        Some(ApiExtractorType::Path)
    );
    assert_eq!(Wrapper::Ref(Box::new(Wrapper::Data)).classify(), None);
}

#[test]
fn extractor_texts() {
    let id = extractor(Wrapper::Path, "number", &[]);
    assert_eq!(id.extractor_type(), Some(ApiExtractorType::Path));
    assert_eq!(id.param(), Some("path: number".to_string()));
    assert_eq!(id.options(), Some(names(&["path"])));
    assert_eq!(id.response_type(), Some(": CancelablePromise<number>".to_string()));

    let by_reference = &id;
    assert_eq!(by_reference.param(), Some("path: number".to_string()));
    assert_eq!((&by_reference).extractor_type(), Some(ApiExtractorType::Path));

    let query = extractor(Wrapper::Query, "Filter", &[]);
    assert_eq!(query.param(), Some("query: Filter".to_string()));
    assert_eq!(query.options(), Some(names(&["query"])));

    let state = extractor(Wrapper::Data, "Pool", &[]);
    assert_eq!(state.extractor_type(), None);
    assert_eq!(state.param(), None);
    assert_eq!(state.options(), None);
    assert_eq!(state.response_type(), None);
    assert_eq!(state.inner().name, "Pool");
}

#[test]
fn request_is_built_step_by_step() {
    let registry = auth_registry();
    let mut request = ApiRequest::new();
    request.register_param(&extractor(Wrapper::Json, "Auth", &["Auth"]), &registry);
    request.register_param(&extractor(Wrapper::CookieJar, "null", &["Error"]), &registry);
    request.register_response_type(&extractor(Wrapper::Json, "Error", &["Error"]), &registry);
    assert_eq!(request.params(), &names(&["body: Auth"]));
    assert_eq!(request.response_type(), &Some(": CancelablePromise<Error>".to_string()));
    let declared: Vec<&str> = request.types().values().iter().map(|d| d.name.as_str()).collect();
    assert_eq!(declared, ["Auth", "Error"]);

    request.register_response_type(&extractor(Wrapper::Form, "Error", &[]), &registry);
    assert_eq!(request.response_type(), &None);

    let text = request.finish("s", "POST", "/p");
    assert!(text.starts_with("import { request as __request } from '../request';\n"));
    assert!(text.contains("\n\nexport type Auth = { email: string, password: string, }\n\n"));
    assert!(text.contains("export function request(body: Auth) {\n"));
    assert!(text.ends_with("        }\n    );\n}"));
    assert_eq!(text, request.finish("s", "POST", "/p"));
    assert_eq!(ApiRequest::default().finish("", "", ""), ApiRequest::new().finish("", "", ""));
}

#[test]
fn dispatch_table_by_path() {
    let get = RouteDescriptor::new(ApiMethod::Get, "/user", vec![], None);
    let post = RouteDescriptor::new(ApiMethod::Post, "/user", vec![], None);
    let other = RouteDescriptor::new(ApiMethod::Get, "/other", vec![], None);
    let api: Api<&str> = Api::new("u", TypeRegistry::new())
        .register(&get, "a")
        .register(&other, "b")
        .register(&post, "c")
        .register(&get, "d");
    assert_eq!(api.server_url(), "u");
    assert_eq!(api.types().len(), 0);
    let routes = api.into_routes();
    assert_eq!(routes.len(), 2);
    assert_eq!(routes[0].path, "/user");
    assert_eq!(
        routes[0].handlers,
        vec![(ApiMethod::Get, "a"), (ApiMethod::Post, "c"), (ApiMethod::Get, "d")]
    );
    assert_eq!(routes[1].path, "/other");
    assert_eq!(routes[1].handlers, vec![(ApiMethod::Get, "b")]);

    assert!(group_by_path::<u8>(Vec::new()).is_empty());
    let single = group_by_path(vec![Dispatch {
        method: ApiMethod::Trace,
        path: "/".to_string(),
        handler: 1u8,
    }]);
    assert_eq!(single.len(), 1);
    assert_eq!(single[0].handlers, vec![(ApiMethod::Trace, 1u8)]);
}
