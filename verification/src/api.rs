//! The registry of routes: the generated module of every route, the index
//! that re-exports them, and the handlers of the server.

use vstd::prelude::*;
use vstd::string::*;

use crate::dispatch::{
    dispatch_infos, group_by_path, grouped, path_infos, Dispatch, DispatchInfo, PathRoutes,
};
use crate::handler::ApiHandler;
use crate::method::ApiMethod;
use crate::path::file_name_spec;
use crate::text::str_eq;
use crate::types::{TypeInfo, TypeRegistry};

verus! {

/// What a generated module says, as plain text.
pub struct ModuleInfo {
    pub file_name: Seq<char>,
    pub source: Seq<char>,
}

/// The module generated for a route: the name of its file, without
/// extension, and its text.
#[derive(Debug, Clone, PartialEq, Eq)]
pub struct GeneratedModule {
    pub file_name: String,
    pub source: String,
}

impl View for GeneratedModule {
    type V = ModuleInfo;

    open spec fn view(&self) -> ModuleInfo {
        ModuleInfo { file_name: self.file_name@, source: self.source@ }
    }
}

/// The directory a file of the client is written to.
#[derive(Debug, Clone, Copy, PartialEq, Eq, Structural)]
pub enum ExportDirectory {
    /// The output directory itself.
    Base,
    /// Its subdirectory `api`.
    Api,
}

/// What a file of the client says, as plain text.
pub struct ExportFileInfo {
    pub directory: ExportDirectory,
    pub stem: Seq<char>,
    pub content: Seq<char>,
}

/// A file of the client: its directory, its name without the extension, and
/// its content. Every file has the extension `ts`.
#[derive(Debug, Clone, PartialEq, Eq)]
pub struct ExportFile {
    pub directory: ExportDirectory,
    pub stem: String,
    pub content: String,
}

impl View for ExportFile {
    type V = ExportFileInfo;

    open spec fn view(&self) -> ExportFileInfo {
        ExportFileInfo { directory: self.directory, stem: self.stem@, content: self.content@ }
    }
}

/// What a registry holds, as plain text.
pub struct ApiView<H> {
    /// The address of the server the client calls.
    pub server_url: Seq<char>,
    /// The types known to the generation.
    pub types: Map<Seq<char>, TypeInfo>,
    /// The dispatch table, in the order of registration.
    pub router: Seq<DispatchInfo<H>>,
    /// The generated modules, each file name once, in the order in which the
    /// file names were first registered.
    pub modules: Seq<ModuleInfo>,
    /// The text of the index module.
    pub index: Seq<char>,
}

/// What a sequence of modules says.
pub open spec fn module_infos(v: Seq<GeneratedModule>) -> Seq<ModuleInfo> {
    Seq::new(v.len(), |i: int| v[i]@)
}

/// What a sequence of files says.
pub open spec fn file_infos(v: Seq<ExportFile>) -> Seq<ExportFileInfo> {
    Seq::new(v.len(), |i: int| v[i]@)
}

/// Whether one of the modules has the file name.
pub open spec fn has_file(modules: Seq<ModuleInfo>, file_name: Seq<char>) -> bool {
    exists|i: int| 0 <= i < modules.len() && #[trigger] modules[i].file_name == file_name
}

/// A place at which the file name stands, if it stands anywhere.
pub open spec fn index_of_file(modules: Seq<ModuleInfo>, file_name: Seq<char>) -> int {
    choose|i: int| 0 <= i < modules.len() && #[trigger] modules[i].file_name == file_name
}

/// No two modules have the same file name.
pub open spec fn distinct_files(modules: Seq<ModuleInfo>) -> bool {
    forall|i: int, j: int|
        0 <= i < j < modules.len() ==> #[trigger] modules[i].file_name
            != #[trigger] modules[j].file_name
}

/// The modules with one more stored. A module whose file name is taken
/// replaces the module that has it; any other module comes last.
pub open spec fn stored(modules: Seq<ModuleInfo>, module: ModuleInfo) -> Seq<ModuleInfo> {
    if has_file(modules, module.file_name) {
        modules.update(index_of_file(modules, module.file_name), module)
    } else {
        modules.push(module)
    }
}

/// The lines of the index that re-export the request function of a module
/// under the name of its file.
pub open spec fn index_entry(file_name: Seq<char>) -> Seq<char> {
    "import { request as "@ + file_name + " } from './"@ + file_name + "';\nexport { "@ + file_name
        + " };\n\n"@
}

/// The registry with one more route: the handler joins the dispatch table
/// under the route's method and path, the module is stored under the file
/// name of the path, and the index re-exports it.
pub open spec fn registered<H>(
    api: ApiView<H>,
    method: ApiMethod,
    path: Seq<char>,
    source: Seq<char>,
    handler: H,
) -> ApiView<H> {
    ApiView {
        server_url: api.server_url,
        types: api.types,
        router: api.router.push(DispatchInfo { method, path, handler }),
        modules: stored(
            api.modules,
            ModuleInfo { file_name: file_name_spec(path), source },
        ),
        index: api.index + index_entry(file_name_spec(path)),
    }
}

/// The file a module is written to.
pub open spec fn module_file(module: ModuleInfo) -> ExportFileInfo {
    ExportFileInfo {
        directory: ExportDirectory::Api,
        stem: module.file_name,
        content: module.source,
    }
}

/// The files of the client: the two support files in the output directory,
/// then the index and the modules in its subdirectory `api`.
pub open spec fn exported(
    modules: Seq<ModuleInfo>,
    index: Seq<char>,
    request_ts: Seq<char>,
    promise_ts: Seq<char>,
) -> Seq<ExportFileInfo> {
    seq![
        ExportFileInfo { directory: ExportDirectory::Base, stem: "request"@, content: request_ts },
        ExportFileInfo {
            directory: ExportDirectory::Base,
            stem: "CancelablePromise"@,
            content: promise_ts,
        },
        ExportFileInfo { directory: ExportDirectory::Api, stem: "index"@, content: index },
    ] + Seq::new(modules.len(), |i: int| module_file(modules[i]))
}

/// Among modules with distinct file names, each is the one found under its
/// file name.
pub proof fn lemma_file_at(modules: Seq<ModuleInfo>, i: int)
    requires
        distinct_files(modules),
        0 <= i < modules.len(),
    ensures
        has_file(modules, modules[i].file_name),
        index_of_file(modules, modules[i].file_name) == i,
{
    let k = index_of_file(modules, modules[i].file_name);
    assert(modules[k].file_name == modules[i].file_name);
    if k < i {
        assert(modules[k].file_name != modules[i].file_name);
    } else if i < k {
        assert(modules[i].file_name != modules[k].file_name);
    }
}

/// After a module is stored, it is the one module under its file name; the
/// modules under other file names are as before, and no file name stands
/// twice. Of two modules stored under one file name, the later one stays.
pub proof fn lemma_stored(modules: Seq<ModuleInfo>, module: ModuleInfo)
    requires
        distinct_files(modules),
    ensures
        distinct_files(stored(modules, module)),
        has_file(stored(modules, module), module.file_name),
        stored(modules, module)[index_of_file(stored(modules, module), module.file_name)]
            == module,
        forall|n: Seq<char>|
            n != module.file_name ==> (has_file(stored(modules, module), n) <==> has_file(
                modules,
                n,
            )),
        forall|n: Seq<char>|
            n != module.file_name && has_file(modules, n) ==> stored(
                modules,
                module,
            )[index_of_file(stored(modules, module), n)] == modules[index_of_file(modules, n)],
{
    let after = stored(modules, module);
    let at = if has_file(modules, module.file_name) {
        index_of_file(modules, module.file_name)
    } else {
        modules.len() as int
    };
    assert(after[at] == module);
    assert forall|i: int, j: int| 0 <= i < j < after.len() implies #[trigger] after[i].file_name
        != #[trigger] after[j].file_name by {
        if has_file(modules, module.file_name) {
            assert(modules[i].file_name != modules[j].file_name);
        } else if j < modules.len() {
            assert(modules[i].file_name != modules[j].file_name);
        } else {
            assert(modules[i].file_name == after[i].file_name);
        }
    }
    lemma_file_at(after, at);
    assert forall|n: Seq<char>| n != module.file_name implies (has_file(after, n) <==> has_file(
        modules,
        n,
    )) by {
        if has_file(after, n) {
            let i = index_of_file(after, n);
            assert(modules[i].file_name == n);
        }
        if has_file(modules, n) {
            let i = index_of_file(modules, n);
            assert(after[i].file_name == n);
        }
    }
    assert forall|n: Seq<char>| n != module.file_name && has_file(modules, n) implies after[index_of_file(
        after,
        n,
    )] == modules[index_of_file(modules, n)] by {
        let i = index_of_file(modules, n);
        assert(after[i].file_name == n);
        lemma_file_at(after, i);
    }
}

/// Storing a module a second time changes nothing.
pub proof fn lemma_stored_again(modules: Seq<ModuleInfo>, module: ModuleInfo)
    requires
        distinct_files(modules),
    ensures
        stored(stored(modules, module), module) == stored(modules, module),
{
    let once = stored(modules, module);
    lemma_stored(modules, module);
    assert(once.update(index_of_file(once, module.file_name), module) =~= once);
}

/// A route as the registry takes it: its method, its path, the text of its
/// module, and its handler.
pub struct RouteEntry<H> {
    pub method: ApiMethod,
    pub path: Seq<char>,
    pub source: Seq<char>,
    pub handler: H,
}

/// The module a route is stored as.
pub open spec fn module_of<H>(route: RouteEntry<H>) -> ModuleInfo {
    ModuleInfo { file_name: file_name_spec(route.path), source: route.source }
}

/// The registry with the routes registered one after the other.
pub open spec fn registered_all<H>(api: ApiView<H>, routes: Seq<RouteEntry<H>>) -> ApiView<H>
    decreases routes.len(),
{
    if routes.len() == 0 {
        api
    } else {
        let route = routes.last();
        registered(
            registered_all(api, routes.drop_last()),
            route.method,
            route.path,
            route.source,
            route.handler,
        )
    }
}

/// The module that the routes store last under a file name, if they store
/// one under it.
pub open spec fn latest<H>(routes: Seq<RouteEntry<H>>, file_name: Seq<char>) -> Option<ModuleInfo>
    decreases routes.len(),
{
    if routes.len() == 0 {
        None
    } else if module_of(routes.last()).file_name == file_name {
        Some(module_of(routes.last()))
    } else {
        latest(routes.drop_last(), file_name)
    }
}

/// What the modules are after routes were registered: the file names that
/// were there keep their places, every route has its file name among them,
/// no file name stands twice, and under each file name stands the module of
/// the last route with that file name, or what stood there before.
pub proof fn lemma_registered_all<H>(api: ApiView<H>, routes: Seq<RouteEntry<H>>)
    requires
        distinct_files(api.modules),
    ensures
        distinct_files(registered_all(api, routes).modules),
        registered_all(api, routes).modules.len() >= api.modules.len(),
        forall|i: int|
            0 <= i < api.modules.len() ==> (#[trigger] registered_all(
                api,
                routes,
            ).modules[i]).file_name == api.modules[i].file_name,
        forall|i: int|
            0 <= i < registered_all(api, routes).modules.len() ==> match latest(
                routes,
                (#[trigger] registered_all(api, routes).modules[i]).file_name,
            ) {
                Some(module) => registered_all(api, routes).modules[i] == module,
                None => i < api.modules.len() && registered_all(api, routes).modules[i]
                    == api.modules[i],
            },
        forall|k: int|
            0 <= k < routes.len() ==> has_file(
                registered_all(api, routes).modules,
                module_of(#[trigger] routes[k]).file_name,
            ),
        (forall|k: int|
            0 <= k < routes.len() ==> has_file(api.modules, module_of(#[trigger] routes[k]).file_name))
            ==> registered_all(api, routes).modules.len() == api.modules.len(),
    decreases routes.len(),
{
    if routes.len() > 0 {
        let earlier = routes.drop_last();
        let route = routes.last();
        let module = module_of(route);
        let before = registered_all(api, earlier).modules;
        let after = registered_all(api, routes).modules;
        lemma_registered_all(api, earlier);
        lemma_stored(before, module);
        assert(after == stored(before, module));
        let at = if has_file(before, module.file_name) {
            index_of_file(before, module.file_name)
        } else {
            before.len() as int
        };
        assert(after[at] == module);
        assert forall|i: int| 0 <= i < after.len() && i != at implies after[i] == before[i]
            && after[i].file_name != module.file_name by {
            if after[i].file_name == module.file_name {
                lemma_file_at(after, i);
                lemma_file_at(after, at);
            }
        }
        assert forall|i: int| 0 <= i < api.modules.len() implies (#[trigger] after[i]).file_name
            == api.modules[i].file_name by {
            assert(before[i].file_name == api.modules[i].file_name);
        }
        assert forall|i: int| 0 <= i < after.len() implies match latest(
            routes,
            (#[trigger] after[i]).file_name,
        ) {
            Some(found) => after[i] == found,
            None => i < api.modules.len() && after[i] == api.modules[i],
        } by {
            if i != at {
                assert(latest(routes, after[i].file_name) == latest(earlier, before[i].file_name));
            }
        }
        assert forall|k: int| 0 <= k < routes.len() implies has_file(
            after,
            module_of(#[trigger] routes[k]).file_name,
        ) by {
            if k < earlier.len() {
                assert(routes[k] == earlier[k]);
                assert(has_file(before, module_of(earlier[k]).file_name));
            }
        }
        if forall|k: int|
            0 <= k < routes.len() ==> has_file(api.modules, module_of(#[trigger] routes[k]).file_name) {
            assert forall|k: int| 0 <= k < earlier.len() implies has_file(
                api.modules,
                module_of(#[trigger] earlier[k]).file_name,
            ) by {
                assert(earlier[k] == routes[k]);
            }
            assert(has_file(api.modules, module_of(routes[routes.len() - 1]).file_name));
            let j = index_of_file(api.modules, module.file_name);
            assert(before[j].file_name == module.file_name);
        }
    }
}

/// Registering the same routes once more leaves the modules as they are:
/// the files written for the routes are the same, text for text and in the
/// same order. The index is another matter: it gains the lines of every
/// route once more.
pub proof fn lemma_registered_all_again<H>(api: ApiView<H>, routes: Seq<RouteEntry<H>>)
    requires
        distinct_files(api.modules),
    ensures
        registered_all(registered_all(api, routes), routes).modules == registered_all(
            api,
            routes,
        ).modules,
{
    let once = registered_all(api, routes);
    let twice = registered_all(once, routes);
    lemma_registered_all(api, routes);
    lemma_registered_all(once, routes);
    assert forall|i: int| 0 <= i < twice.modules.len() implies twice.modules[i]
        == once.modules[i] by {
        assert(twice.modules[i].file_name == once.modules[i].file_name);
    }
    assert(twice.modules =~= once.modules);
}

/// What is generated depends on the routes alone, not on their handlers:
/// registries that hold the same modules and the same index, fed routes of
/// the same paths with the same module texts in the same order, hold the
/// same modules and the same index again, and so export the same files.
pub proof fn lemma_generation_ignores_handlers<H, G>(
    a: ApiView<H>,
    b: ApiView<G>,
    routes_a: Seq<RouteEntry<H>>,
    routes_b: Seq<RouteEntry<G>>,
    request_ts: Seq<char>,
    promise_ts: Seq<char>,
)
    requires
        a.modules == b.modules,
        a.index == b.index,
        routes_a.len() == routes_b.len(),
        forall|k: int|
            0 <= k < routes_a.len() ==> (#[trigger] routes_a[k]).path == routes_b[k].path
                && routes_a[k].source == routes_b[k].source,
    ensures
        registered_all(a, routes_a).modules == registered_all(b, routes_b).modules,
        registered_all(a, routes_a).index == registered_all(b, routes_b).index,
        exported(
            registered_all(a, routes_a).modules,
            registered_all(a, routes_a).index,
            request_ts,
            promise_ts,
        ) == exported(
            registered_all(b, routes_b).modules,
            registered_all(b, routes_b).index,
            request_ts,
            promise_ts,
        ),
    decreases routes_a.len(),
{
    if routes_a.len() > 0 {
        let earlier_a = routes_a.drop_last();
        let earlier_b = routes_b.drop_last();
        assert forall|k: int| 0 <= k < earlier_a.len() implies (#[trigger] earlier_a[k]).path
            == earlier_b[k].path && earlier_a[k].source == earlier_b[k].source by {
            assert(routes_a[k].path == routes_b[k].path);
        }
        lemma_generation_ignores_handlers(a, b, earlier_a, earlier_b, request_ts, promise_ts);
        assert(routes_a[routes_a.len() - 1].path == routes_b[routes_b.len() - 1].path);
    }
}

/// The routes of a server, as they are registered one after the other.
pub struct Api<H> {
    server_url: String,
    types: TypeRegistry,
    router: Vec<Dispatch<H>>,
    // file name -> text of the module
    typescript: Vec<GeneratedModule>,
    typescript_api: String,
}

impl<H> View for Api<H> {
    type V = ApiView<H>;

    closed spec fn view(&self) -> ApiView<H> {
        ApiView {
            server_url: self.server_url@,
            types: self.types@,
            router: dispatch_infos(self.router@),
            modules: module_infos(self.typescript@),
            index: self.typescript_api@,
        }
    }
}

impl<H> Api<H> {
    #[verifier::type_invariant]
    spec fn well_formed(&self) -> bool {
        distinct_files(module_infos(self.typescript@))
    }

    /// A registry without routes, for a server and the types known to it.
    pub fn new(server_url: &str, types: TypeRegistry) -> (api: Api<H>)
        ensures
            api@ == (ApiView::<H> {
                server_url: server_url@,
                types: types@,
                router: Seq::empty(),
                modules: Seq::empty(),
                index: Seq::empty(),
            }),
    {
        let api = Api {
            server_url: String::from_str(server_url),
            types,
            router: Vec::new(),
            typescript: Vec::new(),
            typescript_api: String::new(),
        };
        assert(dispatch_infos(api.router@) =~= Seq::<DispatchInfo<H>>::empty());
        assert(module_infos(api.typescript@) =~= Seq::<ModuleInfo>::empty());
        api
    }

    /// Registers a route with its handler.
    pub fn register<T: ApiHandler>(self, route: &T, handler: H) -> (api: Api<H>)
        ensures
            api@ == registered(
                self@,
                route.method_spec(),
                route.path_spec(),
                route.typescript_spec(self@.server_url, self@.types),
                handler,
            ),
            distinct_files(api@.modules),
    {
        proof {
            use_type_invariant(&self);
        }
        let Api { server_url, types, mut router, mut typescript, mut typescript_api } = self;
        let file_name = route.ts_file_name();
        let source = route.typescript(server_url.as_str(), &types);

        typescript_api.append(index_lines(file_name.as_str()).as_str());
        store(&mut typescript, GeneratedModule { file_name, source });

        let entry = Dispatch {
            method: route.method(),
            path: String::from_str(route.path()),
            handler,
        };
        proof {
            assert(dispatch_infos(router@.push(entry)) =~= dispatch_infos(router@).push(entry@));
        }
        router.push(entry);
        Api { server_url, types, router, typescript, typescript_api }
    }

    /// The address of the server the client calls.
    pub fn server_url(&self) -> (url: &str)
        ensures
            url@ == self@.server_url,
    {
        self.server_url.as_str()
    }

    /// The types known to the generation.
    pub fn types(&self) -> (types: &TypeRegistry)
        ensures
            types@ == self@.types,
    {
        &self.types
    }

    /// The dispatch table, in the order of registration.
    pub fn router(&self) -> (router: &Vec<Dispatch<H>>)
        ensures
            dispatch_infos(router@) == self@.router,
    {
        &self.router
    }

    /// Gives up the registry for its dispatch table.
    pub fn into_router(self) -> (router: Vec<Dispatch<H>>)
        ensures
            dispatch_infos(router@) == self@.router,
    {
        self.router
    }

    /// Gives up the registry for its dispatch table by path: what a router
    /// needs that keeps one entry for each path.
    pub fn into_routes(self) -> (routes: Vec<PathRoutes<H>>)
        ensures
            path_infos(routes@) == grouped(self@.router),
    {
        group_by_path(self.into_router())
    }

    /// The generated modules, each file name once.
    pub fn modules(&self) -> (modules: &Vec<GeneratedModule>)
        ensures
            module_infos(modules@) == self@.modules,
            distinct_files(module_infos(modules@)),
    {
        proof {
            use_type_invariant(self);
        }
        &self.typescript
    }

    /// The text of the index module.
    pub fn index(&self) -> (index: &str)
        ensures
            index@ == self@.index,
    {
        self.typescript_api.as_str()
    }

    /// The files of the client, in the order in which they are written. The
    /// texts of the two support files are handed in; they are written as
    /// they are.
    pub fn export_ts_client(&self, request_ts: &str, promise_ts: &str) -> (files: Vec<ExportFile>)
        ensures
            file_infos(files@) == exported(self@.modules, self@.index, request_ts@, promise_ts@),
    {
        let mut files: Vec<ExportFile> = Vec::new();
        files.push(
            ExportFile {
                directory: ExportDirectory::Base,
                stem: String::from_str("request"),
                content: String::from_str(request_ts),
            },
        );
        files.push(
            ExportFile {
                directory: ExportDirectory::Base,
                stem: String::from_str("CancelablePromise"),
                content: String::from_str(promise_ts),
            },
        );
        files.push(
            ExportFile {
                directory: ExportDirectory::Api,
                stem: String::from_str("index"),
                content: self.typescript_api.clone(),
            },
        );
        let mut i: usize = 0;
        while i < self.typescript.len()
            invariant
                i <= self.typescript.len(),
                files@.len() == 3 + i,
                file_infos(files@).take(3) == exported(
                    self@.modules,
                    self@.index,
                    request_ts@,
                    promise_ts@,
                ).take(3),
                forall|k: int|
                    0 <= k < i ==> (#[trigger] files@[3 + k])@ == module_file(self.typescript@[k]@),
            decreases self.typescript.len() - i,
        {
            files.push(
                ExportFile {
                    directory: ExportDirectory::Api,
                    stem: self.typescript[i].file_name.clone(),
                    content: self.typescript[i].source.clone(),
                },
            );
            i = i + 1;
        }
        proof {
            let goal = exported(self@.modules, self@.index, request_ts@, promise_ts@);
            assert(file_infos(files@).len() == goal.len());
            assert forall|k: int| 0 <= k < goal.len() implies file_infos(files@)[k] == goal[k] by {
                if k < 3 {
                    assert(file_infos(files@).take(3)[k] == goal.take(3)[k]);
                } else {
                    assert((files@[3 + (k - 3)])@ == module_file(self.typescript@[k - 3]@));
                }
            }
            assert(file_infos(files@) =~= goal);
        }
        files
    }
}

/// The lines of the index for a file name.
fn index_lines(file_name: &str) -> (lines: String)
    ensures
        lines@ == index_entry(file_name@),
{
    let mut lines = String::from_str("import { request as ");
    lines.append(file_name);
    lines.append(" } from './");
    lines.append(file_name);
    lines.append("';\nexport { ");
    lines.append(file_name);
    lines.append(" };\n\n");
    lines
}

/// Stores a module: in the place of the module that has its file name, or
/// behind the others.
fn store(modules: &mut Vec<GeneratedModule>, module: GeneratedModule)
    requires
        distinct_files(module_infos(old(modules)@)),
    ensures
        module_infos(final(modules)@) == stored(module_infos(old(modules)@), module@),
        distinct_files(module_infos(final(modules)@)),
{
    let ghost before = module_infos(modules@);
    let mut at: usize = 0;
    while at < modules.len() && !str_eq(
        modules[at].file_name.as_str(),
        module.file_name.as_str(),
    )
        invariant
            at <= modules.len(),
            forall|k: int|
                0 <= k < at ==> (#[trigger] module_infos(modules@)[k]).file_name
                    != module@.file_name,
        decreases modules.len() - at,
    {
        at = at + 1;
    }
    proof {
        lemma_stored(before, module@);
        if at < modules.len() {
            assert(before[at as int].file_name == module@.file_name);
            lemma_file_at(before, at as int);
            assert(module_infos(modules@.update(at as int, module)) =~= stored(before, module@));
        } else {
            if has_file(before, module@.file_name) {
                let k = index_of_file(before, module@.file_name);
                assert(before[k].file_name != module@.file_name);
            }
            assert(module_infos(modules@.push(module)) =~= stored(before, module@));
        }
    }
    if at < modules.len() {
        modules.set(at, module);
    } else {
        modules.push(module);
    }
}

} // verus!
