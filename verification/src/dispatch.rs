//! The dispatch table of a server: which handler answers which method on
//! which path.

use vstd::prelude::*;
use vstd::string::*;

use crate::method::ApiMethod;
use crate::text::str_eq;

verus! {

/// What an entry of the dispatch table says, as plain text.
pub struct DispatchInfo<H> {
    pub method: ApiMethod,
    pub path: Seq<char>,
    pub handler: H,
}

/// An entry of the dispatch table: a handler with the method and the path
/// it answers. The registry never looks into the handler.
#[derive(Debug)]
pub struct Dispatch<H> {
    pub method: ApiMethod,
    pub path: String,
    pub handler: H,
}

impl<H> View for Dispatch<H> {
    type V = DispatchInfo<H>;

    open spec fn view(&self) -> DispatchInfo<H> {
        DispatchInfo { method: self.method, path: self.path@, handler: self.handler }
    }
}

/// What a dispatch table says.
pub open spec fn dispatch_infos<H>(v: Seq<Dispatch<H>>) -> Seq<DispatchInfo<H>> {
    Seq::new(v.len(), |i: int| v[i]@)
}

/// What the handlers of one path say, as plain text.
pub struct PathRoutesInfo<H> {
    pub path: Seq<char>,
    pub handlers: Seq<(ApiMethod, H)>,
}

/// The handlers of one path, each with its method, in the order of
/// registration.
#[derive(Debug)]
pub struct PathRoutes<H> {
    pub path: String,
    pub handlers: Vec<(ApiMethod, H)>,
}

impl<H> View for PathRoutes<H> {
    type V = PathRoutesInfo<H>;

    open spec fn view(&self) -> PathRoutesInfo<H> {
        PathRoutesInfo { path: self.path@, handlers: self.handlers@ }
    }
}

/// What a sequence of paths with their handlers says.
pub open spec fn path_infos<H>(v: Seq<PathRoutes<H>>) -> Seq<PathRoutesInfo<H>> {
    Seq::new(v.len(), |i: int| v[i]@)
}

/// Whether one of the groups is for the path.
pub open spec fn has_path<H>(groups: Seq<PathRoutesInfo<H>>, path: Seq<char>) -> bool {
    exists|i: int| 0 <= i < groups.len() && #[trigger] groups[i].path == path
}

/// The place of the first group for the path, if there is one.
pub open spec fn index_of_path<H>(groups: Seq<PathRoutesInfo<H>>, path: Seq<char>) -> int {
    choose|i: int|
        0 <= i < groups.len() && #[trigger] groups[i].path == path && forall|k: int|
            0 <= k < i ==> (#[trigger] groups[k]).path != path
}

/// The groups with one more entry: it joins the group of its path, or
/// starts a new group behind the others.
pub open spec fn grouped_with<H>(
    groups: Seq<PathRoutesInfo<H>>,
    entry: DispatchInfo<H>,
) -> Seq<PathRoutesInfo<H>> {
    if has_path(groups, entry.path) {
        let at = index_of_path(groups, entry.path);
        groups.update(
            at,
            PathRoutesInfo {
                path: entry.path,
                handlers: groups[at].handlers.push((entry.method, entry.handler)),
            },
        )
    } else {
        groups.push(
            PathRoutesInfo { path: entry.path, handlers: seq![(entry.method, entry.handler)] },
        )
    }
}

/// The dispatch table by path: one group for each path, in the order in
/// which the paths were first registered, with the handlers of the path in
/// the order of their registration.
pub open spec fn grouped<H>(router: Seq<DispatchInfo<H>>) -> Seq<PathRoutesInfo<H>>
    decreases router.len(),
{
    if router.len() == 0 {
        Seq::empty()
    } else {
        grouped_with(grouped(router.drop_last()), router.last())
    }
}

/// A place that holds the path with no such place before it is the place
/// of the first group for the path.
proof fn lemma_index_of_path<H>(groups: Seq<PathRoutesInfo<H>>, path: Seq<char>, at: int)
    requires
        0 <= at < groups.len(),
        groups[at].path == path,
        forall|k: int| 0 <= k < at ==> (#[trigger] groups[k]).path != path,
    ensures
        has_path(groups, path),
        index_of_path(groups, path) == at,
{
    let found = index_of_path(groups, path);
    if found < at {
        assert(groups[found].path != path);
    } else if at < found {
        assert(groups[at].path != path);
    }
}

/// The dispatch table by path: one group for each path, in the order in
/// which the paths first occur, each with the handlers of the path in the
/// order of the table.
pub fn group_by_path<H>(router: Vec<Dispatch<H>>) -> (routes: Vec<PathRoutes<H>>)
    ensures
        path_infos(routes@) == grouped(dispatch_infos(router@)),
{
    let ghost table = dispatch_infos(router@);
    // The entries are taken from the end; turned round, the end is the
    // first entry.
    let mut turned = turn_round(router);
    let mut routes: Vec<PathRoutes<H>> = Vec::new();
    let ghost mut done: int = 0;
    proof {
        assert(table.take(0) =~= Seq::<DispatchInfo<H>>::empty());
        assert(path_infos(routes@) =~= Seq::<PathRoutesInfo<H>>::empty());
        assert(table.skip(0) =~= table);
        assert(dispatch_infos(turned@).len() == table.reverse().len());
    }
    while turned.len() > 0
        invariant
            0 <= done <= table.len(),
            done + turned.len() == table.len(),
            dispatch_infos(turned@) == table.skip(done).reverse(),
            path_infos(routes@) == grouped(table.take(done)),
        decreases turned.len(),
    {
        let ghost before = dispatch_infos(turned@);
        let entry = turned.pop().unwrap();
        proof {
            let left = table.skip(done);
            assert(before.last() == left[0]);
            assert(table.take(done + 1).drop_last() =~= table.take(done));
            assert(table.take(done + 1).last() == entry@);
            assert(dispatch_infos(turned@) =~= before.drop_last());
            assert(before.drop_last() =~= table.skip(done + 1).reverse());
        }
        file_under_path(&mut routes, entry);
        proof {
            done = done + 1;
        }
    }
    proof {
        assert(table.take(table.len() as int) =~= table);
    }
    routes
}

/// The entries in the opposite order.
fn turn_round<H>(entries: Vec<Dispatch<H>>) -> (turned: Vec<Dispatch<H>>)
    ensures
        dispatch_infos(turned@) == dispatch_infos(entries@).reverse(),
{
    let ghost all = dispatch_infos(entries@);
    let mut rest = entries;
    let mut turned: Vec<Dispatch<H>> = Vec::new();
    proof {
        assert(dispatch_infos(turned@) =~= all.skip(all.len() as int).reverse());
    }
    while rest.len() > 0
        invariant
            rest.len() <= all.len(),
            dispatch_infos(rest@) == all.take(rest.len() as int),
            dispatch_infos(turned@) == all.skip(rest.len() as int).reverse(),
        decreases rest.len(),
    {
        let ghost n = rest.len() as int;
        let ghost before = dispatch_infos(turned@);
        let entry = rest.pop().unwrap();
        proof {
            assert(entry@ == all.take(n)[n - 1]);
            assert(dispatch_infos(rest@) =~= all.take(n - 1));
            assert(before.push(entry@) =~= all.skip(n - 1).reverse());
            assert(dispatch_infos(turned@.push(entry)) =~= before.push(entry@));
        }
        turned.push(entry);
    }
    proof {
        assert(all.skip(0) =~= all);
    }
    turned
}

/// Puts an entry of the dispatch table under its path: into the group of
/// the path, or into a new group behind the others.
fn file_under_path<H>(routes: &mut Vec<PathRoutes<H>>, entry: Dispatch<H>)
    ensures
        path_infos(final(routes)@) == grouped_with(path_infos(old(routes)@), entry@),
{
    let ghost groups = path_infos(routes@);
    let ghost added = entry@;
    let mut at: usize = 0;
    while at < routes.len() && !str_eq(routes[at].path.as_str(), entry.path.as_str())
        invariant
            at <= routes.len(),
            forall|k: int| 0 <= k < at ==> (#[trigger] path_infos(routes@)[k]).path != entry@.path,
        decreases routes.len() - at,
    {
        at = at + 1;
    }
    let Dispatch { method, path, handler } = entry;
    if at < routes.len() {
        proof {
            lemma_index_of_path(groups, path@, at as int);
        }
        let mut group = routes.remove(at);
        group.handlers.push((method, handler));
        proof {
            assert(path_infos(routes@.insert(at as int, group)) =~= grouped_with(groups, added));
        }
        routes.insert(at, group);
    } else {
        proof {
            if has_path(groups, path@) {
                let k = index_of_path(groups, path@);
                assert(groups[k].path != path@);
            }
        }
        let mut handlers: Vec<(ApiMethod, H)> = Vec::new();
        handlers.push((method, handler));
        let group = PathRoutes { path, handlers };
        proof {
            assert(group@.handlers =~= seq![(method, handler)]);
            assert(path_infos(routes@.push(group)) =~= grouped_with(groups, added));
        }
        routes.push(group);
    }
}

} // verus!
