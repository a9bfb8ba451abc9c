//! The declarations a generated module needs: every registered type that
//! can be reached from the types of its signature, each once, in the order
//! of their names.

use vstd::prelude::*;
use vstd::set_lib::lemma_len_subset;
use vstd::string::*;

use crate::text::{
    lemma_name_lt_irreflexive, lemma_name_lt_total, lemma_name_lt_transitive, name_lt, str_eq,
    str_lt, texts,
};
use crate::types::{
    by_name, has_name, index_of_name, infos, lemma_by_name_at, lemma_count_distinct,
    lemma_names_finite, lemma_sorted_distinct, sorted_by_name, TypeDescriptor, TypeInfo,
    TypeRegistry,
};

verus! {

/// Whether the registered type `from` mentions the type `to`.
pub open spec fn mentions(
    registry: Map<Seq<char>, TypeInfo>,
    from: Seq<char>,
    to: Seq<char>,
) -> bool {
    registry.dom().contains(from) && registry[from].dependencies.contains(to)
}

/// Whether the type at place `i` of `p` mentions the next one.
pub open spec fn linked(registry: Map<Seq<char>, TypeInfo>, p: Seq<Seq<char>>, i: int) -> bool {
    mentions(registry, p[i], p[i + 1])
}

/// Whether the name is one the walk may pass: registered and not set aside.
pub open spec fn passable(
    registry: Map<Seq<char>, TypeInfo>,
    avoid: Set<Seq<char>>,
    name: Seq<char>,
) -> bool {
    registry.dom().contains(name) && !avoid.contains(name)
}

/// A chain of registered types, each mentioning the next, none of them in
/// `avoid`.
pub open spec fn is_path(
    registry: Map<Seq<char>, TypeInfo>,
    avoid: Set<Seq<char>>,
    p: Seq<Seq<char>>,
) -> bool {
    &&& p.len() >= 1
    &&& forall|i: int| 0 <= i < p.len() ==> passable(registry, avoid, #[trigger] p[i])
    &&& forall|i: int| 0 <= i < p.len() - 1 ==> #[trigger] linked(registry, p, i)
}

/// Whether a chain leads from `from` to `to` without touching `avoid`.
pub open spec fn reaches_avoiding(
    registry: Map<Seq<char>, TypeInfo>,
    avoid: Set<Seq<char>>,
    from: Seq<char>,
    to: Seq<char>,
) -> bool {
    exists|p: Seq<Seq<char>>| #[trigger] is_path(registry, avoid, p) && p[0] == from && p.last() == to
}

/// Whether `to` can be reached from `from`: both are registered, and a chain
/// of mentions leads from the one to the other. Every registered type
/// reaches itself.
pub open spec fn reaches(
    registry: Map<Seq<char>, TypeInfo>,
    from: Seq<char>,
    to: Seq<char>,
) -> bool {
    reaches_avoiding(registry, Set::empty(), from, to)
}

/// The registered types that can be reached from `from`.
pub open spec fn reachable(registry: Map<Seq<char>, TypeInfo>, from: Seq<char>) -> Set<Seq<char>> {
    Set::new(|n: Seq<char>| reaches(registry, from, n))
}

/// Whether a set of names holds, with each registered type in it, the
/// registered types that it mentions.
pub open spec fn closed(registry: Map<Seq<char>, TypeInfo>, names: Set<Seq<char>>) -> bool {
    forall|a: Seq<char>, b: Seq<char>|
        names.contains(a) && #[trigger] mentions(registry, a, b) && registry.dom().contains(b)
            ==> names.contains(b)
}

/// What collecting `from` adds to `start`: the types reached from `from` on
/// chains that do not touch what `start` holds already. What `start` holds
/// stays as it is; what is added is as the registry has it.
pub open spec fn collected(
    registry: Map<Seq<char>, TypeInfo>,
    start: Map<Seq<char>, TypeInfo>,
    from: Seq<char>,
) -> Map<Seq<char>, TypeInfo> {
    Map::new(
        |n: Seq<char>| start.dom().contains(n) || reaches_avoiding(registry, start.dom(), from, n),
        |n: Seq<char>|
            if start.dom().contains(n) {
                start[n]
            } else {
                registry[n]
            },
    )
}

/// What collecting each of `roots` in turn adds to `start`.
pub open spec fn collected_all(
    registry: Map<Seq<char>, TypeInfo>,
    start: Map<Seq<char>, TypeInfo>,
    roots: Seq<Seq<char>>,
) -> Map<Seq<char>, TypeInfo>
    decreases roots.len(),
{
    if roots.len() == 0 {
        start
    } else {
        collected(registry, collected_all(registry, start, roots.drop_last()), roots.last())
    }
}

/// A registered type that is not set aside reaches itself.
pub proof fn lemma_reaches_itself(
    registry: Map<Seq<char>, TypeInfo>,
    avoid: Set<Seq<char>>,
    name: Seq<char>,
)
    requires
        passable(registry, avoid, name),
    ensures
        reaches_avoiding(registry, avoid, name, name),
{
    let p = seq![name];
    assert(is_path(registry, avoid, p));
    assert(p[0] == name && p.last() == name);
}

/// A chain can be entered one step earlier.
pub proof fn lemma_reaches_prepend(
    registry: Map<Seq<char>, TypeInfo>,
    avoid: Set<Seq<char>>,
    wider: Set<Seq<char>>,
    from: Seq<char>,
    next: Seq<char>,
    to: Seq<char>,
)
    requires
        avoid.subset_of(wider),
        passable(registry, avoid, from),
        mentions(registry, from, next),
        reaches_avoiding(registry, wider, next, to),
    ensures
        reaches_avoiding(registry, avoid, from, to),
{
    let q = choose|q: Seq<Seq<char>>| #[trigger]
        is_path(registry, wider, q) && q[0] == next && q.last() == to;
    let p = seq![from] + q;
    assert forall|i: int| 0 <= i < p.len() implies passable(registry, avoid, #[trigger] p[i]) by {
        if i > 0 {
            assert(passable(registry, wider, q[i - 1]));
        }
    }
    assert forall|i: int| 0 <= i < p.len() - 1 implies #[trigger] linked(registry, p, i) by {
        if i > 0 {
            assert(linked(registry, q, i - 1));
            assert(p[i] == q[i - 1] && p[i + 1] == q[i]);
        }
    }
    assert(is_path(registry, avoid, p));
    assert(p[0] == from && p.last() == to);
}

/// A chain can be followed one step further.
pub proof fn lemma_reaches_extend(
    registry: Map<Seq<char>, TypeInfo>,
    avoid: Set<Seq<char>>,
    from: Seq<char>,
    to: Seq<char>,
    next: Seq<char>,
)
    requires
        reaches_avoiding(registry, avoid, from, to),
        mentions(registry, to, next),
        passable(registry, avoid, next),
    ensures
        reaches_avoiding(registry, avoid, from, next),
{
    let q = choose|q: Seq<Seq<char>>| #[trigger]
        is_path(registry, avoid, q) && q[0] == from && q.last() == to;
    let p = q.push(next);
    assert forall|i: int| 0 <= i < p.len() implies passable(registry, avoid, #[trigger] p[i]) by {
        if i < q.len() {
            assert(passable(registry, avoid, q[i]));
        }
    }
    assert forall|i: int| 0 <= i < p.len() - 1 implies #[trigger] linked(registry, p, i) by {
        if i < q.len() - 1 {
            assert(linked(registry, q, i));
            assert(p[i] == q[i] && p[i + 1] == q[i + 1]);
        }
    }
    assert(is_path(registry, avoid, p));
    assert(p[0] == from && p.last() == next);
}

/// A set of names that holds the start of a chain and, with each type
/// outside `avoid`, what that type mentions, holds the whole chain.
pub proof fn lemma_path_stays_inside(
    registry: Map<Seq<char>, TypeInfo>,
    avoid: Set<Seq<char>>,
    names: Set<Seq<char>>,
    p: Seq<Seq<char>>,
    j: int,
)
    requires
        is_path(registry, avoid, p),
        0 <= j < p.len(),
        names.contains(p[0]),
        forall|a: Seq<char>, b: Seq<char>|
            names.contains(a) && !avoid.contains(a) && #[trigger] mentions(registry, a, b)
                && registry.dom().contains(b) ==> names.contains(b),
    ensures
        names.contains(p[j]),
    decreases j,
{
    if j > 0 {
        lemma_path_stays_inside(registry, avoid, names, p, j - 1);
        assert(linked(registry, p, j - 1));
        assert(passable(registry, avoid, p[j - 1]));
        assert(passable(registry, avoid, p[j]));
        assert(mentions(registry, p[j - 1], p[j]));
    }
}

/// Nothing is reached from a name that is set aside or not registered.
pub proof fn lemma_reaches_nothing(
    registry: Map<Seq<char>, TypeInfo>,
    avoid: Set<Seq<char>>,
    from: Seq<char>,
)
    requires
        !passable(registry, avoid, from),
    ensures
        forall|n: Seq<char>| !reaches_avoiding(registry, avoid, from, n),
{
    assert forall|n: Seq<char>| !reaches_avoiding(registry, avoid, from, n) by {
        if reaches_avoiding(registry, avoid, from, n) {
            let p = choose|p: Seq<Seq<char>>| #[trigger]
                is_path(registry, avoid, p) && p[0] == from && p.last() == n;
            assert(passable(registry, avoid, p[0]));
        }
    }
}

/// Collecting into a closed set adds exactly what can be reached, and
/// leaves the set closed.
pub proof fn lemma_collected_closed(
    registry: Map<Seq<char>, TypeInfo>,
    start: Map<Seq<char>, TypeInfo>,
    from: Seq<char>,
)
    requires
        closed(registry, start.dom()),
    ensures
        collected(registry, start, from).dom() == start.dom().union(reachable(registry, from)),
        closed(registry, collected(registry, start, from).dom()),
{
    let result = collected(registry, start, from).dom();
    let empty = Set::<Seq<char>>::empty();
    assert forall|n: Seq<char>| result.contains(n) <==> start.dom().union(
        reachable(registry, from),
    ).contains(n) by {
        if reaches_avoiding(registry, start.dom(), from, n) {
            let p = choose|p: Seq<Seq<char>>| #[trigger]
                is_path(registry, start.dom(), p) && p[0] == from && p.last() == n;
            assert forall|i: int| 0 <= i < p.len() implies passable(
                registry,
                empty,
                #[trigger] p[i],
            ) by {
                assert(passable(registry, start.dom(), p[i]));
            }
            assert(is_path(registry, empty, p));
        }
        if reaches(registry, from, n) && !start.dom().contains(n) {
            let p = choose|p: Seq<Seq<char>>| #[trigger]
                is_path(registry, empty, p) && p[0] == from && p.last() == n;
            lemma_path_outside_closed(registry, start.dom(), p, p.len() - 1);
            assert forall|i: int| 0 <= i < p.len() implies passable(
                registry,
                start.dom(),
                #[trigger] p[i],
            ) by {
                assert(passable(registry, empty, p[i]));
                lemma_path_outside_closed(registry, start.dom(), p, i);
            }
            assert(is_path(registry, start.dom(), p));
        }
    }
    assert(result =~= start.dom().union(reachable(registry, from)));
    assert forall|a: Seq<char>, b: Seq<char>|
        result.contains(a) && #[trigger] mentions(registry, a, b) && registry.dom().contains(
            b,
        ) implies result.contains(b) by {
        if !start.dom().contains(a) && !start.dom().contains(b) {
            lemma_reaches_extend(registry, start.dom(), from, a, b);
        }
    }
}

/// On a chain that ends outside a closed set, every type is outside it.
proof fn lemma_path_outside_closed(
    registry: Map<Seq<char>, TypeInfo>,
    names: Set<Seq<char>>,
    p: Seq<Seq<char>>,
    i: int,
)
    requires
        closed(registry, names),
        is_path(registry, Set::empty(), p),
        !names.contains(p.last()),
        0 <= i < p.len(),
    ensures
        !names.contains(p[i]),
    decreases p.len() - i,
{
    if i < p.len() - 1 {
        lemma_path_outside_closed(registry, names, p, i + 1);
        assert(linked(registry, p, i));
        assert(passable(registry, Set::empty(), p[i + 1]));
    }
}

/// Collecting a type into nothing gives the types that can be reached from
/// it, each as the registry has it.
pub proof fn lemma_collected_from_nothing(registry: Map<Seq<char>, TypeInfo>, from: Seq<char>)
    ensures
        collected(registry, Map::empty(), from).dom() == reachable(registry, from),
        registry.dom().contains(from) ==> collected(registry, Map::empty(), from).dom().contains(
            from,
        ),
        forall|n: Seq<char>| #[trigger]
            collected(registry, Map::empty(), from).dom().contains(n) ==> registry.dom().contains(
                n,
            ) && collected(registry, Map::empty(), from)[n] == registry[n],
{
    let nothing = Map::<Seq<char>, TypeInfo>::empty();
    assert(nothing.dom() =~= Set::<Seq<char>>::empty());
    assert(collected(registry, nothing, from).dom() =~= reachable(registry, from));
    if registry.dom().contains(from) {
        lemma_reaches_itself(registry, Set::empty(), from);
    }
    assert forall|n: Seq<char>| #[trigger]
        collected(registry, nothing, from).dom().contains(n) implies registry.dom().contains(n)
        && collected(registry, nothing, from)[n] == registry[n] by {
        let p = choose|p: Seq<Seq<char>>| #[trigger]
            is_path(registry, nothing.dom(), p) && p[0] == from && p.last() == n;
        assert(passable(registry, nothing.dom(), p[p.len() - 1]));
    }
}

/// The registered types that can be reached from one of `roots`.
pub open spec fn reachable_from(
    registry: Map<Seq<char>, TypeInfo>,
    roots: Seq<Seq<char>>,
) -> Set<Seq<char>> {
    Set::new(
        |n: Seq<char>| exists|k: int| 0 <= k < roots.len() && reaches(registry, #[trigger] roots[k], n),
    )
}

/// Whether every declaration is the registry's declaration of its type.
pub open spec fn from_registry(
    registry: Map<Seq<char>, TypeInfo>,
    held: Map<Seq<char>, TypeInfo>,
) -> bool {
    forall|n: Seq<char>| #[trigger]
        held.dom().contains(n) ==> registry.dom().contains(n) && held[n] == registry[n]
}

/// Collecting several types into a closed set adds exactly what can be
/// reached from one of them, as the registry has it, and leaves the set
/// closed. In which order the types are collected makes no difference to
/// what is held in the end.
pub proof fn lemma_collected_all_closed(
    registry: Map<Seq<char>, TypeInfo>,
    start: Map<Seq<char>, TypeInfo>,
    roots: Seq<Seq<char>>,
)
    requires
        closed(registry, start.dom()),
    ensures
        collected_all(registry, start, roots).dom() == start.dom().union(
            reachable_from(registry, roots),
        ),
        closed(registry, collected_all(registry, start, roots).dom()),
        forall|n: Seq<char>|
            start.dom().contains(n) ==> #[trigger] collected_all(registry, start, roots)[n]
                == start[n],
        from_registry(registry, start) ==> from_registry(
            registry,
            collected_all(registry, start, roots),
        ),
    decreases roots.len(),
{
    let all = collected_all(registry, start, roots);
    if roots.len() == 0 {
        assert(all.dom() =~= start.dom().union(reachable_from(registry, roots)));
    } else {
        let earlier = roots.drop_last();
        let last = roots.last();
        let before = collected_all(registry, start, earlier);
        lemma_collected_all_closed(registry, start, earlier);
        lemma_collected_closed(registry, before, last);
        assert forall|n: Seq<char>| all.dom().contains(n) <==> start.dom().union(
            reachable_from(registry, roots),
        ).contains(n) by {
            if reachable_from(registry, earlier).contains(n) {
                let k = choose|k: int|
                    0 <= k < earlier.len() && reaches(registry, #[trigger] earlier[k], n);
                assert(reaches(registry, roots[k], n));
            }
            if reaches(registry, last, n) {
                assert(reaches(registry, roots[roots.len() - 1], n));
            }
            if reachable_from(registry, roots).contains(n) {
                let k = choose|k: int|
                    0 <= k < roots.len() && reaches(registry, #[trigger] roots[k], n);
                if k < earlier.len() {
                    assert(reaches(registry, earlier[k], n));
                }
            }
        }
        assert(all.dom() =~= start.dom().union(reachable_from(registry, roots)));
        if from_registry(registry, start) {
            assert forall|n: Seq<char>| #[trigger] all.dom().contains(n) implies registry.dom().contains(
                n,
            ) && all[n] == registry[n] by {
                if !before.dom().contains(n) {
                    let p = choose|p: Seq<Seq<char>>| #[trigger]
                        is_path(registry, before.dom(), p) && p[0] == last && p.last() == n;
                    assert(passable(registry, before.dom(), p[p.len() - 1]));
                }
            }
        }
    }
}

/// A type that mentions itself, directly or through others, is collected
/// like any other: what is collected from it holds it.
pub proof fn lemma_collected_holds_root(
    registry: Map<Seq<char>, TypeInfo>,
    start: Map<Seq<char>, TypeInfo>,
    from: Seq<char>,
)
    requires
        registry.dom().contains(from),
    ensures
        collected(registry, start, from).dom().contains(from),
{
    if !start.dom().contains(from) {
        lemma_reaches_itself(registry, start.dom(), from);
    }
}

/// Into a closed set, two types can be collected in either order: the
/// result is the same.
pub proof fn lemma_collected_order(
    registry: Map<Seq<char>, TypeInfo>,
    start: Map<Seq<char>, TypeInfo>,
    a: Seq<char>,
    b: Seq<char>,
)
    requires
        closed(registry, start.dom()),
    ensures
        collected(registry, collected(registry, start, a), b) == collected(
            registry,
            collected(registry, start, b),
            a,
        ),
{
    let first_a = collected(registry, start, a);
    let first_b = collected(registry, start, b);
    lemma_collected_closed(registry, start, a);
    lemma_collected_closed(registry, start, b);
    lemma_collected_closed(registry, first_a, b);
    lemma_collected_closed(registry, first_b, a);
    let ab = collected(registry, first_a, b);
    let ba = collected(registry, first_b, a);
    assert(ab.dom() =~= ba.dom());
    assert(ab =~= ba);
}

/// The declarations a module needs, by the names of their types. Each name
/// stands once, and the declarations are handed out in the order of their
/// names.
#[derive(Debug)]
pub struct Dependencies {
    entries: Vec<TypeDescriptor>,
}

impl View for Dependencies {
    type V = Map<Seq<char>, TypeInfo>;

    closed spec fn view(&self) -> Map<Seq<char>, TypeInfo> {
        by_name(infos(self.entries@))
    }
}

/// In a sorted sequence a name stands at its place or nowhere, and where it
/// does not stand, it comes before everything from its place on.
proof fn lemma_place(s: Seq<TypeInfo>, name: Seq<char>, at: int)
    requires
        sorted_by_name(s),
        0 <= at <= s.len(),
        forall|k: int| 0 <= k < at ==> name_lt((#[trigger] s[k]).name, name),
        at < s.len() ==> !name_lt(s[at].name, name),
    ensures
        has_name(s, name) <==> (at < s.len() && s[at].name == name),
        !has_name(s, name) ==> forall|k: int|
            at <= k < s.len() ==> name_lt(name, (#[trigger] s[k]).name),
{
    if has_name(s, name) {
        let k = index_of_name(s, name);
        if k < at {
            assert(name_lt(s[k].name, name));
            lemma_name_lt_irreflexive(name);
        } else if k > at {
            assert(name_lt(s[at].name, s[k].name));
        }
    } else {
        assert forall|k: int| at <= k < s.len() implies name_lt(name, (#[trigger] s[k]).name) by {
            assert(s[at].name != name);
            lemma_name_lt_total(s[at].name, name);
            if k > at {
                assert(name_lt(s[at].name, s[k].name));
                lemma_name_lt_transitive(name, s[at].name, s[k].name);
            }
        }
    }
}

/// Putting a new name at its place keeps the order and adds the entry.
proof fn lemma_insert_at_place(s: Seq<TypeInfo>, at: int, t: TypeInfo)
    requires
        sorted_by_name(s),
        0 <= at <= s.len(),
        forall|k: int| 0 <= k < at ==> name_lt((#[trigger] s[k]).name, t.name),
        forall|k: int| at <= k < s.len() ==> name_lt(t.name, (#[trigger] s[k]).name),
    ensures
        sorted_by_name(s.insert(at, t)),
        by_name(s.insert(at, t)) == by_name(s).insert(t.name, t),
{
    let u = s.insert(at, t);
    assert(u.len() == s.len() + 1);
    assert(u[at] == t);
    assert forall|k: int| 0 <= k < at implies #[trigger] u[k] == s[k] by {}
    assert forall|k: int| at < k < u.len() implies #[trigger] u[k] == s[k - 1] by {}
    assert forall|i: int, j: int| 0 <= i < j < u.len() implies name_lt(
        #[trigger] u[i].name,
        #[trigger] u[j].name,
    ) by {
        if j < at {
            assert(name_lt(s[i].name, s[j].name));
        } else if j == at {
            assert(name_lt(s[i].name, t.name));
        } else if i < at {
            assert(name_lt(s[i].name, s[j - 1].name));
        } else if i == at {
            assert(name_lt(t.name, s[j - 1].name));
        } else {
            assert(name_lt(s[i - 1].name, s[j - 1].name));
        }
    }
    lemma_sorted_distinct(s);
    lemma_sorted_distinct(u);
    let m = by_name(s).insert(t.name, t);
    assert forall|n: Seq<char>| by_name(u).dom().contains(n) <==> m.dom().contains(n) by {
        if has_name(u, n) {
            let i = index_of_name(u, n);
            if i < at {
                assert(s[i].name == n);
            } else if i > at {
                assert(s[i - 1].name == n);
            }
        }
        if has_name(s, n) {
            let i = index_of_name(s, n);
            if i < at {
                assert(u[i].name == n);
            } else {
                assert(u[i + 1].name == n);
            }
        }
        if n == t.name {
            assert(u[at].name == n);
        }
    }
    assert forall|n: Seq<char>| by_name(u).dom().contains(n) implies #[trigger] by_name(u)[n]
        == m[n] by {
        let i = index_of_name(u, n);
        lemma_by_name_at(u, i);
        if i < at {
            lemma_by_name_at(s, i);
        } else if i > at {
            lemma_by_name_at(s, i - 1);
        }
    }
    assert(by_name(u) =~= m);
}

impl Dependencies {
    #[verifier::type_invariant]
    spec fn well_formed(&self) -> bool {
        sorted_by_name(infos(self.entries@))
    }

    /// Dependencies are always finitely many.
    pub proof fn lemma_finite(&self)
        ensures
            self@.dom().finite(),
    {
        lemma_names_finite(infos(self.entries@));
    }

    /// Every declaration stands under the name of its type.
    pub proof fn lemma_named(&self)
        ensures
            forall|n: Seq<char>| #[trigger] self@.dom().contains(n) ==> self@[n].name == n,
    {
    }

    pub fn new() -> (dependencies: Dependencies)
        ensures
            dependencies@ == Map::<Seq<char>, TypeInfo>::empty(),
    {
        let dependencies = Dependencies { entries: Vec::new() };
        assert(dependencies@ =~= Map::<Seq<char>, TypeInfo>::empty());
        dependencies
    }

    /// The number of declarations.
    pub fn len(&self) -> (n: usize)
        ensures
            n == self@.dom().len(),
    {
        proof {
            use_type_invariant(self);
            lemma_sorted_distinct(infos(self.entries@));
            lemma_count_distinct(infos(self.entries@));
        }
        self.entries.len()
    }

    /// The place of `name` in the order of names: the number of entries
    /// whose names come before it.
    fn place(&self, name: &str) -> (at: usize)
        ensures
            at <= self.entries.len(),
            forall|k: int| 0 <= k < at ==> name_lt((#[trigger] infos(self.entries@)[k]).name, name@),
            at < self.entries.len() ==> !name_lt(infos(self.entries@)[at as int].name, name@),
    {
        let mut at: usize = 0;
        while at < self.entries.len() && str_lt(self.entries[at].name.as_str(), name)
            invariant
                at <= self.entries.len(),
                forall|k: int|
                    0 <= k < at ==> name_lt((#[trigger] infos(self.entries@)[k]).name, name@),
            decreases self.entries.len() - at,
        {
            at = at + 1;
        }
        at
    }

    /// Whether a declaration stands under `name`.
    pub fn contains(&self, name: &str) -> (b: bool)
        ensures
            b == self@.dom().contains(name@),
    {
        let at = self.place(name);
        proof {
            use_type_invariant(self);
            lemma_place(infos(self.entries@), name@, at as int);
        }
        at < self.entries.len() && str_eq(self.entries[at].name.as_str(), name)
    }

    /// Adds a declaration. Where one stands under its name already, nothing
    /// changes: the first declaration under a name stays.
    pub fn insert(&mut self, descriptor: TypeDescriptor)
        ensures
            old(self)@.dom().contains(descriptor@.name) ==> final(self)@ == old(self)@,
            !old(self)@.dom().contains(descriptor@.name) ==> final(self)@ == old(self)@.insert(
                descriptor@.name,
                descriptor@,
            ),
    {
        let at = self.place(descriptor.name.as_str());
        proof {
            use_type_invariant(&*self);
            lemma_place(infos(self.entries@), descriptor@.name, at as int);
        }
        if at < self.entries.len() && str_eq(
            self.entries[at].name.as_str(),
            descriptor.name.as_str(),
        ) {
            return ;
        }
        proof {
            lemma_insert_at_place(infos(self.entries@), at as int, descriptor@);
            assert(infos(self.entries@.insert(at as int, descriptor)) =~= infos(
                self.entries@,
            ).insert(at as int, descriptor@));
        }
        // The list is taken out while it grows: the set itself is never seen
        // in a state between two of its values.
        let mut entries: Vec<TypeDescriptor> = Vec::new();
        core::mem::swap(&mut self.entries, &mut entries);
        entries.insert(at, descriptor);
        core::mem::swap(&mut self.entries, &mut entries);
    }

    /// The declarations in the order of their names.
    pub fn values(&self) -> (entries: &Vec<TypeDescriptor>)
        ensures
            sorted_by_name(infos(entries@)),
            by_name(infos(entries@)) == self@,
    {
        proof {
            use_type_invariant(self);
        }
        &self.entries
    }

    /// Collects the type registered under `name` and every registered type
    /// that can be reached from it. A type that is held already is not
    /// entered again, so the walk ends on every registry, also where types
    /// mention each other in a circle.
    pub fn add(&mut self, registry: &TypeRegistry, name: &str)
        ensures
            final(self)@ == collected(registry@, old(self)@, name@),
        decreases registry@.dom().difference(old(self)@.dom()).len(),
    {
        let ghost start = self@;
        let ghost types = registry@;
        if self.contains(name) {
            proof {
                lemma_reaches_nothing(types, start.dom(), name@);
                assert(start =~= collected(types, start, name@));
            }
            return ;
        }
        let found = registry.get(name);
        if found.is_none() {
            proof {
                lemma_reaches_nothing(types, start.dom(), name@);
                assert(start =~= collected(types, start, name@));
            }
            return ;
        }
        let descriptor = found.unwrap();
        self.insert(descriptor.duplicate());
        proof {
            lemma_reaches_itself(types, start.dom(), name@);
            registry.lemma_finite();
        }
        let mut i: usize = 0;
        while i < descriptor.dependencies.len()
            invariant
                i <= descriptor.dependencies.len(),
                types == registry@,
                types.dom().finite(),
                types.dom().contains(name@),
                !start.dom().contains(name@),
                descriptor@ == types[name@],
                start == old(self)@,
                self@.dom().contains(name@),
                forall|n: Seq<char>|
                    start.dom().contains(n) ==> #[trigger] self@.dom().contains(n) && self@[n]
                        == start[n],
                forall|n: Seq<char>| #[trigger]
                    self@.dom().contains(n) && !start.dom().contains(n) ==> self@[n] == types[n]
                        && reaches_avoiding(types, start.dom(), name@, n),
                forall|a: Seq<char>, b: Seq<char>|
                    self@.dom().contains(a) && !start.dom().contains(a) && a != name@
                        && #[trigger] mentions(types, a, b) && types.dom().contains(b)
                        ==> self@.dom().contains(b),
                forall|k: int|
                    0 <= k < i && types.dom().contains(#[trigger] descriptor@.dependencies[k])
                        ==> self@.dom().contains(descriptor@.dependencies[k]),
            decreases descriptor.dependencies.len() - i,
        {
            let ghost before = self@;
            let ghost next = descriptor@.dependencies[i as int];
            proof {
                let less = types.dom().difference(before.dom());
                let more = types.dom().difference(start.dom());
                assert(less.subset_of(more.remove(name@)));
                lemma_len_subset(more, types.dom());
                lemma_len_subset(less, more.remove(name@));
            }
            self.add(registry, descriptor.dependencies[i].as_str());
            proof {
                let after = self@;
                assert(after == collected(types, before, next));
                assert(mentions(types, name@, next));
                assert forall|n: Seq<char>| #[trigger]
                    after.dom().contains(n) && !start.dom().contains(n) implies after[n] == types[n]
                    && reaches_avoiding(types, start.dom(), name@, n) by {
                    if !before.dom().contains(n) {
                        lemma_reaches_prepend(types, start.dom(), before.dom(), name@, next, n);
                    }
                }
                assert forall|a: Seq<char>, b: Seq<char>|
                    after.dom().contains(a) && !start.dom().contains(a) && a != name@
                        && #[trigger] mentions(types, a, b) && types.dom().contains(
                        b,
                    ) implies after.dom().contains(b) by {
                    if !before.dom().contains(a) && !before.dom().contains(b) {
                        lemma_reaches_extend(types, before.dom(), next, a, b);
                    }
                }
                if types.dom().contains(next) && !before.dom().contains(next) {
                    lemma_reaches_itself(types, before.dom(), next);
                }
            }
            i = i + 1;
        }
        proof {
            let result = self@;
            let goal = collected(types, start, name@);
            assert forall|a: Seq<char>, b: Seq<char>|
                result.dom().contains(a) && !start.dom().contains(a) && #[trigger] mentions(
                    types,
                    a,
                    b,
                ) && types.dom().contains(b) implies result.dom().contains(b) by {
                if a == name@ {
                    let k = choose|k: int|
                        0 <= k < descriptor@.dependencies.len() && descriptor@.dependencies[k] == b;
                    assert(types.dom().contains(descriptor@.dependencies[k]));
                }
            }
            assert forall|n: Seq<char>| goal.dom().contains(n) implies result.dom().contains(n) by {
                if !start.dom().contains(n) {
                    let p = choose|p: Seq<Seq<char>>| #[trigger]
                        is_path(types, start.dom(), p) && p[0] == name@ && p.last() == n;
                    lemma_path_stays_inside(types, start.dom(), result.dom(), p, p.len() - 1);
                }
            }
            assert(result.dom() =~= goal.dom());
            assert(result =~= goal);
        }
    }

    /// Collects each of the named types in turn.
    pub fn add_all(&mut self, registry: &TypeRegistry, names: &Vec<String>)
        ensures
            final(self)@ == collected_all(registry@, old(self)@, texts(names@)),
    {
        let mut i: usize = 0;
        while i < names.len()
            invariant
                i <= names.len(),
                self@ == collected_all(registry@, old(self)@, texts(names@).take(i as int)),
            decreases names.len() - i,
        {
            proof {
                let next = texts(names@).take(i + 1);
                assert(next.drop_last() =~= texts(names@).take(i as int));
                assert(next.last() == names@[i as int]@);
            }
            self.add(registry, names[i].as_str());
            i = i + 1;
        }
        proof {
            assert(texts(names@).take(names.len() as int) =~= texts(names@));
        }
    }
}

} // verus!
