//! Type descriptors, the registry that holds them, and the set of
//! declarations a generated module needs.
//!
//! A type is known by its canonical name. The registry maps each name to the
//! declaration of the type and to the names of the types that declaration
//! mentions. The dependencies of a module are the registry's entries that can
//! be reached from the types of its signature.

use vstd::prelude::*;
use vstd::string::*;

use crate::text::{
    lemma_name_lt_irreflexive, lemma_name_lt_total, lemma_name_lt_transitive, name_lt, str_eq,
    texts,
};

verus! {

/// What a descriptor says, as plain text.
pub struct TypeInfo {
    pub name: Seq<char>,
    pub declaration: Seq<char>,
    pub dependencies: Seq<Seq<char>>,
}

/// A declared type: its canonical name, the text of its declaration, and the
/// names of the types the declaration mentions.
#[derive(Debug, Clone, PartialEq, Eq)]
pub struct TypeDescriptor {
    pub name: String,
    pub declaration: String,
    pub dependencies: Vec<String>,
}

impl View for TypeDescriptor {
    type V = TypeInfo;

    open spec fn view(&self) -> TypeInfo {
        TypeInfo {
            name: self.name@,
            declaration: self.declaration@,
            dependencies: texts(self.dependencies@),
        }
    }
}

/// A copy of a list of strings.
pub fn copy_strings(v: &Vec<String>) -> (copy: Vec<String>)
    ensures
        texts(copy@) == texts(v@),
{
    let mut copy: Vec<String> = Vec::new();
    let mut i: usize = 0;
    while i < v.len()
        invariant
            i <= v.len(),
            copy@.len() == i,
            forall|k: int| 0 <= k < i ==> copy@[k]@ == v@[k]@,
        decreases v.len() - i,
    {
        copy.push(v[i].clone());
        i = i + 1;
    }
    assert(texts(copy@) =~= texts(v@));
    copy
}

impl TypeDescriptor {
    pub fn new(name: &str, declaration: &str, dependencies: Vec<String>) -> (d: TypeDescriptor)
        ensures
            d@.name == name@,
            d@.declaration == declaration@,
            d@.dependencies == texts(dependencies@),
    {
        TypeDescriptor {
            name: String::from_str(name),
            declaration: String::from_str(declaration),
            dependencies,
        }
    }

    /// A descriptor that says the same.
    pub fn duplicate(&self) -> (d: TypeDescriptor)
        ensures
            d@ == self@,
    {
        TypeDescriptor {
            name: self.name.clone(),
            declaration: self.declaration.clone(),
            dependencies: copy_strings(&self.dependencies),
        }
    }
}

/// What a type reference says, as plain text.
pub struct TypeRefInfo {
    pub name: Seq<char>,
    pub dependencies: Seq<Seq<char>>,
}

/// A type as a signature mentions it: the text that stands for it in the
/// generated code, and the names of the declared types that text mentions.
#[derive(Debug, Clone, PartialEq, Eq)]
pub struct TypeRef {
    pub name: String,
    pub dependencies: Vec<String>,
}

impl View for TypeRef {
    type V = TypeRefInfo;

    open spec fn view(&self) -> TypeRefInfo {
        TypeRefInfo { name: self.name@, dependencies: texts(self.dependencies@) }
    }
}

impl TypeRef {
    pub fn new(name: &str, dependencies: Vec<String>) -> (t: TypeRef)
        ensures
            t@.name == name@,
            t@.dependencies == texts(dependencies@),
    {
        TypeRef { name: String::from_str(name), dependencies }
    }

    /// A reference that says the same.
    pub fn duplicate(&self) -> (t: TypeRef)
        ensures
            t@ == self@,
    {
        TypeRef { name: self.name.clone(), dependencies: copy_strings(&self.dependencies) }
    }
}

/// What a sequence of descriptors says.
pub open spec fn infos(v: Seq<TypeDescriptor>) -> Seq<TypeInfo> {
    Seq::new(v.len(), |i: int| v[i]@)
}

/// Whether one of the descriptors has the name.
pub open spec fn has_name(s: Seq<TypeInfo>, name: Seq<char>) -> bool {
    exists|i: int| 0 <= i < s.len() && #[trigger] s[i].name == name
}

/// A position at which the name stands, if it stands anywhere.
pub open spec fn index_of_name(s: Seq<TypeInfo>, name: Seq<char>) -> int {
    choose|i: int| 0 <= i < s.len() && #[trigger] s[i].name == name
}

/// The descriptors by their names.
pub open spec fn by_name(s: Seq<TypeInfo>) -> Map<Seq<char>, TypeInfo> {
    Map::new(|n: Seq<char>| has_name(s, n), |n: Seq<char>| s[index_of_name(s, n)])
}

/// No two descriptors have the same name.
pub open spec fn distinct_names(s: Seq<TypeInfo>) -> bool {
    forall|i: int, j: int| 0 <= i < j < s.len() ==> #[trigger] s[i].name != #[trigger] s[j].name
}

/// The descriptors stand in the order of their names, each name once.
pub open spec fn sorted_by_name(s: Seq<TypeInfo>) -> bool {
    forall|i: int, j: int|
        0 <= i < j < s.len() ==> name_lt(#[trigger] s[i].name, #[trigger] s[j].name)
}

/// Among descriptors with distinct names, each is the one found under its name.
pub proof fn lemma_by_name_at(s: Seq<TypeInfo>, i: int)
    requires
        distinct_names(s),
        0 <= i < s.len(),
    ensures
        has_name(s, s[i].name),
        by_name(s)[s[i].name] == s[i],
        index_of_name(s, s[i].name) == i,
{
    let k = index_of_name(s, s[i].name);
    assert(s[k].name == s[i].name);
    if k < i {
        assert(s[k].name != s[i].name);
    } else if i < k {
        assert(s[i].name != s[k].name);
    }
}

/// Descriptors in the order of their names have distinct names.
pub proof fn lemma_sorted_distinct(s: Seq<TypeInfo>)
    requires
        sorted_by_name(s),
    ensures
        distinct_names(s),
{
    assert forall|i: int, j: int| 0 <= i < j < s.len() implies #[trigger] s[i].name
        != #[trigger] s[j].name by {
        lemma_name_lt_irreflexive(s[i].name);
    }
}

/// The names of finitely many descriptors are finitely many.
pub proof fn lemma_names_finite(s: Seq<TypeInfo>)
    ensures
        by_name(s).dom().finite(),
        by_name(s).dom().len() <= s.len(),
    decreases s.len(),
{
    if s.len() == 0 {
        assert(by_name(s).dom() =~= Set::<Seq<char>>::empty());
    } else {
        let rest = s.drop_last();
        lemma_names_finite(rest);
        assert forall|n: Seq<char>| by_name(s).dom().contains(n) <==> by_name(rest).dom().insert(
            s.last().name,
        ).contains(n) by {
            if has_name(s, n) {
                let i = index_of_name(s, n);
                if i < s.len() - 1 {
                    assert(rest[i].name == n);
                }
            }
            if has_name(rest, n) {
                let i = index_of_name(rest, n);
                assert(s[i].name == n);
            }
            if n == s.last().name {
                assert(s[s.len() - 1].name == n);
            }
        }
        assert(by_name(s).dom() =~= by_name(rest).dom().insert(s.last().name));
    }
}

/// The types known to a generation pass, by canonical name. A name is
/// registered once: the first descriptor under a name stays.
#[derive(Debug)]
pub struct TypeRegistry {
    types: Vec<TypeDescriptor>,
}

impl View for TypeRegistry {
    type V = Map<Seq<char>, TypeInfo>;

    closed spec fn view(&self) -> Map<Seq<char>, TypeInfo> {
        by_name(infos(self.types@))
    }
}

impl TypeRegistry {
    #[verifier::type_invariant]
    spec fn well_formed(&self) -> bool {
        distinct_names(infos(self.types@))
    }

    /// A registry always holds finitely many types.
    pub proof fn lemma_finite(&self)
        ensures
            self@.dom().finite(),
    {
        lemma_names_finite(infos(self.types@));
    }

    /// Every type is registered under its own name.
    pub proof fn lemma_named(&self)
        ensures
            forall|n: Seq<char>| #[trigger] self@.dom().contains(n) ==> self@[n].name == n,
    {
    }

    pub fn new() -> (registry: TypeRegistry)
        ensures
            registry@ == Map::<Seq<char>, TypeInfo>::empty(),
    {
        let registry = TypeRegistry { types: Vec::new() };
        assert(registry@ =~= Map::<Seq<char>, TypeInfo>::empty());
        registry
    }

    /// The number of registered types.
    pub fn len(&self) -> (n: usize)
        ensures
            n == self@.dom().len(),
    {
        proof {
            use_type_invariant(self);
            lemma_count_distinct(infos(self.types@));
        }
        self.types.len()
    }

    /// The descriptor registered under `name`, if there is one.
    pub fn get(&self, name: &str) -> (found: Option<&TypeDescriptor>)
        ensures
            found is Some <==> self@.dom().contains(name@),
            found matches Some(d) ==> d@ == self@[name@] && d@.name == name@,
    {
        proof {
            use_type_invariant(self);
        }
        let mut i: usize = 0;
        while i < self.types.len()
            invariant
                i <= self.types.len(),
                distinct_names(infos(self.types@)),
                forall|k: int| 0 <= k < i ==> infos(self.types@)[k].name != name@,
            decreases self.types.len() - i,
        {
            if str_eq(self.types[i].name.as_str(), name) {
                proof {
                    assert(infos(self.types@)[i as int].name == name@);
                    lemma_by_name_at(infos(self.types@), i as int);
                }
                return Some(&self.types[i]);
            }
            i = i + 1;
        }
        None
    }

    /// Whether a type is registered under `name`.
    pub fn contains(&self, name: &str) -> (b: bool)
        ensures
            b == self@.dom().contains(name@),
    {
        self.get(name).is_some()
    }

    /// Registers a type. Where its name is registered already, the registry
    /// stays as it is.
    pub fn insert(&mut self, descriptor: TypeDescriptor)
        ensures
            old(self)@.dom().contains(descriptor@.name) ==> final(self)@ == old(self)@,
            !old(self)@.dom().contains(descriptor@.name) ==> final(self)@ == old(self)@.insert(
                descriptor@.name,
                descriptor@,
            ),
    {
        if self.contains(descriptor.name.as_str()) {
            return ;
        }
        proof {
            use_type_invariant(&*self);
            lemma_push_new_name(infos(self.types@), descriptor@);
            assert(infos(self.types@.push(descriptor)) =~= infos(self.types@).push(descriptor@));
        }
        // The list is taken out while it grows: the registry itself is never
        // seen in a state between two of its values.
        let mut types: Vec<TypeDescriptor> = Vec::new();
        core::mem::swap(&mut self.types, &mut types);
        types.push(descriptor);
        core::mem::swap(&mut self.types, &mut types);
    }
}

/// Descriptors with distinct names have as many names as there are descriptors.
pub proof fn lemma_count_distinct(s: Seq<TypeInfo>)
    requires
        distinct_names(s),
    ensures
        by_name(s).dom().finite(),
        by_name(s).dom().len() == s.len(),
    decreases s.len(),
{
    lemma_names_finite(s);
    if s.len() == 0 {
        assert(by_name(s).dom() =~= Set::<Seq<char>>::empty());
    } else {
        let rest = s.drop_last();
        lemma_count_distinct(rest);
        lemma_push_new_name(rest, s.last());
        assert(rest.push(s.last()) =~= s);
    }
}

/// Appending a descriptor under a new name adds it to the map and leaves the
/// names distinct.
pub proof fn lemma_push_new_name(s: Seq<TypeInfo>, t: TypeInfo)
    requires
        distinct_names(s),
        !has_name(s, t.name),
    ensures
        distinct_names(s.push(t)),
        by_name(s.push(t)) == by_name(s).insert(t.name, t),
{
    let u = s.push(t);
    assert forall|i: int, j: int| 0 <= i < j < u.len() implies #[trigger] u[i].name
        != #[trigger] u[j].name by {
        if j == s.len() {
            assert(s[i].name == u[i].name);
        } else {
            assert(s[i].name != s[j].name);
        }
    }
    assert forall|n: Seq<char>| by_name(u).dom().contains(n) <==> by_name(s).insert(
        t.name,
        t,
    ).dom().contains(n) by {
        if has_name(u, n) {
            let i = index_of_name(u, n);
            if i < s.len() {
                assert(s[i].name == n);
            }
        }
        if has_name(s, n) {
            let i = index_of_name(s, n);
            assert(u[i].name == n);
        }
        if n == t.name {
            assert(u[s.len() as int].name == n);
        }
    }
    assert forall|n: Seq<char>| by_name(u).dom().contains(n) implies #[trigger] by_name(u)[n]
        == by_name(s).insert(t.name, t)[n] by {
        let i = index_of_name(u, n);
        lemma_by_name_at(u, i);
        if i < s.len() {
            assert(s[i].name == n);
            lemma_by_name_at(s, i);
        }
    }
    assert(by_name(u) =~= by_name(s).insert(t.name, t));
}

/// The descriptors of a map in the order of their names.
pub open spec fn ordered(m: Map<Seq<char>, TypeInfo>) -> Seq<TypeInfo> {
    choose|s: Seq<TypeInfo>| sorted_by_name(s) && by_name(s) == m
}

/// Without its last descriptor, a sequence with distinct names maps the
/// same names but the last.
pub proof fn lemma_by_name_drop_last(s: Seq<TypeInfo>)
    requires
        distinct_names(s),
        s.len() > 0,
    ensures
        distinct_names(s.drop_last()),
        by_name(s.drop_last()) == by_name(s).remove(s.last().name),
{
    let rest = s.drop_last();
    let last = s.last();
    assert forall|i: int, j: int| 0 <= i < j < rest.len() implies #[trigger] rest[i].name
        != #[trigger] rest[j].name by {
        assert(s[i].name != s[j].name);
    }
    if has_name(rest, last.name) {
        let i = index_of_name(rest, last.name);
        assert(s[i].name != s[s.len() - 1].name);
    }
    lemma_push_new_name(rest, last);
    assert(rest.push(last) =~= s);
    assert(by_name(rest) =~= by_name(s).remove(last.name));
}

/// There is one way only to put descriptors in the order of their names:
/// two sorted sequences that map the same names to the same descriptors are
/// the same sequence.
pub proof fn lemma_sorted_same(s: Seq<TypeInfo>, t: Seq<TypeInfo>)
    requires
        sorted_by_name(s),
        sorted_by_name(t),
        by_name(s) == by_name(t),
    ensures
        s == t,
    decreases s.len(),
{
    lemma_sorted_distinct(s);
    lemma_sorted_distinct(t);
    lemma_count_distinct(s);
    lemma_count_distinct(t);
    if s.len() == 0 {
        assert(s =~= t);
    } else {
        let a = s.last();
        let b = t.last();
        lemma_by_name_at(s, s.len() - 1);
        lemma_by_name_at(t, t.len() - 1);
        assert(has_name(t, a.name));
        assert(has_name(s, b.name));
        let j = index_of_name(t, a.name);
        let i = index_of_name(s, b.name);
        lemma_name_lt_total(a.name, b.name);
        if name_lt(a.name, b.name) {
            if i < s.len() - 1 {
                assert(name_lt(s[i].name, s[s.len() - 1].name));
                lemma_name_lt_transitive(a.name, b.name, a.name);
            }
            lemma_name_lt_irreflexive(a.name);
        } else if name_lt(b.name, a.name) {
            if j < t.len() - 1 {
                assert(name_lt(t[j].name, t[t.len() - 1].name));
                lemma_name_lt_transitive(b.name, a.name, b.name);
            }
            lemma_name_lt_irreflexive(b.name);
        }
        assert(a.name == b.name);
        assert(a == b);
        lemma_by_name_drop_last(s);
        lemma_by_name_drop_last(t);
        assert forall|i: int, j: int| 0 <= i < j < s.drop_last().len() implies name_lt(
            #[trigger] s.drop_last()[i].name,
            #[trigger] s.drop_last()[j].name,
        ) by {
            assert(name_lt(s[i].name, s[j].name));
        }
        assert forall|i: int, j: int| 0 <= i < j < t.drop_last().len() implies name_lt(
            #[trigger] t.drop_last()[i].name,
            #[trigger] t.drop_last()[j].name,
        ) by {
            assert(name_lt(t[i].name, t[j].name));
        }
        lemma_sorted_same(s.drop_last(), t.drop_last());
        assert(s =~= s.drop_last().push(a));
        assert(t =~= t.drop_last().push(b));
    }
}

/// A sorted sequence is the ordered form of the map it stands for.
pub proof fn lemma_ordered(s: Seq<TypeInfo>)
    requires
        sorted_by_name(s),
    ensures
        ordered(by_name(s)) == s,
{
    lemma_sorted_same(ordered(by_name(s)), s);
}

} // verus!
