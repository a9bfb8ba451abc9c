//! Checks on the declaration of a handler, before a route is made of it.
//!
//! A handler is an asynchronous function. Its first parameter, if it has
//! one, and its return type, if it has one, are read as `Json<...>`. The
//! declaration is given as data: the types in it as trees of path segments
//! and generic arguments, each argument with the text it was written as.

use vstd::prelude::*;
use vstd::string::*;

use crate::extractor::text_of;
use crate::text::{join, join_spec, str_eq, texts};

verus! {

/// A type as a declaration writes it.
#[derive(Debug)]
pub enum TypeExpr {
    /// A path such as `a::B<C>`: its segments from left to right.
    Path(Vec<PathSegment>),
    /// Any other type: a reference, a tuple, a slice.
    Other,
}

/// One segment of a path: a name and what stands behind it.
#[derive(Debug)]
pub struct PathSegment {
    pub ident: String,
    pub arguments: PathArguments,
}

/// What stands behind the name of a path segment.
#[derive(Debug)]
pub enum PathArguments {
    /// Nothing.
    Bare,
    /// Generic arguments in angle brackets.
    AngleBracketed(Vec<GenericArgument>),
    /// The parameters of a function type, in round brackets.
    Parenthesized,
}

/// A generic argument: the text it was written as and, where it is a type,
/// that type.
#[derive(Debug)]
pub struct GenericArgument {
    pub tokens: String,
    pub ty: Option<TypeExpr>,
}

/// A parameter of a function.
#[derive(Debug)]
pub enum FnArg {
    /// `self` in one of its forms.
    Receiver,
    /// A parameter with a type.
    Typed(TypeExpr),
}

/// The declaration of a handler.
#[derive(Debug)]
pub struct Signature {
    pub ident: String,
    pub is_async: bool,
    pub inputs: Vec<FnArg>,
    pub output: Option<TypeExpr>,
}

/// Why a declaration is refused.
#[derive(Debug, Clone, Copy, PartialEq, Eq, Structural)]
pub enum SignatureError {
    /// The handler is not an asynchronous function.
    NotAsync,
    /// The first parameter is `self`.
    SelfArgument,
    /// The return type is not `Json<...>`.
    ResponseNotJson,
    /// A type is not a path.
    UnsupportedType,
    /// A path has no segment.
    MissingIdent,
    /// A generic argument is not a type.
    UnsupportedGeneric,
}

impl SignatureError {
    pub open spec fn text(self) -> Seq<char> {
        match self {
            SignatureError::NotAsync => "Must be async"@,
            SignatureError::SelfArgument => "First argument must not be self"@,
            SignatureError::ResponseNotJson => "Response type must be Json<...>"@,
            SignatureError::UnsupportedType => "Only syn::Type::Path types are supported."@,
            SignatureError::MissingIdent => "Only types with ident names are supported."@,
            SignatureError::UnsupportedGeneric => "Only types are supported as generics."@,
        }
    }

    /// The message shown for the error.
    pub fn message(&self) -> (message: &'static str)
        ensures
            message@ == self.text(),
    {
        match self {
            SignatureError::NotAsync => "Must be async",
            SignatureError::SelfArgument => "First argument must not be self",
            SignatureError::ResponseNotJson => "Response type must be Json<...>",
            SignatureError::UnsupportedType => "Only syn::Type::Path types are supported.",
            SignatureError::MissingIdent => "Only types with ident names are supported.",
            SignatureError::UnsupportedGeneric => "Only types are supported as generics.",
        }
    }
}

/// A refused declaration: the name of the handler and the reason.
#[derive(Debug, PartialEq, Eq)]
pub struct HandlerError {
    pub handler: String,
    pub reason: SignatureError,
}

/// The types a handler takes and gives, as `Json<...>` holds them.
#[derive(Debug, PartialEq, Eq)]
pub struct HandlerTypes {
    pub request: Option<String>,
    pub response: Option<String>,
}

/// The place of the first segment named `Json`, or the number of segments
/// if there is none.
pub open spec fn json_index(segments: Seq<PathSegment>) -> nat
    decreases segments.len(),
{
    if segments.len() == 0 {
        0
    } else if segments[0].ident@ == "Json"@ {
        0
    } else {
        1 + json_index(segments.skip(1))
    }
}

/// What stands inside `Json<...>`: the text of the first argument of the
/// first path segment named `Json`. A type that is no path, a path without
/// such a segment, and a `Json` without an argument in angle brackets hold
/// nothing.
pub open spec fn json_inner(ty: TypeExpr) -> Option<Seq<char>> {
    match ty {
        TypeExpr::Path(segments) => {
            let at = json_index(segments@);
            if at < segments.len() {
                match segments@[at as int].arguments {
                    PathArguments::AngleBracketed(arguments) => if arguments.len() > 0 {
                        Some(arguments@[0].tokens@)
                    } else {
                        None
                    },
                    _ => None,
                }
            } else {
                None
            }
        },
        TypeExpr::Other => None,
    }
}

/// What is read of a declaration: the request type from the first
/// parameter, the response type from the return type.
pub open spec fn handler_types_spec(signature: Signature) -> Result<
    (Option<Seq<char>>, Option<Seq<char>>),
    SignatureError,
> {
    if !signature.is_async {
        Err(SignatureError::NotAsync)
    } else if signature.inputs.len() > 0 && signature.inputs@[0] is Receiver {
        Err(SignatureError::SelfArgument)
    } else if signature.output is Some && json_inner(signature.output->0) is None {
        Err(SignatureError::ResponseNotJson)
    } else {
        Ok(
            (
                if signature.inputs.len() > 0 {
                    json_inner(signature.inputs@[0]->Typed_0)
                } else {
                    None
                },
                match signature.output {
                    Some(ty) => json_inner(ty),
                    None => None,
                },
            ),
        )
    }
}

proof fn lemma_json_index(segments: Seq<PathSegment>)
    ensures
        json_index(segments) <= segments.len(),
        forall|k: int| 0 <= k < json_index(segments) ==> (#[trigger] segments[k]).ident@ != "Json"@,
        json_index(segments) < segments.len() ==> segments[json_index(segments) as int].ident@
            == "Json"@,
    decreases segments.len(),
{
    if segments.len() > 0 && segments[0].ident@ != "Json"@ {
        let rest = segments.skip(1);
        lemma_json_index(rest);
        assert forall|k: int| 0 <= k < json_index(segments) implies (#[trigger] segments[k]).ident@
            != "Json"@ by {
            if k > 0 {
                assert(rest[k - 1] == segments[k]);
            }
        }
    }
}

/// Reads what stands inside `Json<...>`.
pub fn parse_type_inside_json(ty: &TypeExpr) -> (inner: Option<String>)
    ensures
        text_of(inner) == json_inner(*ty),
{
    match ty {
        TypeExpr::Path(segments) => {
            let mut at: usize = 0;
            while at < segments.len() && !str_eq(segments[at].ident.as_str(), "Json")
                invariant
                    at <= segments.len(),
                    forall|k: int| 0 <= k < at ==> (#[trigger] segments@[k]).ident@ != "Json"@,
                decreases segments.len() - at,
            {
                at = at + 1;
            }
            proof {
                lemma_json_index(segments@);
                let found = json_index(segments@) as int;
                if found < at {
                    assert(segments@[found].ident@ != "Json"@);
                }
            }
            if at < segments.len() {
                match &segments[at].arguments {
                    PathArguments::AngleBracketed(arguments) => if arguments.len() > 0 {
                        Some(arguments[0].tokens.clone())
                    } else {
                        None
                    },
                    _ => None,
                }
            } else {
                None
            }
        },
        TypeExpr::Other => None,
    }
}

/// Reads the request type from the first parameter of a handler.
pub fn parse_request_type(signature: &Signature) -> (request: Result<
    Option<String>,
    SignatureError,
>)
    ensures
        signature.inputs.len() > 0 && signature.inputs@[0] is Receiver <==> request is Err,
        request matches Err(e) ==> e == SignatureError::SelfArgument,
        request matches Ok(inner) ==> text_of(inner) == if signature.inputs.len() > 0 {
            json_inner(signature.inputs@[0]->Typed_0)
        } else {
            None
        },
{
    if signature.inputs.len() == 0 {
        return Ok(None);
    }
    match &signature.inputs[0] {
        FnArg::Receiver => Err(SignatureError::SelfArgument),
        FnArg::Typed(ty) => Ok(parse_type_inside_json(ty)),
    }
}

/// What a result of `handler_types` says, as plain text.
pub open spec fn handler_types_view(result: Result<HandlerTypes, HandlerError>) -> Result<
    (Option<Seq<char>>, Option<Seq<char>>),
    SignatureError,
> {
    match result {
        Ok(types) => Ok((text_of(types.request), text_of(types.response))),
        Err(error) => Err(error.reason),
    }
}

/// Checks the declaration of a handler and reads its request and response
/// types. A declaration is refused where the handler is not asynchronous,
/// where its first parameter is `self`, and where it returns something that
/// is not `Json<...>`, in this order; the error names the handler.
pub fn handler_types(signature: &Signature) -> (result: Result<HandlerTypes, HandlerError>)
    ensures
        handler_types_view(result) == handler_types_spec(*signature),
        result matches Err(error) ==> error.handler@ == signature.ident@,
{
    if !signature.is_async {
        return Err(
            HandlerError { handler: signature.ident.clone(), reason: SignatureError::NotAsync },
        );
    }
    let request = match parse_request_type(signature) {
        Ok(request) => request,
        Err(reason) => {
            return Err(HandlerError { handler: signature.ident.clone(), reason });
        },
    };
    let response = match &signature.output {
        None => None,
        Some(ty) => {
            let inner = parse_type_inside_json(ty);
            if inner.is_none() {
                return Err(
                    HandlerError {
                        handler: signature.ident.clone(),
                        reason: SignatureError::ResponseNotJson,
                    },
                );
            }
            inner
        },
    };
    Ok(HandlerTypes { request, response })
}

/// What a named type says, as plain text.
pub struct TypeView {
    pub ident: Seq<char>,
    pub generics: Seq<TypeView>,
}

/// A named type with its generic arguments.
#[derive(Debug)]
pub struct Type {
    pub ident: String,
    pub generics: Vec<Type>,
}

/// What a named type says.
pub open spec fn type_view(t: Type) -> TypeView
    decreases t,
{
    TypeView { ident: t.ident@, generics: type_views(t.generics@) }
}

/// What a sequence of named types says.
pub open spec fn type_views(types: Seq<Type>) -> Seq<TypeView>
    decreases types,
{
    if types.len() == 0 {
        Seq::empty()
    } else {
        type_views(types.drop_last()).push(type_view(types.last()))
    }
}

impl View for Type {
    type V = TypeView;

    open spec fn view(&self) -> TypeView {
        type_view(*self)
    }
}

/// The named type a written type stands for: the name of its last path
/// segment with the types of its generic arguments. A type that is no path,
/// a path without a segment, and a generic argument that is no type are
/// refused; of several faults the leftmost is named.
pub open spec fn from_syn_spec(ty: TypeExpr) -> Result<TypeView, SignatureError>
    decreases ty,
{
    match ty {
        TypeExpr::Other => Err(SignatureError::UnsupportedType),
        TypeExpr::Path(segments) => {
            if segments.len() == 0 {
                Err(SignatureError::MissingIdent)
            } else {
                let last = segments@[segments.len() - 1];
                match last.arguments {
                    PathArguments::AngleBracketed(arguments) => match generics_spec(arguments@) {
                        Ok(generics) => Ok(TypeView { ident: last.ident@, generics }),
                        Err(e) => Err(e),
                    },
                    _ => Ok(TypeView { ident: last.ident@, generics: Seq::empty() }),
                }
            }
        },
    }
}

/// The named types a list of generic arguments stands for.
pub open spec fn generics_spec(arguments: Seq<GenericArgument>) -> Result<
    Seq<TypeView>,
    SignatureError,
>
    decreases arguments,
{
    if arguments.len() == 0 {
        Ok(Seq::empty())
    } else {
        match generics_spec(arguments.drop_last()) {
            Err(e) => Err(e),
            Ok(generics) => match arguments.last().ty {
                None => Err(SignatureError::UnsupportedGeneric),
                Some(ty) => match from_syn_spec(ty) {
                    Ok(t) => Ok(generics.push(t)),
                    Err(e) => Err(e),
                },
            },
        }
    }
}

/// What a result of `from_syn` says, as plain text.
pub open spec fn type_result_view(result: Result<Type, SignatureError>) -> Result<
    TypeView,
    SignatureError,
> {
    match result {
        Ok(t) => Ok(t@),
        Err(e) => Err(e),
    }
}

/// The type as it is written: its name, and its generic arguments in angle
/// brackets where it has any.
pub open spec fn type_text(t: TypeView) -> Seq<char>
    decreases t,
{
    if t.generics.len() == 0 {
        t.ident
    } else {
        t.ident + "<"@ + join_spec(type_texts(t.generics), ", "@) + ">"@
    }
}

/// The types of a sequence as they are written.
pub open spec fn type_texts(types: Seq<TypeView>) -> Seq<Seq<char>>
    decreases types,
{
    if types.len() == 0 {
        Seq::empty()
    } else {
        type_texts(types.drop_last()).push(type_text(types.last()))
    }
}

impl Type {
    /// Reads a written type as a named type.
    pub fn from_syn(ty: &TypeExpr) -> (result: Result<Type, SignatureError>)
        ensures
            type_result_view(result) == from_syn_spec(*ty),
        decreases ty,
    {
        let segments = match ty {
            TypeExpr::Path(segments) => segments,
            TypeExpr::Other => {
                return Err(SignatureError::UnsupportedType);
            },
        };
        if segments.len() == 0 {
            return Err(SignatureError::MissingIdent);
        }
        let last = &segments[segments.len() - 1];
        let mut generics: Vec<Type> = Vec::new();
        if let PathArguments::AngleBracketed(arguments) = &last.arguments {
            let mut i: usize = 0;
            while i < arguments.len()
                invariant
                    i <= arguments.len(),
                    last == segments@[segments.len() - 1],
                    *ty == TypeExpr::Path(*segments),
                    segments.len() > 0,
                    last.arguments == PathArguments::AngleBracketed(*arguments),
                    generics_spec(arguments@.take(i as int)) == Ok::<
                        Seq<TypeView>,
                        SignatureError,
                    >(type_views(generics@)),
                decreases arguments.len() - i,
            {
                proof {
                    let next = arguments@.take(i + 1);
                    assert(next.drop_last() =~= arguments@.take(i as int));
                    assert(next.last() == arguments@[i as int]);
                    assert(arguments@.take(arguments.len() as int) =~= arguments@);
                }
                let argument = match &arguments[i].ty {
                    Some(argument) => argument,
                    None => {
                        proof {
                            lemma_generics_fail(arguments@, i + 1);
                        }
                        return Err(SignatureError::UnsupportedGeneric);
                    },
                };
                let generic = match Type::from_syn(argument) {
                    Ok(generic) => generic,
                    Err(e) => {
                        proof {
                            lemma_generics_fail(arguments@, i + 1);
                        }
                        return Err(e);
                    },
                };
                proof {
                    assert(generics@.push(generic).drop_last() =~= generics@);
                }
                generics.push(generic);
                i = i + 1;
            }
            proof {
                assert(arguments@.take(arguments.len() as int) =~= arguments@);
            }
        }
        Ok(Type { ident: last.ident.clone(), generics })
    }

    /// The type as it is written.
    pub fn to_string(&self) -> (written: String)
        ensures
            written@ == type_text(self@),
        decreases self,
    {
        let mut written = self.ident.clone();
        if self.generics.len() > 0 {
            let mut inner: Vec<String> = Vec::new();
            let mut i: usize = 0;
            while i < self.generics.len()
                invariant
                    i <= self.generics.len(),
                    texts(inner@) == type_texts(type_views(self.generics@.take(i as int))),
                decreases self.generics.len() - i,
            {
                proof {
                    let next = self.generics@.take(i + 1);
                    assert(next.drop_last() =~= self.generics@.take(i as int));
                    assert(next.last() == self.generics@[i as int]);
                    assert(type_views(next).drop_last() =~= type_views(next.drop_last()));
                }
                let text = self.generics[i].to_string();
                proof {
                    assert(texts(inner@.push(text)) =~= texts(inner@).push(text@));
                }
                inner.push(text);
                i = i + 1;
            }
            proof {
                assert(self.generics@.take(self.generics.len() as int) =~= self.generics@);
                lemma_type_views_len(self.generics@);
            }
            written.append("<");
            written.append(join(&inner, ", ").as_str());
            written.append(">");
        } else {
            proof {
                lemma_type_views_len(self.generics@);
            }
        }
        written
    }
}

/// A fault among the first arguments is a fault of the whole list.
proof fn lemma_generics_fail(arguments: Seq<GenericArgument>, n: int)
    requires
        0 <= n <= arguments.len(),
        generics_spec(arguments.take(n)) is Err,
    ensures
        generics_spec(arguments) == generics_spec(arguments.take(n)),
    decreases arguments.len() - n,
{
    if n < arguments.len() {
        let next = arguments.take(n + 1);
        assert(next.drop_last() =~= arguments.take(n));
        lemma_generics_fail(arguments, n + 1);
    } else {
        assert(arguments.take(n) =~= arguments);
    }
}

/// A sequence of types says as many things as it has types.
proof fn lemma_type_views_len(types: Seq<Type>)
    ensures
        type_views(types).len() == types.len(),
    decreases types.len(),
{
    if types.len() > 0 {
        lemma_type_views_len(types.drop_last());
    }
}

/// The attributes a route is declared with.
#[derive(Debug)]
pub struct ApiAttributes {
    pub method: crate::method::ApiMethod,
    pub path: String,
}

/// The path with a slash in front, where it has none.
pub open spec fn rooted(path: Seq<char>) -> Seq<char> {
    if path.len() > 0 && path[0] == '/' {
        path
    } else {
        seq!['/'] + path
    }
}

impl ApiAttributes {
    /// The path of the route: the declared path, with a slash in front
    /// where it has none.
    pub fn route_path(&self) -> (path: String)
        ensures
            path@ == rooted(self.path@),
    {
        let declared = self.path.as_str();
        if declared.unicode_len() > 0 && declared.get_char(0) == '/' {
            self.path.clone()
        } else {
            let mut path = String::new();
            path.push('/');
            path.append(declared);
            path
        }
    }
}

/// What a search for a crate among the dependencies of a package found.
#[derive(Debug)]
pub enum FoundCrate {
    /// The package is the crate itself.
    Itself,
    /// The crate is a dependency, under this name.
    Name(String),
}

/// The name generated code calls a crate by.
pub open spec fn crate_name_spec(
    name: Seq<char>,
    internal: bool,
    found: Option<FoundCrate>,
) -> Seq<char> {
    if internal {
        "crate"@
    } else {
        match found {
            Some(FoundCrate::Name(renamed)) => renamed@,
            _ => name,
        }
    }
}

/// The name generated code calls a crate by: `crate` from inside it, the
/// name it was found under among the dependencies, or else its own name.
pub fn get_crate_name(name: &str, internal: bool, found: Option<FoundCrate>) -> (used: String)
    ensures
        used@ == crate_name_spec(name@, internal, found),
{
    if internal {
        String::from_str("crate")
    } else {
        match found {
            Some(FoundCrate::Name(renamed)) => renamed,
            _ => String::from_str(name),
        }
    }
}

} // verus!
