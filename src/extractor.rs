//! Routes and the types they carry, and the contract shared by the route
//! extractors of the two framework styles.
use vstd::prelude::*;
use crate::parser::ParsedFile;

pub mod axum;
pub mod actix;
pub mod handler;
pub mod walker;

verus! {

/// Extracts every route from a batch of parsed files.
pub trait RouteExtractor {
    /// The routes that the extractor finds in `files`.
    spec fn routes_of(&self, files: Seq<ParsedFile>) -> Seq<RouteView>;

    fn extract_routes(&self, parsed_files: &[ParsedFile]) -> (r: Vec<RouteInfo>)
        ensures
            route_views(r@) == self.routes_of(parsed_files@),
    ;
}

/// One HTTP endpoint.
#[derive(Debug)]
pub struct RouteInfo {
    /// The path template, in the extractor's own parameter syntax.
    pub path: String,
    pub method: HttpMethod,
    pub handler_name: String,
    pub parameters: Vec<Parameter>,
    pub request_body: Option<TypeInfo>,
    pub response_type: Option<TypeInfo>,
}

#[derive(Debug, Clone, Copy, PartialEq, Eq, Structural, Hash)]
pub enum HttpMethod {
    Get,
    Post,
    Put,
    Delete,
    Patch,
    Options,
    Head,
}

/// One parameter of a route.
#[derive(Debug)]
pub struct Parameter {
    pub name: String,
    pub location: ParameterLocation,
    pub type_info: TypeInfo,
    pub required: bool,
}

#[derive(Debug, Clone, Copy, PartialEq, Eq, Structural, Hash)]
pub enum ParameterLocation {
    Path,
    Query,
    Header,
}

/// A reference to a type, with its `Option` or `Vec` wrapping made explicit.
///
/// For an `Option` or `Vec` node the single generic argument is the wrapped
/// type and `name` repeats that type's name.
#[derive(Debug)]
pub struct TypeInfo {
    pub name: String,
    pub is_generic: bool,
    pub generic_args: Vec<TypeInfo>,
    pub is_option: bool,
    pub is_vec: bool,
}

/// The value of a `TypeInfo`.
pub struct TypeView {
    pub name: Seq<char>,
    pub is_generic: bool,
    pub args: Seq<TypeView>,
    pub is_option: bool,
    pub is_vec: bool,
}

pub struct ParamView {
    pub name: Seq<char>,
    pub location: ParameterLocation,
    pub type_info: TypeView,
    pub required: bool,
}

pub struct RouteView {
    pub path: Seq<char>,
    pub method: HttpMethod,
    pub handler_name: Seq<char>,
    pub parameters: Seq<ParamView>,
    pub request_body: Option<TypeView>,
    pub response_type: Option<TypeView>,
}

pub open spec fn type_views(s: Seq<TypeInfo>) -> Seq<TypeView>
    decreases s,
{
    if s.len() == 0 {
        Seq::empty()
    } else {
        type_views(s.drop_last()).push(type_view(s.last()))
    }
}

pub open spec fn type_view(t: TypeInfo) -> TypeView
    decreases t,
{
    TypeView {
        name: t.name@,
        is_generic: t.is_generic,
        args: type_views(t.generic_args@),
        is_option: t.is_option,
        is_vec: t.is_vec,
    }
}

pub open spec fn opt_type_view(t: Option<TypeInfo>) -> Option<TypeView> {
    match t {
        Some(x) => Some(type_view(x)),
        None => None,
    }
}

impl View for TypeInfo {
    type V = TypeView;

    open spec fn view(&self) -> TypeView {
        type_view(*self)
    }
}

impl View for Parameter {
    type V = ParamView;

    open spec fn view(&self) -> ParamView {
        ParamView {
            name: self.name@,
            location: self.location,
            type_info: type_view(self.type_info),
            required: self.required,
        }
    }
}

impl View for RouteInfo {
    type V = RouteView;

    open spec fn view(&self) -> RouteView {
        RouteView {
            path: self.path@,
            method: self.method,
            handler_name: self.handler_name@,
            parameters: param_views(self.parameters@),
            request_body: opt_type_view(self.request_body),
            response_type: opt_type_view(self.response_type),
        }
    }
}

pub open spec fn param_views(s: Seq<Parameter>) -> Seq<ParamView> {
    s.map_values(|p: Parameter| p@)
}

pub open spec fn route_views(s: Seq<RouteInfo>) -> Seq<RouteView> {
    s.map_values(|r: RouteInfo| r@)
}

/// A bare named type.
pub open spec fn simple_type(name: Seq<char>) -> TypeView {
    TypeView { name, is_generic: false, args: Seq::empty(), is_option: false, is_vec: false }
}

/// `Option<inner>`.
pub open spec fn option_type(inner: TypeView) -> TypeView {
    TypeView { name: inner.name, is_generic: false, args: seq![inner], is_option: true, is_vec: false }
}

/// `Vec<inner>`.
pub open spec fn vec_type(inner: TypeView) -> TypeView {
    TypeView { name: inner.name, is_generic: false, args: seq![inner], is_option: false, is_vec: true }
}

/// `type_views` describes each element in place.
pub proof fn lemma_type_views_index(s: Seq<TypeInfo>)
    ensures
        type_views(s).len() == s.len(),
        forall|i: int| 0 <= i < s.len() ==> #[trigger] type_views(s)[i] == type_view(s[i]),
    decreases s.len(),
{
    if s.len() > 0 {
        lemma_type_views_index(s.drop_last());
        assert forall|i: int| 0 <= i < s.len() implies #[trigger] type_views(s)[i] == type_view(s[i]) by {
            if i < s.len() - 1 {
                assert(s.drop_last()[i] == s[i]);
            }
        }
    }
}

pub proof fn lemma_param_views_push(s: Seq<Parameter>, p: Parameter)
    ensures
        param_views(s.push(p)) == param_views(s).push(p@),
{
    assert(param_views(s.push(p)) =~= param_views(s).push(p@));
}

pub proof fn lemma_route_views_push(s: Seq<RouteInfo>, r: RouteInfo)
    ensures
        route_views(s.push(r)) == route_views(s).push(r@),
{
    assert(route_views(s.push(r)) =~= route_views(s).push(r@));
}

impl TypeInfo {
    /// A bare named type.
    pub fn new(name: String) -> (r: Self)
        ensures
            r@ == simple_type(name@),
    {
        let r = TypeInfo { name, is_generic: false, generic_args: Vec::new(), is_option: false, is_vec: false };
        proof {
            assert(type_views(r.generic_args@) == Seq::<TypeView>::empty());
        }
        r
    }

    /// `Option<inner>`.
    pub fn option(inner: TypeInfo) -> (r: Self)
        ensures
            r@ == option_type(inner@),
    {
        let name = inner.name.clone();
        let r = TypeInfo { name, is_generic: false, generic_args: vec![inner], is_option: true, is_vec: false };
        proof {
            assert(r.generic_args@.drop_last() == Seq::<TypeInfo>::empty());
            assert(r.generic_args@.last() == inner);
            assert(type_views(Seq::<TypeInfo>::empty()) == Seq::<TypeView>::empty());
            assert(type_views(r.generic_args@) =~= seq![inner@]);
        }
        r
    }

    /// `Vec<inner>`.
    pub fn vec(inner: TypeInfo) -> (r: Self)
        ensures
            r@ == vec_type(inner@),
    {
        let name = inner.name.clone();
        let r = TypeInfo { name, is_generic: false, generic_args: vec![inner], is_option: false, is_vec: true };
        proof {
            assert(r.generic_args@.drop_last() == Seq::<TypeInfo>::empty());
            assert(r.generic_args@.last() == inner);
            assert(type_views(Seq::<TypeInfo>::empty()) == Seq::<TypeView>::empty());
            assert(type_views(r.generic_args@) =~= seq![inner@]);
        }
        r
    }

    /// A copy with the same value.
    pub fn duplicate(&self) -> (r: Self)
        ensures
            r@ == self@,
        decreases self,
    {
        let mut args: Vec<TypeInfo> = Vec::new();
        let mut i: usize = 0;
        while i < self.generic_args.len()
            invariant
                i <= self.generic_args.len(),
                type_views(args@) == type_views(self.generic_args@.subrange(0, i as int)),
            decreases self.generic_args.len() - i,
        {
            proof {
                assert(decreases_to!(*self => self.generic_args));
            }
            let a = self.generic_args[i].duplicate();
            let ghost prev = args@;
            args.push(a);
            proof {
                assert(args@.drop_last() == prev);
                assert(self.generic_args@.subrange(0, i + 1).drop_last() == self.generic_args@.subrange(0, i as int));
            }
            i = i + 1;
        }
        proof {
            assert(self.generic_args@.subrange(0, i as int) == self.generic_args@);
        }
        TypeInfo {
            name: self.name.clone(),
            is_generic: self.is_generic,
            generic_args: args,
            is_option: self.is_option,
            is_vec: self.is_vec,
        }
    }
}

impl PartialEq for TypeInfo {
    fn eq(&self, other: &TypeInfo) -> (r: bool)
        ensures
            r == (self@ == other@),
        decreases self,
    {
        proof {
            lemma_type_views_index(self.generic_args@);
            lemma_type_views_index(other.generic_args@);
        }
        if !crate::strings::str_eq(self.name.as_str(), other.name.as_str()) || self.is_generic != other.is_generic
            || self.is_option != other.is_option || self.is_vec != other.is_vec
            || self.generic_args.len() != other.generic_args.len() {
            return false;
        }
        let mut i: usize = 0;
        while i < self.generic_args.len()
            invariant
                i <= self.generic_args.len(),
                self.generic_args.len() == other.generic_args.len(),
                type_views(self.generic_args@).len() == self.generic_args@.len(),
                type_views(other.generic_args@).len() == other.generic_args@.len(),
                forall|j: int| 0 <= j < self.generic_args@.len() ==> #[trigger] type_views(self.generic_args@)[j] == type_view(self.generic_args@[j]),
                forall|j: int| 0 <= j < other.generic_args@.len() ==> #[trigger] type_views(other.generic_args@)[j] == type_view(other.generic_args@[j]),
                forall|j: int| 0 <= j < i ==> type_view(self.generic_args@[j]) == type_view(other.generic_args@[j]),
            decreases self.generic_args.len() - i,
        {
            proof {
                assert(decreases_to!(*self => self.generic_args));
            }
            if !self.generic_args[i].eq(&other.generic_args[i]) {
                proof {
                    assert(type_views(self.generic_args@)[i as int] != type_views(other.generic_args@)[i as int]);
                }
                return false;
            }
            i = i + 1;
        }
        proof {
            assert(type_views(self.generic_args@) =~= type_views(other.generic_args@));
        }
        true
    }
}

impl vstd::std_specs::cmp::PartialEqSpecImpl for TypeInfo {
    open spec fn obeys_eq_spec() -> bool {
        true
    }

    open spec fn eq_spec(&self, other: &TypeInfo) -> bool {
        self@ == other@
    }
}

pub fn duplicate_opt_type(t: &Option<TypeInfo>) -> (r: Option<TypeInfo>)
    ensures
        opt_type_view(r) == opt_type_view(*t),
{
    match t {
        Some(x) => Some(x.duplicate()),
        None => None,
    }
}

impl RouteInfo {
    /// A route with no parameters, body or response yet.
    pub fn new(path: String, method: HttpMethod, handler_name: String) -> (r: Self)
        ensures
            r@ == (RouteView {
                path: path@,
                method,
                handler_name: handler_name@,
                parameters: Seq::empty(),
                request_body: None,
                response_type: None,
            }),
    {
        let r = RouteInfo {
            path,
            method,
            handler_name,
            parameters: Vec::new(),
            request_body: None,
            response_type: None,
        };
        proof {
            assert(param_views(r.parameters@) =~= Seq::<ParamView>::empty());
        }
        r
    }
}

impl Parameter {
    pub fn new(name: String, location: ParameterLocation, type_info: TypeInfo, required: bool) -> (r: Self)
        ensures
            r@ == (ParamView { name: name@, location, type_info: type_info@, required }),
    {
        Parameter { name, location, type_info, required }
    }

    /// A copy with the same value.
    pub fn duplicate(&self) -> (r: Self)
        ensures
            r@ == self@,
    {
        Parameter {
            name: self.name.clone(),
            location: self.location,
            type_info: self.type_info.duplicate(),
            required: self.required,
        }
    }
}

} // verus!
