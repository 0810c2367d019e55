//! What a handler's signature says about its route: the parameters and the
//! request body its extractor arguments declare, and the response type its
//! return type declares.
use vstd::prelude::*;
use crate::extractor::{
    HttpMethod, Parameter, ParameterLocation, TypeInfo, TypeView, ParamView, simple_type,
    option_type, vec_type, param_views, opt_type_view, lemma_param_views_push,
};
use crate::syntax::{TypeExpr, Signature};
use crate::strings::{str_eq, owned};

verus! {

/// The lower-case form of a text, as `str::to_lowercase` gives it.
pub uninterp spec fn lowercase_of(s: Seq<char>) -> Seq<char>;

/// Relies on `str::to_lowercase`: its result depends on the characters alone.
#[verifier::external_body]
fn to_lowercase(s: &str) -> (r: String)
    ensures
        r@ == lowercase_of(s@),
{
    s.to_lowercase()
}

/// The HTTP method that a lower-case name denotes.
pub open spec fn method_named(s: Seq<char>) -> Option<HttpMethod> {
    if s == "get"@ {
        Some(HttpMethod::Get)
    } else if s == "post"@ {
        Some(HttpMethod::Post)
    } else if s == "put"@ {
        Some(HttpMethod::Put)
    } else if s == "delete"@ {
        Some(HttpMethod::Delete)
    } else if s == "patch"@ {
        Some(HttpMethod::Patch)
    } else if s == "head"@ {
        Some(HttpMethod::Head)
    } else if s == "options"@ {
        Some(HttpMethod::Options)
    } else {
        None
    }
}

/// The HTTP method that a lower-case name denotes.
pub fn method_from_lowercase(s: &str) -> (r: Option<HttpMethod>)
    ensures
        r == method_named(s@),
{
    if str_eq(s, "get") {
        Some(HttpMethod::Get)
    } else if str_eq(s, "post") {
        Some(HttpMethod::Post)
    } else if str_eq(s, "put") {
        Some(HttpMethod::Put)
    } else if str_eq(s, "delete") {
        Some(HttpMethod::Delete)
    } else if str_eq(s, "patch") {
        Some(HttpMethod::Patch)
    } else if str_eq(s, "head") {
        Some(HttpMethod::Head)
    } else if str_eq(s, "options") {
        Some(HttpMethod::Options)
    } else {
        None
    }
}

/// The HTTP method that a name denotes in any letter case.
pub fn parse_http_method(name: &str) -> (r: Option<HttpMethod>)
    ensures
        r == method_named(lowercase_of(name@)),
{
    let lower = to_lowercase(name);
    method_from_lowercase(lower.as_str())
}

/// The first generic argument, when it is a type.
pub open spec fn first_type_arg(args: Seq<TypeExpr>) -> Option<TypeExpr> {
    if args.len() > 0 && !(args[0] is NonType) {
        Some(args[0])
    } else {
        None
    }
}

/// The description of a type written in a handler signature: `Option` and
/// `Vec` are unwrapped, other generic arguments are not kept, and a type
/// that is not a path is `unknown`.
pub open spec fn handler_type(t: TypeExpr) -> TypeView
    decreases t,
{
    match t {
        TypeExpr::Path { name, args } => {
            if name@ == "Option"@ && args@.len() > 0 && !(args@[0] is NonType) {
                option_type(handler_type(args@[0]))
            } else if name@ == "Vec"@ && args@.len() > 0 && !(args@[0] is NonType) {
                vec_type(handler_type(args@[0]))
            } else {
                simple_type(name@)
            }
        },
        _ => simple_type("unknown"@),
    }
}

fn first_type_arg_of(args: &Vec<TypeExpr>) -> (r: Option<&TypeExpr>)
    ensures
        match r {
            Some(a) => args@.len() > 0 && !(args@[0] is NonType) && *a == args@[0],
            None => !(args@.len() > 0 && !(args@[0] is NonType)),
        },
{
    if args.len() == 0 {
        return None;
    }
    match &args[0] {
        TypeExpr::NonType => None,
        a => Some(a),
    }
}

/// Describes a type written in a handler signature.
pub fn handler_type_of(t: &TypeExpr) -> (r: TypeInfo)
    ensures
        r@ == handler_type(*t),
    decreases t,
{
    match t {
        TypeExpr::Path { name, args } => {
            let first = first_type_arg_of(args);
            if str_eq(name.as_str(), "Option") {
                if let Some(a) = first {
                    proof {
                        assert(decreases_to!(*t => *args));
                    }
                    let inner = handler_type_of(a);
                    return TypeInfo::option(inner);
                }
            }
            if str_eq(name.as_str(), "Vec") {
                if let Some(a) = first {
                    proof {
                        assert(decreases_to!(*t => *args));
                    }
                    let inner = handler_type_of(a);
                    return TypeInfo::vec(inner);
                }
            }
            TypeInfo::new(name.clone())
        },
        _ => TypeInfo::new(owned("unknown")),
    }
}


/// The type inside `Json<T>`, when `t` is one.
pub open spec fn json_inner(t: TypeExpr) -> Option<TypeView> {
    match t {
        TypeExpr::Path { name, args } => {
            if name@ == "Json"@ && args@.len() > 0 && !(args@[0] is NonType) {
                Some(handler_type(args@[0]))
            } else {
                None
            }
        },
        _ => None,
    }
}

/// The body type of the first `Json<T>` element of a tuple.
pub open spec fn tuple_json(elems: Seq<TypeExpr>) -> Option<TypeView>
    decreases elems.len(),
{
    if elems.len() == 0 {
        None
    } else {
        match json_inner(elems[0]) {
            Some(v) => Some(v),
            None => tuple_json(elems.drop_first()),
        }
    }
}

/// The response type that a declared return type gives: `Result<T, _>` is
/// read as `T`, `Json<T>` as `T`, `&T` as `T`, a tuple as its first `Json`
/// element, and `impl Trait` as no type.
pub open spec fn response_type_of(t: TypeExpr) -> Option<TypeView>
    decreases t,
{
    match t {
        TypeExpr::ImplTrait => None,
        TypeExpr::Reference(inner) => Some(handler_type(*inner)),
        TypeExpr::Path { name, args } => {
            if name@ == "Json"@ && args@.len() > 0 && !(args@[0] is NonType) {
                Some(handler_type(args@[0]))
            } else if name@ == "Result"@ && args@.len() > 0 && !(args@[0] is NonType) {
                response_type_of(args@[0])
            } else {
                Some(handler_type(t))
            }
        },
        TypeExpr::Tuple(elems) => tuple_json(elems@),
        _ => None,
    }
}

fn json_inner_of(t: &TypeExpr) -> (r: Option<TypeInfo>)
    ensures
        opt_type_view(r) == json_inner(*t),
{
    match t {
        TypeExpr::Path { name, args } => {
            if str_eq(name.as_str(), "Json") {
                if let Some(a) = first_type_arg_of(args) {
                    return Some(handler_type_of(a));
                }
            }
            None
        },
        _ => None,
    }
}

/// The response type that a declared return type gives.
pub fn parse_return_type(t: &TypeExpr) -> (r: Option<TypeInfo>)
    ensures
        opt_type_view(r) == response_type_of(*t),
    decreases t,
{
    match t {
        TypeExpr::ImplTrait => None,
        TypeExpr::Reference(inner) => Some(handler_type_of(inner)),
        TypeExpr::Path { name, args } => {
            let first = first_type_arg_of(args);
            if str_eq(name.as_str(), "Json") {
                if let Some(a) = first {
                    return Some(handler_type_of(a));
                }
            }
            if str_eq(name.as_str(), "Result") {
                if let Some(a) = first {
                    proof {
                        assert(decreases_to!(*t => *args));
                    }
                    return parse_return_type(a);
                }
            }
            Some(handler_type_of(t))
        },
        TypeExpr::Tuple(elems) => {
            let mut i: usize = 0;
            proof {
                assert(elems@.subrange(0, elems@.len() as int) == elems@);
            }
            while i < elems.len()
                invariant
                    i <= elems.len(),
                    response_type_of(*t) == tuple_json(elems@),
                    tuple_json(elems@) == tuple_json(elems@.subrange(i as int, elems@.len() as int)),
                decreases elems.len() - i,
            {
                let ghost rest = elems@.subrange(i as int, elems@.len() as int);
                proof {
                    assert(rest[0] == elems@[i as int]);
                    assert(rest.drop_first() == elems@.subrange(i + 1, elems@.len() as int));
                }
                let found = json_inner_of(&elems[i]);
                if found.is_some() {
                    proof {
                        assert(rest.len() > 0);
                        assert(json_inner(rest[0]) is Some);
                        assert(tuple_json(rest) == json_inner(rest[0]));
                    }
                    return found;
                }
                i = i + 1;
            }
            None
        },
        _ => None,
    }
}

/// What a handler's signature contributes to its routes.
pub struct HandlerSummary {
    pub name: String,
    pub parameters: Vec<Parameter>,
    pub request_body: Option<TypeInfo>,
    pub response_type: Option<TypeInfo>,
}

pub struct HandlerView {
    pub name: Seq<char>,
    pub parameters: Seq<ParamView>,
    pub request_body: Option<TypeView>,
    pub response_type: Option<TypeView>,
}

impl View for HandlerSummary {
    type V = HandlerView;

    open spec fn view(&self) -> HandlerView {
        HandlerView {
            name: self.name@,
            parameters: param_views(self.parameters@),
            request_body: opt_type_view(self.request_body),
            response_type: opt_type_view(self.response_type),
        }
    }
}

/// The parameters and the request body declared by extractor arguments:
/// `Json<T>` is the body (the last one wins), `Path<T>` a required path
/// parameter, `Query<T>` an optional query parameter.
pub open spec fn extractor_params(inputs: Seq<TypeExpr>) -> (Seq<ParamView>, Option<TypeView>)
    decreases inputs.len(),
{
    if inputs.len() == 0 {
        (Seq::empty(), None)
    } else {
        let (ps, body) = extractor_params(inputs.drop_last());
        match inputs.last() {
            TypeExpr::Path { name, args } => {
                if args@.len() > 0 && !(args@[0] is NonType) {
                    let inner = handler_type(args@[0]);
                    if name@ == "Json"@ {
                        (ps, Some(inner))
                    } else if name@ == "Path"@ {
                        (ps.push(ParamView {
                            name: "path_params"@,
                            location: ParameterLocation::Path,
                            type_info: inner,
                            required: true,
                        }), body)
                    } else if name@ == "Query"@ {
                        (ps.push(ParamView {
                            name: "query_params"@,
                            location: ParameterLocation::Query,
                            type_info: inner,
                            required: false,
                        }), body)
                    } else {
                        (ps, body)
                    }
                } else {
                    (ps, body)
                }
            },
            _ => (ps, body),
        }
    }
}

/// What the signature `sig` contributes to the routes it handles.
pub open spec fn summary_of(sig: Signature) -> HandlerView {
    HandlerView {
        name: sig.name@,
        parameters: extractor_params(sig.inputs@).0,
        request_body: extractor_params(sig.inputs@).1,
        response_type: match sig.output {
            Some(t) => response_type_of(t),
            None => None,
        },
    }
}

/// Reads the extractor arguments and the return type of a handler.
pub fn summarize(sig: &Signature) -> (r: HandlerSummary)
    ensures
        r@ == summary_of(*sig),
{
    let mut params: Vec<Parameter> = Vec::new();
    let mut body: Option<TypeInfo> = None;
    let mut i: usize = 0;
    proof {
        assert(sig.inputs@.subrange(0, 0) =~= Seq::<TypeExpr>::empty());
        assert(param_views(params@) =~= Seq::<ParamView>::empty());
    }
    while i < sig.inputs.len()
        invariant
            i <= sig.inputs.len(),
            (param_views(params@), opt_type_view(body)) == extractor_params(sig.inputs@.subrange(0, i as int)),
        decreases sig.inputs.len() - i,
    {
        let ghost pre = sig.inputs@.subrange(0, i as int);
        proof {
            assert(sig.inputs@.subrange(0, i + 1).drop_last() == pre);
            assert(sig.inputs@.subrange(0, i + 1).last() == sig.inputs@[i as int]);
        }
        match &sig.inputs[i] {
            TypeExpr::Path { name, args } => {
                if let Some(a) = first_type_arg_of(args) {
                    let inner = handler_type_of(a);
                    if str_eq(name.as_str(), "Json") {
                        body = Some(inner);
                    } else if str_eq(name.as_str(), "Path") {
                        let p = Parameter::new(owned("path_params"), ParameterLocation::Path, inner, true);
                        proof {
                            lemma_param_views_push(params@, p);
                        }
                        params.push(p);
                    } else if str_eq(name.as_str(), "Query") {
                        let p = Parameter::new(owned("query_params"), ParameterLocation::Query, inner, false);
                        proof {
                            lemma_param_views_push(params@, p);
                        }
                        params.push(p);
                    }
                }
            },
            _ => {},
        }
        i = i + 1;
    }
    proof {
        assert(sig.inputs@.subrange(0, i as int) == sig.inputs@);
    }
    let response_type = match &sig.output {
        Some(t) => parse_return_type(t),
        None => None,
    };
    HandlerSummary { name: sig.name.clone(), parameters: params, request_body: body, response_type }
}

} // verus!
