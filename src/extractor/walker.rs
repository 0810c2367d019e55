//! The traversal shared by both extractors: one depth-first walk over all
//! files that collects the routes (with the scope prefix in force where each is
//! declared) and a summary of every free function, then a second pass that
//! joins each route to the last function declared under its handler's name.
use vstd::prelude::*;
use crate::extractor::{
    HttpMethod, Parameter, ParameterLocation, RouteInfo, TypeInfo, ParamView, RouteView,
    simple_type, param_views, route_views, lemma_param_views_push, lemma_route_views_push,
    duplicate_opt_type,
};
use crate::extractor::handler::{
    HandlerSummary, HandlerView, summarize, summary_of, method_named, method_from_lowercase,
    lowercase_of, parse_http_method,
};
use crate::paths::{combine_spec, combine_paths, path_param_names, path_param_names_of, PathSyntax, string_views};
use crate::parser::ParsedFile;
use crate::strings::{str_eq, owned};
use crate::syntax::{Attribute, AttrArg, Expr, Item, ItemFn, Node};

verus! {

/// Which of the two framework styles a walk reads.
#[derive(Clone, Copy)]
pub enum Style {
    /// Routes composed by method calls: `.route(path, get(h))`, `.get(path, h)`,
    /// `.nest(prefix, router)`.
    Builder,
    /// Handlers annotated with `#[get(path)]` and friends, grouped by
    /// `.scope(prefix)` calls.
    Attribute,
}

/// What a part of the walk collects.
pub struct Found {
    pub routes: Seq<RouteView>,
    pub handlers: Seq<HandlerView>,
}

pub open spec fn nothing() -> Found {
    Found { routes: Seq::empty(), handlers: Seq::empty() }
}

pub open spec fn join(a: Found, b: Found) -> Found {
    Found { routes: a.routes + b.routes, handlers: a.handlers + b.handlers }
}

pub open spec fn syntax_of(style: Style) -> PathSyntax {
    match style {
        Style::Builder => PathSyntax::Colon,
        Style::Attribute => PathSyntax::Brace,
    }
}

/// The parameters that a path template declares: required path parameters
/// whose type is not known beyond `String`.
pub open spec fn path_params(syntax: PathSyntax, path: Seq<char>) -> Seq<ParamView> {
    path_param_names(syntax, path).map_values(|n: Seq<char>| ParamView {
        name: n,
        location: ParameterLocation::Path,
        type_info: simple_type("String"@),
        required: true,
    })
}

/// A route as the first pass records it.
pub open spec fn new_route(syntax: PathSyntax, path: Seq<char>, method: HttpMethod, handler: Seq<char>) -> RouteView {
    RouteView {
        path,
        method,
        handler_name: handler,
        parameters: path_params(syntax, path),
        request_body: None,
        response_type: None,
    }
}

/// The handler that an argument names: the last segment of a path, else `unknown`.
pub open spec fn handler_name(e: Expr) -> Seq<char> {
    match e {
        Expr::Path(n) => n@,
        _ => "unknown"@,
    }
}

pub open spec fn is_shorthand(m: Seq<char>) -> bool {
    method_named(m) is Some
}

/// The route declared by the builder call `.method(args)` under `prefix`, if any.
pub open spec fn builder_routes(method: Seq<char>, args: Seq<Expr>, prefix: Seq<char>) -> Seq<RouteView> {
    if method == "route"@ {
        if args.len() >= 2 && args[0] is Lit && args[1] is Call {
            let full = combine_spec(prefix, args[0]->Lit_0@);
            let func = *args[1]->Call_func;
            let cargs = args[1]->Call_args@;
            if func is Path && method_named(lowercase_of(func->Path_0@)) is Some {
                let h = if cargs.len() > 0 { handler_name(cargs[0]) } else { "unknown"@ };
                seq![new_route(PathSyntax::Colon, full, method_named(lowercase_of(func->Path_0@))->0, h)]
            } else {
                Seq::empty()
            }
        } else {
            Seq::empty()
        }
    } else if is_shorthand(method) && args.len() > 0 {
        let m = method_named(method)->0;
        if args[0] is Lit {
            let full = combine_spec(prefix, args[0]->Lit_0@);
            let h = if args.len() > 1 { handler_name(args[1]) } else { "unknown"@ };
            seq![new_route(PathSyntax::Colon, full, m, h)]
        } else {
            seq![new_route(PathSyntax::Colon, prefix, m, handler_name(args[0]))]
        }
    } else {
        Seq::empty()
    }
}

/// The prefix in force for the arguments of `.method(args)` in style `style`,
/// and whether it applies to all of them (a scope) or to the second only (a nest).
pub open spec fn scoped_prefix(style: Style, method: Seq<char>, args: Seq<Expr>, prefix: Seq<char>) -> Seq<char> {
    let opens = match style {
        Style::Builder => method == "nest"@,
        Style::Attribute => method == "scope"@,
    };
    if opens && args.len() > 0 && args[0] is Lit {
        combine_spec(prefix, args[0]->Lit_0@)
    } else {
        prefix
    }
}

/// The path that a route attribute declares.
pub open spec fn attr_path(a: Attribute) -> Option<Seq<char>> {
    if a.args@.len() > 0 && a.args@[0] is Lit && a.args@[0]->Lit_0@.len() > 0 {
        Some(a.args@[0]->Lit_0@)
    } else {
        None
    }
}

/// The routes that the attributes `attrs` of the function `name` declare.
pub open spec fn attr_routes(attrs: Seq<Attribute>, name: Seq<char>, prefix: Seq<char>) -> Seq<RouteView>
    decreases attrs.len(),
{
    if attrs.len() == 0 {
        Seq::empty()
    } else {
        let rest = attr_routes(attrs.drop_last(), name, prefix);
        let a = attrs.last();
        match (method_named(lowercase_of(a.name@)), attr_path(a)) {
            (Some(m), Some(p)) => rest.push(new_route(PathSyntax::Brace, combine_spec(prefix, p), m, name)),
            _ => rest,
        }
    }
}

pub open spec fn walk_expr(style: Style, e: Expr, prefix: Seq<char>) -> Found
    decreases e,
{
    match e {
        Expr::MethodCall { receiver, method, args } => {
            let q = scoped_prefix(style, method@, args@, prefix);
            match style {
                Style::Builder => join(
                    Found { routes: builder_routes(method@, args@, prefix), handlers: Seq::empty() },
                    join(walk_expr(style, *receiver, prefix), walk_args(style, args@, prefix, q)),
                ),
                Style::Attribute => join(walk_expr(style, *receiver, q), walk_args(style, args@, q, q)),
            }
        },
        Expr::Call { func, args } => join(walk_expr(style, *func, prefix), walk_args(style, args@, prefix, prefix)),
        Expr::Other(nodes) => walk_nodes(style, nodes@, prefix),
        _ => nothing(),
    }
}

/// The walk of call arguments: the second one under `second`, the others
/// under `prefix`.
pub open spec fn walk_args(style: Style, args: Seq<Expr>, prefix: Seq<char>, second: Seq<char>) -> Found
    decreases args,
{
    if args.len() == 0 {
        nothing()
    } else {
        join(
            walk_args(style, args.drop_last(), prefix, second),
            walk_expr(style, args.last(), if args.len() == 2 { second } else { prefix }),
        )
    }
}

pub open spec fn walk_nodes(style: Style, nodes: Seq<Node>, prefix: Seq<char>) -> Found
    decreases nodes,
{
    if nodes.len() == 0 {
        nothing()
    } else {
        join(
            walk_nodes(style, nodes.drop_last(), prefix),
            match nodes.last() {
                Node::Expr(e) => walk_expr(style, e, prefix),
                Node::Item(it) => walk_item(style, it, prefix),
            },
        )
    }
}

pub open spec fn walk_item(style: Style, it: Item, prefix: Seq<char>) -> Found
    decreases it,
{
    match it {
        Item::Fn(f) => {
            let own = match style {
                Style::Builder => Seq::empty(),
                Style::Attribute => attr_routes(f.attrs@, f.sig.name@, prefix),
            };
            join(Found { routes: own, handlers: seq![summary_of(f.sig)] }, walk_nodes(style, f.body@, prefix))
        },
        Item::Other(nodes) => walk_nodes(style, nodes@, prefix),
        _ => nothing(),
    }
}

pub open spec fn walk_items(style: Style, items: Seq<Item>) -> Found
    decreases items.len(),
{
    if items.len() == 0 {
        nothing()
    } else {
        join(walk_items(style, items.drop_last()), walk_item(style, items.last(), Seq::empty()))
    }
}

/// The first pass over all files, in order.
pub open spec fn walk_files(style: Style, files: Seq<ParsedFile>) -> Found
    decreases files.len(),
{
    if files.len() == 0 {
        nothing()
    } else {
        join(walk_files(style, files.drop_last()), walk_items(style, files.last().syntax_tree.items@))
    }
}

/// The last handler summary recorded under `name`.
pub open spec fn find_handler(hs: Seq<HandlerView>, name: Seq<char>) -> Option<HandlerView>
    decreases hs.len(),
{
    if hs.len() == 0 {
        None
    } else if hs.last().name == name {
        Some(hs.last())
    } else {
        find_handler(hs.drop_last(), name)
    }
}

/// A route after the second pass: the handler's extractor parameters are
/// appended to the path parameters, and its body and response types taken;
/// a route whose handler is unknown stays as it is.
pub open spec fn enrich(r: RouteView, hs: Seq<HandlerView>) -> RouteView {
    match find_handler(hs, r.handler_name) {
        Some(h) => RouteView {
            parameters: r.parameters + h.parameters,
            request_body: h.request_body,
            response_type: h.response_type,
            ..r
        },
        None => r,
    }
}

/// The routes that an extractor of style `style` reports for `files`.
pub open spec fn extracted_routes(style: Style, files: Seq<ParsedFile>) -> Seq<RouteView> {
    let f = walk_files(style, files);
    f.routes.map_values(|r: RouteView| enrich(r, f.handlers))
}

pub open spec fn handler_views(s: Seq<HandlerSummary>) -> Seq<HandlerView> {
    s.map_values(|h: HandlerSummary| h@)
}

proof fn lemma_join_assoc(a: Found, b: Found, c: Found)
    ensures
        join(join(a, b), c) == join(a, join(b, c)),
{
    assert(join(join(a, b), c).routes =~= join(a, join(b, c)).routes);
    assert(join(join(a, b), c).handlers =~= join(a, join(b, c)).handlers);
}

proof fn lemma_join_nothing(a: Found)
    ensures
        join(a, nothing()) == a,
{
    assert(join(a, nothing()).routes =~= a.routes);
    assert(join(a, nothing()).handlers =~= a.handlers);
}

/// A `.nest(path, router)` call declares no route itself: it contributes the
/// routes of its receiver under the current prefix and those of `router`
/// under the current prefix joined with `path`, so nesting composes prefixes
/// left to right (see `lemma_nested_scopes_concatenate`).
pub proof fn lemma_nest_scopes_router(e: Expr, prefix: Seq<char>)
    requires
        e is MethodCall,
        e->MethodCall_method@ == "nest"@,
        e->MethodCall_args@.len() == 2,
        e->MethodCall_args@[0] is Lit,
    ensures
        walk_expr(Style::Builder, e, prefix).routes == walk_expr(Style::Builder, *e->MethodCall_receiver, prefix).routes
            + walk_expr(Style::Builder, e->MethodCall_args@[1], combine_spec(prefix, e->MethodCall_args@[0]->Lit_0@)).routes,
{
    let args = e->MethodCall_args@;
    let q = combine_spec(prefix, args[0]->Lit_0@);
    reveal_strlit("nest");
    reveal_strlit("route");
    reveal_strlit("get");
    reveal_strlit("post");
    reveal_strlit("put");
    reveal_strlit("delete");
    reveal_strlit("patch");
    reveal_strlit("head");
    reveal_strlit("options");
    assert("nest"@ != "route"@) by {
        assert("nest"@.len() != "route"@.len());
    }
    assert(method_named("nest"@) is None) by {
        assert("nest"@.len() != "get"@.len());
        assert("nest"@.len() != "put"@.len());
        assert("nest"@[0] != "post"@[0]);
        assert("nest"@[0] != "head"@[0]);
        assert("nest"@.len() != "delete"@.len());
        assert("nest"@.len() != "patch"@.len());
        assert("nest"@.len() != "options"@.len());
    }
    assert(builder_routes("nest"@, args, prefix) == Seq::<RouteView>::empty());
    assert(scoped_prefix(Style::Builder, "nest"@, args, prefix) == q);
    let first = args.drop_last();
    assert(first.drop_last() =~= Seq::<Expr>::empty());
    assert(first.last() == args[0]);
    assert(walk_expr(Style::Builder, args[0], prefix) == nothing());
    assert(walk_args(Style::Builder, first.drop_last(), prefix, q) == nothing());
    assert(walk_args(Style::Builder, first, prefix, q).routes =~= Seq::<RouteView>::empty());
    let rcv = walk_expr(Style::Builder, *e->MethodCall_receiver, prefix).routes;
    let inner = walk_expr(Style::Builder, args[1], q).routes;
    assert(walk_args(Style::Builder, args, prefix, q).routes =~= inner);
    assert(walk_expr(Style::Builder, e, prefix).routes =~= Seq::<RouteView>::empty() + (rcv + inner));
}

/// A `.scope(path, ...)` call declares no route itself: its receiver and all
/// its arguments are read under the current prefix joined with `path`.
pub proof fn lemma_scope_prefixes_subtree(e: Expr, prefix: Seq<char>)
    requires
        e is MethodCall,
        e->MethodCall_method@ == "scope"@,
        e->MethodCall_args@.len() > 0,
        e->MethodCall_args@[0] is Lit,
    ensures
        ({
            let q = combine_spec(prefix, e->MethodCall_args@[0]->Lit_0@);
            walk_expr(Style::Attribute, e, prefix).routes == walk_expr(Style::Attribute, *e->MethodCall_receiver, q).routes
                + walk_args(Style::Attribute, e->MethodCall_args@, q, q).routes
        }),
{
}

/// The state of the first pass.
pub struct Walker {
    pub style: Style,
    pub routes: Vec<RouteInfo>,
    pub handlers: Vec<HandlerSummary>,
}

impl Walker {
    pub open spec fn found(&self) -> Found {
        Found { routes: route_views(self.routes@), handlers: handler_views(self.handlers@) }
    }

    fn push_route(&mut self, r: RouteInfo)
        ensures
            final(self).style == old(self).style,
            final(self).found() == join(old(self).found(), Found { routes: seq![r@], handlers: Seq::empty() }),
    {
        proof {
            lemma_route_views_push(self.routes@, r);
        }
        self.routes.push(r);
        proof {
            assert(self.found().handlers =~= join(old(self).found(), Found { routes: seq![r@], handlers: Seq::empty() }).handlers);
            assert(self.found().routes =~= join(old(self).found(), Found { routes: seq![r@], handlers: Seq::empty() }).routes);
        }
    }
}

/// A first-pass route with the parameters its path declares.
fn make_route(syntax: &PathSyntax, path: String, method: HttpMethod, handler: String) -> (r: RouteInfo)
    ensures
        r@ == new_route(*syntax, path@, method, handler@),
{
    let names = path_param_names_of(syntax, path.as_str());
    let ghost path_v = path@;
    let ghost handler_v = handler@;
    let mut route = RouteInfo::new(path, method, handler);
    let mut i: usize = 0;
    proof {
        assert(path_params(*syntax, path_v).subrange(0, 0) =~= Seq::<ParamView>::empty());
    }
    while i < names.len()
        invariant
            i <= names.len(),
            string_views(names@) == path_param_names(*syntax, path_v),
            names@.len() == path_params(*syntax, path_v).len(),
            route@ == (RouteView {
                parameters: path_params(*syntax, path_v).subrange(0, i as int),
                ..new_route(*syntax, path_v, method, handler_v)
            }),
        decreases names.len() - i,
    {
        let p = Parameter::new(names[i].clone(), ParameterLocation::Path, TypeInfo::new(owned("String")), true);
        proof {
            lemma_param_views_push(route.parameters@, p);
            assert(string_views(names@)[i as int] == names@[i as int]@);
            assert(path_params(*syntax, path_v).subrange(0, i + 1) =~= path_params(*syntax, path_v).subrange(0, i as int).push(p@));
        }
        route.parameters.push(p);
        i = i + 1;
    }
    proof {
        assert(path_params(*syntax, path_v).subrange(0, i as int) =~= path_params(*syntax, path_v));
    }
    route
}

fn handler_name_of(e: &Expr) -> (r: String)
    ensures
        r@ == handler_name(*e),
{
    match e {
        Expr::Path(n) => n.clone(),
        _ => owned("unknown"),
    }
}

fn builder_route_of(method: &String, args: &Vec<Expr>, prefix: &str) -> (r: Option<RouteInfo>)
    ensures
        match r {
            Some(x) => builder_routes(method@, args@, prefix@) == seq![x@],
            None => builder_routes(method@, args@, prefix@) == Seq::<RouteView>::empty(),
        },
{
    if str_eq(method.as_str(), "route") {
        if args.len() < 2 {
            return None;
        }
        match (&args[0], &args[1]) {
            (Expr::Lit(p), Expr::Call { func, args: cargs }) => {
                match &**func {
                    Expr::Path(m) => {
                        match parse_http_method(m.as_str()) {
                            Some(hm) => {
                                let full = combine_paths(prefix, p.as_str());
                                let h = if cargs.len() > 0 { handler_name_of(&cargs[0]) } else { owned("unknown") };
                                Some(make_route(&PathSyntax::Colon, full, hm, h))
                            },
                            None => None,
                        }
                    },
                    _ => None,
                }
            },
            _ => None,
        }
    } else {
        let m = method_from_lowercase(method.as_str());
        match m {
            Some(hm) => {
                if args.len() == 0 {
                    return None;
                }
                match &args[0] {
                    Expr::Lit(p) => {
                        let full = combine_paths(prefix, p.as_str());
                        let h = if args.len() > 1 { handler_name_of(&args[1]) } else { owned("unknown") };
                        Some(make_route(&PathSyntax::Colon, full, hm, h))
                    },
                    a => {
                        let h = handler_name_of(a);
                        Some(make_route(&PathSyntax::Colon, owned(prefix), hm, h))
                    },
                }
            },
            None => {
                proof {
                    reveal_strlit("route");
                    reveal_strlit("get");
                    reveal_strlit("post");
                    reveal_strlit("put");
                    reveal_strlit("delete");
                    reveal_strlit("patch");
                    reveal_strlit("head");
                    reveal_strlit("options");
                }
                None
            },
        }
    }
}


fn attr_path_of(a: &Attribute) -> (r: Option<&String>)
    ensures
        match r {
            Some(p) => attr_path(*a) == Some(p@),
            None => attr_path(*a) is None,
        },
{
    if a.args.len() == 0 {
        return None;
    }
    match &a.args[0] {
        AttrArg::Lit(p) => {
            if p.as_str().unicode_len() > 0 {
                Some(p)
            } else {
                None
            }
        },
        _ => None,
    }
}

fn scoped_prefix_of(style: Style, method: &String, args: &Vec<Expr>, prefix: &str) -> (r: String)
    ensures
        r@ == scoped_prefix(style, method@, args@, prefix@),
{
    let opens = match style {
        Style::Builder => str_eq(method.as_str(), "nest"),
        Style::Attribute => str_eq(method.as_str(), "scope"),
    };
    if opens && args.len() > 0 {
        match &args[0] {
            Expr::Lit(p) => {
                return combine_paths(prefix, p.as_str());
            },
            _ => {},
        }
    }
    owned(prefix)
}

impl Walker {
    fn push_handler(&mut self, h: HandlerSummary)
        ensures
            final(self).style == old(self).style,
            final(self).found() == join(old(self).found(), Found { routes: Seq::empty(), handlers: seq![h@] }),
    {
        self.handlers.push(h);
        proof {
            assert(self.found().handlers =~= join(old(self).found(), Found { routes: Seq::empty(), handlers: seq![h@] }).handlers);
            assert(self.found().routes =~= join(old(self).found(), Found { routes: Seq::empty(), handlers: seq![h@] }).routes);
        }
    }

    fn walk_expr(&mut self, e: &Expr, prefix: &str)
        ensures
            final(self).style == old(self).style,
            final(self).found() == join(old(self).found(), walk_expr(old(self).style, *e, prefix@)),
        decreases e,
    {
        let ghost f0 = self.found();
        let style = self.style;
        match e {
            Expr::MethodCall { receiver, method, args } => {
                let q = scoped_prefix_of(style, method, args, prefix);
                match style {
                    Style::Builder => {
                        let own = builder_route_of(method, args, prefix);
                        let ghost own_f = Found { routes: builder_routes(method@, args@, prefix@), handlers: Seq::empty() };
                        match own {
                            Some(r) => {
                                self.push_route(r);
                            },
                            None => {
                                proof {
                                    assert(own_f == nothing());
                                    lemma_join_nothing(f0);
                                }
                            },
                        }
                        let ghost f1 = self.found();
                        self.walk_expr(receiver, prefix);
                        let ghost f2 = self.found();
                        proof {
                            assert(decreases_to!(*e => *args));
                        }
                        self.walk_args(args, prefix, q.as_str());
                        proof {
                            let rcv = walk_expr(style, **receiver, prefix@);
                            let ar = walk_args(style, args@, prefix@, q@);
                            lemma_join_assoc(f1, rcv, ar);
                            lemma_join_assoc(f0, own_f, join(rcv, ar));
                        }
                    },
                    Style::Attribute => {
                        self.walk_expr(receiver, q.as_str());
                        let ghost f1 = self.found();
                        proof {
                            assert(decreases_to!(*e => *args));
                        }
                        self.walk_args(args, q.as_str(), q.as_str());
                        proof {
                            lemma_join_assoc(f0, walk_expr(style, **receiver, q@), walk_args(style, args@, q@, q@));
                        }
                    },
                }
            },
            Expr::Call { func, args } => {
                self.walk_expr(func, prefix);
                proof {
                    assert(decreases_to!(*e => *args));
                }
                self.walk_args(args, prefix, prefix);
                proof {
                    lemma_join_assoc(f0, walk_expr(style, **func, prefix@), walk_args(style, args@, prefix@, prefix@));
                }
            },
            Expr::Other(nodes) => {
                proof {
                    assert(decreases_to!(*e => *nodes));
                }
                self.walk_nodes(nodes, prefix);
            },
            _ => {
                proof {
                    lemma_join_nothing(f0);
                }
            },
        }
    }

    fn walk_args(&mut self, args: &Vec<Expr>, prefix: &str, second: &str)
        ensures
            final(self).style == old(self).style,
            final(self).found() == join(old(self).found(), walk_args(old(self).style, args@, prefix@, second@)),
        decreases args,
    {
        let ghost f0 = self.found();
        let ghost style = self.style;
        let mut i: usize = 0;
        proof {
            assert(args@.subrange(0, 0) =~= Seq::<Expr>::empty());
            lemma_join_nothing(f0);
        }
        while i < args.len()
            invariant
                i <= args.len(),
                self.style == style,
                self.found() == join(f0, walk_args(style, args@.subrange(0, i as int), prefix@, second@)),
            decreases args.len() - i,
        {
            let ghost sub = args@.subrange(0, i + 1);
            proof {
                assert(sub.drop_last() == args@.subrange(0, i as int));
                assert(sub.last() == args@[i as int]);
                assert(decreases_to!(*args => args@));
                assert(decreases_to!(args@ => args@[i as int]));
            }
            let ghost before = self.found();
            if i == 1 {
                self.walk_expr(&args[i], second);
            } else {
                self.walk_expr(&args[i], prefix);
            }
            proof {
                let sel = if i == 1 { second@ } else { prefix@ };
                lemma_join_assoc(f0, walk_args(style, args@.subrange(0, i as int), prefix@, second@), walk_expr(style, args@[i as int], sel));
            }
            i = i + 1;
        }
        proof {
            assert(args@.subrange(0, i as int) == args@);
        }
    }

    fn walk_nodes(&mut self, nodes: &Vec<Node>, prefix: &str)
        ensures
            final(self).style == old(self).style,
            final(self).found() == join(old(self).found(), walk_nodes(old(self).style, nodes@, prefix@)),
        decreases nodes,
    {
        let ghost f0 = self.found();
        let ghost style = self.style;
        let mut i: usize = 0;
        proof {
            assert(nodes@.subrange(0, 0) =~= Seq::<Node>::empty());
            lemma_join_nothing(f0);
        }
        while i < nodes.len()
            invariant
                i <= nodes.len(),
                self.style == style,
                self.found() == join(f0, walk_nodes(style, nodes@.subrange(0, i as int), prefix@)),
            decreases nodes.len() - i,
        {
            let ghost sub = nodes@.subrange(0, i + 1);
            proof {
                assert(sub.drop_last() == nodes@.subrange(0, i as int));
                assert(sub.last() == nodes@[i as int]);
                assert(decreases_to!(*nodes => nodes@));
                assert(decreases_to!(nodes@ => nodes@[i as int]));
            }
            match &nodes[i] {
                Node::Expr(e) => {
                    self.walk_expr(e, prefix);
                    proof {
                        lemma_join_assoc(f0, walk_nodes(style, nodes@.subrange(0, i as int), prefix@), walk_expr(style, *e, prefix@));
                    }
                },
                Node::Item(it) => {
                    self.walk_item(it, prefix);
                    proof {
                        lemma_join_assoc(f0, walk_nodes(style, nodes@.subrange(0, i as int), prefix@), walk_item(style, *it, prefix@));
                    }
                },
            }
            i = i + 1;
        }
        proof {
            assert(nodes@.subrange(0, i as int) == nodes@);
        }
    }

    fn walk_item(&mut self, it: &Item, prefix: &str)
        ensures
            final(self).style == old(self).style,
            final(self).found() == join(old(self).found(), walk_item(old(self).style, *it, prefix@)),
        decreases it,
    {
        let ghost f0 = self.found();
        let style = self.style;
        match it {
            Item::Fn(f) => {
                let ghost own = match style {
                    Style::Builder => Seq::<RouteView>::empty(),
                    Style::Attribute => attr_routes(f.attrs@, f.sig.name@, prefix@),
                };
                match style {
                    Style::Builder => {},
                    Style::Attribute => {
                        self.push_attr_routes(f, prefix);
                    },
                }
                proof {
                    assert(self.found() == join(f0, Found { routes: own, handlers: Seq::empty() })) by {
                        if style is Builder {
                            assert(own =~= Seq::<RouteView>::empty());
                            lemma_join_nothing(f0);
                        }
                    }
                }
                let ghost f1 = self.found();
                self.push_handler(summarize(&f.sig));
                let ghost f2 = self.found();
                proof {
                    assert(decreases_to!(*it => *f));
                    assert(decreases_to!(*f => f.body));
                }
                self.walk_nodes(&f.body, prefix);
                proof {
                    let a = Found { routes: own, handlers: Seq::empty() };
                    let b = Found { routes: Seq::empty(), handlers: seq![summary_of(f.sig)] };
                    let c = walk_nodes(style, f.body@, prefix@);
                    lemma_join_assoc(f0, a, b);
                    lemma_join_assoc(f1, b, c);
                    lemma_join_assoc(f0, a, join(b, c));
                    assert(join(a, b) == Found { routes: own, handlers: seq![summary_of(f.sig)] }) by {
                        assert(join(a, b).routes =~= own);
                        assert(join(a, b).handlers =~= seq![summary_of(f.sig)]);
                    }
                    lemma_join_assoc(join(f0, a), b, c);
                    lemma_join_assoc(f0, join(a, b), c);
                }
            },
            Item::Other(nodes) => {
                proof {
                    assert(decreases_to!(*it => *nodes));
                }
                self.walk_nodes(nodes, prefix);
            },
            _ => {
                proof {
                    lemma_join_nothing(f0);
                }
            },
        }
    }

    fn push_attr_routes(&mut self, f: &ItemFn, prefix: &str)
        ensures
            final(self).style == old(self).style,
            final(self).found() == join(
                old(self).found(),
                Found { routes: attr_routes(f.attrs@, f.sig.name@, prefix@), handlers: Seq::empty() },
            ),
    {
        let ghost f0 = self.found();
        let mut i: usize = 0;
        proof {
            assert(f.attrs@.subrange(0, 0) =~= Seq::<Attribute>::empty());
            lemma_join_nothing(f0);
            assert(Found { routes: Seq::<RouteView>::empty(), handlers: Seq::empty() } == nothing());
        }
        while i < f.attrs.len()
            invariant
                i <= f.attrs.len(),
                self.style == old(self).style,
                self.found() == join(f0, Found { routes: attr_routes(f.attrs@.subrange(0, i as int), f.sig.name@, prefix@), handlers: Seq::empty() }),
            decreases f.attrs.len() - i,
        {
            let ghost sub = f.attrs@.subrange(0, i + 1);
            let ghost before = attr_routes(f.attrs@.subrange(0, i as int), f.sig.name@, prefix@);
            proof {
                assert(sub.drop_last() == f.attrs@.subrange(0, i as int));
                assert(sub.last() == f.attrs@[i as int]);
            }
            let a = &f.attrs[i];
            let m = parse_http_method(a.name.as_str());
            let p = attr_path_of(a);
            match (m, p) {
                (Some(hm), Some(path)) => {
                    let full = combine_paths(prefix, path.as_str());
                    let r = make_route(&PathSyntax::Brace, full, hm, f.sig.name.clone());
                    self.push_route(r);
                    proof {
                        lemma_join_assoc(f0, Found { routes: before, handlers: Seq::empty() }, Found { routes: seq![r@], handlers: Seq::empty() });
                        assert(join(Found { routes: before, handlers: Seq::empty() }, Found { routes: seq![r@], handlers: Seq::empty() }) =~= Found { routes: before.push(r@), handlers: Seq::empty() }) by {
                            assert(join(Found { routes: before, handlers: Seq::empty() }, Found { routes: seq![r@], handlers: Seq::empty() }).routes =~= before.push(r@));
                            assert(join(Found { routes: before, handlers: Seq::empty() }, Found { routes: seq![r@], handlers: Seq::<HandlerView>::empty() }).handlers =~= Seq::<HandlerView>::empty());
                        }
                    }
                },
                _ => {},
            }
            i = i + 1;
        }
        proof {
            assert(f.attrs@.subrange(0, i as int) == f.attrs@);
        }
    }
}


impl Walker {
    /// The first pass over the top-level items of every file, in order.
    fn walk_files(&mut self, files: &[ParsedFile])
        ensures
            final(self).style == old(self).style,
            final(self).found() == join(old(self).found(), walk_files(old(self).style, files@)),
    {
        let ghost f0 = self.found();
        let ghost style = self.style;
        let mut k: usize = 0;
        proof {
            assert(files@.subrange(0, 0) =~= Seq::<ParsedFile>::empty());
            lemma_join_nothing(f0);
        }
        while k < files.len()
            invariant
                k <= files.len(),
                self.style == style,
                self.found() == join(f0, walk_files(style, files@.subrange(0, k as int))),
            decreases files.len() - k,
        {
            let ghost fk = self.found();
            let items = &files[k].syntax_tree.items;
            let mut i: usize = 0;
            proof {
                assert(items@.subrange(0, 0) =~= Seq::<Item>::empty());
                lemma_join_nothing(fk);
            }
            while i < items.len()
                invariant
                    i <= items.len(),
                    self.style == style,
                    self.found() == join(fk, walk_items(style, items@.subrange(0, i as int))),
                decreases items.len() - i,
            {
                proof {
                    let sub = items@.subrange(0, i + 1);
                    assert(sub.drop_last() == items@.subrange(0, i as int));
                    assert(sub.last() == items@[i as int]);
                    lemma_join_assoc(fk, walk_items(style, items@.subrange(0, i as int)), walk_item(style, items@[i as int], Seq::empty()));
                    reveal_strlit("");
                    assert(""@ =~= Seq::<char>::empty());
                }
                self.walk_item(&items[i], "");
                i = i + 1;
            }
            proof {
                assert(items@.subrange(0, i as int) == items@);
                let sub = files@.subrange(0, k + 1);
                assert(sub.drop_last() == files@.subrange(0, k as int));
                assert(sub.last() == files@[k as int]);
                lemma_join_assoc(f0, walk_files(style, files@.subrange(0, k as int)), walk_items(style, items@));
            }
            k = k + 1;
        }
        proof {
            assert(files@.subrange(0, k as int) == files@);
        }
    }
}

/// The position of the last handler recorded under `name`.
fn find_handler_index(handlers: &Vec<HandlerSummary>, name: &String) -> (r: Option<usize>)
    ensures
        match r {
            Some(j) => j < handlers@.len() && find_handler(handler_views(handlers@), name@) == Some(handlers@[j as int]@),
            None => find_handler(handler_views(handlers@), name@) is None,
        },
{
    let ghost hv = handler_views(handlers@);
    let mut j: usize = handlers.len();
    proof {
        assert(hv.subrange(0, j as int) == hv);
    }
    while j > 0
        invariant
            j <= handlers@.len(),
            hv == handler_views(handlers@),
            find_handler(hv, name@) == find_handler(hv.subrange(0, j as int), name@),
        decreases j,
    {
        let ghost sub = hv.subrange(0, j as int);
        proof {
            assert(sub.last() == handlers@[j - 1]@);
            assert(sub.drop_last() == hv.subrange(0, j - 1));
        }
        if str_eq(handlers[j - 1].name.as_str(), name.as_str()) {
            return Some(j - 1);
        }
        j = j - 1;
    }
    None
}

fn duplicate_params(ps: &Vec<Parameter>, into: &mut Vec<Parameter>)
    ensures
        param_views(final(into)@) == param_views(old(into)@) + param_views(ps@),
{
    let ghost start = param_views(into@);
    let mut i: usize = 0;
    proof {
        assert(param_views(ps@).subrange(0, 0) =~= Seq::<ParamView>::empty());
        assert(start + Seq::<ParamView>::empty() =~= start);
    }
    while i < ps.len()
        invariant
            i <= ps.len(),
            param_views(into@) == start + param_views(ps@).subrange(0, i as int),
        decreases ps.len() - i,
    {
        let p = ps[i].duplicate();
        proof {
            lemma_param_views_push(into@, p);
            assert(start + param_views(ps@).subrange(0, i + 1) =~= (start + param_views(ps@).subrange(0, i as int)).push(p@));
        }
        into.push(p);
        i = i + 1;
    }
    proof {
        assert(param_views(ps@).subrange(0, i as int) == param_views(ps@));
    }
}

/// The second pass: each route joined to its handler's summary.
fn enrich_routes(routes: &Vec<RouteInfo>, handlers: &Vec<HandlerSummary>) -> (r: Vec<RouteInfo>)
    ensures
        route_views(r@) == route_views(routes@).map_values(|x: RouteView| enrich(x, handler_views(handlers@))),
{
    let ghost hv = handler_views(handlers@);
    let ghost target = route_views(routes@).map_values(|x: RouteView| enrich(x, hv));
    let mut out: Vec<RouteInfo> = Vec::new();
    let mut i: usize = 0;
    proof {
        assert(route_views(out@) =~= target.subrange(0, 0));
    }
    while i < routes.len()
        invariant
            i <= routes.len(),
            hv == handler_views(handlers@),
            target == route_views(routes@).map_values(|x: RouteView| enrich(x, hv)),
            route_views(out@) == target.subrange(0, i as int),
        decreases routes.len() - i,
    {
        let src = &routes[i];
        let mut params: Vec<Parameter> = Vec::new();
        proof {
            assert(param_views(params@) =~= Seq::<ParamView>::empty());
        }
        duplicate_params(&src.parameters, &mut params);
        proof {
            assert(Seq::<ParamView>::empty() + param_views(src.parameters@) =~= param_views(src.parameters@));
        }
        let r = match find_handler_index(handlers, &src.handler_name) {
            Some(j) => {
                let h = &handlers[j];
                duplicate_params(&h.parameters, &mut params);
                RouteInfo {
                    path: src.path.clone(),
                    method: src.method,
                    handler_name: src.handler_name.clone(),
                    parameters: params,
                    request_body: duplicate_opt_type(&h.request_body),
                    response_type: duplicate_opt_type(&h.response_type),
                }
            },
            None => RouteInfo {
                path: src.path.clone(),
                method: src.method,
                handler_name: src.handler_name.clone(),
                parameters: params,
                request_body: duplicate_opt_type(&src.request_body),
                response_type: duplicate_opt_type(&src.response_type),
            },
        };
        proof {
            assert(r@ == enrich(src@, hv));
            lemma_route_views_push(out@, r);
            assert(target.subrange(0, i + 1) =~= target.subrange(0, i as int).push(target[i as int]));
        }
        out.push(r);
        i = i + 1;
    }
    proof {
        assert(target.subrange(0, i as int) =~= target);
    }
    out
}

/// Both passes over `files` in the given style.
pub fn extract_with(style: Style, files: &[ParsedFile]) -> (r: Vec<RouteInfo>)
    ensures
        route_views(r@) == extracted_routes(style, files@),
{
    let mut w = Walker { style, routes: Vec::new(), handlers: Vec::new() };
    proof {
        assert(w.found().routes =~= Seq::<RouteView>::empty());
        assert(w.found().handlers =~= Seq::<HandlerView>::empty());
    }
    w.walk_files(files);
    proof {
        let f = walk_files(style, files@);
        assert(w.found().routes =~= f.routes);
        assert(w.found().handlers =~= f.handlers);
    }
    enrich_routes(&w.routes, &w.handlers)
}

} // verus!
