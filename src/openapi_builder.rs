//! Assembly of the API description document from routes and schemas.
use vstd::prelude::*;
use crate::extractor::{HttpMethod, RouteInfo};
use crate::named_map::NamedMap;
use crate::parser::ParsedFile;
use crate::paths::{convert_path_format, document_path};
use crate::schema_generator::{
    Schema, SchemaGenerator, SchemaView, ParameterSchema, schema_for, extends, catalog_views, location_name,
};
use crate::strings::{owned, joined};

verus! {

/// Collects the operations of a document, keyed by path in the document's
/// `{name}` parameter syntax.
pub struct OpenApiBuilder {
    pub info: Info,
    pub paths: NamedMap<PathItem>,
    pub components: Components,
}

pub struct Info {
    pub title: String,
    pub version: String,
    pub description: Option<String>,
}

/// The operations of one path, one slot per method.
pub struct PathItem {
    pub get: Option<Operation>,
    pub post: Option<Operation>,
    pub put: Option<Operation>,
    pub delete: Option<Operation>,
    pub patch: Option<Operation>,
    pub options: Option<Operation>,
    pub head: Option<Operation>,
}

pub struct Operation {
    pub summary: Option<String>,
    pub description: Option<String>,
    pub operation_id: Option<String>,
    pub parameters: Option<Vec<Parameter>>,
    pub request_body: Option<RequestBody>,
    /// Keyed by status code.
    pub responses: NamedMap<Response>,
}

pub struct Parameter {
    pub name: String,
    /// `path`, `query` or `header`.
    pub location: String,
    pub required: bool,
    pub schema: Schema,
    pub description: Option<String>,
}

pub struct RequestBody {
    pub description: Option<String>,
    pub required: bool,
    /// Keyed by media type.
    pub content: NamedMap<MediaType>,
}

pub struct MediaType {
    pub schema: Schema,
}

pub struct Response {
    pub description: String,
    pub content: Option<NamedMap<MediaType>>,
}

pub struct Components {
    pub schemas: Option<NamedMap<Schema>>,
}

pub struct OpenApiDocument {
    pub openapi: String,
    pub info: Info,
    pub paths: NamedMap<PathItem>,
    pub components: Option<Components>,
}

/// The upper-case name of a method.
pub open spec fn method_label(m: HttpMethod) -> Seq<char> {
    match m {
        HttpMethod::Get => "GET"@,
        HttpMethod::Post => "POST"@,
        HttpMethod::Put => "PUT"@,
        HttpMethod::Delete => "DELETE"@,
        HttpMethod::Patch => "PATCH"@,
        HttpMethod::Options => "OPTIONS"@,
        HttpMethod::Head => "HEAD"@,
    }
}

impl RouteInfo {
    /// The upper-case name of the route's method.
    pub fn method_str(&self) -> (r: &'static str)
        ensures
            r@ == method_label(self.method),
    {
        match self.method {
            HttpMethod::Get => "GET",
            HttpMethod::Post => "POST",
            HttpMethod::Put => "PUT",
            HttpMethod::Delete => "DELETE",
            HttpMethod::Patch => "PATCH",
            HttpMethod::Options => "OPTIONS",
            HttpMethod::Head => "HEAD",
        }
    }
}

/// The operation in the slot of method `m`.
pub open spec fn slot(item: PathItem, m: HttpMethod) -> Option<Operation> {
    match m {
        HttpMethod::Get => item.get,
        HttpMethod::Post => item.post,
        HttpMethod::Put => item.put,
        HttpMethod::Delete => item.delete,
        HttpMethod::Patch => item.patch,
        HttpMethod::Options => item.options,
        HttpMethod::Head => item.head,
    }
}

/// A body of media type `application/json` with the schema `schema`.
pub open spec fn json_content(c: NamedMap<MediaType>, schema: SchemaView) -> bool {
    &&& c.entries@.len() == 1
    &&& c.entries@[0].0@ == "application/json"@
    &&& c.entries@[0].1.schema@ == schema
}

/// The document's parameter for a route parameter.
pub open spec fn parameter_matches(p: Parameter, q: crate::extractor::Parameter, files: Seq<ParsedFile>) -> bool {
    &&& p.name@ == q.name@
    &&& p.location@ == location_name(q.location)
    &&& p.required == q.required
    &&& p.schema@ == schema_for(files, q.type_info@)
    &&& p.description is None
}

/// The operation that a route gives: summary `METHOD path`, the handler as
/// operation id, a parameter for each route parameter (none when there are
/// none), a required JSON request body when the route has a body type, and
/// a `200` response whose JSON content is present when the route has a
/// response type.
pub open spec fn operation_matches(op: Operation, route: RouteInfo, files: Seq<ParsedFile>) -> bool {
    &&& op.summary matches Some(s) && s@ == method_label(route.method) + " "@ + route.path@
    &&& op.description is None
    &&& op.operation_id matches Some(id) && id@ == route.handler_name@
    &&& (route.parameters@.len() == 0 <==> op.parameters is None)
    &&& (op.parameters matches Some(ps) ==> {
        &&& ps@.len() == route.parameters@.len()
        &&& forall|i: int| 0 <= i < ps@.len() ==> parameter_matches(#[trigger] ps@[i], route.parameters@[i], files)
    })
    &&& (route.request_body is Some <==> op.request_body is Some)
    &&& (op.request_body matches Some(b) ==> {
        &&& b.required
        &&& b.description matches Some(d) && d@ == "Request body"@
        &&& json_content(b.content, schema_for(files, route.request_body->0@))
    })
    &&& op.responses.entries@.len() == 1
    &&& op.responses.entries@[0].0@ == "200"@
    &&& op.responses.entries@[0].1.description@ == "Successful response"@
    &&& (route.response_type is Some <==> op.responses.entries@[0].1.content is Some)
    &&& (op.responses.entries@[0].1.content matches Some(c) ==> json_content(c, schema_for(files, route.response_type->0@)))
}

fn empty_item() -> (r: PathItem)
    ensures
        forall|m: HttpMethod| slot(r, m) is None,
{
    PathItem { get: None, post: None, put: None, delete: None, patch: None, options: None, head: None }
}

fn set_operation(item: &mut PathItem, m: HttpMethod, op: Operation)
    ensures
        slot(*final(item), m) == Some(op),
        forall|k: HttpMethod| k != m ==> slot(*final(item), k) == slot(*old(item), k),
{
    match m {
        HttpMethod::Get => item.get = Some(op),
        HttpMethod::Post => item.post = Some(op),
        HttpMethod::Put => item.put = Some(op),
        HttpMethod::Delete => item.delete = Some(op),
        HttpMethod::Patch => item.patch = Some(op),
        HttpMethod::Options => item.options = Some(op),
        HttpMethod::Head => item.head = Some(op),
    }
}

fn json_body(schema: Schema) -> (r: NamedMap<MediaType>)
    ensures
        json_content(r, schema@),
{
    let mut entries: Vec<(String, MediaType)> = Vec::new();
    entries.push((owned("application/json"), MediaType { schema }));
    NamedMap { entries }
}

impl OpenApiBuilder {
    /// Paths are listed once each.
    pub open spec fn wf(&self) -> bool {
        self.paths.keys().no_duplicates()
    }

    /// A builder with the default title, version and description, and no paths.
    pub fn new() -> (r: Self)
        ensures
            r.wf(),
            r.info.title@ == "Generated API"@,
            r.info.version@ == "1.0.0"@,
            r.info.description matches Some(d) && d@ == "API documentation generated from Rust code"@,
            r.paths.entries@.len() == 0,
            r.components.schemas is None,
    {
        let r = OpenApiBuilder {
            info: Info {
                title: owned("Generated API"),
                version: owned("1.0.0"),
                description: Some(owned("API documentation generated from Rust code")),
            },
            paths: NamedMap::new(),
            components: Components { schemas: None },
        };
        proof {
            assert(r.paths.keys() =~= Seq::<Seq<char>>::empty());
        }
        r
    }

    /// A path template in the document's `{name}` parameter syntax.
    pub fn convert_path_format(path: &str) -> (r: String)
        ensures
            r@ == document_path(path@),
    {
        convert_path_format(path)
    }

    /// The same builder with the given title, version and description.
    pub fn with_info(self, title: String, version: String, description: Option<String>) -> (r: Self)
        ensures
            r.info == (Info { title, version, description }),
            r.paths == self.paths,
            r.components == self.components,
    {
        OpenApiBuilder { info: Info { title, version, description }, paths: self.paths, components: self.components }
    }

    /// Adds the operation of `route` under its path, in the slot of its method.
    pub fn add_route(&mut self, route: &RouteInfo, schema_gen: &mut SchemaGenerator)
        requires
            old(self).wf(),
            old(schema_gen).wf(),
        ensures
            final(self).wf(),
            final(self).info == old(self).info,
            final(schema_gen).wf(),
            final(schema_gen).files() == old(schema_gen).files(),
            extends(final(schema_gen).catalog(), old(schema_gen).catalog()),
            ({
                let k = document_path(route.path@);
                let item = final(self).paths.value_of(k);
                &&& final(self).paths.has(k)
                &&& final(self).paths.keys() == if old(self).paths.has(k) {
                    old(self).paths.keys()
                } else {
                    old(self).paths.keys().push(k)
                }
                &&& slot(item, route.method) matches Some(op) && operation_matches(op, *route, old(schema_gen).files())
                &&& forall|m: HttpMethod| m != route.method ==> slot(item, m) == if old(self).paths.has(k) {
                    slot(old(self).paths.value_of(k), m)
                } else {
                    None
                }
                &&& forall|j: int| 0 <= j < old(self).paths.entries@.len() && old(self).paths.entries@[j].0@ != k
                    ==> final(self).paths.entries@[j] == old(self).paths.entries@[j]
            }),
    {
        let ghost files = schema_gen.files();
        proof {
            crate::schema_generator::lemma_extends_refl(schema_gen.catalog());
        }
        let openapi_path = convert_path_format(route.path.as_str());
        let parameters = if route.parameters.len() == 0 {
            None
        } else {
            let mut ps: Vec<Parameter> = Vec::new();
            let mut i: usize = 0;
            while i < route.parameters.len()
                invariant
                    i <= route.parameters.len(),
                    ps@.len() == i,
                    schema_gen.wf(),
                    schema_gen.files() == files,
                    files == old(schema_gen).files(),
                    extends(schema_gen.catalog(), old(schema_gen).catalog()),
                    forall|j: int| 0 <= j < i ==> parameter_matches(#[trigger] ps@[j], route.parameters@[j], files),
                decreases route.parameters.len() - i,
            {
                let ghost c0 = schema_gen.catalog();
                let ps_schema = schema_gen.generate_parameter_schema(&route.parameters[i]);
                proof {
                    crate::schema_generator::lemma_extends_trans(schema_gen.catalog(), c0, old(schema_gen).catalog());
                }
                let ParameterSchema { name, location, required, schema } = ps_schema;
                ps.push(Parameter { name, location, required, schema, description: None });
                i = i + 1;
            }
            Some(ps)
        };
        let request_body = match &route.request_body {
            Some(t) => {
                let ghost c0 = schema_gen.catalog();
                let schema = schema_gen.generate_schema(t);
                proof {
                    crate::schema_generator::lemma_extends_trans(schema_gen.catalog(), c0, old(schema_gen).catalog());
                }
                Some(RequestBody { description: Some(owned("Request body")), required: true, content: json_body(schema) })
            },
            None => None,
        };
        let content = match &route.response_type {
            Some(t) => {
                let ghost c0 = schema_gen.catalog();
                let schema = schema_gen.generate_schema(t);
                proof {
                    crate::schema_generator::lemma_extends_trans(schema_gen.catalog(), c0, old(schema_gen).catalog());
                }
                Some(json_body(schema))
            },
            None => None,
        };
        let mut responses: Vec<(String, Response)> = Vec::new();
        responses.push((owned("200"), Response { description: owned("Successful response"), content }));
        let label = route.method_str();
        let a = joined(label, " ");
        proof {
            reveal_strlit(" ");
        }
        let summary = joined(a.as_str(), route.path.as_str());
        let op = Operation {
            summary: Some(summary),
            description: None,
            operation_id: Some(route.handler_name.clone()),
            parameters,
            request_body,
            responses: NamedMap { entries: responses },
        };
        proof {
            assert(operation_matches(op, *route, files));
        }
        match self.paths.position(openapi_path.as_str()) {
            Some(i) => {
                let ghost before = self.paths.entries@;
                let mut entry = (String::new(), empty_item());
                core::mem::swap(&mut entry, &mut self.paths.entries[i]);
                let ghost old_item = entry.1;
                set_operation(&mut entry.1, route.method, op);
                let ghost new_entry = entry;
                core::mem::swap(&mut entry, &mut self.paths.entries[i]);
                proof {
                    assert(self.paths.entries@ == before.update(i as int, new_entry));
                    assert(self.paths.keys() =~= old(self).paths.keys());
                    assert(old(self).paths.keys()[i as int] == openapi_path@);
                    assert(old(self).paths.has(openapi_path@));
                    assert(old(self).paths.keys().index_of(openapi_path@) == i as int) by {
                        let ks = old(self).paths.keys();
                        ks.index_of_first_ensures(openapi_path@);
                    }
                }
            },
            None => {
                let mut item = empty_item();
                set_operation(&mut item, route.method, op);
                let ghost before = self.paths.entries@;
                self.paths.entries.push((openapi_path, item));
                proof {
                    let ks = self.paths.keys();
                    assert(ks =~= old(self).paths.keys().push(openapi_path@));
                    assert(ks[before.len() as int] == openapi_path@);
                    assert(ks.no_duplicates()) by {
                        assert forall|x: int, y: int| 0 <= x < y < ks.len() implies ks[x] != ks[y] by {
                            assert(ks[x] == old(self).paths.keys()[x]);
                            if y < before.len() {
                                assert(ks[y] == old(self).paths.keys()[y]);
                            } else {
                                assert(old(self).paths.keys().contains(ks[x]));
                            }
                        }
                    }
                    assert(ks.index_of(openapi_path@) == before.len() as int) by {
                        ks.index_of_first_ensures(openapi_path@);
                        assert(ks.contains(openapi_path@));
                        let j = ks.index_of(openapi_path@);
                        if j != before.len() as int {
                            assert(ks[j] == old(self).paths.keys()[j]);
                            assert(old(self).paths.keys().contains(openapi_path@));
                        }
                    }
                }
            },
        }
    }
}


impl OpenApiBuilder {
    /// The document: version `3.0.0`, the builder's info and paths, and the
    /// generator's catalog as components when it is not empty.
    pub fn build(self, schema_gen: SchemaGenerator) -> (r: OpenApiDocument)
        ensures
            r.openapi@ == "3.0.0"@,
            r.info == self.info,
            r.paths == self.paths,
            schema_gen.catalog().len() == 0 <==> r.components is None,
            r.components matches Some(c) ==> (c.schemas matches Some(m) && catalog_views(m.entries@) == schema_gen.catalog()),
    {
        let schemas = schema_gen.into_schemas();
        let components = if schemas.is_empty() {
            None
        } else {
            Some(Components { schemas: Some(schemas) })
        };
        OpenApiDocument { openapi: owned("3.0.0"), info: self.info, paths: self.paths, components }
    }
}

impl Default for OpenApiBuilder {
    fn default() -> (r: Self)
        ensures
            r.wf(),
            r.paths.entries@.len() == 0,
    {
        Self::new()
    }
}

} // verus!
