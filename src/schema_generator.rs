//! Schemas for type references, with a catalog that holds each record and
//! enumeration schema once, under its type's name, in order of first emission.
use vstd::prelude::*;
use crate::extractor::{Parameter, ParameterLocation, TypeInfo, TypeView, lemma_type_views_index};
use crate::named_map::NamedMap;
use crate::parser::ParsedFile;
use crate::strings::{owned, joined, str_eq, copy_strings};
use crate::type_resolver::{
    TypeResolver, TypeKind, PrimitiveType, FieldDef, FieldView, KindView, resolve_spec,
    field_views, text_views, opt_string_view, find_struct, find_enum, struct_in_items,
    enum_in_items,
};
use crate::syntax::Item;

verus! {

/// A schema node.
pub struct Schema {
    pub schema_type: Option<String>,
    pub properties: Option<NamedMap<Property>>,
    pub required: Option<Vec<String>>,
    pub items: Option<Box<Schema>>,
    pub enum_values: Option<Vec<String>>,
    /// `#/components/schemas/<Name>` for a named record or enumeration.
    pub reference: Option<String>,
    pub format: Option<String>,
}

/// The schema of one property of an object schema.
pub struct Property {
    pub property_type: Option<String>,
    pub reference: Option<String>,
    pub items: Option<Box<Schema>>,
    pub format: Option<String>,
}

/// A parameter as the document lists it.
pub struct ParameterSchema {
    pub name: String,
    /// `path`, `query` or `header`.
    pub location: String,
    pub required: bool,
    pub schema: Schema,
}

pub struct SchemaView {
    pub schema_type: Option<Seq<char>>,
    pub properties: Option<Seq<(Seq<char>, PropertyView)>>,
    pub required: Option<Seq<Seq<char>>>,
    pub items: Option<Box<SchemaView>>,
    pub enum_values: Option<Seq<Seq<char>>>,
    pub reference: Option<Seq<char>>,
    pub format: Option<Seq<char>>,
}

pub struct PropertyView {
    pub property_type: Option<Seq<char>>,
    pub reference: Option<Seq<char>>,
    pub items: Option<Box<SchemaView>>,
    pub format: Option<Seq<char>>,
}

pub open spec fn opt_texts_view(v: Option<Vec<String>>) -> Option<Seq<Seq<char>>> {
    match v {
        Some(x) => Some(text_views(x@)),
        None => None,
    }
}

pub open spec fn schema_view(s: Schema) -> SchemaView
    decreases s,
{
    SchemaView {
        schema_type: opt_string_view(s.schema_type),
        properties: match s.properties {
            Some(ps) => Some(property_views(ps.entries@)),
            None => None,
        },
        required: opt_texts_view(s.required),
        items: match s.items {
            Some(b) => Some(Box::new(schema_view(*b))),
            None => None,
        },
        enum_values: opt_texts_view(s.enum_values),
        reference: opt_string_view(s.reference),
        format: opt_string_view(s.format),
    }
}

pub open spec fn property_views(ps: Seq<(String, Property)>) -> Seq<(Seq<char>, PropertyView)>
    decreases ps,
{
    if ps.len() == 0 {
        Seq::empty()
    } else {
        property_views(ps.drop_last()).push((ps.last().0@, property_view(ps.last().1)))
    }
}

pub open spec fn property_view(p: Property) -> PropertyView
    decreases p,
{
    PropertyView {
        property_type: opt_string_view(p.property_type),
        reference: opt_string_view(p.reference),
        items: match p.items {
            Some(b) => Some(Box::new(schema_view(*b))),
            None => None,
        },
        format: opt_string_view(p.format),
    }
}

impl View for Schema {
    type V = SchemaView;

    open spec fn view(&self) -> SchemaView {
        schema_view(*self)
    }
}

pub open spec fn bare_schema() -> SchemaView {
    SchemaView {
        schema_type: None,
        properties: None,
        required: None,
        items: None,
        enum_values: None,
        reference: None,
        format: None,
    }
}

/// The empty object schema that stands for a type that cannot be resolved.
pub open spec fn object_schema() -> SchemaView {
    SchemaView { schema_type: Some("object"@), ..bare_schema() }
}

pub open spec fn reference_to(name: Seq<char>) -> Seq<char> {
    "#/components/schemas/"@ + name
}

pub open spec fn ref_schema(name: Seq<char>) -> SchemaView {
    SchemaView { reference: Some(reference_to(name)), ..bare_schema() }
}

pub open spec fn array_schema(items: SchemaView) -> SchemaView {
    SchemaView { schema_type: Some("array"@), items: Some(Box::new(items)), ..bare_schema() }
}

/// The type and format of a primitive.
pub open spec fn primitive_format(p: PrimitiveType) -> (Seq<char>, Option<Seq<char>>) {
    match p {
        PrimitiveType::String => ("string"@, None),
        PrimitiveType::I8 | PrimitiveType::I16 | PrimitiveType::I32 => ("integer"@, Some("int32"@)),
        PrimitiveType::I64 | PrimitiveType::I128 => ("integer"@, Some("int64"@)),
        PrimitiveType::U8 | PrimitiveType::U16 | PrimitiveType::U32 => ("integer"@, Some("int32"@)),
        PrimitiveType::U64 | PrimitiveType::U128 => ("integer"@, Some("int64"@)),
        PrimitiveType::F32 => ("number"@, Some("float"@)),
        PrimitiveType::F64 => ("number"@, Some("double"@)),
        PrimitiveType::Bool => ("boolean"@, None),
        PrimitiveType::Char => ("string"@, None),
    }
}

pub open spec fn primitive_schema(p: PrimitiveType) -> SchemaView {
    SchemaView { schema_type: Some(primitive_format(p).0), format: primitive_format(p).1, ..bare_schema() }
}

/// The schema of a type reference: `Option` is transparent, `Vec` is an
/// array of its element's schema, a primitive has its type and format, a
/// record or enumeration is a reference to its catalog entry, and anything
/// else is an empty object.
pub open spec fn schema_for(files: Seq<ParsedFile>, t: TypeView) -> SchemaView
    decreases t,
{
    if t.is_option && t.args.len() > 0 {
        schema_for(files, t.args[0])
    } else if t.is_vec && t.args.len() > 0 {
        array_schema(schema_for(files, t.args[0]))
    } else {
        match resolve_spec(files, t.name) {
            Some(r) => match r.kind {
                KindView::Primitive(p) => primitive_schema(p),
                KindView::Struct(_) => ref_schema(t.name),
                KindView::Enum(_) => ref_schema(t.name),
                KindView::Generic(_) => object_schema(),
            },
            None => object_schema(),
        }
    }
}

/// The record or enumeration that a type reference names, once `Option` and
/// `Vec` are unwrapped.
pub open spec fn named_target(files: Seq<ParsedFile>, t: TypeView) -> Option<Seq<char>>
    decreases t,
{
    if t.is_option && t.args.len() > 0 {
        named_target(files, t.args[0])
    } else if t.is_vec && t.args.len() > 0 {
        named_target(files, t.args[0])
    } else {
        match resolve_spec(files, t.name) {
            Some(r) => match r.kind {
                KindView::Struct(_) => Some(t.name),
                KindView::Enum(_) => Some(t.name),
                _ => None,
            },
            None => None,
        }
    }
}

pub open spec fn as_property(s: SchemaView) -> PropertyView {
    PropertyView { property_type: s.schema_type, reference: s.reference, items: s.items, format: s.format }
}

/// The name a field is exposed under.
pub open spec fn field_key(f: FieldView) -> Seq<char> {
    match f.serde_attrs.rename {
        Some(r) => r,
        None => f.name,
    }
}

/// The properties of a record's schema: every field not marked skip, under
/// its exposed name, in declaration order.
pub open spec fn struct_properties(files: Seq<ParsedFile>, fields: Seq<FieldView>) -> Seq<(Seq<char>, PropertyView)>
    decreases fields.len(),
{
    if fields.len() == 0 {
        Seq::empty()
    } else {
        let rest = struct_properties(files, fields.drop_last());
        let f = fields.last();
        if f.serde_attrs.skip {
            rest
        } else {
            rest.push((field_key(f), as_property(schema_for(files, f.type_info))))
        }
    }
}

/// The exposed names of the fields that are neither skipped nor optional.
pub open spec fn required_fields(fields: Seq<FieldView>) -> Seq<Seq<char>>
    decreases fields.len(),
{
    if fields.len() == 0 {
        Seq::empty()
    } else {
        let rest = required_fields(fields.drop_last());
        let f = fields.last();
        if !f.serde_attrs.skip && !f.optional && !f.type_info.is_option {
            rest.push(field_key(f))
        } else {
            rest
        }
    }
}

pub open spec fn struct_schema(files: Seq<ParsedFile>, fields: Seq<FieldView>) -> SchemaView {
    SchemaView {
        schema_type: Some("object"@),
        properties: Some(struct_properties(files, fields)),
        required: if required_fields(fields).len() == 0 { None } else { Some(required_fields(fields)) },
        ..bare_schema()
    }
}

pub open spec fn enum_schema(variants: Seq<Seq<char>>) -> SchemaView {
    SchemaView { schema_type: Some("string"@), enum_values: Some(variants), ..bare_schema() }
}

/// The catalog entry of a type name, when it names a record or enumeration.
pub open spec fn catalog_entry(files: Seq<ParsedFile>, name: Seq<char>) -> Option<SchemaView> {
    match resolve_spec(files, name) {
        Some(r) => match r.kind {
            KindView::Struct(fields) => Some(struct_schema(files, fields)),
            KindView::Enum(vs) => Some(enum_schema(vs)),
            _ => None,
        },
        None => None,
    }
}

/// The names of the top-level records and enumerations of `items`.
pub open spec fn names_in_items(items: Seq<Item>) -> Seq<Seq<char>>
    decreases items.len(),
{
    if items.len() == 0 {
        Seq::empty()
    } else {
        let rest = names_in_items(items.drop_first());
        match items[0] {
            Item::Struct(s) => seq![s.name@] + rest,
            Item::Enum(e) => seq![e.name@] + rest,
            _ => rest,
        }
    }
}

/// The names of all top-level records and enumerations.
pub open spec fn declared_names(files: Seq<ParsedFile>) -> Seq<Seq<char>>
    decreases files.len(),
{
    if files.len() == 0 {
        Seq::empty()
    } else {
        names_in_items(files[0].syntax_tree.items@) + declared_names(files.drop_first())
    }
}

proof fn lemma_found_in_items(items: Seq<Item>, name: Seq<char>)
    ensures
        struct_in_items(items, name) is Some ==> names_in_items(items).contains(name),
        enum_in_items(items, name) is Some ==> names_in_items(items).contains(name),
    decreases items.len(),
{
    if items.len() > 0 {
        lemma_found_in_items(items.drop_first(), name);
        let rest = names_in_items(items.drop_first());
        match items[0] {
            Item::Struct(s) => {
                assert((seq![s.name@] + rest)[0] == s.name@);
                if rest.contains(name) {
                    let j = choose|j: int| 0 <= j < rest.len() && rest[j] == name;
                    assert((seq![s.name@] + rest)[j + 1] == name);
                }
            },
            Item::Enum(e) => {
                assert((seq![e.name@] + rest)[0] == e.name@);
                if rest.contains(name) {
                    let j = choose|j: int| 0 <= j < rest.len() && rest[j] == name;
                    assert((seq![e.name@] + rest)[j + 1] == name);
                }
            },
            _ => {},
        }
    }
}

proof fn lemma_found_declared(files: Seq<ParsedFile>, name: Seq<char>)
    ensures
        find_struct(files, name) is Some ==> declared_names(files).contains(name),
        find_enum(files, name) is Some ==> declared_names(files).contains(name),
    decreases files.len(),
{
    if files.len() > 0 {
        let a = names_in_items(files[0].syntax_tree.items@);
        let b = declared_names(files.drop_first());
        lemma_found_in_items(files[0].syntax_tree.items@, name);
        lemma_found_declared(files.drop_first(), name);
        if a.contains(name) {
            let j = choose|j: int| 0 <= j < a.len() && a[j] == name;
            assert((a + b)[j] == name);
        }
        if b.contains(name) {
            let j = choose|j: int| 0 <= j < b.len() && b[j] == name;
            assert((a + b)[a.len() + j] == name);
        }
    }
}

/// A name with a catalog entry is the name of a top-level declaration.
pub proof fn lemma_entry_declared(files: Seq<ParsedFile>, name: Seq<char>)
    ensures
        catalog_entry(files, name) is Some ==> declared_names(files).contains(name),
{
    lemma_found_declared(files, name);
}

/// Distinct names, all declared, are no more than the declarations.
pub proof fn lemma_distinct_declared(s: Seq<Seq<char>>, files: Seq<ParsedFile>)
    requires
        s.no_duplicates(),
        forall|i: int| 0 <= i < s.len() ==> declared_names(files).contains(#[trigger] s[i]),
    ensures
        s.len() <= declared_names(files).len(),
{
    let d = declared_names(files);
    s.unique_seq_to_set();
    d.lemma_cardinality_of_set();
    assert(s.to_set().subset_of(d.to_set())) by {
        assert forall|x: Seq<char>| s.to_set().contains(x) implies d.to_set().contains(x) by {
            let i = choose|i: int| 0 <= i < s.len() && s[i] == x;
            assert(d.contains(s[i]));
        }
    }
    vstd::set_lib::lemma_len_subset(s.to_set(), d.to_set());
}


/// How deep the `Option`/`Vec` wrapping of a type reference goes.
pub open spec fn wrap_depth(t: TypeView) -> nat
    decreases t,
{
    if t.args.len() > 0 {
        1 + wrap_depth(t.args[0])
    } else {
        1
    }
}

pub open spec fn fields_depth(fs: Seq<FieldView>) -> nat
    decreases fs.len(),
{
    if fs.len() == 0 {
        0
    } else {
        fields_depth(fs.drop_last()) + wrap_depth(fs.last().type_info)
    }
}

proof fn lemma_fields_depth(fs: Seq<FieldView>, i: int)
    requires
        0 <= i < fs.len(),
    ensures
        wrap_depth(fs[i].type_info) <= fields_depth(fs),
    decreases fs.len(),
{
    if i < fs.len() - 1 {
        lemma_fields_depth(fs.drop_last(), i);
        assert(fs.drop_last()[i] == fs[i]);
    }
}


/// Every reference in the schema `s` points at the catalog entry of a name in `ok`.
pub open spec fn refs_within(s: SchemaView, ok: Set<Seq<char>>) -> bool
    decreases s,
{
    &&& match s.reference {
        Some(r) => exists|n: Seq<char>| ok.contains(n) && r == reference_to(n),
        None => true,
    }
    &&& match s.items {
        Some(b) => refs_within(*b, ok),
        None => true,
    }
    &&& match s.properties {
        Some(ps) => props_within(ps, ok),
        None => true,
    }
}

pub open spec fn props_within(ps: Seq<(Seq<char>, PropertyView)>, ok: Set<Seq<char>>) -> bool
    decreases ps,
{
    ps.len() == 0 || (props_within(ps.drop_last(), ok) && prop_within(ps.last().1, ok))
}

pub open spec fn prop_within(p: PropertyView, ok: Set<Seq<char>>) -> bool
    decreases p,
{
    &&& match p.reference {
        Some(r) => exists|n: Seq<char>| ok.contains(n) && r == reference_to(n),
        None => true,
    }
    &&& match p.items {
        Some(b) => refs_within(*b, ok),
        None => true,
    }
}

proof fn lemma_refs_mono(s: SchemaView, a: Set<Seq<char>>, b: Set<Seq<char>>)
    requires
        refs_within(s, a),
        a.subset_of(b),
    ensures
        refs_within(s, b),
    decreases s,
{
    if let Some(r) = s.reference {
        let n = choose|n: Seq<char>| a.contains(n) && r == reference_to(n);
        assert(b.contains(n));
    }
    if let Some(x) = s.items {
        lemma_refs_mono(*x, a, b);
    }
    if let Some(ps) = s.properties {
        lemma_props_mono(ps, a, b);
    }
}

proof fn lemma_props_mono(ps: Seq<(Seq<char>, PropertyView)>, a: Set<Seq<char>>, b: Set<Seq<char>>)
    requires
        props_within(ps, a),
        a.subset_of(b),
    ensures
        props_within(ps, b),
    decreases ps,
{
    if ps.len() > 0 {
        lemma_props_mono(ps.drop_last(), a, b);
        let p = ps.last().1;
        assert(prop_within(p, a));
        lemma_prop_mono(p, a, b);
    }
}

proof fn lemma_prop_mono(p: PropertyView, a: Set<Seq<char>>, b: Set<Seq<char>>)
    requires
        prop_within(p, a),
        a.subset_of(b),
    ensures
        prop_within(p, b),
    decreases p,
{
    if let Some(r) = p.reference {
        let n = choose|n: Seq<char>| a.contains(n) && r == reference_to(n);
        assert(b.contains(n));
    }
    if let Some(x) = p.items {
        lemma_refs_mono(*x, a, b);
    }
}

/// The schema of a type reference refers at most to the record or
/// enumeration it names, and has no properties of its own.
proof fn lemma_schema_for_refs(files: Seq<ParsedFile>, t: TypeView, ok: Set<Seq<char>>)
    requires
        named_target(files, t) matches Some(n) ==> ok.contains(n),
    ensures
        refs_within(schema_for(files, t), ok),
        schema_for(files, t).properties is None,
    decreases t,
{
    if t.is_option && t.args.len() > 0 {
        lemma_schema_for_refs(files, t.args[0], ok);
    } else if t.is_vec && t.args.len() > 0 {
        lemma_schema_for_refs(files, t.args[0], ok);
    } else {
        match resolve_spec(files, t.name) {
            Some(r) => match r.kind {
                KindView::Struct(_) => {
                    assert(ok.contains(t.name));
                },
                KindView::Enum(_) => {
                    assert(ok.contains(t.name));
                },
                _ => {},
            },
            None => {},
        }
    }
}

proof fn lemma_struct_refs(files: Seq<ParsedFile>, fields: Seq<FieldView>, ok: Set<Seq<char>>)
    requires
        forall|j: int| 0 <= j < fields.len() && !(#[trigger] fields[j]).serde_attrs.skip ==>
            (named_target(files, fields[j].type_info) matches Some(n) ==> ok.contains(n)),
    ensures
        props_within(struct_properties(files, fields), ok),
    decreases fields.len(),
{
    if fields.len() > 0 {
        let rest = fields.drop_last();
        assert forall|j: int| 0 <= j < rest.len() && !(#[trigger] rest[j]).serde_attrs.skip implies
            (named_target(files, rest[j].type_info) matches Some(n) ==> ok.contains(n)) by {
            assert(rest[j] == fields[j]);
        }
        lemma_struct_refs(files, rest, ok);
        let f = fields.last();
        assert(f == fields[fields.len() - 1]);
        if !f.serde_attrs.skip {
            let sch = schema_for(files, f.type_info);
            lemma_schema_for_refs(files, f.type_info, ok);
            let ps = struct_properties(files, fields);
            assert(ps == struct_properties(files, rest).push((field_key(f), as_property(sch))));
            assert(ps.drop_last() == struct_properties(files, rest));
            assert(ps.last().1 == as_property(sch));
            assert(refs_within(sch, ok));
            assert(prop_within(as_property(sch), ok));
        }
    }
}

/// The names of `catalog` together with `pending`.
pub open spec fn known_names(catalog: Seq<(Seq<char>, SchemaView)>, pending: Seq<Seq<char>>) -> Set<Seq<char>> {
    Set::new(|n: Seq<char>| names_of(catalog).contains(n) || pending.contains(n))
}

proof fn lemma_known_grows(c1: Seq<(Seq<char>, SchemaView)>, c2: Seq<(Seq<char>, SchemaView)>, p: Seq<Seq<char>>)
    requires
        extends(c2, c1),
    ensures
        known_names(c1, p).subset_of(known_names(c2, p)),
{
    assert forall|n: Seq<char>| known_names(c1, p).contains(n) implies known_names(c2, p).contains(n) by {
        if names_of(c1).contains(n) {
            lemma_extends_contains(c2, c1, n);
        }
    }
}

/// Turns type references into schemas and keeps the catalog of named ones.
pub struct SchemaGenerator {
    type_resolver: TypeResolver,
    schemas: NamedMap<Schema>,
    /// Records whose schema is being built, outermost first.
    in_progress: Vec<String>,
}

pub open spec fn catalog_views(es: Seq<(String, Schema)>) -> Seq<(Seq<char>, SchemaView)> {
    es.map_values(|e: (String, Schema)| (e.0@, e.1@))
}

pub open spec fn names_of(c: Seq<(Seq<char>, SchemaView)>) -> Seq<Seq<char>> {
    c.map_values(|e: (Seq<char>, SchemaView)| e.0)
}

/// `a` is `b` followed by zero or more entries.
pub open spec fn extends<A>(a: Seq<A>, b: Seq<A>) -> bool {
    b.len() <= a.len() && a.subrange(0, b.len() as int) == b
}

proof fn lemma_extends_contains(a: Seq<(Seq<char>, SchemaView)>, b: Seq<(Seq<char>, SchemaView)>, n: Seq<char>)
    requires
        extends(a, b),
        names_of(b).contains(n),
    ensures
        names_of(a).contains(n),
{
    let j = choose|j: int| 0 <= j < names_of(b).len() && names_of(b)[j] == n;
    assert(a[j] == b[j]);
    assert(names_of(a)[j] == n);
}

pub proof fn lemma_extends_refl(a: Seq<(Seq<char>, SchemaView)>)
    ensures
        extends(a, a),
{
    assert(a.subrange(0, a.len() as int) == a);
}

pub proof fn lemma_extends_trans<A>(a: Seq<A>, b: Seq<A>, c: Seq<A>)
    requires
        extends(a, b),
        extends(b, c),
    ensures
        extends(a, c),
{
    assert(a.subrange(0, c.len() as int) =~= b.subrange(0, c.len() as int));
}

impl SchemaGenerator {
    /// The files that type names are resolved against.
    pub closed spec fn files(&self) -> Seq<ParsedFile> {
        self.type_resolver.files()
    }

    /// The catalog: names and schemas in order of emission.
    pub closed spec fn catalog(&self) -> Seq<(Seq<char>, SchemaView)> {
        catalog_views(self.schemas.entries@)
    }

    /// The names of the records whose schema is being built.
    pub closed spec fn pending(&self) -> Seq<Seq<char>> {
        text_views(self.in_progress@)
    }

    /// How many more records may still be opened.
    pub closed spec fn budget(&self) -> int {
        declared_names(self.files()).len() - self.in_progress@.len()
    }

    /// The catalog holds each name once, under the schema that the name's
    /// declaration gives; the records being built are distinct, declared, and
    /// not in the catalog yet.
    pub closed spec fn wf(&self) -> bool {
        &&& self.type_resolver.wf()
        &&& forall|n: Seq<char>| !self.type_resolver.resolving(n)
        &&& names_of(self.catalog()).no_duplicates()
        &&& forall|i: int| 0 <= i < self.catalog().len() ==>
            catalog_entry(self.files(), #[trigger] self.catalog()[i].0) == Some(self.catalog()[i].1)
        &&& self.pending().no_duplicates()
        &&& forall|i: int| 0 <= i < self.pending().len() ==>
            (catalog_entry(self.files(), #[trigger] self.pending()[i]) is Some
            && !names_of(self.catalog()).contains(self.pending()[i]))
        &&& forall|i: int| 0 <= i < self.catalog().len() ==>
            refs_within(#[trigger] self.catalog()[i].1, self.known())
    }

    /// The names that the catalog holds or whose record is being built.
    pub open spec fn known(&self) -> Set<Seq<char>> {
        known_names(self.catalog(), self.pending())
    }

    /// Everything `wf` asks but the closure of references, which holds up to
    /// `name`, and `name` may be added with the schema `s`.
    closed spec fn can_add(&self, name: Seq<char>, s: SchemaView) -> bool {
        &&& self.type_resolver.wf()
        &&& forall|n: Seq<char>| !self.type_resolver.resolving(n)
        &&& names_of(self.catalog()).no_duplicates()
        &&& forall|i: int| 0 <= i < self.catalog().len() ==>
            catalog_entry(self.files(), #[trigger] self.catalog()[i].0) == Some(self.catalog()[i].1)
        &&& self.pending().no_duplicates()
        &&& forall|i: int| 0 <= i < self.pending().len() ==>
            (catalog_entry(self.files(), #[trigger] self.pending()[i]) is Some
            && !names_of(self.catalog()).contains(self.pending()[i]))
        &&& forall|i: int| 0 <= i < self.catalog().len() ==>
            refs_within(#[trigger] self.catalog()[i].1, self.known().insert(name))
        &&& !names_of(self.catalog()).contains(name)
        &&& !self.pending().contains(name)
        &&& catalog_entry(self.files(), name) == Some(s)
        &&& refs_within(s, self.known().insert(name))
    }

    /// Appends the entry `(name, s)` to the catalog.
    fn add_entry(&mut self, name: &String, s: Schema)
        requires
            old(self).can_add(name@, s@),
        ensures
            final(self).wf(),
            final(self).files() == old(self).files(),
            final(self).pending() == old(self).pending(),
            final(self).catalog() == old(self).catalog().push((name@, s@)),
            final(self).known() == old(self).known().insert(name@),
    {
        let ghost cat0 = self.catalog();
        let ghost entry = (name@, s@);
        self.schemas.entries.push((name.clone(), s));
        proof {
            let nc = names_of(cat0);
            assert(self.catalog() =~= cat0.push(entry));
            assert(names_of(self.catalog()) =~= nc.push(name@));
            assert(names_of(self.catalog()).no_duplicates()) by {
                assert forall|a: int, b: int| 0 <= a < b < names_of(self.catalog()).len()
                    implies names_of(self.catalog())[a] != names_of(self.catalog())[b] by {
                    assert(names_of(self.catalog())[a] == nc[a]);
                    if b < nc.len() {
                        assert(names_of(self.catalog())[b] == nc[b]);
                    } else {
                        assert(nc.contains(nc[a]));
                    }
                }
            }
            assert(self.known() =~= old(self).known().insert(name@)) by {
                assert forall|x: Seq<char>| names_of(self.catalog()).contains(x) <==> (nc.contains(x) || x == name@) by {
                    if names_of(self.catalog()).contains(x) {
                        let j = choose|j: int| 0 <= j < names_of(self.catalog()).len() && names_of(self.catalog())[j] == x;
                        if j < nc.len() {
                            assert(nc[j] == x);
                        }
                    }
                    if nc.contains(x) {
                        let j = choose|j: int| 0 <= j < nc.len() && nc[j] == x;
                        assert(names_of(self.catalog())[j] == x);
                    }
                    if x == name@ {
                        assert(names_of(self.catalog())[nc.len() as int] == x);
                    }
                }
            }
            assert forall|i: int| 0 <= i < self.catalog().len() implies
                catalog_entry(self.files(), #[trigger] self.catalog()[i].0) == Some(self.catalog()[i].1)
                && refs_within(self.catalog()[i].1, self.known()) by {
                if i < cat0.len() {
                    assert(self.catalog()[i] == cat0[i]);
                }
            }
            assert forall|i: int| 0 <= i < self.pending().len() implies
                (catalog_entry(self.files(), #[trigger] self.pending()[i]) is Some
                && !names_of(self.catalog()).contains(self.pending()[i])) by {
                let q = self.pending()[i];
                assert(!nc.contains(q));
                if q == name@ {
                    assert(old(self).pending().contains(name@));
                }
            }
        }
    }

    proof fn lemma_budget(&self)
        requires
            self.wf(),
        ensures
            self.budget() >= 0,
    {
        let p = self.pending();
        assert forall|i: int| 0 <= i < p.len() implies declared_names(self.files()).contains(#[trigger] p[i]) by {
            lemma_entry_declared(self.files(), p[i]);
        }
        lemma_distinct_declared(p, self.files());
    }

    pub fn new(type_resolver: TypeResolver) -> (r: Self)
        requires
            type_resolver.wf(),
            forall|n: Seq<char>| !type_resolver.resolving(n),
        ensures
            r.wf(),
            r.files() == type_resolver.files(),
            r.catalog().len() == 0,
            r.pending().len() == 0,
    {
        let r = SchemaGenerator { type_resolver, schemas: NamedMap::new(), in_progress: Vec::new() };
        proof {
            assert(r.catalog() =~= Seq::<(Seq<char>, SchemaView)>::empty());
            assert(names_of(r.catalog()) =~= Seq::<Seq<char>>::empty());
            assert(r.pending() =~= Seq::<Seq<char>>::empty());
        }
        r
    }

    /// The catalog of record and enumeration schemas emitted so far.
    pub fn get_schemas(&self) -> (r: &NamedMap<Schema>)
        ensures
            catalog_views(r.entries@) == self.catalog(),
    {
        &self.schemas
    }

    /// The catalog, taken out of the generator.
    pub fn into_schemas(self) -> (r: NamedMap<Schema>)
        ensures
            catalog_views(r.entries@) == self.catalog(),
    {
        self.schemas
    }

    fn is_pending(&self, name: &str) -> (r: bool)
        ensures
            r == self.pending().contains(name@),
    {
        let mut i: usize = 0;
        while i < self.in_progress.len()
            invariant
                i <= self.in_progress.len(),
                forall|j: int| 0 <= j < i ==> self.in_progress@[j]@ != name@,
            decreases self.in_progress.len() - i,
        {
            if str_eq(self.in_progress[i].as_str(), name) {
                proof {
                    assert(self.pending()[i as int] == name@);
                }
                return true;
            }
            i = i + 1;
        }
        false
    }

    fn in_catalog(&self, name: &str) -> (r: bool)
        ensures
            r == names_of(self.catalog()).contains(name@),
    {
        let r = self.schemas.contains_key(name);
        proof {
            assert(names_of(self.catalog()) =~= self.schemas.keys());
        }
        r
    }
}

fn bare() -> (r: Schema)
    ensures
        r@ == bare_schema(),
{
    Schema {
        schema_type: None,
        properties: None,
        required: None,
        items: None,
        enum_values: None,
        reference: None,
        format: None,
    }
}

fn object() -> (r: Schema)
    ensures
        r@ == object_schema(),
{
    Schema { schema_type: Some(owned("object")), ..bare() }
}

fn reference_schema(name: &str) -> (r: Schema)
    ensures
        r@ == ref_schema(name@),
{
    Schema { reference: Some(joined("#/components/schemas/", name)), ..bare() }
}

fn array_of(items: Schema) -> (r: Schema)
    ensures
        r@ == array_schema(items@),
{
    Schema { schema_type: Some(owned("array")), items: Some(Box::new(items)), ..bare() }
}

/// The schema of a primitive: its type and, for numbers, its format.
pub fn primitive_to_schema(p: PrimitiveType) -> (r: Schema)
    ensures
        r@ == primitive_schema(p),
{
    let (t, f) = match p {
        PrimitiveType::String => ("string", None),
        PrimitiveType::I8 | PrimitiveType::I16 | PrimitiveType::I32 => ("integer", Some("int32")),
        PrimitiveType::I64 | PrimitiveType::I128 => ("integer", Some("int64")),
        PrimitiveType::U8 | PrimitiveType::U16 | PrimitiveType::U32 => ("integer", Some("int32")),
        PrimitiveType::U64 | PrimitiveType::U128 => ("integer", Some("int64")),
        PrimitiveType::F32 => ("number", Some("float")),
        PrimitiveType::F64 => ("number", Some("double")),
        PrimitiveType::Bool => ("boolean", None),
        PrimitiveType::Char => ("string", None),
    };
    let format = match f {
        Some(x) => Some(owned(x)),
        None => None,
    };
    Schema { schema_type: Some(owned(t)), format, ..bare() }
}

fn to_property(s: Schema) -> (r: Property)
    ensures
        property_view(r) == as_property(s@),
{
    Property { property_type: s.schema_type, reference: s.reference, items: s.items, format: s.format }
}

impl SchemaGenerator {
    /// The schema of a type reference; the records and enumerations it names
    /// get their catalog entries if they have none yet.
    pub fn generate_schema(&mut self, type_info: &TypeInfo) -> (r: Schema)
        requires
            old(self).wf(),
        ensures
            final(self).wf(),
            final(self).files() == old(self).files(),
            final(self).pending() == old(self).pending(),
            extends(final(self).catalog(), old(self).catalog()),
            r@ == schema_for(old(self).files(), type_info@),
            named_target(old(self).files(), type_info@) matches Some(n) ==> final(self).known().contains(n),
            refs_within(r@, final(self).known()),
            named_target(old(self).files(), type_info@) is None ==> final(self).catalog() == old(self).catalog(),
            named_target(old(self).files(), type_info@) matches Some(n) && old(self).known().contains(n)
                ==> final(self).catalog() == old(self).catalog(),
        decreases self.budget(), wrap_depth(type_info@),
    {
        proof {
            lemma_type_views_index(type_info.generic_args@);
            self.lemma_budget();
            assert(self.catalog().subrange(0, self.catalog().len() as int) == self.catalog());
        }
        if type_info.is_option && type_info.generic_args.len() > 0 {
            return self.generate_schema(&type_info.generic_args[0]);
        }
        if type_info.is_vec && type_info.generic_args.len() > 0 {
            let inner = self.generate_schema(&type_info.generic_args[0]);
            return array_of(inner);
        }
        let ghost files = self.files();
        let ghost cat0 = self.catalog();
        let ghost k0 = self.known();
        let resolved = self.type_resolver.resolve_type(type_info.name.as_str());
        proof {
            assert(self.catalog() == cat0);
            assert(self.files() == files);
            assert(self.wf());
        }
        let name = &type_info.name;
        let r = match resolved {
            Some(rt) => {
                match rt.kind {
                    TypeKind::Primitive(p) => primitive_to_schema(p),
                    TypeKind::Struct(def) => {
                        if !self.in_catalog(name.as_str()) && !self.is_pending(name.as_str()) {
                            let ghost p0 = self.pending();
                            self.in_progress.push(name.clone());
                            proof {
                                assert(self.pending() =~= p0.push(name@));
                                assert(self.catalog() == cat0);
                                assert(self.pending().no_duplicates()) by {
                                    assert forall|a: int, b: int| 0 <= a < b < self.pending().len() implies self.pending()[a] != self.pending()[b] by {
                                        assert(p0[a] == self.pending()[a]);
                                        if b < p0.len() {
                                            assert(p0[b] == self.pending()[b]);
                                        } else {
                                            assert(p0.contains(p0[a]));
                                        }
                                    }
                                }
                                assert forall|i: int| 0 <= i < self.pending().len() implies
                                    (catalog_entry(self.files(), #[trigger] self.pending()[i]) is Some
                                    && !names_of(self.catalog()).contains(self.pending()[i])) by {
                                    if i < p0.len() {
                                        assert(p0[i] == self.pending()[i]);
                                    }
                                }
                                assert(k0.subset_of(self.known())) by {
                                    assert forall|x: Seq<char>| k0.contains(x) implies self.known().contains(x) by {
                                        if p0.contains(x) {
                                            let j = choose|j: int| 0 <= j < p0.len() && p0[j] == x;
                                            assert(self.pending()[j] == x);
                                        }
                                    }
                                }
                                assert forall|i: int| 0 <= i < self.catalog().len() implies
                                    refs_within(#[trigger] self.catalog()[i].1, self.known()) by {
                                    lemma_refs_mono(self.catalog()[i].1, k0, self.known());
                                }
                                assert(self.wf());
                                self.lemma_budget();
                            }
                            let s = self.build_struct_schema(&def.fields);
                            let ghost cat1 = self.catalog();
                            let ghost k1 = self.known();
                            let ghost ip = self.in_progress@;
                            proof {
                                assert(self.pending() == p0.push(name@));
                                assert(self.pending()[p0.len() as int] == name@);
                                assert(!names_of(cat1).contains(name@));
                                assert forall|k: int| 0 <= k < p0.len() implies !names_of(cat1).contains(#[trigger] p0[k]) by {
                                    assert(self.pending()[k] == p0[k]);
                                }
                                assert forall|k: int| 0 <= k < p0.len() implies #[trigger] catalog_entry(files, p0[k]) is Some by {
                                    assert(self.pending()[k] == p0[k]);
                                }
                            }
                            self.in_progress.pop();
                            proof {
                                assert(text_views(ip) == p0.push(name@));
                                assert(self.in_progress@ == ip.drop_last());
                                assert forall|k: int| 0 <= k < p0.len() implies #[trigger] self.pending()[k] == p0[k] by {
                                    assert(self.in_progress@[k] == ip[k]);
                                    assert(text_views(ip)[k] == ip[k]@);
                                }
                                assert(self.pending() =~= p0);
                                assert(self.known().insert(name@) =~= k1) by {
                                    assert forall|x: Seq<char>| p0.push(name@).contains(x) <==> (p0.contains(x) || x == name@) by {
                                        if p0.push(name@).contains(x) {
                                            let j = choose|j: int| 0 <= j < p0.len() + 1 && p0.push(name@)[j] == x;
                                            if j < p0.len() {
                                                assert(p0[j] == x);
                                            }
                                        }
                                        if p0.contains(x) {
                                            let j = choose|j: int| 0 <= j < p0.len() && p0[j] == x;
                                            assert(p0.push(name@)[j] == x);
                                        }
                                        if x == name@ {
                                            assert(p0.push(name@)[p0.len() as int] == x);
                                        }
                                    }
                                }
                                assert(p0.no_duplicates()) by {
                                    assert forall|a: int, b: int| 0 <= a < b < p0.len() implies p0[a] != p0[b] by {
                                        assert(p0.push(name@)[a] == p0[a]);
                                        assert(p0.push(name@)[b] == p0[b]);
                                    }
                                }
                                assert(!p0.contains(name@)) by {
                                    if p0.contains(name@) {
                                        let j = choose|j: int| 0 <= j < p0.len() && p0[j] == name@;
                                        assert(p0.push(name@)[j] == p0.push(name@)[p0.len() as int]);
                                    }
                                }
                                assert(self.can_add(name@, s@));
                            }
                            self.add_entry(name, s);
                            proof {
                                lemma_extends_refl(cat1);
                                assert(self.catalog().subrange(0, cat1.len() as int) =~= cat1);
                                lemma_extends_trans(self.catalog(), cat1, cat0);
                            }
                        }
                        proof {
                            if names_of(cat0).contains(name@) {
                                lemma_extends_contains(self.catalog(), cat0, name@);
                            }
                        }
                        reference_schema(name.as_str())
                    },
                    TypeKind::Enum(def) => {
                        if !self.in_catalog(name.as_str()) && !self.is_pending(name.as_str()) {
                            let s = Schema {
                                schema_type: Some(owned("string")),
                                enum_values: Some(copy_strings(&def.variants)),
                                ..bare()
                            };
                            proof {
                                assert forall|i: int| 0 <= i < self.catalog().len() implies
                                    refs_within(#[trigger] self.catalog()[i].1, self.known().insert(name@)) by {
                                    lemma_refs_mono(self.catalog()[i].1, self.known(), self.known().insert(name@));
                                }
                                assert(self.can_add(name@, s@));
                            }
                            self.add_entry(name, s);
                            proof {
                                assert(self.catalog().subrange(0, cat0.len() as int) =~= cat0);
                            }
                        }
                        reference_schema(name.as_str())
                    },
                    TypeKind::Generic(_) => object(),
                }
            },
            None => object(),
        };
        proof {
            let t = type_info@;
            if let Some(n) = named_target(files, t) {
                assert(n == name@);
                if names_of(self.catalog()).contains(n) {
                    assert(self.known().contains(n));
                }
            }
            lemma_schema_for_refs(files, t, self.known());
        }
        r
    }

    fn build_struct_schema(&mut self, fields: &Vec<FieldDef>) -> (r: Schema)
        requires
            old(self).wf(),
        ensures
            final(self).wf(),
            final(self).files() == old(self).files(),
            final(self).pending() == old(self).pending(),
            extends(final(self).catalog(), old(self).catalog()),
            r@ == struct_schema(old(self).files(), field_views(fields@)),
            refs_within(r@, final(self).known()),
        decreases self.budget(), fields_depth(field_views(fields@)) + 1,
    {
        let ghost files = self.files();
        let ghost fv = field_views(fields@);
        let mut props: Vec<(String, Property)> = Vec::new();
        let mut required: Vec<String> = Vec::new();
        let mut i: usize = 0;
        proof {
            assert(fv.subrange(0, 0) =~= Seq::<FieldView>::empty());
            assert(property_views(props@) =~= Seq::<(Seq<char>, PropertyView)>::empty());
            assert(text_views(required@) =~= Seq::<Seq<char>>::empty());
            assert(self.catalog().subrange(0, self.catalog().len() as int) == self.catalog());
        }
        while i < fields.len()
            invariant
                i <= fields.len(),
                self.wf(),
                self.files() == files,
                files == old(self).files(),
                self.pending() == old(self).pending(),
                self.in_progress@.len() == old(self).in_progress@.len(),
                extends(self.catalog(), old(self).catalog()),
                fv == field_views(fields@),
                property_views(props@) == struct_properties(files, fv.subrange(0, i as int)),
                props_within(struct_properties(files, fv.subrange(0, i as int)), self.known()),
                text_views(required@) == required_fields(fv.subrange(0, i as int)),
            decreases fields.len() - i,
        {
            let f = &fields[i];
            let ghost before = fv.subrange(0, i as int);
            proof {
                let sub = fv.subrange(0, i + 1);
                assert(sub.drop_last() == before);
                assert(sub.last() == f@);
            }
            if !f.serde_attrs.skip {
                let key = match &f.serde_attrs.rename {
                    Some(x) => x.clone(),
                    None => f.name.clone(),
                };
                proof {
                    lemma_fields_depth(fv, i as int);
                    assert(fv[i as int].type_info == f.type_info@);
                }
                let ghost cat_before = self.catalog();
                let ghost k_before = self.known();
                let sch = self.generate_schema(&f.type_info);
                proof {
                    lemma_extends_trans(self.catalog(), cat_before, old(self).catalog());
                    lemma_known_grows(cat_before, self.catalog(), self.pending());
                    lemma_props_mono(struct_properties(files, before), k_before, self.known());
                    let ps = struct_properties(files, fv.subrange(0, i + 1));
                    assert(ps.drop_last() == struct_properties(files, before));
                    assert(ps.last().1 == as_property(sch@));
                    assert(prop_within(as_property(sch@), self.known()));
                }
                let prop = to_property(sch);
                if !f.optional && !f.type_info.is_option {
                    let ghost rq = required@;
                    required.push(key.clone());
                    proof {
                        assert(text_views(required@) =~= text_views(rq).push(key@));
                    }
                }
                let ghost pv = props@;
                props.push((key, prop));
                proof {
                    assert(props@.drop_last() == pv);
                }
            }
            i = i + 1;
        }
        proof {
            assert(fv.subrange(0, i as int) == fv);
        }
        let req = if required.len() == 0 { None } else { Some(required) };
        Schema { schema_type: Some(owned("object")), properties: Some(NamedMap { entries: props }), required: req, ..bare() }
    }

    /// A parameter with its location's name and the schema of its type; the
    /// catalog changes as `generate_schema` changes it.
    pub fn generate_parameter_schema(&mut self, param: &Parameter) -> (r: ParameterSchema)
        requires
            old(self).wf(),
        ensures
            final(self).wf(),
            final(self).files() == old(self).files(),
            final(self).pending() == old(self).pending(),
            extends(final(self).catalog(), old(self).catalog()),
            r.name@ == param.name@,
            r.location@ == location_name(param.location),
            r.required == param.required,
            r.schema@ == schema_for(old(self).files(), param.type_info@),
            named_target(old(self).files(), param.type_info@) matches Some(n) ==> final(self).known().contains(n),
            refs_within(r.schema@, final(self).known()),
            named_target(old(self).files(), param.type_info@) is None ==> final(self).catalog() == old(self).catalog(),
            named_target(old(self).files(), param.type_info@) matches Some(n) && old(self).known().contains(n)
                ==> final(self).catalog() == old(self).catalog(),
    {
        let location = match param.location {
            ParameterLocation::Path => owned("path"),
            ParameterLocation::Query => owned("query"),
            ParameterLocation::Header => owned("header"),
        };
        let schema = self.generate_schema(&param.type_info);
        ParameterSchema { name: param.name.clone(), location, required: param.required, schema }
    }
}

/// The document's name of a parameter location.
pub open spec fn location_name(l: ParameterLocation) -> Seq<char> {
    match l {
        ParameterLocation::Path => "path"@,
        ParameterLocation::Query => "query"@,
        ParameterLocation::Header => "header"@,
    }
}


/// The exposed names of `fields`, in order.
pub open spec fn field_keys(fields: Seq<FieldView>) -> Seq<Seq<char>> {
    fields.map_values(|f: FieldView| field_key(f))
}

/// The fields whose type is not `Option`-wrapped, in order.
pub open spec fn non_optional(fields: Seq<FieldView>) -> Seq<FieldView>
    decreases fields.len(),
{
    if fields.len() == 0 {
        Seq::empty()
    } else if fields.last().type_info.is_option {
        non_optional(fields.drop_last())
    } else {
        non_optional(fields.drop_last()).push(fields.last())
    }
}

/// In a record none of whose fields is skipped, the required list names
/// exactly the fields whose type is not `Option`-wrapped, in declaration
/// order: an optional field is left out, every other field is listed.
pub proof fn lemma_required_are_non_optional(fields: Seq<FieldView>)
    requires
        forall|i: int| 0 <= i < fields.len() ==> !(#[trigger] fields[i]).serde_attrs.skip,
        forall|i: int| 0 <= i < fields.len() ==> (#[trigger] fields[i]).optional == fields[i].type_info.is_option,
    ensures
        required_fields(fields) == field_keys(non_optional(fields)),
    decreases fields.len(),
{
    if fields.len() > 0 {
        let rest = fields.drop_last();
        assert forall|i: int| 0 <= i < rest.len() implies !(#[trigger] rest[i]).serde_attrs.skip by {
            assert(rest[i] == fields[i]);
        }
        assert forall|i: int| 0 <= i < rest.len() implies (#[trigger] rest[i]).optional == rest[i].type_info.is_option by {
            assert(rest[i] == fields[i]);
        }
        lemma_required_are_non_optional(rest);
        assert(fields.last() == fields[fields.len() - 1]);
        assert(field_keys(non_optional(rest).push(fields.last())) =~= field_keys(non_optional(rest)).push(field_key(fields.last())));
    } else {
        assert(field_keys(non_optional(fields)) =~= Seq::<Seq<char>>::empty());
    }
}

impl SchemaGenerator {
    /// The catalog never holds a name twice, each entry is the schema that its
    /// name's declaration gives (so emitting a type again adds nothing and
    /// changes nothing), every reference in an entry names a catalog entry or
    /// a record being built (none is, outside a generation), and the catalog
    /// never holds more entries than there are top-level record and
    /// enumeration declarations, whatever cycles those declarations form.
    pub proof fn lemma_catalog_bounded(&self)
        requires
            self.wf(),
        ensures
            names_of(self.catalog()).no_duplicates(),
            forall|i: int| 0 <= i < self.catalog().len() ==>
                catalog_entry(self.files(), #[trigger] self.catalog()[i].0) == Some(self.catalog()[i].1),
            forall|i: int| 0 <= i < self.catalog().len() ==> refs_within(#[trigger] self.catalog()[i].1, self.known()),
            self.pending().len() == 0 ==> forall|n: Seq<char>|
                #[trigger] self.known().contains(n) <==> names_of(self.catalog()).contains(n),
            self.catalog().len() <= declared_names(self.files()).len(),
    {
        let ns = names_of(self.catalog());
        assert forall|i: int| 0 <= i < ns.len() implies declared_names(self.files()).contains(#[trigger] ns[i]) by {
            assert(ns[i] == self.catalog()[i].0);
            lemma_entry_declared(self.files(), ns[i]);
        }
        lemma_distinct_declared(ns, self.files());
    }
}

} // verus!
