//! Resolution of type names to their declarations: primitives by a fixed
//! table, records and enumerations by searching the top-level items of every
//! file, with a cache and a guard against re-entrant resolution.
use vstd::prelude::*;
use crate::extractor::{TypeInfo, TypeView, simple_type, option_type, vec_type, type_views, lemma_type_views_index};
use crate::parser::ParsedFile;
use crate::strings::{str_eq, owned, joined, copy_strings};
use crate::syntax::{AttrArg, Attribute, FieldDecl, Item, ItemEnum, ItemStruct, TypeExpr};

verus! {

pub struct TypeResolver {
    parsed_files: Vec<ParsedFile>,
    type_cache: Vec<ResolvedType>,
    resolving_stack: Vec<String>,
}

pub struct ResolvedType {
    pub name: String,
    pub kind: TypeKind,
}

pub enum TypeKind {
    Struct(StructDef),
    Enum(EnumDef),
    Primitive(PrimitiveType),
    /// A type whose resolution is under way; the text names it.
    Generic(String),
}

pub struct StructDef {
    pub fields: Vec<FieldDef>,
}

pub struct FieldDef {
    pub name: String,
    pub type_info: TypeInfo,
    /// Whether the declared type is `Option<...>`.
    pub optional: bool,
    pub serde_attrs: SerdeAttributes,
}

pub struct EnumDef {
    pub variants: Vec<String>,
}

#[derive(Debug, Clone, Copy, PartialEq, Eq, Structural)]
pub enum PrimitiveType {
    String,
    I8,
    I16,
    I32,
    I64,
    I128,
    U8,
    U16,
    U32,
    U64,
    U128,
    F32,
    F64,
    Bool,
    Char,
}

/// The serialization flags of a field.
pub struct SerdeAttributes {
    /// The name the field is exposed under, when it differs from its own.
    pub rename: Option<String>,
    /// The field is left out of the schema.
    pub skip: bool,
    /// The field's contents are meant to be inlined in its owner.
    pub flatten: bool,
}

pub struct SerdeView {
    pub rename: Option<Seq<char>>,
    pub skip: bool,
    pub flatten: bool,
}

pub struct FieldView {
    pub name: Seq<char>,
    pub type_info: TypeView,
    pub optional: bool,
    pub serde_attrs: SerdeView,
}

pub enum KindView {
    Struct(Seq<FieldView>),
    Enum(Seq<Seq<char>>),
    Primitive(PrimitiveType),
    Generic(Seq<char>),
}

pub struct ResolvedView {
    pub name: Seq<char>,
    pub kind: KindView,
}

pub open spec fn opt_string_view(s: Option<String>) -> Option<Seq<char>> {
    match s {
        Some(x) => Some(x@),
        None => None,
    }
}

impl View for SerdeAttributes {
    type V = SerdeView;

    open spec fn view(&self) -> SerdeView {
        SerdeView { rename: opt_string_view(self.rename), skip: self.skip, flatten: self.flatten }
    }
}

impl View for FieldDef {
    type V = FieldView;

    open spec fn view(&self) -> FieldView {
        FieldView {
            name: self.name@,
            type_info: self.type_info@,
            optional: self.optional,
            serde_attrs: self.serde_attrs@,
        }
    }
}

pub open spec fn field_views(s: Seq<FieldDef>) -> Seq<FieldView> {
    s.map_values(|f: FieldDef| f@)
}

pub open spec fn text_views(s: Seq<String>) -> Seq<Seq<char>> {
    s.map_values(|x: String| x@)
}

impl View for ResolvedType {
    type V = ResolvedView;

    open spec fn view(&self) -> ResolvedView {
        ResolvedView {
            name: self.name@,
            kind: match self.kind {
                TypeKind::Struct(d) => KindView::Struct(field_views(d.fields@)),
                TypeKind::Enum(d) => KindView::Enum(text_views(d.variants@)),
                TypeKind::Primitive(p) => KindView::Primitive(p),
                TypeKind::Generic(g) => KindView::Generic(g@),
            },
        }
    }
}

pub open spec fn opt_resolved_view(r: Option<ResolvedType>) -> Option<ResolvedView> {
    match r {
        Some(x) => Some(x@),
        None => None,
    }
}

/// The primitive that a type name denotes.
pub open spec fn primitive_named(n: Seq<char>) -> Option<PrimitiveType> {
    if n == "String"@ || n == "str"@ {
        Some(PrimitiveType::String)
    } else if n == "i8"@ {
        Some(PrimitiveType::I8)
    } else if n == "i16"@ {
        Some(PrimitiveType::I16)
    } else if n == "i32"@ {
        Some(PrimitiveType::I32)
    } else if n == "i64"@ {
        Some(PrimitiveType::I64)
    } else if n == "i128"@ {
        Some(PrimitiveType::I128)
    } else if n == "u8"@ {
        Some(PrimitiveType::U8)
    } else if n == "u16"@ {
        Some(PrimitiveType::U16)
    } else if n == "u32"@ {
        Some(PrimitiveType::U32)
    } else if n == "u64"@ {
        Some(PrimitiveType::U64)
    } else if n == "u128"@ {
        Some(PrimitiveType::U128)
    } else if n == "f32"@ {
        Some(PrimitiveType::F32)
    } else if n == "f64"@ {
        Some(PrimitiveType::F64)
    } else if n == "bool"@ {
        Some(PrimitiveType::Bool)
    } else if n == "char"@ {
        Some(PrimitiveType::Char)
    } else {
        None
    }
}

/// The primitive that a type name denotes.
pub fn parse_primitive_type(n: &str) -> (r: Option<PrimitiveType>)
    ensures
        r == primitive_named(n@),
{
    if str_eq(n, "String") || str_eq(n, "str") {
        Some(PrimitiveType::String)
    } else if str_eq(n, "i8") {
        Some(PrimitiveType::I8)
    } else if str_eq(n, "i16") {
        Some(PrimitiveType::I16)
    } else if str_eq(n, "i32") {
        Some(PrimitiveType::I32)
    } else if str_eq(n, "i64") {
        Some(PrimitiveType::I64)
    } else if str_eq(n, "i128") {
        Some(PrimitiveType::I128)
    } else if str_eq(n, "u8") {
        Some(PrimitiveType::U8)
    } else if str_eq(n, "u16") {
        Some(PrimitiveType::U16)
    } else if str_eq(n, "u32") {
        Some(PrimitiveType::U32)
    } else if str_eq(n, "u64") {
        Some(PrimitiveType::U64)
    } else if str_eq(n, "u128") {
        Some(PrimitiveType::U128)
    } else if str_eq(n, "f32") {
        Some(PrimitiveType::F32)
    } else if str_eq(n, "f64") {
        Some(PrimitiveType::F64)
    } else if str_eq(n, "bool") {
        Some(PrimitiveType::Bool)
    } else if str_eq(n, "char") {
        Some(PrimitiveType::Char)
    } else {
        None
    }
}

/// The description of a field's declared type: `Option` and `Vec` are
/// unwrapped, other generic type arguments are kept, and a type that is not a
/// path is `Unknown`.
pub open spec fn field_type(t: TypeExpr) -> TypeView
    decreases t,
{
    match t {
        TypeExpr::Path { name, args } => {
            if name@ == "Option"@ && args@.len() > 0 && !(args@[0] is NonType) {
                option_type(field_type(args@[0]))
            } else if name@ == "Vec"@ && args@.len() > 0 && !(args@[0] is NonType) {
                vec_type(field_type(args@[0]))
            } else {
                let gs = field_types(args@);
                TypeView { name: name@, is_generic: gs.len() > 0, args: gs, is_option: false, is_vec: false }
            }
        },
        _ => simple_type("Unknown"@),
    }
}

/// The descriptions of the type arguments among `args`.
pub open spec fn field_types(args: Seq<TypeExpr>) -> Seq<TypeView>
    decreases args,
{
    if args.len() == 0 {
        Seq::empty()
    } else {
        let rest = field_types(args.drop_last());
        if args.last() is NonType {
            rest
        } else {
            rest.push(field_type(args.last()))
        }
    }
}

/// Describes a field's declared type.
pub fn field_type_of(t: &TypeExpr) -> (r: TypeInfo)
    ensures
        r@ == field_type(*t),
    decreases t,
{
    match t {
        TypeExpr::Path { name, args } => {
            let first_is_type = args.len() > 0 && !(matches!(&args[0], TypeExpr::NonType));
            if first_is_type && str_eq(name.as_str(), "Option") {
                proof {
                    assert(decreases_to!(*t => *args));
                }
                return TypeInfo::option(field_type_of(&args[0]));
            }
            if first_is_type && str_eq(name.as_str(), "Vec") {
                proof {
                    assert(decreases_to!(*t => *args));
                }
                return TypeInfo::vec(field_type_of(&args[0]));
            }
            let mut gs: Vec<TypeInfo> = Vec::new();
            let mut i: usize = 0;
            proof {
                assert(args@.subrange(0, 0) =~= Seq::<TypeExpr>::empty());
                assert(type_views(gs@) =~= Seq::<TypeView>::empty());
            }
            while i < args.len()
                invariant
                    i <= args.len(),
                    *t == (TypeExpr::Path { name: *name, args: *args }),
                    type_views(gs@) == field_types(args@.subrange(0, i as int)),
                decreases args.len() - i,
            {
                proof {
                    let sub = args@.subrange(0, i + 1);
                    assert(sub.drop_last() == args@.subrange(0, i as int));
                    assert(sub.last() == args@[i as int]);
                    assert(decreases_to!(*t => t->args));
                    assert(decreases_to!(t->args => t->args@));
                    assert(decreases_to!(t->args@ => t->args@[i as int]));
                }
                match &args[i] {
                    TypeExpr::NonType => {},
                    a => {
                        let g = field_type_of(a);
                        let ghost prev = gs@;
                        gs.push(g);
                        proof {
                            assert(gs@.drop_last() == prev);
                            assert(gs@.last() == g);
                        }
                    },
                }
                i = i + 1;
            }
            proof {
                assert(args@.subrange(0, i as int) == args@);
            }
            let is_generic = gs.len() > 0;
            TypeInfo { name: name.clone(), is_generic, generic_args: gs, is_option: false, is_vec: false }
        },
        _ => TypeInfo::new(owned("Unknown")),
    }
}

/// The flags that the arguments of one `serde(...)` attribute set, applied
/// over `flags`.
pub open spec fn serde_args(args: Seq<AttrArg>, flags: SerdeView) -> SerdeView
    decreases args.len(),
{
    if args.len() == 0 {
        flags
    } else {
        let f = serde_args(args.drop_last(), flags);
        match args.last() {
            AttrArg::NameValue(k, v) => if k@ == "rename"@ { SerdeView { rename: Some(v@), ..f } } else { f },
            AttrArg::Flag(k) => if k@ == "skip"@ {
                SerdeView { skip: true, ..f }
            } else if k@ == "flatten"@ {
                SerdeView { flatten: true, ..f }
            } else {
                f
            },
            _ => f,
        }
    }
}

/// The flags that a field's `serde(...)` attributes set: `rename = "..."`
/// (the last one wins), `skip`, `flatten`. Other attributes and other serde
/// arguments (such as `skip_serializing_if`) set nothing.
pub open spec fn serde_of(attrs: Seq<Attribute>) -> SerdeView
    decreases attrs.len(),
{
    if attrs.len() == 0 {
        SerdeView { rename: None, skip: false, flatten: false }
    } else {
        let f = serde_of(attrs.drop_last());
        if attrs.last().name@ == "serde"@ {
            serde_args(attrs.last().args@, f)
        } else {
            f
        }
    }
}

/// Reads the serialization flags of a field from its attributes.
pub fn parse_serde_attributes(attrs: &Vec<Attribute>) -> (r: SerdeAttributes)
    ensures
        r@ == serde_of(attrs@),
{
    let mut out = SerdeAttributes { rename: None, skip: false, flatten: false };
    let mut i: usize = 0;
    proof {
        assert(attrs@.subrange(0, 0) =~= Seq::<Attribute>::empty());
    }
    while i < attrs.len()
        invariant
            i <= attrs.len(),
            out@ == serde_of(attrs@.subrange(0, i as int)),
        decreases attrs.len() - i,
    {
        proof {
            let sub = attrs@.subrange(0, i + 1);
            assert(sub.drop_last() == attrs@.subrange(0, i as int));
            assert(sub.last() == attrs@[i as int]);
        }
        let a = &attrs[i];
        if str_eq(a.name.as_str(), "serde") {
            let ghost start = out@;
            let mut j: usize = 0;
            proof {
                assert(a.args@.subrange(0, 0) =~= Seq::<AttrArg>::empty());
            }
            while j < a.args.len()
                invariant
                    j <= a.args.len(),
                    out@ == serde_args(a.args@.subrange(0, j as int), start),
                decreases a.args.len() - j,
            {
                proof {
                    let sub = a.args@.subrange(0, j + 1);
                    assert(sub.drop_last() == a.args@.subrange(0, j as int));
                    assert(sub.last() == a.args@[j as int]);
                }
                match &a.args[j] {
                    AttrArg::NameValue(k, v) => {
                        if str_eq(k.as_str(), "rename") {
                            out.rename = Some(v.clone());
                        }
                    },
                    AttrArg::Flag(k) => {
                        if str_eq(k.as_str(), "skip") {
                            out.skip = true;
                        } else if str_eq(k.as_str(), "flatten") {
                            out.flatten = true;
                        }
                    },
                    _ => {},
                }
                j = j + 1;
            }
            proof {
                assert(a.args@.subrange(0, j as int) == a.args@);
            }
        }
        i = i + 1;
    }
    proof {
        assert(attrs@.subrange(0, i as int) == attrs@);
    }
    out
}

pub open spec fn field_of(f: FieldDecl) -> FieldView {
    FieldView {
        name: f.name@,
        type_info: field_type(f.ty),
        optional: field_type(f.ty).is_option,
        serde_attrs: serde_of(f.attrs@),
    }
}

/// The resolution of a record declaration.
pub open spec fn struct_view(s: ItemStruct) -> ResolvedView {
    ResolvedView { name: s.name@, kind: KindView::Struct(s.fields@.map_values(|f: FieldDecl| field_of(f))) }
}

/// The resolution of an enumeration declaration.
pub open spec fn enum_view(e: ItemEnum) -> ResolvedView {
    ResolvedView { name: e.name@, kind: KindView::Enum(text_views(e.variants@)) }
}

fn parse_field(f: &FieldDecl) -> (r: FieldDef)
    ensures
        r@ == field_of(*f),
{
    let type_info = field_type_of(&f.ty);
    let optional = type_info.is_option;
    FieldDef { name: f.name.clone(), type_info, optional, serde_attrs: parse_serde_attributes(&f.attrs) }
}

fn parse_struct_definition(s: &ItemStruct) -> (r: ResolvedType)
    ensures
        r@ == struct_view(*s),
{
    let mut fields: Vec<FieldDef> = Vec::new();
    let mut i: usize = 0;
    let ghost target = s.fields@.map_values(|f: FieldDecl| field_of(f));
    while i < s.fields.len()
        invariant
            i <= s.fields.len(),
            target == s.fields@.map_values(|f: FieldDecl| field_of(f)),
            field_views(fields@) == target.subrange(0, i as int),
        decreases s.fields.len() - i,
    {
        let fd = parse_field(&s.fields[i]);
        let ghost prev = fields@;
        fields.push(fd);
        proof {
            assert(field_views(fields@) =~= field_views(prev).push(fd@));
            assert(target[i as int] == field_of(s.fields@[i as int]));
            assert(field_views(fields@) =~= target.subrange(0, i + 1));
        }
        i = i + 1;
    }
    proof {
        assert(field_views(fields@) =~= target);
    }
    ResolvedType { name: s.name.clone(), kind: TypeKind::Struct(StructDef { fields }) }
}

fn parse_enum_definition(e: &ItemEnum) -> (r: ResolvedType)
    ensures
        r@ == enum_view(*e),
{
    ResolvedType { name: e.name.clone(), kind: TypeKind::Enum(EnumDef { variants: copy_strings(&e.variants) }) }
}

/// The first record declared under `name` among the top-level items of
/// `items`.
pub open spec fn struct_in_items(items: Seq<Item>, name: Seq<char>) -> Option<ItemStruct>
    decreases items.len(),
{
    if items.len() == 0 {
        None
    } else {
        match items[0] {
            Item::Struct(s) => if s.name@ == name { Some(s) } else { struct_in_items(items.drop_first(), name) },
            _ => struct_in_items(items.drop_first(), name),
        }
    }
}

/// The first record declared under `name` at the top level of a file, the
/// files searched in order.
pub open spec fn find_struct(files: Seq<ParsedFile>, name: Seq<char>) -> Option<ItemStruct>
    decreases files.len(),
{
    if files.len() == 0 {
        None
    } else {
        match struct_in_items(files[0].syntax_tree.items@, name) {
            Some(s) => Some(s),
            None => find_struct(files.drop_first(), name),
        }
    }
}

pub open spec fn enum_in_items(items: Seq<Item>, name: Seq<char>) -> Option<ItemEnum>
    decreases items.len(),
{
    if items.len() == 0 {
        None
    } else {
        match items[0] {
            Item::Enum(e) => if e.name@ == name { Some(e) } else { enum_in_items(items.drop_first(), name) },
            _ => enum_in_items(items.drop_first(), name),
        }
    }
}

/// The first enumeration declared under `name` at the top level of a file.
pub open spec fn find_enum(files: Seq<ParsedFile>, name: Seq<char>) -> Option<ItemEnum>
    decreases files.len(),
{
    if files.len() == 0 {
        None
    } else {
        match enum_in_items(files[0].syntax_tree.items@, name) {
            Some(e) => Some(e),
            None => find_enum(files.drop_first(), name),
        }
    }
}

/// What a type name resolves to in `files`: a primitive, else the first
/// record declared under that name, else the first enumeration, else nothing.
pub open spec fn resolve_spec(files: Seq<ParsedFile>, name: Seq<char>) -> Option<ResolvedView> {
    match primitive_named(name) {
        Some(p) => Some(ResolvedView { name, kind: KindView::Primitive(p) }),
        None => match find_struct(files, name) {
            Some(s) => Some(struct_view(s)),
            None => match find_enum(files, name) {
                Some(e) => Some(enum_view(e)),
                None => None,
            },
        },
    }
}

/// The placeholder returned for a name whose resolution is under way.
pub open spec fn placeholder(name: Seq<char>) -> ResolvedView {
    ResolvedView { name, kind: KindView::Generic("CircularRef<"@ + name + ">"@) }
}

proof fn lemma_struct_name(items: Seq<Item>, name: Seq<char>)
    ensures
        struct_in_items(items, name) matches Some(s) ==> s.name@ == name,
        enum_in_items(items, name) matches Some(e) ==> e.name@ == name,
    decreases items.len(),
{
    if items.len() > 0 {
        lemma_struct_name(items.drop_first(), name);
    }
}

proof fn lemma_found_name(files: Seq<ParsedFile>, name: Seq<char>)
    ensures
        find_struct(files, name) matches Some(s) ==> s.name@ == name,
        find_enum(files, name) matches Some(e) ==> e.name@ == name,
    decreases files.len(),
{
    if files.len() > 0 {
        lemma_struct_name(files[0].syntax_tree.items@, name);
        lemma_found_name(files.drop_first(), name);
    }
}

impl SerdeAttributes {
    pub fn duplicate(&self) -> (r: Self)
        ensures
            r@ == self@,
    {
        let rename = match &self.rename {
            Some(x) => Some(x.clone()),
            None => None,
        };
        SerdeAttributes { rename, skip: self.skip, flatten: self.flatten }
    }
}

impl FieldDef {
    pub fn duplicate(&self) -> (r: Self)
        ensures
            r@ == self@,
    {
        FieldDef {
            name: self.name.clone(),
            type_info: self.type_info.duplicate(),
            optional: self.optional,
            serde_attrs: self.serde_attrs.duplicate(),
        }
    }
}

impl ResolvedType {
    pub fn duplicate(&self) -> (r: Self)
        ensures
            r@ == self@,
    {
        let kind = match &self.kind {
            TypeKind::Struct(d) => {
                let mut fields: Vec<FieldDef> = Vec::new();
                let mut i: usize = 0;
                while i < d.fields.len()
                    invariant
                        i <= d.fields.len(),
                        field_views(fields@) == field_views(d.fields@).subrange(0, i as int),
                    decreases d.fields.len() - i,
                {
                    let f = d.fields[i].duplicate();
                    let ghost prev = fields@;
                    fields.push(f);
                    proof {
                        assert(field_views(fields@) =~= field_views(prev).push(f@));
                        assert(field_views(fields@) =~= field_views(d.fields@).subrange(0, i + 1));
                    }
                    i = i + 1;
                }
                proof {
                    assert(field_views(fields@) =~= field_views(d.fields@));
                }
                TypeKind::Struct(StructDef { fields })
            },
            TypeKind::Enum(d) => TypeKind::Enum(EnumDef { variants: copy_strings(&d.variants) }),
            TypeKind::Primitive(p) => TypeKind::Primitive(*p),
            TypeKind::Generic(g) => TypeKind::Generic(g.clone()),
        };
        ResolvedType { name: self.name.clone(), kind }
    }
}

impl TypeResolver {
    /// The files that names are resolved against.
    pub closed spec fn files(&self) -> Seq<ParsedFile> {
        self.parsed_files@
    }

    /// The names whose resolutions are cached, in order of caching.
    pub closed spec fn cached_names(&self) -> Seq<Seq<char>> {
        self.type_cache@.map_values(|c: ResolvedType| c.name@)
    }

    /// Whether a resolution of `name` is cached.
    pub closed spec fn caches(&self, name: Seq<char>) -> bool {
        exists|i: int| 0 <= i < self.type_cache@.len() && #[trigger] self.type_cache@[i].name@ == name
    }

    /// Whether a resolution of `name` is under way.
    pub closed spec fn resolving(&self, name: Seq<char>) -> bool {
        exists|i: int| 0 <= i < self.resolving_stack@.len() && #[trigger] self.resolving_stack@[i]@ == name
    }

    /// Every cached resolution is the resolution of its name.
    pub closed spec fn wf(&self) -> bool {
        forall|i: int| 0 <= i < self.type_cache@.len() ==>
            resolve_spec(self.parsed_files@, #[trigger] self.type_cache@[i].name@) == Some(self.type_cache@[i]@)
    }

    /// What `resolve_type(name)` gives: the placeholder while a resolution of
    /// `name` that is not yet cached is under way, else the resolution itself.
    pub open spec fn resolution(&self, name: Seq<char>) -> Option<ResolvedView> {
        if !self.caches(name) && self.resolving(name) {
            Some(placeholder(name))
        } else {
            resolve_spec(self.files(), name)
        }
    }

    pub fn new(parsed_files: Vec<ParsedFile>) -> (r: Self)
        ensures
            r.wf(),
            r.files() == parsed_files@,
            forall|n: Seq<char>| !r.resolving(n),
    {
        TypeResolver { parsed_files, type_cache: Vec::new(), resolving_stack: Vec::new() }
    }

    /// The first record declared under `name` at the top level of a file.
    pub fn find_struct_definition(&self, name: &str) -> (r: Option<&ItemStruct>)
        ensures
            match r {
                Some(s) => find_struct(self.files(), name@) == Some(*s),
                None => find_struct(self.files(), name@) is None,
            },
    {
        let files = &self.parsed_files;
        let mut k: usize = 0;
        proof {
            assert(files@.subrange(0, files@.len() as int) == files@);
        }
        while k < files.len()
            invariant
                k <= files.len(),
                files@ == self.parsed_files@,
                find_struct(files@, name@) == find_struct(files@.subrange(k as int, files@.len() as int), name@),
            decreases files.len() - k,
        {
            let ghost rest = files@.subrange(k as int, files@.len() as int);
            proof {
                assert(rest[0] == files@[k as int]);
                assert(rest.drop_first() == files@.subrange(k + 1, files@.len() as int));
            }
            let items = &files[k].syntax_tree.items;
            let mut i: usize = 0;
            proof {
                assert(items@.subrange(0, items@.len() as int) == items@);
            }
            let ghost after = files@.subrange(k + 1, files@.len() as int);
            while i < items.len()
                invariant
                    i <= items.len(),
                    files@ == self.parsed_files@,
                    find_struct(files@, name@) == (match struct_in_items(items@, name@) {
                        Some(x) => Some(x),
                        None => find_struct(after, name@),
                    }),
                    struct_in_items(items@, name@) == struct_in_items(items@.subrange(i as int, items@.len() as int), name@),
                decreases items.len() - i,
            {
                let ghost its = items@.subrange(i as int, items@.len() as int);
                proof {
                    assert(its[0] == items@[i as int]);
                    assert(its.drop_first() == items@.subrange(i + 1, items@.len() as int));
                }
                match &items[i] {
                    Item::Struct(st) => {
                        if str_eq(st.name.as_str(), name) {
                            proof {
                                assert(its[0] == Item::Struct(*st));
                                assert(struct_in_items(its, name@) == Some(*st));
                            }
                            return Some(st);
                        }
                    },
                    _ => {},
                }
                i = i + 1;
            }
            proof {
                assert(items@.subrange(i as int, items@.len() as int) =~= Seq::<Item>::empty());
            }
            k = k + 1;
        }
        proof {
            assert(files@.subrange(k as int, files@.len() as int) =~= Seq::<ParsedFile>::empty());
        }
        None
    }

    /// The first enumeration declared under `name` at the top level of a file.
    pub fn find_enum_definition(&self, name: &str) -> (r: Option<&ItemEnum>)
        ensures
            match r {
                Some(e) => find_enum(self.files(), name@) == Some(*e),
                None => find_enum(self.files(), name@) is None,
            },
    {
        let files = &self.parsed_files;
        let mut k: usize = 0;
        proof {
            assert(files@.subrange(0, files@.len() as int) == files@);
        }
        while k < files.len()
            invariant
                k <= files.len(),
                files@ == self.parsed_files@,
                find_enum(files@, name@) == find_enum(files@.subrange(k as int, files@.len() as int), name@),
            decreases files.len() - k,
        {
            let ghost rest = files@.subrange(k as int, files@.len() as int);
            proof {
                assert(rest[0] == files@[k as int]);
                assert(rest.drop_first() == files@.subrange(k + 1, files@.len() as int));
            }
            let items = &files[k].syntax_tree.items;
            let mut i: usize = 0;
            proof {
                assert(items@.subrange(0, items@.len() as int) == items@);
            }
            let ghost after = files@.subrange(k + 1, files@.len() as int);
            while i < items.len()
                invariant
                    i <= items.len(),
                    files@ == self.parsed_files@,
                    find_enum(files@, name@) == (match enum_in_items(items@, name@) {
                        Some(x) => Some(x),
                        None => find_enum(after, name@),
                    }),
                    enum_in_items(items@, name@) == enum_in_items(items@.subrange(i as int, items@.len() as int), name@),
                decreases items.len() - i,
            {
                let ghost its = items@.subrange(i as int, items@.len() as int);
                proof {
                    assert(its[0] == items@[i as int]);
                    assert(its.drop_first() == items@.subrange(i + 1, items@.len() as int));
                }
                match &items[i] {
                    Item::Enum(en) => {
                        if str_eq(en.name.as_str(), name) {
                            proof {
                                assert(its[0] == Item::Enum(*en));
                                assert(enum_in_items(its, name@) == Some(*en));
                            }
                            return Some(en);
                        }
                    },
                    _ => {},
                }
                i = i + 1;
            }
            proof {
                assert(items@.subrange(i as int, items@.len() as int) =~= Seq::<Item>::empty());
            }
            k = k + 1;
        }
        proof {
            assert(files@.subrange(k as int, files@.len() as int) =~= Seq::<ParsedFile>::empty());
        }
        None
    }

    fn cached(&self, name: &str) -> (r: Option<ResolvedType>)
        requires
            self.wf(),
        ensures
            r is Some <==> self.caches(name@),
            r matches Some(x) ==> resolve_spec(self.files(), name@) == Some(x@),
    {
        let mut i: usize = 0;
        while i < self.type_cache.len()
            invariant
                i <= self.type_cache.len(),
                self.wf(),
                forall|j: int| 0 <= j < i ==> self.type_cache@[j].name@ != name@,
            decreases self.type_cache.len() - i,
        {
            if str_eq(self.type_cache[i].name.as_str(), name) {
                proof {
                    assert(resolve_spec(self.parsed_files@, self.type_cache@[i as int].name@) == Some(self.type_cache@[i as int]@));
                }
                return Some(self.type_cache[i].duplicate());
            }
            i = i + 1;
        }
        None
    }

    fn guarding(&self, name: &str) -> (r: bool)
        ensures
            r == self.resolving(name@),
    {
        let mut i: usize = 0;
        while i < self.resolving_stack.len()
            invariant
                i <= self.resolving_stack.len(),
                forall|j: int| 0 <= j < i ==> self.resolving_stack@[j]@ != name@,
            decreases self.resolving_stack.len() - i,
        {
            if str_eq(self.resolving_stack[i].as_str(), name) {
                return true;
            }
            i = i + 1;
        }
        false
    }

    fn remember(&mut self, r: &ResolvedType)
        requires
            old(self).wf(),
            resolve_spec(old(self).files(), r.name@) == Some(r@),
        ensures
            final(self).wf(),
            final(self).files() == old(self).files(),
            final(self).resolving_stack@ == old(self).resolving_stack@,
            final(self).caches(r.name@),
            forall|n: Seq<char>| old(self).caches(n) ==> final(self).caches(n),
            final(self).cached_names() == old(self).cached_names().push(r.name@),
    {
        let ghost n0 = self.type_cache@.len();
        self.type_cache.push(r.duplicate());
        proof {
            assert(self.cached_names() =~= old(self).cached_names().push(r.name@));
            assert(self.type_cache@[n0 as int].name@ == r.name@);
            assert forall|n: Seq<char>| old(self).caches(n) implies self.caches(n) by {
                let i = choose|i: int| 0 <= i < old(self).type_cache@.len() && #[trigger] old(self).type_cache@[i].name@ == n;
                assert(self.type_cache@[i] == old(self).type_cache@[i]);
            }
        }
    }

    /// Resolves a type name, caching what it finds.
    pub fn resolve_type(&mut self, name: &str) -> (r: Option<ResolvedType>)
        requires
            old(self).wf(),
        ensures
            final(self).wf(),
            final(self).files() == old(self).files(),
            forall|n: Seq<char>| final(self).resolving(n) == old(self).resolving(n),
            forall|n: Seq<char>| old(self).caches(n) ==> final(self).caches(n),
            opt_resolved_view(r) == old(self).resolution(name@),
            r is Some && !(old(self).resolving(name@) && !old(self).caches(name@)) ==> final(self).caches(name@),
            old(self).caches(name@) || old(self).resolving(name@) || r is None
                ==> final(self).cached_names() == old(self).cached_names(),
            !old(self).caches(name@) && !old(self).resolving(name@) && r is Some
                ==> final(self).cached_names() == old(self).cached_names().push(name@),
    {
        if let Some(c) = self.cached(name) {
            return Some(c);
        }
        if self.guarding(name) {
            let a = joined("CircularRef<", name);
            let text = joined(a.as_str(), ">");
            return Some(ResolvedType { name: owned(name), kind: TypeKind::Generic(text) });
        }
        self.resolving_stack.push(owned(name));
        proof {
            assert forall|n: Seq<char>| old(self).caches(n) implies self.caches(n) by {
                let i = choose|i: int| 0 <= i < old(self).type_cache@.len() && #[trigger] old(self).type_cache@[i].name@ == n;
                assert(self.type_cache@[i].name@ == n);
            }
        }
        let result = match parse_primitive_type(name) {
            Some(p) => Some(ResolvedType { name: owned(name), kind: TypeKind::Primitive(p) }),
            None => {
                proof {
                    lemma_found_name(self.parsed_files@, name@);
                }
                match self.find_struct_definition(name) {
                    Some(st) => Some(parse_struct_definition(st)),
                    None => match self.find_enum_definition(name) {
                        Some(en) => Some(parse_enum_definition(en)),
                        None => None,
                    },
                }
            },
        };
        match &result {
            Some(x) => {
                self.remember(x);
            },
            None => {},
        }
        let ghost mid = self.type_cache@;
        self.resolving_stack.pop();
        proof {
            assert(self.resolving_stack@ =~= old(self).resolving_stack@);
            assert(self.type_cache@ == mid);
            if result is None {
                assert(self.type_cache@ == old(self).type_cache@);
            }
        }
        result
    }

    /// Resolves the name of `type_info` (unless it is a primitive) and,
    /// recursively, of each of its generic arguments, so that they are cached.
    pub fn resolve_nested_types(&mut self, type_info: &TypeInfo)
        requires
            old(self).wf(),
        ensures
            final(self).wf(),
            final(self).files() == old(self).files(),
            forall|n: Seq<char>| final(self).resolving(n) == old(self).resolving(n),
            forall|n: Seq<char>| old(self).caches(n) ==> final(self).caches(n),
            forall|n: Seq<char>|
                #[trigger] mentions(type_info@, n) && primitive_named(n) is None
                    && resolve_spec(old(self).files(), n) is Some && !old(self).resolving(n)
                    ==> final(self).caches(n),
        decreases type_info,
    {
        proof {
            lemma_type_views_index(type_info.generic_args@);
        }
        if parse_primitive_type(type_info.name.as_str()).is_none() {
            self.resolve_type(type_info.name.as_str());
        }
        let ghost t = type_info@;
        let mut i: usize = 0;
        while i < type_info.generic_args.len()
            invariant
                i <= type_info.generic_args.len(),
                t == type_info@,
                t.args.len() == type_info.generic_args@.len(),
                forall|j: int| 0 <= j < t.args.len() ==> #[trigger] t.args[j] == type_info.generic_args@[j]@,
                self.wf(),
                self.files() == old(self).files(),
                forall|n: Seq<char>| self.resolving(n) == old(self).resolving(n),
                forall|n: Seq<char>| old(self).caches(n) ==> self.caches(n),
                forall|n: Seq<char>|
                    primitive_named(n) is None && resolve_spec(old(self).files(), n) is Some && !old(self).resolving(n)
                    && (t.name == n || mentions_any(t.args.subrange(0, i as int), n))
                    ==> #[trigger] self.caches(n),
            decreases type_info.generic_args.len() - i,
        {
            proof {
                assert(decreases_to!(*type_info => type_info.generic_args));
            }
            self.resolve_nested_types(&type_info.generic_args[i]);
            proof {
                let sub = t.args.subrange(0, i + 1);
                assert(sub.drop_last() == t.args.subrange(0, i as int));
                assert(sub.last() == type_info.generic_args@[i as int]@);
                assert forall|n: Seq<char>|
                    primitive_named(n) is None && resolve_spec(old(self).files(), n) is Some && !old(self).resolving(n)
                    && (t.name == n || mentions_any(sub, n))
                    implies #[trigger] self.caches(n) by {
                    if mentions(type_info.generic_args@[i as int]@, n) {
                    }
                }
            }
            i = i + 1;
        }
        proof {
            assert(t.args.subrange(0, i as int) == t.args);
        }
    }
}


/// Whether `n` names `t` or one of its generic arguments, at any depth.
pub open spec fn mentions(t: TypeView, n: Seq<char>) -> bool
    decreases t,
{
    t.name == n || mentions_any(t.args, n)
}

/// Whether `n` is mentioned by one of `ts`.
pub open spec fn mentions_any(ts: Seq<TypeView>, n: Seq<char>) -> bool
    decreases ts,
{
    ts.len() > 0 && (mentions_any(ts.drop_last(), n) || mentions(ts.last(), n))
}

/// Within one session a name resolves the same way every time: what
/// `resolve_type` returns depends only on the files, which resolving never
/// changes, so two resolutions of a name not under way are equal.
pub proof fn lemma_resolution_repeatable(first: &TypeResolver, second: &TypeResolver, name: Seq<char>)
    requires
        first.files() == second.files(),
        !first.resolving(name),
        !second.resolving(name),
    ensures
        first.resolution(name) == second.resolution(name),
        first.resolution(name) == resolve_spec(first.files(), name),
{
}

} // verus!
