//! The parsed form of a source file that the analysis reads.
//!
//! A file is given as a tree of declarations and expressions, reduced to what
//! route extraction, type resolution and framework detection look at. Every
//! identifier is kept as its text; anything of no interest is kept only as the
//! nodes nested inside it, in source order, so that a walk still reaches them.
use vstd::prelude::*;

verus! {

/// A type as written in a signature or a field declaration.
pub enum TypeExpr {
    /// A path type: the identifier of its last segment and that segment's
    /// angle-bracketed generic arguments, in order.
    Path { name: String, args: Vec<TypeExpr> },
    /// `&T` or `&mut T`.
    Reference(Box<TypeExpr>),
    /// `(A, B, ...)`.
    Tuple(Vec<TypeExpr>),
    /// `impl Trait`.
    ImplTrait,
    /// A generic argument that is not a type (a lifetime, a constant, a binding).
    NonType,
    /// Any other type (array, slice, pointer, function pointer, ...).
    Other,
}

/// One argument inside an attribute's parentheses.
pub enum AttrArg {
    /// A string literal: `"/users"`.
    Lit(String),
    /// A bare identifier: `skip`.
    Flag(String),
    /// `name = "value"`.
    NameValue(String, String),
    /// Anything else.
    Other,
}

/// An outer attribute: the last segment of its path and its argument list
/// (empty when it has no parentheses).
pub struct Attribute {
    pub name: String,
    pub args: Vec<AttrArg>,
}

/// The tree of a `use` declaration.
pub enum UseTree {
    /// `ident::tree`.
    Path { ident: String, tree: Box<UseTree> },
    /// `ident`.
    Name(String),
    /// `ident as rename`.
    Rename { ident: String, rename: String },
    /// `*`.
    Glob,
    /// `{a, b, ...}`.
    Group(Vec<UseTree>),
}

/// The signature of a free function: its name, the types of its typed
/// parameters in order (a `self` receiver is not listed), and its declared
/// return type (`None` for the default `()`).
pub struct Signature {
    pub name: String,
    pub inputs: Vec<TypeExpr>,
    pub output: Option<TypeExpr>,
}

/// A named field of a record declaration.
pub struct FieldDecl {
    pub name: String,
    pub ty: TypeExpr,
    pub attrs: Vec<Attribute>,
}

/// A free function with its attributes and the nodes of its body.
pub struct ItemFn {
    pub attrs: Vec<Attribute>,
    pub sig: Signature,
    pub body: Vec<Node>,
}

/// A record declaration; only named fields are listed.
pub struct ItemStruct {
    pub name: String,
    pub fields: Vec<FieldDecl>,
}

/// An enumeration declaration with the identifiers of its variants.
pub struct ItemEnum {
    pub name: String,
    pub variants: Vec<String>,
}

pub enum Item {
    Fn(ItemFn),
    Struct(ItemStruct),
    Enum(ItemEnum),
    Use(UseTree),
    /// Any other item (impl block, module, constant, ...), with the nodes it
    /// contains.
    Other(Vec<Node>),
}

pub enum Expr {
    /// `receiver.method(args)`.
    MethodCall { receiver: Box<Expr>, method: String, args: Vec<Expr> },
    /// `func(args)`.
    Call { func: Box<Expr>, args: Vec<Expr> },
    /// A path expression, by the identifier of its last segment.
    Path(String),
    /// A string literal.
    Lit(String),
    /// Any other expression, with the nodes it contains.
    Other(Vec<Node>),
}

/// A statement-level node: an expression or a nested item.
pub enum Node {
    Expr(Expr),
    Item(Item),
}

/// The top-level items of one source file.
pub struct SourceFile {
    pub items: Vec<Item>,
}

} // verus!
