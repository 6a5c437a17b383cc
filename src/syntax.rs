//! A plain-value model of a struct declaration, as far as the two
//! transformations read it: field names, field types, and the entries of
//! each field's annotations.
use vstd::prelude::*;

verus! {

/// A field's type: a (possibly qualified) path such as `std::vec::Vec<String>`,
/// or any other form (reference, tuple, array, function type, ...).
#[derive(Debug, PartialEq, Eq)]
pub enum TypeExpr {
    Path { segments: Vec<PathSegment> },
    Other,
}

/// One segment of a type path: its identifier and what follows it.
#[derive(Debug, PartialEq, Eq)]
pub struct PathSegment {
    pub ident: String,
    pub arguments: PathArguments,
}

/// The arguments written after a path segment.
#[derive(Debug, PartialEq, Eq)]
pub enum PathArguments {
    Empty,
    AngleBracketed { args: Vec<GenericArgument> },
    Parenthesized,
}

/// One argument between angle brackets: a type, or anything else
/// (a lifetime, a constant, an associated-type binding).
#[derive(Debug, PartialEq, Eq)]
pub enum GenericArgument {
    Type(TypeExpr),
    Other,
}

/// The four keys that the prefix rewriter namespaces.
#[derive(PartialEq, Eq, Structural, Clone, Copy, Debug)]
pub enum ClapArgIdent {
    Id,
    Long,
    Env,
    ValueName,
}

/// The value of a `key = value` entry: its source text, and the string it
/// denotes when it is a string literal.
#[derive(Debug, PartialEq, Eq, Clone)]
pub struct Value {
    pub text: String,
    pub str_lit: Option<String>,
}

/// One comma-separated entry of an annotation's argument list.
/// `key` is the entry's leading identifier when its path is a single identifier;
/// `text` is the entry as written.
#[derive(Debug, PartialEq, Eq, Clone)]
pub enum Entry {
    /// A bare path, such as `long`.
    Path { key: Option<String>, text: String },
    /// `key = value`, as written in the source.
    NameValue { key: Option<String>, value: Value, text: String },
    /// A nested list, such as `group(...)`.
    List { key: Option<String>, text: String },
    /// `key = "value"`, built by this library.
    Generated { key: ClapArgIdent, value: String },
}

/// What stands after an annotation's path.
#[derive(Debug, PartialEq, Eq, Clone)]
pub enum AttrArgs {
    /// A parenthesized list whose entries were read.
    List { entries: Vec<Entry> },
    /// A parenthesized list that does not read as comma-separated entries;
    /// `message` says why.
    Unparsed { message: String },
    /// No list at all (`#[arg]` or `#[arg = ...]`).
    NotList,
}

/// One annotation of a field. `path_ident` is its path when that is a single
/// identifier.
#[derive(Debug, PartialEq, Eq, Clone)]
pub struct Attribute {
    pub path_ident: Option<String>,
    pub args: AttrArgs,
}

/// A field: its name (none for a tuple field), its type, the type's source
/// text, and its annotations in order.
#[derive(Debug, PartialEq, Eq)]
pub struct FieldDecl {
    pub name: Option<String>,
    pub ty: TypeExpr,
    pub ty_text: String,
    pub attrs: Vec<Attribute>,
}

/// A struct declaration: its name and its fields in order.
#[derive(Debug, PartialEq, Eq)]
pub struct StructDecl {
    pub name: String,
    pub fields: Vec<FieldDecl>,
}

/// Why a transformation refused a declaration. `field` is the index of the
/// field concerned.
#[derive(Debug, PartialEq, Eq, Clone)]
pub enum GenError {
    /// The field has no name (a tuple field).
    MissingFieldName { field: usize },
    /// An `arg` annotation's list does not read as entries.
    MalformedArgs { field: usize, message: String },
    /// An `arg` annotation has no parenthesized list.
    ExpectedArgList { field: usize },
    /// A piece of a list default does not parse as an expression.
    BadListElement { field: usize, piece: String },
}

pub ghost struct ValueView {
    pub text: Seq<char>,
    pub str_lit: Option<Seq<char>>,
}

pub ghost enum EntryView {
    Path { key: Option<Seq<char>>, text: Seq<char> },
    NameValue { key: Option<Seq<char>>, value: ValueView, text: Seq<char> },
    List { key: Option<Seq<char>>, text: Seq<char> },
    Generated { key: ClapArgIdent, value: Seq<char> },
}

pub ghost enum AttrArgsView {
    List { entries: Seq<EntryView> },
    Unparsed { message: Seq<char> },
    NotList,
}

pub ghost struct AttributeView {
    pub path_ident: Option<Seq<char>>,
    pub args: AttrArgsView,
}

pub ghost struct FieldView {
    pub name: Option<Seq<char>>,
    pub ty: TypeExpr,
    pub ty_text: Seq<char>,
    pub attrs: Seq<AttributeView>,
}

pub ghost struct StructView {
    pub name: Seq<char>,
    pub fields: Seq<FieldView>,
}

pub ghost enum GenErrorView {
    MissingFieldName { field: int },
    MalformedArgs { field: int, message: Seq<char> },
    ExpectedArgList { field: int },
    BadListElement { field: int, piece: Seq<char> },
}

pub open spec fn opt_view(o: Option<String>) -> Option<Seq<char>> {
    match o {
        Some(s) => Some(s@),
        None => None,
    }
}

impl View for Value {
    type V = ValueView;

    open spec fn view(&self) -> ValueView {
        ValueView { text: self.text@, str_lit: opt_view(self.str_lit) }
    }
}

impl View for Entry {
    type V = EntryView;

    open spec fn view(&self) -> EntryView {
        match self {
            Entry::Path { key, text } => EntryView::Path { key: opt_view(*key), text: text@ },
            Entry::NameValue { key, value, text } => EntryView::NameValue {
                key: opt_view(*key),
                value: value@,
                text: text@,
            },
            Entry::List { key, text } => EntryView::List { key: opt_view(*key), text: text@ },
            Entry::Generated { key, value } => EntryView::Generated { key: *key, value: value@ },
        }
    }
}

impl View for AttrArgs {
    type V = AttrArgsView;

    open spec fn view(&self) -> AttrArgsView {
        match self {
            AttrArgs::List { entries } => AttrArgsView::List {
                entries: entries@.map_values(|e: Entry| e@),
            },
            AttrArgs::Unparsed { message } => AttrArgsView::Unparsed { message: message@ },
            AttrArgs::NotList => AttrArgsView::NotList,
        }
    }
}

impl View for Attribute {
    type V = AttributeView;

    open spec fn view(&self) -> AttributeView {
        AttributeView { path_ident: opt_view(self.path_ident), args: self.args@ }
    }
}

impl View for FieldDecl {
    type V = FieldView;

    open spec fn view(&self) -> FieldView {
        FieldView {
            name: opt_view(self.name),
            ty: self.ty,
            ty_text: self.ty_text@,
            attrs: self.attrs@.map_values(|a: Attribute| a@),
        }
    }
}

impl View for StructDecl {
    type V = StructView;

    open spec fn view(&self) -> StructView {
        StructView { name: self.name@, fields: self.fields@.map_values(|f: FieldDecl| f@) }
    }
}

impl View for GenError {
    type V = GenErrorView;

    open spec fn view(&self) -> GenErrorView {
        match self {
            GenError::MissingFieldName { field } => GenErrorView::MissingFieldName {
                field: *field as int,
            },
            GenError::MalformedArgs { field, message } => GenErrorView::MalformedArgs {
                field: *field as int,
                message: message@,
            },
            GenError::ExpectedArgList { field } => GenErrorView::ExpectedArgList {
                field: *field as int,
            },
            GenError::BadListElement { field, piece } => GenErrorView::BadListElement {
                field: *field as int,
                piece: piece@,
            },
        }
    }
}

/// Whether an annotation is the argument-description annotation `#[arg(...)]`.
pub open spec fn is_arg_attr(a: AttributeView) -> bool {
    a.path_ident == Some("arg"@)
}

} // verus!
