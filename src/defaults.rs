//! The default-value synthesizer: builds, for each field, the expression that
//! a `Default` implementation gives it, from the field's type and its
//! `#[arg(default_value = ...)]` or `#[arg(default_value_t = ...)]` entry.
use vstd::prelude::*;
use crate::syntax::{
    opt_view, is_arg_attr, AttrArgs, AttrArgsView, Attribute, AttributeView, Entry, EntryView,
    FieldDecl, FieldView, GenError, GenErrorView, StructDecl, StructView, Value, ValueView,
};
use crate::util::{
    get_field_type, inner_name, is_white_space, opt_text_is, outer_name, parses_as_expr, text_is,
    trim, trim_end_of, trim_of, trim_start_of,
};

verus! {

/// The character that separates the items of a list default.
pub const LIST_DELIMITER: char = ',';

/// The expression that a field is initialized with.
#[derive(Debug, PartialEq, Eq, Clone)]
pub enum InitExpr {
    /// `<Type>::default()`, with the type's source text.
    TypeDefault { ty_text: String },
    /// The default's expression, as written.
    Verbatim { text: String },
    /// `"literal".into()`.
    IntoString { literal: String },
    /// `"literal".parse().unwrap()`.
    ParseUnwrap { literal: String },
    /// `vec!["a".to_string(), ...]`, one item per piece.
    StringList { items: Vec<String> },
    /// `vec![a, ...]`, each piece an expression.
    ExprList { items: Vec<String> },
}

/// One field of the generated instance.
#[derive(Debug, PartialEq, Eq, Clone)]
pub struct FieldInit {
    pub name: Option<String>,
    pub init: InitExpr,
}

/// The generated `Default` implementation: the struct's name and one
/// initializer per field, in field order.
#[derive(Debug, PartialEq, Eq, Clone)]
pub struct DefaultImpl {
    pub struct_name: String,
    pub fields: Vec<FieldInit>,
}

pub ghost enum InitView {
    TypeDefault { ty_text: Seq<char> },
    Verbatim { text: Seq<char> },
    IntoString { literal: Seq<char> },
    ParseUnwrap { literal: Seq<char> },
    StringList { items: Seq<Seq<char>> },
    ExprList { items: Seq<Seq<char>> },
}

pub ghost struct FieldInitView {
    pub name: Option<Seq<char>>,
    pub init: InitView,
}

pub ghost struct DefaultImplView {
    pub struct_name: Seq<char>,
    pub fields: Seq<FieldInitView>,
}

pub open spec fn texts(v: Seq<String>) -> Seq<Seq<char>> {
    v.map_values(|s: String| s@)
}

impl View for InitExpr {
    type V = InitView;

    open spec fn view(&self) -> InitView {
        match self {
            InitExpr::TypeDefault { ty_text } => InitView::TypeDefault { ty_text: ty_text@ },
            InitExpr::Verbatim { text } => InitView::Verbatim { text: text@ },
            InitExpr::IntoString { literal } => InitView::IntoString { literal: literal@ },
            InitExpr::ParseUnwrap { literal } => InitView::ParseUnwrap { literal: literal@ },
            InitExpr::StringList { items } => InitView::StringList { items: texts(items@) },
            InitExpr::ExprList { items } => InitView::ExprList { items: texts(items@) },
        }
    }
}

impl View for FieldInit {
    type V = FieldInitView;

    open spec fn view(&self) -> FieldInitView {
        FieldInitView { name: opt_view(self.name), init: self.init@ }
    }
}

impl View for DefaultImpl {
    type V = DefaultImplView;

    open spec fn view(&self) -> DefaultImplView {
        DefaultImplView {
            struct_name: self.struct_name@,
            fields: self.fields@.map_values(|f: FieldInit| f@),
        }
    }
}

/// The pieces of a text between commas (one piece when there is no comma).
pub open spec fn split_commas(s: Seq<char>) -> Seq<Seq<char>>
    decreases s.len(),
{
    if s.len() == 0 {
        seq![seq![]]
    } else {
        let prev = split_commas(s.drop_last());
        if s.last() == LIST_DELIMITER {
            prev.push(seq![])
        } else {
            prev.update(prev.len() - 1, prev.last().push(s.last()))
        }
    }
}

/// The pieces of a list default, each trimmed of surrounding whitespace.
pub open spec fn trimmed_pieces(s: Seq<char>) -> Seq<Seq<char>> {
    split_commas(s).map_values(|p: Seq<char>| trim_of(p))
}

/// The position of the first false flag.
pub open spec fn first_false(flags: Seq<bool>) -> Option<int>
    decreases flags.len(),
{
    if flags.len() == 0 {
        None
    } else {
        match first_false(flags.drop_last()) {
            Some(j) => Some(j),
            None => if !flags.last() {
                Some(flags.len() - 1)
            } else {
                None
            },
        }
    }
}

/// A list default of non-string items, given for each piece whether it
/// parsed as an expression: the list of pieces, or an error naming the first
/// piece that did not parse.
pub open spec fn list_outcome(ps: Seq<Seq<char>>, parsed: Seq<bool>, index: int) -> Result<
    InitView,
    GenErrorView,
> {
    match first_false(parsed) {
        Some(j) => Err(GenErrorView::BadListElement { field: index, piece: ps[j] }),
        None => Ok(InitView::ExprList { items: ps }),
    }
}

/// Whether `e` rejects one of the pieces of a list of expressions.
pub open spec fn rejects_piece(init: InitView, index: int, e: GenErrorView) -> bool {
    match init {
        InitView::ExprList { items } => exists|j: int|
            0 <= j < items.len() && e == (GenErrorView::BadListElement {
                field: index,
                piece: #[trigger] items[j],
            }),
        _ => false,
    }
}

/// Whether an entry's key is `default_value` or `default_value_t`.
pub open spec fn is_default_key(key: Option<Seq<char>>) -> bool {
    key == Some("default_value"@) || key == Some("default_value_t"@)
}

/// The value of the first `default_value = ...` or `default_value_t = ...` entry.
pub open spec fn first_default(es: Seq<EntryView>) -> Option<ValueView>
    decreases es.len(),
{
    if es.len() == 0 {
        None
    } else if es[0] is NameValue && is_default_key(es[0]->NameValue_key) {
        Some(es[0]->NameValue_value)
    } else {
        first_default(es.drop_first())
    }
}

/// The initializer that a default value gives a field whose type is named
/// `outer` (with container argument `inner`). A field whose type has no name
/// uses the default as written. A list of non-string items is given here as
/// the list of its pieces; whether each piece is an expression is decided
/// when it is built (see `list_default`).
pub open spec fn default_init(
    outer: Option<Seq<char>>,
    inner: Option<Seq<char>>,
    v: ValueView,
) -> InitView {
    match v.str_lit {
        None => InitView::Verbatim { text: v.text },
        Some(lit) => if outer == Some("String"@) {
            InitView::IntoString { literal: v.text }
        } else if outer == Some("Url"@) {
            InitView::ParseUnwrap { literal: v.text }
        } else if outer == Some("Vec"@) && inner is Some {
            let ps = trimmed_pieces(lit);
            if inner == Some("String"@) {
                InitView::StringList { items: ps }
            } else {
                InitView::ExprList { items: ps }
            }
        } else {
            InitView::Verbatim { text: v.text }
        },
    }
}

/// What one `arg` annotation says of the field's default.
pub open spec fn attr_init(
    a: AttributeView,
    outer: Option<Seq<char>>,
    inner: Option<Seq<char>>,
    index: int,
) -> Result<Option<InitView>, GenErrorView> {
    match a.args {
        AttrArgsView::List { entries } => match first_default(entries) {
            None => Ok(None),
            Some(v) => Ok(Some(default_init(outer, inner, v))),
        },
        AttrArgsView::Unparsed { message } => Err(
            GenErrorView::MalformedArgs { field: index, message },
        ),
        AttrArgsView::NotList => Err(GenErrorView::ExpectedArgList { field: index }),
    }
}

/// Why an `arg` annotation's list cannot be read, if it cannot.
pub open spec fn list_error(a: AttributeView, index: int) -> Option<GenErrorView> {
    match a.args {
        AttrArgsView::List { .. } => None,
        AttrArgsView::Unparsed { message } => Some(
            GenErrorView::MalformedArgs { field: index, message },
        ),
        AttrArgsView::NotList => Some(GenErrorView::ExpectedArgList { field: index }),
    }
}

/// The annotations read in order: the first failure, or the default of the
/// first `arg` annotation that has one. Every `arg` list is read, also after
/// a default was found.
pub open spec fn scan_inits(
    attrs: Seq<AttributeView>,
    outer: Option<Seq<char>>,
    inner: Option<Seq<char>>,
    index: int,
) -> Result<Option<InitView>, GenErrorView>
    decreases attrs.len(),
{
    if attrs.len() == 0 {
        Ok(None)
    } else {
        match scan_inits(attrs.drop_last(), outer, inner, index) {
            Err(e) => Err(e),
            Ok(prev) => if !is_arg_attr(attrs.last()) {
                Ok(prev)
            } else {
                match prev {
                    Some(i) => match list_error(attrs.last(), index) {
                        Some(e) => Err(e),
                        None => Ok(Some(i)),
                    },
                    None => attr_init(attrs.last(), outer, inner, index),
                }
            },
        }
    }
}

/// The initializer of the field at `index`: its default, or `<Type>::default()`.
pub open spec fn field_init(f: FieldView, index: int) -> Result<InitView, GenErrorView> {
    match scan_inits(f.attrs, outer_name(f.ty), inner_name(f.ty), index) {
        Err(e) => Err(e),
        Ok(None) => Ok(InitView::TypeDefault { ty_text: f.ty_text }),
        Ok(Some(i)) => Ok(i),
    }
}

/// Whether `e` rejects a piece of the list default that the field's
/// annotations, read up to some point, give it.
pub open spec fn field_rejects(f: FieldView, index: int, e: GenErrorView) -> bool {
    exists|k: int|
        0 <= k <= f.attrs.len() && scan_rejects(
            #[trigger] scan_inits(f.attrs.take(k), outer_name(f.ty), inner_name(f.ty), index),
            index,
            e,
        )
}

pub open spec fn scan_rejects(s: Result<Option<InitView>, GenErrorView>, index: int, e: GenErrorView) -> bool {
    match s {
        Ok(Some(init)) => rejects_piece(init, index, e),
        _ => false,
    }
}

/// The first field whose initializer fails, in field order.
pub open spec fn first_init_error(fields: Seq<FieldView>) -> Option<GenErrorView>
    decreases fields.len(),
{
    if fields.len() == 0 {
        None
    } else {
        match first_init_error(fields.drop_last()) {
            Some(e) => Some(e),
            None => match field_init(fields.last(), fields.len() - 1) {
                Err(e) => Some(e),
                Ok(_) => None,
            },
        }
    }
}

/// What the synthesizer makes of a declaration.
pub open spec fn derived_default(d: StructView) -> Result<DefaultImplView, GenErrorView> {
    match first_init_error(d.fields) {
        Some(e) => Err(e),
        None => Ok(
            DefaultImplView {
                struct_name: d.name,
                fields: d.fields.map(
                    |i: int, f: FieldView| FieldInitView { name: f.name, init: field_init(f, i)->Ok_0 },
                ),
            },
        ),
    }
}

pub open spec fn impl_result_view(r: Result<DefaultImpl, GenError>) -> Result<
    DefaultImplView,
    GenErrorView,
> {
    match r {
        Ok(d) => Ok(d@),
        Err(e) => Err(e@),
    }
}

pub open spec fn opt_init_view(o: Option<InitExpr>) -> Option<InitView> {
    match o {
        Some(i) => Some(i@),
        None => None,
    }
}

pub open spec fn opt_init_result_view(r: Result<Option<InitExpr>, GenError>) -> Result<
    Option<InitView>,
    GenErrorView,
> {
    match r {
        Ok(o) => Ok(opt_init_view(o)),
        Err(e) => Err(e@),
    }
}

pub open spec fn init_result_view(r: Result<InitExpr, GenError>) -> Result<InitView, GenErrorView> {
    match r {
        Ok(i) => Ok(i@),
        Err(e) => Err(e@),
    }
}

/// Splits a text at every comma.
fn split_list(s: &str) -> (r: Vec<String>)
    ensures
        texts(r@) == split_commas(s@),
{
    let n = s.unicode_len();
    let mut pieces: Vec<String> = Vec::new();
    let mut start: usize = 0;
    let mut i: usize = 0;
    assert(s@.take(0).len() == 0);
    assert(texts(pieces@) =~= Seq::<Seq<char>>::empty());
    assert(s@.subrange(0, 0) =~= Seq::<char>::empty());
    assert(split_commas(s@.take(0)) =~= texts(pieces@).push(s@.subrange(0, 0)));
    while i < n
        invariant
            n == s@.len(),
            start <= i <= n,
            split_commas(s@.take(i as int)) =~= texts(pieces@).push(
                s@.subrange(start as int, i as int),
            ),
        decreases n - i,
    {
        let c = s.get_char(i);
        let ghost prev = texts(pieces@);
        let ghost old_start = start;
        proof {
            assert(s@.take(i + 1).drop_last() =~= s@.take(i as int));
            assert(s@.take(i + 1).last() == c);
        }
        if c == LIST_DELIMITER {
            let piece = s.substring_char(start, i);
            pieces.push(<String as StringExecFns>::from_str(piece));
            start = i + 1;
            assert(texts(pieces@) =~= prev.push(s@.subrange(old_start as int, i as int)));
            assert(s@.subrange(i + 1, i + 1) =~= Seq::<char>::empty());
        } else {
            let ghost p = prev.push(s@.subrange(start as int, i as int));
            assert(s@.subrange(start as int, i + 1) =~= s@.subrange(start as int, i as int).push(
                c,
            ));
            assert(p.update(p.len() - 1, p.last().push(c)) =~= prev.push(
                s@.subrange(start as int, i + 1),
            ));
        }
        i = i + 1;
    }
    assert(s@.take(n as int) =~= s@);
    let last = s.substring_char(start, n);
    let ghost prev = texts(pieces@);
    pieces.push(<String as StringExecFns>::from_str(last));
    assert(texts(pieces@) =~= prev.push(s@.subrange(start as int, n as int)));
    pieces
}

/// Trims every piece.
fn trim_all(pieces: &Vec<String>) -> (r: Vec<String>)
    ensures
        texts(r@) == texts(pieces@).map_values(|p: Seq<char>| trim_of(p)),
{
    let mut out: Vec<String> = Vec::new();
    let mut i: usize = 0;
    while i < pieces.len()
        invariant
            i <= pieces@.len(),
            texts(out@) =~= texts(pieces@.take(i as int)).map_values(|p: Seq<char>| trim_of(p)),
        decreases pieces@.len() - i,
    {
        let ghost prev = texts(out@);
        out.push(trim(pieces[i].as_str()));
        assert(texts(out@) =~= prev.push(trim_of(pieces@[i as int]@)));
        assert(pieces@.take(i + 1) =~= pieces@.take(i as int).push(pieces@[i as int]));
        i = i + 1;
    }
    assert(pieces@.take(i as int) =~= pieces@);
    out
}

/// Asks syn, for each piece, whether it parses as an expression.
fn parse_outcomes(pieces: &Vec<String>) -> (r: Vec<bool>)
    ensures
        r@.len() == pieces@.len(),
{
    let mut out: Vec<bool> = Vec::new();
    let mut i: usize = 0;
    while i < pieces.len()
        invariant
            i <= pieces@.len(),
            out@.len() == i,
        decreases pieces@.len() - i,
    {
        out.push(parses_as_expr(pieces[i].as_str()));
        i = i + 1;
    }
    out
}

proof fn lemma_first_false_extends(s: Seq<bool>, k: int)
    requires
        0 <= k <= s.len(),
        first_false(s.take(k)) is Some,
    ensures
        first_false(s) == first_false(s.take(k)),
    decreases s.len(),
{
    if k < s.len() {
        assert(s.drop_last().take(k) =~= s.take(k));
        lemma_first_false_extends(s.drop_last(), k);
    } else {
        assert(s.take(k) =~= s);
    }
}

proof fn lemma_first_false_in_range(s: Seq<bool>)
    ensures
        first_false(s) matches Some(j) ==> 0 <= j < s.len(),
    decreases s.len(),
{
    if s.len() > 0 {
        lemma_first_false_in_range(s.drop_last());
    }
}

/// A list of non-string items is either built or rejected at one of its
/// pieces.
pub proof fn lemma_list_outcome(ps: Seq<Seq<char>>, parsed: Seq<bool>, index: int)
    requires
        parsed.len() == ps.len(),
    ensures
        list_outcome(ps, parsed, index) == Ok::<InitView, GenErrorView>(
            InitView::ExprList { items: ps },
        ) || (list_outcome(ps, parsed, index) is Err && rejects_piece(
            InitView::ExprList { items: ps },
            index,
            list_outcome(ps, parsed, index)->Err_0,
        )),
{
    lemma_first_false_in_range(parsed);
    if let Some(j) = first_false(parsed) {
        assert(list_outcome(ps, parsed, index)->Err_0 == (GenErrorView::BadListElement {
            field: index,
            piece: ps[j],
        }));
    }
}

/// Builds a list default of non-string items from its pieces and, for each
/// piece, whether it parsed as an expression; `index` is the field's position.
pub fn list_default(pieces: Vec<String>, parsed: &Vec<bool>, index: usize) -> (r: Result<
    InitExpr,
    GenError,
>)
    requires
        parsed@.len() == pieces@.len(),
    ensures
        init_result_view(r) == list_outcome(texts(pieces@), parsed@, index as int),
{
    let mut i: usize = 0;
    while i < parsed.len()
        invariant
            i <= parsed@.len(),
            parsed@.len() == pieces@.len(),
            first_false(parsed@.take(i as int)) is None,
        decreases parsed@.len() - i,
    {
        proof {
            assert(parsed@.take(i + 1).drop_last() =~= parsed@.take(i as int));
            assert(parsed@.take(i + 1).last() == parsed@[i as int]);
        }
        if !parsed[i] {
            proof {
                lemma_first_false_extends(parsed@, i + 1);
            }
            return Err(GenError::BadListElement { field: index, piece: pieces[i].clone() });
        }
        i = i + 1;
    }
    assert(parsed@.take(i as int) =~= parsed@);
    Ok(InitExpr::ExprList { items: pieces })
}

pub open spec fn init_matches(got: Result<InitView, GenErrorView>, expected: InitView, index: int) -> bool {
    got == Ok::<InitView, GenErrorView>(expected) || (got is Err && rejects_piece(
        expected,
        index,
        got->Err_0,
    ))
}

/// The initializer that a default value gives a field of type `outer`
/// (with container argument `inner`).
fn parse_field_attribute_default_value(
    field_type_string: &Option<String>,
    field_type_argument: &Option<String>,
    value: &Value,
    index: usize,
) -> (r: Result<InitExpr, GenError>)
    ensures
        init_matches(
            init_result_view(r),
            default_init(opt_view(*field_type_string), opt_view(*field_type_argument), value@),
            index as int,
        ),
{
    match &value.str_lit {
        None => Ok(InitExpr::Verbatim { text: value.text.clone() }),
        Some(lit) => {
            if opt_text_is(field_type_string, "String") {
                Ok(InitExpr::IntoString { literal: value.text.clone() })
            } else if opt_text_is(field_type_string, "Url") {
                Ok(InitExpr::ParseUnwrap { literal: value.text.clone() })
            } else if opt_text_is(field_type_string, "Vec") && field_type_argument.is_some() {
                let pieces = trim_all(&split_list(lit.as_str()));
                let vec_type = match field_type_argument {
                    Some(t) => t,
                    None => {
                        return Ok(InitExpr::Verbatim { text: value.text.clone() });
                    },
                };
                if text_is(vec_type, "String") {
                    Ok(InitExpr::StringList { items: pieces })
                } else {
                    let parsed = parse_outcomes(&pieces);
                    proof {
                        lemma_list_outcome(texts(pieces@), parsed@, index as int);
                    }
                    list_default(pieces, &parsed, index)
                }
            } else {
                Ok(InitExpr::Verbatim { text: value.text.clone() })
            }
        },
    }
}

fn is_default_entry_key(key: &Option<String>) -> (r: bool)
    ensures
        r == is_default_key(opt_view(*key)),
{
    match key {
        Some(k) => text_is(k, "default_value") || text_is(k, "default_value_t"),
        None => false,
    }
}

/// What one `arg` annotation says of a field's default.
#[verifier::loop_isolation(false)]
fn parse_field_attribute(
    attribute: &Attribute,
    field_type_string: &Option<String>,
    field_type_argument: &Option<String>,
    index: usize,
) -> (r: Result<Option<InitExpr>, GenError>)
    ensures
        ({
            let expected = attr_init(
                attribute@,
                opt_view(*field_type_string),
                opt_view(*field_type_argument),
                index as int,
            );
            opt_init_result_view(r) == expected || (r is Err && scan_rejects(
                expected,
                index as int,
                r->Err_0@,
            ))
        }),
{
    match &attribute.args {
        AttrArgs::List { entries } => {
            let ghost es = entries@.map_values(|e: Entry| e@);
            let mut j: usize = 0;
            assert(es.subrange(0, es.len() as int) =~= es);
            while j < entries.len()
                invariant
                    j <= entries@.len(),
                    es == entries@.map_values(|e: Entry| e@),
                    first_default(es) == first_default(es.subrange(j as int, es.len() as int)),
                decreases entries@.len() - j,
            {
                let ghost rest = es.subrange(j as int, es.len() as int);
                assert(rest[0] == entries@[j as int]@);
                if let Entry::NameValue { key, value, .. } = &entries[j] {
                    if is_default_entry_key(key) {
                        assert(first_default(es) == Some(value@));
                        return match parse_field_attribute_default_value(
                            field_type_string,
                            field_type_argument,
                            value,
                            index,
                        ) {
                            Ok(i) => Ok(Some(i)),
                            Err(e) => Err(e),
                        };
                    }
                }
                assert(rest.drop_first() =~= es.subrange(j + 1, es.len() as int));
                j = j + 1;
            }
            Ok(None)
        },
        AttrArgs::Unparsed { message } => Err(
            GenError::MalformedArgs { field: index, message: message.clone() },
        ),
        AttrArgs::NotList => Err(GenError::ExpectedArgList { field: index }),
    }
}

/// The initializer of one field; `index` is its position.
#[verifier::loop_isolation(false)]
fn parse_field(field: &FieldDecl, index: usize) -> (r: Result<FieldInit, GenError>)
    ensures
        match r {
            Ok(fi) => fi@.name == field@.name && field_init(field@, index as int) == Ok::<
                InitView,
                GenErrorView,
            >(fi@.init),
            Err(e) => field_init(field@, index as int) == Err::<InitView, GenErrorView>(e@)
                || field_rejects(field@, index as int, e@),
        },
{
    let mut default_value: Option<InitExpr> = None;
    let (outer_type, inner_type) = get_field_type(&field.ty);
    let ghost attrs = field@.attrs;
    let ghost outer = opt_view(outer_type);
    let ghost inner = opt_view(inner_type);
    let mut i: usize = 0;
    while i < field.attrs.len()
        invariant
            i <= field.attrs@.len(),
            attrs == field@.attrs,
            outer == opt_view(outer_type),
            inner == opt_view(inner_type),
            scan_inits(attrs.take(i as int), outer, inner, index as int) == Ok::<
                Option<InitView>,
                GenErrorView,
            >(opt_init_view(default_value)),
        decreases field.attrs@.len() - i,
    {
        let attr = &field.attrs[i];
        proof {
            assert(attrs.take(i + 1).drop_last() =~= attrs.take(i as int));
            assert(attrs.take(i + 1).last() == attr@);
        }
        let is_arg = match &attr.path_ident {
            Some(p) => text_is(p, "arg"),
            None => false,
        };
        if is_arg {
            if default_value.is_some() {
                let problem = match &attr.args {
                    AttrArgs::List { .. } => None,
                    AttrArgs::Unparsed { message } => Some(
                        GenError::MalformedArgs { field: index, message: message.clone() },
                    ),
                    AttrArgs::NotList => Some(GenError::ExpectedArgList { field: index }),
                };
                if let Some(e) = problem {
                    proof {
                        lemma_scan_inits_extends(attrs, outer, inner, index as int, i + 1);
                    }
                    return Err(e);
                }
            } else {
                match parse_field_attribute(attr, &outer_type, &inner_type, index) {
                    Ok(d) => {
                        default_value = d;
                    },
                    Err(e) => {
                        proof {
                            if scan_inits(attrs.take(i + 1), outer, inner, index as int) is Err {
                                lemma_scan_inits_extends(attrs, outer, inner, index as int, i + 1);
                            } else {
                                assert(scan_rejects(
                                    scan_inits(attrs.take(i + 1), outer, inner, index as int),
                                    index as int,
                                    e@,
                                ));
                            }
                        }
                        return Err(e);
                    },
                }
            }
        }
        i = i + 1;
    }
    assert(attrs.take(i as int) =~= attrs);
    let name = match &field.name {
        Some(n) => Some(n.clone()),
        None => None,
    };
    match default_value {
        Some(init) => Ok(FieldInit { name, init }),
        None => Ok(FieldInit { name, init: InitExpr::TypeDefault { ty_text: field.ty_text.clone() } }),
    }
}

proof fn lemma_scan_inits_extends(
    s: Seq<AttributeView>,
    outer: Option<Seq<char>>,
    inner: Option<Seq<char>>,
    index: int,
    k: int,
)
    requires
        0 <= k <= s.len(),
        scan_inits(s.take(k), outer, inner, index) is Err,
    ensures
        scan_inits(s, outer, inner, index) == scan_inits(s.take(k), outer, inner, index),
    decreases s.len(),
{
    if k < s.len() {
        assert(s.drop_last().take(k) =~= s.take(k));
        lemma_scan_inits_extends(s.drop_last(), outer, inner, index, k);
    } else {
        assert(s.take(k) =~= s);
    }
}

proof fn lemma_first_init_error_extends(s: Seq<FieldView>, k: int)
    requires
        0 <= k <= s.len(),
        first_init_error(s.take(k)) is Some,
    ensures
        first_init_error(s) == first_init_error(s.take(k)),
    decreases s.len(),
{
    if k < s.len() {
        assert(s.drop_last().take(k) =~= s.take(k));
        lemma_first_init_error_extends(s.drop_last(), k);
    } else {
        assert(s.take(k) =~= s);
    }
}

/// Builds the `Default` implementation of a declaration: each field gets its
/// `arg` default, shaped by its type, or its type's own default. The result is
/// `derived_default`'s, except that a list default of non-string items may
/// instead be rejected at a piece that syn does not parse as an expression.
pub fn derive_default(input: &StructDecl) -> (r: Result<DefaultImpl, GenError>)
    ensures
        impl_result_view(r) == derived_default(input@) || (r is Err && exists|i: int|
            0 <= i < input@.fields.len() && first_init_error(input@.fields.take(i)) is None
                && #[trigger] field_rejects(input@.fields[i], i, r->Err_0@)),
{
    let ghost fs = input@.fields;
    let mut default_values: Vec<FieldInit> = Vec::new();
    let mut i: usize = 0;
    while i < input.fields.len()
        invariant
            i <= input.fields@.len(),
            fs == input@.fields,
            default_values@.len() == i,
            first_init_error(fs.take(i as int)) is None,
            forall|k: int|
                0 <= k < i ==> (#[trigger] default_values@[k])@ == (FieldInitView {
                    name: fs[k].name,
                    init: field_init(fs[k], k)->Ok_0,
                }),
            forall|k: int| 0 <= k < i ==> (#[trigger] field_init(fs[k], k)) is Ok,
        decreases input.fields@.len() - i,
    {
        proof {
            assert(fs.take(i + 1).drop_last() =~= fs.take(i as int));
            assert(fs.take(i + 1).last() == fs[i as int]);
            assert(fs[i as int] == input.fields@[i as int]@);
        }
        match parse_field(&input.fields[i], i) {
            Ok(fi) => {
                default_values.push(fi);
            },
            Err(e) => {
                proof {
                    if field_init(fs[i as int], i as int) is Err {
                        lemma_first_init_error_extends(fs, i + 1);
                    } else {
                        assert(field_rejects(fs[i as int], i as int, e@));
                    }
                }
                return Err(e);
            },
        }
        i = i + 1;
    }
    assert(fs.take(i as int) =~= fs);
    let r = DefaultImpl { struct_name: input.name.clone(), fields: default_values };
    assert(r@.fields =~= fs.map(
        |k: int, f: FieldView| FieldInitView { name: f.name, init: field_init(f, k)->Ok_0 },
    ));
    Ok(r)
}

/// Whether every `arg` annotation carries a parenthesized list of entries.
pub open spec fn arg_lists_read(attrs: Seq<AttributeView>) -> bool {
    forall|j: int| 0 <= j < attrs.len() && is_arg_attr(#[trigger] attrs[j]) ==> attrs[j].args is List
}

/// Whether annotation `j` is the first `arg` annotation with a default entry,
/// and that entry's value is `v`.
pub open spec fn first_default_at(attrs: Seq<AttributeView>, j: int, v: ValueView) -> bool {
    &&& 0 <= j < attrs.len()
    &&& is_arg_attr(attrs[j])
    &&& attrs[j].args is List
    &&& first_default(attrs[j].args->List_entries) == Some(v)
    &&& forall|k: int|
        0 <= k < j && is_arg_attr(#[trigger] attrs[k]) ==> first_default(
            attrs[k].args->List_entries,
        ) is None
}

proof fn lemma_scan_inits_first(
    attrs: Seq<AttributeView>,
    outer: Option<Seq<char>>,
    inner: Option<Seq<char>>,
    index: int,
    j: int,
    v: ValueView,
)
    requires
        arg_lists_read(attrs),
        first_default_at(attrs, j, v),
    ensures
        scan_inits(attrs, outer, inner, index) == Ok::<Option<InitView>, GenErrorView>(
            Some(default_init(outer, inner, v)),
        ),
    decreases attrs.len(),
{
    let d = attrs.drop_last();
    assert forall|k: int| 0 <= k < d.len() && is_arg_attr(#[trigger] d[k]) implies d[k].args is List by {
        assert(d[k] == attrs[k]);
    }
    if j < attrs.len() - 1 {
        assert forall|k: int| 0 <= k < j && is_arg_attr(#[trigger] d[k]) implies first_default(
            d[k].args->List_entries,
        ) is None by {
            assert(d[k] == attrs[k]);
        }
        assert(d[j] == attrs[j]);
        lemma_scan_inits_first(d, outer, inner, index, j, v);
        assert(attrs.last() == attrs[attrs.len() - 1]);
    } else {
        assert forall|k: int| 0 <= k < d.len() && is_arg_attr(#[trigger] d[k]) implies d[k].args is List
            && first_default(d[k].args->List_entries) is None by {
            assert(d[k] == attrs[k]);
        }
        lemma_scan_inits_none(d, outer, inner, index);
        assert(attrs.last() == attrs[j]);
    }
}

/// A `String` field whose first default, in a readable `arg` list, is a
/// string literal is initialized with that literal converted by `.into()`.
pub proof fn lemma_string_default(f: FieldView, index: int, j: int, v: ValueView)
    requires
        outer_name(f.ty) == Some("String"@),
        arg_lists_read(f.attrs),
        first_default_at(f.attrs, j, v),
        v.str_lit is Some,
    ensures
        field_init(f, index) == Ok::<InitView, GenErrorView>(
            InitView::IntoString { literal: v.text },
        ),
{
    lemma_scan_inits_first(f.attrs, outer_name(f.ty), inner_name(f.ty), index, j, v);
}

/// A `Url` field whose first default, in a readable `arg` list, is a string
/// literal is initialized by parsing that literal and unwrapping the result.
pub proof fn lemma_url_default(f: FieldView, index: int, j: int, v: ValueView)
    requires
        outer_name(f.ty) == Some("Url"@),
        arg_lists_read(f.attrs),
        first_default_at(f.attrs, j, v),
        v.str_lit is Some,
    ensures
        field_init(f, index) == Ok::<InitView, GenErrorView>(
            InitView::ParseUnwrap { literal: v.text },
        ),
{
    reveal_strlit("String");
    reveal_strlit("Url");
    assert("Url"@.len() == 3 && "String"@.len() == 6);
    lemma_scan_inits_first(f.attrs, outer_name(f.ty), inner_name(f.ty), index, j, v);
}

/// How a string-literal default is converted: `String` takes it with
/// `.into()`, `Url` parses it and unwraps, `Vec<String>` becomes one string
/// per trimmed comma-separated piece; none of these can fail.
pub proof fn lemma_literal_conversions(inner: Option<Seq<char>>, v: ValueView)
    requires
        v.str_lit is Some,
    ensures
        default_init(Some("String"@), inner, v) == (InitView::IntoString { literal: v.text }),
        default_init(Some("Url"@), inner, v) == (InitView::ParseUnwrap { literal: v.text }),
        default_init(Some("Vec"@), Some("String"@), v) == (InitView::StringList {
            items: trimmed_pieces(v.str_lit->Some_0),
        }),
{
    reveal_strlit("String");
    reveal_strlit("Url");
    reveal_strlit("Vec");
    assert("Url"@[0] == 'U' && "Vec"@[0] == 'V' && "String"@.len() == 6 && "Vec"@.len() == 3
        && "Url"@.len() == 3);
}

/// The number of commas in a text.
pub open spec fn comma_count(s: Seq<char>) -> nat
    decreases s.len(),
{
    if s.len() == 0 {
        0
    } else {
        comma_count(s.drop_last()) + if s.last() == LIST_DELIMITER {
            1nat
        } else {
            0nat
        }
    }
}

/// A text splits into one piece more than it has commas.
pub proof fn lemma_split_count(s: Seq<char>)
    ensures
        split_commas(s).len() == comma_count(s) + 1,
    decreases s.len(),
{
    if s.len() > 0 {
        lemma_split_count(s.drop_last());
    }
}

proof fn lemma_split_no_comma(s: Seq<char>)
    ensures
        forall|i: int, j: int|
            0 <= i < split_commas(s).len() && 0 <= j < split_commas(s)[i].len() ==> #[trigger] split_commas(s)[i][j] != LIST_DELIMITER,
    decreases s.len(),
{
    if s.len() > 0 {
        lemma_split_no_comma(s.drop_last());
        lemma_split_count(s.drop_last());
    }
}

proof fn lemma_trim_start_shape(s: Seq<char>)
    ensures
        exists|k: int| 0 <= k <= s.len() && trim_start_of(s) == s.subrange(k, s.len() as int),
        trim_start_of(s).len() > 0 ==> !is_white_space(trim_start_of(s)[0]),
    decreases s.len(),
{
    if s.len() > 0 && is_white_space(s[0]) {
        lemma_trim_start_shape(s.drop_first());
        let k = choose|k: int|
            0 <= k <= s.drop_first().len() && trim_start_of(s.drop_first())
                == s.drop_first().subrange(k, s.drop_first().len() as int);
        assert(s.drop_first().subrange(k, s.drop_first().len() as int) =~= s.subrange(
            k + 1,
            s.len() as int,
        ));
    } else {
        assert(s.subrange(0, s.len() as int) =~= s);
    }
}

proof fn lemma_trim_end_shape(s: Seq<char>)
    ensures
        exists|m: int| 0 <= m <= s.len() && trim_end_of(s) == s.subrange(0, m),
        trim_end_of(s).len() > 0 ==> !is_white_space(trim_end_of(s).last()),
    decreases s.len(),
{
    if s.len() > 0 && is_white_space(s.last()) {
        lemma_trim_end_shape(s.drop_last());
        let m = choose|m: int|
            0 <= m <= s.drop_last().len() && trim_end_of(s.drop_last()) == s.drop_last().subrange(
                0,
                m,
            );
        assert(s.drop_last().subrange(0, m) =~= s.subrange(0, m));
    } else {
        assert(s.subrange(0, s.len() as int) =~= s);
    }
}

/// The pieces of a list default hold no comma, and trimming one again
/// changes nothing.
pub proof fn lemma_trimmed_pieces(s: Seq<char>, i: int)
    requires
        0 <= i < trimmed_pieces(s).len(),
    ensures
        !trimmed_pieces(s)[i].contains(LIST_DELIMITER),
        trim_of(trimmed_pieces(s)[i]) == trimmed_pieces(s)[i],
{
    let p = split_commas(s)[i];
    lemma_split_no_comma(s);
    let a = trim_start_of(p);
    lemma_trim_start_shape(p);
    lemma_trim_end_shape(a);
    let k = choose|k: int| 0 <= k <= p.len() && a == p.subrange(k, p.len() as int);
    let t = trim_end_of(a);
    let m = choose|m: int| 0 <= m <= a.len() && t == a.subrange(0, m);
    assert(t == trimmed_pieces(s)[i]);
    assert forall|j: int| 0 <= j < t.len() implies t[j] != LIST_DELIMITER by {
        assert(t[j] == p[k + j]);
    }
    if t.len() > 0 {
        assert(t[0] == a[0]);
        assert(trim_start_of(t) == t);
    } else {
        assert(trim_start_of(t) == t);
    }
    assert(trim_end_of(t) == t);
}

/// A `Vec<String>` field whose first default, in a readable `arg` list, is a
/// string literal is initialized with one string per comma-separated piece,
/// trimmed, and so with one item more than the literal has commas.
pub proof fn lemma_string_list_default(f: FieldView, index: int, j: int, v: ValueView)
    requires
        outer_name(f.ty) == Some("Vec"@),
        inner_name(f.ty) == Some("String"@),
        arg_lists_read(f.attrs),
        first_default_at(f.attrs, j, v),
        v.str_lit is Some,
    ensures
        field_init(f, index) == Ok::<InitView, GenErrorView>(
            InitView::StringList { items: trimmed_pieces(v.str_lit->Some_0) },
        ),
        trimmed_pieces(v.str_lit->Some_0).len() == comma_count(v.str_lit->Some_0) + 1,
{
    reveal_strlit("String");
    reveal_strlit("Url");
    reveal_strlit("Vec");
    assert("Url"@[0] == 'U' && "Vec"@[0] == 'V' && "String"@.len() == 6 && "Vec"@.len() == 3);
    lemma_scan_inits_first(f.attrs, outer_name(f.ty), inner_name(f.ty), index, j, v);
    lemma_split_count(v.str_lit->Some_0);
}

/// A field whose type is not a path uses its first default as written.
pub proof fn lemma_unnamed_type_default(f: FieldView, index: int, j: int, v: ValueView)
    requires
        outer_name(f.ty) is None,
        arg_lists_read(f.attrs),
        first_default_at(f.attrs, j, v),
    ensures
        field_init(f, index) == Ok::<InitView, GenErrorView>(InitView::Verbatim { text: v.text }),
{
    lemma_scan_inits_first(f.attrs, outer_name(f.ty), inner_name(f.ty), index, j, v);
}

proof fn lemma_scan_inits_none(
    attrs: Seq<AttributeView>,
    outer: Option<Seq<char>>,
    inner: Option<Seq<char>>,
    index: int,
)
    requires
        forall|j: int|
            0 <= j < attrs.len() && is_arg_attr(#[trigger] attrs[j]) ==> attrs[j].args is List
                && first_default(attrs[j].args->List_entries) is None,
    ensures
        scan_inits(attrs, outer, inner, index) == Ok::<Option<InitView>, GenErrorView>(None),
    decreases attrs.len(),
{
    if attrs.len() > 0 {
        assert(attrs.last() == attrs[attrs.len() - 1]);
        assert forall|j: int| 0 <= j < attrs.drop_last().len() && is_arg_attr(
            #[trigger] attrs.drop_last()[j],
        ) implies attrs.drop_last()[j].args is List && first_default(
            attrs.drop_last()[j].args->List_entries,
        ) is None by {
            assert(attrs.drop_last()[j] == attrs[j]);
        }
        lemma_scan_inits_none(attrs.drop_last(), outer, inner, index);
    }
}

proof fn lemma_no_init_error(fields: Seq<FieldView>)
    requires
        forall|i: int| 0 <= i < fields.len() ==> (#[trigger] field_init(fields[i], i)) is Ok,
    ensures
        first_init_error(fields) is None,
    decreases fields.len(),
{
    if fields.len() > 0 {
        assert(fields.last() == fields[fields.len() - 1]);
        assert forall|i: int| 0 <= i < fields.drop_last().len() implies (#[trigger] field_init(
            fields.drop_last()[i],
            i,
        )) is Ok by {
            assert(fields.drop_last()[i] == fields[i]);
            assert(field_init(fields[i], i) is Ok);
        }
        lemma_no_init_error(fields.drop_last());
    }
}

/// Where no field has a default entry in a readable `arg` list, every field
/// is initialized with its own type's default.
pub proof fn lemma_no_defaults_uses_type_defaults(d: StructView)
    requires
        forall|i: int, j: int|
            0 <= i < d.fields.len() && 0 <= j < d.fields[i].attrs.len() && is_arg_attr(
                #[trigger] d.fields[i].attrs[j],
            ) ==> d.fields[i].attrs[j].args is List && first_default(
                d.fields[i].attrs[j].args->List_entries,
            ) is None,
    ensures
        derived_default(d) == Ok::<DefaultImplView, GenErrorView>(
            DefaultImplView {
                struct_name: d.name,
                fields: d.fields.map(
                    |i: int, f: FieldView|
                        FieldInitView {
                            name: f.name,
                            init: InitView::TypeDefault { ty_text: f.ty_text },
                        },
                ),
            },
        ),
{
    assert forall|i: int| 0 <= i < d.fields.len() implies #[trigger] field_init(d.fields[i], i)
        == Ok::<InitView, GenErrorView>(InitView::TypeDefault { ty_text: d.fields[i].ty_text }) by {
        let f = d.fields[i];
        assert forall|j: int| 0 <= j < f.attrs.len() && is_arg_attr(#[trigger] f.attrs[j]) implies f.attrs[j].args is List
            && first_default(f.attrs[j].args->List_entries) is None by {
            assert(d.fields[i].attrs[j] == f.attrs[j]);
        }
        lemma_scan_inits_none(f.attrs, outer_name(f.ty), inner_name(f.ty), i);
    }
    lemma_no_init_error(d.fields);
    let r = derived_default(d)->Ok_0;
    assert(r.fields =~= d.fields.map(
        |i: int, f: FieldView|
            FieldInitView { name: f.name, init: InitView::TypeDefault { ty_text: f.ty_text } },
    ));
}

} // verus!
