//! Type introspection, entry construction, and the text operations that the
//! transformations borrow from std and syn.
use vstd::prelude::*;
use crate::syntax::{ClapArgIdent, Entry, GenericArgument, PathArguments, PathSegment, TypeExpr};

verus! {

/// The simple name of a type: the identifier of the last segment of its path.
pub open spec fn outer_name(t: TypeExpr) -> Option<Seq<char>> {
    match t {
        TypeExpr::Path { segments } => if segments@.len() > 0 {
            Some(segments@.last().ident@)
        } else {
            None
        },
        TypeExpr::Other => None,
    }
}

/// The simple name of a segment's one angle-bracketed argument, when it has
/// exactly one and that argument is a type.
pub open spec fn argument_name(seg: PathSegment) -> Option<Seq<char>> {
    match seg.arguments {
        PathArguments::AngleBracketed { args } => if args@.len() == 1 {
            match args@[0] {
                GenericArgument::Type(t) => outer_name(t),
                GenericArgument::Other => None,
            }
        } else {
            None
        },
        _ => None,
    }
}

/// The simple name of a container type's argument (`String` in `Vec<String>`).
pub open spec fn inner_name(t: TypeExpr) -> Option<Seq<char>> {
    match t {
        TypeExpr::Path { segments } => if segments@.len() > 0 {
            argument_name(segments@.last())
        } else {
            None
        },
        TypeExpr::Other => None,
    }
}

/// The text that a recognized key is written as.
pub open spec fn arg_ident_text(k: ClapArgIdent) -> Seq<char> {
    match k {
        ClapArgIdent::Id => "id"@,
        ClapArgIdent::Long => "long"@,
        ClapArgIdent::Env => "env"@,
        ClapArgIdent::ValueName => "value_name"@,
    }
}

/// The text with every underscore replaced by a hyphen.
pub open spec fn kebab_of(s: Seq<char>) -> Seq<char> {
    s.map_values(|c: char| if c == '_' { '-' } else { c })
}

/// What `str::to_lowercase` returns for a text.
pub uninterp spec fn lower_of(s: Seq<char>) -> Seq<char>;

/// What `str::to_uppercase` returns for a text.
pub uninterp spec fn upper_of(s: Seq<char>) -> Seq<char>;

/// Whether a character has the Unicode `White_Space` property, which is
/// what `char::is_whitespace` tests.
pub open spec fn is_white_space(c: char) -> bool {
    let u = c as u32;
    (0x9 <= u && u <= 0xd) || u == 0x20 || u == 0x85 || u == 0xa0 || u == 0x1680 || (0x2000 <= u
        && u <= 0x200a) || u == 0x2028 || u == 0x2029 || u == 0x202f || u == 0x205f || u == 0x3000
}

/// The text without its leading white space.
pub open spec fn trim_start_of(s: Seq<char>) -> Seq<char>
    decreases s.len(),
{
    if s.len() > 0 && is_white_space(s[0]) {
        trim_start_of(s.drop_first())
    } else {
        s
    }
}

/// The text without its trailing white space.
pub open spec fn trim_end_of(s: Seq<char>) -> Seq<char>
    decreases s.len(),
{
    if s.len() > 0 && is_white_space(s.last()) {
        trim_end_of(s.drop_last())
    } else {
        s
    }
}

/// The text without leading and trailing white space.
pub open spec fn trim_of(s: Seq<char>) -> Seq<char> {
    trim_end_of(trim_start_of(s))
}

fn last_segment_name(t: &TypeExpr) -> (r: Option<String>)
    ensures
        opt_view_eq(r, outer_name(*t)),
{
    match t {
        TypeExpr::Path { segments } => {
            if segments.len() > 0 {
                Some(segments[segments.len() - 1].ident.clone())
            } else {
                None
            }
        },
        TypeExpr::Other => None,
    }
}

pub open spec fn opt_view_eq(o: Option<String>, v: Option<Seq<char>>) -> bool {
    crate::syntax::opt_view(o) == v
}

/// The simple name of a field's type, and of its container argument if any.
pub fn get_field_type(field_type: &TypeExpr) -> (r: (Option<String>, Option<String>))
    ensures
        opt_view_eq(r.0, outer_name(*field_type)),
        opt_view_eq(r.1, inner_name(*field_type)),
{
    match field_type {
        TypeExpr::Path { segments } => {
            if segments.len() > 0 {
                let segment = &segments[segments.len() - 1];
                (Some(segment.ident.clone()), get_argument_type_from_path_segment(segment))
            } else {
                (None, None)
            }
        },
        TypeExpr::Other => (None, None),
    }
}

fn get_argument_type_from_path_segment(segment: &PathSegment) -> (r: Option<String>)
    ensures
        opt_view_eq(r, argument_name(*segment)),
{
    if let PathArguments::AngleBracketed { args } = &segment.arguments {
        if args.len() == 1 {
            if let GenericArgument::Type(kind) = &args[0] {
                return last_segment_name(kind);
            }
        }
    }
    None
}

/// Whether an optional text is present and is the given literal.
pub(crate) fn opt_text_is(s: &Option<String>, lit: &str) -> (r: bool)
    ensures
        r == (crate::syntax::opt_view(*s) == Some(lit@)),
{
    match s {
        Some(t) => text_is(t, lit),
        None => false,
    }
}

/// Whether a text is the given literal.
pub(crate) fn text_is(s: &String, lit: &str) -> (r: bool)
    ensures
        r == (s@ == lit@),
{
    *s == <String as StringExecFns>::from_str(lit)
}

/// A `key = "value"` entry for one of the recognized keys.
pub fn new_meta_name_str_value(ident: ClapArgIdent, value: &String) -> (r: Entry)
    ensures
        r == (Entry::Generated { key: ident, value: *value }),
{
    Entry::Generated { key: ident, value: value.clone() }
}

/// Relies on `str::to_lowercase`: the result depends on the text alone.
#[verifier::external_body]
pub(crate) fn to_lower(s: &str) -> (r: String)
    ensures
        r@ == lower_of(s@),
{
    s.to_lowercase()
}

/// Relies on `str::to_uppercase`: the result depends on the text alone.
#[verifier::external_body]
pub(crate) fn to_upper(s: &str) -> (r: String)
    ensures
        r@ == upper_of(s@),
{
    s.to_uppercase()
}

/// Whether a character is Unicode white space.
fn is_space(c: char) -> (r: bool)
    ensures
        r == is_white_space(c),
{
    let u = c as u32;
    (0x9 <= u && u <= 0xd) || u == 0x20 || u == 0x85 || u == 0xa0 || u == 0x1680 || (0x2000 <= u
        && u <= 0x200a) || u == 0x2028 || u == 0x2029 || u == 0x202f || u == 0x205f || u == 0x3000
}

/// The text without leading and trailing white space.
pub(crate) fn trim(s: &str) -> (r: String)
    ensures
        r@ == trim_of(s@),
{
    let n = s.unicode_len();
    let mut a: usize = 0;
    assert(s@.subrange(0, n as int) =~= s@);
    loop
        invariant
            n == s@.len(),
            a <= n,
            trim_start_of(s@) == trim_start_of(s@.subrange(a as int, n as int)),
        ensures
            a <= n,
            trim_start_of(s@) == s@.subrange(a as int, n as int),
        decreases n - a,
    {
        if a == n {
            break;
        }
        let c = s.get_char(a);
        if !is_space(c) {
            break;
        }
        assert(s@.subrange(a as int, n as int).drop_first() =~= s@.subrange(a + 1, n as int));
        a = a + 1;
    }
    let mut b: usize = n;
    loop
        invariant
            n == s@.len(),
            a <= b <= n,
            trim_end_of(s@.subrange(a as int, n as int)) == trim_end_of(
                s@.subrange(a as int, b as int),
            ),
        ensures
            a <= b <= n,
            trim_end_of(s@.subrange(a as int, n as int)) == s@.subrange(a as int, b as int),
        decreases b - a,
    {
        if b == a {
            break;
        }
        let c = s.get_char(b - 1);
        if !is_space(c) {
            break;
        }
        assert(s@.subrange(a as int, b as int).drop_last() =~= s@.subrange(a as int, b - 1));
        b = b - 1;
    }
    let piece = s.substring_char(a, b);
    <String as StringExecFns>::from_str(piece)
}

/// The text with every underscore replaced by a hyphen.
pub(crate) fn underscores_to_hyphens(s: &str) -> (r: String)
    ensures
        r@ == kebab_of(s@),
{
    let n = s.unicode_len();
    let mut out = String::new();
    let mut i: usize = 0;
    proof {
        reveal_strlit("-");
    }
    assert(s@.take(0) =~= Seq::<char>::empty());
    assert(out@ =~= kebab_of(s@.take(0)));
    while i < n
        invariant
            n == s@.len(),
            i <= n,
            out@ =~= kebab_of(s@.take(i as int)),
        decreases n - i,
    {
        let c = s.get_char(i);
        let ghost before = out@;
        if c == '_' {
            proof {
                reveal_strlit("-");
            }
            assert("-"@ =~= seq!['-']);
            out.append("-");
        } else {
            let piece = s.substring_char(i, i + 1);
            assert(piece@ =~= seq![c]);
            out.append(piece);
        }
        assert(out@ =~= before.push(
            if c == '_' {
                '-'
            } else {
                c
            },
        ));
        assert(s@.take(i + 1) =~= s@.take(i as int).push(c));
        assert(kebab_of(s@.take(i + 1)) =~= kebab_of(s@.take(i as int)).push(
            if c == '_' {
                '-'
            } else {
                c
            },
        ));
        i = i + 1;
    }
    assert(s@.take(n as int) =~= s@);
    out
}

/// Relies on `syn::parse_str::<syn::Expr>`: whether the text parses as one
/// expression. Nothing is claimed of the answer: inside a procedural macro
/// proc-macro2 also runs the compiler's lexer, which depends on the edition,
/// while elsewhere it runs only its own. proc-macro2 documents that some lex
/// errors may panic rather than fail; its own lexer returns them as errors.
#[verifier::external_body]
pub(crate) fn parses_as_expr(s: &str) -> (r: bool)
{
    syn::parse_str::<syn::Expr>(s).is_ok()
}

} // verus!
