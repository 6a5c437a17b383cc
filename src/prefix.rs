//! The prefix rewriter: namespaces each field's `id`, `long`, `env` and
//! `value_name` entries by the lowercase name of the struct.
use vstd::prelude::*;
use crate::syntax::{
    opt_view, is_arg_attr, AttrArgs, AttrArgsView, Attribute, AttributeView, ClapArgIdent, Entry,
    EntryView, FieldDecl, FieldView, GenError, GenErrorView, StructDecl, StructView,
};
use crate::util::{
    kebab_of, lower_of, new_meta_name_str_value, text_is, to_lower, to_upper,
    underscores_to_hyphens, upper_of,
};

verus! {

/// The three spellings of a field's namespaced name.
pub ghost struct NamesView {
    pub snake: Seq<char>,
    pub scream: Seq<char>,
    pub kebab: Seq<char>,
}

/// `stem_field`, `STEM_FIELD` and `stem-field` for a stem and a field name.
pub open spec fn names_for(stem: Seq<char>, field: Seq<char>) -> NamesView {
    let snake = stem + "_"@ + field;
    NamesView { snake, scream: upper_of(snake), kebab: kebab_of(snake) }
}

/// The value that a recognized key is given.
pub open spec fn name_for_key(n: NamesView, k: ClapArgIdent) -> Seq<char> {
    match k {
        ClapArgIdent::Id => n.snake,
        ClapArgIdent::Long => n.kebab,
        ClapArgIdent::Env => n.scream,
        ClapArgIdent::ValueName => n.scream,
    }
}

/// The recognized key that a text names, if any.
pub open spec fn recognized_key(s: Seq<char>) -> Option<ClapArgIdent> {
    if s == "id"@ {
        Some(ClapArgIdent::Id)
    } else if s == "long"@ {
        Some(ClapArgIdent::Long)
    } else if s == "env"@ {
        Some(ClapArgIdent::Env)
    } else if s == "value_name"@ {
        Some(ClapArgIdent::ValueName)
    } else {
        None
    }
}

pub open spec fn recognized_opt(key: Option<Seq<char>>) -> Option<ClapArgIdent> {
    match key {
        Some(s) => recognized_key(s),
        None => None,
    }
}

/// The recognized key of an entry, if it has one.
pub open spec fn entry_arg_key(e: EntryView) -> Option<ClapArgIdent> {
    match e {
        EntryView::Path { key, .. } => recognized_opt(key),
        EntryView::NameValue { key, .. } => recognized_opt(key),
        EntryView::List { key, .. } => recognized_opt(key),
        EntryView::Generated { key, .. } => Some(key),
    }
}

/// Whether an entry has the form `key = value`.
pub open spec fn is_name_value(e: EntryView) -> bool {
    e is NameValue || e is Generated
}

/// One entry after rewriting: a recognized key that has no value gets the
/// namespaced one; every other entry stays.
pub open spec fn rewrite_entry(e: EntryView, n: NamesView) -> EntryView {
    match entry_arg_key(e) {
        Some(k) => if is_name_value(e) {
            e
        } else {
            EntryView::Generated { key: k, value: name_for_key(n, k) }
        },
        None => e,
    }
}

/// Whether some entry carries the recognized key `k`.
pub open spec fn key_seen(es: Seq<EntryView>, k: ClapArgIdent) -> bool {
    exists|j: int| 0 <= j < es.len() && #[trigger] entry_arg_key(es[j]) == Some(k)
}

pub open spec fn appended_if_unseen(es: Seq<EntryView>, n: NamesView, k: ClapArgIdent) -> Seq<
    EntryView,
> {
    if key_seen(es, k) {
        seq![]
    } else {
        seq![EntryView::Generated { key: k, value: name_for_key(n, k) }]
    }
}

/// The entries added for the recognized keys that do not occur at all, in the
/// order `id`, `long`, `env`, `value_name`.
pub open spec fn appended_entries(es: Seq<EntryView>, n: NamesView) -> Seq<EntryView> {
    appended_if_unseen(es, n, ClapArgIdent::Id) + appended_if_unseen(es, n, ClapArgIdent::Long)
        + appended_if_unseen(es, n, ClapArgIdent::Env) + appended_if_unseen(
        es,
        n,
        ClapArgIdent::ValueName,
    )
}

/// An `arg` list after rewriting: each entry rewritten in place, then the
/// missing keys appended.
pub open spec fn rewrite_entries(es: Seq<EntryView>, n: NamesView) -> Seq<EntryView> {
    es.map_values(|e: EntryView| rewrite_entry(e, n)) + appended_entries(es, n)
}

/// An annotation after rewriting: only an `arg` annotation with a list changes.
pub open spec fn rewrite_attr(a: AttributeView, n: NamesView) -> AttributeView {
    if is_arg_attr(a) && a.args is List {
        AttributeView {
            path_ident: a.path_ident,
            args: AttrArgsView::List { entries: rewrite_entries(a.args->List_entries, n) },
        }
    } else {
        a
    }
}

/// Whether an annotation is an `arg` annotation whose list did not read.
pub open spec fn is_unparsed_arg(a: AttributeView) -> bool {
    is_arg_attr(a) && a.args is Unparsed
}

/// The message of the first `arg` annotation whose list did not read.
pub open spec fn first_unparsed(attrs: Seq<AttributeView>) -> Option<Seq<char>>
    decreases attrs.len(),
{
    if attrs.len() == 0 {
        None
    } else {
        match first_unparsed(attrs.drop_last()) {
            Some(m) => Some(m),
            None => if is_unparsed_arg(attrs.last()) {
                Some(attrs.last().args->Unparsed_message)
            } else {
                None
            },
        }
    }
}

/// Why the field at `index` cannot be rewritten, if it cannot.
pub open spec fn field_error(f: FieldView, index: int) -> Option<GenErrorView> {
    if f.name is None {
        Some(GenErrorView::MissingFieldName { field: index })
    } else {
        match first_unparsed(f.attrs) {
            Some(m) => Some(GenErrorView::MalformedArgs { field: index, message: m }),
            None => None,
        }
    }
}

/// The first field error, in field order.
pub open spec fn first_field_error(fields: Seq<FieldView>) -> Option<GenErrorView>
    decreases fields.len(),
{
    if fields.len() == 0 {
        None
    } else {
        match first_field_error(fields.drop_last()) {
            Some(e) => Some(e),
            None => field_error(fields.last(), fields.len() - 1),
        }
    }
}

/// A named field after rewriting under a stem.
pub open spec fn rewrite_field(f: FieldView, stem: Seq<char>) -> FieldView {
    rewrite_field_with(f, names_for(stem, f.name->Some_0))
}

/// A field after rewriting its `arg` annotations with the given names.
pub open spec fn rewrite_field_with(f: FieldView, n: NamesView) -> FieldView {
    FieldView { attrs: f.attrs.map_values(|a: AttributeView| rewrite_attr(a, n)), ..f }
}

/// The stem of a struct: its name in lower case.
pub open spec fn stem_of(d: StructView) -> Seq<char> {
    lower_of(d.name)
}

/// What the rewriter makes of a declaration.
pub open spec fn prefixed(d: StructView) -> Result<StructView, GenErrorView> {
    match first_field_error(d.fields) {
        Some(e) => Err(e),
        None => Ok(
            StructView {
                name: d.name,
                fields: d.fields.map_values(|f: FieldView| rewrite_field(f, stem_of(d))),
            },
        ),
    }
}

pub open spec fn decl_result_view(r: Result<StructDecl, GenError>) -> Result<
    StructView,
    GenErrorView,
> {
    match r {
        Ok(d) => Ok(d@),
        Err(e) => Err(e@),
    }
}

proof fn lemma_first_unparsed_extends(s: Seq<AttributeView>, k: int)
    requires
        0 <= k <= s.len(),
        first_unparsed(s.take(k)) is Some,
    ensures
        first_unparsed(s) == first_unparsed(s.take(k)),
    decreases s.len(),
{
    if k < s.len() {
        assert(s.drop_last().take(k) =~= s.take(k));
        lemma_first_unparsed_extends(s.drop_last(), k);
    } else {
        assert(s.take(k) =~= s);
    }
}

proof fn lemma_first_field_error_extends(s: Seq<FieldView>, k: int)
    requires
        0 <= k <= s.len(),
        first_field_error(s.take(k)) is Some,
    ensures
        first_field_error(s) == first_field_error(s.take(k)),
    decreases s.len(),
{
    if k < s.len() {
        assert(s.drop_last().take(k) =~= s.take(k));
        lemma_first_field_error_extends(s.drop_last(), k);
    } else {
        assert(s.take(k) =~= s);
    }
}

proof fn lemma_no_unparsed(attrs: Seq<AttributeView>)
    ensures
        first_unparsed(attrs) is None <==> forall|j: int|
            0 <= j < attrs.len() ==> !is_unparsed_arg(#[trigger] attrs[j]),
    decreases attrs.len(),
{
    if attrs.len() > 0 {
        lemma_no_unparsed(attrs.drop_last());
        if first_unparsed(attrs) is None {
            assert forall|j: int| 0 <= j < attrs.len() implies !is_unparsed_arg(
                #[trigger] attrs[j],
            ) by {
                if j < attrs.len() - 1 {
                    assert(attrs.drop_last()[j] == attrs[j]);
                }
            }
        }
        if forall|j: int| 0 <= j < attrs.len() ==> !is_unparsed_arg(#[trigger] attrs[j]) {
            assert forall|j: int| 0 <= j < attrs.drop_last().len() implies !is_unparsed_arg(
                #[trigger] attrs.drop_last()[j],
            ) by {
                assert(attrs.drop_last()[j] == attrs[j]);
            }
        }
    }
}

proof fn lemma_no_field_error(fields: Seq<FieldView>)
    ensures
        first_field_error(fields) is None <==> forall|i: int|
            0 <= i < fields.len() ==> (#[trigger] field_error(fields[i], i)) is None,
    decreases fields.len(),
{
    if fields.len() > 0 {
        lemma_no_field_error(fields.drop_last());
        if first_field_error(fields) is None {
            assert forall|i: int| 0 <= i < fields.len() implies (#[trigger] field_error(
                fields[i],
                i,
            )) is None by {
                if i < fields.len() - 1 {
                    assert(fields.drop_last()[i] == fields[i]);
                }
            }
        }
        if forall|i: int| 0 <= i < fields.len() ==> (#[trigger] field_error(fields[i], i)) is None {
            assert forall|i: int| 0 <= i < fields.drop_last().len() implies (#[trigger] field_error(
                fields.drop_last()[i],
                i,
            )) is None by {
                assert(fields.drop_last()[i] == fields[i]);
                assert(field_error(fields[i], i) is None);
            }
        }
    }
}

proof fn lemma_rewrite_entry_idempotent(e: EntryView, n: NamesView)
    ensures
        entry_arg_key(rewrite_entry(e, n)) == entry_arg_key(e),
        rewrite_entry(rewrite_entry(e, n), n) == rewrite_entry(e, n),
{
}

proof fn lemma_rewrite_entries_idempotent(es: Seq<EntryView>, n: NamesView)
    ensures
        rewrite_entries(rewrite_entries(es, n), n) == rewrite_entries(es, n),
{
    let m = es.map_values(|e: EntryView| rewrite_entry(e, n));
    let a1 = appended_if_unseen(es, n, ClapArgIdent::Id);
    let a2 = appended_if_unseen(es, n, ClapArgIdent::Long);
    let a3 = appended_if_unseen(es, n, ClapArgIdent::Env);
    let a4 = appended_if_unseen(es, n, ClapArgIdent::ValueName);
    let es1 = rewrite_entries(es, n);
    assert(es1 =~= m + a1 + a2 + a3 + a4);
    assert forall|k: ClapArgIdent| #[trigger] key_seen(es1, k) by {
        if key_seen(es, k) {
            let j = choose|j: int| 0 <= j < es.len() && #[trigger] entry_arg_key(es[j]) == Some(k);
            lemma_rewrite_entry_idempotent(es[j], n);
            assert(es1[j] == m[j]);
            assert(entry_arg_key(es1[j]) == Some(k));
        } else {
            let pre: int = match k {
                ClapArgIdent::Id => 0,
                ClapArgIdent::Long => a1.len() as int,
                ClapArgIdent::Env => (a1.len() + a2.len()) as int,
                ClapArgIdent::ValueName => (a1.len() + a2.len() + a3.len()) as int,
            };
            let idx = m.len() + pre;
            assert(entry_arg_key(es1[idx]) == Some(k));
        }
    }
    assert(appended_entries(es1, n) =~= seq![]);
    assert forall|j: int| 0 <= j < es1.len() implies rewrite_entry(#[trigger] es1[j], n)
        == es1[j] by {
        if j < m.len() {
            lemma_rewrite_entry_idempotent(es[j], n);
        }
    }
    assert(rewrite_entries(es1, n) =~= es1);
}

proof fn lemma_rewrite_attr_idempotent(a: AttributeView, n: NamesView)
    ensures
        rewrite_attr(rewrite_attr(a, n), n) == rewrite_attr(a, n),
        is_unparsed_arg(rewrite_attr(a, n)) == is_unparsed_arg(a),
{
    if is_arg_attr(a) && a.args is List {
        lemma_rewrite_entries_idempotent(a.args->List_entries, n);
    }
}

/// An entry that already gives a recognized key a value keeps its place
/// unchanged, and no entry for that key is appended.
pub proof fn lemma_explicit_value_wins(es: Seq<EntryView>, n: NamesView, k: int)
    requires
        0 <= k < es.len(),
        entry_arg_key(es[k]) is Some,
        is_name_value(es[k]),
    ensures
        rewrite_entries(es, n)[k] == es[k],
        forall|j: int|
            es.len() <= j < rewrite_entries(es, n).len() ==> entry_arg_key(
                #[trigger] rewrite_entries(es, n)[j],
            ) != entry_arg_key(es[k]),
{
    let key = entry_arg_key(es[k])->Some_0;
    assert(key_seen(es, key));
    let m = es.map_values(|e: EntryView| rewrite_entry(e, n));
    let r = rewrite_entries(es, n);
    assert(r =~= m + appended_if_unseen(es, n, ClapArgIdent::Id) + appended_if_unseen(
        es,
        n,
        ClapArgIdent::Long,
    ) + appended_if_unseen(es, n, ClapArgIdent::Env) + appended_if_unseen(
        es,
        n,
        ClapArgIdent::ValueName,
    ));
}

/// Rewriting a declaration that the rewriter has already produced gives it
/// back unchanged: a key that is already `key = value` is never prefixed
/// again, and no key is missing any more.
pub proof fn lemma_prefix_idempotent(d: StructView)
    requires
        prefixed(d) is Ok,
    ensures
        prefixed(prefixed(d)->Ok_0) == prefixed(d),
{
    let d1 = prefixed(d)->Ok_0;
    let stem = stem_of(d);
    lemma_no_field_error(d.fields);
    assert forall|i: int| 0 <= i < d1.fields.len() implies (#[trigger] field_error(
        d1.fields[i],
        i,
    )) is None && rewrite_field(d1.fields[i], stem) == d1.fields[i] by {
        let f = d.fields[i];
        assert(field_error(f, i) is None);
        let n = names_for(stem, f.name->Some_0);
        let f1 = d1.fields[i];
        assert(f1 == rewrite_field(f, stem));
        lemma_no_unparsed(f.attrs);
        lemma_no_unparsed(f1.attrs);
        assert forall|j: int| 0 <= j < f1.attrs.len() implies !is_unparsed_arg(
            #[trigger] f1.attrs[j],
        ) && rewrite_attr(f1.attrs[j], n) == f1.attrs[j] by {
            lemma_rewrite_attr_idempotent(f.attrs[j], n);
            assert(!is_unparsed_arg(f.attrs[j]));
        }
        assert(rewrite_field(f1, stem).attrs =~= f1.attrs);
    }
    lemma_no_field_error(d1.fields);
    assert(first_field_error(d1.fields) is None);
    assert(stem_of(d1) == stem);
    let d2 = prefixed(d1)->Ok_0;
    assert(d2.fields.len() == d1.fields.len());
    assert forall|i: int| 0 <= i < d1.fields.len() implies #[trigger] d2.fields[i]
        == d1.fields[i] by {
        assert(field_error(d1.fields[i], i) is None);
    }
    assert(d2.fields =~= d1.fields);
}

/// Everything the rewriter does not recognize comes out as it went in: the
/// struct's name, each field's name and type, every annotation other than an
/// `arg` list, and, inside an `arg` list, every entry whose key is not one of
/// `id`, `long`, `env`, `value_name`, in its place.
pub proof fn lemma_prefix_keeps_unrecognized(d: StructView, i: int, j: int)
    requires
        prefixed(d) is Ok,
        0 <= i < d.fields.len(),
        0 <= j < d.fields[i].attrs.len(),
    ensures
        ({
            let d1 = prefixed(d)->Ok_0;
            let f = d.fields[i];
            let f1 = d1.fields[i];
            let a = f.attrs[j];
            let a1 = f1.attrs[j];
            &&& d1.name == d.name
            &&& d1.fields.len() == d.fields.len()
            &&& f1.name == f.name && f1.ty == f.ty && f1.ty_text == f.ty_text
            &&& f1.attrs.len() == f.attrs.len()
            &&& a1.path_ident == a.path_ident
            &&& !(is_arg_attr(a) && a.args is List) ==> a1 == a
            &&& (is_arg_attr(a) && a.args is List) ==> forall|k: int|
                0 <= k < a.args->List_entries.len() && entry_arg_key(
                    #[trigger] a.args->List_entries[k],
                ) is None ==> a1.args->List_entries[k] == a.args->List_entries[k]
        }),
{
}

impl ClapArgIdent {
    /// The text that the key is written as.
    pub fn as_str(&self) -> (r: &'static str)
        ensures
            r@ == crate::util::arg_ident_text(*self),
    {
        match self {
            ClapArgIdent::Id => "id",
            ClapArgIdent::Long => "long",
            ClapArgIdent::Env => "env",
            ClapArgIdent::ValueName => "value_name",
        }
    }

    /// The recognized key that a text names, if any.
    pub fn from_str(s: &String) -> (r: Option<ClapArgIdent>)
        ensures
            r == recognized_key(s@),
    {
        if text_is(s, "id") {
            Some(ClapArgIdent::Id)
        } else if text_is(s, "long") {
            Some(ClapArgIdent::Long)
        } else if text_is(s, "env") {
            Some(ClapArgIdent::Env)
        } else if text_is(s, "value_name") {
            Some(ClapArgIdent::ValueName)
        } else {
            None
        }
    }
}

fn key_of(key: &Option<String>) -> (r: Option<ClapArgIdent>)
    ensures
        r == recognized_opt(opt_view(*key)),
{
    match key {
        Some(s) => ClapArgIdent::from_str(s),
        None => None,
    }
}

/// The recognized key of an entry, and whether it is a `key = value` entry.
fn classify(e: &Entry) -> (r: (Option<ClapArgIdent>, bool))
    ensures
        r.0 == entry_arg_key(e@),
        r.1 == is_name_value(e@),
{
    match e {
        Entry::Path { key, .. } => (key_of(key), false),
        Entry::NameValue { key, .. } => (key_of(key), true),
        Entry::List { key, .. } => (key_of(key), false),
        Entry::Generated { key, .. } => (Some(*key), true),
    }
}

/// A field's namespaced names, computed once per field.
pub struct Names {
    pub snake: String,
    pub scream: String,
    pub kebab: String,
}

impl View for Names {
    type V = NamesView;

    open spec fn view(&self) -> NamesView {
        NamesView { snake: self.snake@, scream: self.scream@, kebab: self.kebab@ }
    }
}

fn name_value(names: &Names, k: ClapArgIdent) -> (r: &String)
    ensures
        r@ == name_for_key(names@, k),
{
    match k {
        ClapArgIdent::Id => &names.snake,
        ClapArgIdent::Long => &names.kebab,
        ClapArgIdent::Env => &names.scream,
        ClapArgIdent::ValueName => &names.scream,
    }
}

fn push_if_unseen(out: &mut Vec<Entry>, seen: bool, names: &Names, k: ClapArgIdent)
    ensures
        final(out)@.map_values(|e: Entry| e@) == old(out)@.map_values(|e: Entry| e@) + (if seen {
            seq![]
        } else {
            seq![EntryView::Generated { key: k, value: name_for_key(names@, k) }]
        }),
{
    let ghost before = out@;
    if !seen {
        out.push(new_meta_name_str_value(k, name_value(names, k)));
    }
    assert(out@.map_values(|e: Entry| e@) =~= before.map_values(|e: Entry| e@) + (if seen {
        seq![]
    } else {
        seq![EntryView::Generated { key: k, value: name_for_key(names@, k) }]
    }));
}

/// Rewrites the entries of one `arg` list.
fn rewrite_entry_list(entries: Vec<Entry>, names: &Names) -> (r: Vec<Entry>)
    ensures
        r@.map_values(|e: Entry| e@) == rewrite_entries(entries@.map_values(|e: Entry| e@), names@),
{
    let ghost orig = entries@.map_values(|e: Entry| e@);
    let ghost n = names@;
    let mut rest = entries;
    let mut out: Vec<Entry> = Vec::new();
    let mut seen_id = false;
    let mut seen_long = false;
    let mut seen_env = false;
    let mut seen_value_name = false;
    let len = rest.len();
    let mut i: usize = 0;
    while rest.len() > 0
        invariant
            len == orig.len(),
            i + rest@.len() == len,
            out@.len() == i,
            rest@.map_values(|e: Entry| e@) =~= orig.subrange(i as int, len as int),
            out@.map_values(|e: Entry| e@) =~= orig.take(i as int).map_values(
                |e: EntryView| rewrite_entry(e, n),
            ),
            seen_id == key_seen(orig.take(i as int), ClapArgIdent::Id),
            seen_long == key_seen(orig.take(i as int), ClapArgIdent::Long),
            seen_env == key_seen(orig.take(i as int), ClapArgIdent::Env),
            seen_value_name == key_seen(orig.take(i as int), ClapArgIdent::ValueName),
            n == names@,
        decreases rest.len(),
    {
        let ghost prev = orig.take(i as int);
        let ghost before = rest@;
        let ghost out_before = out@;
        let entry = rest.remove(0);
        proof {
            assert(before.map_values(|e: Entry| e@)[0] == before[0]@);
            assert forall|k: int| 0 <= k < rest@.len() implies (#[trigger] rest@[k])@ == orig[i + 1 + k] by {
                assert(before.map_values(|e: Entry| e@)[k + 1] == before[k + 1]@);
            }
        }
        let (key, pair) = classify(&entry);
        let ghost next = orig.take(i as int + 1);
        assert(next =~= prev.push(entry@));
        assert forall|k: ClapArgIdent| #[trigger] key_seen(next, k) == (key_seen(prev, k) || key == Some(k)) by {
            if key == Some(k) {
                assert(entry_arg_key(next[i as int]) == Some(k));
            }
            if key_seen(prev, k) {
                let j = choose|j: int| 0 <= j < prev.len() && #[trigger] entry_arg_key(prev[j]) == Some(k);
                assert(entry_arg_key(next[j]) == Some(k));
            }
            if key_seen(next, k) {
                let j = choose|j: int| 0 <= j < next.len() && #[trigger] entry_arg_key(next[j]) == Some(k);
                if j < i {
                    assert(entry_arg_key(prev[j]) == Some(k));
                }
            }
        }
        match key {
            Some(k) => {
                match k {
                    ClapArgIdent::Id => seen_id = true,
                    ClapArgIdent::Long => seen_long = true,
                    ClapArgIdent::Env => seen_env = true,
                    ClapArgIdent::ValueName => seen_value_name = true,
                }
                if pair {
                    out.push(entry);
                } else {
                    out.push(new_meta_name_str_value(k, name_value(names, k)));
                }
            },
            None => {
                out.push(entry);
            },
        }
        proof {
            assert forall|k: int| 0 <= k <= i implies (#[trigger] out@[k])@ == rewrite_entry(
                orig[k],
                n,
            ) by {
                if k < i {
                    assert(out_before.map_values(|e: Entry| e@)[k] == out_before[k]@);
                }
            }
        }
        i = i + 1;
    }
    assert(orig.take(len as int) =~= orig);
    let ghost mapped = out@.map_values(|e: Entry| e@);
    push_if_unseen(&mut out, seen_id, names, ClapArgIdent::Id);
    push_if_unseen(&mut out, seen_long, names, ClapArgIdent::Long);
    push_if_unseen(&mut out, seen_env, names, ClapArgIdent::Env);
    push_if_unseen(&mut out, seen_value_name, names, ClapArgIdent::ValueName);
    assert(out@.map_values(|e: Entry| e@) =~= mapped + appended_entries(orig, n));
    out
}

/// The message of the first `arg` annotation whose list did not read.
#[verifier::loop_isolation(false)]
fn first_malformed(attrs: &Vec<Attribute>) -> (r: Option<String>)
    ensures
        opt_view(r) == first_unparsed(attrs@.map_values(|a: Attribute| a@)),
{
    let ghost orig = attrs@.map_values(|a: Attribute| a@);
    let mut i: usize = 0;
    while i < attrs.len()
        invariant
            i <= attrs@.len(),
            first_unparsed(orig.take(i as int)) is None,
        decreases attrs@.len() - i,
    {
        let attr = &attrs[i];
        proof {
            assert(orig.take(i + 1).drop_last() =~= orig.take(i as int));
            assert(orig.take(i + 1).last() == attr@);
        }
        let is_arg = match &attr.path_ident {
            Some(p) => text_is(p, "arg"),
            None => false,
        };
        if is_arg {
            if let AttrArgs::Unparsed { message } = &attr.args {
                proof {
                    lemma_first_unparsed_extends(orig, i + 1);
                }
                return Some(message.clone());
            }
        }
        i = i + 1;
    }
    assert(orig.take(i as int) =~= orig);
    None
}

/// Rewrites the `arg` annotations of one field with its namespaced names;
/// `index` is the field's position. On error the field is left unchanged.
#[verifier::loop_isolation(false)]
pub fn rewrite_field_args(field: &mut FieldDecl, names: &Names, index: usize) -> (r: Result<
    (),
    GenError,
>)
    ensures
        match r {
            Ok(()) => first_unparsed(old(field)@.attrs) is None && final(field)@
                == rewrite_field_with(old(field)@, names@),
            Err(e) => first_unparsed(old(field)@.attrs) is Some && e@
                == (GenErrorView::MalformedArgs {
                field: index as int,
                message: first_unparsed(old(field)@.attrs)->Some_0,
            }) && *final(field) == *old(field),
        },
{
    let ghost f0 = field@;
    if let Some(message) = first_malformed(&field.attrs) {
        return Err(GenError::MalformedArgs { field: index, message });
    }
    let ghost n = names@;
    let ghost orig = field.attrs@.map_values(|a: Attribute| a@);
    let mut rest: Vec<Attribute> = Vec::new();
    std::mem::swap(&mut rest, &mut field.attrs);
    let mut out: Vec<Attribute> = Vec::new();
    let len = rest.len();
    let mut i: usize = 0;
    while rest.len() > 0
        invariant
            len == orig.len(),
            i + rest@.len() == len,
            out@.len() == i,
            rest@.map_values(|a: Attribute| a@) =~= orig.subrange(i as int, len as int),
            out@.map_values(|a: Attribute| a@) =~= orig.take(i as int).map_values(
                |a: AttributeView| rewrite_attr(a, n),
            ),
            first_unparsed(orig) is None,
            n == names@,
            f0.attrs == orig,
        decreases rest.len(),
    {
        let ghost before = rest@;
        let ghost out_before = out@;
        let attr = rest.remove(0);
        proof {
            assert(before.map_values(|a: Attribute| a@)[0] == before[0]@);
            assert forall|k: int| 0 <= k < rest@.len() implies (#[trigger] rest@[k])@ == orig[i + 1 + k] by {
                assert(before.map_values(|a: Attribute| a@)[k + 1] == before[k + 1]@);
            }
        }
        assert(orig.take(i as int + 1).drop_last() =~= orig.take(i as int));
        let Attribute { path_ident, args } = attr;
        let is_arg = match &path_ident {
            Some(p) => text_is(p, "arg"),
            None => false,
        };
        if is_arg {
            match args {
                AttrArgs::List { entries } => {
                    let new_entries = rewrite_entry_list(entries, &names);
                    out.push(Attribute { path_ident, args: AttrArgs::List { entries: new_entries } });
                },
                AttrArgs::Unparsed { message } => {
                    out.push(Attribute { path_ident, args: AttrArgs::Unparsed { message } });
                },
                AttrArgs::NotList => {
                    out.push(Attribute { path_ident, args: AttrArgs::NotList });
                },
            }
        } else {
            out.push(Attribute { path_ident, args });
        }
        proof {
            assert forall|k: int| 0 <= k <= i implies (#[trigger] out@[k])@ == rewrite_attr(
                orig[k],
                n,
            ) by {
                if k < i {
                    assert(out_before.map_values(|a: Attribute| a@)[k] == out_before[k]@);
                }
            }
        }
        i = i + 1;
    }
    assert(orig.take(len as int) =~= orig);
    field.attrs = out;
    Ok(())
}

/// Rewrites the `arg` annotations of one field; `index` is its position.
#[verifier::loop_isolation(false)]
fn update_field(field: &mut FieldDecl, prefix: &String, index: usize) -> (r: Result<(), GenError>)
    ensures
        match r {
            Ok(()) => field_error(old(field)@, index as int) is None && final(field)@
                == rewrite_field(old(field)@, prefix@),
            Err(e) => field_error(old(field)@, index as int) == Some(e@) && *final(field)
                == *old(field),
        },
{
    let field_ident = match &field.name {
        Some(n) => n,
        None => {
            return Err(GenError::MissingFieldName { field: index });
        },
    };
    let snake_case_value = prefix.clone().concat("_").concat(field_ident.as_str());
    let screaming_case_value = to_upper(snake_case_value.as_str());
    let kebab_case_value = underscores_to_hyphens(snake_case_value.as_str());
    let names = Names {
        snake: snake_case_value,
        scream: screaming_case_value,
        kebab: kebab_case_value,
    };
    let ghost n = names@;
    assert(n == names_for(prefix@, field_ident@));
    rewrite_field_args(field, &names, index)
}

/// Namespaces every field's `arg` entries by the struct's lowercase name.
#[verifier::loop_isolation(false)]
pub fn prefix(input: StructDecl) -> (r: Result<StructDecl, GenError>)
    ensures
        decl_result_view(r) == prefixed(input@),
{
    let ghost d0 = input@;
    let StructDecl { name, fields } = input;
    let ghost orig = fields@.map_values(|f: FieldDecl| f@);
    assert(d0.fields == orig && d0.name == name@);
    let stem = to_lower(name.as_str());
    let mut rest = fields;
    let mut out: Vec<FieldDecl> = Vec::new();
    let len = rest.len();
    let mut i: usize = 0;
    while rest.len() > 0
        invariant
            len == orig.len(),
            i + rest@.len() == len,
            out@.len() == i,
            rest@.map_values(|f: FieldDecl| f@) =~= orig.subrange(i as int, len as int),
            out@.map_values(|f: FieldDecl| f@) =~= orig.take(i as int).map_values(
                |f: FieldView| rewrite_field(f, stem@),
            ),
            first_field_error(orig.take(i as int)) is None,
            d0.fields == orig,
            d0.name == name@,
            stem@ == lower_of(name@),
        decreases rest.len(),
    {
        let ghost before = rest@;
        let ghost out_before = out@;
        let mut field = rest.remove(0);
        proof {
            assert(before.map_values(|f: FieldDecl| f@)[0] == before[0]@);
            assert forall|k: int| 0 <= k < rest@.len() implies (#[trigger] rest@[k])@ == orig[i + 1 + k] by {
                assert(before.map_values(|f: FieldDecl| f@)[k + 1] == before[k + 1]@);
            }
        }
        assert(orig.take(i as int + 1).drop_last() =~= orig.take(i as int));
        match update_field(&mut field, &stem, i) {
            Ok(()) => {},
            Err(e) => {
                proof {
                    assert(orig.take(i as int + 1).last() == orig[i as int]);
                    assert(first_field_error(orig.take(i as int + 1)) == Some(e@));
                    lemma_first_field_error_extends(orig, i as int + 1);
                    assert(prefixed(d0) == Err::<StructView, GenErrorView>(e@));
                }
                return Err(e);
            },
        }
        out.push(field);
        proof {
            assert forall|k: int| 0 <= k <= i implies (#[trigger] out@[k])@ == rewrite_field(
                orig[k],
                stem@,
            ) by {
                if k < i {
                    assert(out_before.map_values(|f: FieldDecl| f@)[k] == out_before[k]@);
                }
            }
        }
        i = i + 1;
    }
    assert(orig.take(len as int) =~= orig);
    Ok(StructDecl { name, fields: out })
}

} // verus!
