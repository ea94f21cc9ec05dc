//! `Display`: the text of a value of a struct or of a variant of an enum, as
//! the format strings and styles of their attributes lay it out.
use vstd::prelude::*;
use crate::def::{find_field, opt_with_view, spec_display_attrs, spec_find_field, Attrs, DisplayAttrsView, EnumDef, FieldDef, FieldsKind, StructDef, WithFormat, WithView};
use crate::value::TypeView;
use crate::error::DeriveError;
use crate::field_key::{keys_view, key_eq, spec_key_text, spec_keys_of_path, FieldKey, KeyView};
use crate::format::{DisplayFormat, DisplayFormatPart, PartView};
use crate::format_spec::{spec_parse_format_spec, FormatSpec, FormatSpecView, FormatType};
use crate::render::{render_value, spec_render_value};
use crate::style::{spec_apply_style, DisplayStyle};
use crate::util::{push_chars, push_str, chars_of};
use crate::value::{copy_value, lemma_record_view_len, record_view, value_view, values_view, Value, ValueView};

verus! {

/// The first entry of a record with key `k`.
pub open spec fn spec_lookup(fs: Seq<(KeyView, ValueView)>, k: KeyView) -> Option<ValueView>
    decreases fs.len(),
{
    if fs.len() == 0 {
        None
    } else if fs[0].0 == k {
        Some(fs[0].1)
    } else {
        spec_lookup(fs.drop_first(), k)
    }
}

/// The member of `v` at the path `keys` (`v` itself for the empty path).
pub open spec fn spec_member_path(v: ValueView, keys: Seq<KeyView>) -> Option<ValueView>
    decreases keys.len(),
{
    if keys.len() == 0 {
        Some(v)
    } else {
        match v {
            ValueView::Record(fs) => match spec_lookup(fs, keys[0]) {
                Some(w) => spec_member_path(w, keys.drop_first()),
                None => None,
            },
            _ => None,
        }
    }
}

/// A value written with a format specifier, or `Unsupported`.
pub open spec fn spec_render(v: ValueView, fs: FormatSpecView) -> Result<Seq<char>, DeriveError> {
    match spec_render_value(v, fs) {
        Some(t) => Ok(t),
        None => Err(DeriveError::Unsupported),
    }
}

/// A value of the type `t` (where it is known) written with a format
/// specifier, or `Unsupported`.
pub open spec fn spec_render_t(v: ValueView, t: Option<TypeView>, fs: FormatSpecView) -> Result<Seq<char>, DeriveError> {
    match crate::render::spec_render_typed(v, t, fs) {
        Some(x) => Ok(x),
        None => Err(DeriveError::Unsupported),
    }
}

/// A field's value `v` written by the format `w` of `with = ...`: `fmt()`
/// writes the value's own text (the specifier plays no part), a delimiter
/// the texts of the items of a list with the delimiter between them, and
/// `RegexInfer` the value with the specifier.
pub open spec fn spec_with_text(w: WithView, v: ValueView, t: TypeView, fs: FormatSpecView) -> Result<Seq<char>, DeriveError> {
    match w {
        WithView::Fmt => spec_render(v, crate::formats::plain_spec()),
        WithView::RegexInfer => spec_render_t(v, Some(t), fs),
        WithView::Join(d) => match v {
            ValueView::List(items) => match crate::formats::spec_join_write(items, d) {
                Some(t) => Ok(t),
                None => Err(DeriveError::Unsupported),
            },
            _ => Err(DeriveError::Unsupported),
        },
    }
}

/// A field's value `v` with the specifier `fs`, by the format of the field's
/// `with = ...` where it has one.
pub open spec fn spec_render_with(with: Option<WithView>, v: ValueView, t: TypeView, fs: FormatSpecView) -> Result<Seq<char>, DeriveError> {
    match with {
        Some(w) => spec_with_text(w, v, t, fs),
        None => spec_render_t(v, Some(t), fs),
    }
}

/// `{arg:spec}` in the format of a field of type `t` whose value is `v` (and
/// whose `with = ...` is `with`): `{}` is the value itself, `{x.y}` its
/// member at that path.
pub open spec fn spec_write_field_var(v: ValueView, t: TypeView, with: Option<WithView>, arg: Seq<char>, spec: Seq<char>) -> Result<Seq<char>, DeriveError> {
    match spec_parse_format_spec(spec) {
        None => Err(DeriveError::InvalidFormatSpec),
        Some(fs) => {
            let keys = spec_keys_of_path(arg);
            if keys.len() == 0 {
                spec_render_with(with, v, t, fs)
            } else {
                match spec_member_path(v, keys) {
                    None => Err(DeriveError::UnknownField),
                    Some(w) => spec_render_t(w, crate::from_str::spec_type_at(t, keys), fs),
                }
            }
        },
    }
}

/// The text of one part of the format of a field whose value is `v`.
pub open spec fn spec_field_part(v: ValueView, t: TypeView, with: Option<WithView>, p: PartView) -> Result<Seq<char>, DeriveError> {
    match p {
        PartView::Str(s) => Ok(s),
        PartView::EscapedBeginBracket => Ok(seq!['{']),
        PartView::EscapedEndBracket => Ok(seq!['}']),
        PartView::Var { arg, format_spec } => spec_write_field_var(v, t, with, arg, format_spec),
    }
}

/// The format of a field written for its value `v`: the texts of the parts
/// one after another, or the error of the first part that fails.
pub open spec fn spec_write_field_parts(v: ValueView, t: TypeView, with: Option<WithView>, parts: Seq<PartView>) -> Result<Seq<char>, DeriveError>
    decreases parts.len(),
{
    if parts.len() == 0 {
        Ok(seq![])
    } else {
        match spec_field_part(v, t, with, parts[0]) {
            Err(e) => Err(e),
            Ok(x) => match spec_write_field_parts(v, t, with, parts.drop_first()) {
                Err(e) => Err(e),
                Ok(rest) => Ok(x + rest),
            },
        }
    }
}

/// A field named in the format of its struct or variant: by its own format
/// where it has one (the specifier of the outer argument then plays no part),
/// else its value with the specifier (by its `with = ...` where it has one).
pub open spec fn spec_write_field_plain(f: FieldDef, v: ValueView, fs: FormatSpecView) -> Result<Seq<char>, DeriveError> {
    let with = opt_with_view(f.attrs.with);
    let t = crate::value::type_view(f.ty);
    match spec_display_attrs(f.attrs) {
        Err(e) => Err(e),
        Ok(fa) => match fa.format {
            Some(parts) => spec_write_field_parts(v, t, with, parts),
            None => spec_render_with(with, v, t, fs),
        },
    }
}

/// A field named in the format of its struct or variant (see
/// `spec_write_field_plain`); a field of `#[display(opt)]` holds an `Option`
/// of its type: `None` leaves out the whole field, format and all, `Some`
/// writes the value it holds.
pub open spec fn spec_write_field(f: FieldDef, v: ValueView, fs: FormatSpecView) -> Result<Seq<char>, DeriveError> {
    match spec_display_attrs(f.attrs) {
        Err(e) => Err(e),
        Ok(_) => if f.attrs.opt {
            match v {
                ValueView::Opt(None) => Ok(seq![]),
                ValueView::Opt(Some(b)) => spec_write_field_plain(f, *b, fs),
                _ => Err(DeriveError::Unsupported),
            }
        } else {
            spec_write_field_plain(f, v, fs)
        },
    }
}

/// What the format of a struct or a variant knows of the value itself: the
/// variant's name in its style (none for a struct), and, for a format
/// specifier of another trait than `Display` (as written after the `:`, such
/// as `?` or `#x`), the text that the type's own impl of that trait writes of
/// the value, as the caller gives it.
pub struct SelfView {
    pub name: Option<Seq<char>>,
    pub own: Seq<(Seq<char>, Seq<char>)>,
}

/// The text given for the specifier `spec`: the first entry with that key.
pub open spec fn spec_lookup_own(own: Seq<(Seq<char>, Seq<char>)>, spec: Seq<char>) -> Option<Seq<char>>
    decreases own.len(),
{
    if own.len() == 0 {
        None
    } else if own[0].0 == spec {
        Some(own[0].1)
    } else {
        spec_lookup_own(own.drop_first(), spec)
    }
}

pub open spec fn own_view(own: Seq<(String, String)>) -> Seq<(Seq<char>, Seq<char>)> {
    own.map_values(|e: (String, String)| (e.0@, e.1@))
}

/// `{arg:spec}` in the format of a struct or of a variant: `{}` is the
/// variant's name (and not allowed in a struct), `{:?}` and the other traits
/// the text given for the value itself, a path a field or its member.
pub open spec fn spec_write_top_var(
    me: SelfView,
    fields: Seq<FieldDef>,
    values: Seq<ValueView>,
    arg: Seq<char>,
    spec: Seq<char>,
) -> Result<Seq<char>, DeriveError> {
    match spec_parse_format_spec(spec) {
        None => Err(DeriveError::InvalidFormatSpec),
        Some(fs) => {
            let keys = spec_keys_of_path(arg);
            if keys.len() == 0 {
                if fs.format_type != FormatType::Display {
                    match spec_lookup_own(me.own, spec) {
                        Some(t) => Ok(t),
                        None => Err(DeriveError::OwnTextMissing),
                    }
                } else {
                    match me.name {
                        None => Err(DeriveError::EmptyArgInStruct),
                        Some(n) => spec_render(ValueView::Str(n), fs),
                    }
                }
            } else {
                match spec_find_field(fields, keys[0]) {
                    None => Err(DeriveError::UnknownField),
                    Some(i) => if keys.len() == 1 {
                        spec_write_field(fields[i], values[i], fs)
                    } else {
                        match spec_member_path(values[i], keys.drop_first()) {
                            None => Err(DeriveError::UnknownField),
                            Some(w) => spec_render_t(w, crate::from_str::spec_type_at(crate::value::type_view(fields[i].ty), keys.drop_first()), fs),
                        }
                    },
                }
            }
        },
    }
}

/// The text of one part of the format of a struct or a variant.
pub open spec fn spec_top_part(
    me: SelfView,
    fields: Seq<FieldDef>,
    values: Seq<ValueView>,
    p: PartView,
) -> Result<Seq<char>, DeriveError> {
    match p {
        PartView::Str(s) => Ok(s),
        PartView::EscapedBeginBracket => Ok(seq!['{']),
        PartView::EscapedEndBracket => Ok(seq!['}']),
        PartView::Var { arg, format_spec } => spec_write_top_var(me, fields, values, arg, format_spec),
    }
}

/// The format of a struct or a variant written for the values of its fields:
/// the texts of the parts one after another, or the error of the first part
/// that fails.
pub open spec fn spec_write_top_parts(
    me: SelfView,
    fields: Seq<FieldDef>,
    values: Seq<ValueView>,
    parts: Seq<PartView>,
) -> Result<Seq<char>, DeriveError>
    decreases parts.len(),
{
    if parts.len() == 0 {
        Ok(seq![])
    } else {
        match spec_top_part(me, fields, values, parts[0]) {
            Err(e) => Err(e),
            Ok(t) => match spec_write_top_parts(me, fields, values, parts.drop_first()) {
                Err(e) => Err(e),
                Ok(rest) => Ok(t + rest),
            },
        }
    }
}

/// The format of a struct without `#[display("...")]`: `{f}` for its only
/// field `f`, none where it has another number of fields.
pub open spec fn spec_newtype_format(fields: Seq<FieldDef>) -> Option<Seq<PartView>> {
    if fields.len() == 1 {
        Some(seq![PartView::Var { arg: spec_key_text(fields[0].key@), format_spec: seq![] }])
    } else {
        None
    }
}

/// The text of a value of the struct `d` with the field values `values`
/// (and the texts `own` that its own impls write of it).
pub open spec fn spec_render_struct(d: StructDef, values: Seq<ValueView>, own: Seq<(Seq<char>, Seq<char>)>) -> Result<Seq<char>, DeriveError> {
    match spec_display_attrs(d.attrs) {
        Err(e) => Err(e),
        Ok(da) => {
            let format = match da.format {
                Some(p) => Some(p),
                None => spec_newtype_format(d.fields@),
            };
            match format {
                None => Err(DeriveError::FormatRequired),
                Some(p) => spec_write_top_parts(SelfView { name: None, own }, d.fields@, values, p),
            }
        },
    }
}

/// The format of a unit variant without `#[display("...")]`: `{}`.
pub open spec fn unit_format() -> Seq<PartView> {
    seq![PartView::Var { arg: seq![], format_spec: seq![] }]
}

/// The text of the variant `vi` of the enum `e` with the field values
/// `values`: the variant's format and style come before those of the enum.
pub open spec fn spec_render_variant(e: EnumDef, vi: int, values: Seq<ValueView>, own: Seq<(Seq<char>, Seq<char>)>) -> Result<Seq<char>, DeriveError> {
    let v = e.variants@[vi];
    match spec_display_attrs(e.attrs) {
        Err(err) => Err(err),
        Ok(ea) => match spec_display_attrs(v.attrs) {
            Err(err) => Err(err),
            Ok(va) => {
                let style = match va.style {
                    Some(s) => s,
                    None => match ea.style {
                        Some(s) => s,
                        None => DisplayStyle::NoChange,
                    },
                };
                let format = match va.format {
                    Some(p) => Some(p),
                    None => match ea.format {
                        Some(p) => Some(p),
                        None => if v.kind == FieldsKind::Unit {
                            Some(unit_format())
                        } else {
                            None
                        },
                    },
                };
                match format {
                    None => Err(DeriveError::FormatRequired),
                    Some(p) => spec_write_top_parts(SelfView { name: Some(spec_apply_style(style, v.name@)), own }, v.fields@, values, p),
                }
            },
        },
    }
}

/// What the attributes of a struct or of its field owe, checked for `{arg:spec}`
/// without the values: the specifier parses; a name starts with a field; the
/// attributes of a field named alone parse, and so do the specifiers of its
/// format, whose names are members of the field's type; the other paths are
/// members of the types of their fields; in a struct's format, `{}` is not
/// there.
pub open spec fn spec_check_field_var(t: TypeView, has_with: bool, arg: Seq<char>, spec: Seq<char>) -> Option<DeriveError> {
    match spec_parse_format_spec(spec) {
        None => Some(DeriveError::InvalidFormatSpec),
        Some(fs) => {
            let keys = spec_keys_of_path(arg);
            if !crate::render::direct_args(fs) {
                Some(DeriveError::CountFromArgument)
            } else if keys.len() == 0 && has_with && fs.format_type != FormatType::Display {
                Some(DeriveError::WithFormatType)
            } else {
                match crate::from_str::spec_type_at(t, keys) {
                    None => Some(DeriveError::UnknownField),
                    Some(_) => None,
                }
            }
        },
    }
}

/// The first error of the parts of the format of a field of type `t`.
pub open spec fn spec_check_field_parts(t: TypeView, has_with: bool, parts: Seq<PartView>) -> Option<DeriveError>
    decreases parts.len(),
{
    if parts.len() == 0 {
        None
    } else {
        match parts[0] {
            PartView::Var { arg, format_spec } => match spec_check_field_var(t, has_with, arg, format_spec) {
                Some(e) => Some(e),
                None => spec_check_field_parts(t, has_with, parts.drop_first()),
            },
            _ => spec_check_field_parts(t, has_with, parts.drop_first()),
        }
    }
}

/// `{arg:spec}` in the format of a struct (`in_struct`) or of a variant,
/// checked without the values.
pub open spec fn spec_check_top_var(in_struct: bool, fields: Seq<FieldDef>, arg: Seq<char>, spec: Seq<char>) -> Option<DeriveError> {
    match spec_parse_format_spec(spec) {
        None => Some(DeriveError::InvalidFormatSpec),
        Some(fs) => {
            let keys = spec_keys_of_path(arg);
            if !crate::render::direct_args(fs) {
                Some(DeriveError::CountFromArgument)
            } else if keys.len() == 0 {
                if fs.format_type != FormatType::Display {
                    None
                } else if in_struct {
                    Some(DeriveError::EmptyArgInStruct)
                } else {
                    None
                }
            } else {
                match spec_find_field(fields, keys[0]) {
                    None => Some(DeriveError::UnknownField),
                    Some(i) => {
                        let t = crate::value::type_view(fields[i].ty);
                        if keys.len() == 1 {
                            let has_with = fields[i].attrs.with is Some;
                            match spec_display_attrs(fields[i].attrs) {
                                Err(e) => Some(e),
                                Ok(fa) => match fa.format {
                                    Some(p) => spec_check_field_parts(t, has_with, p),
                                    None => if has_with && fs.format_type != FormatType::Display {
                                        Some(DeriveError::WithFormatType)
                                    } else {
                                        None
                                    },
                                },
                            }
                        } else {
                            match crate::from_str::spec_type_at(t, keys.drop_first()) {
                                None => Some(DeriveError::UnknownField),
                                Some(_) => None,
                            }
                        }
                    },
                }
            }
        },
    }
}

/// The first error of the parts of the format of a struct or a variant,
/// checked without the values.
pub open spec fn spec_check_top_parts(in_struct: bool, fields: Seq<FieldDef>, parts: Seq<PartView>) -> Option<DeriveError>
    decreases parts.len(),
{
    if parts.len() == 0 {
        None
    } else {
        match parts[0] {
            PartView::Var { arg, format_spec } => match spec_check_top_var(in_struct, fields, arg, format_spec) {
                Some(e) => Some(e),
                None => spec_check_top_parts(in_struct, fields, parts.drop_first()),
            },
            _ => spec_check_top_parts(in_struct, fields, parts.drop_first()),
        }
    }
}

/// Why the struct has no `Display`, checked without values.
pub open spec fn spec_check_struct(d: StructDef) -> Option<DeriveError> {
    match spec_display_attrs(d.attrs) {
        Err(e) => Some(e),
        Ok(da) => {
            let format = match da.format {
                Some(p) => Some(p),
                None => spec_newtype_format(d.fields@),
            };
            match format {
                None => Some(DeriveError::FormatRequired),
                Some(p) => spec_check_top_parts(true, d.fields@, p),
            }
        },
    }
}

/// Why the variant `j` has no `Display`, checked without values.
pub open spec fn spec_check_variant(e: EnumDef, ea: DisplayAttrsView, j: int) -> Option<DeriveError> {
    let v = e.variants@[j];
    match spec_display_attrs(v.attrs) {
        Err(err) => Some(err),
        Ok(va) => {
            let format = match va.format {
                Some(p) => Some(p),
                None => match ea.format {
                    Some(p) => Some(p),
                    None => if v.kind == FieldsKind::Unit {
                        Some(unit_format())
                    } else {
                        None
                    },
                },
            };
            match format {
                None => Some(DeriveError::FormatRequired),
                Some(p) => spec_check_top_parts(false, v.fields@, p),
            }
        },
    }
}

/// The error of the first variant from `j` on that has no `Display`.
pub open spec fn spec_check_variants(e: EnumDef, ea: DisplayAttrsView, j: int) -> Option<DeriveError>
    decreases e.variants@.len() - j,
{
    if j < 0 || j >= e.variants@.len() {
        None
    } else {
        match spec_check_variant(e, ea, j) {
            Some(err) => Some(err),
            None => spec_check_variants(e, ea, j + 1),
        }
    }
}

/// What `Display` writes for a value of the struct `d` with the field values
/// `values` (and the texts `own` that the struct's own impls of other
/// traits write of it), or why the struct has no `Display`.
pub open spec fn spec_display_struct(d: StructDef, values: Seq<ValueView>, own: Seq<(Seq<char>, Seq<char>)>) -> Result<Seq<char>, DeriveError> {
    match spec_check_struct(d) {
        Some(e) => Err(e),
        None => spec_render_struct(d, values, own),
    }
}

/// What `Display` writes for the variant `vi` of the enum `e` with the field
/// values `values`, or why the enum has no `Display`: the attributes of all
/// variants are checked, in order.
pub open spec fn spec_display_variant(e: EnumDef, vi: int, values: Seq<ValueView>, own: Seq<(Seq<char>, Seq<char>)>) -> Result<Seq<char>, DeriveError> {
    match spec_display_attrs(e.attrs) {
        Err(err) => Err(err),
        Ok(ea) => match spec_check_variants(e, ea, 0) {
            Some(err) => Err(err),
            None => spec_render_variant(e, vi, values, own),
        },
    }
}

pub open spec fn result_view(r: Result<String, DeriveError>) -> Result<Seq<char>, DeriveError> {
    match r {
        Ok(s) => Ok(s@),
        Err(e) => Err(e),
    }
}

/// The member of `v` at the path `keys[from..]`.
#[verifier::loop_isolation(false)]
fn member_path(v: &Value, keys: &Vec<FieldKey>, from: usize) -> (r: Option<Value>)
    requires
        from <= keys.len(),
    ensures
        match r {
            Some(w) => spec_member_path(v@, keys_view(keys@).skip(from as int)) == Some(w@),
            None => spec_member_path(v@, keys_view(keys@).skip(from as int)) is None,
        },
{
    let mut cur = copy_value(v);
    let mut i = from;
    assert(keys_view(keys@).skip(from as int).len() == keys.len() - from);
    while i < keys.len()
        invariant
            from <= i <= keys.len(),
            spec_member_path(v@, keys_view(keys@).skip(from as int)) == spec_member_path(cur@, keys_view(keys@).skip(i as int)),
        decreases keys.len() - i,
    {
        let ghost ks = keys_view(keys@).skip(i as int);
        assert(ks[0] == keys@[i as int]@);
        assert(ks.drop_first() =~= keys_view(keys@).skip(i + 1));
        let next = match &cur {
            Value::Record(fs) => match lookup(fs, &keys[i]) {
                Some(w) => w,
                None => {
                    return None;
                },
            },
            _ => {
                return None;
            },
        };
        cur = next;
        i += 1;
    }
    Some(cur)
}

/// The value of the first entry of a record with key `k`.
fn lookup(fs: &Vec<(FieldKey, Value)>, k: &FieldKey) -> (r: Option<Value>)
    ensures
        match r {
            Some(w) => spec_lookup(record_view(fs@), k@) == Some(w@),
            None => spec_lookup(record_view(fs@), k@) is None,
        },
{
    proof {
        lemma_record_view_len(fs@);
    }
    let mut j: usize = 0;
    assert(record_view(fs@).skip(0) =~= record_view(fs@));
    while j < fs.len()
        invariant
            j <= fs.len(),
            record_view(fs@).len() == fs.len(),
            forall|m: int| 0 <= m < fs.len() ==> #[trigger] record_view(fs@)[m] == (fs@[m].0@, value_view(fs@[m].1)),
            spec_lookup(record_view(fs@), k@) == spec_lookup(record_view(fs@).skip(j as int), k@),
        decreases fs.len() - j,
    {
        let ghost rest = record_view(fs@).skip(j as int);
        assert(rest[0] == record_view(fs@)[j as int]);
        if key_eq(&fs[j].0, k) {
            return Some(copy_value(&fs[j].1));
        }
        assert(rest.drop_first() =~= record_view(fs@).skip(j + 1));
        j += 1;
    }
    None
}

/// A value written with a format specifier, or `Unsupported`.
fn render(v: &Value, fs: &FormatSpec) -> (r: Result<String, DeriveError>)
    ensures
        result_view(r) == spec_render(v@, fs@),
{
    match render_value(v, fs) {
        Some(t) => Ok(t),
        None => Err(DeriveError::Unsupported),
    }
}

/// A value of a known type written with a format specifier, or
/// `Unsupported`.
fn render_t(v: &Value, t: Option<&crate::value::ValueType>, fs: &FormatSpec) -> (r: Result<String, DeriveError>)
    ensures
        result_view(r) == spec_render_t(v@, crate::render::opt_type_view(t), fs@),
{
    match crate::render::render_typed(v, t, fs) {
        Some(x) => Ok(x),
        None => Err(DeriveError::Unsupported),
    }
}

/// A field's value written by the format of its `with = ...`.
fn with_text(w: &WithFormat, v: &Value, t: &crate::value::ValueType, fs: &FormatSpec) -> (r: Result<String, DeriveError>)
    ensures
        result_view(r) == spec_with_text(w@, v@, t@, fs@),
{
    match w {
        WithFormat::Fmt => match crate::formats::fmt().write(v) {
            Some(t) => Ok(t),
            None => Err(DeriveError::Unsupported),
        },
        WithFormat::RegexInfer => render_t(v, Some(t), fs),
        WithFormat::Join(d) => match v {
            Value::List(items) => {
                proof {
                    crate::value::lemma_list_view_len(items@);
                    assert(values_view(items@) =~= crate::value::list_view(items@));
                }
                match crate::formats::delimiter(d.as_str()).write(items) {
                    Some(t) => Ok(t),
                    None => Err(DeriveError::Unsupported),
                }
            },
            _ => Err(DeriveError::Unsupported),
        },
    }
}

/// A field's value with a specifier, by its `with = ...` where it has one.
fn render_with(with: &Option<WithFormat>, v: &Value, t: &crate::value::ValueType, fs: &FormatSpec) -> (r: Result<String, DeriveError>)
    ensures
        result_view(r) == spec_render_with(opt_with_view(*with), v@, t@, fs@),
{
    match with {
        Some(w) => with_text(w, v, t, fs),
        None => render_t(v, Some(t), fs),
    }
}

/// `{arg:spec}` in the format of a field of type `t` whose value is `v`.
fn write_field_var(v: &Value, t: &crate::value::ValueType, with: &Option<WithFormat>, arg: &String, spec: &String) -> (r: Result<String, DeriveError>)
    ensures
        result_view(r) == spec_write_field_var(v@, t@, opt_with_view(*with), arg@, spec@),
{
    let fs = match FormatSpec::parse(spec.as_str()) {
        Ok(f) => f,
        Err(_) => {
            return Err(DeriveError::InvalidFormatSpec);
        },
    };
    let keys = FieldKey::from_str_deep(arg.as_str());
    if keys.len() == 0 {
        return render_with(with, v, t, &fs);
    }
    assert(keys_view(keys@).skip(0) =~= keys_view(keys@));
    match member_path(v, &keys, 0) {
        None => Err(DeriveError::UnknownField),
        Some(w) => render_t(&w, crate::from_str::type_at(t, &keys), &fs),
    }
}

/// The text of one part of the format of a field whose value is `v`.
fn field_part(v: &Value, t: &crate::value::ValueType, with: &Option<WithFormat>, p: &DisplayFormatPart) -> (r: Result<String, DeriveError>)
    ensures
        result_view(r) == spec_field_part(v@, t@, opt_with_view(*with), p@),
{
    match p {
        DisplayFormatPart::Str(s) => Ok(s.clone()),
        DisplayFormatPart::EscapedBeginBracket => Ok(brace(true)),
        DisplayFormatPart::EscapedEndBracket => Ok(brace(false)),
        DisplayFormatPart::Var { arg, format_spec } => write_field_var(v, t, with, arg, format_spec),
    }
}

/// `{` or `}`.
fn brace(open: bool) -> (r: String)
    ensures
        r@ == (if open { seq!['{'] } else { seq!['}'] }),
{
    let mut s = String::new();
    crate::util::push_char(&mut s, if open { '{' } else { '}' });
    s
}

/// Appends `t` to `out`; what follows `t` in a text can follow `out` now.
fn append(out: &mut String, t: &String)
    ensures
        final(out)@ == old(out)@ + t@,
        forall|r: Seq<char>| #[trigger] (old(out)@ + (t@ + r)) == final(out)@ + r,
{
    let ghost before = out@;
    push_str(out, t.as_str());
    assert forall|r: Seq<char>| #[trigger] (before + (t@ + r)) == out@ + r by {
        assert(before + (t@ + r) =~= out@ + r);
    }
}

/// The format of a field written for its value `v`.
fn write_field_parts(v: &Value, t: &crate::value::ValueType, with: &Option<WithFormat>, parts: &Vec<DisplayFormatPart>) -> (r: Result<String, DeriveError>)
    ensures
        result_view(r) == spec_write_field_parts(v@, t@, opt_with_view(*with), crate::format::parts_view(parts@)),
{
    let ghost pv = crate::format::parts_view(parts@);
    let ghost wv = opt_with_view(*with);
    let mut out = String::new();
    let mut i: usize = 0;
    assert(pv.skip(0) =~= pv);
    while i < parts.len()
        invariant
            i <= parts.len(),
            pv == crate::format::parts_view(parts@),
            wv == opt_with_view(*with),
            spec_write_field_parts(v@, t@, wv, pv) == match spec_write_field_parts(v@, t@, wv, pv.skip(i as int)) {
                Err(e) => Err(e),
                Ok(rest) => Ok(out@ + rest),
            },
        decreases parts.len() - i,
    {
        let ghost rest = pv.skip(i as int);
        assert(rest[0] == parts@[i as int]@);
        assert(rest.drop_first() =~= pv.skip(i + 1));
        match field_part(v, t, with, &parts[i]) {
            Ok(t) => {
                append(&mut out, &t);
            },
            Err(e) => {
                return Err(e);
            },
        }
        i += 1;
    }
    assert(pv.skip(parts.len() as int).len() == 0);
    assert(out@ + Seq::<char>::empty() =~= out@);
    Ok(out)
}

/// A field named in the format of its struct or variant.
fn write_field(f: &FieldDef, v: &Value, fs: &FormatSpec) -> (r: Result<String, DeriveError>)
    ensures
        result_view(r) == spec_write_field(*f, v@, fs@),
{
    if let Err(e) = f.attrs.display_attrs() {
        return Err(e);
    }
    if f.attrs.opt {
        match v {
            Value::Opt(None) => Ok(String::new()),
            Value::Opt(Some(b)) => write_field_plain(f, b, fs),
            _ => Err(DeriveError::Unsupported),
        }
    } else {
        write_field_plain(f, v, fs)
    }
}

/// A field named in the format of its struct or variant, by its value.
fn write_field_plain(f: &FieldDef, v: &Value, fs: &FormatSpec) -> (r: Result<String, DeriveError>)
    ensures
        result_view(r) == spec_write_field_plain(*f, v@, fs@),
{
    let fa = match f.attrs.display_attrs() {
        Ok(a) => a,
        Err(e) => {
            return Err(e);
        },
    };
    match &fa.format {
        Some(parts) => write_field_parts(v, &f.ty, &f.attrs.with, &parts.parts),
        None => render_with(&f.attrs.with, v, &f.ty, fs),
    }
}

/// `{arg:spec}` in the format of a struct (`name` is `None`) or of a variant.
fn write_top_var(
    name: &Option<String>,
    own: &Vec<(String, String)>,
    fields: &Vec<FieldDef>,
    values: &Vec<Value>,
    arg: &String,
    spec: &String,
) -> (r: Result<String, DeriveError>)
    requires
        values.len() == fields.len(),
    ensures
        result_view(r) == spec_write_top_var(SelfView { name: opt_text(*name), own: own_view(own@) }, fields@, values_view(values@), arg@, spec@),
{
    let fs = match FormatSpec::parse(spec.as_str()) {
        Ok(f) => f,
        Err(_) => {
            return Err(DeriveError::InvalidFormatSpec);
        },
    };
    let keys = FieldKey::from_str_deep(arg.as_str());
    if keys.len() == 0 {
        if fs.format_type != FormatType::Display {
            return match lookup_own(own, spec) {
                Some(t) => Ok(t),
                None => Err(DeriveError::OwnTextMissing),
            };
        }
        return match name {
            None => Err(DeriveError::EmptyArgInStruct),
            Some(n) => render(&Value::Str(n.clone()), &fs),
        };
    }
    assert(keys_view(keys@)[0] == keys@[0]@);
    proof {
        crate::def::lemma_find_field(fields@, keys@[0]@);
    }
    match find_field(fields, &keys[0]) {
        None => Err(DeriveError::UnknownField),
        Some(i) => {
            assert(values_view(values@)[i as int] == values@[i as int]@);
            if keys.len() == 1 {
                write_field(&fields[i], &values[i], &fs)
            } else {
                assert(keys_view(keys@).skip(1) =~= keys_view(keys@).drop_first());
                match member_path(&values[i], &keys, 1) {
                    None => Err(DeriveError::UnknownField),
                    Some(w) => {
                        let rest = crate::from_str::copy_keys_from(&keys, 1);
                        render_t(&w, crate::from_str::type_at(&fields[i].ty, &rest), &fs)
                    },
                }
            }
        },
    }
}

/// The text given for the specifier `spec`.
fn lookup_own(own: &Vec<(String, String)>, spec: &String) -> (r: Option<String>)
    ensures
        opt_text(r) == spec_lookup_own(own_view(own@), spec@),
{
    let ghost ov = own_view(own@);
    let mut i: usize = 0;
    assert(ov.skip(0) =~= ov);
    while i < own.len()
        invariant
            i <= own.len(),
            ov == own_view(own@),
            spec_lookup_own(ov, spec@) == spec_lookup_own(ov.skip(i as int), spec@),
        decreases own.len() - i,
    {
        assert(ov.skip(i as int)[0] == (own@[i as int].0@, own@[i as int].1@));
        assert(ov.skip(i as int).drop_first() =~= ov.skip(i + 1));
        if crate::util::str_eq(own[i].0.as_str(), spec.as_str()) {
            return Some(own[i].1.clone());
        }
        i += 1;
    }
    None
}

pub open spec fn opt_text(n: Option<String>) -> Option<Seq<char>> {
    match n {
        Some(s) => Some(s@),
        None => None,
    }
}

/// The text of one part of the format of a struct or a variant.
fn top_part(
    name: &Option<String>,
    own: &Vec<(String, String)>,
    fields: &Vec<FieldDef>,
    values: &Vec<Value>,
    p: &DisplayFormatPart,
) -> (r: Result<String, DeriveError>)
    requires
        values.len() == fields.len(),
    ensures
        result_view(r) == spec_top_part(SelfView { name: opt_text(*name), own: own_view(own@) }, fields@, values_view(values@), p@),
{
    match p {
        DisplayFormatPart::Str(s) => Ok(s.clone()),
        DisplayFormatPart::EscapedBeginBracket => Ok(brace(true)),
        DisplayFormatPart::EscapedEndBracket => Ok(brace(false)),
        DisplayFormatPart::Var { arg, format_spec } => write_top_var(name, own, fields, values, arg, format_spec),
    }
}

/// The format of a struct or a variant written for the values of its fields.
fn write_top_parts(
    name: &Option<String>,
    own: &Vec<(String, String)>,
    fields: &Vec<FieldDef>,
    values: &Vec<Value>,
    parts: &Vec<DisplayFormatPart>,
) -> (r: Result<String, DeriveError>)
    requires
        values.len() == fields.len(),
    ensures
        result_view(r) == spec_write_top_parts(
            SelfView { name: opt_text(*name), own: own_view(own@) },
            fields@,
            values_view(values@),
            crate::format::parts_view(parts@),
        ),
{
    let ghost pv = crate::format::parts_view(parts@);
    let ghost n = SelfView { name: opt_text(*name), own: own_view(own@) };
    let ghost vv = values_view(values@);
    let mut out = String::new();
    let mut i: usize = 0;
    assert(pv.skip(0) =~= pv);
    while i < parts.len()
        invariant
            i <= parts.len(),
            values.len() == fields.len(),
            pv == crate::format::parts_view(parts@),
            n == (SelfView { name: opt_text(*name), own: own_view(own@) }),
            vv == values_view(values@),
            spec_write_top_parts(n, fields@, vv, pv) == match spec_write_top_parts(n, fields@, vv, pv.skip(i as int)) {
                Err(e) => Err(e),
                Ok(rest) => Ok(out@ + rest),
            },
        decreases parts.len() - i,
    {
        let ghost rest = pv.skip(i as int);
        assert(rest[0] == parts@[i as int]@);
        assert(rest.drop_first() =~= pv.skip(i + 1));
        match top_part(name, own, fields, values, &parts[i]) {
            Ok(t) => {
                append(&mut out, &t);
            },
            Err(e) => {
                return Err(e);
            },
        }
        i += 1;
    }
    assert(pv.skip(parts.len() as int).len() == 0);
    assert(out@ + Seq::<char>::empty() =~= out@);
    Ok(out)
}

impl StructDef {
    /// What `Display` writes for a value of the struct whose fields hold
    /// `values`, in the order of the fields; or why the struct has no
    /// `Display`.
    fn render(&self, values: &Vec<Value>, own: &Vec<(String, String)>) -> (r: Result<String, DeriveError>)
        requires
            values.len() == self.fields.len(),
        ensures
            result_view(r) == spec_render_struct(*self, values_view(values@), own_view(own@)),
    {
        let da = match self.attrs.display_attrs() {
            Ok(a) => a,
            Err(e) => {
                return Err(e);
            },
        };
        let none: Option<String> = None;
        match &da.format {
            Some(f) => write_top_parts(&none, own, &self.fields, values, &f.parts),
            None => {
                if self.fields.len() != 1 {
                    return Err(DeriveError::FormatRequired);
                }
                let mut parts: Vec<DisplayFormatPart> = Vec::new();
                parts.push(DisplayFormatPart::Var { arg: self.fields[0].key.to_string(), format_spec: String::new() });
                assert(crate::format::parts_view(parts@) =~= spec_newtype_format(self.fields@).unwrap());
                write_top_parts(&none, own, &self.fields, values, &parts)
            },
        }
    }
}

impl EnumDef {
    /// What `Display` writes for the variant `variant` whose fields hold
    /// `values`; or why the variant has no `Display`.
    fn render(&self, variant: usize, values: &Vec<Value>, own: &Vec<(String, String)>) -> (r: Result<String, DeriveError>)
        requires
            variant < self.variants.len(),
            values.len() == self.variants@[variant as int].fields.len(),
        ensures
            result_view(r) == spec_render_variant(*self, variant as int, values_view(values@), own_view(own@)),
    {
        let ea = match self.attrs.display_attrs() {
            Ok(a) => a,
            Err(e) => {
                return Err(e);
            },
        };
        let v = &self.variants[variant];
        let va = match v.attrs.display_attrs() {
            Ok(a) => a,
            Err(e) => {
                return Err(e);
            },
        };
        let style = match va.style {
            Some(s) => s,
            None => match ea.style {
                Some(s) => s,
                None => DisplayStyle::NoChange,
            },
        };
        let name = Some(style.apply(v.name.as_str()));
        match &va.format {
            Some(f) => write_top_parts(&name, own, &v.fields, values, &f.parts),
            None => match &ea.format {
                Some(f) => write_top_parts(&name, own, &v.fields, values, &f.parts),
                None => {
                    if v.kind != FieldsKind::Unit {
                        return Err(DeriveError::FormatRequired);
                    }
                    let mut parts: Vec<DisplayFormatPart> = Vec::new();
                    parts.push(DisplayFormatPart::Var { arg: String::new(), format_spec: String::new() });
                    assert(crate::format::parts_view(parts@) =~= unit_format());
                    write_top_parts(&name, own, &v.fields, values, &parts)
                },
            },
        }
    }
}


/// `{arg:spec}` in the format of a field of type `t`, checked.
fn check_field_var(t: &crate::value::ValueType, has_with: bool, arg: &String, spec: &String) -> (r: Option<DeriveError>)
    ensures
        r == spec_check_field_var(t@, has_with, arg@, spec@),
{
    match FormatSpec::parse(spec.as_str()) {
        Err(_) => Some(DeriveError::InvalidFormatSpec),
        Ok(fs) => {
            let keys = FieldKey::from_str_deep(arg.as_str());
            if !crate::render::direct(&fs) {
                return Some(DeriveError::CountFromArgument);
            }
            if keys.len() == 0 && has_with && fs.format_type != FormatType::Display {
                return Some(DeriveError::WithFormatType);
            }
            match crate::from_str::type_at(t, &keys) {
                None => Some(DeriveError::UnknownField),
                Some(_) => None,
            }
        },
    }
}

/// The first error of the parts of the format of a field of type `t`.
fn check_field_parts(t: &crate::value::ValueType, has_with: bool, parts: &Vec<DisplayFormatPart>) -> (r: Option<DeriveError>)
    ensures
        r == spec_check_field_parts(t@, has_with, crate::format::parts_view(parts@)),
{
    let ghost pv = crate::format::parts_view(parts@);
    let mut i: usize = 0;
    assert(pv.skip(0) =~= pv);
    while i < parts.len()
        invariant
            i <= parts.len(),
            pv == crate::format::parts_view(parts@),
            spec_check_field_parts(t@, has_with, pv) == spec_check_field_parts(t@, has_with, pv.skip(i as int)),
        decreases parts.len() - i,
    {
        assert(pv.skip(i as int)[0] == parts@[i as int]@);
        assert(pv.skip(i as int).drop_first() =~= pv.skip(i + 1));
        match &parts[i] {
            DisplayFormatPart::Var { arg, format_spec } => match check_field_var(t, has_with, arg, format_spec) {
                Some(e) => {
                    return Some(e);
                },
                None => {},
            },
            _ => {},
        }
        i += 1;
    }
    None
}

/// `{arg:spec}` in the format of a struct or of a variant, checked without
/// the values.
fn check_top_var(in_struct: bool, fields: &Vec<FieldDef>, arg: &String, spec: &String) -> (r: Option<DeriveError>)
    ensures
        r == spec_check_top_var(in_struct, fields@, arg@, spec@),
{
    let fs = match FormatSpec::parse(spec.as_str()) {
        Err(_) => {
            return Some(DeriveError::InvalidFormatSpec);
        },
        Ok(f) => f,
    };
    let keys = FieldKey::from_str_deep(arg.as_str());
    if !crate::render::direct(&fs) {
        return Some(DeriveError::CountFromArgument);
    }
    if keys.len() == 0 {
        if fs.format_type != FormatType::Display {
            return None;
        }
        if in_struct {
            return Some(DeriveError::EmptyArgInStruct);
        }
        return None;
    }
    assert(keys_view(keys@)[0] == keys@[0]@);
    proof {
        crate::def::lemma_find_field(fields@, keys@[0]@);
    }
    match find_field(fields, &keys[0]) {
        None => Some(DeriveError::UnknownField),
        Some(i) => {
            if keys.len() == 1 {
                let has_with = fields[i].attrs.with.is_some();
                match fields[i].attrs.display_attrs() {
                    Err(e) => Some(e),
                    Ok(fa) => match &fa.format {
                        Some(p) => check_field_parts(&fields[i].ty, has_with, &p.parts),
                        None => if has_with && fs.format_type != FormatType::Display {
                            Some(DeriveError::WithFormatType)
                        } else {
                            None
                        },
                    },
                }
            } else {
                let rest = crate::from_str::copy_keys_from(&keys, 1);
                assert(keys_view(keys@).skip(1) =~= keys_view(keys@).drop_first());
                match crate::from_str::type_at(&fields[i].ty, &rest) {
                    None => Some(DeriveError::UnknownField),
                    Some(_) => None,
                }
            }
        },
    }
}

/// The first error of the parts of the format of a struct or a variant.
fn check_top_parts(in_struct: bool, fields: &Vec<FieldDef>, parts: &Vec<DisplayFormatPart>) -> (r: Option<DeriveError>)
    ensures
        r == spec_check_top_parts(in_struct, fields@, crate::format::parts_view(parts@)),
{
    let ghost pv = crate::format::parts_view(parts@);
    let mut i: usize = 0;
    assert(pv.skip(0) =~= pv);
    while i < parts.len()
        invariant
            i <= parts.len(),
            pv == crate::format::parts_view(parts@),
            spec_check_top_parts(in_struct, fields@, pv) == spec_check_top_parts(in_struct, fields@, pv.skip(i as int)),
        decreases parts.len() - i,
    {
        assert(pv.skip(i as int)[0] == parts@[i as int]@);
        assert(pv.skip(i as int).drop_first() =~= pv.skip(i + 1));
        match &parts[i] {
            DisplayFormatPart::Var { arg, format_spec } => match check_top_var(in_struct, fields, arg, format_spec) {
                Some(e) => {
                    return Some(e);
                },
                None => {},
            },
            _ => {},
        }
        i += 1;
    }
    None
}

impl StructDef {
    /// Why the struct has no `Display`, checked without values; `None` where
    /// it has one.
    pub fn check_display(&self) -> (r: Option<DeriveError>)
        ensures
            r == spec_check_struct(*self),
    {
        let da = match self.attrs.display_attrs() {
            Ok(a) => a,
            Err(e) => {
                return Some(e);
            },
        };
        match &da.format {
            Some(f) => check_top_parts(true, &self.fields, &f.parts),
            None => {
                if self.fields.len() != 1 {
                    return Some(DeriveError::FormatRequired);
                }
                let mut parts: Vec<DisplayFormatPart> = Vec::new();
                parts.push(DisplayFormatPart::Var { arg: self.fields[0].key.to_string(), format_spec: String::new() });
                assert(crate::format::parts_view(parts@) =~= spec_newtype_format(self.fields@).unwrap());
                check_top_parts(true, &self.fields, &parts)
            },
        }
    }

    /// What `Display` writes for a value of the struct whose fields hold
    /// `values`, in the order of the fields; or why the struct has no
    /// `Display`.
    pub fn display(&self, values: &Vec<Value>) -> (r: Result<String, DeriveError>)
        requires
            values.len() == self.fields.len(),
        ensures
            result_view(r) == spec_display_struct(*self, values_view(values@), seq![]),
    {
        let own: Vec<(String, String)> = Vec::new();
        assert(own_view(own@) =~= Seq::<(Seq<char>, Seq<char>)>::empty());
        self.display_own(values, &own)
    }

    /// What `Display` writes for a value of the struct whose fields hold
    /// `values`, where `{:?}`, `{:x}` or another trait on the value itself
    /// writes the text that `own` gives for its specifier (as written after
    /// the `:`): what the struct's own impl of that trait writes of the value.
    pub fn display_own(&self, values: &Vec<Value>, own: &Vec<(String, String)>) -> (r: Result<String, DeriveError>)
        requires
            values.len() == self.fields.len(),
        ensures
            result_view(r) == spec_display_struct(*self, values_view(values@), own_view(own@)),
    {
        match self.check_display() {
            Some(e) => Err(e),
            None => self.render(values, own),
        }
    }
}

impl EnumDef {
    /// Why the variant `j` has no `Display`, checked without values.
    fn check_variant(&self, ea: &crate::def::DisplayAttrs, j: usize) -> (r: Option<DeriveError>)
        requires
            j < self.variants.len(),
        ensures
            r == spec_check_variant(*self, ea@, j as int),
    {
        let v = &self.variants[j];
        let va = match v.attrs.display_attrs() {
            Ok(a) => a,
            Err(e) => {
                return Some(e);
            },
        };
        match &va.format {
            Some(f) => check_top_parts(false, &v.fields, &f.parts),
            None => match &ea.format {
                Some(f) => check_top_parts(false, &v.fields, &f.parts),
                None => {
                    if v.kind != FieldsKind::Unit {
                        return Some(DeriveError::FormatRequired);
                    }
                    let mut parts: Vec<DisplayFormatPart> = Vec::new();
                    parts.push(DisplayFormatPart::Var { arg: String::new(), format_spec: String::new() });
                    assert(crate::format::parts_view(parts@) =~= unit_format());
                    check_top_parts(false, &v.fields, &parts)
                },
            },
        }
    }

    /// Why the enum has no `Display`, checked without values; `None` where it
    /// has one.
    pub fn check_display(&self) -> (r: Option<DeriveError>)
        ensures
            r == match spec_display_attrs(self.attrs) {
                Err(err) => Some(err),
                Ok(ea) => spec_check_variants(*self, ea, 0),
            },
    {
        let ea = match self.attrs.display_attrs() {
            Ok(a) => a,
            Err(e) => {
                return Some(e);
            },
        };
        let mut j: usize = 0;
        while j < self.variants.len()
            invariant
                j <= self.variants.len(),
                spec_display_attrs(self.attrs) == Ok::<DisplayAttrsView, DeriveError>(ea@),
                spec_check_variants(*self, ea@, 0) == spec_check_variants(*self, ea@, j as int),
            decreases self.variants.len() - j,
        {
            match self.check_variant(&ea, j) {
                Some(e) => {
                    return Some(e);
                },
                None => {},
            }
            j += 1;
        }
        None
    }

    /// What `Display` writes for the variant `variant` whose fields hold
    /// `values`; or why the enum has no `Display`.
    pub fn display(&self, variant: usize, values: &Vec<Value>) -> (r: Result<String, DeriveError>)
        requires
            variant < self.variants.len(),
            values.len() == self.variants@[variant as int].fields.len(),
        ensures
            result_view(r) == spec_display_variant(*self, variant as int, values_view(values@), seq![]),
    {
        let own: Vec<(String, String)> = Vec::new();
        assert(own_view(own@) =~= Seq::<(Seq<char>, Seq<char>)>::empty());
        self.display_own(variant, values, &own)
    }

    /// What `Display` writes for the variant `variant` whose fields hold
    /// `values`, where `{:?}`, `{:x}` or another trait on the value itself
    /// writes the text that `own` gives for its specifier (as written after
    /// the `:`): what the enum's own impl of that trait writes of the value,
    /// such as the variant's name for a derived `Debug` of a unit variant.
    pub fn display_own(&self, variant: usize, values: &Vec<Value>, own: &Vec<(String, String)>) -> (r: Result<String, DeriveError>)
        requires
            variant < self.variants.len(),
            values.len() == self.variants@[variant as int].fields.len(),
        ensures
            result_view(r) == spec_display_variant(*self, variant as int, values_view(values@), own_view(own@)),
    {
        match self.check_display() {
            Some(e) => Err(e),
            None => self.render(variant, values, own),
        }
    }
}

} // verus!
