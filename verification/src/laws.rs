//! Properties that `Display` and `FromStr` have together, over all inputs of
//! the kinds they speak of.
use vstd::prelude::*;
use crate::def::{spec_display_attrs, Attrs, DisplayAttrsView, EnumDef, FieldDef, FieldsKind, StructDef, WithView};
use crate::display::{spec_display_struct, spec_display_variant, spec_render, unit_format};
use crate::error::DeriveError;
use crate::format_spec::{spec_parse_format_spec, FormatType};
use crate::formats::plain_spec;
use crate::from_str::{
    push_lit, spec_construct, spec_enum_plans, spec_from_str_enum, spec_literal_match, spec_new_plan,
    spec_plans_from, spec_variant_plan, PlanView,
};
use crate::style::{spec_apply_style, spec_style_of, DisplayStyle};
use crate::value::{int_max, int_min, is_signed, spec_default_value, spec_parse_value, type_view, TypeView, ValueView};
use crate::formats::spec_display_text;

verus! {

/// The specifier of `{}` and `{name}` is the plain one.
pub proof fn lemma_empty_spec()
    ensures
        spec_parse_format_spec(seq![]) == Some(plain_spec()),
{
}

/// Attributes that give no format, regular expression, default or `ignore`,
/// and whose style, where they give one, is a style.
pub open spec fn plain_attrs(a: Attrs) -> bool {
    &&& a.format is None
    &&& a.regex is None
    &&& !a.default
    &&& a.default_fields@.len() == 0
    &&& !a.ignore
    &&& (a.style matches Some(s) ==> spec_style_of(s@) is Some)
}

/// An enum of unit variants whose attributes give at most styles.
pub open spec fn plain_unit_enum(e: EnumDef) -> bool {
    &&& plain_attrs(e.attrs)
    &&& forall|i: int|
        0 <= i < e.variants@.len() ==> {
            let v = #[trigger] e.variants@[i];
            &&& v.kind == FieldsKind::Unit
            &&& v.fields@.len() == 0
            &&& plain_attrs(v.attrs)
        }
}

/// The style of a variant: its own, else the enum's, else none.
pub open spec fn variant_style(e: EnumDef, i: int) -> DisplayStyle {
    match e.variants@[i].attrs.style {
        Some(s) => spec_style_of(s@).unwrap(),
        None => match e.attrs.style {
            Some(s) => spec_style_of(s@).unwrap(),
            None => DisplayStyle::NoChange,
        },
    }
}

/// The name of a variant in its style.
pub open spec fn styled_name(e: EnumDef, i: int) -> Seq<char> {
    spec_apply_style(variant_style(e, i), e.variants@[i].name@)
}

proof fn lemma_plain_attrs(a: Attrs)
    requires
        plain_attrs(a),
    ensures
        spec_display_attrs(a) == Ok::<DisplayAttrsView, DeriveError>(
            DisplayAttrsView {
                format: None,
                style: match a.style {
                    Some(s) => spec_style_of(s@),
                    None => None,
                },
            },
        ),
{
}

/// The plan of a plain unit variant: its styled name as literal text.
proof fn lemma_unit_variant_plan(e: EnumDef, i: int)
    requires
        plain_unit_enum(e),
        0 <= i < e.variants@.len(),
    ensures
        spec_variant_plan(e, i) == Ok::<PlanView, DeriveError>(push_lit(spec_new_plan(seq![], false), styled_name(e, i))),
{
    reveal(spec_variant_plan);
    let v = e.variants@[i];
    lemma_plain_attrs(e.attrs);
    lemma_plain_attrs(v.attrs);
    assert(v.fields@ =~= Seq::<FieldDef>::empty());
    let p0 = spec_new_plan(v.fields@, e.attrs.regex_infer || v.attrs.regex_infer);
    assert(p0.entries =~= spec_new_plan(seq![], false).entries);
    assert(crate::from_str::spec_apply_attrs(p0, v.fields@, e.attrs) == Ok::<PlanView, DeriveError>(p0));
    assert(crate::from_str::spec_apply_attrs(p0, v.fields@, v.attrs) == Ok::<PlanView, DeriveError>(p0));
    let name = styled_name(e, i);
    let ctx = crate::from_str::CtxView::Variant(name);
    assert(crate::field_key::spec_keys_of_path(seq![]) =~= Seq::<crate::field_key::KeyView>::empty());
    let p1 = push_lit(p0, name);
    assert(crate::from_str::spec_push_format(p1, v.fields@, ctx, unit_format(), 1, None, 0) == Ok::<PlanView, DeriveError>(p1));
    assert(crate::from_str::spec_push_format(p0, v.fields@, ctx, unit_format(), 0, None, 0) == Ok::<PlanView, DeriveError>(p1));
    assert(crate::from_str::spec_check_fields(p1, v.fields@, 0) is None);
}

/// The plans of the variants from `vi` on of a plain unit enum.
proof fn lemma_unit_plans(e: EnumDef, vi: int)
    requires
        plain_unit_enum(e),
        0 <= vi <= e.variants@.len(),
    ensures
        spec_plans_from(e, vi) matches Ok(ps) && ps.len() == e.variants@.len() - vi && forall|k: int|
            0 <= k < ps.len() ==> #[trigger] ps[k] == Some(push_lit(spec_new_plan(seq![], false), styled_name(e, vi + k))),
    decreases e.variants@.len() - vi,
{
    if vi < e.variants@.len() {
        lemma_unit_plans(e, vi + 1);
        lemma_unit_variant_plan(e, vi);
        lemma_plain_attrs(e.variants@[vi].attrs);
        let rest = spec_plans_from(e, vi + 1)->Ok_0;
        let this = Some(push_lit(spec_new_plan(seq![], false), styled_name(e, vi)));
        assert(spec_plans_from(e, vi) == Ok::<Seq<Option<PlanView>>, DeriveError>(seq![this] + rest));
        assert forall|k: int| 0 <= k < rest.len() + 1 implies #[trigger] (seq![this] + rest)[k] == Some(
            push_lit(spec_new_plan(seq![], false), styled_name(e, vi + k)),
        ) by {
            if k > 0 {
                assert((seq![this] + rest)[k] == rest[k - 1]);
            }
        }
    }
}

/// The first variant from `j` on whose styled name is `t`.
pub open spec fn first_named(e: EnumDef, t: Seq<char>, j: int) -> int
    decreases e.variants@.len() - j,
{
    if j < 0 || j >= e.variants@.len() || styled_name(e, j) == t {
        j
    } else {
        first_named(e, t, j + 1)
    }
}

proof fn lemma_first_named(e: EnumDef, t: Seq<char>, j: int, vi: int)
    requires
        0 <= j <= vi < e.variants@.len(),
        styled_name(e, vi) == t,
    ensures
        j <= first_named(e, t, j) <= vi,
        styled_name(e, first_named(e, t, j)) == t,
        forall|k: int| j <= k < first_named(e, t, j) ==> styled_name(e, k) != t,
    decreases vi - j,
{
    if styled_name(e, j) != t {
        lemma_first_named(e, t, j + 1, vi);
    }
}

proof fn lemma_literal_match(e: EnumDef, ps: Seq<Option<PlanView>>, t: Seq<char>, j: int, vi: int)
    requires
        0 <= j <= vi < e.variants@.len(),
        ps.len() == e.variants@.len(),
        forall|k: int| 0 <= k < ps.len() ==> #[trigger] ps[k] == Some(push_lit(spec_new_plan(seq![], false), styled_name(e, k))),
        styled_name(e, vi) == t,
    ensures
        spec_literal_match(ps, t, j) == Some(first_named(e, t, j)),
    decreases vi - j,
{
    let p = push_lit(spec_new_plan(seq![], false), styled_name(e, j));
    assert(ps[j] == Some(p));
    assert(p.lit =~= styled_name(e, j));
    if styled_name(e, j) != t {
        lemma_literal_match(e, ps, t, j + 1, vi);
    }
}

proof fn lemma_unit_checks(e: EnumDef, ea: DisplayAttrsView, j: int)
    requires
        plain_unit_enum(e),
        ea.format is None,
        0 <= j <= e.variants@.len(),
    ensures
        crate::display::spec_check_variants(e, ea, j) is None,
    decreases e.variants@.len() - j,
{
    if j < e.variants@.len() {
        lemma_unit_checks(e, ea, j + 1);
        let v = e.variants@[j];
        lemma_plain_attrs(v.attrs);
        lemma_empty_spec();
        assert(crate::field_key::spec_keys_of_path(seq![]) =~= Seq::<crate::field_key::KeyView>::empty());
        assert(unit_format().drop_first() =~= Seq::<crate::format::PartView>::empty());
        assert(crate::display::spec_check_top_var(false, v.fields@, seq![], seq![]) is None);
        assert(crate::display::spec_check_top_parts(false, v.fields@, unit_format().drop_first()) is None);
        assert(crate::display::spec_check_top_parts(false, v.fields@, unit_format()) is None) by {
            reveal_with_fuel(crate::display::spec_check_top_parts, 2);
        }
        assert(crate::display::spec_check_variant(e, ea, j) is None);
    }
}

/// An enum of unit variants whose attributes give at most styles: `Display`
/// writes each variant's name in its style, and `FromStr` of that text gives
/// back the first variant with that styled name (the variant itself where
/// no earlier one has the same styled name).
pub proof fn law_unit_enum_roundtrip(e: EnumDef, vi: int)
    requires
        plain_unit_enum(e),
        0 <= vi < e.variants@.len(),
    ensures
        spec_display_variant(e, vi, seq![], seq![]) == Ok::<Seq<char>, DeriveError>(styled_name(e, vi)),
        spec_from_str_enum(e, styled_name(e, vi)) == Ok::<Result<(int, Seq<ValueView>), Seq<char>>, DeriveError>(
            Ok((first_named(e, styled_name(e, vi), 0), seq![])),
        ),
        (forall|k: int| 0 <= k < vi ==> styled_name(e, k) != styled_name(e, vi)) ==> first_named(e, styled_name(e, vi), 0) == vi,
{
    let v = e.variants@[vi];
    let t = styled_name(e, vi);
    lemma_plain_attrs(e.attrs);
    lemma_plain_attrs(v.attrs);
    lemma_empty_spec();
    lemma_unit_checks(e, spec_display_attrs(e.attrs)->Ok_0, 0);
    assert(crate::field_key::spec_keys_of_path(seq![]) =~= Seq::<crate::field_key::KeyView>::empty());
    assert(spec_render(ValueView::Str(t), plain_spec()) == Ok::<Seq<char>, DeriveError>(t));
    assert(unit_format().drop_first() =~= Seq::<crate::format::PartView>::empty());
    assert(t + Seq::<char>::empty() =~= t);
    let vals: Seq<ValueView> = seq![];
    assert(crate::display::spec_write_top_var(crate::display::SelfView { name: Some(t), own: seq![] }, v.fields@, vals, seq![], seq![]) == Ok::<Seq<char>, DeriveError>(t));
    assert(crate::display::spec_top_part(crate::display::SelfView { name: Some(t), own: seq![] }, v.fields@, vals, unit_format()[0]) == Ok::<Seq<char>, DeriveError>(t));
    assert(crate::display::spec_write_top_parts(crate::display::SelfView { name: Some(t), own: seq![] }, v.fields@, vals, unit_format().drop_first()) == Ok::<Seq<char>, DeriveError>(seq![]));
    assert(crate::display::spec_write_top_parts(crate::display::SelfView { name: Some(t), own: seq![] }, v.fields@, vals, unit_format()) == Ok::<Seq<char>, DeriveError>(t));
    lemma_unit_plans(e, 0);
    let ps = spec_plans_from(e, 0)->Ok_0;
    assert forall|k: int| 0 <= k < ps.len() implies #[trigger] ps[k] == Some(push_lit(spec_new_plan(seq![], false), styled_name(e, k))) by {
        assert(ps[k] == Some(push_lit(spec_new_plan(seq![], false), styled_name(e, 0 + k))));
    }
    assert(spec_enum_plans(e) == Ok::<Seq<Option<PlanView>>, DeriveError>(ps));
    lemma_literal_match(e, ps, t, 0, vi);
    lemma_first_named(e, t, 0, vi);
    let j = first_named(e, t, 0);
    assert(e.variants@[j].fields@ =~= Seq::<FieldDef>::empty());
    let rs = crate::from_str::spec_field_results(ps[j].unwrap(), e.variants@[j].fields@, seq![]);
    assert(rs.len() == 0);
    assert(rs.map_values(|r: Result<ValueView, Seq<char>>| r->Ok_0) =~= Seq::<ValueView>::empty());
    assert(spec_construct(ps[j].unwrap(), e.variants@[j].fields@, seq![]) == Ok::<Seq<ValueView>, Seq<char>>(seq![]));
    if forall|k: int| 0 <= k < vi ==> styled_name(e, k) != t {
        assert(j == vi);
    }
}


/// A key that its own text names: an index, or a name that is not empty,
/// holds no `.`, is no number and does not start with `r#`.
pub open spec fn plain_key(k: crate::field_key::KeyView) -> bool {
    match k {
        crate::field_key::KeyView::Unnamed(_) => true,
        crate::field_key::KeyView::Named(s) => {
            &&& s.len() > 0
            &&& forall|i: int| 0 <= i < s.len() ==> s[i] != '.'
            &&& crate::num::spec_parse_int(s, 0, usize::MAX as int) is None
            &&& !(s.len() >= 2 && s[0] == 'r' && s[1] == '#')
        },
    }
}

/// The text of such a key, read as a path, is that key alone.
pub proof fn lemma_key_text_path(k: crate::field_key::KeyView)
    requires
        plain_key(k),
    ensures
        crate::field_key::spec_keys_of_path(crate::field_key::spec_key_text(k)) == seq![k],
{
    let t = crate::field_key::spec_key_text(k);
    match k {
        crate::field_key::KeyView::Unnamed(i) => {
            crate::num::lemma_digits_decimal(i as nat);
            crate::num::lemma_decimal_roundtrip(i as nat, 0, usize::MAX as int);
            assert forall|j: int| 0 <= j < t.len() implies t[j] != '.' by {
                assert(crate::format_spec::is_digit(t[j]));
            }
        },
        crate::field_key::KeyView::Named(s) => {},
    }
    crate::field_key::lemma_scan_dot(t, 0);
    assert(t.len() > 0);
    assert(crate::field_key::scan_dot(t, 0) == t.len());
    assert(crate::field_key::spec_split_dots(t) == seq![t]);
    assert(crate::field_key::spec_trim_raw(t) == t);
    assert(crate::field_key::spec_key_of(t) == k);
    assert(crate::field_key::spec_keys_of_path(t) =~= seq![k]);
}

/// A struct with one field and no format is written as that field alone,
/// by the field's own `Display` (where the field's `with = ...`, if any, is
/// no delimiter).
pub proof fn law_newtype_display(d: StructDef, v: ValueView)
    requires
        plain_attrs(d.attrs),
        d.fields@.len() == 1,
        d.fields@[0].attrs.format is None,
        !d.fields@[0].attrs.opt,
        !(d.fields@[0].attrs.with matches Some(crate::def::WithFormat::Join(_))),
        d.fields@[0].attrs.style matches Some(s) ==> spec_style_of(s@) is Some,
        plain_key(d.fields@[0].key@),
    ensures
        spec_display_struct(d, seq![v], seq![]) == spec_render(v, plain_spec()),
{
    let f = d.fields@[0];
    let k = f.key@;
    lemma_plain_attrs(d.attrs);
    lemma_empty_spec();
    lemma_key_text_path(k);
    let vals: Seq<ValueView> = seq![v];
    let parts = crate::display::spec_newtype_format(d.fields@)->Some_0;
    assert(crate::def::spec_find_field(d.fields@, k) == Some(0int));
    assert(seq![k][0] == k);
    assert(crate::display::spec_write_top_var(crate::display::SelfView { name: None, own: seq![] }, d.fields@, vals, crate::field_key::spec_key_text(k), seq![]) == crate::display::spec_write_field(f, v, plain_spec()));
    assert(crate::display::spec_check_top_var(true, d.fields@, crate::field_key::spec_key_text(k), seq![]) is None);
    assert(crate::display::spec_check_top_parts(true, d.fields@, parts.drop_first()) is None);
    assert(crate::display::spec_check_top_parts(true, d.fields@, parts) is None);
    assert(crate::display::spec_check_struct(d) is None);
    assert(crate::display::spec_write_field(f, v, plain_spec()) == spec_render(v, plain_spec()));
    assert(parts.drop_first() =~= Seq::<crate::format::PartView>::empty());
    assert(crate::display::spec_top_part(crate::display::SelfView { name: None, own: seq![] }, d.fields@, vals, parts[0]) == spec_render(v, plain_spec()));
    assert(crate::display::spec_write_top_parts(crate::display::SelfView { name: None, own: seq![] }, d.fields@, vals, parts.drop_first()) == Ok::<Seq<char>, DeriveError>(seq![]));
    match spec_render(v, plain_spec()) {
        Ok(t) => {
            assert(t + Seq::<char>::empty() =~= t);
            assert(crate::display::spec_write_top_parts(crate::display::SelfView { name: None, own: seq![] }, d.fields@, vals, parts) == Ok::<Seq<char>, DeriveError>(t));
        },
        Err(e) => {
            assert(crate::display::spec_write_top_parts(crate::display::SelfView { name: None, own: seq![] }, d.fields@, vals, parts) == Err::<Seq<char>, DeriveError>(e));
        },
    }
}


/// A regular expression without group openings is kept as it is.
proof fn lemma_rewrite_plain(
    p: PlanView,
    fields: Seq<FieldDef>,
    ctx: crate::from_str::CtxView,
    s: Seq<char>,
    i: int,
    out: Seq<char>,
)
    requires
        0 <= i <= s.len(),
        forall|j: int| i <= j < s.len() ==> #[trigger] crate::from_str::capture_at(s, j) is None,
    ensures
        crate::from_str::spec_rewrite(p, fields, ctx, s, i, out, false, false) == Ok::<
            (PlanView, Seq<char>, bool, bool),
            DeriveError,
        >((p, out + s.skip(i), false, false)),
    decreases s.len() - i,
{
    if i < s.len() {
        assert(crate::from_str::capture_at(s, i) is None);
        lemma_rewrite_plain(p, fields, ctx, s, i + 1, out.push(s[i]));
        assert(out.push(s[i]) + s.skip(i + 1) =~= out + s.skip(i));
    } else {
        assert(out + s.skip(i) =~= out);
    }
}

/// A regular expression without group openings is checked as it is.
proof fn lemma_debug_plain(s: Seq<char>, i: int, out: Seq<char>)
    requires
        0 <= i <= s.len(),
        forall|j: int| i <= j < s.len() ==> #[trigger] crate::from_str::capture_at(s, j) is None,
    ensures
        crate::from_str::spec_debug_text(s, i, out) == out + s.skip(i),
    decreases s.len() - i,
{
    if i < s.len() {
        assert(crate::from_str::capture_at(s, i) is None);
        lemma_debug_plain(s, i + 1, out.push(s[i]));
        assert(out.push(s[i]) + s.skip(i + 1) =~= out + s.skip(i));
    } else {
        assert(out + s.skip(i) =~= out);
    }
}

/// A field whose attributes give the regular expression `(?s:.*?)` adds to
/// the pattern what a field whose attributes give neither a regular
/// expression nor a format adds: a group of its own that matches any text,
/// shortest first (where the format of the field's `with = ...` gives no
/// regular expression of its own, and the syntax parser of `regex-syntax`
/// accepts `(?s:.*?)`).
pub proof fn law_default_field_regex(p: PlanView, fields: Seq<FieldDef>, fi: int, fuel: nat)
    requires
        0 <= fi < fields.len(),
        p.entries.len() == fields.len(),
        crate::regex_api::regex_syntax_accepts("(?s:.*?)"@),
        crate::from_str::spec_with_regex(p.entries[fi].with, type_view(fields[fi].ty)) is None,
    ensures
        crate::from_str::spec_push_regex(p, fields, crate::from_str::CtxView::Field(fi), "(?s:.*?)"@, None, fuel)
            == crate::from_str::spec_push_format(p, fields, crate::from_str::CtxView::Field(fi), unit_format(), 0, None, fuel),
{
    let s = "(?s:.*?)"@;
    reveal_strlit("(?s:.*?)");
    let ctx = crate::from_str::CtxView::Field(fi);
    assert forall|j: int| 0 <= j < s.len() implies #[trigger] crate::from_str::capture_at(s, j) is None by {
        crate::from_str::lemma_scans(s, j);
        assert(crate::from_str::scan_backslashes(s, j) == j);
        if j == 0 {
            assert(s[2] == 's');
        }
    }
    lemma_rewrite_plain(p, fields, ctx, s, 0, seq![]);
    lemma_debug_plain(s, 0, seq![]);
    assert(Seq::<char>::empty() + s.skip(0) =~= s);
    assert(crate::field_key::spec_keys_of_path(seq![]) =~= Seq::<crate::field_key::KeyView>::empty());
    match crate::from_str::spec_set_capture(p, fi, seq![]) {
        Ok((q, idx)) => {
            let g = crate::from_str::spec_group_pattern(Some(idx), None);
            assert(g =~= "(?<"@ + crate::field_key::spec_capture_name(idx) + ">"@ + s + ")"@);
            let q2 = crate::from_str::push_pat(q, g);
            assert(crate::from_str::spec_push_format(q2, fields, ctx, unit_format(), 1, None, fuel) == Ok::<PlanView, DeriveError>(q2));
        },
        Err(_) => {},
    }
}


/// `v` is a value of the type `t`: an integer of the kind and in its range,
/// or a value of one of the other types that `FromStr` parses.
pub open spec fn has_type(v: ValueView, t: TypeView) -> bool {
    match (v, t) {
        (ValueView::UInt(n), TypeView::Int(k)) => !is_signed(k) && n <= int_max(k),
        (ValueView::Int(n), TypeView::Int(k)) => is_signed(k) && int_min(k) <= n <= int_max(k),
        (ValueView::Bool(_), TypeView::Bool) => true,
        (ValueView::Char(_), TypeView::Char) => true,
        (ValueView::Str(_), TypeView::Str) => true,
        _ => false,
    }
}

/// What `Display` writes of a value, `FromStr` of its type reads back as that
/// value.
pub proof fn law_value_roundtrip(v: ValueView, t: TypeView)
    requires
        has_type(v, t),
    ensures
        spec_display_text(v) matches Some(s) && spec_parse_value(t, s) == Some(v),
{
    let fs = plain_spec();
    match v {
        ValueView::UInt(n) => {
            let k = t->Int_0;
            let d = crate::num::spec_digits(n as nat, 10, false);
            assert(Seq::<char>::empty() + Seq::<char>::empty() + d =~= d);
            assert(crate::render::spec_pad_int(false, seq![], d, fs) == d);
            crate::num::lemma_decimal_roundtrip(n as nat, int_min(k), int_max(k));
        },
        ValueView::Int(n) => {
            let k = t->Int_0;
            if n >= 0 {
                let d = crate::num::spec_digits(n as nat, 10, false);
                assert(Seq::<char>::empty() + Seq::<char>::empty() + d =~= d);
                assert(crate::render::spec_pad_int(false, seq![], d, fs) == d);
                crate::num::lemma_decimal_roundtrip(n as nat, int_min(k), int_max(k));
            } else {
                let d = crate::num::spec_digits((-n) as nat, 10, false);
                let s = seq!['-'] + Seq::<char>::empty() + d;
                assert(crate::render::spec_pad_int(true, seq![], d, fs) == s);
                crate::num::lemma_digits_decimal((-n) as nat);
                assert(s.skip(1) =~= d);
                assert(crate::num::unsigned_part(s, true) == d);
            }
        },
        ValueView::Bool(b) => {
            reveal_strlit("true");
            reveal_strlit("false");
        },
        ValueView::Char(c) => {},
        ValueView::Str(x) => {},
        ValueView::Record(_) => {},
        ValueView::List(_) => {},
        ValueView::Pointer(_) => {},
        ValueView::Opt(_) => {},
    }
}

/// The text that the format `w` of a field's `with = ...` writes of `v`:
/// the items with the delimiter between them, else what `Display` writes.
pub open spec fn with_display_text(w: Option<WithView>, v: ValueView) -> Option<Seq<char>> {
    match w {
        Some(WithView::Join(d)) => match v {
            ValueView::List(items) => crate::formats::spec_join_write(items, d),
            _ => None,
        },
        _ => spec_display_text(v),
    }
}

/// `v` is a value of the type `t` whose text by the format `w` reads back: a
/// list of one item or more of the item type, with a delimiter whose first
/// character no text of an item holds; else a value of the type.
pub open spec fn readable_with(w: Option<WithView>, v: ValueView, t: TypeView) -> bool {
    match w {
        Some(WithView::Join(d)) => match (v, t) {
            (ValueView::List(items), TypeView::List(u)) => {
                &&& items.len() > 0
                &&& d.len() > 0
                &&& forall|i: int| 0 <= i < items.len() ==> has_type(#[trigger] items[i], *u)
                &&& forall|i: int, k: int|
                    0 <= i < items.len() && 0 <= k < item_texts(items)[i].len() ==> #[trigger] item_texts(items)[i][k] != d[0]
            },
            _ => false,
        },
        _ => has_type(v, t),
    }
}

/// What the format of a field writes of a value it can read back, it reads
/// back as that value.
pub proof fn law_with_roundtrip(w: Option<WithView>, v: ValueView, t: TypeView)
    requires
        readable_with(w, v, t),
    ensures
        with_display_text(w, v) matches Some(s) && crate::from_str::spec_parse_with(w, t, s) == Some(v),
{
    match w {
        Some(WithView::Join(d)) => {
            let items = v->List_0;
            let u = *(t->List_0);
            law_join_roundtrip(items, u, d);
        },
        _ => {
            law_value_roundtrip(v, t);
        },
    }
}

/// What the group of a field holds, where the field reads back as `v`:
/// what the field's format writes of `v`; for a field of
/// `#[display(opt)]`, nothing (the group took no part) for `None` and what
/// the format writes of the value for `Some`. A field without a group has
/// its default (`None` for `opt`).
pub open spec fn field_read_back(f: FieldDef, e: crate::from_str::EntryView, caps: Seq<Option<Seq<char>>>, v: ValueView) -> bool {
    let t = type_view(f.ty);
    match e.capture {
        Some(idx) => if f.attrs.opt {
            match v {
                ValueView::Opt(None) => !crate::from_str::cap_present(caps, idx),
                ValueView::Opt(Some(w)) => crate::from_str::cap_present(caps, idx) && readable_with(e.with, *w, t)
                    && with_display_text(e.with, *w) == Some(crate::from_str::cap_text(caps, idx)),
                _ => false,
            }
        } else {
            readable_with(e.with, v, t) && with_display_text(e.with, v) == Some(crate::from_str::cap_text(caps, idx))
        },
        None => v == if f.attrs.opt {
            ValueView::Opt(None)
        } else {
            spec_default_value(t)
        },
    }
}

/// Where the group of each field matched what the field's format writes of
/// the field's value (and no member has a group of its own), the fields read
/// from the groups are those values; a field without a group takes its
/// default. A field of `#[display(opt)]` whose group took no part reads
/// back as `None` (see `field_read_back`).
pub proof fn law_construct_roundtrip(
    p: PlanView,
    fields: Seq<FieldDef>,
    caps: Seq<Option<Seq<char>>>,
    values: Seq<ValueView>,
)
    requires
        p.entries.len() == fields.len(),
        values.len() == fields.len(),
        forall|i: int| 0 <= i < fields.len() ==> (#[trigger] p.entries[i]).deep.len() == 0,
        forall|i: int|
            0 <= i < fields.len() ==> #[trigger] field_read_back(fields[i], p.entries[i], caps, values[i]),
    ensures
        spec_construct(p, fields, caps) == Ok::<Seq<ValueView>, Seq<char>>(values),
{
    let rs = crate::from_str::spec_field_results(p, fields, caps);
    assert forall|i: int| 0 <= i < rs.len() implies #[trigger] rs[i] == Ok::<ValueView, Seq<char>>(values[i]) by {
        let e = p.entries[i];
        assert(field_read_back(fields[i], e, caps, values[i]));
        match e.capture {
            Some(idx) => if fields[i].attrs.opt {
                match values[i] {
                    ValueView::Opt(Some(w)) => {
                        law_with_roundtrip(e.with, *w, type_view(fields[i].ty));
                    },
                    _ => {},
                }
            } else {
                law_with_roundtrip(e.with, values[i], type_view(fields[i].ty));
            },
            None => {},
        }
        assert(e.deep.len() == 0);
    }
    lemma_no_failure(fields, rs, rs.len() as int);
    assert(rs.map_values(|r: Result<ValueView, Seq<char>>| r->Ok_0) =~= values);
}

proof fn lemma_no_failure(fields: Seq<FieldDef>, rs: Seq<Result<ValueView, Seq<char>>>, n: int)
    requires
        0 <= n <= rs.len(),
        forall|i: int| 0 <= i < rs.len() ==> (#[trigger] rs[i]) is Ok,
    ensures
        crate::from_str::spec_least_failure(fields, rs, n) is None,
    decreases n,
{
    if n > 0 {
        lemma_no_failure(fields, rs, n - 1);
        assert(rs[n - 1] is Ok);
    }
}


/// The texts of the items, as `Display` writes them.
pub open spec fn item_texts(items: Seq<ValueView>) -> Seq<Seq<char>> {
    Seq::new(items.len(), |i: int| spec_display_text(items[i]).unwrap())
}

proof fn lemma_join_texts(items: Seq<ValueView>, t: TypeView, d: Seq<char>)
    requires
        forall|i: int| 0 <= i < items.len() ==> has_type(#[trigger] items[i], t),
    ensures
        crate::formats::spec_join_write(items, d) == Some(crate::from_str::spec_join_with(item_texts(items), d)),
    decreases items.len(),
{
    if items.len() > 0 {
        let pre = items.drop_last();
        assert forall|i: int| 0 <= i < pre.len() implies has_type(#[trigger] pre[i], t) by {
            assert(pre[i] == items[i]);
        }
        lemma_join_texts(pre, t, d);
        law_value_roundtrip(items.last(), t);
        assert(item_texts(items).drop_last() =~= item_texts(pre));
        if items.len() == 1 {
            assert(crate::from_str::spec_join_with(item_texts(items), d) == item_texts(items)[0]);
        }
    }
}

/// Texts joined with a separator, taken apart at the front.
proof fn lemma_join_front(texts: Seq<Seq<char>>, d: Seq<char>)
    requires
        texts.len() >= 2,
    ensures
        crate::from_str::spec_join_with(texts, d) == texts[0] + d + crate::from_str::spec_join_with(texts.drop_first(), d),
    decreases texts.len(),
{
    let rest = texts.drop_first();
    if texts.len() == 2 {
        assert(texts.drop_last() =~= seq![texts[0]]);
        assert(rest =~= seq![texts[1]]);
        assert(crate::from_str::spec_join_with(texts.drop_last(), d) == texts[0]);
        assert(crate::from_str::spec_join_with(rest, d) == texts[1]);
    } else {
        lemma_join_front(texts.drop_last(), d);
        assert(texts.drop_last().drop_first() =~= rest.drop_last());
        assert(texts.drop_last()[0] == texts[0]);
        assert(rest.last() == texts.last());
        assert(crate::from_str::spec_join_with(rest, d) == crate::from_str::spec_join_with(rest.drop_last(), d) + d + rest.last());
        assert(crate::from_str::spec_join_with(texts, d) == crate::from_str::spec_join_with(texts.drop_last(), d) + d + texts.last());
        assert((texts[0] + d + crate::from_str::spec_join_with(rest.drop_last(), d)) + d + texts.last() =~= texts[0] + d + (
        crate::from_str::spec_join_with(rest.drop_last(), d) + d + rest.last()));
    }
}

/// Where `d` starts with a character that `t0` does not hold, the first
/// occurrence of `d` in `t0 + d + r` is right after `t0`.
proof fn lemma_find_after(t0: Seq<char>, d: Seq<char>, r: Seq<char>, j: int)
    requires
        d.len() > 0,
        0 <= j <= t0.len(),
        forall|k: int| 0 <= k < t0.len() ==> t0[k] != d[0],
    ensures
        crate::formats::spec_find(t0 + d + r, d, j) == Some(t0.len() as int),
    decreases t0.len() - j,
{
    let s = t0 + d + r;
    if j < t0.len() {
        assert(s.subrange(j, j + d.len())[0] == t0[j]);
        lemma_find_after(t0, d, r, j + 1);
    } else {
        assert(s.subrange(j, j + d.len()) =~= d);
    }
}

/// Where `d` starts with a character that `t` does not hold, `d` does not
/// occur in `t`.
proof fn lemma_find_none(t: Seq<char>, d: Seq<char>, j: int)
    requires
        d.len() > 0,
        0 <= j,
        forall|k: int| 0 <= k < t.len() ==> t[k] != d[0],
    ensures
        crate::formats::spec_find(t, d, j) is None,
    decreases t.len() + 1 - j,
{
    if j + d.len() <= t.len() {
        assert(t.subrange(j, j + d.len())[0] == t[j]);
        lemma_find_none(t, d, j + 1);
    }
}

proof fn lemma_split_join(texts: Seq<Seq<char>>, d: Seq<char>)
    requires
        texts.len() > 0,
        d.len() > 0,
        forall|i: int, k: int| 0 <= i < texts.len() && 0 <= k < texts[i].len() ==> #[trigger] texts[i][k] != d[0],
    ensures
        crate::formats::spec_split(crate::from_str::spec_join_with(texts, d), d) == texts,
    decreases texts.len(),
{
    if texts.len() == 1 {
        lemma_find_none(texts[0], d, 0);
        assert(crate::formats::spec_split(texts[0], d) == seq![texts[0]]);
        assert(seq![texts[0]] =~= texts);
    } else {
        let rest = texts.drop_first();
        assert forall|i: int, k: int| 0 <= i < rest.len() && 0 <= k < rest[i].len() implies #[trigger] rest[i][k] != d[0] by {
            assert(rest[i] == texts[i + 1]);
            assert(texts[i + 1][k] != d[0]);
        }
        lemma_split_join(rest, d);
        lemma_join_front(texts, d);
        let t0 = texts[0];
        let r = crate::from_str::spec_join_with(rest, d);
        assert forall|k: int| 0 <= k < t0.len() implies t0[k] != d[0] by {
            assert(texts[0][k] != d[0]);
        }
        lemma_find_after(t0, d, r, 0);
        let s = t0 + d + r;
        assert(s.take(t0.len() as int) =~= t0);
        assert(s.skip((t0.len() + d.len()) as int) =~= r);
        assert(seq![t0] + rest =~= texts);
    }
}

proof fn lemma_parse_texts(items: Seq<ValueView>, t: TypeView)
    requires
        forall|i: int| 0 <= i < items.len() ==> has_type(#[trigger] items[i], t),
    ensures
        crate::formats::spec_parse_items(t, item_texts(items)) == Some(items),
    decreases items.len(),
{
    if items.len() > 0 {
        let pre = items.drop_last();
        assert forall|i: int| 0 <= i < pre.len() implies has_type(#[trigger] pre[i], t) by {
            assert(pre[i] == items[i]);
        }
        lemma_parse_texts(pre, t);
        law_value_roundtrip(items.last(), t);
        assert(item_texts(items).drop_last() =~= item_texts(pre));
        assert(pre.push(items.last()) =~= items);
    } else {
        assert(item_texts(items) =~= Seq::<Seq<char>>::empty());
    }
}

/// Items written with a delimiter between them read back, split at the
/// delimiter, as the same items: for one item or more, of one type, and a
/// delimiter whose first character none of their texts holds.
pub proof fn law_join_roundtrip(items: Seq<ValueView>, t: TypeView, d: Seq<char>)
    requires
        items.len() > 0,
        d.len() > 0,
        forall|i: int| 0 <= i < items.len() ==> has_type(#[trigger] items[i], t),
        forall|i: int, k: int|
            0 <= i < items.len() && 0 <= k < item_texts(items)[i].len() ==> #[trigger] item_texts(items)[i][k] != d[0],
    ensures
        crate::formats::spec_join_write(items, d) matches Some(w) && crate::formats::spec_parse_items(
            t,
            crate::formats::spec_split(w, d),
        ) == Some(items),
{
    lemma_join_texts(items, t, d);
    lemma_split_join(item_texts(items), d);
    lemma_parse_texts(items, t);
}


/// Unsigned integers written with a delimiter between them read back, split
/// at the delimiter, as the same integers: for one integer or more, of one
/// unsigned type, and a delimiter that does not start with a digit.
pub proof fn law_join_roundtrip_unsigned(items: Seq<ValueView>, k: crate::value::IntKind, d: Seq<char>)
    requires
        items.len() > 0,
        d.len() > 0,
        !crate::format_spec::is_digit(d[0]),
        forall|i: int| 0 <= i < items.len() ==> (#[trigger] items[i]) is UInt && has_type(items[i], TypeView::Int(k)),
    ensures
        crate::formats::spec_join_write(items, d) matches Some(w) && crate::formats::spec_parse_items(
            TypeView::Int(k),
            crate::formats::spec_split(w, d),
        ) == Some(items),
{
    let fs = plain_spec();
    assert forall|i: int, j: int|
        0 <= i < items.len() && 0 <= j < item_texts(items)[i].len() implies #[trigger] item_texts(items)[i][j] != d[0] by {
        let n = items[i]->UInt_0;
        let t = crate::num::spec_digits(n as nat, 10, false);
        assert(Seq::<char>::empty() + Seq::<char>::empty() + t =~= t);
        assert(crate::render::spec_pad_int(false, seq![], t, fs) == t);
        crate::num::lemma_digits_decimal(n as nat);
        assert(item_texts(items)[i] == t);
        assert(crate::format_spec::is_digit(t[j]));
    }
    law_join_roundtrip(items, TypeView::Int(k), d);
}

/// The plans of the variants from `vi` on: an ignored variant has none.
proof fn lemma_plans_ignore(e: EnumDef, vi: int)
    requires
        0 <= vi <= e.variants@.len(),
    ensures
        spec_plans_from(e, vi) matches Ok(ps) ==> ps.len() == e.variants@.len() - vi && forall|k: int|
            0 <= k < ps.len() && (#[trigger] ps[k]) is Some ==> !e.variants@[vi + k].attrs.ignore,
    decreases e.variants@.len() - vi,
{
    if vi < e.variants@.len() {
        lemma_plans_ignore(e, vi + 1);
        if let Ok(ps) = spec_plans_from(e, vi) {
            let rest = spec_plans_from(e, vi + 1)->Ok_0;
            assert(ps == seq![ps[0]] + rest);
            assert forall|k: int| 0 <= k < ps.len() && (#[trigger] ps[k]) is Some implies !e.variants@[vi + k].attrs.ignore by {
                if k > 0 {
                    assert(ps[k] == rest[k - 1]);
                    assert(vi + 1 + (k - 1) == vi + k);
                }
            }
        }
    }
}

proof fn lemma_literal_match_some(ps: Seq<Option<PlanView>>, s: Seq<char>, j: int)
    ensures
        spec_literal_match(ps, s, j) matches Some(r) ==> j <= r < ps.len() && ps[r] is Some,
    decreases ps.len() - j,
{
    if 0 <= j < ps.len() {
        lemma_literal_match_some(ps, s, j + 1);
    }
}

proof fn lemma_try_regex_some(e: EnumDef, ps: Seq<Option<PlanView>>, s: Seq<char>, j: int)
    ensures
        crate::from_str::spec_try_regex(e, ps, s, j) matches Ok(Ok((r, _))) ==> j <= r < ps.len() && ps[r] is Some,
    decreases ps.len() - j,
{
    if 0 <= j < ps.len() && j < e.variants@.len() {
        lemma_try_regex_some(e, ps, s, j + 1);
    }
}

/// The first of the variants with regular expressions from `vi` on that
/// match and whose fields parse is the first of their candidates.
proof fn lemma_try_regex_first(e: EnumDef, ps: Seq<Option<PlanView>>, s: Seq<char>, vi: int)
    requires
        0 <= vi,
    ensures
        crate::from_str::spec_regex_cands(e, ps, s, vi) matches Ok(c) ==> crate::from_str::spec_try_regex(e, ps, s, vi) == if c.len() == 0 {
            Ok::<Result<(int, Seq<ValueView>), Seq<char>>, DeriveError>(Err("parse failed."@))
        } else {
            Ok::<Result<(int, Seq<ValueView>), Seq<char>>, DeriveError>(Ok(c[0]))
        },
    decreases ps.len() - vi,
{
    if vi < ps.len() && vi < e.variants@.len() {
        lemma_try_regex_first(e, ps, s, vi + 1);
        match crate::from_str::spec_regex_cands(e, ps, s, vi + 1) {
            Ok(rest) => {
                assert(Seq::<(int, Seq<ValueView>)>::empty() + rest =~= rest);
                match ps[vi] {
                    Some(p) => if !p.literal {
                        match crate::regex_api::regex_captures(crate::from_str::spec_pattern(p), crate::from_str::spec_names(p), s) {
                            Some(Some(caps)) => match crate::from_str::spec_construct(p, e.variants@[vi].fields@, caps) {
                                Ok(v) => {
                                    assert((seq![(vi, v)] + rest)[0] == (vi, v));
                                },
                                Err(_) => {},
                            },
                            _ => {},
                        }
                    },
                    None => {},
                }
            },
            Err(_) => {},
        }
    }
}

/// `FromStr` of an enum gives the first way the text parses as a variant
/// (see `candidates`): that of the variant whose pattern is the text itself,
/// else of the first variant whose regular expression matches and whose
/// fields parse; `parse failed.` where there is none. Where the fields of
/// the variant whose pattern is the text fail to parse, both give that
/// error.
pub proof fn law_from_str_is_first_candidate(e: EnumDef, s: Seq<char>)
    ensures
        crate::from_str::spec_candidates(e, s) matches Ok(Ok(c)) ==> spec_from_str_enum(e, s) == if c.len() == 0 {
            Ok::<Result<(int, Seq<ValueView>), Seq<char>>, DeriveError>(Err("parse failed."@))
        } else {
            Ok::<Result<(int, Seq<ValueView>), Seq<char>>, DeriveError>(Ok(c[0]))
        },
        crate::from_str::spec_candidates(e, s) matches Ok(Err(m)) ==> spec_from_str_enum(e, s) == Ok::<Result<(int, Seq<ValueView>), Seq<char>>, DeriveError>(Err(m)),
{
    if let Ok(ps) = spec_enum_plans(e) {
        lemma_try_regex_first(e, ps, s, 0);
        match crate::from_str::spec_regex_cands(e, ps, s, 0) {
            Ok(rc) => {
                assert(Seq::<(int, Seq<ValueView>)>::empty() + rc =~= rc);
                match spec_literal_match(ps, s, 0) {
                    Some(vi) => match crate::from_str::spec_construct(ps[vi].unwrap(), e.variants@[vi].fields@, seq![]) {
                        Ok(v) => {
                            assert((seq![(vi, v)] + rc)[0] == (vi, v));
                        },
                        Err(_) => {},
                    },
                    None => {},
                }
            },
            Err(_) => {},
        }
    }
}

/// `FromStr` of an enum never gives a variant with `#[from_str(ignore)]`.
pub proof fn law_ignored_variant_not_parsed(e: EnumDef, s: Seq<char>)
    ensures
        spec_from_str_enum(e, s) matches Ok(Ok((vi, _))) ==> 0 <= vi < e.variants@.len() && !e.variants@[vi].attrs.ignore,
{
    if let Ok(ps) = spec_enum_plans(e) {
        lemma_plans_ignore(e, 0);
        lemma_literal_match_some(ps, s, 0);
        lemma_try_regex_some(e, ps, s, 0);
        match spec_literal_match(ps, s, 0) {
            Some(vi) => {
                assert(ps[vi] is Some);
                assert(0 + vi == vi);
            },
            None => {
                if let Ok(Ok((vi, _))) = crate::from_str::spec_try_regex(e, ps, s, 0) {
                    assert(ps[vi] is Some);
                    assert(0 + vi == vi);
                }
            },
        }
    }
}

/// Asking again for the group of keys that already have one gives that
/// group and changes nothing; keys without a group get the next free index.
pub proof fn law_capture_reused(p: PlanView, fi: int, keys: Seq<crate::field_key::KeyView>)
    requires
        0 <= fi < p.entries.len(),
    ensures
        p.entries[fi].capture matches Some(i) ==> (keys.len() == 0 ==> crate::from_str::spec_set_capture(p, fi, keys) == Ok::<
            (PlanView, usize),
            DeriveError,
        >((p, i))),
        (keys.len() == 0 && p.entries[fi].capture is None && p.next < usize::MAX) ==> (match crate::from_str::spec_set_capture(p, fi, keys) {
            Ok((q, i)) => i == p.next && q.next == p.next + 1 && q.entries[fi].capture == Some(p.next),
            Err(_) => false,
        }),
        (keys.len() > 0 && exists|j: int| 0 <= j < p.entries[fi].deep.len() && #[trigger] p.entries[fi].deep[j].keys == keys) ==> (
        match crate::from_str::spec_set_capture(p, fi, keys) {
            Ok((q, i)) => q == p && exists|j: int|
                0 <= j < p.entries[fi].deep.len() && #[trigger] p.entries[fi].deep[j].keys == keys && p.entries[fi].deep[j].idx == i,
            Err(_) => false,
        }),
        (keys.len() > 0 && p.next < usize::MAX && forall|j: int| 0 <= j < p.entries[fi].deep.len() ==> #[trigger] p.entries[fi].deep[j].keys != keys)
            ==> (match crate::from_str::spec_set_capture(p, fi, keys) {
            Ok((q, i)) => i == p.next && q.next == p.next + 1,
            Err(_) => false,
        }),
{
    crate::from_str::lemma_find_deep(p.entries[fi].deep, keys);
    if keys.len() > 0 {
        if let Some(j) = crate::from_str::spec_find_deep(p.entries[fi].deep, keys) {
            assert(p.entries[fi].deep[j].keys == keys);
        }
    }
}


/// A character that the styles keep: alphanumeric, or an ASCII digit.
pub open spec fn style_kept(c: char) -> bool {
    crate::chars::char_alphanumeric(c) || crate::chars::is_ascii_digit(c)
}

/// The kept characters of `s` in ASCII lower case.
pub open spec fn lower_kept(s: Seq<char>) -> Seq<char>
    decreases s.len(),
{
    if s.len() == 0 {
        seq![]
    } else {
        lower_kept(s.drop_last()) + if style_kept(s.last()) {
            seq![crate::chars::spec_to_lower(s.last())]
        } else {
            Seq::<char>::empty()
        }
    }
}

proof fn lemma_fold_lowercase(s: Seq<char>)
    ensures
        crate::style::case_fold(crate::style::case_rules(DisplayStyle::LowerCase), s).out == lower_kept(s),
    decreases s.len(),
{
    if s.len() > 0 {
        lemma_fold_lowercase(s.drop_last());
        let st = crate::style::case_fold(crate::style::case_rules(DisplayStyle::LowerCase), s.drop_last());
        assert(st.out + Seq::<char>::empty() + seq![crate::chars::spec_to_lower(s.last())] =~= st.out + seq![
            crate::chars::spec_to_lower(s.last()),
        ]);
        assert(st.out + Seq::<char>::empty() =~= st.out);
    }
}

proof fn lemma_lower_kept_concat(a: Seq<char>, b: Seq<char>)
    ensures
        lower_kept(a + b) == lower_kept(a) + lower_kept(b),
    decreases b.len(),
{
    if b.len() == 0 {
        assert(a + b =~= a);
        assert(lower_kept(a) + Seq::<char>::empty() =~= lower_kept(a));
    } else {
        lemma_lower_kept_concat(a, b.drop_last());
        assert((a + b).drop_last() =~= a + b.drop_last());
        assert((a + b).last() == b.last());
        let e = if style_kept(b.last()) {
            seq![crate::chars::spec_to_lower(b.last())]
        } else {
            Seq::<char>::empty()
        };
        assert(lower_kept(a) + lower_kept(b.drop_last()) + e =~= lower_kept(a) + (lower_kept(b.drop_last()) + e));
    }
}

proof fn lemma_lower_char(c: char)
    requires
        style_kept(c),
    ensures
        style_kept(crate::chars::spec_to_lower(c)),
        crate::chars::spec_to_lower(crate::chars::spec_to_lower(c)) == crate::chars::spec_to_lower(c),
{
    if crate::chars::is_ascii_upper(c) {
        let l = crate::chars::spec_to_lower(c);
        assert(('a' as u32) <= (l as u32) <= ('z' as u32));
        assert(crate::chars::is_ascii_lower(l));
    }
}

proof fn lemma_lower_kept_idem(s: Seq<char>)
    ensures
        lower_kept(lower_kept(s)) == lower_kept(s),
    decreases s.len(),
{
    if s.len() > 0 {
        lemma_lower_kept_idem(s.drop_last());
        let c = s.last();
        let e = if style_kept(c) {
            seq![crate::chars::spec_to_lower(c)]
        } else {
            Seq::<char>::empty()
        };
        lemma_lower_kept_concat(lower_kept(s.drop_last()), e);
        if style_kept(c) {
            lemma_lower_char(c);
            assert(e.drop_last() =~= Seq::<char>::empty());
            assert(lower_kept(e) == lower_kept(Seq::<char>::empty()) + seq![crate::chars::spec_to_lower(crate::chars::spec_to_lower(c))]);
            assert(lower_kept(e) =~= e);
        } else {
            assert(lower_kept(e) =~= e);
        }
    }
}

/// Writing a name in lower case a second time changes nothing.
pub proof fn law_lowercase_idempotent(s: Seq<char>)
    ensures
        spec_apply_style(DisplayStyle::LowerCase, spec_apply_style(DisplayStyle::LowerCase, s)) == spec_apply_style(DisplayStyle::LowerCase, s),
{
    lemma_fold_lowercase(s);
    lemma_fold_lowercase(lower_kept(s));
    lemma_lower_kept_idem(s);
}

/// A character that a style writes as it reads it: kept, and in lower case.
pub open spec fn lower_fixed(c: char) -> bool {
    style_kept(c) && !crate::chars::is_ascii_upper(c) && crate::chars::spec_to_lower(c) == c
}

/// Lower-case words joined by single `_`, possibly ending with `_`: each
/// character is `_` or written as it reads; no `_` first, and no two in a
/// row.
pub open spec fn snake_prefix(t: Seq<char>) -> bool {
    &&& forall|i: int| 0 <= i < t.len() ==> #[trigger] t[i] == '_' || lower_fixed(t[i])
    &&& t.len() > 0 ==> t[0] != '_'
    &&& forall|i: int| 0 <= i < t.len() - 1 ==> !(#[trigger] t[i] == '_' && t[i + 1] == '_')
}

pub open spec fn snake_rules() -> crate::style::CaseRules {
    crate::style::case_rules(DisplayStyle::LowerSnakeCase)
}

proof fn lemma_lower_not_upper(c: char)
    ensures
        !crate::chars::is_ascii_upper(crate::chars::spec_to_lower(c)),
{
    if crate::chars::is_ascii_upper(c) {
        let l = crate::chars::spec_to_lower(c);
        assert(('a' as u32) <= (l as u32) <= ('z' as u32));
    }
}

/// What `snake_case` writes is lower-case words joined by single `_`.
proof fn lemma_snake_output(s: Seq<char>)
    ensures
        snake_prefix(crate::style::case_fold(snake_rules(), s).out),
        crate::style::case_fold(snake_rules(), s).out.len() > 0 ==> crate::style::case_fold(snake_rules(), s).out.last() != '_',
        crate::style::case_fold(snake_rules(), s).is_line_head == (crate::style::case_fold(snake_rules(), s).out.len() == 0),
    decreases s.len(),
{
    if s.len() > 0 {
        lemma_snake_output(s.drop_last());
        let c = s.last();
        let st = crate::style::case_fold(snake_rules(), s.drop_last());
        let t = crate::style::case_fold(snake_rules(), s).out;
        if style_kept(c) {
            let l = crate::chars::spec_to_lower(c);
            lemma_lower_char(c);
            lemma_lower_not_upper(c);
            assert(lower_fixed(l));
            let o = st.out;
            if st.is_line_head {
                assert(t =~= seq![l]);
            } else {
                let ws = st.is_word_head || (!crate::chars::is_ascii_upper(st.last) && crate::chars::is_ascii_upper(c));
                if ws {
                    assert(t =~= o + seq!['_'] + seq![l]);
                    assert forall|i: int| 0 <= i < t.len() implies #[trigger] t[i] == '_' || lower_fixed(t[i]) by {
                        if i < o.len() {
                            assert(t[i] == o[i]);
                        }
                    }
                    assert forall|i: int| 0 <= i < t.len() - 1 implies !(#[trigger] t[i] == '_' && t[i + 1] == '_') by {
                        if i < o.len() - 1 {
                            assert(t[i] == o[i] && t[i + 1] == o[i + 1]);
                        } else if i == o.len() - 1 {
                            assert(t[i] == o.last());
                        }
                    }
                    assert(t[0] == o[0]);
                } else {
                    assert(t =~= o + seq![l]);
                    assert forall|i: int| 0 <= i < t.len() implies #[trigger] t[i] == '_' || lower_fixed(t[i]) by {
                        if i < o.len() {
                            assert(t[i] == o[i]);
                        }
                    }
                    assert forall|i: int| 0 <= i < t.len() - 1 implies !(#[trigger] t[i] == '_' && t[i + 1] == '_') by {
                        if i < o.len() - 1 {
                            assert(t[i] == o[i] && t[i + 1] == o[i + 1]);
                        }
                    }
                    assert(t[0] == o[0]);
                }
            }
        }
    }
}

/// `snake_case` reads a text of lower-case words joined by `_` back as that
/// text (without a `_` at its end), in a state that tells whether a word is
/// to start.
proof fn lemma_snake_reads(t: Seq<char>)
    requires
        snake_prefix(t),
    ensures
        ({
            let st = crate::style::case_fold(snake_rules(), t);
            &&& st.out == (if t.len() > 0 && t.last() == '_' { t.drop_last() } else { t })
            &&& st.is_line_head == (t.len() == 0)
            &&& st.is_word_head == (t.len() == 0 || t.last() == '_')
            &&& !crate::chars::is_ascii_upper(st.last)
        }),
    decreases t.len(),
{
    if t.len() > 0 {
        let u = t.drop_last();
        assert(snake_prefix(u)) by {
            assert forall|i: int| 0 <= i < u.len() implies #[trigger] u[i] == '_' || lower_fixed(u[i]) by {
                assert(u[i] == t[i]);
            }
            assert forall|i: int| 0 <= i < u.len() - 1 implies !(#[trigger] u[i] == '_' && u[i + 1] == '_') by {
                assert(u[i] == t[i] && u[i + 1] == t[i + 1]);
            }
            if u.len() > 0 {
                assert(u[0] == t[0]);
            }
        }
        lemma_snake_reads(u);
        let c = t.last();
        assert(c == t[t.len() - 1]);
        let st = crate::style::case_fold(snake_rules(), u);
        assert(!('_' as u32 >= 128) && !crate::chars::is_ascii_alnum('_'));
        if c != '_' {
            assert(lower_fixed(c));
            if u.len() > 0 && u.last() == '_' {
                assert(u.last() == t[t.len() - 2]);
                assert(u.len() >= 2) by {
                    if u.len() == 1 {
                        assert(t[0] == u[0]);
                    }
                }
                assert(u.drop_last() + seq!['_'] + seq![c] =~= t);
            } else {
                assert(u + seq![c] =~= t);
                if u.len() > 0 {
                    assert(u.last() == t[t.len() - 2]);
                }
            }
        } else {
            if u.len() > 0 {
                assert(u.last() == t[t.len() - 2]);
                assert(u.last() != '_');
            } else {
                assert(t[0] == c);
            }
        }
    }
}

/// Writing a name in `snake_case` a second time changes nothing.
pub proof fn law_snake_case_idempotent(s: Seq<char>)
    ensures
        spec_apply_style(DisplayStyle::LowerSnakeCase, spec_apply_style(DisplayStyle::LowerSnakeCase, s)) == spec_apply_style(
            DisplayStyle::LowerSnakeCase,
            s,
        ),
{
    lemma_snake_output(s);
    lemma_snake_reads(crate::style::case_fold(snake_rules(), s).out);
}
} // verus!
