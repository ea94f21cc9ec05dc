//! What `Display` and `FromStr` read of a type: its fields, their types, and
//! the helper attributes `#[display(...)]` and `#[from_str(...)]` of the type,
//! its variants and its fields.
use vstd::prelude::*;
use crate::field_key::{FieldKey, KeyView};
use crate::format::{spec_parse_format, DisplayFormat, PartView};
use crate::style::{spec_style_of, DisplayStyle};
use crate::error::DeriveError;
use crate::value::{ValueType, TypeView};

verus! {

/// A format given by `with = ...`: the type's own `Display` and `FromStr`
/// (`fmt()`), a list with a delimiter between its items (`delimiter(", ")`,
/// which is `join(fmt(), ", ")`), or the type's own with the regular
/// expression of its texts (`RegexInfer`).
#[derive(Debug)]
pub enum WithFormat {
    Fmt,
    Join(String),
    RegexInfer,
}

pub enum WithView {
    Fmt,
    Join(Seq<char>),
    RegexInfer,
}

impl View for WithFormat {
    type V = WithView;

    open spec fn view(&self) -> WithView {
        match self {
            WithFormat::Fmt => WithView::Fmt,
            WithFormat::Join(d) => WithView::Join(d@),
            WithFormat::RegexInfer => WithView::RegexInfer,
        }
    }
}

pub open spec fn opt_with_view(w: Option<WithFormat>) -> Option<WithView> {
    match w {
        Some(f) => Some(f@),
        None => None,
    }
}

/// The helper attributes of a type, a variant or a field.
#[derive(Debug, Default)]
pub struct Attrs {
    /// `#[display("...")]`
    pub format: Option<String>,
    /// `#[display(style = "...")]`
    pub style: Option<String>,
    /// `#[from_str(regex = "...")]`
    pub regex: Option<String>,
    /// `#[from_str(regex_infer)]`
    pub regex_infer: bool,
    /// `#[from_str(default)]`
    pub default: bool,
    /// `#[from_str(default_fields(...))]`
    pub default_fields: Vec<String>,
    /// `#[from_str(ignore)]`
    pub ignore: bool,
    /// `#[display(with = ...)]`: the format of a field for `Display`, and
    /// for `FromStr` where `from_str_with` gives none.
    pub with: Option<WithFormat>,
    /// `#[from_str(with = ...)]`: the format of a field for `FromStr`.
    pub from_str_with: Option<WithFormat>,
    /// `#[from_str(new = ...)]`: the value is made by the given expression
    /// from the parsed fields (see `new_from_option`, `new_from_result` and
    /// `EnumDef::candidates`).
    pub new: bool,
    /// `#[display(opt)]`: the field is an `Option` of its type; `None` is
    /// written as nothing (its whole format left out) and parsed from a text
    /// in which its pattern takes no part.
    pub opt: bool,
}

/// Whether the fields have names, positions, or whether there are none.
#[derive(Debug, Clone, Copy, PartialEq, Eq, Structural)]
pub enum FieldsKind {
    Named,
    Unnamed,
    Unit,
}

/// A field: its key, its type and its attributes.
#[derive(Debug)]
pub struct FieldDef {
    pub key: FieldKey,
    pub ty: ValueType,
    pub attrs: Attrs,
}

/// A struct.
#[derive(Debug)]
pub struct StructDef {
    pub attrs: Attrs,
    pub kind: FieldsKind,
    pub fields: Vec<FieldDef>,
}

/// A variant of an enum.
#[derive(Debug)]
pub struct VariantDef {
    pub name: String,
    pub attrs: Attrs,
    pub kind: FieldsKind,
    pub fields: Vec<FieldDef>,
}

/// An enum.
#[derive(Debug)]
pub struct EnumDef {
    pub attrs: Attrs,
    pub variants: Vec<VariantDef>,
}

/// The `#[display(...)]` attributes, parsed: the format and the style.
pub struct DisplayAttrs {
    pub format: Option<DisplayFormat>,
    pub style: Option<DisplayStyle>,
}

pub struct DisplayAttrsView {
    pub format: Option<Seq<PartView>>,
    pub style: Option<DisplayStyle>,
}

impl View for DisplayAttrs {
    type V = DisplayAttrsView;

    open spec fn view(&self) -> DisplayAttrsView {
        DisplayAttrsView {
            format: match self.format {
                Some(f) => Some(f@),
                None => None,
            },
            style: self.style,
        }
    }
}

/// The `#[display(...)]` attributes parsed, or the first error among them:
/// the format is parsed before the style.
pub open spec fn spec_display_attrs(a: Attrs) -> Result<DisplayAttrsView, DeriveError> {
    let format = match a.format {
        Some(f) => match spec_parse_format(f@) {
            Some(p) => Ok(Some(p)),
            None => Err(DeriveError::InvalidDisplayFormat),
        },
        None => Ok(None),
    };
    let style = match a.style {
        Some(s) => match spec_style_of(s@) {
            Some(st) => Ok(Some(st)),
            None => Err(DeriveError::InvalidStyle),
        },
        None => Ok(None),
    };
    match (format, style) {
        (Err(e), _) => Err(e),
        (Ok(_), Err(e)) => Err(e),
        (Ok(f), Ok(s)) => Ok(DisplayAttrsView { format: f, style: s }),
    }
}

impl Attrs {
    /// Parses the `#[display(...)]` attributes.
    pub fn display_attrs(&self) -> (r: Result<DisplayAttrs, DeriveError>)
        ensures
            match r {
                Ok(d) => spec_display_attrs(*self) == Ok::<DisplayAttrsView, DeriveError>(d@),
                Err(e) => spec_display_attrs(*self) == Err::<DisplayAttrsView, DeriveError>(e),
            },
    {
        let format = match &self.format {
            Some(f) => match DisplayFormat::parse(f.as_str()) {
                Some(p) => Some(p),
                None => {
                    return Err(DeriveError::InvalidDisplayFormat);
                },
            },
            None => None,
        };
        let style = match &self.style {
            Some(s) => match DisplayStyle::parse(s.as_str()) {
                Some(st) => Some(st),
                None => {
                    return Err(DeriveError::InvalidStyle);
                },
            },
            None => None,
        };
        let d = DisplayAttrs { format, style };
        assert(spec_display_attrs(*self) == Ok::<DisplayAttrsView, DeriveError>(d@));
        Ok(d)
    }
}

pub open spec fn fields_keys(fields: Seq<FieldDef>) -> Seq<KeyView> {
    fields.map_values(|f: FieldDef| f.key@)
}

/// The first field with key `k`.
pub open spec fn spec_find_field(fields: Seq<FieldDef>, k: KeyView) -> Option<int>
    decreases fields.len(),
{
    if fields.len() == 0 {
        None
    } else if fields[0].key@ == k {
        Some(0)
    } else {
        match spec_find_field(fields.drop_first(), k) {
            Some(i) => Some(i + 1),
            None => None,
        }
    }
}

pub proof fn lemma_find_field(fields: Seq<FieldDef>, k: KeyView)
    ensures
        match spec_find_field(fields, k) {
            Some(i) => 0 <= i < fields.len() && fields[i].key@ == k && forall|j: int| 0 <= j < i ==> fields[j].key@ != k,
            None => forall|j: int| 0 <= j < fields.len() ==> fields[j].key@ != k,
        },
    decreases fields.len(),
{
    if fields.len() > 0 {
        lemma_find_field(fields.drop_first(), k);
        if fields[0].key@ != k {
            match spec_find_field(fields.drop_first(), k) {
                Some(i) => {
                    assert forall|j: int| 0 <= j < i + 1 implies fields[j].key@ != k by {
                        if j > 0 {
                            assert(fields[j] == fields.drop_first()[j - 1]);
                        }
                    }
                },
                None => {
                    assert forall|j: int| 0 <= j < fields.len() implies fields[j].key@ != k by {
                        if j > 0 {
                            assert(fields[j] == fields.drop_first()[j - 1]);
                        }
                    }
                },
            }
        }
    }
}

/// Finds the first field with the key `k`.
pub fn find_field(fields: &Vec<FieldDef>, k: &FieldKey) -> (r: Option<usize>)
    ensures
        match r {
            Some(i) => spec_find_field(fields@, k@) == Some(i as int),
            None => spec_find_field(fields@, k@) is None,
        },
{
    proof {
        lemma_find_field(fields@, k@);
    }
    let mut i: usize = 0;
    while i < fields.len()
        invariant
            i <= fields.len(),
            forall|j: int| 0 <= j < i ==> fields@[j].key@ != k@,
        decreases fields.len() - i,
    {
        if crate::field_key::key_eq(&fields[i].key, k) {
            proof {
                lemma_find_field(fields@, k@);
                match spec_find_field(fields@, k@) {
                    Some(m) => {
                        assert(m == i);
                    },
                    None => {
                        assert(false);
                    },
                }
            }
            return Some(i);
        }
        i += 1;
    }
    None
}

} // verus!
