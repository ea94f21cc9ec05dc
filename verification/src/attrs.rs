//! The arguments of the helper attributes `#[display(...)]` and
//! `#[from_str(...)]`, gathered into the attributes of a type, a variant or a
//! field.
use vstd::prelude::*;
use crate::def::{opt_with_view, Attrs, WithFormat, WithView};
use crate::error::DeriveError;
use crate::util::copy_string;

verus! {

/// The helper attribute that an argument stands in.
#[derive(Debug, Clone, Copy, PartialEq, Eq, Structural)]
pub enum AttrKind {
    Display,
    FromStr,
}

/// One argument of a helper attribute, as written.
#[derive(Debug)]
pub enum AttrArg {
    /// `"..."`: the format.
    Format(String),
    /// `style = "..."`
    Style(String),
    /// `regex = "..."`
    Regex(String),
    /// `with = ...`
    With(WithFormat),
    /// `default_fields(...)`, by the names of the fields.
    DefaultFields(Vec<String>),
    /// `regex_infer`
    RegexInfer,
    /// `default`
    Default,
    /// `ignore`
    Ignore,
    /// `new = ...`: the expression that makes the value from the fields.
    New,
    /// `opt`: the field is an `Option` of its type.
    Opt,
    /// `bound(...)`, which shapes the generated code only.
    Bound,
    /// `crate = ...`, which shapes the generated code only.
    Crate,
    /// `dump`, which shows the generated code only.
    Dump,
    /// Any other argument, by its name.
    Other(String),
}

/// The attributes as plain values.
pub struct AttrsView {
    pub format: Option<Seq<char>>,
    pub style: Option<Seq<char>>,
    pub regex: Option<Seq<char>>,
    pub regex_infer: bool,
    pub default: bool,
    pub default_fields: Seq<Seq<char>>,
    pub ignore: bool,
    pub with: Option<WithView>,
    pub from_str_with: Option<WithView>,
    pub new: bool,
    pub opt: bool,
}

pub open spec fn opt_text_view(o: Option<String>) -> Option<Seq<char>> {
    match o {
        Some(s) => Some(s@),
        None => None,
    }
}

pub open spec fn texts_view(v: Seq<String>) -> Seq<Seq<char>> {
    v.map_values(|s: String| s@)
}

pub open spec fn attrs_view(a: Attrs) -> AttrsView {
    AttrsView {
        format: opt_text_view(a.format),
        style: opt_text_view(a.style),
        regex: opt_text_view(a.regex),
        regex_infer: a.regex_infer,
        default: a.default,
        default_fields: texts_view(a.default_fields@),
        ignore: a.ignore,
        with: opt_with_view(a.with),
        from_str_with: opt_with_view(a.from_str_with),
        new: a.new,
        opt: a.opt,
    }
}

/// The attributes without arguments.
pub open spec fn empty_attrs() -> AttrsView {
    AttrsView {
        format: None,
        style: None,
        regex: None,
        regex_infer: false,
        default: false,
        default_fields: seq![],
        ignore: false,
        with: None,
        from_str_with: None,
        new: false,
        opt: false,
    }
}

/// The attributes `a` after one more argument in an attribute of kind `k`:
/// a later argument replaces an earlier one of its name, and the names of
/// `default_fields` add up. `with` of `#[display]` is the format of the field
/// for `Display` and, from then on, for `FromStr` too; `with` of
/// `#[from_str]` is its format for `FromStr`. An argument that the attribute
/// does not take, and any other argument, is an error.
pub open spec fn spec_apply_arg(a: AttrsView, k: AttrKind, arg: AttrArg) -> Result<AttrsView, DeriveError> {
    let display = k == AttrKind::Display;
    match arg {
        AttrArg::Format(s) => if display {
            Ok(AttrsView { format: Some(s@), ..a })
        } else {
            Err(DeriveError::InvalidAttribute)
        },
        AttrArg::Style(s) => if display {
            Ok(AttrsView { style: Some(s@), ..a })
        } else {
            Err(DeriveError::InvalidAttribute)
        },
        AttrArg::Regex(s) => if !display {
            Ok(AttrsView { regex: Some(s@), ..a })
        } else {
            Err(DeriveError::InvalidAttribute)
        },
        AttrArg::With(w) => if display {
            Ok(AttrsView { with: Some(w@), from_str_with: None, ..a })
        } else {
            Ok(AttrsView { from_str_with: Some(w@), ..a })
        },
        AttrArg::DefaultFields(v) => if !display {
            Ok(AttrsView { default_fields: a.default_fields + texts_view(v@), ..a })
        } else {
            Err(DeriveError::InvalidAttribute)
        },
        AttrArg::RegexInfer => if !display {
            Ok(AttrsView { regex_infer: true, ..a })
        } else {
            Err(DeriveError::InvalidAttribute)
        },
        AttrArg::Default => if !display {
            Ok(AttrsView { default: true, ..a })
        } else {
            Err(DeriveError::InvalidAttribute)
        },
        AttrArg::Ignore => if !display {
            Ok(AttrsView { ignore: true, ..a })
        } else {
            Err(DeriveError::InvalidAttribute)
        },
        AttrArg::New => if !display {
            Ok(AttrsView { new: true, ..a })
        } else {
            Err(DeriveError::InvalidAttribute)
        },
        AttrArg::Opt => if display {
            Ok(AttrsView { opt: true, ..a })
        } else {
            Err(DeriveError::InvalidAttribute)
        },
        AttrArg::Bound => Ok(a),
        AttrArg::Dump => Ok(a),
        AttrArg::Crate => if display {
            Ok(a)
        } else {
            Err(DeriveError::InvalidAttribute)
        },
        AttrArg::Other(_) => Err(DeriveError::InvalidAttribute),
    }
}

/// The attributes of the arguments `args[..n]`, in order; the error of the
/// first argument that is refused.
pub open spec fn spec_gather(args: Seq<(AttrKind, AttrArg)>, n: int) -> Result<AttrsView, DeriveError>
    decreases n,
{
    if n <= 0 {
        Ok(empty_attrs())
    } else {
        match spec_gather(args, n - 1) {
            Err(e) => Err(e),
            Ok(a) => spec_apply_arg(a, args[n - 1].0, args[n - 1].1),
        }
    }
}

/// Once an argument is refused, so are the arguments up to any later point,
/// with the same error.
pub proof fn lemma_gather_err(args: Seq<(AttrKind, AttrArg)>, n: int, m: int)
    requires
        n <= m,
        spec_gather(args, n) is Err,
    ensures
        spec_gather(args, m) == spec_gather(args, n),
    decreases m - n,
{
    if n < m {
        lemma_gather_err(args, n, m - 1);
    }
}

pub open spec fn gather_view(r: Result<Attrs, DeriveError>) -> Result<AttrsView, DeriveError> {
    match r {
        Ok(a) => Ok(attrs_view(a)),
        Err(e) => Err(e),
    }
}

/// The attributes that the arguments of the helper attributes of an item
/// give, in the order they are written.
#[verifier::loop_isolation(false)]
pub fn attrs_from_args(args: &Vec<(AttrKind, AttrArg)>) -> (r: Result<Attrs, DeriveError>)
    ensures
        gather_view(r) == spec_gather(args@, args@.len() as int),
{
    let mut out = Attrs {
        format: None,
        style: None,
        regex: None,
        regex_infer: false,
        default: false,
        default_fields: Vec::new(),
        ignore: false,
        with: None,
        from_str_with: None,
        new: false,
        opt: false,
    };
    assert(attrs_view(out) == empty_attrs()) by {
        assert(texts_view(out.default_fields@) =~= Seq::<Seq<char>>::empty());
    }
    let mut i: usize = 0;
    while i < args.len()
        invariant
            i <= args.len(),
            spec_gather(args@, i as int) == Ok::<AttrsView, DeriveError>(attrs_view(out)),
        decreases args.len() - i,
    {
        let display = args[i].0 == AttrKind::Display;
        let ghost before = attrs_view(out);
        let ghost k = args@[i as int].0;
        let ghost arg = args@[i as int].1;
        match &args[i].1 {
            AttrArg::Format(s) => {
                if !display {
                    proof {
                        lemma_gather_err(args@, i + 1, args@.len() as int);
                    }
                    return Err(DeriveError::InvalidAttribute);
                }
                out.format = Some(copy_string(s));
            },
            AttrArg::Style(s) => {
                if !display {
                    proof {
                        lemma_gather_err(args@, i + 1, args@.len() as int);
                    }
                    return Err(DeriveError::InvalidAttribute);
                }
                out.style = Some(copy_string(s));
            },
            AttrArg::Regex(s) => {
                if display {
                    proof {
                        lemma_gather_err(args@, i + 1, args@.len() as int);
                    }
                    return Err(DeriveError::InvalidAttribute);
                }
                out.regex = Some(copy_string(s));
            },
            AttrArg::With(w) => {
                if display {
                    out.with = Some(crate::from_str::copy_with(w));
                    out.from_str_with = None;
                } else {
                    out.from_str_with = Some(crate::from_str::copy_with(w));
                }
            },
            AttrArg::DefaultFields(v) => {
                if display {
                    proof {
                        lemma_gather_err(args@, i + 1, args@.len() as int);
                    }
                    return Err(DeriveError::InvalidAttribute);
                }
                let mut df: Vec<String> = Vec::new();
                let mut j: usize = 0;
                while j < out.default_fields.len()
                    invariant
                        j <= out.default_fields.len(),
                        texts_view(df@) == texts_view(out.default_fields@.take(j as int)),
                    decreases out.default_fields.len() - j,
                {
                    let ghost b = df@;
                    df.push(copy_string(&out.default_fields[j]));
                    assert(texts_view(df@) =~= texts_view(b).push(out.default_fields@[j as int]@));
                    assert(texts_view(out.default_fields@.take(j + 1)) =~= texts_view(out.default_fields@.take(j as int)).push(out.default_fields@[j as int]@));
                    j += 1;
                }
                assert(out.default_fields@.take(out.default_fields.len() as int) =~= out.default_fields@);
                let ghost base = texts_view(df@);
                let mut m: usize = 0;
                while m < v.len()
                    invariant
                        m <= v.len(),
                        texts_view(df@) == base + texts_view(v@.take(m as int)),
                    decreases v.len() - m,
                {
                    let ghost b = df@;
                    df.push(copy_string(&v[m]));
                    assert(texts_view(df@) =~= texts_view(b).push(v@[m as int]@));
                    assert(texts_view(v@.take(m + 1)) =~= texts_view(v@.take(m as int)).push(v@[m as int]@));
                    m += 1;
                }
                assert(v@.take(v.len() as int) =~= v@);
                out.default_fields = df;
            },
            AttrArg::RegexInfer => {
                if display {
                    proof {
                        lemma_gather_err(args@, i + 1, args@.len() as int);
                    }
                    return Err(DeriveError::InvalidAttribute);
                }
                out.regex_infer = true;
            },
            AttrArg::Default => {
                if display {
                    proof {
                        lemma_gather_err(args@, i + 1, args@.len() as int);
                    }
                    return Err(DeriveError::InvalidAttribute);
                }
                out.default = true;
            },
            AttrArg::Ignore => {
                if display {
                    proof {
                        lemma_gather_err(args@, i + 1, args@.len() as int);
                    }
                    return Err(DeriveError::InvalidAttribute);
                }
                out.ignore = true;
            },
            AttrArg::New => {
                if display {
                    proof {
                        lemma_gather_err(args@, i + 1, args@.len() as int);
                    }
                    return Err(DeriveError::InvalidAttribute);
                }
                out.new = true;
            },
            AttrArg::Opt => {
                if !display {
                    proof {
                        lemma_gather_err(args@, i + 1, args@.len() as int);
                    }
                    return Err(DeriveError::InvalidAttribute);
                }
                out.opt = true;
            },
            AttrArg::Bound => {},
            AttrArg::Dump => {},
            AttrArg::Crate => {
                if !display {
                    proof {
                        lemma_gather_err(args@, i + 1, args@.len() as int);
                    }
                    return Err(DeriveError::InvalidAttribute);
                }
            },
            AttrArg::Other(_) => {
                proof {
                        lemma_gather_err(args@, i + 1, args@.len() as int);
                    }
                    return Err(DeriveError::InvalidAttribute);
            },
        }
        assert(spec_gather(args@, i + 1) == Ok::<AttrsView, DeriveError>(attrs_view(out)));
        i += 1;
    }
    Ok(out)
}

} // verus!
