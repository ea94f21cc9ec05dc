//! Values of fields, and the types that fields are parsed into.
use vstd::prelude::*;
use crate::field_key::{key_eq, parse_int_wide, FieldKey, KeyView};
use crate::num::spec_parse_int;
use crate::util::{chars_of, chars_eq, copy_string, string_of};

verus! {

/// The integer types.
#[derive(Debug, PartialEq, Eq, Clone, Copy, Structural)]
pub enum IntKind {
    U8,
    U16,
    U32,
    U64,
    U128,
    Usize,
    I8,
    I16,
    I32,
    I64,
    I128,
    Isize,
}

pub open spec fn int_min(k: IntKind) -> int {
    match k {
        IntKind::U8 | IntKind::U16 | IntKind::U32 | IntKind::U64 | IntKind::U128 | IntKind::Usize => 0,
        IntKind::I8 => i8::MIN as int,
        IntKind::I16 => i16::MIN as int,
        IntKind::I32 => i32::MIN as int,
        IntKind::I64 => i64::MIN as int,
        IntKind::I128 => i128::MIN as int,
        IntKind::Isize => isize::MIN as int,
    }
}

pub open spec fn int_max(k: IntKind) -> int {
    match k {
        IntKind::U8 => u8::MAX as int,
        IntKind::U16 => u16::MAX as int,
        IntKind::U32 => u32::MAX as int,
        IntKind::U64 => u64::MAX as int,
        IntKind::U128 => u128::MAX as int,
        IntKind::Usize => usize::MAX as int,
        IntKind::I8 => i8::MAX as int,
        IntKind::I16 => i16::MAX as int,
        IntKind::I32 => i32::MAX as int,
        IntKind::I64 => i64::MAX as int,
        IntKind::I128 => i128::MAX as int,
        IntKind::Isize => isize::MAX as int,
    }
}

pub open spec fn is_signed(k: IntKind) -> bool {
    int_min(k) < 0
}

/// The range of an integer kind: the magnitude of its least value and its
/// greatest value.
fn int_range(k: IntKind) -> (r: (u128, u128))
    ensures
        -(r.0 as int) == int_min(k),
        r.1 == int_max(k),
{
    match k {
        IntKind::U8 => (0, u8::MAX as u128),
        IntKind::U16 => (0, u16::MAX as u128),
        IntKind::U32 => (0, u32::MAX as u128),
        IntKind::U64 => (0, u64::MAX as u128),
        IntKind::U128 => (0, u128::MAX),
        IntKind::Usize => (0, usize::MAX as u128),
        IntKind::I8 => (0x80, i8::MAX as u128),
        IntKind::I16 => (0x8000, i16::MAX as u128),
        IntKind::I32 => (0x8000_0000, i32::MAX as u128),
        IntKind::I64 => (0x8000_0000_0000_0000, i64::MAX as u128),
        IntKind::I128 => (0x8000_0000_0000_0000_0000_0000_0000_0000, i128::MAX as u128),
        IntKind::Isize => ((isize::MAX as u128) + 1, isize::MAX as u128),
    }
}

/// The type of a field: a type with `FromStr`, a struct or tuple of such
/// fields (used through nested fields such as `a.b`), or a list of items of
/// a type (written and parsed through a format such as `delimiter(", ")`).
#[derive(Debug, PartialEq, Eq)]
pub enum ValueType {
    Int(IntKind),
    Bool,
    Char,
    Str,
    Record(Vec<(FieldKey, ValueType)>),
    List(Box<ValueType>),
    /// A raw pointer, such as `*const T`.
    Pointer,
}

/// The value of a field. Unsigned integers are held as `UInt`, signed ones as
/// `Int`.
#[derive(Debug, PartialEq, Eq)]
pub enum Value {
    UInt(u128),
    Int(i128),
    Bool(bool),
    Char(char),
    Str(String),
    Record(Vec<(FieldKey, Value)>),
    List(Vec<Value>),
    /// A raw pointer, by its address.
    Pointer(usize),
    /// The value of a field of `#[display(opt)]`, whose type is an `Option`
    /// of the field's type.
    Opt(Option<Box<Value>>),
}

pub enum ValueView {
    UInt(u128),
    Int(i128),
    Bool(bool),
    Char(char),
    Str(Seq<char>),
    Record(Seq<(KeyView, ValueView)>),
    List(Seq<ValueView>),
    Pointer(usize),
    Opt(Option<Box<ValueView>>),
}

pub enum TypeView {
    Int(IntKind),
    Bool,
    Char,
    Str,
    Record(Seq<(KeyView, TypeView)>),
    List(Box<TypeView>),
    Pointer,
}

pub open spec fn value_view(v: Value) -> ValueView
    decreases v,
{
    match v {
        Value::UInt(n) => ValueView::UInt(n),
        Value::Int(n) => ValueView::Int(n),
        Value::Bool(b) => ValueView::Bool(b),
        Value::Char(c) => ValueView::Char(c),
        Value::Str(s) => ValueView::Str(s@),
        Value::Record(fs) => ValueView::Record(record_view(fs@)),
        Value::List(vs) => ValueView::List(list_view(vs@)),
        Value::Pointer(a) => ValueView::Pointer(a),
        Value::Opt(None) => ValueView::Opt(None),
        Value::Opt(Some(b)) => ValueView::Opt(Some(Box::new(value_view(*b)))),
    }
}

pub open spec fn list_view(vs: Seq<Value>) -> Seq<ValueView>
    decreases vs,
{
    if vs.len() == 0 {
        seq![]
    } else {
        list_view(vs.drop_last()).push(value_view(vs.last()))
    }
}

pub open spec fn record_view(fs: Seq<(FieldKey, Value)>) -> Seq<(KeyView, ValueView)>
    decreases fs,
{
    if fs.len() == 0 {
        seq![]
    } else {
        record_view(fs.drop_last()).push((fs.last().0@, value_view(fs.last().1)))
    }
}

pub open spec fn type_view(t: ValueType) -> TypeView
    decreases t,
{
    match t {
        ValueType::Int(k) => TypeView::Int(k),
        ValueType::Bool => TypeView::Bool,
        ValueType::Char => TypeView::Char,
        ValueType::Str => TypeView::Str,
        ValueType::Record(fs) => TypeView::Record(record_type_view(fs@)),
        ValueType::List(t) => TypeView::List(Box::new(type_view(*t))),
        ValueType::Pointer => TypeView::Pointer,
    }
}

pub open spec fn record_type_view(fs: Seq<(FieldKey, ValueType)>) -> Seq<(KeyView, TypeView)>
    decreases fs,
{
    if fs.len() == 0 {
        seq![]
    } else {
        record_type_view(fs.drop_last()).push((fs.last().0@, type_view(fs.last().1)))
    }
}

impl View for Value {
    type V = ValueView;

    open spec fn view(&self) -> ValueView {
        value_view(*self)
    }
}

impl View for ValueType {
    type V = TypeView;

    open spec fn view(&self) -> TypeView {
        type_view(*self)
    }
}

pub open spec fn values_view(v: Seq<Value>) -> Seq<ValueView> {
    v.map_values(|x: Value| x@)
}

/// What `FromStr` of a field type makes of `s`; `None` where it fails. A
/// record type has no `FromStr`.
pub open spec fn spec_parse_value(t: TypeView, s: Seq<char>) -> Option<ValueView> {
    match t {
        TypeView::Int(k) => match spec_parse_int(s, int_min(k), int_max(k)) {
            Some(v) => Some(
                if is_signed(k) {
                    ValueView::Int(v as i128)
                } else {
                    ValueView::UInt(v as u128)
                },
            ),
            None => None,
        },
        TypeView::Bool => if s == "true"@ {
            Some(ValueView::Bool(true))
        } else if s == "false"@ {
            Some(ValueView::Bool(false))
        } else {
            None
        },
        TypeView::Char => if s.len() == 1 {
            Some(ValueView::Char(s[0]))
        } else {
            None
        },
        TypeView::Str => Some(ValueView::Str(s)),
        TypeView::Record(_) => None,
        TypeView::List(_) => None,
        TypeView::Pointer => None,
    }
}

pub open spec fn opt_value_view(v: Option<Value>) -> Option<ValueView> {
    match v {
        Some(x) => Some(x@),
        None => None,
    }
}

/// `r` is what `FromStr` of the type `t` makes of `s`.
pub open spec fn parsed_as(r: Option<Value>, t: TypeView, s: Seq<char>) -> bool {
    match r {
        Some(v) => spec_parse_value(t, s) == Some(v@),
        None => spec_parse_value(t, s) is None,
    }
}

fn parse_int_value(k: IntKind, c: &Vec<char>) -> (r: Option<Value>)
    ensures
        parsed_as(r, TypeView::Int(k), c@),
{
    let (min, max) = int_range(k);
    match parse_int_wide(c, min, max) {
        Some((negative, m)) => {
            if min > 0 {
                if negative {
                    if m == 0x8000_0000_0000_0000_0000_0000_0000_0000 {
                        Some(Value::Int(i128::MIN))
                    } else {
                        Some(Value::Int(-(m as i128)))
                    }
                } else {
                    Some(Value::Int(m as i128))
                }
            } else {
                Some(Value::UInt(m))
            }
        },
        None => None,
    }
}

impl ValueType {
    /// Parses `s` as `FromStr` of the type does.
    pub fn parse(&self, s: &str) -> (r: Option<Value>)
        ensures
            parsed_as(r, self@, s@),
    {
        let c = chars_of(s);
        match self {
            ValueType::Int(k) => {
                assert(self@ == TypeView::Int(*k));
                parse_int_value(*k, &c)
            },
            ValueType::Bool => {
                assert(self@ == TypeView::Bool);
                parse_bool_value(&c)
            },
            ValueType::Char => {
                assert(self@ == TypeView::Char);
                parse_char_value(&c)
            },
            ValueType::Str => {
                assert(self@ == TypeView::Str);
                parse_str_value(&c)
            },
            ValueType::Record(fs) => {
                assert(self@ == TypeView::Record(record_type_view(fs@)));
                None
            },
            ValueType::List(t) => {
                assert(self@ == TypeView::List(Box::new(type_view(**t))));
                None
            },
            ValueType::Pointer => None,
        }
    }
}

fn parse_bool_value(c: &Vec<char>) -> (r: Option<Value>)
    ensures
        parsed_as(r, TypeView::Bool, c@),
{
    let t = chars_of("true");
    let f = chars_of("false");
    if chars_eq(c, &t) {
        Some(Value::Bool(true))
    } else if chars_eq(c, &f) {
        Some(Value::Bool(false))
    } else {
        None
    }
}

pub proof fn lemma_char_value_view(ch: char)
    ensures
        value_view(Value::Char(ch)) == ValueView::Char(ch),
{
}

fn parse_char_value(c: &Vec<char>) -> (r: Option<Value>)
    ensures
        parsed_as(r, TypeView::Char, c@),
{
    if c.len() == 1 {
        let ch: char = c[0];
        proof {
            lemma_char_value_view(ch);
        }
        Some(Value::Char(ch))
    } else {
        None
    }
}

fn parse_str_value(c: &Vec<char>) -> (r: Option<Value>)
    ensures
        parsed_as(r, TypeView::Str, c@),
{
    Some(Value::Str(string_of(c)))
}

/// The default value of a type (`Default::default()`): zero, `false`, `'\0'`,
/// the empty string, or a record of the defaults of its fields; for a
/// pointer, which has no `Default`, the null pointer.
pub open spec fn spec_default_value(t: TypeView) -> ValueView
    decreases t,
{
    match t {
        TypeView::Int(k) => if is_signed(k) {
            ValueView::Int(0)
        } else {
            ValueView::UInt(0)
        },
        TypeView::Bool => ValueView::Bool(false),
        TypeView::Char => ValueView::Char('\0'),
        TypeView::Str => ValueView::Str(seq![]),
        TypeView::Record(fs) => ValueView::Record(default_record(fs)),
        TypeView::List(_) => ValueView::List(seq![]),
        TypeView::Pointer => ValueView::Pointer(0),
    }
}

pub open spec fn default_record(fs: Seq<(KeyView, TypeView)>) -> Seq<(KeyView, ValueView)>
    decreases fs,
{
    if fs.len() == 0 {
        seq![]
    } else {
        default_record(fs.drop_last()).push((fs.last().0, spec_default_value(fs.last().1)))
    }
}

pub proof fn lemma_record_type_view_len(fs: Seq<(FieldKey, ValueType)>)
    ensures
        record_type_view(fs).len() == fs.len(),
        forall|i: int| 0 <= i < fs.len() ==> #[trigger] record_type_view(fs)[i] == (fs[i].0@, type_view(fs[i].1)),
    decreases fs.len(),
{
    if fs.len() > 0 {
        lemma_record_type_view_len(fs.drop_last());
    }
}

pub proof fn lemma_record_view_len(fs: Seq<(FieldKey, Value)>)
    ensures
        record_view(fs).len() == fs.len(),
        forall|i: int| 0 <= i < fs.len() ==> #[trigger] record_view(fs)[i] == (fs[i].0@, value_view(fs[i].1)),
    decreases fs.len(),
{
    if fs.len() > 0 {
        lemma_record_view_len(fs.drop_last());
    }
}

/// `record_view` over a prefix that grew by one field.
pub proof fn lemma_record_view_push(fs: Seq<(FieldKey, Value)>, f: (FieldKey, Value))
    ensures
        record_view(fs.push(f)) == record_view(fs).push((f.0@, value_view(f.1))),
{
    assert(fs.push(f).drop_last() =~= fs);
}

impl ValueType {
    /// The default value of the type.
    #[verifier::loop_isolation(false)]
    pub fn default_value(&self) -> (r: Value)
        ensures
            r@ == spec_default_value(self@),
        decreases self,
    {
        match self {
            ValueType::Int(k) => {
                let (min, _) = int_range(*k);
                if min > 0 {
                    Value::Int(0)
                } else {
                    Value::UInt(0)
                }
            },
            ValueType::Bool => Value::Bool(false),
            ValueType::Char => Value::Char('\0'),
            ValueType::Str => {
                let s = String::new();
                Value::Str(s)
            },
            ValueType::Record(fs) => {
                let mut out: Vec<(FieldKey, Value)> = Vec::new();
                let mut i: usize = 0;
                proof {
                    lemma_record_type_view_len(fs@);
                }
                while i < fs.len()
                    invariant
                        i <= fs.len(),
                        *self == ValueType::Record(*fs),
                        record_view(out@) == default_record(record_type_view(fs@.take(i as int))),
                    decreases fs.len() - i,
                {
                    proof {
                        assert(decreases_to!(*fs => fs[i as int]));
                    }
                    let v = fs[i].1.default_value();
                    let f = (fs[i].0.copy(), v);
                    proof {
                        lemma_record_view_push(out@, f);
                        let t0 = fs@.take(i as int);
                        let t1 = fs@.take(i + 1);
                        assert(t1.drop_last() =~= t0);
                        assert(t1.last() == fs@[i as int]);
                        let r0 = record_type_view(t0);
                        let r1 = record_type_view(t1);
                        assert(r1 == r0.push((fs@[i as int].0@, type_view(fs@[i as int].1))));
                        assert(r1.drop_last() =~= r0);
                    }
                    out.push(f);
                    i += 1;
                }
                assert(fs@.take(fs.len() as int) =~= fs@);
                Value::Record(out)
            },
            ValueType::List(t) => {
                let out: Vec<Value> = Vec::new();
                assert(list_view(out@) =~= Seq::<ValueView>::empty());
                Value::List(out)
            },
            ValueType::Pointer => Value::Pointer(0),
        }
    }
}

/// A copy of a value.
#[verifier::loop_isolation(false)]
pub fn copy_value(v: &Value) -> (r: Value)
    ensures
        r@ == v@,
    decreases v,
{
    match v {
        Value::UInt(n) => Value::UInt(*n),
        Value::Int(n) => Value::Int(*n),
        Value::Bool(b) => Value::Bool(*b),
        Value::Char(c) => Value::Char(*c),
        Value::Str(s) => Value::Str(copy_string(s)),
        Value::Record(fs) => {
            let mut out: Vec<(FieldKey, Value)> = Vec::new();
            let mut i: usize = 0;
            while i < fs.len()
                invariant
                    i <= fs.len(),
                    *v == Value::Record(*fs),
                    record_view(out@) == record_view(fs@.take(i as int)),
                decreases fs.len() - i,
            {
                proof {
                    assert(decreases_to!(*fs => fs[i as int]));
                }
                let f = (fs[i].0.copy(), copy_value(&fs[i].1));
                proof {
                    lemma_record_view_push(out@, f);
                    assert(fs@.take(i + 1).drop_last() =~= fs@.take(i as int));
                }
                out.push(f);
                i += 1;
            }
            assert(fs@.take(fs.len() as int) =~= fs@);
            Value::Record(out)
        },
        Value::List(vs) => {
            let mut out: Vec<Value> = Vec::new();
            let mut i: usize = 0;
            while i < vs.len()
                invariant
                    i <= vs.len(),
                    *v == Value::List(*vs),
                    list_view(out@) == list_view(vs@.take(i as int)),
                decreases vs.len() - i,
            {
                proof {
                    assert(decreases_to!(*vs => vs[i as int]));
                }
                let x = copy_value(&vs[i]);
                proof {
                    assert(out@.push(x).drop_last() =~= out@);
                    assert(vs@.take(i + 1).drop_last() =~= vs@.take(i as int));
                }
                out.push(x);
                i += 1;
            }
            assert(vs@.take(vs.len() as int) =~= vs@);
            Value::List(out)
        },
        Value::Pointer(a) => Value::Pointer(*a),
        Value::Opt(None) => Value::Opt(None),
        Value::Opt(Some(b)) => Value::Opt(Some(Box::new(copy_value(b)))),
    }
}

pub proof fn lemma_list_view_len(vs: Seq<Value>)
    ensures
        list_view(vs).len() == vs.len(),
        forall|i: int| 0 <= i < vs.len() ==> #[trigger] list_view(vs)[i] == value_view(vs[i]),
    decreases vs.len(),
{
    if vs.len() > 0 {
        lemma_list_view_len(vs.drop_last());
    }
}

} // verus!
