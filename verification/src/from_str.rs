//! `FromStr`: the regular expression (or the literal text) that the
//! attributes of a struct or a variant describe, and the values of the fields
//! taken from what its capture groups matched.
use vstd::prelude::*;
use crate::def::{find_field, lemma_find_field, opt_with_view, spec_display_attrs, DisplayAttrsView, spec_find_field, Attrs, EnumDef, FieldDef, FieldsKind, StructDef, WithFormat, WithView};
use crate::error::{DeriveError, ParseError};
use crate::field_key::{key_eq, keys_view, spec_capture_name, spec_key_of, spec_keys_of_path, capture_name, FieldKey, KeyView};
use crate::format::{parts_view, DisplayFormat, DisplayFormatPart, PartView};
use crate::regex_api::{escape, spec_escape_regex};
use crate::util::{chars_of, push_chars};
use crate::value::{TypeView, ValueType, type_view, record_type_view, lemma_record_type_view_len, Value, ValueView, copy_value, record_view, value_view, values_view, lemma_record_view_len, lemma_record_view_push, spec_parse_value, spec_default_value};
use crate::field_key::{spec_join_keys, spec_key_text};
use crate::formats::FromStrRegex;

verus! {

/// A capture group of a member of a field: the path below the field and the
/// index of the group.
pub struct DeepCapture {
    pub keys: Vec<FieldKey>,
    pub idx: usize,
}

pub struct DeepView {
    pub keys: Seq<KeyView>,
    pub idx: usize,
}

impl View for DeepCapture {
    type V = DeepView;

    open spec fn view(&self) -> DeepView {
        DeepView { keys: keys_view(self.keys@), idx: self.idx }
    }
}

/// What the pattern holds for one field: the group of its whole value, the
/// groups of its members, whether it takes its default value where no group
/// gives it one, and the format that parses its value (`with = ...`).
pub struct Entry {
    pub capture: Option<usize>,
    pub deep: Vec<DeepCapture>,
    pub use_default: bool,
    pub with: Option<WithFormat>,
}

pub struct EntryView {
    pub capture: Option<usize>,
    pub deep: Seq<DeepView>,
    pub use_default: bool,
    pub with: Option<WithView>,
}

pub open spec fn deeps_view(d: Seq<DeepCapture>) -> Seq<DeepView> {
    d.map_values(|x: DeepCapture| x@)
}

impl View for Entry {
    type V = EntryView;

    open spec fn view(&self) -> EntryView {
        EntryView { capture: self.capture, deep: deeps_view(self.deep@), use_default: self.use_default, with: opt_with_view(self.with) }
    }
}

/// The parser of a struct or a variant, as its attributes describe it: the
/// next free group index, the entries of the fields, whether the value starts
/// from its default, and the pattern: a literal text (`literal`, `lit`) as
/// long as no group or regular expression was added, and its regular
/// expression `pat` in any case.
pub struct Plan {
    pub next: usize,
    pub entries: Vec<Entry>,
    pub use_default: bool,
    pub literal: bool,
    pub lit: Vec<char>,
    pub pat: Vec<char>,
}

pub struct PlanView {
    pub next: usize,
    pub entries: Seq<EntryView>,
    pub use_default: bool,
    pub literal: bool,
    pub lit: Seq<char>,
    pub pat: Seq<char>,
}

pub open spec fn entries_view(e: Seq<Entry>) -> Seq<EntryView> {
    e.map_values(|x: Entry| x@)
}

impl View for Plan {
    type V = PlanView;

    open spec fn view(&self) -> PlanView {
        PlanView {
            next: self.next,
            entries: entries_view(self.entries@),
            use_default: self.use_default,
            literal: self.literal,
            lit: self.lit@,
            pat: self.pat@,
        }
    }
}

/// Where a part of a format or a regular expression stands: in the attributes
/// of a struct, of a variant (with its name in its style), or of a field.
pub enum Ctx {
    Struct,
    Variant(String),
    Field(usize),
}

pub enum CtxView {
    Struct,
    Variant(Seq<char>),
    Field(int),
}

impl View for Ctx {
    type V = CtxView;

    open spec fn view(&self) -> CtxView {
        match self {
            Ctx::Struct => CtxView::Struct,
            Ctx::Variant(n) => CtxView::Variant(n@),
            Ctx::Field(i) => CtxView::Field(*i as int),
        }
    }
}

/// Literal text appended to the pattern.
pub open spec fn push_lit(p: PlanView, s: Seq<char>) -> PlanView {
    PlanView { lit: p.lit + s, pat: p.pat + spec_escape_regex(s), ..p }
}

/// A regular expression appended to the pattern, as a group of its own.
pub open spec fn push_pat(p: PlanView, t: Seq<char>) -> PlanView {
    PlanView { literal: false, pat: p.pat + "(?:"@ + t + ")"@, ..p }
}

/// The first group of a member of a field with the path `keys`.
pub open spec fn spec_find_deep(d: Seq<DeepView>, keys: Seq<KeyView>) -> Option<int>
    decreases d.len(),
{
    if d.len() == 0 {
        None
    } else if d[0].keys == keys {
        Some(0)
    } else {
        match spec_find_deep(d.drop_first(), keys) {
            Some(j) => Some(j + 1),
            None => None,
        }
    }
}

/// The order of paths: key by key, a path before the longer paths that
/// start with it.
pub open spec fn spec_keys_lt(a: Seq<KeyView>, b: Seq<KeyView>) -> bool
    decreases a.len(),
{
    if a.len() == 0 {
        b.len() > 0
    } else if b.len() == 0 {
        false
    } else if a[0] != b[0] {
        spec_key_lt(a[0], b[0])
    } else {
        spec_keys_lt(a.drop_first(), b.drop_first())
    }
}

/// Where a group of a member with the path `keys` goes among the groups of
/// members of a field: before the first one whose path comes after it, so
/// that they stay in the order of their paths.
pub open spec fn spec_insert_pos(d: Seq<DeepView>, keys: Seq<KeyView>) -> int
    decreases d.len(),
{
    if d.len() == 0 {
        0
    } else if spec_keys_lt(keys, d[0].keys) {
        0
    } else {
        1 + spec_insert_pos(d.drop_first(), keys)
    }
}

pub proof fn lemma_insert_pos(d: Seq<DeepView>, keys: Seq<KeyView>)
    ensures
        0 <= spec_insert_pos(d, keys) <= d.len(),
    decreases d.len(),
{
    if d.len() > 0 {
        lemma_insert_pos(d.drop_first(), keys);
    }
}

/// The group of the field `fi` (for the empty path) or of its member at the
/// path `keys`: the one it has, else a new one with the next free index.
pub open spec fn spec_set_capture(p: PlanView, fi: int, keys: Seq<KeyView>) -> Result<(PlanView, usize), DeriveError> {
    let e = p.entries[fi];
    if keys.len() == 0 {
        match e.capture {
            Some(idx) => Ok((p, idx)),
            None => if p.next == usize::MAX {
                Err(DeriveError::Unsupported)
            } else {
                Ok(
                    (
                        PlanView {
                            next: (p.next + 1) as usize,
                            entries: p.entries.update(fi, EntryView { capture: Some(p.next), ..e }),
                            ..p
                        },
                        p.next,
                    ),
                )
            },
        }
    } else {
        match spec_find_deep(e.deep, keys) {
            Some(j) => Ok((p, e.deep[j].idx)),
            None => if p.next == usize::MAX {
                Err(DeriveError::Unsupported)
            } else {
                Ok(
                    (
                        PlanView {
                            next: (p.next + 1) as usize,
                            entries: p.entries.update(
                                fi,
                                EntryView { deep: e.deep.insert(spec_insert_pos(e.deep, keys), DeepView { keys, idx: p.next }), ..e },
                            ),
                            ..p
                        },
                        p.next,
                    ),
                )
            },
        }
    }
}

/// The group that a name of a format or a capture group of a regular
/// expression stands for: in a field's attributes, the field or its member;
/// elsewhere, the field named by the first key (or its member at the other
/// keys), and for the empty name, the value itself (`None`).
pub open spec fn spec_capture_of(p: PlanView, fields: Seq<FieldDef>, ctx: CtxView, keys: Seq<KeyView>) -> Result<(PlanView, Option<usize>), DeriveError> {
    match ctx {
        CtxView::Field(fi) => match spec_set_capture(p, fi, keys) {
            Err(e) => Err(e),
            Ok((q, idx)) => Ok((q, Some(idx))),
        },
        _ => if keys.len() == 0 {
            Ok((p, None))
        } else {
            match spec_find_field(fields, keys[0]) {
                None => Err(DeriveError::UnknownField),
                Some(fi) => match spec_set_capture(p, fi, keys.drop_first()) {
                    Err(e) => Err(e),
                    Ok((q, idx)) => Ok((q, Some(idx))),
                },
            }
        },
    }
}

/// The name of a group: `value_{idx}`, or `empty` for the value itself.
pub open spec fn spec_group_name(c: Option<usize>) -> Seq<char> {
    match c {
        Some(idx) => spec_capture_name(idx),
        None => "empty"@,
    }
}

/// The entries of the fields are as many as the fields.
pub open spec fn plan_wf(p: PlanView, nfields: int) -> bool {
    p.entries.len() == nfields
}

impl Plan {
    /// Appends literal text to the pattern.
    fn push_lit(&mut self, s: &str)
        ensures
            final(self)@ == push_lit(old(self)@, s@),
    {
        let c = chars_of(s);
        let e = escape(s);
        let ec = chars_of(e.as_str());
        let ghost l0 = self.lit@;
        let ghost p0 = self.pat@;
        append_chars(&mut self.lit, &c);
        append_chars(&mut self.pat, &ec);
        assert(self.lit@ == l0 + s@);
        assert(entries_view(self.entries@) == old(self)@.entries);
    }

    /// Appends a regular expression to the pattern, as a group of its own.
    fn push_pat(&mut self, t: &Vec<char>)
        ensures
            final(self)@ == push_pat(old(self)@, t@),
    {
        let open = chars_of("(?:");
        let close = chars_of(")");
        append_chars(&mut self.pat, &open);
        append_chars(&mut self.pat, t);
        append_chars(&mut self.pat, &close);
        self.literal = false;
        assert(self.pat@ =~= old(self)@.pat + "(?:"@ + t@ + ")"@);
    }
}

/// Appends the characters of `t` to `v`.
fn append_chars(v: &mut Vec<char>, t: &Vec<char>)
    ensures
        final(v)@ == old(v)@ + t@,
{
    let ghost v0 = v@;
    let mut i: usize = 0;
    while i < t.len()
        invariant
            i <= t.len(),
            v@ == v0 + t@.take(i as int),
        decreases t.len() - i,
    {
        v.push(t[i]);
        i += 1;
        assert(v@ =~= v0 + t@.take(i as int));
    }
    assert(t@.take(t.len() as int) =~= t@);
}

/// Whether `a[from..]` and `b` are the same keys.
fn keys_eq_from(a: &Vec<FieldKey>, from: usize, b: &Vec<FieldKey>) -> (r: bool)
    requires
        from <= a.len(),
    ensures
        r == (keys_view(a@).skip(from as int) == keys_view(b@)),
{
    if a.len() - from != b.len() {
        assert(keys_view(a@).skip(from as int).len() != keys_view(b@).len());
        return false;
    }
    let mut i: usize = 0;
    while i < b.len()
        invariant
            i <= b.len(),
            a.len() - from == b.len(),
            forall|j: int| 0 <= j < i ==> keys_view(a@).skip(from as int)[j] == keys_view(b@)[j],
        decreases b.len() - i,
    {
        if !key_eq(&a[from + i], &b[i]) {
            assert(keys_view(a@).skip(from as int)[i as int] != keys_view(b@)[i as int]);
            return false;
        }
        i += 1;
    }
    assert(keys_view(a@).skip(from as int) =~= keys_view(b@));
    true
}

/// A copy of `a[from..]`.
pub(crate) fn copy_keys_from(a: &Vec<FieldKey>, from: usize) -> (r: Vec<FieldKey>)
    requires
        from <= a.len(),
    ensures
        keys_view(r@) == keys_view(a@).skip(from as int),
{
    let mut out: Vec<FieldKey> = Vec::new();
    let mut i = from;
    while i < a.len()
        invariant
            from <= i <= a.len(),
            keys_view(out@) =~= keys_view(a@).subrange(from as int, i as int),
        decreases a.len() - i,
    {
        let k = a[i].copy();
        let ghost before = out@;
        out.push(k);
        assert(out@ == before.push(k));
        assert(keys_view(out@) =~= keys_view(before).push(k@));
        i += 1;
    }
    out
}

pub proof fn lemma_find_deep(d: Seq<DeepView>, keys: Seq<KeyView>)
    ensures
        match spec_find_deep(d, keys) {
            Some(j) => 0 <= j < d.len() && d[j].keys == keys && forall|m: int| 0 <= m < j ==> d[m].keys != keys,
            None => forall|m: int| 0 <= m < d.len() ==> d[m].keys != keys,
        },
    decreases d.len(),
{
    if d.len() > 0 {
        lemma_find_deep(d.drop_first(), keys);
        if d[0].keys != keys {
            assert forall|m: int| 1 <= m < d.len() implies d[m] == d.drop_first()[m - 1] by {}
            match spec_find_deep(d.drop_first(), keys) {
                Some(j) => {
                    assert forall|m: int| 0 <= m < j + 1 implies d[m].keys != keys by {
                        if m > 0 {
                            assert(d[m] == d.drop_first()[m - 1]);
                        }
                    }
                },
                None => {
                    assert forall|m: int| 0 <= m < d.len() implies d[m].keys != keys by {
                        if m > 0 {
                            assert(d[m] == d.drop_first()[m - 1]);
                        }
                    }
                },
            }
        }
    }
}

/// The first group of a member at the path `keys[from..]`.
fn find_deep(d: &Vec<DeepCapture>, keys: &Vec<FieldKey>, from: usize) -> (r: Option<usize>)
    requires
        from <= keys.len(),
    ensures
        match r {
            Some(j) => spec_find_deep(deeps_view(d@), keys_view(keys@).skip(from as int)) == Some(j as int),
            None => spec_find_deep(deeps_view(d@), keys_view(keys@).skip(from as int)) is None,
        },
{
    let ghost ks = keys_view(keys@).skip(from as int);
    proof {
        lemma_find_deep(deeps_view(d@), ks);
    }
    let mut j: usize = 0;
    while j < d.len()
        invariant
            j <= d.len(),
            from <= keys.len(),
            ks == keys_view(keys@).skip(from as int),
            forall|m: int| 0 <= m < j ==> deeps_view(d@)[m].keys != ks,
        decreases d.len() - j,
    {
        assert(deeps_view(d@)[j as int] == d@[j as int]@);
        if keys_eq_from(keys, from, &d[j].keys) {
            proof {
                lemma_find_deep(deeps_view(d@), ks);
                match spec_find_deep(deeps_view(d@), ks) {
                    Some(m) => {
                        assert(m == j);
                    },
                    None => {
                        assert(deeps_view(d@)[j as int].keys == ks);
                    },
                }
            }
            return Some(j);
        }
        j += 1;
    }
    proof {
        lemma_find_deep(deeps_view(d@), ks);
    }
    None
}

impl Plan {
    /// The group of the field `fi` or of its member at `keys[from..]`.
    fn set_capture(&mut self, fi: usize, keys: &Vec<FieldKey>, from: usize) -> (r: Result<usize, DeriveError>)
        requires
            fi < old(self).entries.len(),
            from <= keys.len(),
        ensures
            final(self).entries.len() == old(self).entries.len(),
            match r {
                Ok(idx) => spec_set_capture(old(self)@, fi as int, keys_view(keys@).skip(from as int)) == Ok::<(PlanView, usize), DeriveError>((final(self)@, idx)),
                Err(e) => spec_set_capture(old(self)@, fi as int, keys_view(keys@).skip(from as int)) == Err::<(PlanView, usize), DeriveError>(e),
            },
    {
        let ghost ks = keys_view(keys@).skip(from as int);
        assert(entries_view(self.entries@)[fi as int] == self.entries@[fi as int]@);
        let mut e = Entry { capture: None, deep: Vec::new(), use_default: false, with: None };
        self.entries.set_and_swap(fi, &mut e);
        let ghost ev = e@;
        assert(ev == old(self)@.entries[fi as int]);
        let r: Result<usize, DeriveError>;
        if from == keys.len() {
            match e.capture {
                Some(idx) => {
                    r = Ok(idx);
                },
                None => {
                    if self.next == usize::MAX {
                        r = Err(DeriveError::Unsupported);
                    } else {
                        e.capture = Some(self.next);
                        r = Ok(self.next);
                        self.next = self.next + 1;
                    }
                },
            }
        } else {
            proof {
                lemma_find_deep(deeps_view(e.deep@), ks);
            }
            match find_deep(&e.deep, keys, from) {
                Some(j) => {
                    assert(deeps_view(e.deep@)[j as int] == e.deep@[j as int]@);
                    r = Ok(e.deep[j].idx);
                },
                None => {
                    if self.next == usize::MAX {
                        r = Err(DeriveError::Unsupported);
                    } else {
                        let k = copy_keys_from(keys, from);
                        let pos = insert_pos(&e.deep, keys, from);
                        proof {
                            lemma_insert_pos(deeps_view(e.deep@), ks);
                        }
                        let dc = DeepCapture { keys: k, idx: self.next };
                        let ghost before = e.deep@;
                        e.deep.insert(pos, dc);
                        assert(e.deep@ == before.insert(pos as int, dc));
                        assert(deeps_view(e.deep@) =~= ev.deep.insert(pos as int, DeepView { keys: ks, idx: self.next }));
                        r = Ok(self.next);
                        self.next = self.next + 1;
                    }
                },
            }
        }
        self.entries.set(fi, e);
        proof {
            assert(entries_view(self.entries@) =~= entries_view(old(self).entries@).update(fi as int, e@));
            if ks.len() == 0 {
                assert(from == keys.len());
            } else {
                assert(from < keys.len());
            }
            if e@ == ev {
                assert(entries_view(self.entries@) =~= entries_view(old(self).entries@));
            }
        }
        r
    }
}


impl Plan {
    /// The group that the name `keys` of a format or a regular expression
    /// stands for in the context `ctx`.
    fn capture_of(&mut self, fields: &Vec<FieldDef>, ctx: &Ctx, keys: &Vec<FieldKey>) -> (r: Result<Option<usize>, DeriveError>)
        requires
            plan_wf(old(self)@, fields.len() as int),
            ctx matches Ctx::Field(fi) ==> fi < fields.len(),
        ensures
            plan_wf(final(self)@, fields.len() as int),
            match r {
                Ok(c) => spec_capture_of(old(self)@, fields@, ctx@, keys_view(keys@)) == Ok::<(PlanView, Option<usize>), DeriveError>((final(self)@, c)),
                Err(e) => spec_capture_of(old(self)@, fields@, ctx@, keys_view(keys@)) == Err::<(PlanView, Option<usize>), DeriveError>(e),
            },
    {
        assert(keys_view(keys@).skip(0) =~= keys_view(keys@));
        match ctx {
            Ctx::Field(fi) => match self.set_capture(*fi, keys, 0) {
                Ok(idx) => Ok(Some(idx)),
                Err(e) => Err(e),
            },
            _ => {
                if keys.len() == 0 {
                    return Ok(None);
                }
                assert(keys_view(keys@)[0] == keys@[0]@);
                assert(keys_view(keys@).skip(1) =~= keys_view(keys@).drop_first());
                proof {
                    lemma_find_field(fields@, keys@[0]@);
                }
                match find_field(fields, &keys[0]) {
                    None => Err(DeriveError::UnknownField),
                    Some(fi) => match self.set_capture(fi, keys, 1) {
                        Ok(idx) => Ok(Some(idx)),
                        Err(e) => Err(e),
                    },
                }
            },
        }
    }
}

/// The characters of the names of capture groups.
pub open spec fn is_key_char(c: char) -> bool {
    c == '_' || c == '.' || ('0' <= c && c <= '9') || ('a' <= c && c <= 'z') || ('A' <= c && c <= 'Z')
}

/// The first index at or after `i` whose character is not `\`.
pub open spec fn scan_backslashes(s: Seq<char>, i: int) -> int
    decreases s.len() - i,
{
    if i < 0 || i >= s.len() || s[i] != '\\' {
        i
    } else {
        scan_backslashes(s, i + 1)
    }
}

/// The first index at or after `i` whose character is not a key character.
pub open spec fn scan_key(s: Seq<char>, i: int) -> int
    decreases s.len() - i,
{
    if i < 0 || i >= s.len() || !is_key_char(s[i]) {
        i
    } else {
        scan_key(s, i + 1)
    }
}

pub proof fn lemma_scans(s: Seq<char>, i: int)
    requires
        0 <= i <= s.len(),
    ensures
        i <= scan_backslashes(s, i) <= s.len(),
        i <= scan_key(s, i) <= s.len(),
    decreases s.len() - i,
{
    if i < s.len() {
        lemma_scans(s, i + 1);
    }
}

/// A capture group opening `\\*(?<key>` or `\\*(?P<key>` that starts at `i`
/// (with the backslashes before it): the end of the backslashes and the
/// bounds of the key; the opening ends after the `>` at the end of the key.
pub open spec fn capture_at(s: Seq<char>, i: int) -> Option<(int, int, int)> {
    let e = scan_backslashes(s, i);
    if 0 <= i && e + 1 < s.len() && s[e] == '(' && s[e + 1] == '?' {
        let k0 = if e + 2 < s.len() && s[e + 2] == 'P' {
            e + 3
        } else {
            e + 2
        };
        if k0 < s.len() && s[k0] == '<' {
            let k1 = scan_key(s, k0 + 1);
            if k1 < s.len() && s[k1] == '>' {
                Some((e, k0 + 1, k1))
            } else {
                None
            }
        } else {
            None
        }
    } else {
        None
    }
}

/// The first index at or after `j` whose character is not `-`.
pub open spec fn skip_dashes(s: Seq<char>, j: int) -> int
    decreases s.len() - j,
{
    if 0 <= j < s.len() && s[j] == '-' {
        skip_dashes(s, j + 1)
    } else {
        j
    }
}

/// Where the items of a class `[...]` whose `[` ends before `j` start, as
/// the parser of `regex-syntax` reads them: after a `^`, and after the `-`
/// that follow it, which are literal; a `]` right there (with no `-` before
/// it) is literal too.
pub open spec fn class_start(s: Seq<char>, j: int) -> int {
    let j1 = if 0 <= j < s.len() && s[j] == '^' {
        j + 1
    } else {
        j
    };
    let j2 = skip_dashes(s, j1);
    if j2 == j1 && 0 <= j2 < s.len() && s[j2] == ']' {
        j2 + 1
    } else {
        j2
    }
}

pub proof fn lemma_skip_dashes(s: Seq<char>, j: int)
    ensures
        j <= skip_dashes(s, j),
        0 <= j <= s.len() ==> skip_dashes(s, j) <= s.len(),
    decreases s.len() - j,
{
    if 0 <= j < s.len() && s[j] == '-' {
        lemma_skip_dashes(s, j + 1);
    }
}

pub proof fn lemma_class_start(s: Seq<char>, j: int)
    ensures
        j <= class_start(s, j),
        0 <= j <= s.len() ==> class_start(s, j) <= s.len(),
{
    let j1 = if 0 <= j < s.len() && s[j] == '^' {
        j + 1
    } else {
        j
    };
    lemma_skip_dashes(s, j1);
}

/// Whether `c` names a flag of a flag group, such as the `x` of `(?x)`.
pub open spec fn is_flag_char(c: char) -> bool {
    c == 'i' || c == 'm' || c == 's' || c == 'R' || c == 'U' || c == 'u' || c == 'x'
}

/// The flags of a flag group from `j` on: where they end, and the state of
/// `x` (whitespace and `#` comments ignored) they set, if any; a flag after
/// `-` is cleared.
pub open spec fn scan_flags(s: Seq<char>, j: int, neg: bool, x: Option<bool>) -> (int, Option<bool>)
    decreases s.len() - j,
{
    if 0 <= j < s.len() && (is_flag_char(s[j]) || s[j] == '-') {
        scan_flags(s, j + 1, neg || s[j] == '-', if s[j] == 'x' { Some(!neg) } else { x })
    } else {
        (j, x)
    }
}

/// A flag group at `i`, `(?flags)` or `(?flags:...)` (the latter also with
/// no flags, `(?:...)`): the index of its `)` or `:`, and the state of `x`
/// it sets.
pub open spec fn flag_group(s: Seq<char>, i: int) -> Option<(int, Option<bool>)> {
    if 0 <= i && i + 1 < s.len() && s[i] == '(' && s[i + 1] == '?' {
        let (j, x) = scan_flags(s, i + 2, false, None);
        if j < s.len() && (s[j] == ')' || s[j] == ':') {
            Some((j, x))
        } else {
            None
        }
    } else {
        None
    }
}

/// Where a `#` comment whose text starts at `j` ends: after its newline, or
/// at the end of the text.
pub open spec fn comment_end(s: Seq<char>, j: int) -> int
    decreases s.len() - j,
{
    if 0 <= j < s.len() {
        if s[j] == '\n' {
            j + 1
        } else {
            comment_end(s, j + 1)
        }
    } else {
        j
    }
}

/// The index of the `)` that closes a group whose contents start at `i`,
/// as the parser of `regex-syntax` reads the text: escaped characters are
/// skipped, `[` opens a class (also inside a class), and the contents of
/// classes are skipped; where whitespace is ignored (flag `x`), so is a
/// comment from `#` to the end of its line. `stack` holds, for each group
/// opened since `i`, the state of `x` outside it; a flag group sets it for
/// the rest of the group it stands in, `(?x:...)` for its own contents.
/// `None` where the group is not closed.
pub open spec fn spec_group_close(s: Seq<char>, i: int, stack: Seq<bool>, classes: nat, verbose: bool) -> Option<int>
    decreases s.len() + 1 - i,
{
    if i < 0 || i >= s.len() {
        None
    } else if s[i] == '\\' {
        spec_group_close(s, i + 2, stack, classes, verbose)
    } else if verbose && s[i] == '#' {
        proof {
            lemma_comment_end(s, i + 1);
        }
        spec_group_close(s, comment_end(s, i + 1), stack, classes, verbose)
    } else if s[i] == '[' {
        proof {
            lemma_class_start(s, i + 1);
        }
        spec_group_close(s, class_start(s, i + 1), stack, classes + 1, verbose)
    } else if classes > 0 {
        if s[i] == ']' {
            spec_group_close(s, i + 1, stack, (classes - 1) as nat, verbose)
        } else {
            spec_group_close(s, i + 1, stack, classes, verbose)
        }
    } else if s[i] == '(' {
        proof {
            lemma_flag_group(s, i);
        }
        match flag_group(s, i) {
            Some((j, x)) => {
                let v = match x {
                    Some(b) => b,
                    None => verbose,
                };
                if s[j] == ')' {
                    spec_group_close(s, j + 1, stack, classes, v)
                } else {
                    spec_group_close(s, j + 1, stack.push(verbose), classes, v)
                }
            },
            None => spec_group_close(s, i + 1, stack.push(verbose), classes, verbose),
        }
    } else if s[i] == ')' {
        if stack.len() == 0 {
            Some(i)
        } else {
            spec_group_close(s, i + 1, stack.drop_last(), classes, stack.last())
        }
    } else {
        spec_group_close(s, i + 1, stack, classes, verbose)
    }
}

/// Whether whitespace and comments are ignored at `end`, reading the text
/// from `i` on as `spec_group_close` does (a `)` that closes no group read
/// since `i` leaves the state as it is).
pub open spec fn spec_verbose_at(s: Seq<char>, i: int, end: int, stack: Seq<bool>, classes: nat, verbose: bool) -> bool
    decreases s.len() + 1 - i,
{
    if i < 0 || i >= s.len() || i >= end {
        verbose
    } else if s[i] == '\\' {
        spec_verbose_at(s, i + 2, end, stack, classes, verbose)
    } else if verbose && s[i] == '#' {
        proof {
            lemma_comment_end(s, i + 1);
        }
        spec_verbose_at(s, comment_end(s, i + 1), end, stack, classes, verbose)
    } else if s[i] == '[' {
        proof {
            lemma_class_start(s, i + 1);
        }
        spec_verbose_at(s, class_start(s, i + 1), end, stack, classes + 1, verbose)
    } else if classes > 0 {
        if s[i] == ']' {
            spec_verbose_at(s, i + 1, end, stack, (classes - 1) as nat, verbose)
        } else {
            spec_verbose_at(s, i + 1, end, stack, classes, verbose)
        }
    } else if s[i] == '(' {
        proof {
            lemma_flag_group(s, i);
        }
        match flag_group(s, i) {
            Some((j, x)) => {
                let v = match x {
                    Some(b) => b,
                    None => verbose,
                };
                if s[j] == ')' {
                    spec_verbose_at(s, j + 1, end, stack, classes, v)
                } else {
                    spec_verbose_at(s, j + 1, end, stack.push(verbose), classes, v)
                }
            },
            None => spec_verbose_at(s, i + 1, end, stack.push(verbose), classes, verbose),
        }
    } else if s[i] == ')' {
        if stack.len() == 0 {
            spec_verbose_at(s, i + 1, end, stack, classes, verbose)
        } else {
            spec_verbose_at(s, i + 1, end, stack.drop_last(), classes, stack.last())
        }
    } else {
        spec_verbose_at(s, i + 1, end, stack, classes, verbose)
    }
}

/// The `)` that closes the group whose contents start at `end`, in the
/// whole expression `s` (whose flags before `end` hold inside the group).
pub open spec fn group_close(s: Seq<char>, end: int) -> Option<int> {
    spec_group_close(s, end, seq![], 0, spec_verbose_at(s, 0, end, seq![], 0, false))
}

pub proof fn lemma_comment_end(s: Seq<char>, j: int)
    ensures
        0 <= j <= s.len() ==> j <= comment_end(s, j) <= s.len(),
    decreases s.len() - j,
{
    if 0 <= j < s.len() && s[j] != '\n' {
        lemma_comment_end(s, j + 1);
    }
}

pub proof fn lemma_scan_flags(s: Seq<char>, j: int, neg: bool, x: Option<bool>)
    ensures
        0 <= j <= s.len() ==> j <= scan_flags(s, j, neg, x).0 <= s.len(),
    decreases s.len() - j,
{
    if 0 <= j < s.len() && (is_flag_char(s[j]) || s[j] == '-') {
        lemma_scan_flags(s, j + 1, neg || s[j] == '-', if s[j] == 'x' { Some(!neg) } else { x });
    }
}

pub proof fn lemma_flag_group(s: Seq<char>, i: int)
    ensures
        flag_group(s, i) matches Some((j, x)) ==> i + 2 <= j < s.len() && (s[j] == ')' || s[j] == ':'),
{
    if 0 <= i && i + 1 < s.len() && s[i] == '(' && s[i + 1] == '?' {
        lemma_scan_flags(s, i + 2, false, None);
    }
}

pub proof fn lemma_group_close(s: Seq<char>, i: int, stack: Seq<bool>, classes: nat, verbose: bool)
    ensures
        spec_group_close(s, i, stack, classes, verbose) matches Some(c) ==> i <= c < s.len() && s[c] == ')',
    decreases s.len() + 1 - i,
{
    if 0 <= i < s.len() {
        if s[i] == '\\' {
            lemma_group_close(s, i + 2, stack, classes, verbose);
        } else if verbose && s[i] == '#' {
            lemma_comment_end(s, i + 1);
            lemma_group_close(s, comment_end(s, i + 1), stack, classes, verbose);
        } else if s[i] == '[' {
            lemma_class_start(s, i + 1);
            lemma_group_close(s, class_start(s, i + 1), stack, classes + 1, verbose);
        } else if classes > 0 {
            if s[i] == ']' {
                lemma_group_close(s, i + 1, stack, (classes - 1) as nat, verbose);
            } else {
                lemma_group_close(s, i + 1, stack, classes, verbose);
            }
        } else if s[i] == '(' {
            lemma_flag_group(s, i);
            match flag_group(s, i) {
                Some((j, x)) => {
                    let v = match x {
                        Some(b) => b,
                        None => verbose,
                    };
                    if s[j] == ')' {
                        lemma_group_close(s, j + 1, stack, classes, v);
                    } else {
                        lemma_group_close(s, j + 1, stack.push(verbose), classes, v);
                    }
                },
                None => {
                    lemma_group_close(s, i + 1, stack.push(verbose), classes, verbose);
                },
            }
        } else if s[i] == ')' {
            if stack.len() != 0 {
                lemma_group_close(s, i + 1, stack.drop_last(), classes, stack.last());
            }
        } else {
            lemma_group_close(s, i + 1, stack, classes, verbose);
        }
    }
}

pub proof fn lemma_group_close_at(s: Seq<char>, end: int)
    ensures
        group_close(s, end) matches Some(c) ==> end <= c < s.len() && s[c] == ')',
{
    lemma_group_close(s, end, seq![], 0, spec_verbose_at(s, 0, end, seq![], 0, false));
}

fn scan_backslashes_exec(s: &Vec<char>, i: usize) -> (r: usize)
    requires
        i <= s.len(),
    ensures
        r == scan_backslashes(s@, i as int),
{
    let mut j = i;
    while j < s.len() && s[j] == '\\'
        invariant
            i <= j <= s.len(),
            scan_backslashes(s@, i as int) == scan_backslashes(s@, j as int),
        decreases s.len() - j,
    {
        j += 1;
    }
    j
}

fn scan_key_exec(s: &Vec<char>, i: usize) -> (r: usize)
    requires
        i <= s.len(),
    ensures
        r == scan_key(s@, i as int),
{
    let mut j = i;
    while j < s.len() && (s[j] == '_' || s[j] == '.' || ('0' <= s[j] && s[j] <= '9') || ('a' <= s[j]
        && s[j] <= 'z') || ('A' <= s[j] && s[j] <= 'Z'))
        invariant
            i <= j <= s.len(),
            scan_key(s@, i as int) == scan_key(s@, j as int),
        decreases s.len() - j,
    {
        j += 1;
    }
    j
}

fn capture_at_exec(s: &Vec<char>, i: usize) -> (r: Option<(usize, usize, usize)>)
    requires
        i <= s.len(),
    ensures
        match r {
            Some((e, k0, k1)) => capture_at(s@, i as int) == Some((e as int, k0 as int, k1 as int)),
            None => capture_at(s@, i as int) is None,
        },
{
    proof {
        lemma_scans(s@, i as int);
    }
    let e = scan_backslashes_exec(s, i);
    if e < s.len() && s.len() - e >= 2 && s[e] == '(' && s[e + 1] == '?' {
        let k0 = if e + 2 < s.len() && s[e + 2] == 'P' {
            e + 3
        } else {
            e + 2
        };
        if k0 < s.len() && s[k0] == '<' {
            proof {
                lemma_scans(s@, k0 + 1);
            }
            let k1 = scan_key_exec(s, k0 + 1);
            if k1 < s.len() && s[k1] == '>' {
                return Some((e, k0 + 1, k1));
            }
        }
    }
    None
}

/// Where the items of a class whose `[` ends before `j` start.
fn class_start_exec(s: &Vec<char>, j: usize) -> (r: usize)
    requires
        j <= s.len(),
    ensures
        r as int == class_start(s@, j as int),
{
    let mut j1 = j;
    if j < s.len() && s[j] == '^' {
        j1 = j + 1;
    }
    let mut j2 = j1;
    proof {
        lemma_skip_dashes(s@, j1 as int);
    }
    while j2 < s.len() && s[j2] == '-'
        invariant
            j1 <= j2 <= s.len(),
            skip_dashes(s@, j1 as int) == skip_dashes(s@, j2 as int),
        decreases s.len() - j2,
    {
        j2 = j2 + 1;
    }
    if j2 == j1 && j2 < s.len() && s[j2] == ']' {
        j2 + 1
    } else {
        j2
    }
}

fn comment_end_exec(s: &Vec<char>, j: usize) -> (r: usize)
    requires
        j <= s.len(),
    ensures
        r as int == comment_end(s@, j as int),
        j <= r <= s.len(),
{
    let mut k = j;
    while k < s.len() && s[k] != '\n'
        invariant
            j <= k <= s.len(),
            comment_end(s@, j as int) == comment_end(s@, k as int),
        decreases s.len() - k,
    {
        k += 1;
    }
    if k < s.len() {
        k + 1
    } else {
        k
    }
}

fn flag_group_exec(s: &Vec<char>, i: usize) -> (r: Option<(usize, Option<bool>)>)
    requires
        i <= s.len(),
    ensures
        match r {
            Some((j, x)) => flag_group(s@, i as int) == Some((j as int, x)) && i + 2 <= j < s.len(),
            None => flag_group(s@, i as int) is None,
        },
{
    if !(s.len() >= 2 && i < s.len() - 1 && s[i] == '(' && s[i + 1] == '?') {
        return None;
    }
    let mut j = i + 2;
    let mut neg = false;
    let mut x: Option<bool> = None;
    while j < s.len() && (s[j] == 'i' || s[j] == 'm' || s[j] == 's' || s[j] == 'R' || s[j] == 'U' || s[j] == 'u'
        || s[j] == 'x' || s[j] == '-')
        invariant
            i + 2 <= j <= s.len(),
            scan_flags(s@, i + 2, false, None) == scan_flags(s@, j as int, neg, x),
        decreases s.len() - j,
    {
        if s[j] == 'x' {
            x = Some(!neg);
        }
        if s[j] == '-' {
            neg = true;
        }
        j += 1;
    }
    assert(scan_flags(s@, j as int, neg, x) == (j as int, x));
    if j < s.len() && (s[j] == ')' || s[j] == ':') {
        Some((j, x))
    } else {
        None
    }
}

/// Whether whitespace and comments are ignored at `end`.
fn verbose_at_exec(s: &Vec<char>, end: usize) -> (r: bool)
    ensures
        r == spec_verbose_at(s@, 0, end as int, seq![], 0, false),
{
    let mut j: usize = 0;
    let mut stack: Vec<bool> = Vec::new();
    let mut classes: usize = 0;
    let mut verbose = false;
    assert(stack@ =~= Seq::<bool>::empty());
    while j < s.len() && j < end
        invariant
            j <= s.len(),
            classes <= j,
            spec_verbose_at(s@, 0, end as int, seq![], 0, false) == spec_verbose_at(s@, j as int, end as int, stack@, classes as nat, verbose),
        decreases s.len() - j,
    {
        let c = s[j];
        assert(c == s@[j as int]);
        if c == '\\' {
            if s.len() - j < 2 {
                assert(spec_verbose_at(s@, j as int, end as int, stack@, classes as nat, verbose) == spec_verbose_at(s@, j + 2, end as int, stack@, classes as nat, verbose));
                return verbose;
            }
            j = j + 2;
        } else if verbose && c == '#' {
            j = comment_end_exec(s, j + 1);
        } else if c == '[' {
            proof {
                lemma_class_start(s@, j + 1);
            }
            let k = class_start_exec(s, j + 1);
            classes = classes + 1;
            j = k;
        } else if classes > 0 {
            if c == ']' {
                classes = classes - 1;
            }
            j = j + 1;
        } else if c == '(' {
            match flag_group_exec(s, j) {
                Some((k, x)) => {
                    let v = match x {
                        Some(b) => b,
                        None => verbose,
                    };
                    if s[k] != ')' {
                        stack.push(verbose);
                    }
                    verbose = v;
                    j = k + 1;
                },
                None => {
                    stack.push(verbose);
                    j = j + 1;
                },
            }
        } else if c == ')' {
            if stack.len() > 0 {
                let ghost st = stack@;
                match stack.pop() {
                    Some(b) => {
                        verbose = b;
                    },
                    None => {},
                }
                assert(stack@ =~= st.drop_last());
            }
            j = j + 1;
        } else {
            j = j + 1;
        }
    }
    verbose
}

fn group_close_exec(s: &Vec<char>, i: usize) -> (r: Option<usize>)
    requires
        i <= s.len(),
    ensures
        match r {
            Some(c) => group_close(s@, i as int) == Some(c as int),
            None => group_close(s@, i as int) is None,
        },
{
    let v0 = verbose_at_exec(s, i);
    let mut j = i;
    let mut stack: Vec<bool> = Vec::new();
    let mut classes: usize = 0;
    let mut verbose = v0;
    assert(stack@ =~= Seq::<bool>::empty());
    while j < s.len()
        invariant
            i <= j <= s.len(),
            classes <= j,
            group_close(s@, i as int) == spec_group_close(s@, j as int, stack@, classes as nat, verbose),
        decreases s.len() - j,
    {
        let c = s[j];
        assert(c == s@[j as int]);
        if c == '\\' {
            if s.len() - j < 2 {
                assert(spec_group_close(s@, j as int, stack@, classes as nat, verbose) == spec_group_close(s@, j + 2, stack@, classes as nat, verbose));
                assert(spec_group_close(s@, j + 2, stack@, classes as nat, verbose) is None);
                return None;
            }
            j = j + 2;
        } else if verbose && c == '#' {
            j = comment_end_exec(s, j + 1);
        } else if c == '[' {
            proof {
                lemma_class_start(s@, j + 1);
            }
            let k = class_start_exec(s, j + 1);
            classes = classes + 1;
            j = k;
        } else if classes > 0 {
            if c == ']' {
                classes = classes - 1;
            }
            j = j + 1;
        } else if c == '(' {
            match flag_group_exec(s, j) {
                Some((k, x)) => {
                    let v = match x {
                        Some(b) => b,
                        None => verbose,
                    };
                    if s[k] != ')' {
                        stack.push(verbose);
                    }
                    verbose = v;
                    j = k + 1;
                },
                None => {
                    stack.push(verbose);
                    j = j + 1;
                },
            }
        } else if c == ')' {
            if stack.len() == 0 {
                assert(spec_group_close(s@, j as int, stack@, classes as nat, verbose) == Some(j as int));
                return Some(j);
            }
            let ghost st = stack@;
            match stack.pop() {
                Some(b) => {
                    verbose = b;
                },
                None => {},
            }
            assert(stack@ =~= st.drop_last());
            j = j + 1;
        } else {
            j = j + 1;
        }
    }
    None
}

pub proof fn lemma_capture_at(s: Seq<char>, i: int)
    requires
        0 <= i,
    ensures
        capture_at(s, i) matches Some((e, k0, k1)) ==> i <= e && e + 2 < k0 && k0 <= k1 < s.len()
            && s[k1] == '>',
{
    if i <= s.len() {
        lemma_scans(s, i);
        let e = scan_backslashes(s, i);
        if e + 1 < s.len() && s[e] == '(' && s[e + 1] == '?' {
            let k0 = if e + 2 < s.len() && s[e + 2] == 'P' {
                e + 3
            } else {
                e + 2
            };
            if k0 < s.len() {
                lemma_scans(s, k0 + 1);
            }
        }
    }
}

/// A regular expression with its capture group openings renamed: the group
/// of a field (or of its member) is named `value_{idx}`; the group with the
/// empty name stands, in a variant's expression, for the variant's name
/// (the whole group is replaced by that text), elsewhere for the value
/// itself (`empty`). An opening after an odd number of backslashes is left
/// as it is. The result holds the plan, the new expression, whether a group
/// was renamed, and whether one had the empty name.
/// The name that a capture group with the key `key` gets in the text whose
/// syntax is checked: `self` for the empty key, else the key with `_` for
/// `.`, with a `_` before it where it is all digits.
pub open spec fn spec_debug_name(key: Seq<char>) -> Seq<char> {
    if key.len() == 0 {
        "self"@
    } else {
        let k = Seq::new(key.len(), |j: int| if key[j] == '.' { '_' } else { key[j] });
        if forall|j: int| 0 <= j < k.len() ==> '0' <= #[trigger] k[j] <= '9' {
            seq!['_'] + k
        } else {
            k
        }
    }
}

/// The regular expression `s[i..]` (after `out`) with each capture group
/// that is not escaped renamed by `spec_debug_name`: the text whose syntax
/// is checked before its groups are given to the fields.
pub open spec fn spec_debug_text(s: Seq<char>, i: int, out: Seq<char>) -> Seq<char>
    decreases s.len() - i,
{
    if i < 0 || i >= s.len() {
        out
    } else {
        match capture_at(s, i) {
            None => spec_debug_text(s, i + 1, out.push(s[i])),
            Some((e, k0, k1)) => {
                proof {
                    lemma_capture_at(s, i);
                }
                let end = k1 + 1;
                if (e - i) % 2 == 1 {
                    spec_debug_text(s, end, out + s.subrange(i, end))
                } else {
                    spec_debug_text(s, end, out + s.subrange(i, e) + "(?<"@ + spec_debug_name(s.subrange(k0, k1)) + ">"@)
                }
            },
        }
    }
}

pub open spec fn spec_rewrite(
    p: PlanView,
    fields: Seq<FieldDef>,
    ctx: CtxView,
    s: Seq<char>,
    i: int,
    out: Seq<char>,
    has_cap: bool,
    has_empty: bool,
) -> Result<(PlanView, Seq<char>, bool, bool), DeriveError>
    decreases s.len() - i,
{
    if i < 0 || i >= s.len() {
        Ok((p, out, has_cap, has_empty))
    } else {
        match capture_at(s, i) {
            None => spec_rewrite(p, fields, ctx, s, i + 1, out.push(s[i]), has_cap, has_empty),
            Some((e, k0, k1)) => {
                proof {
                    lemma_capture_at(s, i);
                }
                let end = k1 + 1;
                if (e - i) % 2 == 1 {
                    spec_rewrite(p, fields, ctx, s, end, out + s.subrange(i, end), has_cap, has_empty)
                } else {
                    match spec_capture_of(p, fields, ctx, spec_keys_of_path(s.subrange(k0, k1))) {
                        Err(err) => Err(err),
                        Ok((q, c)) => match c {
                            Some(idx) => spec_rewrite(
                                q,
                                fields,
                                ctx,
                                s,
                                end,
                                out + s.subrange(i, e) + "(?<"@ + spec_capture_name(idx) + ">"@,
                                true,
                                has_empty,
                            ),
                            None => match ctx {
                                CtxView::Variant(name) => match group_close(s, end) {
                                    None => Err(DeriveError::InvalidRegex),
                                    Some(close) => {
                                        proof {
                                            lemma_group_close_at(s, end);
                                        }
                                        spec_rewrite(
                                            q,
                                            fields,
                                            ctx,
                                            s,
                                            close,
                                            out + s.subrange(i, e) + "(?:"@ + spec_escape_regex(name),
                                            true,
                                            true,
                                        )
                                    },
                                },
                                _ => spec_rewrite(
                                    q,
                                    fields,
                                    ctx,
                                    s,
                                    end,
                                    out + s.subrange(i, e) + "(?<empty>"@,
                                    true,
                                    true,
                                ),
                            },
                        },
                    }
                }
            },
        }
    }
}

/// The format of a field's attributes, parsed.
pub open spec fn spec_format_attr(a: Attrs) -> Result<Option<Seq<PartView>>, DeriveError> {
    match spec_display_attrs(a) {
        Err(e) => Err(e),
        Ok(d) => Ok(d.format),
    }
}

/// The group that matches the value of a name: `.*?` (any text, shortest
/// first), or the given regular expression.
pub open spec fn spec_group_pattern(c: Option<usize>, regex: Option<Seq<char>>) -> Seq<char> {
    "(?<"@ + spec_group_name(c) + ">"@ + (match regex {
        Some(r) => "(?s:"@ + r + ")"@,
        None => "(?s:.*?)"@,
    }) + ")"@
}

/// The regular expression of the texts that the format of `with = ...`
/// parses as values of `t`: that of the type's texts for `RegexInfer`, none
/// for the other formats (any text).
pub open spec fn spec_with_regex(w: Option<WithView>, t: TypeView) -> Option<Seq<char>> {
    match w {
        Some(WithView::RegexInfer) => crate::formats::spec_from_str_regex(t),
        _ => None,
    }
}

/// The group of `{}` in a field's attributes whose format gives the regular
/// expression `r`: `r` takes the place of the group's own expression.
pub open spec fn spec_with_group(c: Option<usize>, r: Seq<char>) -> Seq<char> {
    "(?<"@ + spec_group_name(c) + ">"@ + r + ")"@
}

/// The group of a name that is not one field alone: `{}` in a field's
/// attributes matches `regex` where the field's regular expression gives
/// one, else what the format of the field's `with = ...` parses; any other
/// name matches any text.
pub open spec fn spec_var_pattern(
    p: PlanView,
    fields: Seq<FieldDef>,
    ctx: CtxView,
    keys_empty: bool,
    c: Option<usize>,
    regex: Option<Seq<char>>,
) -> Seq<char> {
    if !keys_empty {
        spec_group_pattern(c, None)
    } else {
        match regex {
            Some(r) => spec_group_pattern(c, Some(r)),
            None => match ctx {
                CtxView::Field(fi) => match spec_with_regex(p.entries[fi].with, type_view(fields[fi].ty)) {
                    Some(r) => spec_with_group(c, r),
                    None => spec_group_pattern(c, None),
                },
                _ => spec_group_pattern(c, None),
            },
        }
    }
}

/// The parts `parts[i..]` of a format added to the pattern: texts as literal
/// text; in a variant's format, `{}` as the variant's name; a name with one
/// key as the pattern of that field (by its own attributes); any other name
/// as a group of its own, which for `{}` in a field's attributes matches
/// `regex` where it is given.
pub open spec fn spec_push_format(
    p: PlanView,
    fields: Seq<FieldDef>,
    ctx: CtxView,
    parts: Seq<PartView>,
    i: int,
    regex: Option<Seq<char>>,
    fuel: nat,
) -> Result<PlanView, DeriveError>
    decreases fuel, 1int, parts.len() - i,
{
    if i < 0 || i >= parts.len() {
        Ok(p)
    } else {
        let step: Result<PlanView, DeriveError> = match parts[i] {
            PartView::Str(t) => Ok(push_lit(p, t)),
            PartView::EscapedBeginBracket => Ok(push_lit(p, seq!['{'])),
            PartView::EscapedEndBracket => Ok(push_lit(p, seq!['}'])),
            PartView::Var { arg, format_spec } => {
                let keys = spec_keys_of_path(arg);
                if ctx is Variant && keys.len() == 0 {
                    Ok(push_lit(p, ctx->Variant_0))
                } else if keys.len() == 1 {
                    match spec_find_field(fields, keys[0]) {
                        None => Err(DeriveError::UnknownField),
                        Some(fi) => spec_push_field(p, fields, fi, fuel),
                    }
                } else {
                    match spec_capture_of(p, fields, ctx, keys) {
                        Err(e) => Err(e),
                        Ok((q, c)) => Ok(push_pat(q, spec_var_pattern(p, fields, ctx, keys.len() == 0, c, regex))),
                    }
                }
            },
        };
        match step {
            Err(e) => Err(e),
            Ok(q) => spec_push_format(q, fields, ctx, parts, i + 1, regex, fuel),
        }
    }
}

/// The pattern of the field `fi`; an error where the chain of fields that
/// name one another is longer than `fuel` (a field that names itself).
pub open spec fn spec_push_field(p: PlanView, fields: Seq<FieldDef>, fi: int, fuel: nat) -> Result<PlanView, DeriveError>
    decreases fuel, 0int, 0int,
{
    if fuel == 0 {
        Err(DeriveError::RecursiveFormat)
    } else {
        spec_push_field_attrs(p, fields, fi, (fuel - 1) as nat)
    }
}

/// Whether a field has a pattern of its own: a regular expression, a
/// format, or a `with = ...` or `regex_infer` that gives one.
pub open spec fn has_own_pattern(a: Attrs) -> bool {
    a.regex is Some || a.regex_infer || a.with is Some || a.from_str_with is Some || a.format is Some
}

/// Regular expression text appended to the pattern as it is.
pub open spec fn push_raw(p: PlanView, t: Seq<char>) -> PlanView {
    PlanView { literal: false, pat: p.pat + t, ..p }
}

/// The pattern of the field `fi` by its attributes (see
/// `spec_push_field_pattern`); that of a field of `#[display(opt)]` may
/// also match nothing at all (`(?:...)??`), which gives `None`. Such a field
/// needs a pattern of its own, which the empty text cannot match by chance.
pub open spec fn spec_push_field_attrs(p: PlanView, fields: Seq<FieldDef>, fi: int, fuel: nat) -> Result<PlanView, DeriveError>
    decreases fuel, 3int, 1int,
{
    let a = fields[fi].attrs;
    if a.opt {
        if !has_own_pattern(a) {
            Err(DeriveError::OptWithoutPattern)
        } else {
            match spec_push_field_pattern(push_raw(p, "(?:"@), fields, fi, fuel) {
                Err(e) => Err(e),
                Ok(q) => Ok(push_raw(q, ")??"@)),
            }
        }
    } else {
        spec_push_field_pattern(p, fields, fi, fuel)
    }
}

/// The pattern of the field `fi` by its attributes: its regular expression,
/// else its format, else `{}`.
pub open spec fn spec_push_field_pattern(p: PlanView, fields: Seq<FieldDef>, fi: int, fuel: nat) -> Result<PlanView, DeriveError>
    decreases fuel, 3int, 0int,
{
    let a = fields[fi].attrs;
    match spec_format_attr(a) {
        Err(e) => Err(e),
        Ok(format) => match a.regex {
            Some(r) => spec_push_regex(p, fields, CtxView::Field(fi), r@, format, fuel),
            None => match format {
                Some(f) => spec_push_format(p, fields, CtxView::Field(fi), f, 0, None, fuel),
                None => spec_push_format(p, fields, CtxView::Field(fi), crate::display::unit_format(), 0, None, fuel),
            },
        },
    }
}

/// A regular expression of the attributes added to the pattern, with its
/// groups renamed. In a field's attributes, an expression without groups is
/// the pattern of the field's value: by itself, or in place of `{}` in the
/// field's format where it has one.
pub open spec fn spec_push_regex(
    p: PlanView,
    fields: Seq<FieldDef>,
    ctx: CtxView,
    text: Seq<char>,
    format: Option<Seq<PartView>>,
    fuel: nat,
) -> Result<PlanView, DeriveError>
    decreases fuel, 2int, 0int,
{
    if !crate::regex_api::regex_syntax_accepts(spec_debug_text(text, 0, seq![])) {
        Err(DeriveError::InvalidRegex)
    } else {
    match spec_rewrite(p, fields, ctx, text, 0, seq![], false, false) {
        Err(e) => Err(e),
        Ok((q, t, has_cap, has_empty)) => if has_empty && ctx is Struct {
            Err(DeriveError::EmptyCaptureInStruct)
        } else {
            match ctx {
                CtxView::Field(fi) => if has_cap {
                    Ok(push_pat(q, t))
                } else {
                    match format {
                        Some(f) => spec_push_format(q, fields, ctx, f, 0, Some(t), fuel),
                        None => match spec_set_capture(q, fi, seq![]) {
                            Err(e) => Err(e),
                            Ok((q2, idx)) => Ok(push_pat(q2, "(?<"@ + spec_capture_name(idx) + ">"@ + t + ")"@)),
                        },
                    }
                },
                _ => Ok(push_pat(q, t)),
            }
        },
    }
    }
}


pub open spec fn opt_chars(o: Option<Vec<char>>) -> Option<Seq<char>> {
    match o {
        Some(v) => Some(v@),
        None => None,
    }
}

pub open spec fn opt_parts(o: Option<DisplayFormat>) -> Option<Seq<PartView>> {
    match o {
        Some(f) => Some(f@),
        None => None,
    }
}

/// Appends `s[from..to]` to `v`.
fn append_range(v: &mut Vec<char>, s: &Vec<char>, from: usize, to: usize)
    requires
        from <= to <= s.len(),
    ensures
        final(v)@ == old(v)@ + s@.subrange(from as int, to as int),
{
    let ghost v0 = v@;
    let mut i = from;
    while i < to
        invariant
            from <= i <= to <= s.len(),
            v@ == v0 + s@.subrange(from as int, i as int),
        decreases to - i,
    {
        v.push(s[i]);
        i += 1;
        assert(v@ =~= v0 + s@.subrange(from as int, i as int));
    }
}

/// Appends the characters of `t` to `v`.
fn append_str(v: &mut Vec<char>, t: &str)
    ensures
        final(v)@ == old(v)@ + t@,
{
    let c = chars_of(t);
    append_chars(v, &c);
}

/// The group that matches the value of a name.
/// The regular expression of the texts that a field's format parses.
fn with_regex(w: &Option<WithFormat>, t: &ValueType) -> (r: Option<Vec<char>>)
    ensures
        opt_chars(r) == spec_with_regex(opt_with_view(*w), t@),
{
    match w {
        Some(WithFormat::RegexInfer) => match t.from_str_regex() {
            Some(s) => Some(chars_of(s.as_str())),
            None => None,
        },
        _ => None,
    }
}

/// The group of `{}` whose field's format gives the regular expression `r`.
fn with_group(c: Option<usize>, r: &Vec<char>) -> (out: Vec<char>)
    ensures
        out@ == spec_with_group(c, r@),
{
    let mut out: Vec<char> = Vec::new();
    append_str(&mut out, "(?<");
    match c {
        Some(idx) => {
            let n = capture_name(idx);
            append_str(&mut out, n.as_str());
        },
        None => {
            append_str(&mut out, "empty");
        },
    }
    append_str(&mut out, ">");
    append_chars(&mut out, r);
    append_str(&mut out, ")");
    assert(out@ =~= spec_with_group(c, r@));
    out
}

fn group_pattern(c: Option<usize>, regex: &Option<Vec<char>>) -> (r: Vec<char>)
    ensures
        r@ == spec_group_pattern(c, opt_chars(*regex)),
{
    let mut out: Vec<char> = Vec::new();
    append_str(&mut out, "(?<");
    match c {
        Some(idx) => {
            let n = capture_name(idx);
            append_str(&mut out, n.as_str());
        },
        None => {
            append_str(&mut out, "empty");
        },
    }
    append_str(&mut out, ">");
    match regex {
        Some(r) => {
            append_str(&mut out, "(?s:");
            append_chars(&mut out, r);
            append_str(&mut out, ")");
        },
        None => {
            append_str(&mut out, "(?s:.*?)");
        },
    }
    append_str(&mut out, ")");
    assert(out@ =~= spec_group_pattern(c, opt_chars(*regex)));
    out
}

/// The name of a capture group in the text whose syntax is checked.
fn debug_name(key: &Vec<char>) -> (r: Vec<char>)
    ensures
        r@ == spec_debug_name(key@),
{
    let mut out: Vec<char> = Vec::new();
    if key.len() == 0 {
        append_str(&mut out, "self");
        proof {
            reveal_strlit("self");
        }
        assert(out@ =~= spec_debug_name(key@));
        return out;
    }
    let mut k: Vec<char> = Vec::new();
    let mut all_digits = true;
    let mut j: usize = 0;
    while j < key.len()
        invariant
            j <= key.len(),
            k@ =~= Seq::new(j as nat, |m: int| if key@[m] == '.' { '_' } else { key@[m] }),
            all_digits == (forall|m: int| 0 <= m < j ==> '0' <= #[trigger] k@[m] <= '9'),
        decreases key.len() - j,
    {
        let c = if key[j] == '.' { '_' } else { key[j] };
        let ghost k_old = k@;
        let ghost d_old = all_digits;
        k.push(c);
        assert(k@ == k_old.push(c));
        all_digits = all_digits && '0' <= c && c <= '9';
        proof {
            if d_old && '0' <= c && c <= '9' {
                assert forall|m: int| 0 <= m < j + 1 implies '0' <= #[trigger] k@[m] <= '9' by {
                    if m < j {
                        assert(k@[m] == k_old[m]);
                    }
                }
            } else if d_old {
                assert(!('0' <= k@[j as int] <= '9'));
            } else {
                let w = choose|m: int| 0 <= m < j && !('0' <= #[trigger] k_old[m] <= '9');
                assert(k@[w] == k_old[w]);
            }
        }
        j += 1;
    }
    let ghost kv = Seq::new(key@.len(), |m: int| if key@[m] == '.' { '_' } else { key@[m] });
    assert(k@ =~= kv);
    if all_digits {
        out.push('_');
    }
    let mut m: usize = 0;
    let ghost base = out@;
    while m < k.len()
        invariant
            m <= k.len(),
            out@ == base + k@.take(m as int),
        decreases k.len() - m,
    {
        out.push(k[m]);
        m += 1;
        assert(out@ =~= base + k@.take(m as int));
    }
    assert(k@.take(k.len() as int) =~= k@);
    assert(out@ =~= spec_debug_name(key@));
    out
}

/// The regular expression `s` with its capture groups renamed for the
/// check of its syntax.
fn debug_text(s: &Vec<char>) -> (r: Vec<char>)
    ensures
        r@ == spec_debug_text(s@, 0, seq![]),
{
    let mut out: Vec<char> = Vec::new();
    let mut i: usize = 0;
    assert(out@ =~= Seq::<char>::empty());
    while i < s.len()
        invariant
            i <= s.len(),
            spec_debug_text(s@, 0, seq![]) == spec_debug_text(s@, i as int, out@),
        decreases s.len() - i,
    {
        proof {
            lemma_capture_at(s@, i as int);
        }
        match capture_at_exec(s, i) {
            None => {
                out.push(s[i]);
                i += 1;
            },
            Some((e, k0, k1)) => {
                let end = k1 + 1;
                if (e - i) % 2 == 1 {
                    append_range(&mut out, s, i, end);
                    i = end;
                } else {
                    let mut key: Vec<char> = Vec::new();
                    append_range(&mut key, s, k0, k1);
                    assert(key@ =~= s@.subrange(k0 as int, k1 as int));
                    let n = debug_name(&key);
                    let ghost target = out@ + s@.subrange(i as int, e as int) + "(?<"@ + spec_debug_name(s@.subrange(k0 as int, k1 as int)) + ">"@;
                    append_range(&mut out, s, i, e);
                    append_str(&mut out, "(?<");
                    append_chars(&mut out, &n);
                    append_str(&mut out, ">");
                    assert(out@ =~= target);
                    i = end;
                }
            },
        }
    }
    out
}

impl Plan {
    /// A regular expression with its capture group openings renamed.
    fn rewrite(&mut self, fields: &Vec<FieldDef>, ctx: &Ctx, s: &Vec<char>) -> (r: Result<(Vec<char>, bool, bool), DeriveError>)
        requires
            plan_wf(old(self)@, fields.len() as int),
            ctx matches Ctx::Field(fi) ==> fi < fields.len(),
        ensures
            plan_wf(final(self)@, fields.len() as int),
            match r {
                Ok((t, hc, he)) => spec_rewrite(old(self)@, fields@, ctx@, s@, 0, seq![], false, false)
                    == Ok::<(PlanView, Seq<char>, bool, bool), DeriveError>((final(self)@, t@, hc, he)),
                Err(e) => spec_rewrite(old(self)@, fields@, ctx@, s@, 0, seq![], false, false) == Err::<
                    (PlanView, Seq<char>, bool, bool),
                    DeriveError,
                >(e),
            },
    {
        let mut out: Vec<char> = Vec::new();
        let mut has_cap = false;
        let mut has_empty = false;
        let mut i: usize = 0;
        let ghost start = spec_rewrite(self@, fields@, ctx@, s@, 0, seq![], false, false);
        assert(start == spec_rewrite(old(self)@, fields@, ctx@, s@, 0, seq![], false, false));
        assert(out@ =~= Seq::<char>::empty());
        while i < s.len()
            invariant
                i <= s.len(),
                plan_wf(self@, fields.len() as int),
                ctx matches Ctx::Field(fi) ==> fi < fields.len(),
                start == spec_rewrite(self@, fields@, ctx@, s@, i as int, out@, has_cap, has_empty),
                start == spec_rewrite(old(self)@, fields@, ctx@, s@, 0, seq![], false, false),
            decreases s.len() - i,
        {
            proof {
                lemma_capture_at(s@, i as int);
            }
            match capture_at_exec(s, i) {
                None => {
                    out.push(s[i]);
                    i += 1;
                },
                Some((e, k0, k1)) => {
                    let end = k1 + 1;
                    if (e - i) % 2 == 1 {
                        append_range(&mut out, s, i, end);
                        i = end;
                    } else {
                        let key = crate::util::substring(s, k0, k1);
                        let keys = FieldKey::from_str_deep(key.as_str());
                        let ghost q0 = self@;
                        match self.capture_of(fields, ctx, &keys) {
                            Err(err) => {
                                return Err(err);
                            },
                            Ok(c) => match c {
                                Some(idx) => {
                                    let ghost target = out@ + s@.subrange(i as int, e as int) + "(?<"@ + spec_capture_name(idx) + ">"@;
                                    append_range(&mut out, s, i, e);
                                    append_str(&mut out, "(?<");
                                    let n = capture_name(idx);
                                    append_str(&mut out, n.as_str());
                                    append_str(&mut out, ">");
                                    assert(out@ =~= target);
                                    has_cap = true;
                                    i = end;
                                },
                                None => match ctx {
                                    Ctx::Variant(name) => match group_close_exec(s, end) {
                                        None => {
                                            return Err(DeriveError::InvalidRegex);
                                        },
                                        Some(close) => {
                                            proof {
                                                lemma_group_close_at(s@, end as int);
                                            }
                                            let ghost target = out@ + s@.subrange(i as int, e as int) + "(?:"@ + spec_escape_regex(name@);
                                            append_range(&mut out, s, i, e);
                                            append_str(&mut out, "(?:");
                                            let en = escape(name.as_str());
                                            append_str(&mut out, en.as_str());
                                            assert(out@ =~= target);
                                            has_cap = true;
                                            has_empty = true;
                                            i = close;
                                        },
                                    },
                                    _ => {
                                        let ghost target = out@ + s@.subrange(i as int, e as int) + "(?<empty>"@;
                                        append_range(&mut out, s, i, e);
                                        append_str(&mut out, "(?<empty>");
                                        assert(out@ =~= target);
                                        has_cap = true;
                                        has_empty = true;
                                        i = end;
                                    },
                                },
                            },
                        }
                    }
                },
            }
        }
        assert(start == Ok::<(PlanView, Seq<char>, bool, bool), DeriveError>((self@, out@, has_cap, has_empty)));
        Ok((out, has_cap, has_empty))
    }
}


/// The parts of a format of `{}` alone.
fn unit_parts() -> (r: Vec<DisplayFormatPart>)
    ensures
        parts_view(r@) == crate::display::unit_format(),
{
    let mut parts: Vec<DisplayFormatPart> = Vec::new();
    parts.push(DisplayFormatPart::Var { arg: String::new(), format_spec: String::new() });
    assert(parts_view(parts@) =~= crate::display::unit_format());
    parts
}

impl Plan {
    /// Adds the parts of a format to the pattern.
    fn push_format(
        &mut self,
        fields: &Vec<FieldDef>,
        ctx: &Ctx,
        parts: &Vec<DisplayFormatPart>,
        regex: &Option<Vec<char>>,
        fuel: usize,
    ) -> (r: Result<(), DeriveError>)
        requires
            plan_wf(old(self)@, fields.len() as int),
            ctx matches Ctx::Field(fi) ==> fi < fields.len(),
        ensures
            plan_wf(final(self)@, fields.len() as int),
            match r {
                Ok(()) => spec_push_format(old(self)@, fields@, ctx@, parts_view(parts@), 0, opt_chars(*regex), fuel as nat) == Ok::<PlanView, DeriveError>(final(self)@),
                Err(e) => spec_push_format(old(self)@, fields@, ctx@, parts_view(parts@), 0, opt_chars(*regex), fuel as nat) == Err::<PlanView, DeriveError>(e),
            },
        decreases fuel, 1int,
    {
        let ghost pv = parts_view(parts@);
        let ghost start = spec_push_format(self@, fields@, ctx@, pv, 0, opt_chars(*regex), fuel as nat);
        let mut i: usize = 0;
        while i < parts.len()
            invariant
                i <= parts.len(),
                pv == parts_view(parts@),
                plan_wf(self@, fields.len() as int),
                ctx matches Ctx::Field(fi) ==> fi < fields.len(),
                start == spec_push_format(self@, fields@, ctx@, pv, i as int, opt_chars(*regex), fuel as nat),
                start == spec_push_format(old(self)@, fields@, ctx@, pv, 0, opt_chars(*regex), fuel as nat),
            decreases parts.len() - i,
        {
            assert(pv[i as int] == parts@[i as int]@);
            let ghost q0 = self@;
            let ghost rg = opt_chars(*regex);
            match &parts[i] {
                DisplayFormatPart::Str(t) => {
                    self.push_lit(t.as_str());
                    assert(spec_push_format(q0, fields@, ctx@, pv, i as int, rg, fuel as nat) == spec_push_format(self@, fields@, ctx@, pv, i + 1, rg, fuel as nat));
                },
                DisplayFormatPart::EscapedBeginBracket => {
                    proof {
                        reveal_strlit("{");
                    }
                    assert("{"@ =~= seq!['{']);
                    self.push_lit("{");
                    assert(spec_push_format(q0, fields@, ctx@, pv, i as int, rg, fuel as nat) == spec_push_format(self@, fields@, ctx@, pv, i + 1, rg, fuel as nat));
                },
                DisplayFormatPart::EscapedEndBracket => {
                    proof {
                        reveal_strlit("}");
                    }
                    assert("}"@ =~= seq!['}']);
                    self.push_lit("}");
                    assert(spec_push_format(q0, fields@, ctx@, pv, i as int, rg, fuel as nat) == spec_push_format(self@, fields@, ctx@, pv, i + 1, rg, fuel as nat));
                },
                DisplayFormatPart::Var { arg, format_spec } => {
                    let keys = FieldKey::from_str_deep(arg.as_str());
                    let variant_name = match ctx {
                        Ctx::Variant(name) => {
                            if keys.len() == 0 {
                                Some(name)
                            } else {
                                None
                            }
                        },
                        _ => None,
                    };
                    match variant_name {
                        Some(name) => {
                            self.push_lit(name.as_str());
                            assert(spec_push_format(q0, fields@, ctx@, pv, i as int, rg, fuel as nat) == spec_push_format(self@, fields@, ctx@, pv, i + 1, rg, fuel as nat));
                        },
                        None => {
                            if keys.len() == 1 {
                                assert(keys_view(keys@)[0] == keys@[0]@);
                                proof {
                                    lemma_find_field(fields@, keys@[0]@);
                                }
                                match find_field(fields, &keys[0]) {
                                    None => {
                                        return Err(DeriveError::UnknownField);
                                    },
                                    Some(fi) => match self.push_field(fields, fi, fuel) {
                                        Err(e) => {
                                            return Err(e);
                                        },
                                        Ok(()) => {
                                            assert(spec_push_format(q0, fields@, ctx@, pv, i as int, rg, fuel as nat) == spec_push_format(self@, fields@, ctx@, pv, i + 1, rg, fuel as nat));
                                        },
                                    },
                                }
                            } else {
                                let with_re: Option<Vec<char>> = if keys.len() == 0 && regex.is_none() {
                                    match ctx {
                                        Ctx::Field(fi) => {
                                            assert(self@.entries[*fi as int] == self.entries@[*fi as int]@);
                                            with_regex(&self.entries[*fi].with, &fields[*fi].ty)
                                        },
                                        _ => None,
                                    }
                                } else {
                                    None
                                };
                                match self.capture_of(fields, ctx, &keys) {
                                    Err(e) => {
                                        return Err(e);
                                    },
                                    Ok(c) => {
                                        let none: Option<Vec<char>> = None;
                                        let pat = match &with_re {
                                            Some(r) => with_group(c, r),
                                            None => if keys.len() == 0 {
                                                group_pattern(c, regex)
                                            } else {
                                                group_pattern(c, &none)
                                            },
                                        };
                                        assert(pat@ == spec_var_pattern(q0, fields@, ctx@, keys.len() == 0, c, rg));
                                        self.push_pat(&pat);
                                        assert(spec_push_format(q0, fields@, ctx@, pv, i as int, rg, fuel as nat) == spec_push_format(self@, fields@, ctx@, pv, i + 1, rg, fuel as nat));
                                    },
                                }
                            }
                        },
                    }
                },
            }
            i += 1;
        }
        Ok(())
    }

    /// The pattern of the field `fi`.
    fn push_field(&mut self, fields: &Vec<FieldDef>, fi: usize, fuel: usize) -> (r: Result<(), DeriveError>)
        requires
            plan_wf(old(self)@, fields.len() as int),
            fi < fields.len(),
        ensures
            plan_wf(final(self)@, fields.len() as int),
            match r {
                Ok(()) => spec_push_field(old(self)@, fields@, fi as int, fuel as nat) == Ok::<PlanView, DeriveError>(final(self)@),
                Err(e) => spec_push_field(old(self)@, fields@, fi as int, fuel as nat) == Err::<PlanView, DeriveError>(e),
            },
        decreases fuel, 0int,
    {
        if fuel == 0 {
            return Err(DeriveError::RecursiveFormat);
        }
        self.push_field_attrs(fields, fi, fuel - 1)
    }

    /// The pattern of the field `fi` by its attributes.
    fn push_field_attrs(&mut self, fields: &Vec<FieldDef>, fi: usize, fuel: usize) -> (r: Result<(), DeriveError>)
        requires
            plan_wf(old(self)@, fields.len() as int),
            fi < fields.len(),
        ensures
            plan_wf(final(self)@, fields.len() as int),
            match r {
                Ok(()) => spec_push_field_attrs(old(self)@, fields@, fi as int, fuel as nat) == Ok::<PlanView, DeriveError>(final(self)@),
                Err(e) => spec_push_field_attrs(old(self)@, fields@, fi as int, fuel as nat) == Err::<PlanView, DeriveError>(e),
            },
        decreases fuel, 4int,
    {
        let a = &fields[fi].attrs;
        if a.opt {
            if !(a.regex.is_some() || a.regex_infer || a.with.is_some() || a.from_str_with.is_some() || a.format.is_some()) {
                return Err(DeriveError::OptWithoutPattern);
            }
            self.push_raw("(?:");
            let r = self.push_field_pattern(fields, fi, fuel);
            if r.is_ok() {
                self.push_raw(")??");
            }
            r
        } else {
            self.push_field_pattern(fields, fi, fuel)
        }
    }

    /// Appends regular expression text to the pattern as it is.
    fn push_raw(&mut self, t: &str)
        ensures
            final(self)@ == push_raw(old(self)@, t@),
    {
        let c = chars_of(t);
        append_chars(&mut self.pat, &c);
        self.literal = false;
        assert(entries_view(self.entries@) == old(self)@.entries);
    }

    /// The pattern of the field `fi` by its attributes, but `opt`.
    fn push_field_pattern(&mut self, fields: &Vec<FieldDef>, fi: usize, fuel: usize) -> (r: Result<(), DeriveError>)
        requires
            plan_wf(old(self)@, fields.len() as int),
            fi < fields.len(),
        ensures
            plan_wf(final(self)@, fields.len() as int),
            match r {
                Ok(()) => spec_push_field_pattern(old(self)@, fields@, fi as int, fuel as nat) == Ok::<PlanView, DeriveError>(final(self)@),
                Err(e) => spec_push_field_pattern(old(self)@, fields@, fi as int, fuel as nat) == Err::<PlanView, DeriveError>(e),
            },
        decreases fuel, 3int,
    {
        let a = &fields[fi].attrs;
        let da = match a.display_attrs() {
            Err(e) => {
                return Err(e);
            },
            Ok(d) => d,
        };
        let ctx = Ctx::Field(fi);
        match &a.regex {
            Some(r) => {
                let rc = chars_of(r.as_str());
                self.push_regex(fields, &ctx, &rc, &da.format, fuel)
            },
            None => match &da.format {
                Some(f) => {
                    let none: Option<Vec<char>> = None;
                    self.push_format(fields, &ctx, &f.parts, &none, fuel)
                },
                None => {
                    let none: Option<Vec<char>> = None;
                    let parts = unit_parts();
                    self.push_format(fields, &ctx, &parts, &none, fuel)
                },
            },
        }
    }

    /// Adds a regular expression of the attributes to the pattern.
    fn push_regex(
        &mut self,
        fields: &Vec<FieldDef>,
        ctx: &Ctx,
        text: &Vec<char>,
        format: &Option<DisplayFormat>,
        fuel: usize,
    ) -> (r: Result<(), DeriveError>)
        requires
            plan_wf(old(self)@, fields.len() as int),
            ctx matches Ctx::Field(fi) ==> fi < fields.len(),
        ensures
            plan_wf(final(self)@, fields.len() as int),
            match r {
                Ok(()) => spec_push_regex(old(self)@, fields@, ctx@, text@, opt_parts(*format), fuel as nat) == Ok::<PlanView, DeriveError>(final(self)@),
                Err(e) => spec_push_regex(old(self)@, fields@, ctx@, text@, opt_parts(*format), fuel as nat) == Err::<PlanView, DeriveError>(e),
            },
        decreases fuel, 2int,
    {
        let dt = debug_text(text);
        let dts = crate::util::string_of(&dt);
        if !crate::regex_api::parses_as_regex(dts.as_str()) {
            return Err(DeriveError::InvalidRegex);
        }
        let (t, has_cap, has_empty) = match self.rewrite(fields, ctx, text) {
            Err(e) => {
                return Err(e);
            },
            Ok(x) => x,
        };
        let is_struct = match ctx {
            Ctx::Struct => true,
            _ => false,
        };
        if has_empty && is_struct {
            return Err(DeriveError::EmptyCaptureInStruct);
        }
        match ctx {
            Ctx::Field(fi) => {
                if has_cap {
                    self.push_pat(&t);
                    Ok(())
                } else {
                    match format {
                        Some(f) => {
                            let rt = Some(t);
                            self.push_format(fields, ctx, &f.parts, &rt, fuel)
                        },
                        None => {
                            let empty: Vec<FieldKey> = Vec::new();
                            assert(keys_view(empty@).skip(0) =~= Seq::<KeyView>::empty());
                            match self.set_capture(*fi, &empty, 0) {
                                Err(e) => Err(e),
                                Ok(idx) => {
                                    let mut g: Vec<char> = Vec::new();
                                    append_str(&mut g, "(?<");
                                    let n = capture_name(idx);
                                    append_str(&mut g, n.as_str());
                                    append_str(&mut g, ">");
                                    append_chars(&mut g, &t);
                                    append_str(&mut g, ")");
                                    assert(g@ =~= "(?<"@ + spec_capture_name(idx) + ">"@ + t@ + ")"@);
                                    self.push_pat(&g);
                                    Ok(())
                                },
                            }
                        },
                    }
                }
            },
            _ => {
                self.push_pat(&t);
                Ok(())
            },
        }
    }
}


/// The plan before any attribute of the struct or variant is read: no group
/// yet, each field taking its default value where its own attributes say so.
/// The format that parses a field's value: `#[from_str(with = ...)]`, else
/// `#[display(with = ...)]`, else `RegexInfer` where the field, or the struct
/// or variant (`infer`), asks for `regex_infer`.
pub open spec fn spec_entry_with(a: Attrs, infer: bool) -> Option<WithView> {
    match a.from_str_with {
        Some(w) => Some(w@),
        None => match a.with {
            Some(w) => Some(w@),
            None => if infer || a.regex_infer {
                Some(WithView::RegexInfer)
            } else {
                None
            },
        },
    }
}

pub open spec fn spec_new_plan(fields: Seq<FieldDef>, infer: bool) -> PlanView {
    PlanView {
        next: 1,
        entries: Seq::new(
            fields.len(),
            |i: int| EntryView { capture: None, deep: seq![], use_default: fields[i].attrs.default, with: spec_entry_with(fields[i].attrs, infer) },
        ),
        use_default: false,
        literal: true,
        lit: seq![],
        pat: seq![],
    }
}

/// Among the first `n` fields, the one whose attributes do not parse with
/// the least key.
pub open spec fn spec_fields_err_upto(fields: Seq<FieldDef>, n: int) -> Option<int>
    decreases n,
{
    if n <= 0 {
        None
    } else {
        let prev = spec_fields_err_upto(fields, n - 1);
        if spec_display_attrs(fields[n - 1].attrs) is Err {
            match prev {
                None => Some(n - 1),
                Some(j) => if spec_key_lt(fields[n - 1].key@, fields[j].key@) {
                    Some(n - 1)
                } else {
                    Some(j)
                },
            }
        } else {
            prev
        }
    }
}

/// The error of the attributes of the field with the least key among those
/// whose attributes do not parse (the fields are read in the order of their
/// keys).
pub open spec fn spec_fields_err(fields: Seq<FieldDef>) -> Option<DeriveError> {
    match spec_fields_err_upto(fields, fields.len() as int) {
        Some(j) => Some(spec_display_attrs(fields[j].attrs)->Err_0),
        None => None,
    }
}

/// `#[from_str(default)]` and `#[from_str(default_fields(...))]` of a struct,
/// an enum or a variant applied to the plan, from the name `names[i]` on.
pub open spec fn spec_apply_default_fields(p: PlanView, fields: Seq<FieldDef>, names: Seq<String>, i: int) -> Result<PlanView, DeriveError>
    decreases names.len() - i,
{
    if i < 0 || i >= names.len() {
        Ok(p)
    } else {
        match spec_find_field(fields, spec_key_of(names[i]@)) {
            None => Err(DeriveError::UnknownField),
            Some(fi) => spec_apply_default_fields(
                PlanView { entries: p.entries.update(fi, EntryView { use_default: true, ..p.entries[fi] }), ..p },
                fields,
                names,
                i + 1,
            ),
        }
    }
}

pub open spec fn spec_apply_attrs(p: PlanView, fields: Seq<FieldDef>, a: Attrs) -> Result<PlanView, DeriveError> {
    let q = if a.default {
        PlanView { use_default: true, ..p }
    } else {
        p
    };
    spec_apply_default_fields(q, fields, a.default_fields@, 0)
}

/// The type of the member of a value of type `t` at the path `keys`.
pub open spec fn spec_type_at(t: TypeView, keys: Seq<KeyView>) -> Option<TypeView>
    decreases keys.len(),
{
    if keys.len() == 0 {
        Some(t)
    } else {
        match t {
            TypeView::Record(fs) => match spec_lookup_type(fs, keys[0]) {
                Some(u) => spec_type_at(u, keys.drop_first()),
                None => None,
            },
            _ => None,
        }
    }
}

/// The type of the first member of a record type with key `k`.
pub open spec fn spec_lookup_type(fs: Seq<(KeyView, TypeView)>, k: KeyView) -> Option<TypeView>
    decreases fs.len(),
{
    if fs.len() == 0 {
        None
    } else if fs[0].0 == k {
        Some(fs[0].1)
    } else {
        spec_lookup_type(fs.drop_first(), k)
    }
}

/// Whether a text can be parsed into a value of the type: records have no
/// `FromStr` here.
pub open spec fn parseable(t: TypeView) -> bool {
    !(t is Record) && !(t is List)
}

/// The values of a field of type `t` can be parsed by the format of its
/// `with = ...` (`w`): a delimiter parses lists of parseable items, the other
/// formats what `FromStr` parses.
pub open spec fn parseable_with(w: Option<WithView>, t: TypeView) -> bool {
    match w {
        Some(WithView::Join(_)) => match t {
            TypeView::List(u) => parseable(*u),
            _ => false,
        },
        _ => parseable(t),
    }
}

/// What the format of a field's `with = ...` (`w`) makes of the text `s` as a
/// value of the type `t`: a delimiter splits the text at its occurrences and
/// parses each piece as an item of the list; the other formats parse by
/// `FromStr` of the type.
pub open spec fn spec_parse_with(w: Option<WithView>, t: TypeView, s: Seq<char>) -> Option<ValueView> {
    match w {
        Some(WithView::Join(d)) => match t {
            TypeView::List(u) => match crate::formats::spec_parse_items(*u, crate::formats::spec_split(s, d)) {
                Some(vs) => Some(ValueView::List(vs)),
                None => None,
            },
            _ => None,
        },
        _ => spec_parse_value(t, s),
    }
}

/// The groups of the members of a field name members that exist and can be
/// parsed.
pub open spec fn spec_deep_ok(t: TypeView, deep: Seq<DeepView>) -> Option<DeriveError>
    decreases deep.len(),
{
    if deep.len() == 0 {
        None
    } else {
        match spec_type_at(t, deep[0].keys) {
            None => Some(DeriveError::UnknownField),
            Some(u) => if parseable(u) {
                spec_deep_ok(t, deep.drop_first())
            } else {
                Some(DeriveError::Unsupported)
            },
        }
    }
}

/// What the plan must hold of each field from `i` on: its value comes from a
/// group or from its default, and its groups name parseable members.
pub open spec fn spec_check_fields(p: PlanView, fields: Seq<FieldDef>, i: int) -> Option<DeriveError>
    decreases fields.len() - i,
{
    if i < 0 || i >= fields.len() || i >= p.entries.len() {
        None
    } else {
        let e = p.entries[i];
        let t = type_view(fields[i].ty);
        if e.capture is None && !e.use_default && !p.use_default {
            Some(DeriveError::FieldNotInFormat)
        } else if e.capture is Some && !parseable_with(e.with, t) {
            Some(DeriveError::Unsupported)
        } else {
            match spec_deep_ok(t, e.deep) {
                Some(err) => Some(err),
                None => spec_check_fields(p, fields, i + 1),
            }
        }
    }
}

/// A built plan, checked.
pub open spec fn spec_checked(r: Result<PlanView, DeriveError>, fields: Seq<FieldDef>) -> Result<PlanView, DeriveError> {
    match r {
        Err(e) => Err(e),
        Ok(p) => match spec_check_fields(p, fields, 0) {
            Some(e) => Err(e),
            None => Ok(p),
        },
    }
}

/// The plan of a struct: its attributes and those of its fields must parse;
/// its pattern is its regular expression, else its format, else `{f}` for a
/// struct with one field `f`.
pub open spec fn spec_struct_plan(d: StructDef) -> Result<PlanView, DeriveError> {
    let fields = d.fields@;
    let fuel = fields.len() as nat;
    match spec_display_attrs(d.attrs) {
        Err(e) => Err(e),
        Ok(da) => match spec_fields_err(fields) {
            Some(e) => Err(e),
            None => match spec_apply_attrs(spec_new_plan(fields, d.attrs.regex_infer), fields, d.attrs) {
                Err(e) => Err(e),
                Ok(p) => spec_checked(
                    match d.attrs.regex {
                        Some(r) => spec_push_regex(p, fields, CtxView::Struct, r@, da.format, fuel),
                        None => match da.format {
                            Some(f) => spec_push_format(p, fields, CtxView::Struct, f, 0, None, fuel),
                            None => match crate::display::spec_newtype_format(fields) {
                                Some(f) => spec_push_format(p, fields, CtxView::Struct, f, 0, None, fuel),
                                None => Err(DeriveError::FormatRequired),
                            },
                        },
                    },
                    fields,
                ),
            },
        },
    }
}

#[verifier::opaque]
/// The plan of the variant `vi`: the variant's regular expression or
/// format, else the enum's, else `{}` for a unit variant. The defaults of
/// the enum apply, then those of the variant.
pub open spec fn spec_variant_plan(e: EnumDef, vi: int) -> Result<PlanView, DeriveError> {
    let v = e.variants@[vi];
    let fields = v.fields@;
    let fuel = fields.len() as nat;
    match spec_display_attrs(e.attrs) {
        Err(err) => Err(err),
        Ok(ea) => match spec_display_attrs(v.attrs) {
            Err(err) => Err(err),
            Ok(va) => match spec_fields_err(fields) {
                Some(err) => Err(err),
                None => match spec_apply_attrs(spec_new_plan(fields, e.attrs.regex_infer || v.attrs.regex_infer), fields, e.attrs) {
                    Err(err) => Err(err),
                    Ok(p0) => match spec_apply_attrs(p0, fields, v.attrs) {
                        Err(err) => Err(err),
                        Ok(p) => {
                            let style = match va.style {
                                Some(st) => st,
                                None => match ea.style {
                                    Some(st) => st,
                                    None => crate::style::DisplayStyle::NoChange,
                                },
                            };
                            let ctx = CtxView::Variant(crate::style::spec_apply_style(style, v.name@));
                            spec_checked(
                                match v.attrs.regex {
                                    Some(r) => spec_push_regex(p, fields, ctx, r@, va.format, fuel),
                                    None => match va.format {
                                        Some(f) => spec_push_format(p, fields, ctx, f, 0, None, fuel),
                                        None => match e.attrs.regex {
                                            Some(r) => spec_push_regex(p, fields, ctx, r@, ea.format, fuel),
                                            None => match ea.format {
                                                Some(f) => spec_push_format(p, fields, ctx, f, 0, None, fuel),
                                                None => if v.kind == FieldsKind::Unit {
                                                    spec_push_format(p, fields, ctx, crate::display::unit_format(), 0, None, fuel)
                                                } else {
                                                    Err(DeriveError::FormatRequired)
                                                },
                                            },
                                        },
                                    },
                                },
                                fields,
                            )
                        },
                    },
                },
            },
        },
    }
}


/// The plan before any attribute of the struct or variant is read.
/// A copy of a format of `with = ...`.
pub(crate) fn copy_with(w: &WithFormat) -> (r: WithFormat)
    ensures
        r@ == w@,
{
    match w {
        WithFormat::Fmt => WithFormat::Fmt,
        WithFormat::Join(d) => WithFormat::Join(crate::util::copy_string(d)),
        WithFormat::RegexInfer => WithFormat::RegexInfer,
    }
}

/// The format that parses a field's value.
fn entry_with(a: &Attrs, infer: bool) -> (r: Option<WithFormat>)
    ensures
        opt_with_view(r) == spec_entry_with(*a, infer),
{
    match &a.from_str_with {
        Some(w) => Some(copy_with(w)),
        None => match &a.with {
            Some(w) => Some(copy_with(w)),
            None => if infer || a.regex_infer {
                Some(WithFormat::RegexInfer)
            } else {
                None
            },
        },
    }
}

fn new_plan(fields: &Vec<FieldDef>, infer: bool) -> (r: Plan)
    ensures
        r@ == spec_new_plan(fields@, infer),
{
    let mut entries: Vec<Entry> = Vec::new();
    let mut i: usize = 0;
    while i < fields.len()
        invariant
            i <= fields.len(),
            entries_view(entries@) =~= Seq::new(
                i as nat,
                |j: int| EntryView { capture: None, deep: seq![], use_default: fields@[j].attrs.default, with: spec_entry_with(fields@[j].attrs, infer) },
            ),
        decreases fields.len() - i,
    {
        let e = Entry { capture: None, deep: Vec::new(), use_default: fields[i].attrs.default, with: entry_with(&fields[i].attrs, infer) };
        assert(e@.deep =~= Seq::<DeepView>::empty());
        let ghost before = entries@;
        entries.push(e);
        assert(entries@ == before.push(e));
        assert(entries_view(entries@) =~= entries_view(before).push(e@));
        i += 1;
    }
    let p = Plan { next: 1, entries, use_default: false, literal: true, lit: Vec::new(), pat: Vec::new() };
    assert(p@.lit =~= Seq::<char>::empty());
    assert(p@.pat =~= Seq::<char>::empty());
    p
}

/// The error of the attributes of the field with the least key among those
/// whose attributes do not parse.
fn fields_err(fields: &Vec<FieldDef>) -> (r: Option<DeriveError>)
    ensures
        r == spec_fields_err(fields@),
{
    let mut worst: Option<(usize, DeriveError)> = None;
    let mut i: usize = 0;
    while i < fields.len()
        invariant
            i <= fields.len(),
            match worst {
                None => spec_fields_err_upto(fields@, i as int) is None,
                Some((j, e)) => j < i && spec_fields_err_upto(fields@, i as int) == Some(j as int) && spec_display_attrs(
                    fields@[j as int].attrs,
                ) == Err::<DisplayAttrsView, DeriveError>(e),
            },
        decreases fields.len() - i,
    {
        match fields[i].attrs.display_attrs() {
            Err(e) => {
                let replace = match &worst {
                    None => true,
                    Some((j, _)) => key_lt(&fields[i].key, &fields[*j].key),
                };
                if replace {
                    worst = Some((i, e));
                }
            },
            Ok(_) => {},
        }
        i += 1;
    }
    match worst {
        Some((_, e)) => Some(e),
        None => None,
    }
}

impl Plan {
    /// Marks the fields named by `names` as taking their default values.
    fn apply_default_fields(&mut self, fields: &Vec<FieldDef>, names: &Vec<String>) -> (r: Result<(), DeriveError>)
        requires
            plan_wf(old(self)@, fields.len() as int),
        ensures
            plan_wf(final(self)@, fields.len() as int),
            match r {
                Ok(()) => spec_apply_default_fields(old(self)@, fields@, names@, 0) == Ok::<PlanView, DeriveError>(final(self)@),
                Err(e) => spec_apply_default_fields(old(self)@, fields@, names@, 0) == Err::<PlanView, DeriveError>(e),
            },
    {
        let ghost start = spec_apply_default_fields(self@, fields@, names@, 0);
        let mut i: usize = 0;
        while i < names.len()
            invariant
                i <= names.len(),
                plan_wf(self@, fields.len() as int),
                start == spec_apply_default_fields(self@, fields@, names@, i as int),
                start == spec_apply_default_fields(old(self)@, fields@, names@, 0),
            decreases names.len() - i,
        {
            let key = FieldKey::from_str(names[i].as_str());
            proof {
                lemma_find_field(fields@, key@);
            }
            match find_field(fields, &key) {
                None => {
                    return Err(DeriveError::UnknownField);
                },
                Some(fi) => {
                    let ghost q0 = self@;
                    assert(entries_view(self.entries@)[fi as int] == self.entries@[fi as int]@);
                    let mut e = Entry { capture: None, deep: Vec::new(), use_default: false, with: None };
                    self.entries.set_and_swap(fi, &mut e);
                    e.use_default = true;
                    self.entries.set(fi, e);
                    assert(entries_view(self.entries@) =~= q0.entries.update(fi as int, EntryView { use_default: true, ..q0.entries[fi as int] }));
                },
            }
            i += 1;
        }
        Ok(())
    }

    fn apply_attrs(&mut self, fields: &Vec<FieldDef>, a: &Attrs) -> (r: Result<(), DeriveError>)
        requires
            plan_wf(old(self)@, fields.len() as int),
        ensures
            plan_wf(final(self)@, fields.len() as int),
            match r {
                Ok(()) => spec_apply_attrs(old(self)@, fields@, *a) == Ok::<PlanView, DeriveError>(final(self)@),
                Err(e) => spec_apply_attrs(old(self)@, fields@, *a) == Err::<PlanView, DeriveError>(e),
            },
    {
        if a.default {
            self.use_default = true;
        }
        self.apply_default_fields(fields, &a.default_fields)
    }
}

/// The first member of a record type with key `k`.
fn lookup_type<'a>(fs: &'a Vec<(FieldKey, ValueType)>, k: &FieldKey) -> (r: Option<&'a ValueType>)
    ensures
        match r {
            Some(u) => spec_lookup_type(record_type_view(fs@), k@) == Some(type_view(*u)),
            None => spec_lookup_type(record_type_view(fs@), k@) is None,
        },
{
    proof {
        lemma_record_type_view_len(fs@);
    }
    let ghost rv = record_type_view(fs@);
    let mut j: usize = 0;
    assert(rv.skip(0) =~= rv);
    while j < fs.len()
        invariant
            j <= fs.len(),
            rv == record_type_view(fs@),
            rv.len() == fs.len(),
            forall|m: int| 0 <= m < fs.len() ==> #[trigger] rv[m] == (fs@[m].0@, type_view(fs@[m].1)),
            spec_lookup_type(rv, k@) == spec_lookup_type(rv.skip(j as int), k@),
        decreases fs.len() - j,
    {
        let ghost rest = rv.skip(j as int);
        assert(rest[0] == rv[j as int]);
        if key_eq(&fs[j].0, k) {
            return Some(&fs[j].1);
        }
        assert(rest.drop_first() =~= rv.skip(j + 1));
        j += 1;
    }
    None
}

/// The type of the member at the path `keys`.
pub(crate) fn type_at<'a>(t: &'a ValueType, keys: &Vec<FieldKey>) -> (r: Option<&'a ValueType>)
    ensures
        match r {
            Some(u) => spec_type_at(type_view(*t), keys_view(keys@)) == Some(type_view(*u)),
            None => spec_type_at(type_view(*t), keys_view(keys@)) is None,
        },
{
    let mut cur: &ValueType = t;
    let mut i: usize = 0;
    assert(keys_view(keys@).skip(0) =~= keys_view(keys@));
    while i < keys.len()
        invariant
            i <= keys.len(),
            spec_type_at(type_view(*t), keys_view(keys@)) == spec_type_at(type_view(*cur), keys_view(keys@).skip(i as int)),
        decreases keys.len() - i,
    {
        let ghost ks = keys_view(keys@).skip(i as int);
        assert(ks[0] == keys@[i as int]@);
        assert(ks.drop_first() =~= keys_view(keys@).skip(i + 1));
        match cur {
            ValueType::Record(fs) => match lookup_type(fs, &keys[i]) {
                Some(u) => {
                    cur = u;
                },
                None => {
                    return None;
                },
            },
            _ => {
                return None;
            },
        }
        i += 1;
    }
    assert(keys_view(keys@).skip(keys.len() as int).len() == 0);
    Some(cur)
}

fn is_parseable(t: &ValueType) -> (r: bool)
    ensures
        r == parseable(type_view(*t)),
{
    match t {
        ValueType::Record(_) => false,
        ValueType::List(_) => false,
        _ => true,
    }
}

fn is_parseable_with(w: &Option<WithFormat>, t: &ValueType) -> (r: bool)
    ensures
        r == parseable_with(opt_with_view(*w), type_view(*t)),
{
    match w {
        Some(WithFormat::Join(_)) => match t {
            ValueType::List(u) => is_parseable(u),
            _ => false,
        },
        _ => is_parseable(t),
    }
}

/// A field's value parsed from the text `s` by the format of its
/// `with = ...`.
fn parse_field_text(w: &Option<WithFormat>, t: &ValueType, s: &str) -> (r: Option<Value>)
    ensures
        match r {
            Some(v) => spec_parse_with(opt_with_view(*w), t@, s@) == Some(v@),
            None => spec_parse_with(opt_with_view(*w), t@, s@) is None,
        },
{
    match w {
        Some(WithFormat::Join(d)) => match t {
            ValueType::List(u) => {
                assert(t@ == TypeView::List(Box::new(type_view(**u))));
                match crate::formats::delimiter(d.as_str()).parse(u, s) {
                    Ok(vs) => {
                        proof {
                            crate::value::lemma_list_view_len(vs@);
                            assert(values_view(vs@) =~= crate::value::list_view(vs@));
                        }
                        Some(Value::List(vs))
                    },
                    Err(_) => None,
                }
            },
            _ => None,
        },
        _ => t.parse(s),
    }
}

/// The groups of the members of a field name members that exist and can be
/// parsed.
fn deep_ok(t: &ValueType, deep: &Vec<DeepCapture>) -> (r: Option<DeriveError>)
    ensures
        r == spec_deep_ok(type_view(*t), deeps_view(deep@)),
{
    let ghost dv = deeps_view(deep@);
    let mut i: usize = 0;
    assert(dv.skip(0) =~= dv);
    while i < deep.len()
        invariant
            i <= deep.len(),
            dv == deeps_view(deep@),
            spec_deep_ok(type_view(*t), dv) == spec_deep_ok(type_view(*t), dv.skip(i as int)),
        decreases deep.len() - i,
    {
        assert(dv.skip(i as int)[0] == deep@[i as int]@);
        assert(dv.skip(i as int).drop_first() =~= dv.skip(i + 1));
        match type_at(t, &deep[i].keys) {
            None => {
                return Some(DeriveError::UnknownField);
            },
            Some(u) => {
                if !is_parseable(u) {
                    return Some(DeriveError::Unsupported);
                }
            },
        }
        i += 1;
    }
    None
}

impl Plan {
    /// Checks what the plan must hold of each field.
    fn check_fields(&self, fields: &Vec<FieldDef>) -> (r: Option<DeriveError>)
        requires
            plan_wf(self@, fields.len() as int),
        ensures
            r == spec_check_fields(self@, fields@, 0),
    {
        let mut i: usize = 0;
        while i < fields.len()
            invariant
                i <= fields.len(),
                plan_wf(self@, fields.len() as int),
                spec_check_fields(self@, fields@, 0) == spec_check_fields(self@, fields@, i as int),
            decreases fields.len() - i,
        {
            let e = &self.entries[i];
            assert(self@.entries[i as int] == e@);
            if e.capture.is_none() && !e.use_default && !self.use_default {
                return Some(DeriveError::FieldNotInFormat);
            }
            if e.capture.is_some() && !is_parseable_with(&e.with, &fields[i].ty) {
                return Some(DeriveError::Unsupported);
            }
            match deep_ok(&fields[i].ty, &e.deep) {
                Some(err) => {
                    return Some(err);
                },
                None => {},
            }
            i += 1;
        }
        None
    }
}


impl StructDef {
    /// The parser of the struct as its attributes describe it; or why the
    /// struct has no `FromStr`.
    pub fn plan(&self) -> (r: Result<Plan, DeriveError>)
        ensures
            match r {
                Ok(p) => spec_struct_plan(*self) == Ok::<PlanView, DeriveError>(p@),
                Err(e) => spec_struct_plan(*self) == Err::<PlanView, DeriveError>(e),
            },
    {
        let da = match self.attrs.display_attrs() {
            Err(e) => {
                return Err(e);
            },
            Ok(d) => d,
        };
        match fields_err(&self.fields) {
            Some(e) => {
                return Err(e);
            },
            None => {},
        }
        let mut p = new_plan(&self.fields, self.attrs.regex_infer);
        match p.apply_attrs(&self.fields, &self.attrs) {
            Err(e) => {
                return Err(e);
            },
            Ok(()) => {},
        }
        let fuel = self.fields.len();
        let none: Option<Vec<char>> = None;
        let ctx = Ctx::Struct;
        let r = match &self.attrs.regex {
            Some(rx) => {
                let rc = chars_of(rx.as_str());
                p.push_regex(&self.fields, &ctx, &rc, &da.format, fuel)
            },
            None => match &da.format {
                Some(f) => p.push_format(&self.fields, &ctx, &f.parts, &none, fuel),
                None => {
                    if self.fields.len() == 1 {
                        let mut parts: Vec<DisplayFormatPart> = Vec::new();
                        parts.push(DisplayFormatPart::Var { arg: self.fields[0].key.to_string(), format_spec: String::new() });
                        assert(parts_view(parts@) =~= crate::display::spec_newtype_format(self.fields@).unwrap());
                        p.push_format(&self.fields, &ctx, &parts, &none, fuel)
                    } else {
                        Err(DeriveError::FormatRequired)
                    }
                },
            },
        };
        match r {
            Err(e) => {
                return Err(e);
            },
            Ok(()) => {},
        }
        match p.check_fields(&self.fields) {
            Some(e) => Err(e),
            None => Ok(p),
        }
    }
}

impl EnumDef {
    /// The parser of the variant `vi` as the attributes of the enum and of
    /// the variant describe it; or why it has no `FromStr`.
    pub fn variant_plan(&self, vi: usize) -> (r: Result<Plan, DeriveError>)
        requires
            vi < self.variants.len(),
        ensures
            match r {
                Ok(p) => spec_variant_plan(*self, vi as int) == Ok::<PlanView, DeriveError>(p@),
                Err(e) => spec_variant_plan(*self, vi as int) == Err::<PlanView, DeriveError>(e),
            },
    {
        reveal(spec_variant_plan);
        let v = &self.variants[vi];
        let fields = &v.fields;
        let ea = match self.attrs.display_attrs() {
            Err(e) => {
                return Err(e);
            },
            Ok(d) => d,
        };
        let va = match v.attrs.display_attrs() {
            Err(e) => {
                return Err(e);
            },
            Ok(d) => d,
        };
        match fields_err(fields) {
            Some(e) => {
                return Err(e);
            },
            None => {},
        }
        let mut p = new_plan(fields, self.attrs.regex_infer || v.attrs.regex_infer);
        match p.apply_attrs(fields, &self.attrs) {
            Err(e) => {
                return Err(e);
            },
            Ok(()) => {},
        }
        match p.apply_attrs(fields, &v.attrs) {
            Err(e) => {
                return Err(e);
            },
            Ok(()) => {},
        }
        let style = match va.style {
            Some(st) => st,
            None => match ea.style {
                Some(st) => st,
                None => crate::style::DisplayStyle::NoChange,
            },
        };
        let ctx = Ctx::Variant(style.apply(v.name.as_str()));
        let fuel = fields.len();
        let none: Option<Vec<char>> = None;
        let r = match &v.attrs.regex {
            Some(rx) => {
                let rc = chars_of(rx.as_str());
                p.push_regex(fields, &ctx, &rc, &va.format, fuel)
            },
            None => match &va.format {
                Some(f) => p.push_format(fields, &ctx, &f.parts, &none, fuel),
                None => match &self.attrs.regex {
                    Some(rx) => {
                        let rc = chars_of(rx.as_str());
                        p.push_regex(fields, &ctx, &rc, &ea.format, fuel)
                    },
                    None => match &ea.format {
                        Some(f) => p.push_format(fields, &ctx, &f.parts, &none, fuel),
                        None => {
                            if v.kind == FieldsKind::Unit {
                                let parts = unit_parts();
                                p.push_format(fields, &ctx, &parts, &none, fuel)
                            } else {
                                Err(DeriveError::FormatRequired)
                            }
                        },
                    },
                },
            },
        };
        match r {
            Err(e) => {
                return Err(e);
            },
            Ok(()) => {},
        }
        match p.check_fields(fields) {
            Some(e) => Err(e),
            None => Ok(p),
        }
    }
}


/// The text that the group `idx` matched: groups are numbered from 1, and a
/// group that took no part in the match (or is not there) matched nothing.
/// Whether the group `idx` took part in the match.
pub open spec fn cap_present(caps: Seq<Option<Seq<char>>>, idx: usize) -> bool {
    1 <= idx && idx <= caps.len() && caps[idx - 1] is Some
}

pub open spec fn cap_text(caps: Seq<Option<Seq<char>>>, idx: usize) -> Seq<char> {
    if 1 <= idx && idx <= caps.len() {
        match caps[idx - 1] {
            Some(t) => t,
            None => seq![],
        }
    } else {
        seq![]
    }
}

/// The message of a field whose text does not parse.
pub open spec fn parse_failed_msg(name: Seq<char>) -> Seq<char> {
    "field `"@ + name + "` parse failed."@
}

/// The index of the first entry of a record with key `k`.
pub open spec fn spec_lookup_index(fs: Seq<(KeyView, ValueView)>, k: KeyView) -> Option<int>
    decreases fs.len(),
{
    if fs.len() == 0 {
        None
    } else if fs[0].0 == k {
        Some(0)
    } else {
        match spec_lookup_index(fs.drop_first(), k) {
            Some(j) => Some(j + 1),
            None => None,
        }
    }
}

pub proof fn lemma_lookup_index(fs: Seq<(KeyView, ValueView)>, k: KeyView)
    ensures
        match spec_lookup_index(fs, k) {
            Some(j) => 0 <= j < fs.len() && fs[j].0 == k && forall|m: int| 0 <= m < j ==> fs[m].0 != k,
            None => forall|m: int| 0 <= m < fs.len() ==> fs[m].0 != k,
        },
    decreases fs.len(),
{
    if fs.len() > 0 {
        lemma_lookup_index(fs.drop_first(), k);
        if fs[0].0 != k {
            assert forall|m: int| 1 <= m < fs.len() implies fs[m] == fs.drop_first()[m - 1] by {}
        }
    }
}

/// `v` with its member at the path `keys` replaced by `leaf` (unchanged
/// where there is no such member).
pub open spec fn spec_set_path(v: ValueView, keys: Seq<KeyView>, leaf: ValueView) -> ValueView
    decreases keys.len(),
{
    if keys.len() == 0 {
        leaf
    } else {
        match v {
            ValueView::Record(fs) => match spec_lookup_index(fs, keys[0]) {
                Some(j) => if 0 <= j < fs.len() {
                    ValueView::Record(fs.update(j, (fs[j].0, spec_set_path(fs[j].1, keys.drop_first(), leaf))))
                } else {
                    v
                },
                None => v,
            },
            _ => v,
        }
    }
}

/// The groups of the members of a field applied to its value `v`, in the
/// order in which they were made; or the message of the first whose text
/// does not parse.
pub open spec fn spec_apply_deep(
    v: ValueView,
    t: TypeView,
    name: Seq<char>,
    deep: Seq<DeepView>,
    caps: Seq<Option<Seq<char>>>,
) -> Result<ValueView, Seq<char>>
    decreases deep.len(),
{
    if deep.len() == 0 {
        Ok(v)
    } else {
        let d = deep[0];
        let r = match spec_type_at(t, d.keys) {
            Some(u) => spec_parse_value(u, cap_text(caps, d.idx)),
            None => None,
        };
        match r {
            None => Err(parse_failed_msg(name + spec_join_keys(d.keys, "."@))),
            Some(leaf) => spec_apply_deep(spec_set_path(v, d.keys, leaf), t, name, deep.drop_first(), caps),
        }
    }
}

/// The value of a field: parsed from its group, else its default; then its
/// members from their groups.
pub open spec fn spec_field_value(f: FieldDef, e: EntryView, caps: Seq<Option<Seq<char>>>) -> Result<ValueView, Seq<char>> {
    let t = type_view(f.ty);
    let name = spec_key_text(f.key@);
    if f.attrs.opt {
        match e.capture {
            Some(idx) => if cap_present(caps, idx) {
                match spec_parse_with(e.with, t, cap_text(caps, idx)) {
                    Some(v) => Ok(ValueView::Opt(Some(Box::new(v)))),
                    None => Err(parse_failed_msg(name)),
                }
            } else {
                Ok(ValueView::Opt(None))
            },
            None => Ok(ValueView::Opt(None)),
        }
    } else {
        spec_field_value_plain(f, e, caps)
    }
}

/// The value of a field that is no `Option` (see `spec_field_value`).
pub open spec fn spec_field_value_plain(f: FieldDef, e: EntryView, caps: Seq<Option<Seq<char>>>) -> Result<ValueView, Seq<char>> {
    let t = type_view(f.ty);
    let name = spec_key_text(f.key@);
    let base = match e.capture {
        Some(idx) => match spec_parse_with(e.with, t, cap_text(caps, idx)) {
            Some(v) => Ok(v),
            None => Err(parse_failed_msg(name)),
        },
        None => Ok(spec_default_value(t)),
    };
    match base {
        Err(m) => Err(m),
        Ok(v) => spec_apply_deep(v, t, name, e.deep, caps),
    }
}

/// Whether `x` comes before `y` in the order of their characters.
pub open spec fn spec_text_lt(x: Seq<char>, y: Seq<char>) -> bool
    decreases x.len(),
{
    if x.len() == 0 {
        y.len() > 0
    } else if y.len() == 0 {
        false
    } else if x[0] != y[0] {
        x[0] < y[0]
    } else {
        spec_text_lt(x.drop_first(), y.drop_first())
    }
}

/// The order of the keys of fields: names before indices, names by their
/// characters, indices by their values.
pub open spec fn spec_key_lt(a: KeyView, b: KeyView) -> bool {
    match (a, b) {
        (KeyView::Named(x), KeyView::Named(y)) => spec_text_lt(x, y),
        (KeyView::Named(_), KeyView::Unnamed(_)) => true,
        (KeyView::Unnamed(_), KeyView::Named(_)) => false,
        (KeyView::Unnamed(i), KeyView::Unnamed(j)) => i < j,
    }
}

/// The number of fields that have an entry in the plan.
pub open spec fn nfields(p: PlanView, fields: Seq<FieldDef>) -> nat {
    if fields.len() < p.entries.len() {
        fields.len()
    } else {
        p.entries.len()
    }
}

/// The value of each field, or the message of its error.
pub open spec fn spec_field_results(p: PlanView, fields: Seq<FieldDef>, caps: Seq<Option<Seq<char>>>) -> Seq<Result<ValueView, Seq<char>>> {
    Seq::new(nfields(p, fields), |i: int| spec_field_value(fields[i], p.entries[i], caps))
}

/// Among the first `n` fields, the one that fails with the least key.
pub open spec fn spec_least_failure(fields: Seq<FieldDef>, rs: Seq<Result<ValueView, Seq<char>>>, n: int) -> Option<int>
    decreases n,
{
    if n <= 0 {
        None
    } else {
        let prev = spec_least_failure(fields, rs, n - 1);
        if rs[n - 1] is Err {
            match prev {
                None => Some(n - 1),
                Some(j) => if spec_key_lt(fields[n - 1].key@, fields[j].key@) {
                    Some(n - 1)
                } else {
                    Some(j)
                },
            }
        } else {
            prev
        }
    }
}

/// The values of the fields; or, where some fail, the message of the one
/// with the least key (the fields are read in the order of their keys).
pub open spec fn spec_construct(p: PlanView, fields: Seq<FieldDef>, caps: Seq<Option<Seq<char>>>) -> Result<Seq<ValueView>, Seq<char>> {
    let rs = spec_field_results(p, fields, caps);
    match spec_least_failure(fields, rs, rs.len() as int) {
        Some(j) => Err(rs[j]->Err_0),
        None => Ok(rs.map_values(|r: Result<ValueView, Seq<char>>| r->Ok_0)),
    }
}

pub open spec fn value_result_view(r: Result<Value, ParseError>) -> Result<ValueView, Seq<char>> {
    match r {
        Ok(v) => Ok(v@),
        Err(e) => Err(e.message()@),
    }
}

pub open spec fn values_result_view(r: Result<Vec<Value>, ParseError>) -> Result<Seq<ValueView>, Seq<char>> {
    match r {
        Ok(v) => Ok(values_view(v@)),
        Err(e) => Err(e.message()@),
    }
}

/// The text that the group `idx` matched.
fn cap_present_exec(caps: &Vec<Option<String>>, idx: usize) -> (r: bool)
    ensures
        r == cap_present(crate::regex_api::opt_strings_view(caps@), idx),
{
    1 <= idx && idx <= caps.len() && caps[idx - 1].is_some()
}

fn cap_text_exec(caps: &Vec<Option<String>>, idx: usize) -> (r: String)
    ensures
        r@ == cap_text(crate::regex_api::opt_strings_view(caps@), idx),
{
    if 1 <= idx && idx <= caps.len() {
        match &caps[idx - 1] {
            Some(t) => t.clone(),
            None => String::new(),
        }
    } else {
        String::new()
    }
}

/// The message of a field whose text does not parse.
fn parse_failed(name: &str) -> (r: ParseError)
    ensures
        r.message()@ == parse_failed_msg(name@),
{
    let mut m = String::new();
    crate::util::push_str(&mut m, "field `");
    crate::util::push_str(&mut m, name);
    crate::util::push_str(&mut m, "` parse failed.");
    ParseError::with_message(m.as_str())
}

/// The index of the first entry of a record with key `k`.
fn lookup_index(fs: &Vec<(FieldKey, Value)>, k: &FieldKey) -> (r: Option<usize>)
    ensures
        match r {
            Some(j) => spec_lookup_index(record_view(fs@), k@) == Some(j as int),
            None => spec_lookup_index(record_view(fs@), k@) is None,
        },
{
    proof {
        lemma_record_view_len(fs@);
        lemma_lookup_index(record_view(fs@), k@);
    }
    let mut j: usize = 0;
    while j < fs.len()
        invariant
            j <= fs.len(),
            record_view(fs@).len() == fs.len(),
            forall|m: int| 0 <= m < fs.len() ==> #[trigger] record_view(fs@)[m] == (fs@[m].0@, value_view(fs@[m].1)),
            forall|m: int| 0 <= m < j ==> record_view(fs@)[m].0 != k@,
        decreases fs.len() - j,
    {
        if key_eq(&fs[j].0, k) {
            proof {
                lemma_lookup_index(record_view(fs@), k@);
                assert(record_view(fs@)[j as int].0 == k@);
            }
            return Some(j);
        }
        j += 1;
    }
    proof {
        lemma_lookup_index(record_view(fs@), k@);
    }
    None
}

/// `v` with its member at the path `keys[from..]` replaced by `leaf`.
fn set_path(v: &Value, keys: &Vec<FieldKey>, from: usize, leaf: &Value) -> (r: Value)
    requires
        from <= keys.len(),
    ensures
        r@ == spec_set_path(v@, keys_view(keys@).skip(from as int), leaf@),
    decreases keys.len() - from,
{
    let ghost ks = keys_view(keys@).skip(from as int);
    if from == keys.len() {
        assert(ks.len() == 0);
        return copy_value(leaf);
    }
    assert(ks[0] == keys@[from as int]@);
    assert(ks.drop_first() =~= keys_view(keys@).skip(from + 1));
    match v {
        Value::Record(fs) => {
            proof {
                lemma_record_view_len(fs@);
                lemma_lookup_index(record_view(fs@), keys@[from as int]@);
            }
            match lookup_index(fs, &keys[from]) {
                None => copy_value(v),
                Some(j) => {
                    let inner = set_path(&fs[j].1, keys, from + 1, leaf);
                    let ghost rv = record_view(fs@);
                    let ghost iv = inner@;
                    let ghost target = rv.update(j as int, (rv[j as int].0, iv));
                    let mut out: Vec<(FieldKey, Value)> = Vec::new();
                    let mut m: usize = 0;
                    let mut inner_opt = Some(inner);
                    while m < fs.len()
                        invariant
                            m <= fs.len(),
                            j < fs.len(),
                            rv == record_view(fs@),
                            rv.len() == fs.len(),
                            forall|q: int| 0 <= q < fs.len() ==> #[trigger] rv[q] == (fs@[q].0@, value_view(fs@[q].1)),
                            target == rv.update(j as int, (rv[j as int].0, iv)),
                            m <= j ==> (inner_opt matches Some(w) && w@ == iv),
                            record_view(out@) == target.take(m as int),
                        decreases fs.len() - m,
                    {
                        let val = if m == j {
                            match inner_opt {
                                Some(w) => {
                                    inner_opt = None;
                                    w
                                },
                                None => copy_value(&fs[m].1),
                            }
                        } else {
                            copy_value(&fs[m].1)
                        };
                        let f = (fs[m].0.copy(), val);
                        assert(f.0@ == target[m as int].0);
                        assert(value_view(f.1) == target[m as int].1);
                        proof {
                            lemma_record_view_push(out@, f);
                            assert(target.take(m + 1) =~= target.take(m as int).push(target[m as int]));
                        }
                        out.push(f);
                        m += 1;
                    }
                    assert(target.take(fs.len() as int) =~= target);
                    Value::Record(out)
                },
            }
        },
        _ => copy_value(v),
    }
}


/// The groups of the members of a field applied to its value `v`.
fn apply_deep(
    v: &Value,
    t: &ValueType,
    name: &String,
    deep: &Vec<DeepCapture>,
    caps: &Vec<Option<String>>,
) -> (r: Result<Value, ParseError>)
    ensures
        value_result_view(r) == spec_apply_deep(v@, type_view(*t), name@, deeps_view(deep@), crate::regex_api::opt_strings_view(caps@)),
{
    let ghost dv = deeps_view(deep@);
    let ghost cv = crate::regex_api::opt_strings_view(caps@);
    let ghost start = spec_apply_deep(v@, type_view(*t), name@, dv, cv);
    let ghost v0 = v@;
    let mut cur = copy_value(v);
    let mut i: usize = 0;
    assert(dv.skip(0) =~= dv);
    while i < deep.len()
        invariant
            i <= deep.len(),
            dv == deeps_view(deep@),
            cv == crate::regex_api::opt_strings_view(caps@),
            start == spec_apply_deep(cur@, type_view(*t), name@, dv.skip(i as int), cv),
            start == spec_apply_deep(v0, type_view(*t), name@, dv, cv),
            v0 == v@,
        decreases deep.len() - i,
    {
        let d = &deep[i];
        assert(dv.skip(i as int)[0] == d@);
        assert(dv.skip(i as int).drop_first() =~= dv.skip(i + 1));
        let text = cap_text_exec(caps, d.idx);
        let parsed = match type_at(t, &d.keys) {
            Some(u) => u.parse(text.as_str()),
            None => None,
        };
        match parsed {
            None => {
                let mut full = name.clone();
                let joined = crate::field_key::join(&d.keys, ".");
                crate::util::push_str(&mut full, joined.as_str());
                assert(full@ == name@ + spec_join_keys(d@.keys, "."@));
                let err = parse_failed(full.as_str());
                assert(spec_apply_deep(cur@, type_view(*t), name@, dv.skip(i as int), cv) == Err::<ValueView, Seq<char>>(err.message()@));
                return Err(err);
            },
            Some(leaf) => {
                assert(d.keys@.len() == keys_view(d.keys@).len());
                assert(keys_view(d.keys@).skip(0) =~= keys_view(d.keys@));
                cur = set_path(&cur, &d.keys, 0, &leaf);
            },
        }
        i += 1;
    }
    assert(dv.skip(deep.len() as int).len() == 0);
    Ok(cur)
}

/// The value of a field.
fn field_value(f: &FieldDef, e: &Entry, caps: &Vec<Option<String>>) -> (r: Result<Value, ParseError>)
    ensures
        value_result_view(r) == spec_field_value(*f, e@, crate::regex_api::opt_strings_view(caps@)),
{
    if f.attrs.opt {
        let name = f.key.to_string();
        return match e.capture {
            Some(idx) => if cap_present_exec(caps, idx) {
                let text = cap_text_exec(caps, idx);
                match parse_field_text(&e.with, &f.ty, text.as_str()) {
                    Some(v) => Ok(Value::Opt(Some(Box::new(v)))),
                    None => Err(parse_failed(name.as_str())),
                }
            } else {
                Ok(Value::Opt(None))
            },
            None => Ok(Value::Opt(None)),
        };
    }
    let name = f.key.to_string();
    let base = match e.capture {
        Some(idx) => {
            let text = cap_text_exec(caps, idx);
            match parse_field_text(&e.with, &f.ty, text.as_str()) {
                Some(v) => v,
                None => {
                    return Err(parse_failed(name.as_str()));
                },
            }
        },
        None => f.ty.default_value(),
    };
    apply_deep(&base, &f.ty, &name, &e.deep, caps)
}

/// Whether `x` comes before `y` in the order of their characters.
fn text_lt(x: &str, y: &str) -> (r: bool)
    ensures
        r == spec_text_lt(x@, y@),
{
    let a = chars_of(x);
    let b = chars_of(y);
    let mut i: usize = 0;
    assert(a@.skip(0) =~= a@);
    assert(b@.skip(0) =~= b@);
    loop
        invariant
            i <= a.len(),
            i <= b.len(),
            a@ == x@,
            b@ == y@,
            spec_text_lt(a@, b@) == spec_text_lt(a@.skip(i as int), b@.skip(i as int)),
        decreases a.len() - i,
    {
        let ghost sa = a@.skip(i as int);
        let ghost sb = b@.skip(i as int);
        if i == a.len() {
            return i < b.len();
        }
        if i == b.len() {
            return false;
        }
        assert(sa[0] == a@[i as int]);
        assert(sb[0] == b@[i as int]);
        if a[i] != b[i] {
            return a[i] < b[i];
        }
        assert(sa.drop_first() =~= a@.skip(i + 1));
        assert(sb.drop_first() =~= b@.skip(i + 1));
        i += 1;
    }
}

/// The order of the keys of fields.
fn key_lt(a: &FieldKey, b: &FieldKey) -> (r: bool)
    ensures
        r == spec_key_lt(a@, b@),
{
    match (a, b) {
        (FieldKey::Named(x), FieldKey::Named(y)) => text_lt(x.as_str(), y.as_str()),
        (FieldKey::Named(_), FieldKey::Unnamed(_)) => true,
        (FieldKey::Unnamed(_), FieldKey::Named(_)) => false,
        (FieldKey::Unnamed(i), FieldKey::Unnamed(j)) => *i < *j,
    }
}

/// The values of the fields of a struct or a variant from the texts that
/// the groups of its plan matched (`caps[k]` for the group `k + 1`); or,
/// where some fields do not parse, the message of the one with the least
/// key.
pub fn construct(plan: &Plan, fields: &Vec<FieldDef>, caps: &Vec<Option<String>>) -> (r: Result<Vec<Value>, ParseError>)
    ensures
        values_result_view(r) == spec_construct(plan@, fields@, crate::regex_api::opt_strings_view(caps@)),
{
    let ghost cv = crate::regex_api::opt_strings_view(caps@);
    let ghost rs = spec_field_results(plan@, fields@, cv);
    let mut out: Vec<Value> = Vec::new();
    let mut worst: Option<(usize, ParseError)> = None;
    let mut i: usize = 0;
    let n = if fields.len() < plan.entries.len() {
        fields.len()
    } else {
        plan.entries.len()
    };
    assert(n == rs.len());
    while i < n
        invariant
            i <= n,
            n == rs.len(),
            n <= fields.len(),
            n <= plan.entries.len(),
            cv == crate::regex_api::opt_strings_view(caps@),
            rs == spec_field_results(plan@, fields@, cv),
            match worst {
                None => spec_least_failure(fields@, rs, i as int) is None,
                Some((j, e)) => j < i && spec_least_failure(fields@, rs, i as int) == Some(j as int) && rs[j as int]
                    == Err::<ValueView, Seq<char>>(e.message()@),
            },
            worst is None ==> values_view(out@) == rs.take(i as int).map_values(|r: Result<ValueView, Seq<char>>| r->Ok_0),
        decreases n - i,
    {
        assert(plan@.entries[i as int] == plan.entries@[i as int]@);
        let r = field_value(&fields[i], &plan.entries[i], caps);
        assert(value_result_view(r) == rs[i as int]);
        match r {
            Err(e) => {
                let replace = match &worst {
                    None => true,
                    Some((j, _)) => key_lt(&fields[i].key, &fields[*j].key),
                };
                if replace {
                    worst = Some((i, e));
                }
            },
            Ok(v) => {
                if worst.is_none() {
                    let ghost before = values_view(out@);
                    out.push(v);
                    assert(values_view(out@) =~= before.push(v@));
                    assert(rs.take(i + 1).map_values(|r: Result<ValueView, Seq<char>>| r->Ok_0) =~= rs.take(
                        i as int,
                    ).map_values(|r: Result<ValueView, Seq<char>>| r->Ok_0).push(v@));
                }
            },
        }
        i += 1;
    }
    match worst {
        Some((_, e)) => Err(e),
        None => {
            assert(rs.take(n as int) =~= rs);
            Ok(out)
        },
    }
}

/// The regular expression of a plan, anchored at both ends of the text.
pub open spec fn spec_pattern(p: PlanView) -> Seq<char> {
    "\\A(?:"@ + p.pat + ")\\z"@
}

/// The names of the groups of a plan: `value_1` to `value_{next - 1}`.
pub open spec fn spec_names(p: PlanView) -> Seq<Seq<char>> {
    Seq::new(
        if p.next >= 1 {
            (p.next - 1) as nat
        } else {
            0
        },
        |k: int| spec_capture_name((k + 1) as usize),
    )
}

/// What parsing `s` by the plan `p` gives: the values of the fields, or the
/// message of the error; an error of the attributes where the regular
/// expression does not compile.
pub open spec fn spec_from_str_plan(p: PlanView, fields: Seq<FieldDef>, s: Seq<char>) -> Result<Result<Seq<ValueView>, Seq<char>>, DeriveError> {
    if p.literal {
        Ok(
            if s == p.lit {
                spec_construct(p, fields, seq![])
            } else {
                Err("parse failed."@)
            },
        )
    } else {
        match crate::regex_api::regex_captures(spec_pattern(p), spec_names(p), s) {
            None => Err(DeriveError::InvalidRegex),
            Some(None) => Ok(Err("parse failed."@)),
            Some(Some(caps)) => Ok(spec_construct(p, fields, caps)),
        }
    }
}

/// What `FromStr` of the struct `d` makes of `s`: the values of its fields
/// in their order, or the message of the error; or why the struct has no
/// `FromStr`.
pub open spec fn spec_from_str_struct(d: StructDef, s: Seq<char>) -> Result<Result<Seq<ValueView>, Seq<char>>, DeriveError> {
    match spec_struct_plan(d) {
        Err(e) => Err(e),
        Ok(p) => spec_from_str_plan(p, d.fields@, s),
    }
}

pub open spec fn parse_view(r: Result<Result<Vec<Value>, ParseError>, DeriveError>) -> Result<Result<Seq<ValueView>, Seq<char>>, DeriveError> {
    match r {
        Err(e) => Err(e),
        Ok(x) => Ok(values_result_view(x)),
    }
}

/// The regular expression of a plan, anchored at both ends of the text.
fn pattern(p: &Plan) -> (r: String)
    ensures
        r@ == spec_pattern(p@),
{
    let mut out = String::new();
    crate::util::push_str(&mut out, "\\A(?:");
    push_chars(&mut out, &p.pat);
    crate::util::push_str(&mut out, ")\\z");
    out
}

/// The names of the groups of a plan.
fn names(p: &Plan) -> (r: Vec<String>)
    ensures
        crate::regex_api::strings_view(r@) == spec_names(p@),
{
    let n: usize = if p.next >= 1 {
        p.next - 1
    } else {
        0
    };
    let mut out: Vec<String> = Vec::new();
    let mut k: usize = 0;
    while k < n
        invariant
            k <= n,
            n < usize::MAX,
            crate::regex_api::strings_view(out@) =~= Seq::new(k as nat, |j: int| spec_capture_name((j + 1) as usize)),
        decreases n - k,
    {
        let name = capture_name(k + 1);
        let ghost before = out@;
        out.push(name);
        assert(out@ == before.push(name));
        assert(crate::regex_api::strings_view(out@) =~= crate::regex_api::strings_view(before).push(name@));
        k += 1;
    }
    out
}

/// Parses `s` by the plan `p`.
fn from_str_plan(p: &Plan, fields: &Vec<FieldDef>, s: &str) -> (r: Result<Result<Vec<Value>, ParseError>, DeriveError>)
    ensures
        parse_view(r) == spec_from_str_plan(p@, fields@, s@),
{
    if p.literal {
        let c = chars_of(s);
        if crate::util::chars_eq(&c, &p.lit) {
            let caps: Vec<Option<String>> = Vec::new();
            assert(crate::regex_api::opt_strings_view(caps@) =~= Seq::<Option<Seq<char>>>::empty());
            Ok(construct(p, fields, &caps))
        } else {
            Ok(Err(ParseError::new()))
        }
    } else {
        let pat = pattern(p);
        let ns = names(p);
        match crate::regex_api::captures(pat.as_str(), &ns, s) {
            None => Err(DeriveError::InvalidRegex),
            Some(None) => Ok(Err(ParseError::new())),
            Some(Some(caps)) => Ok(construct(p, fields, &caps)),
        }
    }
}

impl StructDef {
    /// What `FromStr` of the struct makes of `s`: the values of its fields in
    /// their order, or the error of the text; or why the struct has no
    /// `FromStr`. Where the struct has `#[from_str(new = ...)]`, the values
    /// are what the expression is given, and its outcome is the result (see
    /// `new_from_option` and `new_from_result`).
    pub fn from_str(&self, s: &str) -> (r: Result<Result<Vec<Value>, ParseError>, DeriveError>)
        ensures
            parse_view(r) == spec_from_str_struct(*self, s@),
    {
        match self.plan() {
            Err(e) => Err(e),
            Ok(p) => from_str_plan(&p, &self.fields, s),
        }
    }
}


/// The plans of the variants from `vi` on: `None` for an ignored variant.
pub open spec fn spec_plans_from(e: EnumDef, vi: int) -> Result<Seq<Option<PlanView>>, DeriveError>
    decreases e.variants@.len() - vi,
{
    if vi < 0 || vi >= e.variants@.len() {
        Ok(seq![])
    } else {
        let v = e.variants@[vi];
        let this: Result<Option<PlanView>, DeriveError> = match spec_display_attrs(v.attrs) {
            Err(err) => Err(err),
            Ok(_) => if v.attrs.ignore {
                Ok(None)
            } else {
                match spec_variant_plan(e, vi) {
                    Err(err) => Err(err),
                    Ok(p) => Ok(Some(p)),
                }
            },
        };
        match this {
            Err(err) => Err(err),
            Ok(o) => match spec_plans_from(e, vi + 1) {
                Err(err) => Err(err),
                Ok(rest) => Ok(seq![o] + rest),
            },
        }
    }
}

/// The plans of all variants; an enum cannot take its default value.
pub open spec fn spec_enum_plans(e: EnumDef) -> Result<Seq<Option<PlanView>>, DeriveError> {
    match spec_display_attrs(e.attrs) {
        Err(err) => Err(err),
        Ok(_) => if e.attrs.default {
            Err(DeriveError::DefaultOnEnum)
        } else {
            spec_plans_from(e, 0)
        },
    }
}

/// The first variant from `vi` on whose pattern is the literal text `s`.
pub open spec fn spec_literal_match(ps: Seq<Option<PlanView>>, s: Seq<char>, vi: int) -> Option<int>
    decreases ps.len() - vi,
{
    if vi < 0 || vi >= ps.len() {
        None
    } else {
        match ps[vi] {
            Some(p) => if p.literal && p.lit == s {
                Some(vi)
            } else {
                spec_literal_match(ps, s, vi + 1)
            },
            None => spec_literal_match(ps, s, vi + 1),
        }
    }
}

/// The variants with regular expressions tried from `vi` on, in order: the
/// first whose expression matches and whose fields parse.
pub open spec fn spec_try_regex(e: EnumDef, ps: Seq<Option<PlanView>>, s: Seq<char>, vi: int) -> Result<Result<(int, Seq<ValueView>), Seq<char>>, DeriveError>
    decreases ps.len() - vi,
{
    if vi < 0 || vi >= ps.len() || vi >= e.variants@.len() {
        Ok(Err("parse failed."@))
    } else {
        match ps[vi] {
            Some(p) => if p.literal {
                spec_try_regex(e, ps, s, vi + 1)
            } else {
                match crate::regex_api::regex_captures(spec_pattern(p), spec_names(p), s) {
                    None => Err(DeriveError::InvalidRegex),
                    Some(None) => spec_try_regex(e, ps, s, vi + 1),
                    Some(Some(caps)) => match spec_construct(p, e.variants@[vi].fields@, caps) {
                        Ok(v) => Ok(Ok((vi, v))),
                        Err(_) => spec_try_regex(e, ps, s, vi + 1),
                    },
                }
            },
            None => spec_try_regex(e, ps, s, vi + 1),
        }
    }
}

/// What `FromStr` of the enum `e` makes of `s`: the variant and the values
/// of its fields, or the message of the error; or why the enum has no
/// `FromStr`. Variants whose pattern is a literal text are tried first.
pub open spec fn spec_from_str_enum(e: EnumDef, s: Seq<char>) -> Result<Result<(int, Seq<ValueView>), Seq<char>>, DeriveError> {
    match spec_enum_plans(e) {
        Err(err) => Err(err),
        Ok(ps) => match spec_literal_match(ps, s, 0) {
            Some(vi) => Ok(
                match spec_construct(ps[vi].unwrap(), e.variants@[vi].fields@, seq![]) {
                    Ok(v) => Ok((vi, v)),
                    Err(m) => Err(m),
                },
            ),
            None => spec_try_regex(e, ps, s, 0),
        },
    }
}

pub open spec fn plans_view(v: Seq<Option<Plan>>) -> Seq<Option<PlanView>> {
    v.map_values(|o: Option<Plan>| match o {
        Some(p) => Some(p@),
        None => None,
    })
}

pub open spec fn variant_parse_view(r: Result<Result<(usize, Vec<Value>), ParseError>, DeriveError>) -> Result<Result<(int, Seq<ValueView>), Seq<char>>, DeriveError> {
    match r {
        Err(e) => Err(e),
        Ok(Ok((vi, v))) => Ok(Ok((vi as int, values_view(v@)))),
        Ok(Err(e)) => Ok(Err(e.message()@)),
    }
}

impl EnumDef {
    /// The plans of all variants: `None` for an ignored variant.
    pub fn plans(&self) -> (r: Result<Vec<Option<Plan>>, DeriveError>)
        ensures
            match r {
                Ok(ps) => spec_enum_plans(*self) == Ok::<Seq<Option<PlanView>>, DeriveError>(plans_view(ps@)),
                Err(e) => spec_enum_plans(*self) == Err::<Seq<Option<PlanView>>, DeriveError>(e),
            },
    {
        match self.attrs.display_attrs() {
            Err(e) => {
                return Err(e);
            },
            Ok(_) => {},
        }
        if self.attrs.default {
            return Err(DeriveError::DefaultOnEnum);
        }
        let mut out: Vec<Option<Plan>> = Vec::new();
        let mut vi: usize = 0;
        let ghost start = spec_plans_from(*self, 0);
        while vi < self.variants.len()
            invariant
                vi <= self.variants.len(),
                start == spec_plans_from(*self, 0),
                spec_enum_plans(*self) == start,
                start == match spec_plans_from(*self, vi as int) {
                    Err(err) => Err(err),
                    Ok(rest) => Ok(plans_view(out@) + rest),
                },
            decreases self.variants.len() - vi,
        {
            let v = &self.variants[vi];
            let o: Option<Plan> = match v.attrs.display_attrs() {
                Err(e) => {
                    return Err(e);
                },
                Ok(_) => {
                    if v.attrs.ignore {
                        None
                    } else {
                        match self.variant_plan(vi) {
                            Err(e) => {
                                return Err(e);
                            },
                            Ok(p) => Some(p),
                        }
                    }
                },
            };
            let ghost ov: Option<PlanView> = match &o {
                Some(p) => Some(p@),
                None => None,
            };
            let ghost before = plans_view(out@);
            out.push(o);
            assert(plans_view(out@) =~= before.push(ov));
            assert forall|rest: Seq<Option<PlanView>>| #[trigger] (before + (seq![ov] + rest)) == plans_view(out@) + rest by {
                assert(before + (seq![ov] + rest) =~= plans_view(out@) + rest);
            }
            vi += 1;
        }
        assert(plans_view(out@) + Seq::<Option<PlanView>>::empty() =~= plans_view(out@));
        Ok(out)
    }

    /// What `FromStr` of the enum makes of `s`: the index of the variant and
    /// the values of its fields, or the error of the text; or why the enum
    /// has no `FromStr`. This is the first of `candidates`; where a variant
    /// has `#[from_str(new = ...)]`, whose expression may make no value, see
    /// `candidates`.
    pub fn from_str(&self, s: &str) -> (r: Result<Result<(usize, Vec<Value>), ParseError>, DeriveError>)
        ensures
            variant_parse_view(r) == spec_from_str_enum(*self, s@),
    {
        let ps = match self.plans() {
            Err(e) => {
                return Err(e);
            },
            Ok(ps) => ps,
        };
        proof {
            lemma_plans_len(*self, 0);
        }
        let ghost pv = plans_view(ps@);
        let c = chars_of(s);
        let mut vi: usize = 0;
        while vi < ps.len()
            invariant
                vi <= ps.len(),
                spec_enum_plans(*self) == Ok::<Seq<Option<PlanView>>, DeriveError>(pv),
                pv == plans_view(ps@),
                pv.len() == self.variants@.len(),
                c@ == s@,
                spec_literal_match(pv, s@, 0) == spec_literal_match(pv, s@, vi as int),
            decreases ps.len() - vi,
        {
            assert(pv[vi as int] == match ps@[vi as int] {
                Some(p) => Some(p@),
                None => None::<PlanView>,
            });
            match &ps[vi] {
                Some(p) => {
                    if p.literal && crate::util::chars_eq(&c, &p.lit) {
                        assert(spec_literal_match(pv, s@, vi as int) == Some(vi as int));
                        let caps: Vec<Option<String>> = Vec::new();
                        assert(crate::regex_api::opt_strings_view(caps@) =~= Seq::<Option<Seq<char>>>::empty());
                        return match construct(p, &self.variants[vi].fields, &caps) {
                            Ok(v) => Ok(Ok((vi, v))),
                            Err(e) => Ok(Err(e)),
                        };
                    }
                },
                None => {},
            }
            vi += 1;
        }
        let ghost start = spec_try_regex(*self, pv, s@, 0);
        let mut vi: usize = 0;
        assert(spec_literal_match(pv, s@, 0) is None);
        while vi < ps.len()
            invariant
                vi <= ps.len(),
                spec_enum_plans(*self) == Ok::<Seq<Option<PlanView>>, DeriveError>(pv),
                spec_literal_match(pv, s@, 0) is None,
                pv == plans_view(ps@),
                pv.len() == self.variants@.len(),
                start == spec_try_regex(*self, pv, s@, 0),
                start == spec_try_regex(*self, pv, s@, vi as int),
            decreases ps.len() - vi,
        {
            assert(pv[vi as int] == match ps@[vi as int] {
                Some(p) => Some(p@),
                None => None::<PlanView>,
            });
            match &ps[vi] {
                Some(p) => {
                    if !p.literal {
                        let pat = pattern(p);
                        let ns = names(p);
                        match crate::regex_api::captures(pat.as_str(), &ns, s) {
                            None => {
                                return Err(DeriveError::InvalidRegex);
                            },
                            Some(None) => {},
                            Some(Some(caps)) => match construct(p, &self.variants[vi].fields, &caps) {
                                Ok(v) => {
                                    return Ok(Ok((vi, v)));
                                },
                                Err(_) => {},
                            },
                        }
                    }
                },
                None => {},
            }
            vi += 1;
        }
        Ok(Err(ParseError::new()))
    }
}

pub proof fn lemma_literal_some(ps: Seq<Option<PlanView>>, s: Seq<char>, j: int)
    ensures
        spec_literal_match(ps, s, j) matches Some(r) ==> j <= r < ps.len() && ps[r] is Some,
    decreases ps.len() - j,
{
    if 0 <= j < ps.len() {
        lemma_literal_some(ps, s, j + 1);
    }
}

/// The variants with regular expressions from `vi` on whose expression
/// matches `s` and whose fields parse, in order, with the values of their
/// fields.
pub open spec fn spec_regex_cands(e: EnumDef, ps: Seq<Option<PlanView>>, s: Seq<char>, vi: int) -> Result<Seq<(int, Seq<ValueView>)>, DeriveError>
    decreases ps.len() - vi,
{
    if vi < 0 || vi >= ps.len() || vi >= e.variants@.len() {
        Ok(seq![])
    } else {
        let here: Result<Seq<(int, Seq<ValueView>)>, DeriveError> = match ps[vi] {
            Some(p) => if p.literal {
                Ok(seq![])
            } else {
                match crate::regex_api::regex_captures(spec_pattern(p), spec_names(p), s) {
                    None => Err(DeriveError::InvalidRegex),
                    Some(None) => Ok(seq![]),
                    Some(Some(caps)) => match spec_construct(p, e.variants@[vi].fields@, caps) {
                        Ok(v) => Ok(seq![(vi, v)]),
                        Err(_) => Ok(seq![]),
                    },
                }
            },
            None => Ok(seq![]),
        };
        match here {
            Err(x) => Err(x),
            Ok(h) => match spec_regex_cands(e, ps, s, vi + 1) {
                Err(x) => Err(x),
                Ok(rest) => Ok(h + rest),
            },
        }
    }
}

/// Every way `s` parses as a variant of `e`, in the order `FromStr` tries
/// them: the variant whose pattern is the literal text `s` (whose fields
/// failing to parse fails the whole parse with their message), then the
/// variants with regular expressions that match and whose fields parse.
/// Where a variant has `#[from_str(new = ...)]`, `FromStr` gives the first
/// of these whose expression makes a value.
pub open spec fn spec_candidates(e: EnumDef, s: Seq<char>) -> Result<Result<Seq<(int, Seq<ValueView>)>, Seq<char>>, DeriveError> {
    match spec_enum_plans(e) {
        Err(err) => Err(err),
        Ok(ps) => {
            let lit: Result<Seq<(int, Seq<ValueView>)>, Seq<char>> = match spec_literal_match(ps, s, 0) {
                Some(vi) => match spec_construct(ps[vi].unwrap(), e.variants@[vi].fields@, seq![]) {
                    Ok(v) => Ok(seq![(vi, v)]),
                    Err(m) => Err(m),
                },
                None => Ok(seq![]),
            };
            match lit {
                Err(m) => Ok(Err(m)),
                Ok(l) => match spec_regex_cands(e, ps, s, 0) {
                    Err(err) => Err(err),
                    Ok(rc) => Ok(Ok(l + rc)),
                },
            }
        },
    }
}

pub open spec fn cands_view(c: Seq<(usize, Vec<Value>)>) -> Seq<(int, Seq<ValueView>)> {
    c.map_values(|x: (usize, Vec<Value>)| (x.0 as int, values_view(x.1@)))
}

pub open spec fn cands_result_view(r: Result<Result<Vec<(usize, Vec<Value>)>, ParseError>, DeriveError>) -> Result<Result<Seq<(int, Seq<ValueView>)>, Seq<char>>, DeriveError> {
    match r {
        Err(e) => Err(e),
        Ok(Err(e)) => Ok(Err(e.message()@)),
        Ok(Ok(c)) => Ok(Ok(cands_view(c@))),
    }
}

/// The first variant whose pattern is the literal text `c`.
fn literal_index(ps: &Vec<Option<Plan>>, c: &Vec<char>) -> (r: Option<usize>)
    ensures
        match r {
            Some(i) => spec_literal_match(plans_view(ps@), c@, 0) == Some(i as int) && i < ps.len(),
            None => spec_literal_match(plans_view(ps@), c@, 0) is None,
        },
{
    let ghost pv = plans_view(ps@);
    let mut vi: usize = 0;
    while vi < ps.len()
        invariant
            vi <= ps.len(),
            pv == plans_view(ps@),
            spec_literal_match(pv, c@, 0) == spec_literal_match(pv, c@, vi as int),
        decreases ps.len() - vi,
    {
        assert(pv[vi as int] == match ps@[vi as int] {
            Some(p) => Some(p@),
            None => None::<PlanView>,
        });
        match &ps[vi] {
            Some(p) => {
                if p.literal && crate::util::chars_eq(c, &p.lit) {
                    return Some(vi);
                }
            },
            None => {},
        }
        vi += 1;
    }
    None
}

impl EnumDef {
    /// Every way `s` parses as a variant, in the order `FromStr` tries them
    /// (see `spec_candidates`): the outcome of a `#[from_str(new = ...)]`
    /// expression is then taken for each in turn.
    pub fn candidates(&self, s: &str) -> (r: Result<Result<Vec<(usize, Vec<Value>)>, ParseError>, DeriveError>)
        ensures
            cands_result_view(r) == spec_candidates(*self, s@),
    {
        let ps = match self.plans() {
            Err(e) => {
                return Err(e);
            },
            Ok(ps) => ps,
        };
        proof {
            lemma_plans_len(*self, 0);
        }
        let ghost pv = plans_view(ps@);
        let c = chars_of(s);
        let mut out: Vec<(usize, Vec<Value>)> = Vec::new();
        match literal_index(&ps, &c) {
            Some(vi) => {
                assert(pv[vi as int] == match ps@[vi as int] {
                    Some(p) => Some(p@),
                    None => None::<PlanView>,
                });
                proof {
                    lemma_literal_some(pv, s@, 0);
                }
                match &ps[vi] {
                    Some(p) => {
                        let caps: Vec<Option<String>> = Vec::new();
                        assert(crate::regex_api::opt_strings_view(caps@) =~= Seq::<Option<Seq<char>>>::empty());
                        match construct(p, &self.variants[vi].fields, &caps) {
                            Ok(v) => {
                                out.push((vi, v));
                                assert(cands_view(out@) =~= seq![(vi as int, values_view(out@[0].1@))]);
                            },
                            Err(e) => {
                                return Ok(Err(e));
                            },
                        }
                    },
                    None => {
                        return Err(DeriveError::Unsupported);
                    },
                }
            },
            None => {
                assert(cands_view(out@) =~= Seq::<(int, Seq<ValueView>)>::empty());
            },
        }
        let ghost lit = cands_view(out@);
        let ghost start = spec_regex_cands(*self, pv, s@, 0);
        assert(spec_candidates(*self, s@) == match start {
            Err(x) => Err(x),
            Ok(rc) => Ok(Ok::<Seq<(int, Seq<ValueView>)>, Seq<char>>(lit + rc)),
        });
        let ghost mut acc: Seq<(int, Seq<ValueView>)> = seq![];
        assert(cands_view(out@) =~= lit + acc);
        let mut vi: usize = 0;
        while vi < ps.len()
            invariant
                vi <= ps.len(),
                pv == plans_view(ps@),
                pv.len() == self.variants@.len(),
                spec_candidates(*self, s@) == match start {
                    Err(x) => Err(x),
                    Ok(rc) => Ok(Ok::<Seq<(int, Seq<ValueView>)>, Seq<char>>(lit + rc)),
                },
                start == match spec_regex_cands(*self, pv, s@, vi as int) {
                    Err(x) => Err(x),
                    Ok(rest) => Ok(acc + rest),
                },
                cands_view(out@) == lit + acc,
            decreases ps.len() - vi,
        {
            assert(pv[vi as int] == match ps@[vi as int] {
                Some(p) => Some(p@),
                None => None::<PlanView>,
            });
            let ghost old_acc = acc;
            let ghost mut here: Seq<(int, Seq<ValueView>)> = seq![];
            match &ps[vi] {
                Some(p) => {
                    if !p.literal {
                        let pat = pattern(p);
                        let ns = names(p);
                        match crate::regex_api::captures(pat.as_str(), &ns, s) {
                            None => {
                                return Err(DeriveError::InvalidRegex);
                            },
                            Some(None) => {},
                            Some(Some(caps)) => match construct(p, &self.variants[vi].fields, &caps) {
                                Ok(v) => {
                                    let ghost before = out@;
                                    out.push((vi, v));
                                    proof {
                                        assert(cands_view(out@) =~= cands_view(before).push((vi as int, values_view(out@[out@.len() - 1].1@))));
                                        here = seq![(vi as int, values_view(out@[out@.len() - 1].1@))];
                                        acc = acc.push((vi as int, values_view(out@[out@.len() - 1].1@)));
                                        assert(cands_view(out@) =~= lit + acc);
                                    }
                                },
                                Err(_) => {},
                            },
                        }
                    }
                },
                None => {},
            }
            proof {
                assert(acc =~= old_acc + here);
                assert(spec_regex_cands(*self, pv, s@, vi as int) == match spec_regex_cands(*self, pv, s@, vi + 1) {
                    Err(x) => Err(x),
                    Ok(rest) => Ok(here + rest),
                });
                match spec_regex_cands(*self, pv, s@, vi + 1) {
                    Ok(rest) => {
                        assert(old_acc + (here + rest) =~= acc + rest);
                    },
                    Err(_) => {},
                }
            }
            vi += 1;
        }
        assert(acc + Seq::<(int, Seq<ValueView>)>::empty() =~= acc);
        Ok(Ok(out))
    }
}

/// The value that `#[from_str(new = ...)]` makes, where the expression gives
/// an `Option`: `None` fails the parse with `parse failed.`.
pub fn new_from_option<T>(made: Option<T>) -> (r: Result<T, ParseError>)
    ensures
        match made {
            Some(v) => r == Ok::<T, ParseError>(v),
            None => r matches Err(e) && e.message()@ == "parse failed."@,
        },
{
    match made {
        Some(v) => Ok(v),
        None => Err(ParseError::new()),
    }
}

/// The value that `#[from_str(new = ...)]` makes, where the expression gives
/// a `Result`: its error is never returned as a value, and fails the parse
/// with `parse failed.`.
pub fn new_from_result<T, E>(made: Result<T, E>) -> (r: Result<T, ParseError>)
    ensures
        match made {
            Ok(v) => r == Ok::<T, ParseError>(v),
            Err(_) => r matches Err(e) && e.message()@ == "parse failed."@,
        },
{
    match made {
        Ok(v) => Ok(v),
        Err(_) => Err(ParseError::new()),
    }
}

/// The plans of the variants from `vi` on are as many as those variants.
pub proof fn lemma_plans_len(e: EnumDef, vi: int)
    requires
        0 <= vi <= e.variants@.len(),
    ensures
        spec_plans_from(e, vi) matches Ok(ps) ==> ps.len() == e.variants@.len() - vi,
    decreases e.variants@.len() - vi,
{
    if vi < e.variants@.len() {
        lemma_plans_len(e, vi + 1);
    }
}


/// `s` from `i` on with every group opening `(?<name>` (after an even number
/// of backslashes) made a group without a name, appended to `out`.
pub open spec fn spec_uncapture(s: Seq<char>, i: int, out: Seq<char>) -> Seq<char>
    decreases s.len() - i,
{
    if i < 0 || i >= s.len() {
        out
    } else {
        match capture_at(s, i) {
            None => spec_uncapture(s, i + 1, out.push(s[i])),
            Some((e, k0, k1)) => {
                proof {
                    lemma_capture_at(s, i);
                }
                if (e - i) % 2 == 1 {
                    spec_uncapture(s, k1 + 1, out + s.subrange(i, k1 + 1))
                } else {
                    spec_uncapture(s, k1 + 1, out + s.subrange(i, e) + "(?:"@)
                }
            },
        }
    }
}

/// The regular expression of the texts that a plan parses, as a part of a
/// larger expression: its groups without names, anchored at the end; the
/// escaped text of a literal plan.
pub open spec fn spec_plan_regex(p: PlanView) -> Seq<char> {
    if p.literal {
        spec_escape_regex(p.lit)
    } else {
        spec_uncapture(p.pat, 0, seq![]) + "\\z"@
    }
}

/// The regular expression of the texts that `FromStr` of the struct may
/// parse (the struct's `FromStrRegex`).
pub open spec fn spec_struct_from_str_regex(d: StructDef) -> Result<Seq<char>, DeriveError> {
    match spec_struct_plan(d) {
        Err(e) => Err(e),
        Ok(p) => Ok(spec_plan_regex(p)),
    }
}

/// Every plan that is there is a literal text.
pub open spec fn all_literal(ps: Seq<Option<PlanView>>) -> bool {
    forall|i: int| 0 <= i < ps.len() ==> (#[trigger] ps[i] matches Some(p) ==> p.literal)
}

/// The alternatives of an enum's expression, one for each variant that is
/// not ignored: where all are literal texts, those texts escaped; else a
/// literal text escaped and in a group, and the expression of another plan.
pub open spec fn spec_alternatives(ps: Seq<Option<PlanView>>, all_lit: bool) -> Seq<Seq<char>>
    decreases ps.len(),
{
    if ps.len() == 0 {
        seq![]
    } else {
        let pre = spec_alternatives(ps.drop_last(), all_lit);
        match ps.last() {
            None => pre,
            Some(p) => pre.push(
                if all_lit {
                    spec_escape_regex(p.lit)
                } else if p.literal {
                    "("@ + spec_escape_regex(p.lit) + ")"@
                } else {
                    spec_plan_regex(p)
                },
            ),
        }
    }
}

/// Texts joined with a separator.
pub open spec fn spec_join_with(pieces: Seq<Seq<char>>, sep: Seq<char>) -> Seq<char>
    decreases pieces.len(),
{
    if pieces.len() == 0 {
        seq![]
    } else if pieces.len() == 1 {
        pieces[0]
    } else {
        spec_join_with(pieces.drop_last(), sep) + sep + pieces.last()
    }
}

/// The regular expression of the texts that `FromStr` of the enum may
/// parse: the alternatives of its variants, separated by `|`.
pub open spec fn spec_enum_from_str_regex(e: EnumDef) -> Result<Seq<char>, DeriveError> {
    match spec_enum_plans(e) {
        Err(err) => Err(err),
        Ok(ps) => Ok(spec_join_with(spec_alternatives(ps, all_literal(ps)), "|"@)),
    }
}

pub open spec fn regex_result_view(r: Result<String, DeriveError>) -> Result<Seq<char>, DeriveError> {
    match r {
        Ok(s) => Ok(s@),
        Err(e) => Err(e),
    }
}

/// `s` with every group opening made a group without a name.
fn uncapture(s: &Vec<char>) -> (r: Vec<char>)
    ensures
        r@ == spec_uncapture(s@, 0, seq![]),
{
    let mut out: Vec<char> = Vec::new();
    let mut i: usize = 0;
    while i < s.len()
        invariant
            i <= s.len(),
            spec_uncapture(s@, 0, seq![]) == spec_uncapture(s@, i as int, out@),
        decreases s.len() - i,
    {
        proof {
            lemma_capture_at(s@, i as int);
        }
        match capture_at_exec(s, i) {
            None => {
                out.push(s[i]);
                i += 1;
            },
            Some((e, k0, k1)) => {
                if (e - i) % 2 == 1 {
                    append_range(&mut out, s, i, k1 + 1);
                } else {
                    let ghost target = out@ + s@.subrange(i as int, e as int) + "(?:"@;
                    append_range(&mut out, s, i, e);
                    append_str(&mut out, "(?:");
                    assert(out@ =~= target);
                }
                i = k1 + 1;
            },
        }
    }
    out
}

/// The regular expression of the texts that a plan parses, as a part of a
/// larger expression.
fn plan_regex(p: &Plan) -> (r: Vec<char>)
    ensures
        r@ == spec_plan_regex(p@),
{
    if p.literal {
        let t = crate::util::string_of(&p.lit);
        let e = escape(t.as_str());
        chars_of(e.as_str())
    } else {
        let mut r = uncapture(&p.pat);
        append_str(&mut r, "\\z");
        r
    }
}

impl StructDef {
    /// The regular expression of the texts that `FromStr` of the struct may
    /// parse; or why the struct has no `FromStr`.
    pub fn from_str_regex(&self) -> (r: Result<String, DeriveError>)
        ensures
            regex_result_view(r) == spec_struct_from_str_regex(*self),
    {
        match self.plan() {
            Err(e) => Err(e),
            Ok(p) => {
                let r = plan_regex(&p);
                Ok(crate::util::string_of(&r))
            },
        }
    }
}

impl EnumDef {
    /// The regular expression of the texts that `FromStr` of the enum may
    /// parse; or why the enum has no `FromStr`.
    pub fn from_str_regex(&self) -> (r: Result<String, DeriveError>)
        ensures
            regex_result_view(r) == spec_enum_from_str_regex(*self),
    {
        let ps = match self.plans() {
            Err(e) => {
                return Err(e);
            },
            Ok(ps) => ps,
        };
        let ghost pv = plans_view(ps@);
        let mut all_lit = true;
        let mut i: usize = 0;
        while i < ps.len()
            invariant
                i <= ps.len(),
                pv == plans_view(ps@),
                all_lit == (forall|j: int| 0 <= j < i ==> (#[trigger] pv[j] matches Some(p) ==> p.literal)),
            decreases ps.len() - i,
        {
            assert(pv[i as int] == match ps@[i as int] {
                Some(p) => Some(p@),
                None => None::<PlanView>,
            });
            match &ps[i] {
                Some(p) => {
                    if !p.literal {
                        all_lit = false;
                    }
                },
                None => {},
            }
            i += 1;
        }
        let mut out: Vec<char> = Vec::new();
        let mut count: usize = 0;
        let mut i: usize = 0;
        assert(pv.take(0) =~= Seq::<Option<PlanView>>::empty());
        while i < ps.len()
            invariant
                i <= ps.len(),
                count <= i,
                pv == plans_view(ps@),
                spec_alternatives(pv.take(i as int), all_lit).len() == count,
                out@ == spec_join_with(spec_alternatives(pv.take(i as int), all_lit), "|"@),
                spec_enum_plans(*self) == Ok::<Seq<Option<PlanView>>, DeriveError>(pv),
                all_lit == all_literal(pv),
            decreases ps.len() - i,
        {
            assert(pv[i as int] == match ps@[i as int] {
                Some(p) => Some(p@),
                None => None::<PlanView>,
            });
            assert(pv.take(i + 1).drop_last() =~= pv.take(i as int));
            assert(pv.take(i + 1).last() == pv[i as int]);
            match &ps[i] {
                Some(p) => {
                    let piece: Vec<char> = if all_lit {
                        let t = crate::util::string_of(&p.lit);
                        let e = escape(t.as_str());
                        chars_of(e.as_str())
                    } else if p.literal {
                        let t = crate::util::string_of(&p.lit);
                        let e = escape(t.as_str());
                        let mut g: Vec<char> = Vec::new();
                        append_str(&mut g, "(");
                        append_str(&mut g, e.as_str());
                        append_str(&mut g, ")");
                        g
                    } else {
                        plan_regex(p)
                    };
                    let ghost pieces = spec_alternatives(pv.take(i as int), all_lit);
                    let ghost np = pieces.push(piece@);
                    assert(np.drop_last() =~= pieces);
                    if count > 0 {
                        append_str(&mut out, "|");
                    } else {
                        assert(pieces.len() == 0);
                        assert(out@ =~= Seq::<char>::empty());
                    }
                    append_chars(&mut out, &piece);
                    assert(out@ =~= spec_join_with(np, "|"@));
                    count += 1;
                },
                None => {},
            }
            i += 1;
        }
        assert(pv.take(ps.len() as int) =~= pv);
        Ok(crate::util::string_of(&out))
    }
}


/// Whether the path `a[from..]` comes before the path `b`.
fn keys_lt(a: &Vec<FieldKey>, from: usize, b: &Vec<FieldKey>) -> (r: bool)
    requires
        from <= a.len(),
    ensures
        r == spec_keys_lt(keys_view(a@).skip(from as int), keys_view(b@)),
{
    let mut i: usize = 0;
    assert(keys_view(b@).skip(0) =~= keys_view(b@));
    loop
        invariant
            from <= a.len(),
            i <= b.len(),
            from + i <= a.len(),
            spec_keys_lt(keys_view(a@).skip(from as int), keys_view(b@)) == spec_keys_lt(
                keys_view(a@).skip(from + i),
                keys_view(b@).skip(i as int),
            ),
        decreases b.len() - i,
    {
        let ghost sa = keys_view(a@).skip(from + i);
        let ghost sb = keys_view(b@).skip(i as int);
        if from + i == a.len() {
            return i < b.len();
        }
        if i == b.len() {
            return false;
        }
        assert(sa[0] == a@[from + i]@);
        assert(sb[0] == b@[i as int]@);
        if !key_eq(&a[from + i], &b[i]) {
            return key_lt(&a[from + i], &b[i]);
        }
        assert(sa.drop_first() =~= keys_view(a@).skip(from + i + 1));
        assert(sb.drop_first() =~= keys_view(b@).skip(i + 1));
        i += 1;
    }
}

/// Where a group of a member with the path `keys[from..]` goes.
fn insert_pos(d: &Vec<DeepCapture>, keys: &Vec<FieldKey>, from: usize) -> (r: usize)
    requires
        from <= keys.len(),
    ensures
        r == spec_insert_pos(deeps_view(d@), keys_view(keys@).skip(from as int)),
{
    let ghost ks = keys_view(keys@).skip(from as int);
    let ghost dv = deeps_view(d@);
    let mut j: usize = 0;
    assert(dv.skip(0) =~= dv);
    while j < d.len()
        invariant
            j <= d.len(),
            from <= keys.len(),
            ks == keys_view(keys@).skip(from as int),
            dv == deeps_view(d@),
            spec_insert_pos(dv, ks) == j + spec_insert_pos(dv.skip(j as int), ks),
        decreases d.len() - j,
    {
        assert(dv.skip(j as int)[0] == d@[j as int]@);
        if keys_lt(keys, from, &d[j].keys) {
            return j;
        }
        assert(dv.skip(j as int).drop_first() =~= dv.skip(j + 1));
        j += 1;
    }
    j
}

} // verus!
