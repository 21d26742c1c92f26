//! One glyph's metadata, and the attribute parser that builds it from one
//! raw source element.

use vstd::prelude::*;
use vstd::utf8::is_scalar;

use crate::errors::{Axis, ErrorView, IngestError, InvalidReason};
use crate::text::{chars_of, str_eq, string_from_chars};
use crate::vocab::{Case, Category, Direction, Script, SubCategory};

verus! {

broadcast use vstd::utf8::char_is_scalar, vstd::utf8::char_u32_cast;

/// One glyph's metadata, as served by the store.
#[derive(Clone, Debug, PartialEq, Eq)]
pub struct Record {
    pub unicode: Option<char>,
    pub category: Category,
    pub sub_category: Option<SubCategory>,
    pub case: Option<Case>,
    pub script: Option<Script>,
    pub direction: Option<Direction>,
    pub description: Option<String>,
    pub production_name: Option<String>,
    pub alternative_names: Vec<String>,
}

/// The mathematical image of a [`Record`].
pub struct RecordView {
    pub unicode: Option<char>,
    pub category: Category,
    pub sub_category: Option<SubCategory>,
    pub case: Option<Case>,
    pub script: Option<Script>,
    pub direction: Option<Direction>,
    pub description: Option<Seq<char>>,
    pub production_name: Option<Seq<char>>,
    pub alternative_names: Seq<Seq<char>>,
}

impl View for Record {
    type V = RecordView;

    open spec fn view(&self) -> RecordView {
        RecordView {
            unicode: self.unicode,
            category: self.category,
            sub_category: self.sub_category,
            case: self.case,
            script: self.script,
            direction: self.direction,
            description: self.description.deep_view(),
            production_name: self.production_name.deep_view(),
            alternative_names: self.alternative_names.deep_view(),
        }
    }
}

/// A record as one source element describes it: a [`Record`] plus the
/// element's primary name.
#[derive(Clone, Debug, PartialEq, Eq)]
pub struct XmlRecord {
    pub unicode: Option<char>,
    pub name: String,
    pub category: Category,
    pub sub_category: Option<SubCategory>,
    pub case: Option<Case>,
    pub script: Option<Script>,
    pub direction: Option<Direction>,
    pub description: Option<String>,
    pub production_name: Option<String>,
    pub alternative_names: Vec<String>,
}

/// The mathematical image of an [`XmlRecord`].
pub struct XmlRecordView {
    pub unicode: Option<char>,
    pub name: Seq<char>,
    pub category: Category,
    pub sub_category: Option<SubCategory>,
    pub case: Option<Case>,
    pub script: Option<Script>,
    pub direction: Option<Direction>,
    pub description: Option<Seq<char>>,
    pub production_name: Option<Seq<char>>,
    pub alternative_names: Seq<Seq<char>>,
}

impl View for XmlRecord {
    type V = XmlRecordView;

    open spec fn view(&self) -> XmlRecordView {
        XmlRecordView {
            unicode: self.unicode,
            name: self.name@,
            category: self.category,
            sub_category: self.sub_category,
            case: self.case,
            script: self.script,
            direction: self.direction,
            description: self.description.deep_view(),
            production_name: self.production_name.deep_view(),
            alternative_names: self.alternative_names.deep_view(),
        }
    }
}

impl XmlRecordView {
    /// The record part, without the name.
    pub open spec fn record(self) -> RecordView {
        RecordView {
            unicode: self.unicode,
            category: self.category,
            sub_category: self.sub_category,
            case: self.case,
            script: self.script,
            direction: self.direction,
            description: self.description,
            production_name: self.production_name,
            alternative_names: self.alternative_names,
        }
    }
}

impl XmlRecord {
    /// Splits one parsed element into its primary name and its record.
    pub fn into_record(self) -> (r: (String, Record))
        ensures
            r.0@ == self@.name,
            r.1@ == self@.record(),
    {
        (
            self.name,
            Record {
                unicode: self.unicode,
                category: self.category,
                sub_category: self.sub_category,
                case: self.case,
                script: self.script,
                direction: self.direction,
                description: self.description,
                production_name: self.production_name,
                alternative_names: self.alternative_names,
            },
        )
    }
}

/// One raw attribute of a source element: its name and its unescaped value.
#[derive(Clone, Debug, PartialEq, Eq)]
pub struct RawAttr {
    pub key: String,
    pub value: String,
}

impl View for RawAttr {
    type V = (Seq<char>, Seq<char>);

    open spec fn view(&self) -> (Seq<char>, Seq<char>) {
        (self.key@, self.value@)
    }
}

impl DeepView for RawAttr {
    type V = (Seq<char>, Seq<char>);

    open spec fn deep_view(&self) -> (Seq<char>, Seq<char>) {
        self.view()
    }
}

/// The key and value sequences of a sequence of raw attributes.
pub open spec fn attrs_view(attrs: Seq<RawAttr>) -> Seq<(Seq<char>, Seq<char>)> {
    Seq::new(attrs.len(), |i: int| (attrs[i].key@, attrs[i].value@))
}

// ---------------------------------------------------------------------------
// Codepoint parsing.
//
// A `unicode` attribute holds a base-16 codepoint. An optional leading `+`
// is tolerated, as the integer parser of the standard library tolerates it.
// Anything that does not name a Unicode scalar value - bad digits, overflow,
// a surrogate - yields no codepoint rather than an error.
// ---------------------------------------------------------------------------

/// The numeric value of one base-16 digit, or -1.
pub open spec fn spec_hex_digit_val(c: char) -> int {
    if '0' as int <= c as int && c as int <= '9' as int {
        c as int - '0' as int
    } else if 'a' as int <= c as int && c as int <= 'f' as int {
        c as int - 'a' as int + 10
    } else if 'A' as int <= c as int && c as int <= 'F' as int {
        c as int - 'A' as int + 10
    } else {
        -1
    }
}

/// Whether `c` is a base-16 digit.
pub open spec fn is_hex_digit(c: char) -> bool {
    spec_hex_digit_val(c) >= 0
}

/// Whether every character of `s` is a base-16 digit.
pub open spec fn all_hex_digits(s: Seq<char>) -> bool {
    forall|i: int| 0 <= i < s.len() ==> is_hex_digit(#[trigger] s[i])
}

/// The base-16 value of a digit sequence, most significant digit first.
pub open spec fn spec_hex_value(s: Seq<char>) -> int
    decreases s.len(),
{
    if s.len() == 0 {
        0
    } else {
        spec_hex_value(s.drop_last()) * 16 + spec_hex_digit_val(s.last())
    }
}

proof fn lemma_hex_value_nonneg(s: Seq<char>)
    requires
        all_hex_digits(s),
    ensures
        spec_hex_value(s) >= 0,
    decreases s.len(),
{
    if s.len() > 0 {
        assert(all_hex_digits(s.drop_last()));
        lemma_hex_value_nonneg(s.drop_last());
    }
}

proof fn lemma_hex_value_monotone(s: Seq<char>, k: int)
    requires
        all_hex_digits(s),
        0 <= k <= s.len(),
    ensures
        spec_hex_value(s) >= spec_hex_value(s.take(k)),
    decreases s.len() - k,
{
    if k < s.len() {
        assert(all_hex_digits(s.take(k))) by {
            assert(forall|i: int| 0 <= i < k ==> s.take(k)[i] == s[i]);
        }
        lemma_hex_value_nonneg(s.take(k));
        assert(s.take(k + 1).drop_last() =~= s.take(k));
        assert(s.take(k + 1).last() == s[k]);
        assert(spec_hex_value(s.take(k + 1)) >= spec_hex_value(s.take(k)));
        lemma_hex_value_monotone(s, k + 1);
        assert(s.take(s.len() as int) =~= s);
    } else {
        assert(s.take(k) =~= s);
    }
}

/// The codepoint a `unicode` attribute value names, if it names one.
pub open spec fn spec_codepoint(s: Seq<char>) -> Option<char> {
    let digits = if s.len() > 0 && s[0] == '+' {
        s.drop_first()
    } else {
        s
    };
    if digits.len() > 0 && all_hex_digits(digits) && spec_hex_value(digits) <= u32::MAX as int
        && is_scalar(spec_hex_value(digits) as u32) {
        Some((spec_hex_value(digits) as u32) as char)
    } else {
        None
    }
}

/// Relies on `char::from_u32`: `Some` exactly for Unicode scalar values -
/// at most 0x10FFFF and not a surrogate - and the character has the given
/// value.
#[verifier::external_body]
pub(crate) fn char_from_u32(v: u32) -> (r: Option<char>)
    ensures
        r is Some <==> is_scalar(v),
        r matches Some(c) ==> c as u32 == v,
{
    char::from_u32(v)
}

/// The numeric value of one base-16 digit character.
fn hex_digit_val(c: char) -> (r: Option<u8>)
    ensures
        r is Some <==> is_hex_digit(c),
        r matches Some(d) ==> d as int == spec_hex_digit_val(c),
{
    let u = c as u32;
    if '0' as u32 <= u && u <= '9' as u32 {
        Some((u - '0' as u32) as u8)
    } else if 'a' as u32 <= u && u <= 'f' as u32 {
        Some((u - 'a' as u32 + 10) as u8)
    } else if 'A' as u32 <= u && u <= 'F' as u32 {
        Some((u - 'A' as u32 + 10) as u8)
    } else {
        None
    }
}

/// Parses a base-16 codepoint, `None` for anything that does not name a
/// Unicode scalar value.
pub fn parse_codepoint(s: &str) -> (r: Option<char>)
    ensures
        r == spec_codepoint(s@),
{
    let cs = chars_of(s);
    let start: usize = if cs.len() > 0 && cs[0] == '+' {
        1
    } else {
        0
    };
    let ghost digits = if start == 1 {
        s@.drop_first()
    } else {
        s@
    };
    proof {
        assert(digits =~= s@.skip(start as int));
    }
    let n = cs.len();
    if n == start {
        return None;
    }
    let mut acc: u64 = 0;
    let mut i: usize = start;
    while i < n
        invariant
            start <= i <= n,
            n == cs@.len(),
            cs@ == s@,
            digits == s@.skip(start as int),
            digits == (if s@.len() > 0 && s@[0] == '+' {
                s@.drop_first()
            } else {
                s@
            }),
            n - start == digits.len(),
            all_hex_digits(digits.take((i - start) as int)),
            acc as int == spec_hex_value(digits.take((i - start) as int)),
            acc <= u32::MAX,
        decreases n - i,
    {
        let ghost k = (i - start) as int;
        proof {
            assert(digits[k] == s@[i as int]);
        }
        match hex_digit_val(cs[i]) {
            None => {
                proof {
                    assert(!is_hex_digit(digits[k]));
                }
                return None;
            },
            Some(d) => {
                proof {
                    assert(digits.take(k + 1).drop_last() =~= digits.take(k));
                    assert(digits.take(k + 1).last() == digits[k]);
                }
                acc = acc * 16 + d as u64;
                proof {
                    assert(acc as int == spec_hex_value(digits.take(k + 1)));
                }
                if acc > u32::MAX as u64 {
                    proof {
                        if all_hex_digits(digits) {
                            lemma_hex_value_monotone(digits, k + 1);
                            assert(spec_hex_value(digits) > u32::MAX as int);
                        }
                    }
                    return None;
                }
            },
        }
        i = i + 1;
    }
    proof {
        assert(digits.take((n - start) as int) =~= digits);
    }
    let r = char_from_u32(acc as u32);
    proof {
        if is_scalar(acc as u32) {
            let c = r->0;
            vstd::utf8::char_u32_cast(c, acc as u32);
            assert((spec_hex_value(digits) as u32) == acc as u32);
            assert(c == (spec_hex_value(digits) as u32) as char);
        }
    }
    r
}

// ---------------------------------------------------------------------------
// Alternative-name splitting.
//
// An `altNames` attribute holds names separated by commas; each piece is
// trimmed of surrounding blanks and empty pieces are dropped, in order.
// ---------------------------------------------------------------------------

/// Whether `c` counts as surrounding blank space around an alternative name.
pub open spec fn is_space(c: char) -> bool {
    c == ' ' || c == '\t' || c == '\n' || c == '\r'
}

/// `s` without its leading blanks.
pub open spec fn spec_trim_start(s: Seq<char>) -> Seq<char>
    decreases s.len(),
{
    if s.len() > 0 && is_space(s[0]) {
        spec_trim_start(s.drop_first())
    } else {
        s
    }
}

/// `s` without its trailing blanks.
pub open spec fn spec_trim_end(s: Seq<char>) -> Seq<char>
    decreases s.len(),
{
    if s.len() > 0 && is_space(s.last()) {
        spec_trim_end(s.drop_last())
    } else {
        s
    }
}

/// `s` without its surrounding blanks.
pub open spec fn spec_trim(s: Seq<char>) -> Seq<char> {
    spec_trim_end(spec_trim_start(s))
}

/// The comma-separated pieces of `s`, kept raw: one piece more than there
/// are commas, in order.
pub open spec fn spec_split_commas(s: Seq<char>) -> Seq<Seq<char>>
    decreases s.len(),
{
    if s.len() == 0 {
        seq![Seq::<char>::empty()]
    } else if s.last() == ',' {
        spec_split_commas(s.drop_last()).push(Seq::empty())
    } else {
        let p = spec_split_commas(s.drop_last());
        p.update(p.len() - 1, p.last().push(s.last()))
    }
}

proof fn lemma_split_commas_len(s: Seq<char>)
    ensures
        spec_split_commas(s).len() >= 1,
    decreases s.len(),
{
    if s.len() > 0 {
        lemma_split_commas_len(s.drop_last());
    }
}

/// The pieces, each trimmed, the empty ones dropped.
pub open spec fn spec_clean_pieces(ps: Seq<Seq<char>>) -> Seq<Seq<char>>
    decreases ps.len(),
{
    if ps.len() == 0 {
        Seq::empty()
    } else {
        let prev = spec_clean_pieces(ps.drop_last());
        let t = spec_trim(ps.last());
        if t.len() > 0 {
            prev.push(t)
        } else {
            prev
        }
    }
}

/// What an `altNames` attribute value contributes: its comma-separated
/// pieces, trimmed, the empty ones dropped, in order.
pub open spec fn spec_split_names(s: Seq<char>) -> Seq<Seq<char>> {
    spec_clean_pieces(spec_split_commas(s))
}

/// Whether `c` counts as surrounding blank space.
fn is_space_char(c: char) -> (b: bool)
    ensures
        b == is_space(c),
{
    c == ' ' || c == '\t' || c == '\n' || c == '\r'
}

/// The characters of `cs` without surrounding blanks.
fn trim_chars(cs: &Vec<char>) -> (t: Vec<char>)
    ensures
        t@ == spec_trim(cs@),
{
    let n = cs.len();
    proof {
        assert(cs@.skip(0) =~= cs@);
    }
    let mut lo: usize = 0;
    while lo < n && is_space_char(cs[lo])
        invariant
            0 <= lo <= n,
            n == cs@.len(),
            spec_trim_start(cs@) == spec_trim_start(cs@.skip(lo as int)),
        decreases n - lo,
    {
        proof {
            assert(cs@.skip(lo as int).drop_first() =~= cs@.skip(lo + 1 as int));
        }
        lo = lo + 1;
    }
    proof {
        if lo == n {
            assert(cs@.skip(lo as int) =~= Seq::<char>::empty());
        }
        assert(spec_trim_start(cs@) == cs@.skip(lo as int));
        assert(cs@.subrange(lo as int, n as int) =~= cs@.skip(lo as int));
    }
    let mut hi: usize = n;
    while hi > lo && is_space_char(cs[hi - 1])
        invariant
            lo <= hi <= n,
            n == cs@.len(),
            spec_trim_start(cs@) == cs@.skip(lo as int),
            spec_trim_end(cs@.skip(lo as int)) == spec_trim_end(
                cs@.subrange(lo as int, hi as int),
            ),
        decreases hi,
    {
        proof {
            assert(cs@.subrange(lo as int, hi as int).drop_last() =~= cs@.subrange(
                lo as int,
                hi - 1 as int,
            ));
        }
        hi = hi - 1;
    }
    proof {
        assert(spec_trim(cs@) == cs@.subrange(lo as int, hi as int));
    }
    let mut t: Vec<char> = Vec::new();
    let mut j: usize = lo;
    while j < hi
        invariant
            lo <= j <= hi <= n,
            n == cs@.len(),
            t@ == cs@.subrange(lo as int, j as int),
        decreases hi - j,
    {
        t.push(cs[j]);
        proof {
            assert(t@ =~= cs@.subrange(lo as int, j + 1 as int));
        }
        j = j + 1;
    }
    proof {
        assert(t@ == spec_trim(cs@));
    }
    t
}

/// Splits an `altNames` attribute value into its alternative names.
pub fn split_names(s: &str) -> (r: Vec<String>)
    ensures
        r.deep_view() == spec_split_names(s@),
{
    let cs = chars_of(s);
    let n = cs.len();
    let mut cleaned: Vec<String> = Vec::new();
    let mut cur: Vec<char> = Vec::new();
    let mut i: usize = 0;
    while i < n
        invariant
            0 <= i <= n,
            n == cs@.len(),
            cs@ == s@,
            spec_split_commas(s@.take(i as int)).len() >= 1,
            cur@ == spec_split_commas(s@.take(i as int)).last(),
            cleaned.deep_view() == spec_clean_pieces(
                spec_split_commas(s@.take(i as int)).drop_last(),
            ),
        decreases n - i,
    {
        let ghost sp = spec_split_commas(s@.take(i as int));
        proof {
            assert(s@.take(i + 1 as int).drop_last() =~= s@.take(i as int));
            assert(s@.take(i + 1 as int).last() == s@[i as int]);
            lemma_split_commas_len(s@.take(i + 1 as int));
        }
        let c = cs[i];
        if c == ',' {
            let ghost old_cleaned = cleaned.deep_view();
            let t = trim_chars(&cur);
            if t.len() > 0 {
                cleaned.push(string_from_chars(t.as_slice()));
                proof {
                    assert(cleaned.deep_view() =~= old_cleaned.push(spec_trim(cur@)));
                }
            }
            cur = Vec::new();
            proof {
                let sp2 = spec_split_commas(s@.take(i + 1 as int));
                assert(sp2 == sp.push(Seq::<char>::empty()));
                assert(sp2.drop_last() =~= sp);
                assert(sp.drop_last().push(sp.last()) =~= sp);
                assert(cleaned.deep_view() == spec_clean_pieces(sp));
            }
        } else {
            cur.push(c);
            proof {
                let sp2 = spec_split_commas(s@.take(i + 1 as int));
                assert(sp2 == sp.update(sp.len() - 1, sp.last().push(s@[i as int])));
                assert(sp2.drop_last() =~= sp.drop_last());
                assert(sp2.last() == cur@);
            }
        }
        i = i + 1;
    }
    proof {
        assert(s@.take(n as int) =~= s@);
    }
    let ghost sp = spec_split_commas(s@);
    let ghost old_cleaned = cleaned.deep_view();
    let t = trim_chars(&cur);
    if t.len() > 0 {
        cleaned.push(string_from_chars(t.as_slice()));
        proof {
            assert(cleaned.deep_view() =~= old_cleaned.push(spec_trim(cur@)));
        }
    }
    proof {
        lemma_split_commas_len(s@);
        assert(sp.drop_last().push(sp.last()) =~= sp);
        assert(cleaned.deep_view() == spec_clean_pieces(sp));
    }
    cleaned
}

// ---------------------------------------------------------------------------
// Element parsing.
//
// An element's attributes are applied in document order to a running state;
// at the end the state must name the glyph and give it a category. A later
// attribute overrides an earlier one of the same key, except that `name`
// values concatenate and `altNames` values accumulate.
// ---------------------------------------------------------------------------

/// The parser's running state over an element's attributes.
pub struct ElemState {
    pub name: Seq<char>,
    pub unicode: Option<char>,
    pub category: Option<Category>,
    pub sub_category: Option<SubCategory>,
    pub case: Option<Case>,
    pub script: Option<Script>,
    pub direction: Option<Direction>,
    pub description: Option<Seq<char>>,
    pub production_name: Option<Seq<char>>,
    pub alternative_names: Seq<Seq<char>>,
}

/// The state before any attribute: everything absent.
pub open spec fn init_elem_state() -> ElemState {
    ElemState {
        name: Seq::empty(),
        unicode: None,
        category: None,
        sub_category: None,
        case: None,
        script: None,
        direction: None,
        description: None,
        production_name: None,
        alternative_names: Seq::empty(),
    }
}

/// One attribute applied to the running state. A `unicode` value that names
/// no scalar leaves the state as it is; an unknown `category` spelling makes
/// the record invalid; an unknown spelling on any other classification axis
/// is a hard vocabulary error; unrecognized keys are ignored.
pub open spec fn spec_apply_attr(st: ElemState, key: Seq<char>, value: Seq<char>) -> Result<
    ElemState,
    ErrorView,
> {
    if key == "unicode"@ {
        Ok(
            ElemState {
                unicode: match spec_codepoint(value) {
                    Some(c) => Some(c),
                    None => st.unicode,
                },
                ..st
            },
        )
    } else if key == "name"@ {
        Ok(ElemState { name: st.name + value, ..st })
    } else if key == "category"@ {
        match Category::spec_parse(value) {
            Some(c) => Ok(ElemState { category: Some(c), ..st }),
            None => Err(ErrorView::InvalidRecord { reason: InvalidReason::UnknownCategory }),
        }
    } else if key == "subCategory"@ {
        match SubCategory::spec_parse(value) {
            Some(v) => Ok(ElemState { sub_category: Some(v), ..st }),
            None => Err(ErrorView::UnknownVocabularyValue { axis: Axis::SubCategory, value }),
        }
    } else if key == "case"@ {
        match Case::spec_parse(value) {
            Some(v) => Ok(ElemState { case: Some(v), ..st }),
            None => Err(ErrorView::UnknownVocabularyValue { axis: Axis::Case, value }),
        }
    } else if key == "script"@ {
        match Script::spec_parse(value) {
            Some(v) => Ok(ElemState { script: Some(v), ..st }),
            None => Err(ErrorView::UnknownVocabularyValue { axis: Axis::Script, value }),
        }
    } else if key == "direction"@ {
        match Direction::spec_parse(value) {
            Some(v) => Ok(ElemState { direction: Some(v), ..st }),
            None => Err(ErrorView::UnknownVocabularyValue { axis: Axis::Direction, value }),
        }
    } else if key == "description"@ {
        Ok(ElemState { description: Some(value), ..st })
    } else if key == "production"@ {
        Ok(ElemState { production_name: Some(value), ..st })
    } else if key == "altNames"@ {
        Ok(ElemState { alternative_names: st.alternative_names + spec_split_names(value), ..st })
    } else {
        Ok(st)
    }
}

/// All attributes applied in order; the first error wins.
pub open spec fn spec_fold_attrs(attrs: Seq<(Seq<char>, Seq<char>)>) -> Result<
    ElemState,
    ErrorView,
>
    decreases attrs.len(),
{
    if attrs.len() == 0 {
        Ok(init_elem_state())
    } else {
        match spec_fold_attrs(attrs.drop_last()) {
            Ok(st) => spec_apply_attr(st, attrs.last().0, attrs.last().1),
            Err(e) => Err(e),
        }
    }
}

proof fn lemma_fold_attrs_err_persists(attrs: Seq<(Seq<char>, Seq<char>)>, i: int)
    requires
        0 <= i <= attrs.len(),
        spec_fold_attrs(attrs.take(i)) is Err,
    ensures
        spec_fold_attrs(attrs) == spec_fold_attrs(attrs.take(i)),
    decreases attrs.len() - i,
{
    if i < attrs.len() {
        assert(attrs.take(i + 1).drop_last() =~= attrs.take(i));
        lemma_fold_attrs_err_persists(attrs, i + 1);
    } else {
        assert(attrs.take(i) =~= attrs);
    }
}

/// The validity gate over a folded state: a non-empty name and a category
/// are mandatory, and a non-empty description too when one is demanded.
pub open spec fn spec_finish_element(st: ElemState, require_description: bool) -> Result<
    XmlRecordView,
    ErrorView,
> {
    if st.name.len() == 0 {
        Err(ErrorView::InvalidRecord { reason: InvalidReason::MissingName })
    } else if st.category is None {
        Err(ErrorView::InvalidRecord { reason: InvalidReason::MissingCategory })
    } else if require_description && (st.description is None || st.description->0.len() == 0) {
        Err(ErrorView::InvalidRecord { reason: InvalidReason::MissingDescription })
    } else {
        Ok(
            XmlRecordView {
                unicode: st.unicode,
                name: st.name,
                category: st.category->0,
                sub_category: st.sub_category,
                case: st.case,
                script: st.script,
                direction: st.direction,
                description: st.description,
                production_name: st.production_name,
                alternative_names: st.alternative_names,
            },
        )
    }
}

/// What one element's attributes yield: a named record, or the first error.
pub open spec fn spec_parse_element(
    attrs: Seq<(Seq<char>, Seq<char>)>,
    require_description: bool,
) -> Result<XmlRecordView, ErrorView> {
    match spec_fold_attrs(attrs) {
        Ok(st) => spec_finish_element(st, require_description),
        Err(e) => Err(e),
    }
}

proof fn lemma_fold_without_category(attrs: Seq<(Seq<char>, Seq<char>)>)
    requires
        forall|i: int| 0 <= i < attrs.len() ==> (#[trigger] attrs[i]).0 != "category"@,
    ensures
        spec_fold_attrs(attrs) matches Ok(st) ==> st.category is None,
    decreases attrs.len(),
{
    if attrs.len() > 0 {
        assert(forall|i: int|
            0 <= i < attrs.len() - 1 ==> (#[trigger] attrs.drop_last()[i]) == attrs[i]);
        lemma_fold_without_category(attrs.drop_last());
        assert(attrs[attrs.len() - 1].0 != "category"@);
    }
}

/// An element without a `category` attribute never yields a record: its
/// parse is refused, and a refused element adds nothing to the store, so
/// it appears under no index.
pub proof fn lemma_missing_category_rejected(
    attrs: Seq<(Seq<char>, Seq<char>)>,
    require_description: bool,
)
    requires
        forall|i: int| 0 <= i < attrs.len() ==> (#[trigger] attrs[i]).0 != "category"@,
    ensures
        spec_parse_element(attrs, require_description) is Err,
{
    lemma_fold_without_category(attrs);
}

/// Parses one raw element into a named record, or refuses it with the
/// first error its attributes carry.
pub fn parse_glyph_element(attrs: &Vec<RawAttr>, require_description: bool) -> (r: Result<
    XmlRecord,
    IngestError,
>)
    ensures
        match r {
            Ok(x) => spec_parse_element(attrs_view(attrs@), require_description) == Ok::<
                XmlRecordView,
                ErrorView,
            >(x@),
            Err(e) => spec_parse_element(attrs_view(attrs@), require_description) == Err::<
                XmlRecordView,
                ErrorView,
            >(e@),
        },
{
    let ghost av = attrs_view(attrs@);
    let mut name = String::new();
    let mut unicode: Option<char> = None;
    let mut category: Option<Category> = None;
    let mut sub_category: Option<SubCategory> = None;
    let mut case: Option<Case> = None;
    let mut script: Option<Script> = None;
    let mut direction: Option<Direction> = None;
    let mut description: Option<String> = None;
    let mut production_name: Option<String> = None;
    let mut alternative_names: Vec<String> = Vec::new();
    let n = attrs.len();
    proof {
        assert(av.take(0) =~= Seq::<(Seq<char>, Seq<char>)>::empty());
        assert(alternative_names.deep_view() =~= Seq::<Seq<char>>::empty());
    }
    let mut i: usize = 0;
    while i < n
        invariant
            0 <= i <= n,
            n == attrs@.len(),
            av == attrs_view(attrs@),
            spec_fold_attrs(av.take(i as int)) == Ok::<ElemState, ErrorView>(
                ElemState {
                    name: name@,
                    unicode: unicode,
                    category: category,
                    sub_category: sub_category,
                    case: case,
                    script: script,
                    direction: direction,
                    description: description.deep_view(),
                    production_name: production_name.deep_view(),
                    alternative_names: alternative_names.deep_view(),
                },
            ),
        decreases n - i,
    {
        proof {
            assert(av.take(i + 1 as int).drop_last() =~= av.take(i as int));
            assert(av.take(i + 1 as int).last() == av[i as int]);
        }
        let ghost st = spec_fold_attrs(av.take(i as int))->Ok_0;
        let a = &attrs[i];
        let key = a.key.as_str();
        let value = a.value.as_str();
        if str_eq(key, "unicode") {
            match parse_codepoint(value) {
                Some(c) => {
                    unicode = Some(c);
                },
                None => {},
            }
        } else if str_eq(key, "name") {
            name.append(value);
        } else if str_eq(key, "category") {
            match Category::parse(value) {
                Some(c) => {
                    category = Some(c);
                },
                None => {
                    proof {
                        lemma_fold_attrs_err_persists(av, i + 1);
                    }
                    return Err(IngestError::InvalidRecord { reason: InvalidReason::UnknownCategory });
                },
            }
        } else if str_eq(key, "subCategory") {
            match SubCategory::parse(value) {
                Some(v) => {
                    sub_category = Some(v);
                },
                None => {
                    proof {
                        lemma_fold_attrs_err_persists(av, i + 1);
                    }
                    return Err(
                        IngestError::UnknownVocabularyValue {
                            axis: Axis::SubCategory,
                            value: a.value.clone(),
                        },
                    );
                },
            }
        } else if str_eq(key, "case") {
            match Case::parse(value) {
                Some(v) => {
                    case = Some(v);
                },
                None => {
                    proof {
                        lemma_fold_attrs_err_persists(av, i + 1);
                    }
                    return Err(
                        IngestError::UnknownVocabularyValue {
                            axis: Axis::Case,
                            value: a.value.clone(),
                        },
                    );
                },
            }
        } else if str_eq(key, "script") {
            match Script::parse(value) {
                Some(v) => {
                    script = Some(v);
                },
                None => {
                    proof {
                        lemma_fold_attrs_err_persists(av, i + 1);
                    }
                    return Err(
                        IngestError::UnknownVocabularyValue {
                            axis: Axis::Script,
                            value: a.value.clone(),
                        },
                    );
                },
            }
        } else if str_eq(key, "direction") {
            match Direction::parse(value) {
                Some(v) => {
                    direction = Some(v);
                },
                None => {
                    proof {
                        lemma_fold_attrs_err_persists(av, i + 1);
                    }
                    return Err(
                        IngestError::UnknownVocabularyValue {
                            axis: Axis::Direction,
                            value: a.value.clone(),
                        },
                    );
                },
            }
        } else if str_eq(key, "description") {
            description = Some(a.value.clone());
        } else if str_eq(key, "production") {
            production_name = Some(a.value.clone());
        } else if str_eq(key, "altNames") {
            let ghost old_names = alternative_names.deep_view();
            let mut pieces = split_names(value);
            alternative_names.append(&mut pieces);
            proof {
                assert(alternative_names.deep_view() =~= old_names + spec_split_names(value@));
            }
        }
        i = i + 1;
    }
    proof {
        assert(av.take(n as int) =~= av);
    }
    if name.as_str().is_empty() {
        return Err(IngestError::InvalidRecord { reason: InvalidReason::MissingName });
    }
    let category = match category {
        Some(c) => c,
        None => {
            return Err(IngestError::InvalidRecord { reason: InvalidReason::MissingCategory });
        },
    };
    if require_description {
        let empty_desc = match &description {
            Some(d) => d.as_str().is_empty(),
            None => true,
        };
        if empty_desc {
            return Err(IngestError::InvalidRecord { reason: InvalidReason::MissingDescription });
        }
    }
    Ok(
        XmlRecord {
            unicode,
            name,
            category,
            sub_category,
            case,
            script,
            direction,
            description,
            production_name,
            alternative_names,
        },
    )
}

} // verus!
