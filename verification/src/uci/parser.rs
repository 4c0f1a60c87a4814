//! Readers for what an engine writes, and for the time control that the user
//! gives.

use crate::decimal::{
    all_digits, char_is_digit, decimal_digits, decimal_i64, decimal_u16, decimal_u64, digit_value,
    digits_value, is_digit, parse_decimal, parse_i64, parse_u16, parse_u64, push_decimal,
};
use crate::text::{
    chars_of, find_char, index_of, join_spans, join_words, lemma_index_of_bounds, same_text, span_is,
    span_string, spans_text, spans_valid, split_words, words, Span,
};
use crate::uci::{
    caused_error, number_error_string, number_error_text, parse_error, root_error, texts, UciError,
    UciErrorKind, UciErrorView, UciInfo, UciInfoView, UciOption, UciOptionType, UciOptionTypeView,
    UciOptionView,
};
use vstd::prelude::*;

verus! {

/// The value of the decimal at position `i` behind the point, 0 where there
/// is none.
pub open spec fn fraction_digit(frac: Seq<char>, i: int) -> nat {
    if 0 <= i < frac.len() {
        digit_value(frac[i])
    } else {
        0
    }
}

/// The thousandths that the digits behind a decimal point come to, rounded to
/// the nearest whole: the first three digits, and one more where the fourth
/// is 5 or above.
pub open spec fn fraction_millis(frac: Seq<char>) -> nat {
    fraction_digit(frac, 0) * 100 + fraction_digit(frac, 1) * 10 + fraction_digit(frac, 2) + if fraction_digit(
        frac,
        3,
    ) >= 5 {
        1nat
    } else {
        0nat
    }
}

/// The milliseconds that a number of seconds comes to. The seconds are written
/// in decimal, as digits with at most one point among them and at least one
/// digit in all; no sign, no exponent.
pub open spec fn seconds_to_millis(s: Seq<char>) -> Option<nat> {
    let dot = index_of(s, '.');
    let whole = s.take(dot);
    let frac = if dot < s.len() {
        s.skip(dot + 1)
    } else {
        Seq::empty()
    };
    if all_digits(whole) && all_digits(frac) && whole.len() + frac.len() > 0 {
        Some(digits_value(whole) * 1000 + fraction_millis(frac))
    } else {
        None
    }
}

/// A number of milliseconds as a `u64`, the largest `u64` standing for all
/// that are above it.
pub open spec fn saturated(ms: nat) -> u64 {
    if ms > u64::MAX {
        u64::MAX
    } else {
        ms as u64
    }
}

/// The base time and the increment of a time control `T` or `T+I`, in
/// milliseconds. What follows a second `+` is not read.
pub open spec fn time_control(input: Seq<char>) -> Option<(u64, u64)> {
    let plus = index_of(input, '+');
    let time = seconds_to_millis(input.take(plus));
    if plus == input.len() {
        match time {
            Some(t) => Some((saturated(t), 0u64)),
            None => None,
        }
    } else {
        let rest = input.skip(plus + 1);
        let inc = seconds_to_millis(rest.take(index_of(rest, '+')));
        match (time, inc) {
            (Some(t), Some(i)) => Some((saturated(t), saturated(i))),
            _ => None,
        }
    }
}

pub open spec fn time_control_error(input: Seq<char>) -> Seq<char> {
    "Couldn't parse tc \""@ + input + "\""@
}

fn fraction_digit_at(chars: &Vec<char>, start: usize, end: usize, i: usize) -> (d: u64)
    requires
        start <= end <= chars@.len(),
        all_digits(chars@.subrange(start as int, end as int)),
        i < 4,
    ensures
        d == fraction_digit(chars@.subrange(start as int, end as int), i as int),
        d <= 9,
{
    if i < end - start {
        let c = chars[start + i];
        assert(chars@.subrange(start as int, end as int)[i as int] == c);
        (c as u32 - 0x30) as u64
    } else {
        0
    }
}

fn all_digits_in(chars: &Vec<char>, start: usize, end: usize) -> (b: bool)
    requires
        start <= end <= chars@.len(),
    ensures
        b == all_digits(chars@.subrange(start as int, end as int)),
{
    let ghost sub = chars@.subrange(start as int, end as int);
    let mut k = start;
    while k < end
        invariant
            start <= k <= end <= chars@.len(),
            sub == chars@.subrange(start as int, end as int),
            forall|j: int| 0 <= j < k - start ==> is_digit(#[trigger] sub[j]),
        decreases end - k,
    {
        assert(sub[k - start] == chars@[k as int]);
        if !char_is_digit(chars[k]) {
            return false;
        }
        k += 1;
    }
    true
}

/// Reads the seconds at `chars[start..end]`, which hold no `+`.
fn parse_seconds(chars: &Vec<char>, start: usize, end: usize) -> (r: Option<u64>)
    requires
        start <= end <= chars@.len(),
        forall|j: int| start <= j < end ==> chars@[j] != '+',
    ensures
        match seconds_to_millis(chars@.subrange(start as int, end as int)) {
            Some(ms) => r == Some(saturated(ms)),
            None => r is None,
        },
{
    let ghost s = chars@.subrange(start as int, end as int);
    let dot = find_char(chars, start, end, '.');
    let ghost whole = s.take(dot - start);
    assert(whole == chars@.subrange(start as int, dot as int));
    let frac_start = if dot < end {
        dot + 1
    } else {
        end
    };
    let ghost frac = if dot - start < s.len() {
        s.skip(dot - start + 1)
    } else {
        Seq::empty()
    };
    assert(frac == chars@.subrange(frac_start as int, end as int));
    if !all_digits_in(chars, start, dot) || !all_digits_in(chars, frac_start, end) {
        return None;
    }
    if dot - start + (end - frac_start) == 0 {
        return None;
    }
    let f: u64 = fraction_digit_at(chars, frac_start, end, 0) * 100 + fraction_digit_at(
        chars,
        frac_start,
        end,
        1,
    ) * 10 + fraction_digit_at(chars, frac_start, end, 2) + if fraction_digit_at(
        chars,
        frac_start,
        end,
        3,
    ) >= 5 {
        1
    } else {
        0
    };
    assert(f == fraction_millis(frac));
    if dot == start {
        assert(digits_value(whole) == 0);
        return Some(f);
    }
    assert(whole[0] == chars@[start as int]);
    match parse_decimal(chars, start, dot, 0, 0x1_0000_0000_0000_0000) {
        Ok(v) => {
            let total: u128 = (v as u128) * 1000 + f as u128;
            if total > u64::MAX as u128 {
                Some(u64::MAX)
            } else {
                Some(total as u64)
            }
        },
        Err(_) => Some(u64::MAX),
    }
}

/// Reads a time control, `T` or `T+I` with both in seconds, into the base
/// time and the increment in milliseconds.
pub fn parse_tc(input: &str) -> (r: Result<(u64, u64), UciError>)
    ensures
        match time_control(input@) {
            Some(tc) => r == Ok::<(u64, u64), UciError>(tc),
            None => r matches Err(e) && e@ == parse_error(time_control_error(input@)),
        },
{
    let chars = chars_of(input);
    let n = chars.len();
    assert(chars@.subrange(0, n as int) == input@);
    let plus = find_char(&chars, 0, n, '+');
    proof {
        lemma_index_of_bounds(input@, '+');
        assert(chars@.subrange(0, plus as int) == input@.take(plus as int));
    }
    let time = parse_seconds(&chars, 0, plus);
    let inc = if plus == n {
        Some(0u64)
    } else {
        let ghost rest = input@.skip(plus + 1);
        assert(rest == chars@.subrange(plus + 1, n as int));
        let plus2 = find_char(&chars, plus + 1, n, '+');
        proof {
            lemma_index_of_bounds(rest, '+');
            assert(chars@.subrange(plus + 1, plus2 as int) == rest.take(plus2 - plus - 1));
            assert forall|j: int| plus + 1 <= j < plus2 implies chars@[j] != '+' by {
                assert(rest[j - plus - 1] == chars@[j]);
            }
        }
        parse_seconds(&chars, plus + 1, plus2)
    };
    match (time, inc) {
        (Some(t), Some(i)) => Ok((t, i)),
        _ => {
            let mut desc = String::from_str("Couldn't parse tc \"");
            desc.append(input);
            desc.append("\"");
            Err(UciError::new_parse_error(desc))
        },
    }
}

/// The words that divide an option declaration into its parts.
#[derive(Debug, Clone, Copy, PartialEq, Eq, Structural)]
pub enum OptionKeyword {
    Name,
    Type,
    Default,
    Min,
    Max,
    Var,
}

pub open spec fn keyword_of(w: Seq<char>) -> Option<OptionKeyword> {
    if w == "name"@ {
        Some(OptionKeyword::Name)
    } else if w == "type"@ {
        Some(OptionKeyword::Type)
    } else if w == "default"@ {
        Some(OptionKeyword::Default)
    } else if w == "min"@ {
        Some(OptionKeyword::Min)
    } else if w == "max"@ {
        Some(OptionKeyword::Max)
    } else if w == "var"@ {
        Some(OptionKeyword::Var)
    } else {
        None
    }
}

/// The parts of an option declaration: the words that follow each keyword.
/// Each `var` opens a list of its own.
pub ghost struct OptionFields {
    /// The keyword that was read last.
    pub state: Option<OptionKeyword>,
    pub name: Seq<Seq<char>>,
    pub kind: Seq<Seq<char>>,
    pub default: Seq<Seq<char>>,
    pub min: Seq<Seq<char>>,
    pub max: Seq<Seq<char>>,
    pub vars: Seq<Seq<Seq<char>>>,
    /// The first word that stands before any keyword, where there is one.
    /// Nothing is read behind it.
    pub stray: Option<Seq<char>>,
}

pub open spec fn no_fields() -> OptionFields {
    OptionFields {
        state: None,
        name: Seq::empty(),
        kind: Seq::empty(),
        default: Seq::empty(),
        min: Seq::empty(),
        max: Seq::empty(),
        vars: Seq::empty(),
        stray: None,
    }
}

/// The parts after one more word.
pub open spec fn fields_with(f: OptionFields, w: Seq<char>) -> OptionFields {
    if f.stray is Some {
        f
    } else {
        match keyword_of(w) {
            Some(k) => OptionFields {
                state: Some(k),
                vars: if k == OptionKeyword::Var {
                    f.vars.push(Seq::empty())
                } else {
                    f.vars
                },
                ..f
            },
            None => match f.state {
                None => OptionFields { stray: Some(w), ..f },
                Some(OptionKeyword::Name) => OptionFields { name: f.name.push(w), ..f },
                Some(OptionKeyword::Type) => OptionFields { kind: f.kind.push(w), ..f },
                Some(OptionKeyword::Default) => OptionFields { default: f.default.push(w), ..f },
                Some(OptionKeyword::Min) => OptionFields { min: f.min.push(w), ..f },
                Some(OptionKeyword::Max) => OptionFields { max: f.max.push(w), ..f },
                Some(OptionKeyword::Var) => OptionFields {
                    vars: f.vars.drop_last().push(f.vars.last().push(w)),
                    ..f
                },
            },
        }
    }
}

/// The parts of a declaration whose words, behind `option`, are `ws`.
pub open spec fn fields_of(ws: Seq<Seq<char>>) -> OptionFields
    decreases ws.len(),
{
    if ws.len() == 0 {
        no_fields()
    } else {
        fields_with(fields_of(ws.drop_last()), ws.last())
    }
}

pub proof fn lemma_stray_stays(ws: Seq<Seq<char>>, k: int)
    requires
        0 <= k <= ws.len(),
        fields_of(ws.take(k)).stray is Some,
    ensures
        fields_of(ws) == fields_of(ws.take(k)),
    decreases ws.len() - k,
{
    if k == ws.len() {
        assert(ws.take(k) == ws);
    } else {
        assert(ws.take(k + 1).drop_last() == ws.take(k));
        lemma_stray_stays(ws, k + 1);
    }
}

pub open spec fn default_error_text(name: Seq<char>) -> Seq<char> {
    "Couldn't parse default for option \""@ + name + "\""@
}

/// The number that the words of a spin's part denote.
pub open spec fn spin_number(name: Seq<char>, ws: Seq<Seq<char>>) -> Result<i64, UciErrorView> {
    match decimal_i64(join_words(ws)) {
        Ok(v) => Ok(v as i64),
        Err(e) => Err(
            caused_error(UciErrorKind::ParseError, default_error_text(name), number_error_text(e)),
        ),
    }
}

/// The words of each `var`, joined.
pub open spec fn joined_vars(vars: Seq<Seq<Seq<char>>>) -> Seq<Seq<char>> {
    Seq::new(vars.len(), |i: int| join_words(vars[i]))
}

/// The type and value of an option named `name`, from the parts of its
/// declaration, which hold one word for the type.
pub open spec fn option_type_of(name: Seq<char>, f: OptionFields) -> Result<
    UciOptionTypeView,
    UciErrorView,
> {
    let kind = f.kind[0];
    let default = join_words(f.default);
    if kind == "check"@ {
        if default == "true"@ {
            Ok(UciOptionTypeView::Check(true))
        } else if default == "false"@ {
            Ok(UciOptionTypeView::Check(false))
        } else {
            Err(
                caused_error(
                    UciErrorKind::ParseError,
                    default_error_text(name),
                    "provided string was not `true` or `false`"@,
                ),
            )
        }
    } else if kind == "spin"@ {
        match spin_number(name, f.default) {
            Err(e) => Err(e),
            Ok(value) => match spin_number(name, f.min) {
                Err(e) => Err(e),
                Ok(min) => match spin_number(name, f.max) {
                    Err(e) => Err(e),
                    Ok(max) => Ok(UciOptionTypeView::Spin(value, min, max)),
                },
            },
        }
    } else if kind == "combo"@ {
        Ok(UciOptionTypeView::Combo(default, joined_vars(f.vars)))
    } else if kind == "button"@ {
        Ok(UciOptionTypeView::Button)
    } else if kind == "string"@ {
        if f.default.len() > 1 && f.default.contains("<empty>"@) {
            Err(
                parse_error(
                    "Wrong default value "@ + default + " for "@ + name
                        + ". Cannot both be empty and non-empty"@,
                ),
            )
        } else if f.default == seq!["<empty>"@] {
            Ok(UciOptionTypeView::String(Seq::empty()))
        } else {
            Ok(UciOptionTypeView::String(default))
        }
    } else {
        Err(parse_error("Option "@ + name + " has invalid type "@ + kind))
    }
}

/// What the declaration of an option says: `option name N type T` followed by
/// `default`, `min`, `max` and `var` parts as the type has them. A name may
/// hold several words.
pub open spec fn option_of(input: Seq<char>) -> Result<UciOptionView, UciErrorView> {
    let f = fields_of(words(input).skip(1));
    let name = join_words(f.name);
    if f.stray is Some {
        Err(
            parse_error(
                "Invalid start of option description. Expected \"name\", got \""@ + f.stray->0
                    + "\""@,
            ),
        )
    } else if f.name.len() == 0 {
        Err(
            root_error(
                UciErrorKind::InvalidOption,
                "Got option string without a name \""@ + input + "\""@,
            ),
        )
    } else if f.kind.len() != 1 {
        Err(
            root_error(
                UciErrorKind::InvalidOption,
                "Expected 1 type for option \""@ + name + "\", got "@ + decimal_digits(
                    f.kind.len(),
                ),
            ),
        )
    } else {
        match option_type_of(name, f) {
            Ok(t) => Ok(UciOptionView { name, option_type: t }),
            Err(e) => Err(e),
        }
    }
}

fn keyword_at(chars: &Vec<char>, span: Span) -> (k: Option<OptionKeyword>)
    requires
        span.start <= span.end <= chars@.len(),
    ensures
        k == keyword_of(chars@.subrange(span.start as int, span.end as int)),
{
    if span_is(chars, span, "name") {
        Some(OptionKeyword::Name)
    } else if span_is(chars, span, "type") {
        Some(OptionKeyword::Type)
    } else if span_is(chars, span, "default") {
        Some(OptionKeyword::Default)
    } else if span_is(chars, span, "min") {
        Some(OptionKeyword::Min)
    } else if span_is(chars, span, "max") {
        Some(OptionKeyword::Max)
    } else if span_is(chars, span, "var") {
        Some(OptionKeyword::Var)
    } else {
        None
    }
}

/// The texts of the spans of each list.
pub open spec fn lists_text(s: Seq<char>, lists: Seq<Vec<Span>>) -> Seq<Seq<Seq<char>>> {
    Seq::new(lists.len(), |i: int| spans_text(s, lists[i]@))
}

pub open spec fn lists_valid(lists: Seq<Vec<Span>>, len: nat) -> bool {
    forall|i: int| 0 <= i < lists.len() ==> spans_valid((#[trigger] lists[i])@, len)
}

fn default_error(name: &String) -> (s: String)
    ensures
        s@ == default_error_text(name@),
{
    let mut desc = String::from_str("Couldn't parse default for option \"");
    desc.append(name.as_str());
    desc.append("\"");
    desc
}

fn parse_spin_number(line: &str, name: &String, spans: &Vec<Span>) -> (r: Result<i64, UciError>)
    requires
        spans_valid(spans@, line@.len()),
    ensures
        match spin_number(name@, spans_text(line@, spans@)) {
            Ok(v) => r == Ok::<i64, UciError>(v),
            Err(e) => r matches Err(x) && x@ == e,
        },
{
    let joined = join_spans(line, spans);
    let chars = chars_of(joined.as_str());
    assert(chars@.subrange(0, chars@.len() as int) == joined@);
    match parse_i64(&chars, 0, chars.len()) {
        Ok(v) => Ok(v),
        Err(e) => Err(
            UciError::new_caused_by(
                UciErrorKind::ParseError,
                default_error(name),
                number_error_string(e),
            ),
        ),
    }
}

fn contains_text(line: &Vec<char>, spans: &Vec<Span>, text: &str) -> (b: bool)
    requires
        spans_valid(spans@, line@.len()),
    ensures
        b == spans_text(line@, spans@).contains(text@),
{
    let ghost ws = spans_text(line@, spans@);
    let mut i: usize = 0;
    while i < spans.len()
        invariant
            i <= spans.len(),
            spans_valid(spans@, line@.len()),
            ws == spans_text(line@, spans@),
            forall|j: int| 0 <= j < i ==> ws[j] != text@,
        decreases spans.len() - i,
    {
        if span_is(line, spans[i], text) {
            assert(ws[i as int] == text@);
            return true;
        }
        i += 1;
    }
    false
}

#[verifier::loop_isolation(false)]
fn joined_lists(line: &str, lists: &Vec<Vec<Span>>) -> (v: Vec<String>)
    requires
        lists_valid(lists@, line@.len()),
    ensures
        texts(v@) == joined_vars(lists_text(line@, lists@)),
{
    let mut v: Vec<String> = Vec::new();
    let mut i: usize = 0;
    while i < lists.len()
        invariant
            i <= lists.len(),
            v@.len() == i,
            forall|j: int| 0 <= j < i ==> v@[j]@ == join_words(spans_text(line@, lists@[j]@)),
        decreases lists.len() - i,
    {
        v.push(join_spans(line, &lists[i]));
        i += 1;
    }
    assert(texts(v@) =~= joined_vars(lists_text(line@, lists@)));
    v
}

/// Reads the declaration of an option.
#[verifier::loop_isolation(false)]
#[verifier::rlimit(40)]
pub fn parse_option(input: &str) -> (r: Result<UciOption, UciError>)
    requires
        words(input@).len() > 0,
        words(input@)[0] == "option"@,
    ensures
        match option_of(input@) {
            Ok(o) => r matches Ok(x) && x@ == o,
            Err(e) => r matches Err(x) && x@ == e,
        },
{
    let chars = chars_of(input);
    let spans = split_words(&chars);
    let ghost all = words(input@);
    let ghost ws = all.skip(1);
    let n = spans.len();
    let ghost len = input@.len();

    let mut state: Option<OptionKeyword> = None;
    let mut name: Vec<Span> = Vec::new();
    let mut kind: Vec<Span> = Vec::new();
    let mut default: Vec<Span> = Vec::new();
    let mut min: Vec<Span> = Vec::new();
    let mut max: Vec<Span> = Vec::new();
    let mut vars: Vec<Vec<Span>> = Vec::new();

    let mut i: usize = 1;
    assert(ws.take(0) == Seq::<Seq<char>>::empty());
    while i < n
        invariant
            1 <= i <= n,
            n == all.len(),
            spans_valid(name@, len),
            spans_valid(kind@, len),
            spans_valid(default@, len),
            spans_valid(min@, len),
            spans_valid(max@, len),
            lists_valid(vars@, len),
            fields_of(ws.take(i - 1)).state == state,
            fields_of(ws.take(i - 1)).name == spans_text(input@, name@),
            fields_of(ws.take(i - 1)).kind == spans_text(input@, kind@),
            fields_of(ws.take(i - 1)).default == spans_text(input@, default@),
            fields_of(ws.take(i - 1)).min == spans_text(input@, min@),
            fields_of(ws.take(i - 1)).max == spans_text(input@, max@),
            fields_of(ws.take(i - 1)).vars == lists_text(input@, vars@),
            fields_of(ws.take(i - 1)).stray is None,
            state == Some(OptionKeyword::Var) ==> vars@.len() > 0,
        decreases n - i,
    {
        let span = spans[i];
        let ghost w = input@.subrange(span.start as int, span.end as int);
        let ghost before = fields_of(ws.take(i - 1));
        proof {
            assert(all[i as int] == w);
            assert(ws.take(i as int).drop_last() == ws.take(i - 1));
            assert(ws.take(i as int).last() == w);
            assert(fields_of(ws.take(i as int)) == fields_with(before, w));
        }
        match keyword_at(&chars, span) {
            Some(k) => {
                state = Some(k);
                if k == OptionKeyword::Var {
                    vars.push(Vec::new());
                    assert(lists_text(input@, vars@) =~~= before.vars.push(Seq::empty()));
                }
            },
            None => {
                match state {
                    None => {
                        proof {
                            lemma_stray_stays(ws, i as int);
                        }
                        let mut desc = String::from_str(
                            "Invalid start of option description. Expected \"name\", got \"",
                        );
                        desc.append(span_string(input, span).as_str());
                        desc.append("\"");
                        return Err(UciError::new_parse_error(desc));
                    },
                    Some(OptionKeyword::Name) => {
                        name.push(span);
                        assert(spans_text(input@, name@) == before.name.push(w));
                    },
                    Some(OptionKeyword::Type) => {
                        kind.push(span);
                        assert(spans_text(input@, kind@) == before.kind.push(w));
                    },
                    Some(OptionKeyword::Default) => {
                        default.push(span);
                        assert(spans_text(input@, default@) == before.default.push(w));
                    },
                    Some(OptionKeyword::Min) => {
                        min.push(span);
                        assert(spans_text(input@, min@) == before.min.push(w));
                    },
                    Some(OptionKeyword::Max) => {
                        max.push(span);
                        assert(spans_text(input@, max@) == before.max.push(w));
                    },
                    Some(OptionKeyword::Var) => {
                        let ghost old_vars = vars@;
                        let mut last = vars.pop().unwrap();
                        let ghost old_last = last@;
                        last.push(span);
                        assert(spans_text(input@, last@) == spans_text(input@, old_last).push(w));
                        vars.push(last);
                        assert(lists_text(input@, vars@) =~~= before.vars.drop_last().push(
                            before.vars.last().push(w),
                        ));
                    },
                }
            },
        }
        i += 1;
    }
    assert(ws.take(n - 1) == ws);
    let ghost f = fields_of(ws);

    if name.len() == 0 {
        let mut desc = String::from_str("Got option string without a name \"");
        desc.append(input);
        desc.append("\"");
        return Err(UciError::new_root(UciErrorKind::InvalidOption, desc));
    }
    let name = join_spans(input, &name);

    if kind.len() != 1 {
        let mut desc = String::from_str("Expected 1 type for option \"");
        desc.append(name.as_str());
        desc.append("\", got ");
        push_decimal(&mut desc, kind.len() as u128);
        return Err(UciError::new_root(UciErrorKind::InvalidOption, desc));
    }
    let kind_span = kind[0];
    assert(f.kind[0] == chars@.subrange(kind_span.start as int, kind_span.end as int));
    let option_type = if span_is(&chars, kind_span, "check") {
        let joined = join_spans(input, &default);
        if same_text(joined.as_str(), "true") {
            UciOptionType::Check(true)
        } else if same_text(joined.as_str(), "false") {
            UciOptionType::Check(false)
        } else {
            return Err(
                UciError::new_caused_by(
                    UciErrorKind::ParseError,
                    default_error(&name),
                    String::from_str("provided string was not `true` or `false`"),
                ),
            );
        }
    } else if span_is(&chars, kind_span, "spin") {
        let value = match parse_spin_number(input, &name, &default) {
            Ok(v) => v,
            Err(e) => {
                return Err(e);
            },
        };
        let lowest = match parse_spin_number(input, &name, &min) {
            Ok(v) => v,
            Err(e) => {
                return Err(e);
            },
        };
        let highest = match parse_spin_number(input, &name, &max) {
            Ok(v) => v,
            Err(e) => {
                return Err(e);
            },
        };
        UciOptionType::Spin(value, lowest, highest)
    } else if span_is(&chars, kind_span, "combo") {
        UciOptionType::Combo(join_spans(input, &default), joined_lists(input, &vars))
    } else if span_is(&chars, kind_span, "button") {
        UciOptionType::Button
    } else if span_is(&chars, kind_span, "string") {
        if default.len() > 1 && contains_text(&chars, &default, "<empty>") {
            let mut desc = String::from_str("Wrong default value ");
            desc.append(join_spans(input, &default).as_str());
            desc.append(" for ");
            desc.append(name.as_str());
            desc.append(". Cannot both be empty and non-empty");
            return Err(UciError::new_parse_error(desc));
        }
        if default.len() == 1 && span_is(&chars, default[0], "<empty>") {
            assert(f.default =~= seq!["<empty>"@]);
            UciOptionType::String(String::new())
        } else {
            assert(f.default != seq!["<empty>"@]) by {
                if f.default == seq!["<empty>"@] {
                    assert(f.default.len() == 1);
                    assert(f.default[0] == "<empty>"@);
                }
            }
            UciOptionType::String(join_spans(input, &default))
        }
    } else {
        let mut desc = String::from_str("Option ");
        desc.append(name.as_str());
        desc.append(" has invalid type ");
        desc.append(span_string(input, kind_span).as_str());
        return Err(UciError::new_parse_error(desc));
    };
    Ok(UciOption { name, option_type })
}

/// The words that start a part of an info line, and so end the list of
/// moves behind `pv`.
pub open spec fn is_info_keyword(w: Seq<char>) -> bool {
    ||| w == "depth"@
    ||| w == "seldepth"@
    ||| w == "nodes"@
    ||| w == "score"@
    ||| w == "time"@
    ||| w == "nps"@
    ||| w == "pv"@
    ||| w == "multipv"@
    ||| w == "currmove"@
    ||| w == "currmovenumber"@
    ||| w == "hashfull"@
    ||| w == "tbhits"@
    ||| w == "cpuload"@
    ||| w == "string"@
    ||| w == "refutation"@
    ||| w == "currline"@
}

/// What the reader of an info line awaits next.
#[derive(Debug, Clone, Copy, PartialEq, Eq, Structural)]
pub enum InfoExpect {
    /// A keyword; any other word is passed over.
    Keyword,
    /// The word `cp`, behind `score`.
    Cp,
    /// The score, behind `score cp`.
    Score,
    /// A move of the principal variation, or the keyword that ends it.
    Pv,
    Depth,
    SelDepth,
    Time,
    Nodes,
    Nps,
}

/// What has been read of an info line.
pub ghost struct InfoState {
    pub expect: InfoExpect,
    pub depth: u16,
    pub seldepth: u16,
    pub time: i64,
    pub nodes: u64,
    pub nps: u64,
    pub cp_score: Option<i64>,
    pub pv: Seq<Seq<char>>,
    /// The first error, where there is one. Nothing is read behind it.
    pub error: Option<UciErrorView>,
}

pub open spec fn info_start() -> InfoState {
    InfoState {
        expect: InfoExpect::Keyword,
        depth: 0,
        seldepth: 0,
        time: 0,
        nodes: 0,
        nps: 0,
        cp_score: None,
        pv: Seq::empty(),
        error: None,
    }
}

pub open spec fn info_failed(st: InfoState, e: UciErrorView) -> InfoState {
    InfoState { error: Some(e), ..st }
}

pub open spec fn number_failure(desc: Seq<char>, e: crate::decimal::NumberError) -> UciErrorView {
    caused_error(UciErrorKind::ParseError, desc, number_error_text(e))
}

/// The state after a word that stands where a keyword may stand.
pub open spec fn info_with_keyword(st: InfoState, w: Seq<char>) -> InfoState {
    if w == "score"@ {
        InfoState { expect: InfoExpect::Cp, ..st }
    } else if w == "pv"@ {
        if st.pv.len() > 0 {
            info_failed(st, parse_error("Received multiple PVs"@))
        } else {
            InfoState { expect: InfoExpect::Pv, ..st }
        }
    } else if w == "depth"@ {
        InfoState { expect: InfoExpect::Depth, ..st }
    } else if w == "seldepth"@ {
        InfoState { expect: InfoExpect::SelDepth, ..st }
    } else if w == "time"@ {
        InfoState { expect: InfoExpect::Time, ..st }
    } else if w == "nodes"@ {
        InfoState { expect: InfoExpect::Nodes, ..st }
    } else if w == "nps"@ {
        InfoState { expect: InfoExpect::Nps, ..st }
    } else {
        InfoState { expect: InfoExpect::Keyword, ..st }
    }
}

/// The state after one more word.
pub open spec fn info_with(st: InfoState, w: Seq<char>) -> InfoState {
    if st.error is Some {
        st
    } else {
        match st.expect {
            InfoExpect::Keyword => info_with_keyword(st, w),
            InfoExpect::Cp => if w == "cp"@ {
                InfoState { expect: InfoExpect::Score, ..st }
            } else {
                info_failed(st, parse_error("Invalid score"@))
            },
            InfoExpect::Score => match decimal_i64(w) {
                Ok(v) => InfoState {
                    expect: InfoExpect::Keyword,
                    cp_score: Some(v as i64),
                    ..st
                },
                Err(e) => info_failed(
                    st,
                    number_failure("Failed to parse cp score \""@ + w + "\""@, e),
                ),
            },
            InfoExpect::Pv => if is_info_keyword(w) {
                info_with_keyword(st, w)
            } else {
                InfoState { pv: st.pv.push(w), ..st }
            },
            InfoExpect::Depth => match decimal_u16(w) {
                Ok(v) => InfoState { expect: InfoExpect::Keyword, depth: v as u16, ..st },
                Err(e) => info_failed(
                    st,
                    number_failure("Failed to parse depth \""@ + w + "\""@, e),
                ),
            },
            InfoExpect::SelDepth => match decimal_u16(w) {
                Ok(v) => InfoState { expect: InfoExpect::Keyword, seldepth: v as u16, ..st },
                Err(e) => info_failed(st, number_failure("Failed to parse seldepth"@, e)),
            },
            InfoExpect::Time => match decimal_i64(w) {
                Ok(v) => InfoState { expect: InfoExpect::Keyword, time: v as i64, ..st },
                Err(e) => info_failed(st, number_failure("Failed to parse time"@, e)),
            },
            InfoExpect::Nodes => match decimal_u64(w) {
                Ok(v) => InfoState { expect: InfoExpect::Keyword, nodes: v as u64, ..st },
                Err(e) => info_failed(st, number_failure("Failed to parse nodes"@, e)),
            },
            InfoExpect::Nps => match decimal_u64(w) {
                Ok(v) => InfoState { expect: InfoExpect::Keyword, nps: v as u64, ..st },
                Err(e) => info_failed(st, number_failure("Failed to parse nps"@, e)),
            },
        }
    }
}

/// The state after the words `ws`, which follow `info`.
pub open spec fn info_state(ws: Seq<Seq<char>>) -> InfoState
    decreases ws.len(),
{
    if ws.len() == 0 {
        info_start()
    } else {
        info_with(info_state(ws.drop_last()), ws.last())
    }
}

pub proof fn lemma_info_error_stays(ws: Seq<Seq<char>>, k: int)
    requires
        0 <= k <= ws.len(),
        info_state(ws.take(k)).error is Some,
    ensures
        info_state(ws) == info_state(ws.take(k)),
    decreases ws.len() - k,
{
    if k == ws.len() {
        assert(ws.take(k) == ws);
    } else {
        assert(ws.take(k + 1).drop_last() == ws.take(k));
        lemma_info_error_stays(ws, k + 1);
    }
}

/// What is missing where a line ends behind a keyword.
pub open spec fn info_missing(expect: InfoExpect) -> Option<UciErrorView> {
    match expect {
        InfoExpect::Keyword => None,
        InfoExpect::Pv => None,
        InfoExpect::Cp => Some(parse_error("Invalid score"@)),
        InfoExpect::Score => Some(parse_error("No cp score"@)),
        InfoExpect::Depth => Some(parse_error("Did not receive a value for key \"depth\""@)),
        InfoExpect::SelDepth => Some(
            parse_error("Did not receive a value for key \"seldepth\""@),
        ),
        InfoExpect::Time => Some(parse_error("Did not receive a value for key \"time\""@)),
        InfoExpect::Nodes => Some(parse_error("Did not receive a value for key \"nodes\""@)),
        InfoExpect::Nps => Some(parse_error("Did not receive a value for key \"nps\""@)),
    }
}

/// What an info line reports: `info` followed by `depth N`, `seldepth N`,
/// `time N`, `nodes N`, `nps N`, `score cp N` and `pv` with its moves, in any
/// order; other words are passed over. The first error in reading order is
/// the one that is returned, and a line without a score is an error.
pub open spec fn info_of(input: Seq<char>) -> Result<UciInfoView, UciErrorView> {
    let st = info_state(words(input).skip(1));
    if st.error is Some {
        Err(st.error->0)
    } else if info_missing(st.expect) is Some {
        Err(info_missing(st.expect)->0)
    } else {
        match st.cp_score {
            Some(score) => Ok(
                UciInfoView {
                    depth: st.depth,
                    seldepth: st.seldepth,
                    time: st.time,
                    nodes: st.nodes,
                    nps: st.nps,
                    cp_score: score,
                    pv: st.pv,
                },
            ),
            None => Err(root_error(UciErrorKind::MissingField, "Info string had no score"@)),
        }
    }
}

fn info_keyword_at(chars: &Vec<char>, span: Span) -> (b: bool)
    requires
        span.start <= span.end <= chars@.len(),
    ensures
        b == is_info_keyword(chars@.subrange(span.start as int, span.end as int)),
{
    span_is(chars, span, "depth") || span_is(chars, span, "seldepth") || span_is(
        chars,
        span,
        "nodes",
    ) || span_is(chars, span, "score") || span_is(chars, span, "time") || span_is(
        chars,
        span,
        "nps",
    ) || span_is(chars, span, "pv") || span_is(chars, span, "multipv") || span_is(
        chars,
        span,
        "currmove",
    ) || span_is(chars, span, "currmovenumber") || span_is(chars, span, "hashfull") || span_is(
        chars,
        span,
        "tbhits",
    ) || span_is(chars, span, "cpuload") || span_is(chars, span, "string") || span_is(
        chars,
        span,
        "refutation",
    ) || span_is(chars, span, "currline")
}

fn number_error(desc: String, e: crate::decimal::NumberError) -> (r: UciError)
    ensures
        r@ == number_failure(desc@, e),
{
    UciError::new_caused_by(UciErrorKind::ParseError, desc, number_error_string(e))
}

fn quoted(prefix: &str, line: &str, span: Span) -> (s: String)
    requires
        span.start <= span.end <= line@.len(),
    ensures
        s@ == prefix@ + line@.subrange(span.start as int, span.end as int) + "\""@,
{
    let mut desc = String::from_str(prefix);
    desc.append(span_string(line, span).as_str());
    desc.append("\"");
    desc
}

/// What a word at a keyword's place makes the reader await; an error where
/// it is a second `pv`.
fn expect_after(chars: &Vec<char>, span: Span, has_pv: bool) -> (r: Result<InfoExpect, UciError>)
    requires
        span.start <= span.end <= chars@.len(),
    ensures
        forall|st: InfoState|
            st.error is None && (st.pv.len() > 0) == has_pv ==> match r {
                Ok(x) => #[trigger] info_with_keyword(
                    st,
                    chars@.subrange(span.start as int, span.end as int),
                ) == (InfoState { expect: x, ..st }),
                Err(e) => info_with_keyword(
                    st,
                    chars@.subrange(span.start as int, span.end as int),
                ) == info_failed(st, e@),
            },
{
    if span_is(chars, span, "score") {
        Ok(InfoExpect::Cp)
    } else if span_is(chars, span, "pv") {
        if has_pv {
            Err(UciError::new_parse_error(String::from_str("Received multiple PVs")))
        } else {
            Ok(InfoExpect::Pv)
        }
    } else if span_is(chars, span, "depth") {
        Ok(InfoExpect::Depth)
    } else if span_is(chars, span, "seldepth") {
        Ok(InfoExpect::SelDepth)
    } else if span_is(chars, span, "time") {
        Ok(InfoExpect::Time)
    } else if span_is(chars, span, "nodes") {
        Ok(InfoExpect::Nodes)
    } else if span_is(chars, span, "nps") {
        Ok(InfoExpect::Nps)
    } else {
        Ok(InfoExpect::Keyword)
    }
}

fn missing_value(expect: InfoExpect) -> (r: Option<UciError>)
    ensures
        match info_missing(expect) {
            Some(e) => r matches Some(x) && x@ == e,
            None => r is None,
        },
{
    let text = match expect {
        InfoExpect::Keyword => {
            return None;
        },
        InfoExpect::Pv => {
            return None;
        },
        InfoExpect::Cp => "Invalid score",
        InfoExpect::Score => "No cp score",
        InfoExpect::Depth => "Did not receive a value for key \"depth\"",
        InfoExpect::SelDepth => "Did not receive a value for key \"seldepth\"",
        InfoExpect::Time => "Did not receive a value for key \"time\"",
        InfoExpect::Nodes => "Did not receive a value for key \"nodes\"",
        InfoExpect::Nps => "Did not receive a value for key \"nps\"",
    };
    Some(UciError::new_parse_error(String::from_str(text)))
}

/// Reads an info line.
#[verifier::loop_isolation(false)]
#[verifier::rlimit(60)]
pub fn parse_info_string(input: &str) -> (r: Result<UciInfo, UciError>)
    requires
        words(input@).len() > 0,
        words(input@)[0] == "info"@,
    ensures
        match info_of(input@) {
            Ok(i) => r matches Ok(x) && x@ == i,
            Err(e) => r matches Err(x) && x@ == e,
        },
{
    let chars = chars_of(input);
    let spans = split_words(&chars);
    let ghost all = words(input@);
    let ghost ws = all.skip(1);
    let n = spans.len();

    let mut expect = InfoExpect::Keyword;
    let mut depth: u16 = 0;
    let mut seldepth: u16 = 0;
    let mut time: i64 = 0;
    let mut nodes: u64 = 0;
    let mut nps: u64 = 0;
    let mut cp_score: Option<i64> = None;
    let mut pv: Vec<String> = Vec::new();

    let mut i: usize = 1;
    assert(ws.take(0) == Seq::<Seq<char>>::empty());
    assert(texts(pv@) =~= Seq::<Seq<char>>::empty());
    while i < n
        invariant
            1 <= i <= n,
            n == all.len(),
            info_state(ws.take(i - 1)) == (InfoState {
                expect,
                depth,
                seldepth,
                time,
                nodes,
                nps,
                cp_score,
                pv: texts(pv@),
                error: None,
            }),
        decreases n - i,
    {
        let span = spans[i];
        let ghost w = input@.subrange(span.start as int, span.end as int);
        let ghost before = info_state(ws.take(i - 1));
        proof {
            assert(all[i as int] == w);
            assert(ws.take(i as int).drop_last() == ws.take(i - 1));
            assert(ws.take(i as int).last() == w);
            assert(info_state(ws.take(i as int)) == info_with(before, w));
            if info_with(before, w).error is Some {
                lemma_info_error_stays(ws, i as int);
            }
        }
        let at_keyword = match expect {
            InfoExpect::Keyword => true,
            InfoExpect::Pv => info_keyword_at(&chars, span),
            _ => false,
        };
        if at_keyword {
            match expect_after(&chars, span, pv.len() > 0) {
                Ok(x) => {
                    expect = x;
                },
                Err(e) => {
                    return Err(e);
                },
            }
        } else {
            match expect {
                InfoExpect::Keyword => {},
                InfoExpect::Pv => {
                    let ghost old_pv = pv@;
                    pv.push(span_string(input, span));
                    assert(texts(pv@) =~= texts(old_pv).push(w));
                },
                InfoExpect::Cp => {
                    if span_is(&chars, span, "cp") {
                        expect = InfoExpect::Score;
                    } else {
                        return Err(UciError::new_parse_error(String::from_str("Invalid score")));
                    }
                },
                InfoExpect::Score => match parse_i64(&chars, span.start, span.end) {
                    Ok(v) => {
                        cp_score = Some(v);
                        expect = InfoExpect::Keyword;
                    },
                    Err(e) => {
                        return Err(
                            number_error(quoted("Failed to parse cp score \"", input, span), e),
                        );
                    },
                },
                InfoExpect::Depth => match parse_u16(&chars, span.start, span.end) {
                    Ok(v) => {
                        depth = v;
                        expect = InfoExpect::Keyword;
                    },
                    Err(e) => {
                        return Err(
                            number_error(quoted("Failed to parse depth \"", input, span), e),
                        );
                    },
                },
                InfoExpect::SelDepth => match parse_u16(&chars, span.start, span.end) {
                    Ok(v) => {
                        seldepth = v;
                        expect = InfoExpect::Keyword;
                    },
                    Err(e) => {
                        return Err(
                            number_error(String::from_str("Failed to parse seldepth"), e),
                        );
                    },
                },
                InfoExpect::Time => match parse_i64(&chars, span.start, span.end) {
                    Ok(v) => {
                        time = v;
                        expect = InfoExpect::Keyword;
                    },
                    Err(e) => {
                        return Err(number_error(String::from_str("Failed to parse time"), e));
                    },
                },
                InfoExpect::Nodes => match parse_u64(&chars, span.start, span.end) {
                    Ok(v) => {
                        nodes = v;
                        expect = InfoExpect::Keyword;
                    },
                    Err(e) => {
                        return Err(number_error(String::from_str("Failed to parse nodes"), e));
                    },
                },
                InfoExpect::Nps => match parse_u64(&chars, span.start, span.end) {
                    Ok(v) => {
                        nps = v;
                        expect = InfoExpect::Keyword;
                    },
                    Err(e) => {
                        return Err(number_error(String::from_str("Failed to parse nps"), e));
                    },
                },
            }
        }
        i += 1;
    }
    assert(ws.take(n - 1) == ws);
    match missing_value(expect) {
        Some(e) => {
            return Err(e);
        },
        None => {},
    }
    match cp_score {
        Some(score) => Ok(UciInfo { depth, seldepth, time, nodes, nps, cp_score: score, pv }),
        None => Err(
            UciError::new_root(
                UciErrorKind::MissingField,
                String::from_str("Info string had no score"),
            ),
        ),
    }
}

} // verus!
