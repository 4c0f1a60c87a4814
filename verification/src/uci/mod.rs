//! The engine protocol: what an engine declares and reports, and the errors
//! of reading it.

use crate::decimal::{decimal_i64, decimal_signed, parse_i64, push_signed, NumberError};
use crate::text::{chars_of, same_text};
use vstd::prelude::*;

pub mod parser;

verus! {

#[derive(Debug, Clone, Copy, PartialEq, Eq, Structural)]
pub enum UciErrorKind {
    ParseError,
    InvalidOption,
    MissingField,
}

/// An error of reading a protocol line: its kind, a description, and where it
/// has one the description of the underlying cause.
#[derive(Debug, Clone, PartialEq, Eq)]
pub struct UciError {
    pub kind: UciErrorKind,
    pub desc: String,
    pub source: Option<String>,
}

pub ghost struct UciErrorView {
    pub kind: UciErrorKind,
    pub desc: Seq<char>,
    pub source: Option<Seq<char>>,
}

impl View for UciError {
    type V = UciErrorView;

    open spec fn view(&self) -> UciErrorView {
        UciErrorView {
            kind: self.kind,
            desc: self.desc@,
            source: match self.source {
                Some(s) => Some(s@),
                None => None,
            },
        }
    }
}

pub open spec fn parse_error(desc: Seq<char>) -> UciErrorView {
    UciErrorView { kind: UciErrorKind::ParseError, desc, source: None }
}

pub open spec fn root_error(kind: UciErrorKind, desc: Seq<char>) -> UciErrorView {
    UciErrorView { kind, desc, source: None }
}

pub open spec fn caused_error(kind: UciErrorKind, desc: Seq<char>, source: Seq<char>) -> UciErrorView {
    UciErrorView { kind, desc, source: Some(source) }
}

/// How each kind of error introduces itself.
pub open spec fn kind_text(kind: UciErrorKind) -> Seq<char> {
    match kind {
        UciErrorKind::ParseError => "Uci parser error. "@,
        UciErrorKind::InvalidOption => "Invalid option description. "@,
        UciErrorKind::MissingField => "Missing field. "@,
    }
}

/// The message of an error: its kind, its description and its cause.
pub open spec fn error_text(e: UciErrorView) -> Seq<char> {
    match e.source {
        Some(s) => kind_text(e.kind) + e.desc + ". Caused by: "@ + s,
        None => kind_text(e.kind) + e.desc,
    }
}

/// What is said of a text that is not a number.
pub open spec fn number_error_text(e: NumberError) -> Seq<char> {
    match e {
        NumberError::Empty => "cannot parse integer from empty string"@,
        NumberError::InvalidDigit => "invalid digit found in string"@,
        NumberError::TooLarge => "number too large to fit in target type"@,
        NumberError::TooSmall => "number too small to fit in target type"@,
    }
}

pub fn number_error_string(e: NumberError) -> (s: String)
    ensures
        s@ == number_error_text(e),
{
    match e {
        NumberError::Empty => String::from_str("cannot parse integer from empty string"),
        NumberError::InvalidDigit => String::from_str("invalid digit found in string"),
        NumberError::TooLarge => String::from_str("number too large to fit in target type"),
        NumberError::TooSmall => String::from_str("number too small to fit in target type"),
    }
}

impl UciError {
    pub fn new_parse_error(desc: String) -> (e: UciError)
        ensures
            e@ == parse_error(desc@),
    {
        UciError { kind: UciErrorKind::ParseError, desc, source: None }
    }

    pub fn new_root(kind: UciErrorKind, desc: String) -> (e: UciError)
        ensures
            e@ == root_error(kind, desc@),
    {
        UciError { kind, source: None, desc }
    }

    pub fn new_caused_by(kind: UciErrorKind, desc: String, source: String) -> (e: UciError)
        ensures
            e@ == caused_error(kind, desc@, source@),
    {
        UciError { kind, source: Some(source), desc }
    }

    /// The message of the error, as it is shown to the user.
    pub fn to_string(&self) -> (s: String)
        ensures
            s@ == error_text(self@),
    {
        let mut s = match self.kind {
            UciErrorKind::ParseError => String::from_str("Uci parser error. "),
            UciErrorKind::InvalidOption => String::from_str("Invalid option description. "),
            UciErrorKind::MissingField => String::from_str("Missing field. "),
        };
        s.append(self.desc.as_str());
        match &self.source {
            Some(source) => {
                s.append(". Caused by: ");
                s.append(source.as_str());
            },
            None => {},
        }
        s
    }
}

/// An option that an engine has declared, with its current value.
#[derive(Debug, Clone, PartialEq, Eq)]
pub struct UciOption {
    pub name: String,
    pub option_type: UciOptionType,
}

#[derive(Debug, Clone, PartialEq, Eq)]
pub enum UciOptionType {
    /// The current value.
    Check(bool),
    /// The current value, the minimum and the maximum.
    Spin(i64, i64, i64),
    /// The current value and the values that can be chosen.
    Combo(String, Vec<String>),
    Button,
    /// The current value.
    String(String),
}

pub ghost enum UciOptionTypeView {
    Check(bool),
    Spin(i64, i64, i64),
    Combo(Seq<char>, Seq<Seq<char>>),
    Button,
    String(Seq<char>),
}

pub ghost struct UciOptionView {
    pub name: Seq<char>,
    pub option_type: UciOptionTypeView,
}

/// The texts that a vector of strings holds.
pub open spec fn texts(v: Seq<String>) -> Seq<Seq<char>> {
    Seq::new(v.len(), |i: int| v[i]@)
}

impl View for UciOptionType {
    type V = UciOptionTypeView;

    open spec fn view(&self) -> UciOptionTypeView {
        match self {
            UciOptionType::Check(b) => UciOptionTypeView::Check(*b),
            UciOptionType::Spin(v, min, max) => UciOptionTypeView::Spin(*v, *min, *max),
            UciOptionType::Combo(v, vars) => UciOptionTypeView::Combo(v@, texts(vars@)),
            UciOptionType::Button => UciOptionTypeView::Button,
            UciOptionType::String(v) => UciOptionTypeView::String(v@),
        }
    }
}

impl View for UciOption {
    type V = UciOptionView;

    open spec fn view(&self) -> UciOptionView {
        UciOptionView { name: self.name@, option_type: self.option_type@ }
    }
}

/// Whether an option of this type can take the value that a text denotes.
pub open spec fn supports(t: UciOptionTypeView, value: Seq<char>) -> bool {
    match t {
        UciOptionTypeView::Check(_) => value == "true"@ || value == "false"@,
        UciOptionTypeView::Spin(_, min, max) => decimal_i64(value) matches Ok(v) && min <= v <= max,
        UciOptionTypeView::Combo(_, vars) => vars.contains(value),
        UciOptionTypeView::Button => false,
        UciOptionTypeView::String(_) => true,
    }
}

/// Whether a value can be stored in an option of this type: a truth value in
/// a check, a number in a spin.
pub open spec fn storable(t: UciOptionTypeView, value: Seq<char>) -> bool {
    match t {
        UciOptionTypeView::Check(_) => value == "true"@ || value == "false"@,
        UciOptionTypeView::Spin(_, _, _) => decimal_i64(value) is Ok,
        _ => true,
    }
}

/// The option after a value has been stored in it.
pub open spec fn with_value(t: UciOptionTypeView, value: Seq<char>) -> UciOptionTypeView {
    match t {
        UciOptionTypeView::Check(_) => UciOptionTypeView::Check(value == "true"@),
        UciOptionTypeView::Spin(_, min, max) => UciOptionTypeView::Spin(
            decimal_i64(value)->Ok_0 as i64,
            min,
            max,
        ),
        UciOptionTypeView::Combo(_, vars) => UciOptionTypeView::Combo(value, vars),
        UciOptionTypeView::Button => UciOptionTypeView::Button,
        UciOptionTypeView::String(_) => UciOptionTypeView::String(value),
    }
}

/// The current value of an option, as it is written on the wire. A button
/// has none.
pub open spec fn value_text(t: UciOptionTypeView) -> Seq<char> {
    match t {
        UciOptionTypeView::Check(b) => if b {
            "true"@
        } else {
            "false"@
        },
        UciOptionTypeView::Spin(v, _, _) => decimal_signed(v as int),
        UciOptionTypeView::Combo(v, _) => v,
        UciOptionTypeView::Button => Seq::empty(),
        UciOptionTypeView::String(v) => v,
    }
}

impl UciOptionType {
    #[verifier::loop_isolation(false)]
    pub fn value_is_supported(&self, value: &str) -> (b: bool)
        ensures
            b == supports(self@, value@),
    {
        match self {
            UciOptionType::Check(_) => same_text(value, "true") || same_text(value, "false"),
            UciOptionType::Spin(_, min, max) => {
                let chars = chars_of(value);
                assert(chars@.subrange(0, chars@.len() as int) == value@);
                match parse_i64(&chars, 0, chars.len()) {
                    Ok(v) => v >= *min && v <= *max,
                    Err(_) => false,
                }
            },
            UciOptionType::Combo(_, possible_values) => {
                let mut i: usize = 0;
                while i < possible_values.len()
                    invariant
                        i <= possible_values.len(),
                        forall|j: int| 0 <= j < i ==> possible_values@[j]@ != value@,
                    decreases possible_values.len() - i,
                {
                    if same_text(possible_values[i].as_str(), value) {
                        assert(texts(possible_values@)[i as int] == value@);
                        return true;
                    }
                    i += 1;
                }
                assert(!texts(possible_values@).contains(value@)) by {
                    if texts(possible_values@).contains(value@) {
                        let j = choose|j: int|
                            0 <= j < texts(possible_values@).len() && texts(possible_values@)[j]
                                == value@;
                        assert(possible_values@[j]@ == value@);
                    }
                }
                false
            },
            UciOptionType::Button => false,
            UciOptionType::String(_) => true,
        }
    }

    /// Stores a value in the option. A button keeps none.
    pub fn set_value(&mut self, value: &str)
        requires
            storable(old(self)@, value@),
        ensures
            final(self)@ == with_value(old(self)@, value@),
    {
        match self {
            UciOptionType::Check(val) => {
                *val = same_text(value, "true");
            },
            UciOptionType::Spin(val, _, _) => {
                let chars = chars_of(value);
                assert(chars@.subrange(0, chars@.len() as int) == value@);
                match parse_i64(&chars, 0, chars.len()) {
                    Ok(v) => {
                        *val = v;
                    },
                    Err(_) => {},
                }
            },
            UciOptionType::Combo(val, _) => {
                *val = String::from_str(value);
            },
            UciOptionType::Button => (),
            UciOptionType::String(val) => {
                *val = String::from_str(value);
            },
        }
    }

    /// The current value, as it is written on the wire.
    pub fn get_value(&self) -> (s: String)
        ensures
            s@ == value_text(self@),
    {
        match self {
            UciOptionType::Check(b) => if *b {
                String::from_str("true")
            } else {
                String::from_str("false")
            },
            UciOptionType::Spin(v, _, _) => {
                let mut s = String::new();
                push_signed(&mut s, *v);
                s
            },
            UciOptionType::Combo(v, _) => v.clone(),
            UciOptionType::Button => String::new(),
            UciOptionType::String(v) => v.clone(),
        }
    }
}

/// What an engine reports while it thinks.
#[derive(Debug, Clone, PartialEq, Eq)]
pub struct UciInfo {
    pub depth: u16,
    pub seldepth: u16,
    pub time: i64,
    pub nodes: u64,
    pub nps: u64,
    pub cp_score: i64,
    /// The principal variation, its moves as the engine wrote them.
    pub pv: Vec<String>,
}

pub ghost struct UciInfoView {
    pub depth: u16,
    pub seldepth: u16,
    pub time: i64,
    pub nodes: u64,
    pub nps: u64,
    pub cp_score: i64,
    pub pv: Seq<Seq<char>>,
}

impl View for UciInfo {
    type V = UciInfoView;

    open spec fn view(&self) -> UciInfoView {
        UciInfoView {
            depth: self.depth,
            seldepth: self.seldepth,
            time: self.time,
            nodes: self.nodes,
            nps: self.nps,
            cp_score: self.cp_score,
            pv: texts(self.pv@),
        }
    }
}

} // verus!
