//! An engine as the tournament knows it: how it is to be started, which
//! options it has declared, and what is said to it to set them.
//!
//! The process itself is run elsewhere; here are the rules of talking to it.

use crate::decimal::{decimal_i8, parse_i8};
use crate::driver::{Player, PlayerView};
use crate::notation::{komi_string, komi_text};
use crate::text::{
    chars_of, same_text, span_is, span_string, spans_text, spans_within, split_words, words,
};
use crate::uci::parser::{option_of, parse_option};
use crate::uci::{
    storable, supports, texts, value_text, with_value, UciError, UciOption,
    UciOptionType, UciOptionTypeView, UciOptionView,
};
use vstd::prelude::*;

verus! {

/// How an engine is started and set up: the path of its program, the
/// arguments it is given on the command line, the options that are to be set,
/// and its time control in milliseconds.
#[derive(PartialEq, Eq, Debug)]
pub struct EngineBuilder {
    pub path: String,
    pub args: Option<String>,
    pub desired_uci_options: Vec<(String, String)>,
    pub game_time: u64,
    pub increment: u64,
}

pub ghost struct EngineBuilderView {
    pub path: Seq<char>,
    pub args: Option<Seq<char>>,
    pub desired_uci_options: Seq<(Seq<char>, Seq<char>)>,
    pub game_time: nat,
    pub increment: nat,
}

/// The names and values that a list of settings holds.
pub open spec fn settings(v: Seq<(String, String)>) -> Seq<(Seq<char>, Seq<char>)> {
    Seq::new(v.len(), |i: int| (v[i].0@, v[i].1@))
}

impl View for EngineBuilder {
    type V = EngineBuilderView;

    open spec fn view(&self) -> EngineBuilderView {
        EngineBuilderView {
            path: self.path@,
            args: match self.args {
                Some(a) => Some(a@),
                None => None,
            },
            desired_uci_options: settings(self.desired_uci_options@),
            game_time: self.game_time as nat,
            increment: self.increment as nat,
        }
    }
}

impl Clone for EngineBuilder {
    fn clone(&self) -> (r: Self)
        ensures
            r@ == self@,
    {
        let mut desired: Vec<(String, String)> = Vec::new();
        let mut i: usize = 0;
        while i < self.desired_uci_options.len()
            invariant
                i <= self.desired_uci_options@.len(),
                desired@.len() == i,
                forall|j: int| 0 <= j < i ==> desired@[j] == self.desired_uci_options@[j],
            decreases self.desired_uci_options@.len() - i,
        {
            desired.push(
                (self.desired_uci_options[i].0.clone(), self.desired_uci_options[i].1.clone()),
            );
            i += 1;
        }
        assert(settings(desired@) =~= settings(self.desired_uci_options@));
        EngineBuilder {
            path: self.path.clone(),
            args: match &self.args {
                Some(a) => Some(a.clone()),
                None => None,
            },
            desired_uci_options: desired,
            game_time: self.game_time,
            increment: self.increment,
        }
    }
}

/// The value that the first setting of the given name has.
pub open spec fn setting_of(settings: Seq<(Seq<char>, Seq<char>)>, name: Seq<char>) -> Option<
    Seq<char>,
>
    decreases settings.len(),
{
    if settings.len() == 0 {
        None
    } else if settings[0].0 == name {
        Some(settings[0].1)
    } else {
        setting_of(settings.skip(1), name)
    }
}

/// The komi as a game's record names it, from the settings of an engine:
/// that of the first `HalfKomi` setting, where it is a number of half points
/// other than 0.
pub open spec fn komi_of(settings: Seq<(Seq<char>, Seq<char>)>) -> Option<Seq<char>> {
    match setting_of(settings, "HalfKomi"@) {
        Some(value) => if value != "0"@ && decimal_i8(value) is Ok {
            Some(komi_text(decimal_i8(value)->Ok_0))
        } else {
            None
        },
        None => None,
    }
}

impl EngineBuilder {
    /// The arguments of the command line: the words of `args`.
    pub fn arguments(&self) -> (arguments: Vec<String>)
        ensures
            texts(arguments@) == match self@.args {
                Some(a) => words(a),
                None => Seq::empty(),
            },
    {
        let mut arguments: Vec<String> = Vec::new();
        match &self.args {
            None => {
                assert(texts(arguments@) =~= Seq::<Seq<char>>::empty());
            },
            Some(args) => {
                let chars = chars_of(args.as_str());
                let spans = split_words(&chars);
                let mut i: usize = 0;
                while i < spans.len()
                    invariant
                        i <= spans.len(),
                        chars@ == args@,
                        spans_within(spans@, chars@.len()),
                        arguments@.len() == i,
                        forall|j: int|
                            0 <= j < i ==> arguments@[j]@ == args@.subrange(
                                spans@[j].start as int,
                                spans@[j].end as int,
                            ),
                    decreases spans.len() - i,
                {
                    arguments.push(span_string(args.as_str(), spans[i]));
                    i += 1;
                }
                assert(texts(arguments@) =~= spans_text(args@, spans@));
            },
        }
        arguments
    }

    /// The engine as a player of a game.
    pub fn player(&self) -> (p: Player)
        ensures
            p@ == (PlayerView {
                name: self@.path,
                game_time: self@.game_time,
                increment: self@.increment,
            }),
    {
        Player { name: self.path.clone(), game_time: self.game_time, increment: self.increment }
    }

    /// The komi that the engine is set to, as a game's record names it.
    pub fn komi(&self) -> (k: Option<String>)
        ensures
            match komi_of(self@.desired_uci_options) {
                Some(text) => k matches Some(s) && s@ == text,
                None => k is None,
            },
    {
        let ghost all = settings(self.desired_uci_options@);
        let mut i: usize = 0;
        assert(all.skip(0) == all);
        while i < self.desired_uci_options.len()
            invariant
                i <= self.desired_uci_options@.len(),
                all == settings(self.desired_uci_options@),
                setting_of(all, "HalfKomi"@) == setting_of(all.skip(i as int), "HalfKomi"@),
            decreases self.desired_uci_options@.len() - i,
        {
            assert(all.skip(i as int)[0] == all[i as int]);
            assert(all.skip(i as int).skip(1) == all.skip(i + 1));
            if same_text(self.desired_uci_options[i].0.as_str(), "HalfKomi") {
                let value = self.desired_uci_options[i].1.as_str();
                if same_text(value, "0") {
                    return None;
                }
                let chars = chars_of(value);
                assert(chars@.subrange(0, chars@.len() as int) == value@);
                return match parse_i8(&chars, 0, chars.len()) {
                    Ok(half_komi) => Some(komi_string(half_komi)),
                    Err(_) => None,
                };
            }
            i += 1;
        }
        None
    }

    /// The engine before anything has been said to it: it goes by the path of
    /// its program and has declared no options.
    pub fn init(&self) -> (engine: Engine)
        ensures
            engine.name@ == self@.path,
            engine.builder@ == self@,
            engine.options@.len() == 0,
    {
        Engine { name: self.path.clone(), builder: self.clone(), options: Vec::new() }
    }
}

/// An engine: its name, how it was started, and the options it has declared
/// with their current values.
#[derive(Debug)]
pub struct Engine {
    pub name: String,
    pub builder: EngineBuilder,
    pub options: Vec<UciOption>,
}

/// The options that a vector of options holds.
pub open spec fn options_view(options: Seq<UciOption>) -> Seq<UciOptionView> {
    Seq::new(options.len(), |i: int| options[i]@)
}

/// The place of the first option of the given name, or the number of options
/// where there is none.
pub open spec fn option_index(options: Seq<UciOptionView>, name: Seq<char>) -> int
    decreases options.len(),
{
    if options.len() == 0 || options[0].name == name {
        0
    } else {
        1 + option_index(options.skip(1), name)
    }
}

pub proof fn lemma_option_index(options: Seq<UciOptionView>, name: Seq<char>)
    ensures
        0 <= option_index(options, name) <= options.len(),
        forall|j: int| 0 <= j < option_index(options, name) ==> options[j].name != name,
        option_index(options, name) < options.len() ==> options[option_index(options, name)].name
            == name,
    decreases options.len(),
{
    if options.len() == 0 || options[0].name == name {
    } else {
        lemma_option_index(options.skip(1), name);
        let k = option_index(options, name);
        assert forall|j: int| 0 <= j < k implies options[j].name != name by {
            if j > 0 {
                assert(options[j] == options.skip(1)[j - 1]);
            }
        }
        if k < options.len() {
            assert(options[k] == options.skip(1)[k - 1]);
        }
    }
}

pub proof fn lemma_option_index_is(options: Seq<UciOptionView>, name: Seq<char>, k: int)
    requires
        0 <= k <= options.len(),
        forall|j: int| 0 <= j < k ==> options[j].name != name,
        k == options.len() || options[k].name == name,
    ensures
        option_index(options, name) == k,
    decreases k,
{
    if k > 0 {
        lemma_option_index_is(options.skip(1), name, k - 1);
    }
}

/// Whether the engine has declared an option of the given name that can take
/// the value.
pub open spec fn supports_setting(options: Seq<UciOptionView>, name: Seq<char>, value: Seq<char>)
    -> bool {
    let k = option_index(options, name);
    k < options.len() && supports(options[k].option_type, value)
}

/// Whether the engine can take every one of the settings.
pub open spec fn supports_settings(
    options: Seq<UciOptionView>,
    desired: Seq<(Seq<char>, Seq<char>)>,
) -> bool {
    forall|i: int| 0 <= i < desired.len() ==> supports_setting(options, desired[i].0, desired[i].1)
}

/// The line that sets an option.
pub open spec fn set_option_text(name: Seq<char>, value: Seq<char>) -> Seq<char> {
    "setoption name "@ + name + " value "@ + value
}

/// The options after one of them has been set. Nothing changes where the
/// option has the value already.
pub open spec fn options_with(options: Seq<UciOptionView>, name: Seq<char>, value: Seq<char>) -> Seq<
    UciOptionView,
> {
    let k = option_index(options, name);
    if k < options.len() && value_text(options[k].option_type) != value {
        options.update(
            k,
            UciOptionView {
                name: options[k].name,
                option_type: with_value(options[k].option_type, value),
            },
        )
    } else {
        options
    }
}

/// What is written to the engine to set an option: a line, or nothing where
/// the option has the value already.
pub open spec fn set_option_lines(options: Seq<UciOptionView>, name: Seq<char>, value: Seq<char>)
    -> Seq<Seq<char>> {
    let k = option_index(options, name);
    if k < options.len() && value_text(options[k].option_type) != value {
        seq![set_option_text(name, value)]
    } else {
        Seq::empty()
    }
}

/// The options after the settings have been made, one after the other.
pub open spec fn options_after(options: Seq<UciOptionView>, desired: Seq<(Seq<char>, Seq<char>)>)
    -> Seq<UciOptionView>
    decreases desired.len(),
{
    if desired.len() == 0 {
        options
    } else {
        options_with(
            options_after(options, desired.drop_last()),
            desired.last().0,
            desired.last().1,
        )
    }
}

/// What is written to the engine to make the settings, one after the other.
pub open spec fn settings_lines(options: Seq<UciOptionView>, desired: Seq<(Seq<char>, Seq<char>)>)
    -> Seq<Seq<char>>
    decreases desired.len(),
{
    if desired.len() == 0 {
        Seq::empty()
    } else {
        settings_lines(options, desired.drop_last()) + set_option_lines(
            options_after(options, desired.drop_last()),
            desired.last().0,
            desired.last().1,
        )
    }
}

/// An option that is set to the value it has stays as it is, and nothing is
/// written to the engine.
pub proof fn lemma_same_value_is_not_sent(options: Seq<UciOptionView>, name: Seq<char>)
    requires
        option_index(options, name) < options.len(),
    ensures
        set_option_lines(
            options,
            name,
            value_text(options[option_index(options, name)].option_type),
        ) == Seq::<Seq<char>>::empty(),
        options_with(options, name, value_text(options[option_index(options, name)].option_type))
            == options,
{
}

/// Setting an option changes neither which options there are nor which
/// values they can take.
pub proof fn lemma_options_with(
    options: Seq<UciOptionView>,
    name: Seq<char>,
    value: Seq<char>,
    other: Seq<char>,
    other_value: Seq<char>,
)
    ensures
        options_with(options, name, value).len() == options.len(),
        option_index(options_with(options, name, value), other) == option_index(options, other),
        supports_setting(options_with(options, name, value), other, other_value)
            == supports_setting(options, other, other_value),
{
    let after = options_with(options, name, value);
    let k = option_index(options, other);
    lemma_option_index(options, other);
    lemma_option_index(options, name);
    assert forall|j: int| 0 <= j < options.len() implies after[j].name == options[j].name by {}
    lemma_option_index_is(after, other, k);
}

pub proof fn lemma_options_after(
    options: Seq<UciOptionView>,
    desired: Seq<(Seq<char>, Seq<char>)>,
    other: Seq<char>,
    other_value: Seq<char>,
)
    ensures
        options_after(options, desired).len() == options.len(),
        option_index(options_after(options, desired), other) == option_index(options, other),
        supports_setting(options_after(options, desired), other, other_value) == supports_setting(
            options,
            other,
            other_value,
        ),
    decreases desired.len(),
{
    if desired.len() > 0 {
        lemma_options_after(options, desired.drop_last(), other, other_value);
        lemma_options_with(
            options_after(options, desired.drop_last()),
            desired.last().0,
            desired.last().1,
            other,
            other_value,
        );
    }
}

/// The option that an engine is taken to have where it declares no komi: the
/// komi is 0 and cannot be changed.
pub open spec fn implicit_half_komi() -> UciOptionView {
    UciOptionView { name: "HalfKomi"@, option_type: UciOptionTypeView::Spin(0, 0, 0) }
}

/// The options of an engine that has ended its declarations.
pub open spec fn with_half_komi(options: Seq<UciOptionView>) -> Seq<UciOptionView> {
    if option_index(options, "HalfKomi"@) < options.len() {
        options
    } else {
        options.push(implicit_half_komi())
    }
}

/// Whether a line is the answer of an engine that is ready: the word
/// `readyok` and nothing else but white space.
pub open spec fn is_ready_line(line: Seq<char>) -> bool {
    words(line) == seq!["readyok"@]
}

pub fn is_readyok(line: &str) -> (b: bool)
    ensures
        b == is_ready_line(line@),
{
    let chars = chars_of(line);
    let spans = split_words(&chars);
    if spans.len() == 1 && span_is(&chars, spans[0], "readyok") {
        assert(words(line@) =~= seq!["readyok"@]);
        true
    } else {
        assert(words(line@) != seq!["readyok"@]) by {
            if words(line@) == seq!["readyok"@] {
                assert(words(line@).len() == 1);
                assert(words(line@)[0] == "readyok"@);
            }
        }
        false
    }
}

/// What a line of the handshake is.
#[derive(Clone, Copy, Debug, PartialEq, Eq, Structural)]
pub enum HandshakeLine {
    /// The engine has ended its declarations.
    End,
    /// The engine declares an option.
    Declaration,
    /// Anything else: it is passed over.
    Other,
}

pub open spec fn handshake_line(line: Seq<char>) -> HandshakeLine {
    if words(line).len() > 0 && words(line)[0] == "teiok"@ {
        HandshakeLine::End
    } else if words(line).len() > 0 && words(line)[0] == "option"@ {
        HandshakeLine::Declaration
    } else {
        HandshakeLine::Other
    }
}

impl Engine {
    pub fn name(&self) -> (s: &str)
        ensures
            s@ == self.name@,
    {
        self.name.as_str()
    }

    pub fn builder(&self) -> (b: &EngineBuilder)
        ensures
            b == &self.builder,
    {
        &self.builder
    }

    fn find_option(&self, name: &str) -> (k: usize)
        ensures
            k == option_index(options_view(self.options@), name@),
            k <= self.options@.len(),
    {
        let ghost all = options_view(self.options@);
        let mut k: usize = 0;
        while k < self.options.len()
            invariant
                k <= self.options@.len(),
                all == options_view(self.options@),
                forall|j: int| 0 <= j < k ==> all[j].name != name@,
            decreases self.options@.len() - k,
        {
            if same_text(self.options[k].name.as_str(), name) {
                proof {
                    lemma_option_index_is(all, name@, k as int);
                }
                return k;
            }
            k += 1;
        }
        proof {
            lemma_option_index_is(all, name@, k as int);
        }
        k
    }

    /// Takes a line of the handshake, which goes on until the engine ends
    /// its declarations. An option that is declared is added to the options
    /// of the engine. At the end an engine without a `HalfKomi` option is
    /// given one. Says whether the handshake is over; a declaration that
    /// cannot be read is an error and changes nothing.
    pub fn handshake(&mut self, line: &str) -> (r: Result<bool, UciError>)
        ensures
            final(self).name == old(self).name,
            final(self).builder == old(self).builder,
            match handshake_line(line@) {
                HandshakeLine::End => r == Ok::<bool, UciError>(true) && options_view(
                    final(self).options@,
                ) == with_half_komi(options_view(old(self).options@)),
                HandshakeLine::Declaration => match option_of(line@) {
                    Ok(option) => r == Ok::<bool, UciError>(false) && options_view(
                        final(self).options@,
                    ) == options_view(old(self).options@).push(option),
                    Err(e) => r matches Err(x) && x@ == e && final(self).options == old(
                        self,
                    ).options,
                },
                HandshakeLine::Other => r == Ok::<bool, UciError>(false) && final(self).options
                    == old(self).options,
            },
    {
        let chars = chars_of(line);
        let spans = split_words(&chars);
        if spans.len() == 0 {
            return Ok(false);
        }
        assert(words(line@)[0] == chars@.subrange(spans@[0].start as int, spans@[0].end as int));
        if span_is(&chars, spans[0], "teiok") {
            let k = self.find_option("HalfKomi");
            if k == self.options.len() {
                self.options.push(
                    UciOption {
                        name: String::from_str("HalfKomi"),
                        option_type: UciOptionType::Spin(0, 0, 0),
                    },
                );
                assert(options_view(self.options@) =~= options_view(old(self).options@).push(
                    implicit_half_komi(),
                ));
            }
            Ok(true)
        } else if span_is(&chars, spans[0], "option") {
            match parse_option(line) {
                Ok(option) => {
                    self.options.push(option);
                    assert(options_view(self.options@) =~= options_view(old(self).options@).push(
                        option@,
                    ));
                    Ok(false)
                },
                Err(e) => Err(e),
            }
        } else {
            Ok(false)
        }
    }

    pub fn supports_option_value(&self, name: &str, value: &str) -> (b: bool)
        ensures
            b == supports_setting(options_view(self.options@), name@, value@),
    {
        let k = self.find_option(name);
        if k < self.options.len() {
            self.options[k].option_type.value_is_supported(value)
        } else {
            false
        }
    }

    pub fn supports_options_from_builder(&self) -> (b: bool)
        ensures
            b == supports_settings(options_view(self.options@), self.builder@.desired_uci_options),
    {
        let ghost desired = self.builder@.desired_uci_options;
        let ghost options = options_view(self.options@);
        let mut i: usize = 0;
        while i < self.builder.desired_uci_options.len()
            invariant
                i <= self.builder.desired_uci_options@.len(),
                desired == self.builder@.desired_uci_options,
                options == options_view(self.options@),
                forall|j: int|
                    0 <= j < i ==> supports_setting(options, desired[j].0, desired[j].1),
            decreases self.builder.desired_uci_options@.len() - i,
        {
            let setting = &self.builder.desired_uci_options[i];
            assert(desired[i as int] == (setting.0@, setting.1@));
            if !self.supports_option_value(setting.0.as_str(), setting.1.as_str()) {
                return false;
            }
            i += 1;
        }
        true
    }

    /// Sets an option that the engine has declared and that can hold the
    /// value. Returns the line that is to be written to the engine, or
    /// nothing where the option has the value already.
    pub fn set_option(&mut self, name: &str, value: &str) -> (line: Option<String>)
        requires
            option_index(options_view(old(self).options@), name@) < old(self).options@.len(),
            storable(
                options_view(old(self).options@)[option_index(
                    options_view(old(self).options@),
                    name@,
                )].option_type,
                value@,
            ),
        ensures
            final(self).name == old(self).name,
            final(self).builder == old(self).builder,
            options_view(final(self).options@) == options_with(
                options_view(old(self).options@),
                name@,
                value@,
            ),
            match line {
                Some(l) => set_option_lines(options_view(old(self).options@), name@, value@)
                    == seq![l@],
                None => set_option_lines(options_view(old(self).options@), name@, value@)
                    == Seq::<Seq<char>>::empty(),
            },
    {
        let k = self.find_option(name);
        let current = self.options[k].option_type.get_value();
        if !same_text(current.as_str(), value) {
            let mut option = self.options.remove(k);
            option.option_type.set_value(value);
            self.options.insert(k, option);
            assert(options_view(self.options@) =~= options_with(
                options_view(old(self).options@),
                name@,
                value@,
            ));
            let mut line = String::from_str("setoption name ");
            line.append(name);
            line.append(" value ");
            line.append(value);
            Some(line)
        } else {
            assert(options_view(self.options@) =~= options_view(old(self).options@));
            None
        }
    }
}

impl Engine {
    /// Makes the settings that the engine was started with, which it
    /// supports. Returns the lines that are to be written to the engine: one
    /// for each option that changes, and the question whether the engine is
    /// ready.
    pub fn set_options_from_builder(&mut self) -> (lines: Vec<String>)
        requires
            supports_settings(
                options_view(old(self).options@),
                old(self).builder@.desired_uci_options,
            ),
        ensures
            final(self).name == old(self).name,
            final(self).builder@ == old(self).builder@,
            options_view(final(self).options@) == options_after(
                options_view(old(self).options@),
                old(self).builder@.desired_uci_options,
            ),
            texts(lines@) == settings_lines(
                options_view(old(self).options@),
                old(self).builder@.desired_uci_options,
            ).push("isready"@),
    {
        let desired = self.builder.clone();
        let ghost wanted = old(self).builder@.desired_uci_options;
        let ghost start = options_view(old(self).options@);
        let mut lines: Vec<String> = Vec::new();
        let mut i: usize = 0;
        assert(wanted.take(0) =~= Seq::<(Seq<char>, Seq<char>)>::empty());
        assert(texts(lines@) =~= Seq::<Seq<char>>::empty());
        while i < desired.desired_uci_options.len()
            invariant
                i <= desired.desired_uci_options@.len(),
                desired@.desired_uci_options == wanted,
                self.name == old(self).name,
                self.builder == old(self).builder,
                supports_settings(start, wanted),
                options_view(self.options@) == options_after(start, wanted.take(i as int)),
                texts(lines@) == settings_lines(start, wanted.take(i as int)),
            decreases desired.desired_uci_options@.len() - i,
        {
            let setting = &desired.desired_uci_options[i];
            let ghost current = options_view(self.options@);
            proof {
                assert(wanted[i as int] == (setting.0@, setting.1@));
                assert(wanted.take(i + 1).drop_last() =~= wanted.take(i as int));
                assert(wanted.take(i + 1).last() == wanted[i as int]);
                lemma_options_after(start, wanted.take(i as int), setting.0@, setting.1@);
                assert(supports_setting(start, setting.0@, setting.1@));
            }
            let ghost before = texts(lines@);
            match self.set_option(setting.0.as_str(), setting.1.as_str()) {
                Some(line) => {
                    lines.push(line);
                    assert(texts(lines@) =~= before + seq![line@]);
                },
                None => {
                    assert(texts(lines@) =~= before + Seq::<Seq<char>>::empty());
                },
            }
            i += 1;
        }
        assert(wanted.take(i as int) =~= wanted);
        let ghost before = texts(lines@);
        lines.push(String::from_str("isready"));
        assert(texts(lines@) =~= before.push("isready"@));
        lines
    }
}

/// The steps of shutting an engine down.
#[derive(Clone, Copy, Debug, PartialEq, Eq, Structural)]
pub enum ShutdownStep {
    /// See whether the engine has exited already.
    Probe,
    /// Tell the engine to quit, give it time, and see whether it has exited.
    Quit,
    /// Kill the engine, give it time, and wait for it.
    Kill,
    /// The engine has exited.
    Exited,
}

impl ShutdownStep {
    /// The step that follows, given whether the engine was found running:
    /// an engine that runs on is told to quit, and killed where it does not.
    pub fn next(self, running: bool) -> (step: ShutdownStep)
        ensures
            step == match self {
                ShutdownStep::Probe => if running {
                    ShutdownStep::Quit
                } else {
                    ShutdownStep::Exited
                },
                ShutdownStep::Quit => if running {
                    ShutdownStep::Kill
                } else {
                    ShutdownStep::Exited
                },
                ShutdownStep::Kill => ShutdownStep::Exited,
                ShutdownStep::Exited => ShutdownStep::Exited,
            },
    {
        match self {
            ShutdownStep::Probe => if running {
                ShutdownStep::Quit
            } else {
                ShutdownStep::Exited
            },
            ShutdownStep::Quit => if running {
                ShutdownStep::Kill
            } else {
                ShutdownStep::Exited
            },
            ShutdownStep::Kill => ShutdownStep::Exited,
            ShutdownStep::Exited => ShutdownStep::Exited,
        }
    }
}

} // verus!
