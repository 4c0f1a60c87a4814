//! What the user asks for on the command line, once the command line has
//! been cut into its arguments.

use crate::engine::{settings, EngineBuilder};
use crate::openings::BookFormat;
use crate::text::{chars_of, find_char, has_prefix, index_of, same_text, span_is, starts_with, Span};
use crate::tournament::TournamentType;
use crate::uci::parser::{parse_tc, time_control};
use vstd::prelude::*;

verus! {

/// An engine as the user has described it: its program, its arguments, its
/// time control in milliseconds and its settings.
#[derive(Debug, PartialEq, Eq)]
pub struct CliEngine {
    pub path: String,
    pub cli_args: Option<String>,
    pub time: u64,
    pub increment: u64,
    pub tei_settings: Vec<(String, String)>,
}

/// What is wrong with what the user asks for.
#[derive(Clone, Copy, Debug, PartialEq, Eq, Structural)]
pub enum CliErrorKind {
    /// An argument is not of the form `key=value`.
    ExpectedKeyValue,
    /// A setting is given twice.
    DuplicateOption,
    /// The komi is given as a setting of an engine.
    ReservedOption,
    DuplicatePath,
    DuplicateArg,
    DuplicateTc,
    UnknownArgument,
    MissingPath,
    MissingTc,
    InvalidTc,
    /// There are not as many engines as the format needs.
    WrongEngineCount,
    UnsupportedFormat,
    DuplicateElo0,
    DuplicateElo1,
    DuplicateAlpha,
    DuplicateBeta,
    MissingElo0,
    MissingElo1,
}

/// An error, with the argument that it is about.
#[derive(Debug, PartialEq, Eq)]
pub struct CliError {
    pub kind: CliErrorKind,
    pub argument: String,
}

pub ghost struct CliErrorView {
    pub kind: CliErrorKind,
    pub argument: Seq<char>,
}

impl View for CliError {
    type V = CliErrorView;

    open spec fn view(&self) -> CliErrorView {
        CliErrorView { kind: self.kind, argument: self.argument@ }
    }
}

/// The code of a character, that of the small letter for a capital letter
/// of the alphabet.
pub open spec fn lower_code(c: char) -> u32 {
    if 0x41 <= c as u32 <= 0x5A {
        (c as u32 + 32) as u32
    } else {
        c as u32
    }
}

/// Whether two texts are the same but for capital and small letters of the
/// alphabet.
pub open spec fn same_ignoring_case(a: Seq<char>, b: Seq<char>) -> bool {
    a.len() == b.len() && forall|i: int| 0 <= i < a.len() ==> lower_code(a[i]) == lower_code(b[i])
}

fn lower(c: char) -> (u: u32)
    ensures
        u == lower_code(c),
{
    let u: u32 = c as u32;
    if 0x41 <= u && u <= 0x5A {
        u + 32
    } else {
        u
    }
}

pub fn eq_ignoring_case(a: &str, b: &str) -> (r: bool)
    ensures
        r == same_ignoring_case(a@, b@),
{
    let x = chars_of(a);
    let y = chars_of(b);
    if x.len() != y.len() {
        return false;
    }
    let mut i: usize = 0;
    while i < x.len()
        invariant
            i <= x@.len(),
            x@.len() == y@.len(),
            x@ == a@,
            y@ == b@,
            forall|j: int| 0 <= j < i ==> lower_code(a@[j]) == lower_code(b@[j]),
        decreases x@.len() - i,
    {
        if lower(x[i]) != lower(y[i]) {
            return false;
        }
        i += 1;
    }
    true
}

/// Whether a list of settings holds one of the given name, but for capital
/// and small letters.
pub open spec fn has_setting(list: Seq<(Seq<char>, Seq<char>)>, name: Seq<char>) -> bool {
    exists|i: int| 0 <= i < list.len() && same_ignoring_case(list[i].0, name)
}

/// What has been read of the description of an engine.
pub ghost struct EngineArgs {
    pub path: Option<Seq<char>>,
    pub arg: Option<Seq<char>>,
    pub tc: Option<Seq<char>>,
    pub tei_settings: Seq<(Seq<char>, Seq<char>)>,
    /// The first error, where there is one. Nothing is read behind it.
    pub error: Option<CliErrorView>,
}

pub open spec fn no_engine_args() -> EngineArgs {
    EngineArgs { path: None, arg: None, tc: None, tei_settings: Seq::empty(), error: None }
}

pub open spec fn failed_args(st: EngineArgs, kind: CliErrorKind, argument: Seq<char>) -> EngineArgs {
    EngineArgs { error: Some(CliErrorView { kind, argument }), ..st }
}

/// What has been read after one more argument, `key=value`: the path of the
/// program, its arguments, its time control, or with `option.` before the key
/// a setting. Each can be given once.
pub open spec fn engine_args_with(st: EngineArgs, full: Seq<char>) -> EngineArgs {
    let at = index_of(full, '=');
    let key = full.take(at);
    let value = full.skip(at + 1);
    if st.error is Some {
        st
    } else if at == full.len() {
        failed_args(st, CliErrorKind::ExpectedKeyValue, full)
    } else if has_prefix(key, "option."@) {
        let name = key.skip(7);
        if has_setting(st.tei_settings, name) {
            failed_args(st, CliErrorKind::DuplicateOption, name)
        } else if same_ignoring_case(name, "HalfKomi"@) {
            failed_args(st, CliErrorKind::ReservedOption, name)
        } else {
            EngineArgs { tei_settings: st.tei_settings.push((name, value)), ..st }
        }
    } else if key == "path"@ {
        if st.path is Some {
            failed_args(st, CliErrorKind::DuplicatePath, value)
        } else {
            EngineArgs { path: Some(value), ..st }
        }
    } else if key == "arg"@ {
        if st.arg is Some {
            failed_args(st, CliErrorKind::DuplicateArg, value)
        } else {
            EngineArgs { arg: Some(value), ..st }
        }
    } else if key == "tc"@ {
        if st.tc is Some {
            failed_args(st, CliErrorKind::DuplicateTc, value)
        } else {
            EngineArgs { tc: Some(value), ..st }
        }
    } else {
        failed_args(st, CliErrorKind::UnknownArgument, full)
    }
}

pub open spec fn engine_args(args: Seq<Seq<char>>) -> EngineArgs
    decreases args.len(),
{
    if args.len() == 0 {
        no_engine_args()
    } else {
        engine_args_with(engine_args(args.drop_last()), args.last())
    }
}

pub proof fn lemma_args_error_stays(args: Seq<Seq<char>>, k: int)
    requires
        0 <= k <= args.len(),
        engine_args(args.take(k)).error is Some,
    ensures
        engine_args(args) == engine_args(args.take(k)),
    decreases args.len() - k,
{
    if k == args.len() {
        assert(args.take(k) == args);
    } else {
        assert(args.take(k + 1).drop_last() == args.take(k));
        lemma_args_error_stays(args, k + 1);
    }
}

pub ghost struct CliEngineView {
    pub path: Seq<char>,
    pub cli_args: Option<Seq<char>>,
    pub time: u64,
    pub increment: u64,
    pub tei_settings: Seq<(Seq<char>, Seq<char>)>,
}

impl View for CliEngine {
    type V = CliEngineView;

    open spec fn view(&self) -> CliEngineView {
        CliEngineView {
            path: self.path@,
            cli_args: match self.cli_args {
                Some(a) => Some(a@),
                None => None,
            },
            time: self.time,
            increment: self.increment,
            tei_settings: settings(self.tei_settings@),
        }
    }
}

/// The engine that a list of arguments describes. The path and the time
/// control must be there.
pub open spec fn engine_of(args: Seq<Seq<char>>) -> Result<CliEngineView, CliErrorView> {
    let st = engine_args(args);
    if st.error is Some {
        Err(st.error->0)
    } else if st.path is None {
        Err(CliErrorView { kind: CliErrorKind::MissingPath, argument: Seq::empty() })
    } else if st.tc is None {
        Err(CliErrorView { kind: CliErrorKind::MissingTc, argument: st.path->0 })
    } else {
        match time_control(st.tc->0) {
            Some(tc) => Ok(
                CliEngineView {
                    path: st.path->0,
                    cli_args: st.arg,
                    time: tc.0,
                    increment: tc.1,
                    tei_settings: st.tei_settings,
                },
            ),
            None => Err(CliErrorView { kind: CliErrorKind::InvalidTc, argument: st.tc->0 }),
        }
    }
}

fn failure(kind: CliErrorKind, argument: String) -> (e: CliError)
    ensures
        e@ == (CliErrorView { kind, argument: argument@ }),
{
    CliError { kind, argument }
}

fn setting_exists(list: &Vec<(String, String)>, name: &str) -> (b: bool)
    ensures
        b == has_setting(settings(list@), name@),
{
    let mut i: usize = 0;
    while i < list.len()
        invariant
            i <= list@.len(),
            forall|j: int| 0 <= j < i ==> !same_ignoring_case(settings(list@)[j].0, name@),
        decreases list@.len() - i,
    {
        if eq_ignoring_case(list[i].0.as_str(), name) {
            assert(same_ignoring_case(settings(list@)[i as int].0, name@));
            return true;
        }
        i += 1;
    }
    false
}

/// Reads the description of an engine from its arguments.
#[verifier::loop_isolation(false)]
#[verifier::rlimit(50)]
pub fn parse_engine(args: &Vec<String>) -> (r: Result<CliEngine, CliError>)
    ensures
        match engine_of(crate::uci::texts(args@)) {
            Ok(engine) => r matches Ok(x) && x@ == engine,
            Err(e) => r matches Err(x) && x@ == e,
        },
{
    let ghost all = crate::uci::texts(args@);
    let mut path: Option<String> = None;
    let mut arg: Option<String> = None;
    let mut tc: Option<String> = None;
    let mut tei_settings: Vec<(String, String)> = Vec::new();
    let mut i: usize = 0;
    assert(all.take(0) == Seq::<Seq<char>>::empty());
    assert(settings(tei_settings@) =~= Seq::<(Seq<char>, Seq<char>)>::empty());
    while i < args.len()
        invariant
            i <= args@.len(),
            engine_args(all.take(i as int)).error is None,
            engine_args(all.take(i as int)).path == match path {
                Some(p) => Some(p@),
                None => None,
            },
            engine_args(all.take(i as int)).arg == match arg {
                Some(p) => Some(p@),
                None => None,
            },
            engine_args(all.take(i as int)).tc == match tc {
                Some(p) => Some(p@),
                None => None,
            },
            engine_args(all.take(i as int)).tei_settings == settings(tei_settings@),
        decreases args@.len() - i,
    {
        let full = args[i].as_str();
        let ghost before = engine_args(all.take(i as int));
        proof {
            assert(all.take(i + 1).drop_last() == all.take(i as int));
            assert(all.take(i + 1).last() == full@);
            if engine_args_with(before, full@).error is Some {
                lemma_args_error_stays(all, i + 1);
            }
        }
        let chars = chars_of(full);
        let n = chars.len();
        assert(chars@.subrange(0, n as int) == full@);
        let at = find_char(&chars, 0, n, '=');
        if at == n {
            return Err(failure(CliErrorKind::ExpectedKeyValue, String::from_str(full)));
        }
        let ghost key = full@.take(at as int);
        let ghost val = full@.skip(at + 1);
        let key_chars = chars_of(full.substring_char(0, at));
        assert(key_chars@ == key);
        let value = full.substring_char(at + 1, n).to_owned();
        assert(value@ == val);
        let key_span = Span { start: 0, end: at };
        assert(key_chars@.subrange(0, at as int) == key);
        if starts_with(&key_chars, "option.") {
            proof {
                reveal_strlit("option.");
            }
            let name = full.substring_char(7, at);
            assert(name@ == key.skip(7));
            if setting_exists(&tei_settings, name) {
                return Err(failure(CliErrorKind::DuplicateOption, name.to_owned()));
            }
            if eq_ignoring_case(name, "HalfKomi") {
                return Err(failure(CliErrorKind::ReservedOption, name.to_owned()));
            }
            let ghost old_settings = settings(tei_settings@);
            tei_settings.push((name.to_owned(), value));
            assert(settings(tei_settings@) =~= old_settings.push((name@, val)));
        } else if span_is(&key_chars, key_span, "path") {
            if path.is_some() {
                return Err(failure(CliErrorKind::DuplicatePath, value));
            }
            path = Some(value);
        } else if span_is(&key_chars, key_span, "arg") {
            if arg.is_some() {
                return Err(failure(CliErrorKind::DuplicateArg, value));
            }
            arg = Some(value);
        } else if span_is(&key_chars, key_span, "tc") {
            if tc.is_some() {
                return Err(failure(CliErrorKind::DuplicateTc, value));
            }
            tc = Some(value);
        } else {
            return Err(failure(CliErrorKind::UnknownArgument, String::from_str(full)));
        }
        i += 1;
    }
    assert(all.take(i as int) == all);
    let path = match path {
        Some(p) => p,
        None => {
            return Err(failure(CliErrorKind::MissingPath, String::new()));
        },
    };
    let tc = match tc {
        Some(t) => t,
        None => {
            return Err(failure(CliErrorKind::MissingTc, path));
        },
    };
    match parse_tc(tc.as_str()) {
        Ok((time, increment)) => Ok(
            CliEngine { path, cli_args: arg, time, increment, tei_settings },
        ),
        Err(_) => Err(failure(CliErrorKind::InvalidTc, tc)),
    }
}

/// The shape of the tournament, from the name of the format and the number
/// of engines: a gauntlet needs three engines, a round robin two, a book
/// test one, and the test of two engines just two.
pub open spec fn tournament_type_of(format: Seq<char>, engines: nat) -> Result<
    TournamentType,
    CliErrorKind,
> {
    if format == "gauntlet"@ {
        if engines >= 3 {
            Ok(TournamentType::Gauntlet((engines - 1) as usize))
        } else {
            Err(CliErrorKind::WrongEngineCount)
        }
    } else if format == "round-robin"@ {
        if engines >= 2 {
            Ok(TournamentType::RoundRobin(engines as usize))
        } else {
            Err(CliErrorKind::WrongEngineCount)
        }
    } else if format == "book-test"@ {
        if engines >= 1 {
            Ok(TournamentType::BookTest(engines as usize))
        } else {
            Err(CliErrorKind::WrongEngineCount)
        }
    } else if format == "sprt"@ {
        if engines == 2 {
            Ok(TournamentType::Sprt)
        } else {
            Err(CliErrorKind::WrongEngineCount)
        }
    } else {
        Err(CliErrorKind::UnsupportedFormat)
    }
}

pub fn tournament_type_for(format: &str, engines: usize) -> (r: Result<TournamentType, CliError>)
    ensures
        match tournament_type_of(format@, engines as nat) {
            Ok(t) => r == Ok::<TournamentType, CliError>(t),
            Err(kind) => r matches Err(e) && e@ == (CliErrorView { kind, argument: format@ }),
        },
{
    let wrong = if same_text(format, "gauntlet") {
        if engines >= 3 {
            return Ok(TournamentType::Gauntlet(engines - 1));
        }
        CliErrorKind::WrongEngineCount
    } else if same_text(format, "round-robin") {
        if engines >= 2 {
            return Ok(TournamentType::RoundRobin(engines));
        }
        CliErrorKind::WrongEngineCount
    } else if same_text(format, "book-test") {
        if engines >= 1 {
            return Ok(TournamentType::BookTest(engines));
        }
        CliErrorKind::WrongEngineCount
    } else if same_text(format, "sprt") {
        if engines == 2 {
            return Ok(TournamentType::Sprt);
        }
        CliErrorKind::WrongEngineCount
    } else {
        CliErrorKind::UnsupportedFormat
    };
    Err(failure(wrong, String::from_str(format)))
}

/// The number of engines that a format needs at least.
pub fn required_engines(format: &str) -> (n: usize)
    ensures
        n == if format@ == "gauntlet"@ {
            3usize
        } else if format@ == "round-robin"@ || format@ == "sprt"@ {
            2usize
        } else {
            1usize
        },
{
    if same_text(format, "gauntlet") {
        3
    } else if same_text(format, "round-robin") || same_text(format, "sprt") {
        2
    } else {
        1
    }
}

pub open spec fn book_format_of(name: Seq<char>) -> Option<BookFormat> {
    if name == "move-list"@ {
        Some(BookFormat::MoveList)
    } else if name == "tps"@ {
        Some(BookFormat::Fen)
    } else if name == "ptn"@ {
        Some(BookFormat::Pgn)
    } else {
        None
    }
}

pub fn book_format_for(name: &str) -> (r: Option<BookFormat>)
    ensures
        r == book_format_of(name@),
{
    if same_text(name, "move-list") {
        Some(BookFormat::MoveList)
    } else if same_text(name, "tps") {
        Some(BookFormat::Fen)
    } else if same_text(name, "ptn") {
        Some(BookFormat::Pgn)
    } else {
        None
    }
}

/// Whether the games are a whole number of periods, so that every engine
/// has the white and the black pieces equally often.
pub fn is_aligned(num_games: usize, tournament_type: TournamentType) -> (b: bool)
    requires
        tournament_type.wf(),
    ensures
        b == (num_games as int % tournament_type.period() as int == 0),
{
    num_games % tournament_type.alignment() == 0
}

/// The name of a shape as it is used in messages.
pub fn format_name(tournament_type: TournamentType) -> (s: &'static str)
    ensures
        s@ == match tournament_type {
            TournamentType::Gauntlet(_) => "gauntlet"@,
            TournamentType::RoundRobin(_) => "round robin"@,
            TournamentType::BookTest(_) => "book-test"@,
            TournamentType::Sprt => "sprt"@,
        },
{
    match tournament_type {
        TournamentType::Gauntlet(_) => "gauntlet",
        TournamentType::RoundRobin(_) => "round robin",
        TournamentType::BookTest(_) => "book-test",
        TournamentType::Sprt => "sprt",
    }
}

/// How an engine is to be started, from what the user has said of it and
/// the komi of the tournament: the komi is the last of its settings.
pub open spec fn builder_of(engine: CliEngineView, half_komi: i8) -> crate::engine::EngineBuilderView {
    crate::engine::EngineBuilderView {
        path: engine.path,
        args: engine.cli_args,
        desired_uci_options: engine.tei_settings.push(
            ("HalfKomi"@, crate::decimal::decimal_signed(half_komi as int)),
        ),
        game_time: engine.time as nat,
        increment: engine.increment as nat,
    }
}

pub fn engine_builder(engine: &CliEngine, half_komi: i8) -> (b: EngineBuilder)
    ensures
        b@ == builder_of(engine@, half_komi),
{
    let mut desired: Vec<(String, String)> = Vec::new();
    let mut i: usize = 0;
    while i < engine.tei_settings.len()
        invariant
            i <= engine.tei_settings@.len(),
            desired@.len() == i,
            forall|j: int| 0 <= j < i ==> desired@[j] == engine.tei_settings@[j],
        decreases engine.tei_settings@.len() - i,
    {
        desired.push((engine.tei_settings[i].0.clone(), engine.tei_settings[i].1.clone()));
        i += 1;
    }
    let mut komi = String::new();
    crate::decimal::push_signed(&mut komi, half_komi as i64);
    desired.push((String::from_str("HalfKomi"), komi));
    assert(settings(desired@) =~= settings(engine.tei_settings@).push(
        ("HalfKomi"@, crate::decimal::decimal_signed(half_komi as int)),
    ));
    EngineBuilder {
        path: engine.path.clone(),
        args: match &engine.cli_args {
            Some(a) => Some(a.clone()),
            None => None,
        },
        desired_uci_options: desired,
        game_time: engine.time,
        increment: engine.increment,
    }
}

/// How the engines of a tournament are to be started.
pub fn engine_builders(engines: &Vec<CliEngine>, half_komi: i8) -> (builders: Vec<EngineBuilder>)
    ensures
        builders@.len() == engines@.len(),
        forall|i: int|
            0 <= i < engines@.len() ==> (#[trigger] builders@[i])@ == builder_of(
                engines@[i]@,
                half_komi,
            ),
{
    let mut builders: Vec<EngineBuilder> = Vec::new();
    let mut i: usize = 0;
    while i < engines.len()
        invariant
            i <= engines@.len(),
            builders@.len() == i,
            forall|j: int|
                0 <= j < i ==> (#[trigger] builders@[j])@ == builder_of(engines@[j]@, half_komi),
        decreases engines@.len() - i,
    {
        builders.push(engine_builder(&engines[i], half_komi));
        i += 1;
    }
    builders
}

/// The parameters of a sequential probability ratio test, as the user has
/// written them: the two Elo hypotheses and the two error rates.
#[derive(Debug, PartialEq, Eq)]
pub struct SprtOptions {
    pub elo0: String,
    pub elo1: String,
    pub alpha: String,
    pub beta: String,
}

pub ghost struct SprtOptionsView {
    pub elo0: Seq<char>,
    pub elo1: Seq<char>,
    pub alpha: Seq<char>,
    pub beta: Seq<char>,
}

impl View for SprtOptions {
    type V = SprtOptionsView;

    open spec fn view(&self) -> SprtOptionsView {
        SprtOptionsView {
            elo0: self.elo0@,
            elo1: self.elo1@,
            alpha: self.alpha@,
            beta: self.beta@,
        }
    }
}

/// What has been read of the parameters of a test.
pub ghost struct SprtArgs {
    pub elo0: Option<Seq<char>>,
    pub elo1: Option<Seq<char>>,
    pub alpha: Option<Seq<char>>,
    pub beta: Option<Seq<char>>,
    /// The first error, where there is one. Nothing is read behind it.
    pub error: Option<CliErrorView>,
}

pub open spec fn failed_sprt(st: SprtArgs, kind: CliErrorKind, argument: Seq<char>) -> SprtArgs {
    SprtArgs { error: Some(CliErrorView { kind, argument }), ..st }
}

/// What has been read after one more argument, `key=value`, where the key
/// is one of `elo0`, `elo1`, `alpha` and `beta`. Each can be given once.
pub open spec fn sprt_args_with(st: SprtArgs, full: Seq<char>) -> SprtArgs {
    let at = index_of(full, '=');
    let key = full.take(at);
    let value = full.skip(at + 1);
    if st.error is Some {
        st
    } else if at == full.len() {
        failed_sprt(st, CliErrorKind::ExpectedKeyValue, full)
    } else if key == "elo0"@ {
        if st.elo0 is Some {
            failed_sprt(st, CliErrorKind::DuplicateElo0, value)
        } else {
            SprtArgs { elo0: Some(value), ..st }
        }
    } else if key == "elo1"@ {
        if st.elo1 is Some {
            failed_sprt(st, CliErrorKind::DuplicateElo1, value)
        } else {
            SprtArgs { elo1: Some(value), ..st }
        }
    } else if key == "alpha"@ {
        if st.alpha is Some {
            failed_sprt(st, CliErrorKind::DuplicateAlpha, value)
        } else {
            SprtArgs { alpha: Some(value), ..st }
        }
    } else if key == "beta"@ {
        if st.beta is Some {
            failed_sprt(st, CliErrorKind::DuplicateBeta, value)
        } else {
            SprtArgs { beta: Some(value), ..st }
        }
    } else {
        failed_sprt(st, CliErrorKind::UnknownArgument, full)
    }
}

pub open spec fn sprt_args(args: Seq<Seq<char>>) -> SprtArgs
    decreases args.len(),
{
    if args.len() == 0 {
        SprtArgs { elo0: None, elo1: None, alpha: None, beta: None, error: None }
    } else {
        sprt_args_with(sprt_args(args.drop_last()), args.last())
    }
}

pub proof fn lemma_sprt_error_stays(args: Seq<Seq<char>>, k: int)
    requires
        0 <= k <= args.len(),
        sprt_args(args.take(k)).error is Some,
    ensures
        sprt_args(args) == sprt_args(args.take(k)),
    decreases args.len() - k,
{
    if k == args.len() {
        assert(args.take(k) == args);
    } else {
        assert(args.take(k + 1).drop_last() == args.take(k));
        lemma_sprt_error_stays(args, k + 1);
    }
}

/// The parameters of the test that a list of arguments gives. The two
/// hypotheses must be there; an error rate that is not is 0.05.
pub open spec fn sprt_options_of(args: Seq<Seq<char>>) -> Result<SprtOptionsView, CliErrorView> {
    let st = sprt_args(args);
    if st.error is Some {
        Err(st.error->0)
    } else if st.elo0 is None {
        Err(CliErrorView { kind: CliErrorKind::MissingElo0, argument: Seq::empty() })
    } else if st.elo1 is None {
        Err(CliErrorView { kind: CliErrorKind::MissingElo1, argument: Seq::empty() })
    } else {
        Ok(
            SprtOptionsView {
                elo0: st.elo0->0,
                elo1: st.elo1->0,
                alpha: match st.alpha {
                    Some(a) => a,
                    None => "0.05"@,
                },
                beta: match st.beta {
                    Some(b) => b,
                    None => "0.05"@,
                },
            },
        )
    }
}

/// Reads the parameters of a test from their arguments.
#[verifier::loop_isolation(false)]
#[verifier::rlimit(50)]
pub fn parse_sprt_options(args: &Vec<String>) -> (r: Result<SprtOptions, CliError>)
    ensures
        match sprt_options_of(crate::uci::texts(args@)) {
            Ok(options) => r matches Ok(x) && x@ == options,
            Err(e) => r matches Err(x) && x@ == e,
        },
{
    let ghost all = crate::uci::texts(args@);
    let mut elo0: Option<String> = None;
    let mut elo1: Option<String> = None;
    let mut alpha: Option<String> = None;
    let mut beta: Option<String> = None;
    let mut i: usize = 0;
    assert(all.take(0) == Seq::<Seq<char>>::empty());
    while i < args.len()
        invariant
            i <= args@.len(),
            sprt_args(all.take(i as int)).error is None,
            sprt_args(all.take(i as int)).elo0 == match elo0 {
                Some(p) => Some(p@),
                None => None,
            },
            sprt_args(all.take(i as int)).elo1 == match elo1 {
                Some(p) => Some(p@),
                None => None,
            },
            sprt_args(all.take(i as int)).alpha == match alpha {
                Some(p) => Some(p@),
                None => None,
            },
            sprt_args(all.take(i as int)).beta == match beta {
                Some(p) => Some(p@),
                None => None,
            },
        decreases args@.len() - i,
    {
        let full = args[i].as_str();
        let ghost before = sprt_args(all.take(i as int));
        proof {
            assert(all.take(i + 1).drop_last() == all.take(i as int));
            assert(all.take(i + 1).last() == full@);
            if sprt_args_with(before, full@).error is Some {
                lemma_sprt_error_stays(all, i + 1);
            }
        }
        let chars = chars_of(full);
        let n = chars.len();
        assert(chars@.subrange(0, n as int) == full@);
        let at = find_char(&chars, 0, n, '=');
        if at == n {
            return Err(failure(CliErrorKind::ExpectedKeyValue, String::from_str(full)));
        }
        let key = Span { start: 0, end: at };
        assert(chars@.subrange(0, at as int) == full@.take(at as int));
        let value = full.substring_char(at + 1, n).to_owned();
        assert(value@ == full@.skip(at + 1));
        if span_is(&chars, key, "elo0") {
            if elo0.is_some() {
                return Err(failure(CliErrorKind::DuplicateElo0, value));
            }
            elo0 = Some(value);
        } else if span_is(&chars, key, "elo1") {
            if elo1.is_some() {
                return Err(failure(CliErrorKind::DuplicateElo1, value));
            }
            elo1 = Some(value);
        } else if span_is(&chars, key, "alpha") {
            if alpha.is_some() {
                return Err(failure(CliErrorKind::DuplicateAlpha, value));
            }
            alpha = Some(value);
        } else if span_is(&chars, key, "beta") {
            if beta.is_some() {
                return Err(failure(CliErrorKind::DuplicateBeta, value));
            }
            beta = Some(value);
        } else {
            return Err(failure(CliErrorKind::UnknownArgument, String::from_str(full)));
        }
        i += 1;
    }
    assert(all.take(i as int) == all);
    let elo0 = match elo0 {
        Some(e) => e,
        None => {
            return Err(failure(CliErrorKind::MissingElo0, String::new()));
        },
    };
    let elo1 = match elo1 {
        Some(e) => e,
        None => {
            return Err(failure(CliErrorKind::MissingElo1, String::new()));
        },
    };
    let alpha = match alpha {
        Some(a) => a,
        None => String::from_str("0.05"),
    };
    let beta = match beta {
        Some(b) => b,
        None => String::from_str("0.05"),
    };
    Ok(SprtOptions { elo0, elo1, alpha, beta })
}

} // verus!
