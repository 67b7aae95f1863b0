//! The command line.
use vstd::prelude::*;

use crate::state::RgMode;
use crate::text::{lowercased, same, starts_with, texts, to_chars};
use crate::track::text_view;

verus! {

/// What the options ask for.
pub struct Options {
    pub shuffle: bool,
    pub repeat: bool,
    pub quality: bool,
    pub eq: Option<String>,
    pub fx: Option<String>,
    pub crossfade_secs: u32,
    pub rg_mode: RgMode,
    pub device: Option<String>,
    pub exclusive: bool,
}

/// What the command line asks for.
pub enum Command {
    /// Print how the program is used.
    Help,
    /// List the output devices.
    ListDevices,
    /// Go on where the last session ended.
    Resume(Options),
    /// Play these sources.
    Play(Vec<String>, Options),
}

/// Why a command line is refused.
pub enum ArgError {
    /// An option that is not known.
    Unknown(String),
    /// Nothing to play is named.
    NoInput,
}

impl ArgError {
    /// What is told of it.
    pub fn message(&self) -> (r: String)
        ensures
            r@ == (match self {
                ArgError::Unknown(a) => "Unknown option: "@ + a@
                    + "\nRun with --help for usage information"@,
                ArgError::NoInput => "No input files or folders specified"@,
            }),
    {
        match self {
            ArgError::Unknown(a) => {
                let mut out = "Unknown option: ".to_string();
                out.append(a.as_str());
                out.append("\nRun with --help for usage information");
                out
            },
            ArgError::NoInput => "No input files or folders specified".to_string(),
        }
    }
}

/// The options with their texts as characters.
#[verifier::ext_equal]
pub ghost struct OptionsView {
    pub shuffle: bool,
    pub repeat: bool,
    pub quality: bool,
    pub eq: Option<Seq<char>>,
    pub fx: Option<Seq<char>>,
    pub crossfade_secs: u32,
    pub rg_mode: RgMode,
    pub device: Option<Seq<char>>,
    pub exclusive: bool,
}

impl View for Options {
    type V = OptionsView;

    open spec fn view(&self) -> OptionsView {
        OptionsView {
            shuffle: self.shuffle,
            repeat: self.repeat,
            quality: self.quality,
            eq: text_view(self.eq),
            fx: text_view(self.fx),
            crossfade_secs: self.crossfade_secs,
            rg_mode: self.rg_mode,
            device: text_view(self.device),
            exclusive: self.exclusive,
        }
    }
}

/// A command line that was read, with its texts as characters.
pub ghost enum CommandView {
    Help,
    ListDevices,
    Resume(OptionsView),
    Play(Seq<Seq<char>>, OptionsView),
    Unknown(Seq<char>),
    NoInput,
}

/// What came of reading a command line, with its texts as characters.
pub open spec fn command_view(r: Result<Command, ArgError>) -> CommandView {
    match r {
        Ok(Command::Help) => CommandView::Help,
        Ok(Command::ListDevices) => CommandView::ListDevices,
        Ok(Command::Resume(o)) => CommandView::Resume(o@),
        Ok(Command::Play(s, o)) => CommandView::Play(texts(s@), o@),
        Err(ArgError::Unknown(a)) => CommandView::Unknown(a@),
        Err(ArgError::NoInput) => CommandView::NoInput,
    }
}

/// Whether one of two words is among the arguments.
pub open spec fn has_either(args: Seq<Seq<char>>, a: Seq<char>, b: Seq<char>) -> bool {
    args.contains(a) || args.contains(b)
}

/// Whether one of two words is among the arguments.
fn has_word(args: &Vec<String>, a: &str, b: &str) -> (r: bool)
    ensures
        r == has_either(texts(args@), a@, b@),
{
    let ghost all = texts(args@);
    let mut i: usize = 0;
    while i < args.len()
        invariant
            all == texts(args@),
            i <= args.len(),
            forall|k: int| 0 <= k < i ==> #[trigger] all[k] != a@ && all[k] != b@,
        decreases args.len() - i,
    {
        assert(all[i as int] == args@[i as int]@);
        if same(args[i].as_str(), a) || same(args[i].as_str(), b) {
            return true;
        }
        i = i + 1;
    }
    false
}

/// The argument behind the first of the arguments from `from` on that is one of
/// two words.
pub open spec fn value_of(args: Seq<Seq<char>>, a: Seq<char>, b: Seq<char>, from: int) -> Option<
    Seq<char>,
>
    decreases args.len() - from,
{
    if from < 0 || from >= args.len() {
        None
    } else if args[from] == a || args[from] == b {
        if from + 1 < args.len() {
            Some(args[from + 1])
        } else {
            None
        }
    } else {
        value_of(args, a, b, from + 1)
    }
}

/// The argument behind the first of two words.
fn find_value(args: &Vec<String>, a: &str, b: &str) -> (r: Option<String>)
    ensures
        text_view(r) == value_of(texts(args@), a@, b@, 0),
{
    let ghost all = texts(args@);
    let mut i: usize = 0;
    while i < args.len()
        invariant
            all == texts(args@),
            i <= args.len(),
            value_of(all, a@, b@, i as int) == value_of(all, a@, b@, 0),
        decreases args.len() - i,
    {
        assert(all[i as int] == args@[i as int]@);
        if same(args[i].as_str(), a) || same(args[i].as_str(), b) {
            if i + 1 < args.len() {
                assert(all[i + 1] == args@[i + 1]@);
                return Some(args[i + 1].clone());
            }
            return None;
        }
        i = i + 1;
    }
    None
}

/// Whether a character is a decimal digit.
pub open spec fn is_digit(c: char) -> bool {
    '0' <= c && c <= '9'
}

/// The number that digits stand for.
pub open spec fn number_of(s: Seq<char>) -> nat
    decreases s.len(),
{
    if s.len() == 0 {
        0
    } else {
        number_of(s.drop_last()) * 10 + (s.last() as nat - '0' as nat) as nat
    }
}

/// A text without the plus sign in front of it.
pub open spec fn behind_plus(s: Seq<char>) -> Seq<char> {
    if s.len() > 0 && s[0] == '+' {
        s.drop_first()
    } else {
        s
    }
}

/// Whether a text is made of digits alone.
pub open spec fn all_digits(s: Seq<char>) -> bool {
    forall|i: int| 0 <= i < s.len() ==> is_digit(#[trigger] s[i])
}

/// The number that a text stands for: digits, with a plus sign in front or not;
/// none where it does not fit in 32 bits.
pub open spec fn parsed_number(s: Seq<char>) -> Option<u32> {
    let digits = behind_plus(s);
    if digits.len() > 0 && all_digits(digits) && number_of(digits) <= u32::MAX {
        Some(number_of(digits) as u32)
    } else {
        None
    }
}

/// The number of a longer text is not smaller.
proof fn lemma_number_grows(s: Seq<char>, i: int)
    requires
        0 <= i <= s.len(),
        all_digits(s),
    ensures
        number_of(s.take(i)) <= number_of(s),
    decreases s.len() - i,
{
    if i < s.len() {
        lemma_number_grows(s, i + 1);
        assert(s.take(i + 1).drop_last() =~= s.take(i));
        assert(is_digit(s[i]));
    } else {
        assert(s.take(i) =~= s);
    }
}

/// The number that a text stands for.
pub fn parse_number(s: &str) -> (r: Option<u32>)
    ensures
        r == parsed_number(s@),
{
    let v = to_chars(s);
    let start: usize = if v.len() > 0 && v[0] == '+' {
        1
    } else {
        0
    };
    let ghost digits = behind_plus(s@);
    assert(digits =~= v@.skip(start as int));
    if v.len() == start {
        return None;
    }
    let mut n: u64 = 0;
    let mut i: usize = start;
    assert(digits.take(0) =~= Seq::<char>::empty());
    while i < v.len()
        invariant
            start <= i <= v.len(),
            start < v.len(),
            v@ == s@,
            digits == v@.skip(start as int),
            digits == behind_plus(s@),
            n <= u32::MAX,
            n == number_of(digits.take(i - start)),
            forall|k: int| 0 <= k < i - start ==> is_digit(#[trigger] digits[k]),
        decreases v.len() - i,
    {
        let c = v[i];
        let ghost k = i - start;
        assert(digits[k] == c);
        if !('0' <= c && c <= '9') {
            return None;
        }
        assert(digits.take(k + 1).drop_last() =~= digits.take(k));
        assert(digits.take(k + 1).last() == c);
        n = n * 10 + (c as u64 - '0' as u64);
        if n > u32::MAX as u64 {
            proof {
                if all_digits(digits) {
                    lemma_number_grows(digits, k + 1);
                }
            }
            return None;
        }
        i = i + 1;
    }
    assert(digits.take(i - start) =~= digits);
    Some(n as u32)
}

/// The mode of loudness that a word names; every other word means the track's.
pub open spec fn rg_mode_of(word: Seq<char>) -> RgMode {
    if word == "album"@ {
        RgMode::Album
    } else if word == "off"@ {
        RgMode::Off
    } else {
        RgMode::Track
    }
}

/// The mode of loudness that a word in small letters names.
pub fn rg_mode_named(word: &str) -> (r: RgMode)
    ensures
        r == rg_mode_of(word@),
{
    if same(word, "album") {
        RgMode::Album
    } else if same(word, "off") {
        RgMode::Off
    } else {
        RgMode::Track
    }
}

/// What the options among the arguments ask for.
pub open spec fn options_of(args: Seq<Seq<char>>) -> OptionsView {
    OptionsView {
        shuffle: has_either(args, "--shuffle"@, "-s"@),
        repeat: has_either(args, "--repeat"@, "-r"@),
        quality: has_either(args, "--quality"@, "-q"@),
        eq: value_of(args, "--eq"@, "-e"@, 0),
        fx: value_of(args, "--fx"@, "--fx"@, 0),
        crossfade_secs: match value_of(args, "--crossfade"@, "-x"@, 0) {
            Some(s) => match parsed_number(s) {
                Some(n) => n,
                None => 0,
            },
            None => 0,
        },
        rg_mode: match value_of(args, "--rg-mode"@, "--rg-mode"@, 0) {
            Some(s) => rg_mode_of(lowercased(s)),
            None => RgMode::Track,
        },
        device: value_of(args, "--device"@, "--device"@, 0),
        exclusive: has_either(args, "--exclusive"@, "--exclusive"@),
    }
}

fn read_options(args: &Vec<String>) -> (r: Options)
    ensures
        r@ == options_of(texts(args@)),
{
    let crossfade_secs: u32 = match find_value(args, "--crossfade", "-x") {
        Some(s) => match parse_number(s.as_str()) {
            Some(n) => n,
            None => 0,
        },
        None => 0,
    };
    let rg_mode = match find_value(args, "--rg-mode", "--rg-mode") {
        Some(s) => rg_mode_named(s.as_str().to_lowercase().as_str()),
        None => RgMode::Track,
    };
    Options {
        shuffle: has_word(args, "--shuffle", "-s"),
        repeat: has_word(args, "--repeat", "-r"),
        quality: has_word(args, "--quality", "-q"),
        eq: find_value(args, "--eq", "-e"),
        fx: find_value(args, "--fx", "--fx"),
        crossfade_secs,
        rg_mode,
        device: find_value(args, "--device", "--device"),
        exclusive: has_word(args, "--exclusive", "--exclusive"),
    }
}

/// The options that take a value.
pub open spec fn takes_value(a: Seq<char>) -> bool {
    a == "--eq"@ || a == "-e"@ || a == "--fx"@ || a == "--crossfade"@ || a == "-x"@ || a
        == "--rg-mode"@ || a == "--device"@
}

/// The options that stand alone.
pub open spec fn stands_alone(a: Seq<char>) -> bool {
    a == "--shuffle"@ || a == "-s"@ || a == "--repeat"@ || a == "-r"@ || a == "--quality"@ || a
        == "-q"@ || a == "--list-devices"@ || a == "--exclusive"@ || a == "--help"@ || a == "-h"@
}

/// Whether an argument looks like an option: two hyphens in front, or a hyphen
/// and one more byte.
pub open spec fn looks_like_option(a: Seq<char>) -> bool {
    "--"@.is_prefix_of(a) || ("-"@.is_prefix_of(a) && vstd::utf8::encode_utf8(a).len() == 2)
}

fn is_value_flag(a: &str) -> (r: bool)
    ensures
        r == takes_value(a@),
{
    same(a, "--eq") || same(a, "-e") || same(a, "--fx") || same(a, "--crossfade") || same(a, "-x")
        || same(a, "--rg-mode") || same(a, "--device")
}

fn is_plain_flag(a: &str) -> (r: bool)
    ensures
        r == stands_alone(a@),
{
    same(a, "--shuffle") || same(a, "-s") || same(a, "--repeat") || same(a, "-r") || same(
        a,
        "--quality",
    ) || same(a, "-q") || same(a, "--list-devices") || same(a, "--exclusive") || same(a, "--help")
        || same(a, "-h")
}

fn is_option_like(a: &str) -> (r: bool)
    ensures
        r == looks_like_option(a@),
{
    starts_with(a, "--") || (starts_with(a, "-") && a.as_bytes().len() == 2)
}

/// The sources among the arguments from `i` on: what is neither an option nor the
/// value of one. An option that is not known is an error.
pub open spec fn sources_from(args: Seq<Seq<char>>, i: int, skip: bool) -> Result<
    Seq<Seq<char>>,
    Seq<char>,
>
    decreases args.len() - i,
{
    if i < 0 || i >= args.len() {
        Ok(Seq::empty())
    } else if skip {
        sources_from(args, i + 1, false)
    } else if takes_value(args[i]) {
        sources_from(args, i + 1, true)
    } else if stands_alone(args[i]) {
        sources_from(args, i + 1, false)
    } else if looks_like_option(args[i]) {
        Err(args[i])
    } else {
        match sources_from(args, i + 1, false) {
            Ok(rest) => Ok(seq![args[i]] + rest),
            Err(a) => Err(a),
        }
    }
}

/// Sources that were found, with more behind them.
pub open spec fn with_more(
    found: Seq<Seq<char>>,
    more: Result<Seq<Seq<char>>, Seq<char>>,
) -> Result<Seq<Seq<char>>, Seq<char>> {
    match more {
        Ok(rest) => Ok(found + rest),
        Err(a) => Err(a),
    }
}

fn find_sources(args: &Vec<String>) -> (r: Result<Vec<String>, String>)
    requires
        args.len() > 0,
    ensures
        match r {
            Ok(v) => sources_from(texts(args@), 1, false) == Ok::<Seq<Seq<char>>, Seq<char>>(
                texts(v@),
            ),
            Err(a) => sources_from(texts(args@), 1, false) == Err::<Seq<Seq<char>>, Seq<char>>(a@),
        },
{
    let ghost all = texts(args@);
    let ghost goal = sources_from(all, 1, false);
    let mut out: Vec<String> = Vec::new();
    let mut skip = false;
    let mut i: usize = 1;
    proof {
        assert(texts(out@) =~= Seq::<Seq<char>>::empty());
        if goal is Ok {
            assert(texts(out@) + goal->Ok_0 =~= goal->Ok_0);
        }
    }
    while i < args.len()
        invariant
            all == texts(args@),
            1 <= i <= args.len(),
            goal == sources_from(all, 1, false),
            goal == with_more(texts(out@), sources_from(all, i as int, skip)),
        decreases args.len() - i,
    {
        let arg = args[i].as_str();
        assert(all[i as int] == arg@);
        if skip {
            skip = false;
        } else if is_value_flag(arg) {
            skip = true;
        } else if is_plain_flag(arg) {
        } else if is_option_like(arg) {
            return Err(args[i].clone());
        } else {
            let ghost before = texts(out@);
            out.push(args[i].clone());
            proof {
                assert(texts(out@) =~= before.push(arg@));
                let rest = sources_from(all, i + 1, false);
                if rest is Ok {
                    assert(before + (seq![arg@] + rest->Ok_0) =~= texts(out@) + rest->Ok_0);
                }
            }
        }
        i = i + 1;
    }
    assert(texts(out@) + Seq::<Seq<char>>::empty() =~= texts(out@));
    Ok(out)
}

/// What a command line asks for. Help comes first, then the list of devices;
/// without arguments the last session goes on.
pub open spec fn command_of(args: Seq<Seq<char>>) -> CommandView {
    if has_either(args, "--help"@, "-h"@) {
        CommandView::Help
    } else if has_either(args, "--list-devices"@, "--list-devices"@) {
        CommandView::ListDevices
    } else if args.len() < 2 {
        CommandView::Resume(options_of(args))
    } else {
        match sources_from(args, 1, false) {
            Ok(sources) => if sources.len() == 0 {
                CommandView::NoInput
            } else {
                CommandView::Play(sources, options_of(args))
            },
            Err(a) => CommandView::Unknown(a),
        }
    }
}

/// Reads a command line, whose first argument is the program.
pub fn parse_args(args: &Vec<String>) -> (r: Result<Command, ArgError>)
    ensures
        command_view(r) == command_of(texts(args@)),
{
    if has_word(args, "--help", "-h") {
        return Ok(Command::Help);
    }
    if has_word(args, "--list-devices", "--list-devices") {
        return Ok(Command::ListDevices);
    }
    assert(texts(args@).len() == args.len());
    let options = read_options(args);
    if args.len() < 2 {
        return Ok(Command::Resume(options));
    }
    match find_sources(args) {
        Ok(sources) => {
            assert(texts(sources@).len() == sources.len());
            if sources.len() == 0 {
                Err(ArgError::NoInput)
            } else {
                Ok(Command::Play(sources, options))
            }
        },
        Err(a) => Err(ArgError::Unknown(a)),
    }
}

/// Every source that is played was named on the command line, and none of them
/// looks like an option.
pub proof fn law_sources_are_named(args: Seq<Seq<char>>, i: int, skip: bool)
    requires
        i >= 0,
        sources_from(args, i, skip) is Ok,
    ensures
        forall|k: int|
            0 <= k < sources_from(args, i, skip)->Ok_0.len() ==> {
                let s = #[trigger] sources_from(args, i, skip)->Ok_0[k];
                args.contains(s) && !looks_like_option(s) && !takes_value(s) && !stands_alone(s)
            },
    decreases args.len() - i,
{
    if i < args.len() {
        if skip {
            law_sources_are_named(args, i + 1, false);
        } else if takes_value(args[i]) {
            law_sources_are_named(args, i + 1, true);
        } else if stands_alone(args[i]) {
            law_sources_are_named(args, i + 1, false);
        } else {
            law_sources_are_named(args, i + 1, false);
            let rest = sources_from(args, i + 1, false)->Ok_0;
            let all = sources_from(args, i, skip)->Ok_0;
            assert(all =~= seq![args[i]] + rest);
            assert forall|k: int| 0 <= k < all.len() implies {
                let s = #[trigger] all[k];
                args.contains(s) && !looks_like_option(s) && !takes_value(s) && !stands_alone(s)
            } by {
                if k > 0 {
                    assert(all[k] == rest[k - 1]);
                }
            }
        }
    }
}

/// The options that a command line asks for, where it plays or resumes.
pub open spec fn options_in(r: Result<Command, ArgError>) -> Option<Options> {
    match r {
        Ok(Command::Resume(o)) => Some(o),
        Ok(Command::Play(_, o)) => Some(o),
        _ => None,
    }
}

/// The switches of a command line are those whose words are among its arguments: each has
/// words of its own.
pub proof fn law_switches_have_their_words(args: Seq<Seq<char>>, r: Result<Command, ArgError>, o: Options)
    requires
        command_view(r) == command_of(args),
        options_in(r) == Some(o),
    ensures
        o.shuffle <==> args.contains("--shuffle"@) || args.contains("-s"@),
        o.repeat <==> args.contains("--repeat"@) || args.contains("-r"@),
        o.quality <==> args.contains("--quality"@) || args.contains("-q"@),
        o.exclusive <==> args.contains("--exclusive"@),
{
    assert(o@ == options_of(args));
}

/// Whether the argument at `i` is the first that is one of two words.
pub open spec fn first_word(args: Seq<Seq<char>>, i: int, a: Seq<char>, b: Seq<char>) -> bool {
    &&& 0 <= i < args.len() && (args[i] == a || args[i] == b)
    &&& forall|k: int| 0 <= k < i ==> #[trigger] args[k] != a && args[k] != b
}

proof fn lemma_value_of(args: Seq<Seq<char>>, a: Seq<char>, b: Seq<char>, from: int, i: int)
    requires
        0 <= from <= i,
        first_word(args, i, a, b),
    ensures
        value_of(args, a, b, from) == (if i + 1 < args.len() {
            Some(args[i + 1])
        } else {
            None
        }),
    decreases i - from,
{
    if from < i {
        assert(args[from] != a && args[from] != b);
        lemma_value_of(args, a, b, from + 1, i);
    }
}

proof fn lemma_no_value(args: Seq<Seq<char>>, a: Seq<char>, b: Seq<char>, from: int)
    requires
        0 <= from,
        !args.contains(a) && !args.contains(b),
    ensures
        value_of(args, a, b, from) is None,
    decreases args.len() - from,
{
    if from < args.len() {
        assert(args.contains(args[from]));
        lemma_no_value(args, a, b, from + 1);
    }
}

/// The values of a command line are the arguments behind the first of their words.
pub proof fn law_values_stand_behind_their_words(
    args: Seq<Seq<char>>,
    r: Result<Command, ArgError>,
    o: Options,
    i: int,
)
    requires
        command_view(r) == command_of(args),
        options_in(r) == Some(o),
        0 <= i && i + 1 < args.len(),
    ensures
        first_word(args, i, "--eq"@, "-e"@) ==> (o.eq matches Some(v) && v@ == args[i + 1]),
        first_word(args, i, "--fx"@, "--fx"@) ==> (o.fx matches Some(v) && v@ == args[i + 1]),
        first_word(args, i, "--device"@, "--device"@) ==> (o.device matches Some(v) && v@ == args[i
            + 1]),
        first_word(args, i, "--crossfade"@, "-x"@) ==> o.crossfade_secs == (match parsed_number(
            args[i + 1],
        ) {
            Some(n) => n,
            None => 0,
        }),
        first_word(args, i, "--rg-mode"@, "--rg-mode"@) ==> {
            let word = lowercased(args[i + 1]);
            &&& word == "album"@ ==> o.rg_mode == RgMode::Album
            &&& word == "off"@ ==> o.rg_mode == RgMode::Off
            &&& word != "album"@ && word != "off"@ ==> o.rg_mode == RgMode::Track
        },
{
    assert(o@ == options_of(args));
    if first_word(args, i, "--eq"@, "-e"@) {
        lemma_value_of(args, "--eq"@, "-e"@, 0, i);
    }
    if first_word(args, i, "--fx"@, "--fx"@) {
        lemma_value_of(args, "--fx"@, "--fx"@, 0, i);
    }
    if first_word(args, i, "--device"@, "--device"@) {
        lemma_value_of(args, "--device"@, "--device"@, 0, i);
    }
    if first_word(args, i, "--crossfade"@, "-x"@) {
        lemma_value_of(args, "--crossfade"@, "-x"@, 0, i);
    }
    if first_word(args, i, "--rg-mode"@, "--rg-mode"@) {
        lemma_value_of(args, "--rg-mode"@, "--rg-mode"@, 0, i);
        reveal_strlit("album");
        reveal_strlit("off");
        assert("album"@.len() != "off"@.len());
    }
}

/// What no word asks for stays as it is without options: no presets, no device, no
/// crossfade, and the loudness of the track.
pub proof fn law_values_without_words(args: Seq<Seq<char>>, r: Result<Command, ArgError>, o: Options)
    requires
        command_view(r) == command_of(args),
        options_in(r) == Some(o),
    ensures
        !args.contains("--eq"@) && !args.contains("-e"@) ==> o.eq is None,
        !args.contains("--fx"@) ==> o.fx is None,
        !args.contains("--device"@) ==> o.device is None,
        !args.contains("--crossfade"@) && !args.contains("-x"@) ==> o.crossfade_secs == 0,
        !args.contains("--rg-mode"@) ==> o.rg_mode == RgMode::Track,
{
    assert(o@ == options_of(args));
    if !args.contains("--eq"@) && !args.contains("-e"@) {
        lemma_no_value(args, "--eq"@, "-e"@, 0);
    }
    if !args.contains("--fx"@) {
        lemma_no_value(args, "--fx"@, "--fx"@, 0);
    }
    if !args.contains("--device"@) {
        lemma_no_value(args, "--device"@, "--device"@, 0);
    }
    if !args.contains("--crossfade"@) && !args.contains("-x"@) {
        lemma_no_value(args, "--crossfade"@, "-x"@, 0);
    }
    if !args.contains("--rg-mode"@) {
        lemma_no_value(args, "--rg-mode"@, "--rg-mode"@, 0);
    }
}

/// A number is read back from its decimal digits, with a plus sign in front or not.
pub proof fn law_numbers_are_read_back(n: nat)
    requires
        n <= u32::MAX,
    ensures
        parsed_number(crate::text::decimal(n)) == Some(n as u32),
        parsed_number(seq!['+'] + crate::text::decimal(n)) == Some(n as u32),
{
    lemma_decimal_digits(n);
    let d = crate::text::decimal(n);
    assert(is_digit(d[0]));
    assert(behind_plus(d) == d);
    assert((seq!['+'] + d).drop_first() =~= d);
}

proof fn lemma_decimal_digits(n: nat)
    ensures
        crate::text::decimal(n).len() > 0,
        all_digits(crate::text::decimal(n)),
        number_of(crate::text::decimal(n)) == n,
    decreases n,
{
    let d = crate::text::decimal(n);
    if n >= 10 {
        lemma_decimal_digits(n / 10);
        assert(d.drop_last() =~= crate::text::decimal(n / 10));
        assert forall|i: int| 0 <= i < d.len() implies is_digit(#[trigger] d[i]) by {
            if i < d.len() - 1 {
                assert(d[i] == crate::text::decimal(n / 10)[i]);
            }
        }
    } else {
        assert(d.drop_last() =~= Seq::<char>::empty());
        assert(number_of(d.drop_last()) == 0);
    }
}

/// Whether an argument does not begin as options do.
pub open spec fn is_bare(a: Seq<char>) -> bool {
    a.len() == 0 || a[0] != '-'
}

/// Whether no argument from `from` on begins as options do.
pub open spec fn bare_from(args: Seq<Seq<char>>, from: int) -> bool {
    forall|i: int| from <= i < args.len() ==> is_bare(#[trigger] args[i])
}

proof fn lemma_bare(a: Seq<char>)
    requires
        is_bare(a),
    ensures
        !takes_value(a) && !stands_alone(a) && !looks_like_option(a),
{
    lemma_words();
    reveal_strlit("--");
    reveal_strlit("-");
    if "--"@.is_prefix_of(a) {
        assert(a[0] == a.take(2)[0]);
        assert("--"@[0] == '-');
    }
    if "-"@.is_prefix_of(a) {
        assert(a[0] == a.take(1)[0]);
        assert("-"@[0] == '-');
    }
}

/// The words of the options all begin with a hyphen.
proof fn lemma_words()
    ensures
        forall|a: Seq<char>| takes_value(a) || stands_alone(a) ==> a.len() > 0 && a[0] == '-',
{
    reveal_strlit("--eq");
    reveal_strlit("-e");
    reveal_strlit("--fx");
    reveal_strlit("--crossfade");
    reveal_strlit("-x");
    reveal_strlit("--rg-mode");
    reveal_strlit("--device");
    reveal_strlit("--shuffle");
    reveal_strlit("-s");
    reveal_strlit("--repeat");
    reveal_strlit("-r");
    reveal_strlit("--quality");
    reveal_strlit("-q");
    reveal_strlit("--list-devices");
    reveal_strlit("--exclusive");
    reveal_strlit("--help");
    reveal_strlit("-h");
}

proof fn lemma_bare_sources(args: Seq<Seq<char>>, i: int)
    requires
        0 <= i <= args.len(),
        bare_from(args, i),
    ensures
        sources_from(args, i, false) == Ok::<Seq<Seq<char>>, Seq<char>>(args.skip(i)),
    decreases args.len() - i,
{
    if i < args.len() {
        lemma_bare(args[i]);
        lemma_bare_sources(args, i + 1);
        assert(seq![args[i]] + args.skip(i + 1) =~= args.skip(i));
    } else {
        assert(args.skip(i) =~= Seq::<Seq<char>>::empty());
    }
}

proof fn lemma_bare_front(args: Seq<Seq<char>>, i: int, n: int)
    requires
        0 <= i <= n <= args.len(),
        forall|k: int| i <= k < n ==> is_bare(#[trigger] args[k]),
    ensures
        sources_from(args, i, false) == with_more(
            args.subrange(i, n),
            sources_from(args, n, false),
        ),
    decreases n - i,
{
    let more = sources_from(args, n, false);
    if i < n {
        lemma_bare(args[i]);
        lemma_bare_front(args, i + 1, n);
        assert(args.subrange(i, n) =~= seq![args[i]] + args.subrange(i + 1, n));
        if more is Ok {
            assert(seq![args[i]] + (args.subrange(i + 1, n) + more->Ok_0) =~= args.subrange(i, n)
                + more->Ok_0);
        }
    } else {
        assert(args.subrange(i, n) =~= Seq::<Seq<char>>::empty());
        if more is Ok {
            assert(args.subrange(i, n) + more->Ok_0 =~= more->Ok_0);
        }
    }
}

/// The sources that a command line plays.
pub open spec fn sources_in(r: Result<Command, ArgError>) -> Option<Seq<Seq<char>>> {
    match r {
        Ok(Command::Play(s, _)) => Some(texts(s@)),
        _ => None,
    }
}

/// Whether an argument asks for help or for the list of devices.
pub open spec fn asks_to_tell(a: Seq<char>) -> bool {
    a == "--help"@ || a == "-h"@ || a == "--list-devices"@
}

/// Arguments that do not begin as options do are sources, all of them, in their order.
pub proof fn law_bare_arguments_are_sources(args: Seq<Seq<char>>, r: Result<Command, ArgError>)
    requires
        command_view(r) == command_of(args),
        args.len() >= 2,
        bare_from(args, 0),
    ensures
        sources_in(r) == Some(args.skip(1)),
{
    lemma_tells_nothing(args);
    lemma_bare_sources(args, 1);
}

proof fn lemma_tells_nothing(args: Seq<Seq<char>>)
    requires
        forall|i: int| 0 <= i < args.len() ==> !asks_to_tell(#[trigger] args[i]) || is_bare(args[i]),
    ensures
        !args.contains("--help"@) && !args.contains("-h"@) && !args.contains("--list-devices"@),
{
    reveal_strlit("--help");
    reveal_strlit("-h");
    reveal_strlit("--list-devices");
    if args.contains("--help"@) {
        let i = choose|i: int| 0 <= i < args.len() && args[i] == "--help"@;
        assert(asks_to_tell(args[i]));
    }
    if args.contains("-h"@) {
        let i = choose|i: int| 0 <= i < args.len() && args[i] == "-h"@;
        assert(asks_to_tell(args[i]));
    }
    if args.contains("--list-devices"@) {
        let i = choose|i: int| 0 <= i < args.len() && args[i] == "--list-devices"@;
        assert(asks_to_tell(args[i]));
    }
}

/// An option with a value takes the argument behind it out of the sources, whatever it is;
/// a switch takes nothing; and a word with two hyphens that is neither is refused.
pub proof fn law_options_are_no_sources(
    args: Seq<Seq<char>>,
    n: int,
    r: Result<Command, ArgError>,
)
    requires
        command_view(r) == command_of(args),
        1 <= n < args.len(),
        args.len() >= 3,
        forall|i: int| 0 <= i < args.len() ==> !asks_to_tell(#[trigger] args[i]),
        forall|i: int| 1 <= i < n ==> is_bare(#[trigger] args[i]),
    ensures
        ({
            let word = args[n];
            let value = word == "--eq"@ || word == "-e"@ || word == "--fx"@ || word
                == "--crossfade"@ || word == "-x"@ || word == "--rg-mode"@ || word == "--device"@;
            let switch = word == "--shuffle"@ || word == "-s"@ || word == "--repeat"@ || word
                == "-r"@ || word == "--quality"@ || word == "-q"@ || word == "--exclusive"@;
            &&& value && n + 1 < args.len() && bare_from(args, n + 2) && args.len() > 3
                ==> sources_in(r) == Some(args.subrange(1, n) + args.skip(n + 2))
            &&& switch && bare_from(args, n + 1) ==> sources_in(r) == Some(
                args.subrange(1, n) + args.skip(n + 1),
            )
            &&& !value && !switch && word.len() > 2 && word[0] == '-' && word[1] == '-'
                ==> command_view(r) == CommandView::Unknown(word)
        }),
{
    lemma_tells_nothing(args);
    lemma_bare_front(args, 1, n);
    let word = args[n];
    if word == "--shuffle"@ || word == "-s"@ || word == "--repeat"@ || word == "-r"@ || word
        == "--quality"@ || word == "-q"@ || word == "--exclusive"@ {
        lemma_switch(word);
    }
    assert(!asks_to_tell(word));
    if bare_from(args, n + 1) {
        lemma_bare_sources(args, n + 1);
    }
    if n + 1 < args.len() && bare_from(args, n + 2) {
        lemma_bare_sources(args, n + 2);
        assert(sources_from(args, n + 1, true) == sources_from(args, n + 2, false));
    }
    if word.len() > 2 && word[0] == '-' && word[1] == '-' {
        reveal_strlit("--");
        assert("--"@ =~= word.take(2));
        assert("--"@.is_prefix_of(word));
    }
}

/// A switch takes no value.
proof fn lemma_switch(word: Seq<char>)
    requires
        word == "--shuffle"@ || word == "-s"@ || word == "--repeat"@ || word == "-r"@ || word
            == "--quality"@ || word == "-q"@ || word == "--exclusive"@,
    ensures
        !takes_value(word) && stands_alone(word),
{
    reveal_strlit("--eq");
    reveal_strlit("-e");
    reveal_strlit("--fx");
    reveal_strlit("--crossfade");
    reveal_strlit("-x");
    reveal_strlit("--rg-mode");
    reveal_strlit("--device");
    reveal_strlit("--shuffle");
    reveal_strlit("-s");
    reveal_strlit("--repeat");
    reveal_strlit("-r");
    reveal_strlit("--quality");
    reveal_strlit("-q");
    reveal_strlit("--exclusive");
    assert("--eq"@[2] == 'e');
    assert("-e"@[1] == 'e');
    assert("--fx"@[2] == 'f');
    assert("--crossfade"@[2] == 'c');
    assert("-x"@[1] == 'x');
    assert("--rg-mode"@[2] == 'r');
    assert("--device"@[2] == 'd');
    assert("--shuffle"@[2] == 's');
    assert("-s"@[1] == 's');
    assert("--repeat"@[2] == 'r');
    assert("-r"@[1] == 'r');
    assert("--quality"@[2] == 'q');
    assert("-q"@[1] == 'q');
    assert("--exclusive"@[2] == 'e');
    assert("--eq"@.len() == 4);
    assert("-e"@.len() == 2);
    assert("--fx"@.len() == 4);
    assert("--crossfade"@.len() == 11);
    assert("-x"@.len() == 2);
    assert("--rg-mode"@.len() == 9);
    assert("--device"@.len() == 8);
    assert("--shuffle"@.len() == 9);
    assert("-s"@.len() == 2);
    assert("--repeat"@.len() == 8);
    assert("-r"@.len() == 2);
    assert("--quality"@.len() == 9);
    assert("-q"@.len() == 2);
    assert("--exclusive"@.len() == 11);
}

/// Help is given wherever it is asked for, then the list of devices; without arguments the
/// last session is taken up; and a command line of options alone names nothing to play.
pub proof fn law_commands_have_their_words(args: Seq<Seq<char>>, r: Result<Command, ArgError>)
    requires
        command_view(r) == command_of(args),
    ensures
        r matches Ok(Command::Help) <==> args.contains("--help"@) || args.contains("-h"@),
        r matches Ok(Command::ListDevices) <==> args.contains("--list-devices"@) && !args.contains(
            "--help"@,
        ) && !args.contains("-h"@),
        r matches Ok(Command::Resume(_)) <==> args.len() < 2 && !args.contains("--help"@)
            && !args.contains("-h"@) && !args.contains("--list-devices"@),
        sources_in(r) matches Some(s) ==> s.len() > 0,
{
}

} // verus!
