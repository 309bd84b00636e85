//! The command line: `shotdiff <BEFORE> <AFTER> [OPTIONS]`.
//!
//! Whether a `--max-diff` value reads as a number is decided outside this
//! module (the value is a floating-point count or percentage); the parser is
//! told, for each argument, whether it would be accepted there.

use vstd::prelude::*;
use vstd::string::{StrSliceExecFns, StringExecFns};

use crate::html::decimal;

verus! {

/// Per-channel threshold used when `--threshold` is not given.
pub const DEFAULT_THRESHOLD: u8 = 16;

/// Output path used when `--output` is not given.
pub const DEFAULT_OUTPUT: &'static str = "shotdiff-out.png";

/// An option that takes a value.
#[derive(PartialEq, Eq, Structural, Clone, Copy, Debug)]
pub enum ValueFlag {
    Output,
    Threshold,
    MaxDiff,
}

/// Settings of a comparison run.
pub struct Args {
    pub before: String,
    pub after: String,
    pub output: String,
    pub threshold: u8,
    pub diff_only: bool,
    pub browser: bool,
    pub fail_on_diff: bool,
    /// Max tolerated change before failing, as written on the command line.
    pub max_diff: Option<String>,
}

/// What the command line asks for.
pub enum Command {
    /// `-h` / `--help`: show the usage text.
    Help,
    Run(Args),
}

/// Why a command line was refused.
pub enum ArgError {
    /// An option that takes a value came last.
    MissingValue(ValueFlag),
    /// The value of `--threshold` is not an integer from 0 to 255.
    InvalidThreshold(String),
    /// The value of `--max-diff` is not a count or a percentage.
    InvalidMaxDiff(String),
    /// An argument that starts with `-`, other than `-` itself, names no option.
    UnknownOption(String),
    /// A third positional argument.
    UnexpectedArgument(String),
    MissingBefore,
    MissingAfter,
}

/// The settings that a scan of the arguments has gathered so far.
pub struct ScanState {
    pub before: Option<Seq<char>>,
    pub after: Option<Seq<char>>,
    pub output: Option<Seq<char>>,
    pub threshold: u8,
    pub diff_only: bool,
    pub browser: bool,
    pub fail_on_diff: bool,
    pub max_diff: Option<Seq<char>>,
}

pub struct ArgsView {
    pub before: Seq<char>,
    pub after: Seq<char>,
    pub output: Seq<char>,
    pub threshold: u8,
    pub diff_only: bool,
    pub browser: bool,
    pub fail_on_diff: bool,
    pub max_diff: Option<Seq<char>>,
}

pub enum CommandView {
    Help,
    Run(ArgsView),
}

pub enum ArgErrorView {
    MissingValue(ValueFlag),
    InvalidThreshold(Seq<char>),
    InvalidMaxDiff(Seq<char>),
    UnknownOption(Seq<char>),
    UnexpectedArgument(Seq<char>),
    MissingBefore,
    MissingAfter,
}

/// Where a scan of the arguments ends.
pub enum ScanEnd {
    Help,
    Fail(ArgErrorView),
    Done(ScanState),
}

impl View for Args {
    type V = ArgsView;

    open spec fn view(&self) -> ArgsView {
        ArgsView {
            before: self.before@,
            after: self.after@,
            output: self.output@,
            threshold: self.threshold,
            diff_only: self.diff_only,
            browser: self.browser,
            fail_on_diff: self.fail_on_diff,
            max_diff: match self.max_diff {
                Some(v) => Some(v@),
                None => None,
            },
        }
    }
}

impl View for Command {
    type V = CommandView;

    open spec fn view(&self) -> CommandView {
        match self {
            Command::Help => CommandView::Help,
            Command::Run(a) => CommandView::Run(a@),
        }
    }
}

impl View for ArgError {
    type V = ArgErrorView;

    open spec fn view(&self) -> ArgErrorView {
        match self {
            ArgError::MissingValue(f) => ArgErrorView::MissingValue(*f),
            ArgError::InvalidThreshold(v) => ArgErrorView::InvalidThreshold(v@),
            ArgError::InvalidMaxDiff(v) => ArgErrorView::InvalidMaxDiff(v@),
            ArgError::UnknownOption(v) => ArgErrorView::UnknownOption(v@),
            ArgError::UnexpectedArgument(v) => ArgErrorView::UnexpectedArgument(v@),
            ArgError::MissingBefore => ArgErrorView::MissingBefore,
            ArgError::MissingAfter => ArgErrorView::MissingAfter,
        }
    }
}

pub open spec fn is_ascii_digit(c: char) -> bool {
    48 <= c as int <= 57
}

/// Value of a string of decimal digits.
pub open spec fn digits_value(s: Seq<char>) -> nat
    decreases s.len(),
{
    if s.len() == 0 {
        0
    } else {
        digits_value(s.drop_last()) * 10 + (s.last() as nat - 48) as nat
    }
}

/// The digits of an unsigned number: the text after an optional leading `+`.
pub open spec fn unsigned_digits(s: Seq<char>) -> Seq<char> {
    if s.len() > 0 && s[0] == '+' {
        s.drop_first()
    } else {
        s
    }
}

/// How Rust reads a `u8` from text: an optional `+`, then one or more ASCII
/// digits whose value is at most 255.
pub open spec fn spec_parse_u8(s: Seq<char>) -> Option<u8> {
    let d = unsigned_digits(s);
    if d.len() > 0 && (forall|i: int| 0 <= i < d.len() ==> is_ascii_digit(#[trigger] d[i]))
        && digits_value(d) <= 255 {
        Some(digits_value(d) as u8)
    } else {
        None
    }
}

pub open spec fn min_256(v: nat) -> nat {
    if v < 256 { v } else { 256 }
}

/// Reads a `u8` from text as `str::parse::<u8>` does.
pub fn parse_u8(s: &str) -> (r: Option<u8>)
    ensures
        r == spec_parse_u8(s@),
{
    let n = s.unicode_len();
    let start: usize = if n > 0 && s.get_char(0) == '+' { 1 } else { 0 };
    let ghost d = unsigned_digits(s@);
    assert(d =~= s@.subrange(start as int, n as int));
    if start == n {
        return None;
    }
    let mut v: u32 = 0;
    let mut i = start;
    while i < n
        invariant
            start <= i <= n,
            n == s@.len(),
            d == s@.subrange(start as int, n as int),
            d == unsigned_digits(s@),
            forall|k: int| 0 <= k < i - start ==> is_ascii_digit(#[trigger] d[k]),
            v == min_256(digits_value(d.subrange(0, i - start))),
        decreases n - i,
    {
        let c = s.get_char(i);
        if !('0' <= c && c <= '9') {
            assert(!is_ascii_digit(d[i - start]));
            assert(!(forall|k: int| 0 <= k < d.len() ==> is_ascii_digit(#[trigger] d[k])));
            return None;
        }
        let dv: u32 = (c as u32) - 48;
        proof {
            assert(d.subrange(0, i + 1 - start).drop_last() =~= d.subrange(0, i - start));
            assert(d.subrange(0, i + 1 - start).last() == c);
        }
        v = if v >= 256 { 256 } else if v * 10 + dv >= 256 { 256 } else { v * 10 + dv };
        i = i + 1;
    }
    assert(d.subrange(0, n - start) =~= d);
    if v <= 255 {
        Some(v as u8)
    } else {
        None
    }
}

pub open spec fn initial_state() -> ScanState {
    ScanState {
        before: None,
        after: None,
        output: None,
        threshold: DEFAULT_THRESHOLD,
        diff_only: false,
        browser: false,
        fail_on_diff: false,
        max_diff: None,
    }
}

/// An argument that reads as an option: it starts with `-` and is not `-` alone.
pub open spec fn looks_like_option(a: Seq<char>) -> bool {
    a.len() > 0 && a[0] == '-' && a != "-"@
}

/// Scans `args` from position `i` on, with the settings `st` gathered before
/// it; `max_diff_ok[j]` says whether `args[j]` is accepted as a `--max-diff` value.
pub open spec fn scan(args: Seq<Seq<char>>, max_diff_ok: Seq<bool>, i: int, st: ScanState) -> ScanEnd
    decreases args.len() - i,
{
    if i < 0 || i >= args.len() {
        ScanEnd::Done(st)
    } else {
        let a = args[i];
        let has_value = i + 1 < args.len();
        if a == "-h"@ || a == "--help"@ {
            ScanEnd::Help
        } else if a == "-o"@ || a == "--output"@ {
            if has_value {
                scan(args, max_diff_ok, i + 2, ScanState { output: Some(args[i + 1]), ..st })
            } else {
                ScanEnd::Fail(ArgErrorView::MissingValue(ValueFlag::Output))
            }
        } else if a == "-t"@ || a == "--threshold"@ {
            if has_value {
                match spec_parse_u8(args[i + 1]) {
                    Some(t) => scan(args, max_diff_ok, i + 2, ScanState { threshold: t, ..st }),
                    None => ScanEnd::Fail(ArgErrorView::InvalidThreshold(args[i + 1])),
                }
            } else {
                ScanEnd::Fail(ArgErrorView::MissingValue(ValueFlag::Threshold))
            }
        } else if a == "--diff-only"@ {
            scan(args, max_diff_ok, i + 1, ScanState { diff_only: true, ..st })
        } else if a == "--browser"@ {
            scan(args, max_diff_ok, i + 1, ScanState { browser: true, ..st })
        } else if a == "--fail-on-diff"@ {
            scan(args, max_diff_ok, i + 1, ScanState { fail_on_diff: true, ..st })
        } else if a == "--max-diff"@ {
            if has_value {
                if i + 1 < max_diff_ok.len() && max_diff_ok[i + 1] {
                    scan(args, max_diff_ok, i + 2, ScanState { max_diff: Some(args[i + 1]), ..st })
                } else {
                    ScanEnd::Fail(ArgErrorView::InvalidMaxDiff(args[i + 1]))
                }
            } else {
                ScanEnd::Fail(ArgErrorView::MissingValue(ValueFlag::MaxDiff))
            }
        } else if looks_like_option(a) {
            ScanEnd::Fail(ArgErrorView::UnknownOption(a))
        } else if st.before is None {
            scan(args, max_diff_ok, i + 1, ScanState { before: Some(a), ..st })
        } else if st.after is None {
            scan(args, max_diff_ok, i + 1, ScanState { after: Some(a), ..st })
        } else {
            ScanEnd::Fail(ArgErrorView::UnexpectedArgument(a))
        }
    }
}

/// What the command line `args` (program name excluded) asks for.
pub open spec fn spec_parse_args(args: Seq<Seq<char>>, max_diff_ok: Seq<bool>) -> Result<
    CommandView,
    ArgErrorView,
> {
    match scan(args, max_diff_ok, 0, initial_state()) {
        ScanEnd::Help => Ok(CommandView::Help),
        ScanEnd::Fail(e) => Err(e),
        ScanEnd::Done(st) => match (st.before, st.after) {
            (Some(before), Some(after)) => Ok(
                CommandView::Run(
                    ArgsView {
                        before,
                        after,
                        output: match st.output {
                            Some(o) => o,
                            None => DEFAULT_OUTPUT@,
                        },
                        threshold: st.threshold,
                        diff_only: st.diff_only,
                        browser: st.browser,
                        fail_on_diff: st.fail_on_diff,
                        max_diff: st.max_diff,
                    },
                ),
            ),
            (None, _) => Err(ArgErrorView::MissingBefore),
            (Some(_), None) => Err(ArgErrorView::MissingAfter),
        },
    }
}

pub open spec fn outcome_view(r: Result<Command, ArgError>) -> Result<CommandView, ArgErrorView> {
    match r {
        Ok(c) => Ok(c@),
        Err(e) => Err(e@),
    }
}

pub open spec fn string_views(args: Seq<String>) -> Seq<Seq<char>> {
    args.map_values(|a: String| a@)
}

fn equals_literal(arg: &String, lit: &str) -> (r: bool)
    ensures
        r == (arg@ == lit@),
{
    *arg == String::from_str(lit)
}

pub open spec fn view_opt(o: Option<String>) -> Option<Seq<char>> {
    match o {
        Some(v) => Some(v@),
        None => None,
    }
}

fn starts_like_option(arg: &String) -> (r: bool)
    ensures
        r == looks_like_option(arg@),
{
    let s = arg.as_str();
    s.unicode_len() > 0 && s.get_char(0) == '-' && !equals_literal(arg, "-")
}

/// Reads the command line `args` (program name excluded) in order. An option
/// that takes a value takes the next argument, whatever it is; `max_diff_ok[j]`
/// says whether `args[j]` is accepted as a `--max-diff` value (an argument
/// past the end of `max_diff_ok` is not). The first problem met is reported.
pub fn parse_args(args: &Vec<String>, max_diff_ok: &Vec<bool>) -> (r: Result<Command, ArgError>)
    ensures
        outcome_view(r) == spec_parse_args(string_views(args@), max_diff_ok@),
{
    let ghost sv = string_views(args@);
    let ghost ok = max_diff_ok@;
    let n = args.len();
    let mut before: Option<String> = None;
    let mut after: Option<String> = None;
    let mut output: Option<String> = None;
    let mut threshold: u8 = DEFAULT_THRESHOLD;
    let mut diff_only = false;
    let mut browser = false;
    let mut fail_on_diff = false;
    let mut max_diff: Option<String> = None;
    let mut i: usize = 0;
    while i < n
        invariant
            n == args@.len(),
            sv == string_views(args@),
            ok == max_diff_ok@,
            i <= n,
            scan(sv, ok, 0, initial_state()) == scan(
                sv,
                ok,
                i as int,
                ScanState {
                    before: view_opt(before),
                    after: view_opt(after),
                    output: view_opt(output),
                    threshold,
                    diff_only,
                    browser,
                    fail_on_diff,
                    max_diff: view_opt(max_diff),
                },
            ),
        decreases n - i,
    {
        let arg = &args[i];
        let has_value = i + 1 < n;
        assert(sv[i as int] == arg@);
        if has_value {
            assert(sv[i + 1] == args@[i + 1]@);
        }
        if equals_literal(arg, "-h") || equals_literal(arg, "--help") {
            return Ok(Command::Help);
        } else if equals_literal(arg, "-o") || equals_literal(arg, "--output") {
            if !has_value {
                return Err(ArgError::MissingValue(ValueFlag::Output));
            }
            output = Some(args[i + 1].clone());
            i = i + 2;
        } else if equals_literal(arg, "-t") || equals_literal(arg, "--threshold") {
            if !has_value {
                return Err(ArgError::MissingValue(ValueFlag::Threshold));
            }
            let v = &args[i + 1];
            match parse_u8(v.as_str()) {
                Some(t) => {
                    threshold = t;
                },
                None => {
                    return Err(ArgError::InvalidThreshold(v.clone()));
                },
            }
            i = i + 2;
        } else if equals_literal(arg, "--diff-only") {
            diff_only = true;
            i = i + 1;
        } else if equals_literal(arg, "--browser") {
            browser = true;
            i = i + 1;
        } else if equals_literal(arg, "--fail-on-diff") {
            fail_on_diff = true;
            i = i + 1;
        } else if equals_literal(arg, "--max-diff") {
            if !has_value {
                return Err(ArgError::MissingValue(ValueFlag::MaxDiff));
            }
            let v = &args[i + 1];
            if i + 1 < max_diff_ok.len() && max_diff_ok[i + 1] {
                max_diff = Some(v.clone());
            } else {
                return Err(ArgError::InvalidMaxDiff(v.clone()));
            }
            i = i + 2;
        } else if starts_like_option(arg) {
            return Err(ArgError::UnknownOption(arg.clone()));
        } else if before.is_none() {
            before = Some(arg.clone());
            i = i + 1;
        } else if after.is_none() {
            after = Some(arg.clone());
            i = i + 1;
        } else {
            return Err(ArgError::UnexpectedArgument(arg.clone()));
        }
    }
    match (before, after) {
        (Some(before), Some(after)) => {
            let output = match output {
                Some(o) => o,
                None => String::from_str(DEFAULT_OUTPUT),
            };
            Ok(
                Command::Run(
                    Args { before, after, output, threshold, diff_only, browser, fail_on_diff, max_diff },
                ),
            )
        },
        (None, _) => Err(ArgError::MissingBefore),
        (Some(_), None) => Err(ArgError::MissingAfter),
    }
}


/// The decimal text of a number is a non-empty string of ASCII digits whose
/// value is that number.
pub proof fn lemma_decimal_digits(n: nat)
    ensures
        decimal(n).len() > 0,
        forall|i: int| 0 <= i < decimal(n).len() ==> is_ascii_digit(#[trigger] decimal(n)[i]),
        digits_value(decimal(n)) == n,
    decreases n,
{
    if n >= 10 {
        lemma_decimal_digits(n / 10);
        let s = decimal(n);
        assert(s.drop_last() =~= decimal(n / 10));
        assert(s.last() as int == 48 + (n % 10) as int);
        assert((n / 10) * 10 + n % 10 == n);
        assert(digits_value(s) == digits_value(decimal(n / 10)) * 10 + (s.last() as nat - 48) as nat);
        assert forall|i: int| 0 <= i < s.len() implies is_ascii_digit(#[trigger] s[i]) by {
            if i < s.len() - 1 {
                assert(s[i] == decimal(n / 10)[i]);
            }
        }
    } else {
        assert(decimal(n).drop_last() =~= Seq::<char>::empty());
        assert(decimal(n).last() as int == 48 + n as int);
        assert(digits_value(decimal(n)) == digits_value(decimal(n).drop_last()) * 10 + (
        decimal(n).last() as nat - 48) as nat);
    }
}

/// Every threshold 0 to 255, written in decimal, reads back as itself.
pub proof fn lemma_parse_u8_of_decimal(n: u8)
    ensures
        spec_parse_u8(decimal(n as nat)) == Some(n),
{
    lemma_decimal_digits(n as nat);
    let s = decimal(n as nat);
    assert(is_ascii_digit(s[0]));
    assert(unsigned_digits(s) == s);
}

/// Numbers above 255 and text with a leading `-` are not read as a threshold.
pub proof fn lemma_parse_u8_rejects(n: nat, s: Seq<char>)
    ensures
        n > 255 ==> spec_parse_u8(decimal(n)) is None,
        s.len() > 0 && s[0] == '-' ==> spec_parse_u8(s) is None,
{
    lemma_decimal_digits(n);
    if s.len() > 0 && s[0] == '-' {
        assert(unsigned_digits(s) == s);
        assert(!is_ascii_digit(s[0]));
    }
}

/// The option names are all different from one another.
proof fn lemma_option_names_distinct()
    ensures
        "-o"@ != "-h"@ && "-o"@ != "--help"@,
        "--output"@ != "-h"@ && "--output"@ != "--help"@,
        "-t"@ != "-h"@ && "-t"@ != "--help"@ && "-t"@ != "-o"@ && "-t"@ != "--output"@,
        "--diff-only"@ != "-h"@ && "--diff-only"@ != "--help"@ && "--diff-only"@ != "-o"@
            && "--diff-only"@ != "--output"@ && "--diff-only"@ != "-t"@ && "--diff-only"@
            != "--threshold"@,
        "--browser"@ != "-h"@ && "--browser"@ != "--help"@ && "--browser"@ != "-o"@ && "--browser"@
            != "--output"@ && "--browser"@ != "-t"@ && "--browser"@ != "--threshold"@ && "--browser"@
            != "--diff-only"@,
        "--fail-on-diff"@ != "-h"@ && "--fail-on-diff"@ != "--help"@ && "--fail-on-diff"@ != "-o"@
            && "--fail-on-diff"@ != "--output"@ && "--fail-on-diff"@ != "-t"@ && "--fail-on-diff"@
            != "--threshold"@ && "--fail-on-diff"@ != "--diff-only"@ && "--fail-on-diff"@
            != "--browser"@,
        "--max-diff"@ != "-h"@ && "--max-diff"@ != "--help"@ && "--max-diff"@ != "-o"@
            && "--max-diff"@ != "--output"@ && "--max-diff"@ != "-t"@ && "--max-diff"@
            != "--threshold"@ && "--max-diff"@ != "--diff-only"@ && "--max-diff"@ != "--browser"@
            && "--max-diff"@ != "--fail-on-diff"@,
{
    reveal_strlit("-h");
    reveal_strlit("--help");
    reveal_strlit("-o");
    reveal_strlit("--output");
    reveal_strlit("-t");
    reveal_strlit("--threshold");
    reveal_strlit("--diff-only");
    reveal_strlit("--browser");
    reveal_strlit("--fail-on-diff");
    reveal_strlit("--max-diff");
    reveal_strlit("-");
    assert("-h"@.len() == 2 && "--help"@.len() == 6 && "-o"@.len() == 2 && "--output"@.len() == 8);
    assert("-t"@.len() == 2 && "--threshold"@.len() == 11 && "--diff-only"@.len() == 11);
    assert("--browser"@.len() == 9 && "--fail-on-diff"@.len() == 14 && "--max-diff"@.len() == 10);
    assert("-o"@[1] != "-h"@[1]);
    assert("-t"@[1] != "-h"@[1]);
    assert("-t"@[1] != "-o"@[1]);
    assert("--diff-only"@[2] != "--threshold"@[2]);
}

/// An argument that does not start with `-` names no option.
proof fn lemma_positional_is_no_option(a: Seq<char>)
    requires
        !(a.len() > 0 && a[0] == '-'),
    ensures
        a != "-h"@ && a != "--help"@ && a != "-o"@ && a != "--output"@,
        a != "-t"@ && a != "--threshold"@ && a != "--diff-only"@ && a != "--browser"@,
        a != "--fail-on-diff"@ && a != "--max-diff"@,
        !looks_like_option(a),
{
    reveal_strlit("-h");
    reveal_strlit("--help");
    reveal_strlit("-o");
    reveal_strlit("--output");
    reveal_strlit("-t");
    reveal_strlit("--threshold");
    reveal_strlit("--diff-only");
    reveal_strlit("--browser");
    reveal_strlit("--fail-on-diff");
    reveal_strlit("--max-diff");
    reveal_strlit("-");
    assert("-h"@[0] == '-' && "--help"@[0] == '-' && "-o"@[0] == '-' && "--output"@[0] == '-');
    assert("-t"@[0] == '-' && "--threshold"@[0] == '-' && "--diff-only"@[0] == '-' && "--browser"@[0]
        == '-');
    assert("--fail-on-diff"@[0] == '-' && "--max-diff"@[0] == '-');
}

/// The settings after reading the two image paths.
pub open spec fn after_paths(before: Seq<char>, after: Seq<char>) -> ScanState {
    ScanState { before: Some(before), after: Some(after), ..initial_state() }
}

/// Two image paths are read as BEFORE and AFTER, whatever follows them.
proof fn lemma_scan_paths(args: Seq<Seq<char>>, max_diff_ok: Seq<bool>)
    requires
        args.len() >= 2,
        !(args[0].len() > 0 && args[0][0] == '-'),
        !(args[1].len() > 0 && args[1][0] == '-'),
    ensures
        scan(args, max_diff_ok, 0, initial_state()) == scan(
            args,
            max_diff_ok,
            2,
            after_paths(args[0], args[1]),
        ),
{
    lemma_positional_is_no_option(args[0]);
    lemma_positional_is_no_option(args[1]);
    let s1 = ScanState { before: Some(args[0]), ..initial_state() };
    assert(scan(args, max_diff_ok, 0, initial_state()) == scan(args, max_diff_ok, 1, s1));
    assert(scan(args, max_diff_ok, 1, s1) == scan(args, max_diff_ok, 2, after_paths(args[0], args[1])));
}

/// Two image paths alone run with every default: threshold 16, output
/// `shotdiff-out.png`, no switch set, no `--max-diff`.
pub proof fn lemma_defaults(before: Seq<char>, after: Seq<char>, max_diff_ok: Seq<bool>)
    requires
        !(before.len() > 0 && before[0] == '-'),
        !(after.len() > 0 && after[0] == '-'),
    ensures
        spec_parse_args(seq![before, after], max_diff_ok) == Ok::<CommandView, ArgErrorView>(
            CommandView::Run(
                ArgsView {
                    before,
                    after,
                    output: "shotdiff-out.png"@,
                    threshold: 16,
                    diff_only: false,
                    browser: false,
                    fail_on_diff: false,
                    max_diff: None,
                },
            ),
        ),
{
    let args = seq![before, after];
    lemma_scan_paths(args, max_diff_ok);
    reveal_strlit("shotdiff-out.png");
}

/// `-t N` after the two image paths runs with threshold `N`, for every `N`
/// from 0 to 255 written in decimal; the other settings keep their defaults.
pub proof fn lemma_threshold_option(before: Seq<char>, after: Seq<char>, n: u8, max_diff_ok: Seq<bool>)
    requires
        !(before.len() > 0 && before[0] == '-'),
        !(after.len() > 0 && after[0] == '-'),
    ensures
        spec_parse_args(seq![before, after, "-t"@, decimal(n as nat)], max_diff_ok) == Ok::<
            CommandView,
            ArgErrorView,
        >(
            CommandView::Run(
                ArgsView {
                    before,
                    after,
                    output: "shotdiff-out.png"@,
                    threshold: n,
                    diff_only: false,
                    browser: false,
                    fail_on_diff: false,
                    max_diff: None,
                },
            ),
        ),
{
    let args = seq![before, after, "-t"@, decimal(n as nat)];
    lemma_scan_paths(args, max_diff_ok);
    lemma_option_names_distinct();
    lemma_parse_u8_of_decimal(n);
    reveal_strlit("shotdiff-out.png");
    let p = after_paths(before, after);
    let q = ScanState { threshold: n, ..p };
    assert(args[2] == "-t"@ && args[3] == decimal(n as nat));
    assert(scan(args, max_diff_ok, 4, q) == ScanEnd::Done(q));
    assert(scan(args, max_diff_ok, 2, p) == scan(args, max_diff_ok, 4, q));
}

/// `-o PATH` after the two image paths writes to `PATH`, whatever it is.
pub proof fn lemma_output_option(before: Seq<char>, after: Seq<char>, path: Seq<char>, max_diff_ok: Seq<bool>)
    requires
        !(before.len() > 0 && before[0] == '-'),
        !(after.len() > 0 && after[0] == '-'),
    ensures
        spec_parse_args(seq![before, after, "-o"@, path], max_diff_ok) matches Ok(CommandView::Run(r))
            && r.output == path && r.before == before && r.after == after && r.threshold == 16,
{
    let args = seq![before, after, "-o"@, path];
    lemma_scan_paths(args, max_diff_ok);
    lemma_option_names_distinct();
    let p = after_paths(before, after);
    let q = ScanState { output: Some(path), ..p };
    assert(args[2] == "-o"@ && args[3] == path);
    assert(scan(args, max_diff_ok, 4, q) == ScanEnd::Done(q));
    assert(scan(args, max_diff_ok, 2, p) == scan(args, max_diff_ok, 4, q));
}

/// Each switch after the two image paths sets its own setting and no other.
pub proof fn lemma_switches(before: Seq<char>, after: Seq<char>, max_diff_ok: Seq<bool>)
    requires
        !(before.len() > 0 && before[0] == '-'),
        !(after.len() > 0 && after[0] == '-'),
    ensures
        spec_parse_args(seq![before, after, "--diff-only"@], max_diff_ok) matches Ok(
            CommandView::Run(r),
        ) && r.diff_only && !r.browser && !r.fail_on_diff,
        spec_parse_args(seq![before, after, "--browser"@], max_diff_ok) matches Ok(
            CommandView::Run(r),
        ) && !r.diff_only && r.browser && !r.fail_on_diff,
        spec_parse_args(seq![before, after, "--fail-on-diff"@], max_diff_ok) matches Ok(
            CommandView::Run(r),
        ) && !r.diff_only && !r.browser && r.fail_on_diff,
{
    lemma_option_names_distinct();
    let p = after_paths(before, after);
    let a1 = seq![before, after, "--diff-only"@];
    lemma_scan_paths(a1, max_diff_ok);
    let q1 = ScanState { diff_only: true, ..p };
    assert(a1[2] == "--diff-only"@);
    assert(scan(a1, max_diff_ok, 3, q1) == ScanEnd::Done(q1));
    assert(scan(a1, max_diff_ok, 2, p) == scan(a1, max_diff_ok, 3, q1));
    let a2 = seq![before, after, "--browser"@];
    lemma_scan_paths(a2, max_diff_ok);
    let q2 = ScanState { browser: true, ..p };
    assert(a2[2] == "--browser"@);
    assert(scan(a2, max_diff_ok, 3, q2) == ScanEnd::Done(q2));
    assert(scan(a2, max_diff_ok, 2, p) == scan(a2, max_diff_ok, 3, q2));
    let a3 = seq![before, after, "--fail-on-diff"@];
    lemma_scan_paths(a3, max_diff_ok);
    let q3 = ScanState { fail_on_diff: true, ..p };
    assert(a3[2] == "--fail-on-diff"@);
    assert(scan(a3, max_diff_ok, 3, q3) == ScanEnd::Done(q3));
    assert(scan(a3, max_diff_ok, 2, p) == scan(a3, max_diff_ok, 3, q3));
}

/// `--max-diff V` after the two image paths keeps `V` when it reads as a
/// count or percentage and is refused otherwise.
pub proof fn lemma_max_diff_option(before: Seq<char>, after: Seq<char>, v: Seq<char>, max_diff_ok: Seq<bool>)
    requires
        !(before.len() > 0 && before[0] == '-'),
        !(after.len() > 0 && after[0] == '-'),
        max_diff_ok.len() == 4,
    ensures
        max_diff_ok[3] ==> (spec_parse_args(seq![before, after, "--max-diff"@, v], max_diff_ok) matches Ok(
            CommandView::Run(r),
        ) && r.max_diff == Some(v)),
        !max_diff_ok[3] ==> spec_parse_args(seq![before, after, "--max-diff"@, v], max_diff_ok) == Err::<
            CommandView,
            ArgErrorView,
        >(ArgErrorView::InvalidMaxDiff(v)),
{
    lemma_option_names_distinct();
    let args = seq![before, after, "--max-diff"@, v];
    lemma_scan_paths(args, max_diff_ok);
    let p = after_paths(before, after);
    let q = ScanState { max_diff: Some(v), ..p };
    assert(args[2] == "--max-diff"@ && args[3] == v);
    assert(scan(args, max_diff_ok, 4, q) == ScanEnd::Done(q));
    if max_diff_ok[3] {
        assert(scan(args, max_diff_ok, 2, p) == scan(args, max_diff_ok, 4, q));
    } else {
        assert(scan(args, max_diff_ok, 2, p) == ScanEnd::Fail(ArgErrorView::InvalidMaxDiff(v)));
    }
}

/// An option that needs a value but comes last is refused, naming the option.
pub proof fn lemma_missing_values(before: Seq<char>, after: Seq<char>, max_diff_ok: Seq<bool>)
    requires
        !(before.len() > 0 && before[0] == '-'),
        !(after.len() > 0 && after[0] == '-'),
    ensures
        spec_parse_args(seq![before, after, "-o"@], max_diff_ok) == Err::<CommandView, ArgErrorView>(
            ArgErrorView::MissingValue(ValueFlag::Output),
        ),
        spec_parse_args(seq![before, after, "-t"@], max_diff_ok) == Err::<CommandView, ArgErrorView>(
            ArgErrorView::MissingValue(ValueFlag::Threshold),
        ),
        spec_parse_args(seq![before, after, "--max-diff"@], max_diff_ok) == Err::<
            CommandView,
            ArgErrorView,
        >(ArgErrorView::MissingValue(ValueFlag::MaxDiff)),
{
    lemma_option_names_distinct();
    let p = after_paths(before, after);
    let a1 = seq![before, after, "-o"@];
    lemma_scan_paths(a1, max_diff_ok);
    assert(a1[2] == "-o"@);
    assert(scan(a1, max_diff_ok, 2, p) == ScanEnd::Fail(ArgErrorView::MissingValue(ValueFlag::Output)));
    let a2 = seq![before, after, "-t"@];
    lemma_scan_paths(a2, max_diff_ok);
    assert(a2[2] == "-t"@);
    assert(scan(a2, max_diff_ok, 2, p) == ScanEnd::Fail(ArgErrorView::MissingValue(ValueFlag::Threshold)));
    let a3 = seq![before, after, "--max-diff"@];
    lemma_scan_paths(a3, max_diff_ok);
    assert(a3[2] == "--max-diff"@);
    assert(scan(a3, max_diff_ok, 2, p) == ScanEnd::Fail(ArgErrorView::MissingValue(ValueFlag::MaxDiff)));
}

/// A third image path is refused, and so are fewer than two.
pub proof fn lemma_path_count(before: Seq<char>, after: Seq<char>, extra: Seq<char>, max_diff_ok: Seq<bool>)
    requires
        !(before.len() > 0 && before[0] == '-'),
        !(after.len() > 0 && after[0] == '-'),
        !(extra.len() > 0 && extra[0] == '-'),
    ensures
        spec_parse_args(seq![before, after, extra], max_diff_ok) == Err::<CommandView, ArgErrorView>(
            ArgErrorView::UnexpectedArgument(extra),
        ),
        spec_parse_args(seq![before], max_diff_ok) == Err::<CommandView, ArgErrorView>(
            ArgErrorView::MissingAfter,
        ),
        spec_parse_args(Seq::<Seq<char>>::empty(), max_diff_ok) == Err::<CommandView, ArgErrorView>(
            ArgErrorView::MissingBefore,
        ),
{
    lemma_positional_is_no_option(extra);
    lemma_positional_is_no_option(before);
    let a3 = seq![before, after, extra];
    lemma_scan_paths(a3, max_diff_ok);
    assert(a3[2] == extra);
    assert(scan(a3, max_diff_ok, 2, after_paths(before, after)) == ScanEnd::Fail(
        ArgErrorView::UnexpectedArgument(extra),
    ));
    let one = seq![before];
    assert(scan(one, max_diff_ok, 0, initial_state()) == scan(
        one,
        max_diff_ok,
        1,
        ScanState { before: Some(before), ..initial_state() },
    ));
}

/// `-h` or `--help` first asks for the usage text, whatever follows.
pub proof fn lemma_help_first(args: Seq<Seq<char>>, max_diff_ok: Seq<bool>)
    requires
        args.len() > 0,
        args[0] == "-h"@ || args[0] == "--help"@,
    ensures
        spec_parse_args(args, max_diff_ok) == Ok::<CommandView, ArgErrorView>(CommandView::Help),
{
}

/// An argument that starts with `-`, is not `-` alone and names no option is
/// refused as an unknown option.
pub proof fn lemma_unknown_option(arg: Seq<char>, rest: Seq<Seq<char>>, max_diff_ok: Seq<bool>)
    requires
        arg.len() > 1,
        arg[0] == '-',
        arg != "-h"@ && arg != "--help"@ && arg != "-o"@ && arg != "--output"@,
        arg != "-t"@ && arg != "--threshold"@ && arg != "--diff-only"@ && arg != "--browser"@,
        arg != "--fail-on-diff"@ && arg != "--max-diff"@,
    ensures
        spec_parse_args(seq![arg] + rest, max_diff_ok) == Err::<CommandView, ArgErrorView>(
            ArgErrorView::UnknownOption(arg),
        ),
{
    reveal_strlit("-h");
    reveal_strlit("--help");
    reveal_strlit("-o");
    reveal_strlit("--output");
    reveal_strlit("-t");
    reveal_strlit("--threshold");
    reveal_strlit("--diff-only");
    reveal_strlit("--browser");
    reveal_strlit("--fail-on-diff");
    reveal_strlit("--max-diff");
    reveal_strlit("-");
    let args = seq![arg] + rest;
    assert(args[0] == arg);
    assert("-"@.len() == 1);
    assert(arg != "-"@);
}

} // verus!
