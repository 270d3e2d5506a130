//! Command-line decisions: output formats, argument parsing, pre-flight
//! checks, and the exit code a scan settles to.

use crate::model::RunOutcome;
use crate::text::{append_chars, chars_eq, chars_of, string_from_chars, trim_chars, trim_seq};
use crate::validator::{is_lexical_unc, lexical_unc};
use vstd::prelude::*;

verus! {

pub const EXIT_SUCCESS: u8 = 0;

pub const EXIT_OPERATION_FAILED: u8 = 1;

pub const EXIT_COMMAND_ERROR: u8 = 2;

pub const EXIT_CANCELLED: u8 = 3;

pub const EXIT_COVERAGE_GAPS_PRESENT: u8 = 4;

/// Output format of CLI emissions.
#[derive(Debug, Clone, Copy, PartialEq, Eq, Structural)]
pub enum OutputFormat {
    Json,
    Ndjson,
}

/// The message for an unknown `--format` value.
pub open spec fn invalid_format_message(s: Seq<char>) -> Seq<char> {
    "Invalid value for --format: '"@ + s + "'. Expected 'json' or 'ndjson'"@
}

/// The name of an output format.
pub open spec fn format_name(f: OutputFormat) -> Seq<char> {
    match f {
        OutputFormat::Json => "json"@,
        OutputFormat::Ndjson => "ndjson"@,
    }
}

/// The format a `--format` value names, or the error message.
pub open spec fn parse_format(s: Seq<char>) -> Result<OutputFormat, Seq<char>> {
    if s == "json"@ {
        Ok(OutputFormat::Json)
    } else if s == "ndjson"@ {
        Ok(OutputFormat::Ndjson)
    } else {
        Err(invalid_format_message(s))
    }
}

fn same_text(a: &str, b: &str) -> (r: bool)
    ensures
        r == (a@ == b@),
{
    let x = chars_of(a);
    let y = chars_of(b);
    chars_eq(x.as_slice(), y.as_slice())
}

impl OutputFormat {
    /// Parses a `--format` value: `json` or `ndjson`, exactly.
    pub fn parse(s: &str) -> (r: Result<OutputFormat, String>)
        ensures
            match parse_format(s@) {
                Ok(f) => r == Ok::<OutputFormat, String>(f),
                Err(m) => r matches Err(e) && e@ == m,
            },
    {
        if same_text(s, "json") {
            return Ok(OutputFormat::Json);
        }
        if same_text(s, "ndjson") {
            return Ok(OutputFormat::Ndjson);
        }
        let mut out: Vec<char> = Vec::new();
        append_chars(&mut out, "Invalid value for --format: '");
        append_chars(&mut out, s);
        append_chars(&mut out, "'. Expected 'json' or 'ndjson'");
        proof {
            assert(out@ =~= invalid_format_message(s@));
        }
        Err(string_from_chars(out.as_slice()))
    }

    /// The format's name.
    pub fn as_str(&self) -> (r: &'static str)
        ensures
            r@ == format_name(*self),
    {
        match self {
            OutputFormat::Json => "json",
            OutputFormat::Ndjson => "ndjson",
        }
    }

    /// The format's name as an owned string.
    pub fn to_string(&self) -> (r: String)
        ensures
            r@ == format_name(*self),
    {
        self.as_str().to_owned()
    }
}

impl std::str::FromStr for OutputFormat {
    type Err = String;

    fn from_str(s: &str) -> (r: Result<OutputFormat, String>)
        ensures
            match parse_format(s@) {
                Ok(f) => r == Ok::<OutputFormat, String>(f),
                Err(m) => r matches Err(e) && e@ == m,
            },
    {
        OutputFormat::parse(s)
    }
}

/// How a scan call ended on the client side.
#[derive(Debug, Clone, Copy, PartialEq, Eq, Structural)]
pub enum ScanCallOutcome {
    Finished,
    Cancelled,
}

/// The exit code a scan settles to: cancelled, then coverage gaps (listed
/// gaps or partial scope), then failure, else success.
pub open spec fn scan_exit_code_spec(
    is_cancelled: bool,
    run_outcome: RunOutcome,
    has_gaps: bool,
    scope_partial: bool,
) -> u8 {
    if is_cancelled || run_outcome == RunOutcome::Cancelled {
        EXIT_CANCELLED
    } else if has_gaps || scope_partial {
        EXIT_COVERAGE_GAPS_PRESENT
    } else if run_outcome == RunOutcome::Failed {
        EXIT_OPERATION_FAILED
    } else {
        EXIT_SUCCESS
    }
}

/// The exit code of a settled scan (see `scan_exit_code_spec`).
pub fn scan_exit_code(is_cancelled: bool, run_outcome: RunOutcome, has_gaps: bool, scope_partial: bool) -> (r: u8)
    ensures
        r == scan_exit_code_spec(is_cancelled, run_outcome, has_gaps, scope_partial),
{
    if is_cancelled || run_outcome == RunOutcome::Cancelled {
        EXIT_CANCELLED
    } else if has_gaps || scope_partial {
        EXIT_COVERAGE_GAPS_PRESENT
    } else if run_outcome == RunOutcome::Failed {
        EXIT_OPERATION_FAILED
    } else {
        EXIT_SUCCESS
    }
}

/// A settled scan: the exit code and what is printed on stdout.
#[derive(Debug, Clone, PartialEq, Eq)]
pub struct ScanSettlement {
    pub exit_code: u8,
    pub stdout: String,
}

/// Settles a scan response: its exit code (see `scan_exit_code_spec`) and the
/// terminal document it prints, as given.
pub fn settle_scan_response(
    is_cancelled: bool,
    run_outcome: RunOutcome,
    has_gaps: bool,
    scope_partial: bool,
    terminal_document: String,
) -> (r: ScanSettlement)
    ensures
        r.exit_code == scan_exit_code_spec(is_cancelled, run_outcome, has_gaps, scope_partial),
        r.stdout == terminal_document,
{
    ScanSettlement {
        exit_code: scan_exit_code(is_cancelled, run_outcome, has_gaps, scope_partial),
        stdout: terminal_document,
    }
}

/// Settles a scan call: a call that ended cancelled settles as cancelled
/// whatever the response says; the terminal document is printed as given.
pub fn settle_scan_outcome(
    outcome: ScanCallOutcome,
    run_outcome: RunOutcome,
    has_gaps: bool,
    scope_partial: bool,
    terminal_document: String,
) -> (r: ScanSettlement)
    ensures
        r.exit_code == scan_exit_code_spec(
            outcome == ScanCallOutcome::Cancelled,
            run_outcome,
            has_gaps,
            scope_partial,
        ),
        r.stdout == terminal_document,
{
    let cancelled: bool = match outcome {
        ScanCallOutcome::Finished => false,
        ScanCallOutcome::Cancelled => true,
    };
    settle_scan_response(cancelled, run_outcome, has_gaps, scope_partial, terminal_document)
}

/// The same settlement as `settle_scan_outcome`.
pub fn settle_scan(
    outcome: ScanCallOutcome,
    run_outcome: RunOutcome,
    has_gaps: bool,
    scope_partial: bool,
    terminal_document: String,
) -> (r: ScanSettlement)
    ensures
        r.exit_code == scan_exit_code_spec(
            outcome == ScanCallOutcome::Cancelled,
            run_outcome,
            has_gaps,
            scope_partial,
        ),
        r.stdout == terminal_document,
{
    settle_scan_outcome(outcome, run_outcome, has_gaps, scope_partial, terminal_document)
}

/// How an engine request other than a scan ended.
#[derive(Debug, Clone, Copy, PartialEq, Eq, Structural)]
pub enum RpcOutcome {
    Succeeded,
    Cancelled,
    Failed,
}

/// The exit code of an engine request other than a scan: success, the
/// cancellation code, or operation failure for any other error.
pub fn rpc_exit_code(outcome: RpcOutcome) -> (r: u8)
    ensures
        r == match outcome {
            RpcOutcome::Succeeded => EXIT_SUCCESS,
            RpcOutcome::Cancelled => EXIT_CANCELLED,
            RpcOutcome::Failed => EXIT_OPERATION_FAILED,
        },
{
    match outcome {
        RpcOutcome::Succeeded => EXIT_SUCCESS,
        RpcOutcome::Cancelled => EXIT_CANCELLED,
        RpcOutcome::Failed => EXIT_OPERATION_FAILED,
    }
}

/// Why a scan call failed without a settled response.
#[derive(Debug, Clone, Copy, PartialEq, Eq, Structural)]
pub enum ScanCallFailure {
    /// The user cancelled and the engine did not answer in time.
    Cancelled,
    /// The engine refused the command.
    CommandError,
    /// Any other failure.
    Other,
}

/// The exit code of a scan call that failed without a settled response.
pub fn scan_failure_exit_code(f: ScanCallFailure) -> (r: u8)
    ensures
        r == match f {
            ScanCallFailure::Cancelled => EXIT_CANCELLED,
            ScanCallFailure::CommandError => EXIT_COMMAND_ERROR,
            ScanCallFailure::Other => EXIT_OPERATION_FAILED,
        },
{
    match f {
        ScanCallFailure::Cancelled => EXIT_CANCELLED,
        ScanCallFailure::CommandError => EXIT_COMMAND_ERROR,
        ScanCallFailure::Other => EXIT_OPERATION_FAILED,
    }
}

/// The value of a decimal digit character.
pub open spec fn digit_value(c: char) -> int {
    (c as int) - ('0' as int)
}

pub open spec fn is_digit(c: char) -> bool {
    '0' <= c && c <= '9'
}

/// The value of a string of decimal digits.
pub open spec fn decimal_value(s: Seq<char>) -> int
    decreases s.len(),
{
    if s.len() == 0 {
        0
    } else {
        decimal_value(s.drop_last()) * 10 + digit_value(s.last())
    }
}

/// Every character is a decimal digit.
pub open spec fn all_digits(s: Seq<char>) -> bool {
    forall|i: int| 0 <= i < s.len() ==> is_digit(#[trigger] s[i])
}

/// What `u32::from_str` accepts: an optional `+`, one or more decimal
/// digits, and a value that fits.
pub open spec fn parse_u32_spec(s: Seq<char>) -> Option<u32> {
    let d = if s.len() > 0 && s[0] == '+' {
        s.drop_first()
    } else {
        s
    };
    if d.len() > 0 && all_digits(d) && decimal_value(d) <= u32::MAX {
        Some(decimal_value(d) as u32)
    } else {
        None
    }
}

proof fn lemma_decimal_nonneg(s: Seq<char>)
    requires
        all_digits(s),
    ensures
        decimal_value(s) >= 0,
    decreases s.len(),
{
    if s.len() > 0 {
        assert(all_digits(s.drop_last()));
        lemma_decimal_nonneg(s.drop_last());
    }
}

proof fn lemma_decimal_mono(s: Seq<char>, k: int)
    requires
        all_digits(s),
        0 <= k <= s.len(),
    ensures
        decimal_value(s.subrange(0, k)) <= decimal_value(s),
    decreases s.len() - k,
{
    if k < s.len() {
        lemma_decimal_mono(s, k + 1);
        let t = s.subrange(0, k + 1);
        assert(t.drop_last() =~= s.subrange(0, k));
        assert(all_digits(t.drop_last()));
        lemma_decimal_nonneg(t.drop_last());
        assert(is_digit(t.last()));
    } else {
        assert(s.subrange(0, k) =~= s);
    }
}

/// Parses a `u32` the way `str::parse::<u32>` does (see `parse_u32_spec`).
pub fn parse_u32(s: &str) -> (r: Option<u32>)
    ensures
        r == parse_u32_spec(s@),
{
    let cs = chars_of(s);
    let start: usize = if cs.len() > 0 && cs[0] == '+' {
        1
    } else {
        0
    };
    let ghost d = if s@.len() > 0 && s@[0] == '+' {
        s@.drop_first()
    } else {
        s@
    };
    proof {
        assert(d =~= cs@.subrange(start as int, cs@.len() as int));
    }
    if start >= cs.len() {
        return None;
    }
    let mut value: u64 = 0;
    let mut i: usize = start;
    while i < cs.len()
        invariant
            start <= i <= cs@.len(),
            cs@ == s@,
            d == cs@.subrange(start as int, cs@.len() as int),
            d == (if s@.len() > 0 && s@[0] == '+' {
                s@.drop_first()
            } else {
                s@
            }),
            all_digits(cs@.subrange(start as int, i as int)),
            value == decimal_value(cs@.subrange(start as int, i as int)),
            value <= u32::MAX,
        decreases cs@.len() - i,
    {
        let c = cs[i];
        let ghost sub = cs@.subrange(start as int, i + 1);
        proof {
            assert(sub.drop_last() =~= cs@.subrange(start as int, i as int));
            assert(sub.last() == c);
        }
        if !('0' <= c && c <= '9') {
            proof {
                assert(d[i - start] == c);
                assert(!is_digit(d[i - start]));
                assert(!all_digits(d));
            }
            return None;
        }
        let digit: u64 = (c as u32 - '0' as u32) as u64;
        proof {
            assert(digit as int == digit_value(c));
        }
        let next: u64 = value * 10 + digit;
        proof {
            assert(decimal_value(sub) == value * 10 + digit_value(c));
        }
        if next > 0xFFFF_FFFF {
            proof {
                assert(all_digits(sub));
                if all_digits(d) {
                    assert(sub =~= d.subrange(0, i + 1 - start));
                    lemma_decimal_mono(d, i + 1 - start);
                }
            }
            return None;
        }
        value = next;
        proof {
            assert(all_digits(sub));
        }
        i += 1;
    }
    proof {
        assert(cs@.subrange(start as int, i as int) =~= d);
    }
    Some(value as u32)
}

/// The decimal digits of a number.
pub open spec fn decimal_digits(n: nat) -> Seq<char>
    decreases n,
{
    if n < 10 {
        seq![(n + ('0' as nat)) as char]
    } else {
        decimal_digits(n / 10).push(((n % 10) + ('0' as nat)) as char)
    }
}

fn digit_char(d: u64) -> (c: char)
    requires
        d < 10,
    ensures
        c == (d + ('0' as nat)) as char,
{
    let cs: [char; 10] = ['0', '1', '2', '3', '4', '5', '6', '7', '8', '9'];
    cs[d as usize]
}

/// Appends the decimal digits of a number.
pub(crate) fn append_decimal(out: &mut Vec<char>, n: u64)
    ensures
        final(out)@ == old(out)@ + decimal_digits(n as nat),
    decreases n,
{
    if n < 10 {
        out.push(digit_char(n));
        proof {
            assert(decimal_digits(n as nat) == seq![(n + ('0' as nat)) as char]);
        }
    } else {
        append_decimal(out, n / 10);
        out.push(digit_char(n % 10));
    }
}

/// Why the command line is refused before any engine is started.
#[derive(Debug, Clone, PartialEq, Eq)]
pub struct CliFailure {
    /// `cli`, or `scan` for a refused scan target.
    pub verb: String,
    /// `COMMAND_ERROR`, or `INVALID_TARGET` for a refused scan target.
    pub code: String,
    pub message: String,
}

/// What the command line asks for.
#[derive(Debug, Clone, PartialEq, Eq)]
pub enum CliAction {
    Help,
    CliVersion,
    Invoke(CliInvocation),
}

/// A subcommand with its options and arguments.
#[derive(Debug, Clone, PartialEq, Eq)]
pub struct CliInvocation {
    pub engine_path: Option<String>,
    pub format: OutputFormat,
    pub command: String,
    pub args: Vec<String>,
    pub test_delay_ms: u32,
}

/// The options and words read so far.
pub struct ParseState {
    pub engine_path: Option<Seq<char>>,
    pub format: OutputFormat,
    pub command: Option<Seq<char>>,
    pub args: Seq<Seq<char>>,
    pub delay: u32,
}

/// How reading the words ends.
pub enum ParseEnd {
    Help,
    Version,
    Failed(Seq<char>),
    Done(ParseState),
}

/// An option value is present: a next word that does not start with `--`.
pub open spec fn value_follows(args: Seq<Seq<char>>, i: int) -> bool {
    i + 1 < args.len() && !(args[i + 1].len() >= 2 && args[i + 1][0] == '-' && args[i + 1][1] == '-')
}

/// Reads the words from `i` on: help and version end at once, options take
/// the next word as their value, the first word not starting with `-`
/// names the subcommand, and every other word is an argument.
pub open spec fn read_words(args: Seq<Seq<char>>, i: int, st: ParseState) -> ParseEnd
    decreases args.len() - i,
{
    if i < 1 || i >= args.len() {
        ParseEnd::Done(st)
    } else {
        let w = args[i];
        if w == "-h"@ || w == "--help"@ || w == "help"@ {
            ParseEnd::Help
        } else if w == "-V"@ || w == "--version"@ {
            ParseEnd::Version
        } else if w == "--engine-path"@ {
            if value_follows(args, i) {
                read_words(args, i + 2, ParseState { engine_path: Some(args[i + 1]), ..st })
            } else {
                ParseEnd::Failed("Missing value for --engine-path"@)
            }
        } else if w == "--test-delay-ms"@ {
            if value_follows(args, i) {
                read_words(
                    args,
                    i + 2,
                    match parse_u32_spec(args[i + 1]) {
                        Some(d) => ParseState { delay: d, ..st },
                        None => st,
                    },
                )
            } else {
                ParseEnd::Failed("Missing value for --test-delay-ms"@)
            }
        } else if w == "--format"@ {
            if value_follows(args, i) {
                match parse_format(args[i + 1]) {
                    Ok(f) => read_words(args, i + 2, ParseState { format: f, ..st }),
                    Err(m) => ParseEnd::Failed(m),
                }
            } else {
                ParseEnd::Failed("Missing value for --format"@)
            }
        } else if w == "--json"@ {
            read_words(args, i + 1, ParseState { format: OutputFormat::Json, ..st })
        } else if !(w.len() > 0 && w[0] == '-') && st.command is None {
            read_words(args, i + 1, ParseState { command: Some(w), ..st })
        } else {
            read_words(args, i + 1, ParseState { args: st.args.push(w), ..st })
        }
    }
}

/// `j` is the last position after the program name that holds the word
/// `flag`.
pub open spec fn last_flag_at(words: Seq<Seq<char>>, flag: Seq<char>, j: int) -> bool {
    &&& 1 <= j < words.len()
    &&& words[j] == flag
    &&& forall|k: int| j < k < words.len() ==> words[k] != flag
}

/// Reading the words from `i` on, when it reaches the end, leaves the
/// engine path as it was if no later word is `--engine-path`, and otherwise
/// sets it to the word right after the last `--engine-path` (which always
/// has one).
pub proof fn law_engine_path_is_last_given(words: Seq<Seq<char>>, i: int, st: ParseState)
    requires
        1 <= i,
    ensures
        read_words(words, i, st) matches ParseEnd::Done(fin) ==> {
            &&& (forall|k: int| i <= k < words.len() ==> words[k] != "--engine-path"@)
                ==> fin.engine_path == st.engine_path
            &&& forall|j: int|
                i <= j && #[trigger] last_flag_at(words, "--engine-path"@, j) ==> j + 1 < words.len()
                    && fin.engine_path == Some(words[j + 1])
        },
    decreases words.len() - i,
{
    reveal_strlit("--engine-path");
    let flag = "--engine-path"@;
    if i >= words.len() {
        return;
    }
    let w = words[i];
    if value_follows(words, i) {
        assert(words[i + 1] != flag) by {
            assert(flag[0] == '-' && flag[1] == '-');
        }
    }
    if w == "-h"@ || w == "--help"@ || w == "help"@ {
    } else if w == "-V"@ || w == "--version"@ {
    } else if w == flag {
        if value_follows(words, i) {
            let st2 = ParseState { engine_path: Some(words[i + 1]), ..st };
            law_engine_path_is_last_given(words, i + 2, st2);
            match read_words(words, i, st) {
                ParseEnd::Done(fin) => {
                    assert forall|j: int|
                        i <= j && #[trigger] last_flag_at(words, flag, j) implies j + 1 < words.len()
                        && fin.engine_path == Some(words[j + 1]) by {
                        if j == i {
                            assert forall|k: int| i + 2 <= k < words.len() implies words[k] != flag by {
                                assert(j < k);
                            }
                        } else {
                            assert(j != i + 1);
                        }
                    }
                },
                _ => {},
            }
        }
    } else {
        let next: int = if w == "--test-delay-ms"@ || w == "--format"@ {
            i + 2
        } else {
            i + 1
        };
        let st2 = if w == "--test-delay-ms"@ {
            match parse_u32_spec(words[i + 1]) {
                Some(d) => ParseState { delay: d, ..st },
                None => st,
            }
        } else if w == "--format"@ {
            match parse_format(words[i + 1]) {
                Ok(f) => ParseState { format: f, ..st },
                Err(m) => st,
            }
        } else if w == "--json"@ {
            ParseState { format: OutputFormat::Json, ..st }
        } else if !(w.len() > 0 && w[0] == '-') && st.command is None {
            ParseState { command: Some(w), ..st }
        } else {
            ParseState { args: st.args.push(w), ..st }
        };
        if next == i + 1 || value_follows(words, i) {
            law_engine_path_is_last_given(words, next, st2);
            match read_words(words, i, st) {
                ParseEnd::Done(fin) => {
                    assert(read_words(words, i, st) == read_words(words, next, st2));
                    assert forall|j: int|
                        i <= j && #[trigger] last_flag_at(words, flag, j) implies j + 1
                        < words.len() && fin.engine_path == Some(words[j + 1]) by {
                        assert(j != i);
                        if next == i + 2 {
                            assert(j != i + 1);
                        }
                    }
                },
                _ => {},
            }
        }
    }
}

/// A word that sets the output format.
pub open spec fn is_format_word(w: Seq<char>) -> bool {
    w == "--format"@ || w == "--json"@
}

/// `j` is the last position after the program name that sets the output
/// format.
pub open spec fn last_format_word_at(words: Seq<Seq<char>>, j: int) -> bool {
    &&& 1 <= j < words.len()
    &&& is_format_word(words[j])
    &&& forall|k: int| j < k < words.len() ==> !is_format_word(words[k])
}

/// Reading the words from `i` on, when it reaches the end, leaves the
/// output format as it was if no later word sets it; otherwise the last
/// such word decides: `--json` gives JSON, and `--format` gives the format
/// its next word names.
pub proof fn law_format_is_last_given(words: Seq<Seq<char>>, i: int, st: ParseState)
    requires
        1 <= i,
    ensures
        read_words(words, i, st) matches ParseEnd::Done(fin) ==> {
            &&& (forall|k: int| i <= k < words.len() ==> !is_format_word(words[k])) ==> fin.format
                == st.format
            &&& forall|j: int|
                i <= j && #[trigger] last_format_word_at(words, j) ==> {
                    &&& words[j] == "--json"@ ==> fin.format == OutputFormat::Json
                    &&& words[j] == "--format"@ ==> j + 1 < words.len() && parse_format(
                        words[j + 1],
                    ) == Ok::<OutputFormat, Seq<char>>(fin.format)
                }
        },
    decreases words.len() - i,
{
    reveal_strlit("--format");
    reveal_strlit("--json");
    reveal_strlit("--test-delay-ms");
    reveal_strlit("--engine-path");
    if i >= words.len() {
        return;
    }
    let w = words[i];
    if value_follows(words, i) {
        assert(words[i + 1] != "--format"@ && words[i + 1] != "--json"@ && words[i + 1]
            != "--test-delay-ms"@) by {
            assert("--format"@[0] == '-' && "--format"@[1] == '-');
            assert("--json"@[0] == '-' && "--json"@[1] == '-');
            assert("--test-delay-ms"@[0] == '-' && "--test-delay-ms"@[1] == '-');
        }
    }
    if w == "-h"@ || w == "--help"@ || w == "help"@ {
    } else if w == "-V"@ || w == "--version"@ {
    } else {
        let next: int = if w == "--engine-path"@ || w == "--test-delay-ms"@ || w == "--format"@ {
            i + 2
        } else {
            i + 1
        };
        let st2 = if w == "--engine-path"@ {
            ParseState { engine_path: Some(words[i + 1]), ..st }
        } else if w == "--test-delay-ms"@ {
            match parse_u32_spec(words[i + 1]) {
                Some(d) => ParseState { delay: d, ..st },
                None => st,
            }
        } else if w == "--format"@ {
            match parse_format(words[i + 1]) {
                Ok(f) => ParseState { format: f, ..st },
                Err(m) => st,
            }
        } else if w == "--json"@ {
            ParseState { format: OutputFormat::Json, ..st }
        } else if !(w.len() > 0 && w[0] == '-') && st.command is None {
            ParseState { command: Some(w), ..st }
        } else {
            ParseState { args: st.args.push(w), ..st }
        };
        if next == i + 1 || value_follows(words, i) {
            law_format_is_last_given(words, next, st2);
            match read_words(words, i, st) {
                ParseEnd::Done(fin) => {
                    assert(read_words(words, i, st) == read_words(words, next, st2));
                    assert forall|j: int| i <= j && #[trigger] last_format_word_at(words, j) implies {
                        &&& words[j] == "--json"@ ==> fin.format == OutputFormat::Json
                        &&& words[j] == "--format"@ ==> j + 1 < words.len() && parse_format(
                            words[j + 1],
                        ) == Ok::<OutputFormat, Seq<char>>(fin.format)
                    } by {
                        if j == i {
                            assert forall|k: int| next <= k < words.len() implies !is_format_word(words[k]) by {
                                assert(j < k);
                            }
                            assert(fin.format == st2.format);
                            if w == "--format"@ {
                                assert(value_follows(words, i));
                                if let Err(m) = parse_format(words[i + 1]) {
                                    assert(read_words(words, i, st) == ParseEnd::Failed(m));
                                }
                                assert(parse_format(words[i + 1]) is Ok);
                                assert(st2.format == parse_format(words[i + 1])->Ok_0);
                            } else {
                                assert(w == "--json"@);
                                assert(st2.format == OutputFormat::Json);
                            }
                        } else if next == i + 2 {
                            assert(j != i + 1);
                        }
                    }
                },
                _ => {},
            }
        }
    }
}

/// Reading the words from `i` on, when it reaches the end, leaves the
/// delay as it was if no later word is `--test-delay-ms`; the last such word
/// always has a value, and when that value is a number it is the delay.
pub proof fn law_delay_is_last_given(words: Seq<Seq<char>>, i: int, st: ParseState)
    requires
        1 <= i,
    ensures
        read_words(words, i, st) matches ParseEnd::Done(fin) ==> {
            &&& (forall|k: int| i <= k < words.len() ==> words[k] != "--test-delay-ms"@)
                ==> fin.delay == st.delay
            &&& forall|j: int|
                i <= j && #[trigger] last_flag_at(words, "--test-delay-ms"@, j) ==> j + 1
                    < words.len() && (parse_u32_spec(words[j + 1]) matches Some(d) ==> fin.delay
                    == d)
        },
    decreases words.len() - i,
{
    reveal_strlit("--format");
    reveal_strlit("--json");
    reveal_strlit("--test-delay-ms");
    reveal_strlit("--engine-path");
    if i >= words.len() {
        return;
    }
    let w = words[i];
    if value_follows(words, i) {
        assert(words[i + 1] != "--format"@ && words[i + 1] != "--json"@ && words[i + 1]
            != "--test-delay-ms"@) by {
            assert("--format"@[0] == '-' && "--format"@[1] == '-');
            assert("--json"@[0] == '-' && "--json"@[1] == '-');
            assert("--test-delay-ms"@[0] == '-' && "--test-delay-ms"@[1] == '-');
        }
    }
    if w == "-h"@ || w == "--help"@ || w == "help"@ {
    } else if w == "-V"@ || w == "--version"@ {
    } else {
        let next: int = if w == "--engine-path"@ || w == "--test-delay-ms"@ || w == "--format"@ {
            i + 2
        } else {
            i + 1
        };
        let st2 = if w == "--engine-path"@ {
            ParseState { engine_path: Some(words[i + 1]), ..st }
        } else if w == "--test-delay-ms"@ {
            match parse_u32_spec(words[i + 1]) {
                Some(d) => ParseState { delay: d, ..st },
                None => st,
            }
        } else if w == "--format"@ {
            match parse_format(words[i + 1]) {
                Ok(f) => ParseState { format: f, ..st },
                Err(m) => st,
            }
        } else if w == "--json"@ {
            ParseState { format: OutputFormat::Json, ..st }
        } else if !(w.len() > 0 && w[0] == '-') && st.command is None {
            ParseState { command: Some(w), ..st }
        } else {
            ParseState { args: st.args.push(w), ..st }
        };
        if next == i + 1 || value_follows(words, i) {
            law_delay_is_last_given(words, next, st2);
            match read_words(words, i, st) {
                ParseEnd::Done(fin) => {
                    assert(read_words(words, i, st) == read_words(words, next, st2));
                    assert forall|j: int| i <= j && #[trigger] last_flag_at(words, "--test-delay-ms"@, j) implies j + 1 < words.len() && (parse_u32_spec(
                        words[j + 1],
                    ) matches Some(d) ==> fin.delay == d) by {
                        if j == i {
                            assert forall|k: int| next <= k < words.len() implies words[k] != "--test-delay-ms"@ by {
                                assert(j < k);
                            }
                        } else if next == i + 2 {
                            assert(j != i + 1);
                        }
                    }
                },
                _ => {},
            }
        }
    }
}

/// An option that takes the next word as its value.
pub open spec fn takes_value(w: Seq<char>) -> bool {
    w == "--engine-path"@ || w == "--test-delay-ms"@ || w == "--format"@
}

/// The word at `j` is the value of the option before it.
pub open spec fn is_option_value(words: Seq<Seq<char>>, j: int) -> bool {
    2 <= j && takes_value(words[j - 1])
}

/// The word at `j` (after the program name) is neither an option nor an
/// option's value.
pub open spec fn is_plain_word(words: Seq<Seq<char>>, j: int) -> bool {
    &&& 1 <= j < words.len()
    &&& !is_option_value(words, j)
    &&& !(words[j].len() > 0 && words[j][0] == '-')
}

/// Reading the words from `i` on, when it reaches the end, keeps a
/// subcommand already named; otherwise the subcommand is the first plain
/// word from `i` on, and there is none when there is no plain word.
pub proof fn law_command_is_first_plain_word(words: Seq<Seq<char>>, i: int, st: ParseState)
    requires
        1 <= i,
        !is_option_value(words, i),
    ensures
        read_words(words, i, st) matches ParseEnd::Done(fin) ==> {
            &&& st.command is Some ==> fin.command == st.command
            &&& st.command is None && (forall|k: int| i <= k < words.len() ==> !is_plain_word(words, k))
                ==> fin.command is None
            &&& st.command is None ==> forall|c: int|
                i <= c && #[trigger] is_plain_word(words, c) && (forall|k: int| i <= k < c ==> !is_plain_word(words, k))
                    ==> fin.command == Some(words[c])
        },
    decreases words.len() - i,
{
    reveal_strlit("--format");
    reveal_strlit("--json");
    reveal_strlit("--test-delay-ms");
    reveal_strlit("--engine-path");
    if i >= words.len() {
        return;
    }
    let w = words[i];
    if value_follows(words, i) {
        assert(!takes_value(words[i + 1])) by {
            assert("--format"@[0] == '-' && "--format"@[1] == '-');
            assert("--engine-path"@[0] == '-' && "--engine-path"@[1] == '-');
            assert("--test-delay-ms"@[0] == '-' && "--test-delay-ms"@[1] == '-');
        }
    }
    if w == "-h"@ || w == "--help"@ || w == "help"@ {
    } else if w == "-V"@ || w == "--version"@ {
    } else {
        let next: int = if takes_value(w) {
            i + 2
        } else {
            i + 1
        };
        let st2 = if w == "--engine-path"@ {
            ParseState { engine_path: Some(words[i + 1]), ..st }
        } else if w == "--test-delay-ms"@ {
            match parse_u32_spec(words[i + 1]) {
                Some(d) => ParseState { delay: d, ..st },
                None => st,
            }
        } else if w == "--format"@ {
            match parse_format(words[i + 1]) {
                Ok(f) => ParseState { format: f, ..st },
                Err(m) => st,
            }
        } else if w == "--json"@ {
            ParseState { format: OutputFormat::Json, ..st }
        } else if !(w.len() > 0 && w[0] == '-') && st.command is None {
            ParseState { command: Some(w), ..st }
        } else {
            ParseState { args: st.args.push(w), ..st }
        };
        if next == i + 1 || value_follows(words, i) {
            if takes_value(w) {
                assert(w[0] == '-');
                assert(is_option_value(words, i + 1));
            }
            law_command_is_first_plain_word(words, next, st2);
            match read_words(words, i, st) {
                ParseEnd::Done(fin) => {
                    assert(read_words(words, i, st) == read_words(words, next, st2));
                    if st.command is None {
                        assert forall|c: int|
                            i <= c && #[trigger] is_plain_word(words, c) && (forall|k: int|
                                i <= k < c ==> !is_plain_word(words, k)) implies fin.command == Some(
                            words[c],
                        ) by {
                            if c > i {
                                assert(!is_plain_word(words, i));
                                if next == i + 2 {
                                    assert(!is_plain_word(words, i + 1));
                                }
                            } else {
                                assert(!(w.len() > 0 && w[0] == '-'));
                                assert(!takes_value(w) && w != "--json"@);
                                assert(st2.command == Some(w));
                            }
                        }
                        if forall|k: int| i <= k < words.len() ==> !is_plain_word(words, k) {
                            assert(!is_plain_word(words, i));
                            assert(w.len() > 0 && w[0] == '-');
                            assert(st2.command is None);
                        }
                    }
                },
                _ => {},
            }
        }
    }
}

/// The word at `j` is the subcommand: the first plain word.
pub open spec fn is_command_word(words: Seq<Seq<char>>, j: int) -> bool {
    is_plain_word(words, j) && forall|k: int| 1 <= k < j ==> !is_plain_word(words, k)
}

/// The word at `j` is an argument: it is after the program name, it is not
/// an option that the reader knows nor an option's value, and it is not the
/// subcommand.
pub open spec fn is_argument_word(words: Seq<Seq<char>>, j: int) -> bool {
    &&& 1 <= j < words.len()
    &&& !is_option_value(words, j)
    &&& !takes_value(words[j])
    &&& words[j] != "--json"@
    &&& !is_command_word(words, j)
}

/// The argument words at positions `from..to`, in order.
pub open spec fn argument_words(words: Seq<Seq<char>>, from: int, to: int) -> Seq<Seq<char>>
    decreases to - from,
{
    if to <= from {
        Seq::empty()
    } else if is_argument_word(words, to - 1) {
        argument_words(words, from, to - 1).push(words[to - 1])
    } else {
        argument_words(words, from, to - 1)
    }
}

proof fn lemma_argument_words_front(words: Seq<Seq<char>>, from: int, to: int)
    requires
        from < to,
    ensures
        argument_words(words, from, to) == (if is_argument_word(words, from) {
            seq![words[from]]
        } else {
            Seq::empty()
        }) + argument_words(words, from + 1, to),
    decreases to - from,
{
    let h: Seq<Seq<char>> = if is_argument_word(words, from) {
        seq![words[from]]
    } else {
        Seq::empty()
    };
    let x: Seq<Seq<char>> = if is_argument_word(words, to - 1) {
        seq![words[to - 1]]
    } else {
        Seq::empty()
    };
    assert(argument_words(words, from, to) =~= argument_words(words, from, to - 1) + x);
    if to - 1 > from {
        lemma_argument_words_front(words, from, to - 1);
        assert(argument_words(words, from + 1, to) =~= argument_words(words, from + 1, to - 1) + x);
        assert(argument_words(words, from, to) =~= h + argument_words(words, from + 1, to));
    } else {
        assert(argument_words(words, from, from) =~= Seq::<Seq<char>>::empty());
        assert(argument_words(words, from + 1, to) =~= Seq::<Seq<char>>::empty());
        assert(argument_words(words, from, to) =~= h + argument_words(words, from + 1, to));
    }
}

/// Reading the words from `i` on, when it reaches the end, adds the
/// argument words from `i` on, in order, to the arguments read so far.
pub proof fn law_arguments_are_the_other_words(words: Seq<Seq<char>>, i: int, st: ParseState)
    requires
        1 <= i,
        !is_option_value(words, i),
        st.command is None <==> forall|k: int| 1 <= k < i ==> !is_plain_word(words, k),
    ensures
        read_words(words, i, st) matches ParseEnd::Done(fin) ==> fin.args == st.args
            + argument_words(words, i, words.len() as int),
    decreases words.len() - i,
{
    reveal_strlit("--format");
    reveal_strlit("--json");
    reveal_strlit("--test-delay-ms");
    reveal_strlit("--engine-path");
    if i >= words.len() {
        assert(st.args + argument_words(words, i, words.len() as int) =~= st.args);
        return;
    }
    let w = words[i];
    if value_follows(words, i) {
        assert(!takes_value(words[i + 1])) by {
            assert("--format"@[0] == '-' && "--format"@[1] == '-');
            assert("--engine-path"@[0] == '-' && "--engine-path"@[1] == '-');
            assert("--test-delay-ms"@[0] == '-' && "--test-delay-ms"@[1] == '-');
        }
    }
    if w == "-h"@ || w == "--help"@ || w == "help"@ {
    } else if w == "-V"@ || w == "--version"@ {
    } else {
        let next: int = if takes_value(w) {
            i + 2
        } else {
            i + 1
        };
        let st2 = if w == "--engine-path"@ {
            ParseState { engine_path: Some(words[i + 1]), ..st }
        } else if w == "--test-delay-ms"@ {
            match parse_u32_spec(words[i + 1]) {
                Some(d) => ParseState { delay: d, ..st },
                None => st,
            }
        } else if w == "--format"@ {
            match parse_format(words[i + 1]) {
                Ok(f) => ParseState { format: f, ..st },
                Err(m) => st,
            }
        } else if w == "--json"@ {
            ParseState { format: OutputFormat::Json, ..st }
        } else if !(w.len() > 0 && w[0] == '-') && st.command is None {
            ParseState { command: Some(w), ..st }
        } else {
            ParseState { args: st.args.push(w), ..st }
        };
        if next == i + 1 || value_follows(words, i) {
            let plain_i = is_plain_word(words, i);
            if takes_value(w) {
                assert(w[0] == '-');
                assert(is_option_value(words, i + 1));
                assert(!is_plain_word(words, i + 1));
            }
            assert(st2.command is None <==> forall|k: int|
                1 <= k < next ==> !is_plain_word(words, k)) by {
                if st.command is None && plain_i {
                    assert(st2.command == Some(w));
                }
                if st2.command is None {
                    assert forall|k: int| 1 <= k < next implies !is_plain_word(words, k) by {
                        if k >= i {
                            assert(!plain_i);
                        }
                    }
                }
            }
            law_arguments_are_the_other_words(words, next, st2);
            lemma_argument_words_front(words, i, words.len() as int);
            if next == i + 2 {
                lemma_argument_words_front(words, i + 1, words.len() as int);
                assert(!is_argument_word(words, i + 1));
            }
            assert(is_argument_word(words, i) <==> st2.args == st.args.push(w)) by {
                if plain_i && st.command is None {
                    assert(is_command_word(words, i));
                }
                if is_command_word(words, i) {
                    assert(st.command is None);
                }
                if st.command is Some && plain_i {
                    let k = choose|k: int| 1 <= k < i && is_plain_word(words, k);
                    assert(!is_command_word(words, i));
                }
            }
            match read_words(words, i, st) {
                ParseEnd::Done(fin) => {
                    assert(read_words(words, i, st) == read_words(words, next, st2));
                    if is_argument_word(words, i) {
                        assert(fin.args =~= st.args + argument_words(words, i, words.len() as int));
                    } else {
                        assert(st2.args == st.args);
                        assert(fin.args =~= st.args + argument_words(words, i, words.len() as int));
                    }
                },
                _ => {},
            }
        }
    }
}

/// The subcommands the engine serves.
pub open spec fn known_commands() -> Seq<Seq<char>> {
    seq!["ping"@, "echo"@, "health"@, "status"@, "version"@, "shutdown"@, "scan"@]
}

/// The refusal of a command line, as (verb, code, message).
pub open spec fn cli_failure(code: Seq<char>, verb: Seq<char>, message: Seq<char>) -> (Seq<char>, Seq<char>, Seq<char>) {
    (verb, code, message)
}

/// The checks after reading: a subcommand is named and known, and a scan
/// names exactly one target that is not empty and not a network path.
/// `Ok` holds the state to run; `Err` holds (verb, code, message).
pub open spec fn check_words(st: ParseState) -> Result<ParseState, (Seq<char>, Seq<char>, Seq<char>)> {
    match st.command {
        None => Err(cli_failure("COMMAND_ERROR"@, "cli"@, "No subcommand specified"@)),
        Some(c) => if !known_commands().contains(c) {
            Err(cli_failure("COMMAND_ERROR"@, "cli"@, "Unknown subcommand: "@ + c))
        } else if c == "scan"@ {
            if st.args.len() == 0 {
                Err(cli_failure("COMMAND_ERROR"@, "cli"@, "Missing target directory argument for scan"@))
            } else if st.args.len() > 1 {
                Err(
                    cli_failure(
                        "COMMAND_ERROR"@,
                        "cli"@,
                        "Exactly one target directory argument required, found "@ + decimal_digits(
                            st.args.len(),
                        ),
                    ),
                )
            } else if trim_seq(st.args[0]).len() == 0 {
                Err(cli_failure("COMMAND_ERROR"@, "cli"@, "Target directory path cannot be empty"@))
            } else if lexical_unc(st.args[0]) {
                Err(
                    cli_failure(
                        "INVALID_TARGET"@,
                        "scan"@,
                        "UNC and network paths are not supported: "@ + st.args[0],
                    ),
                )
            } else {
                Ok(st)
            }
        } else {
            Ok(st)
        },
    }
}

/// `r` carries the invocation that the state `st` describes.
pub open spec fn invocation_of(st: ParseState, r: CliInvocation) -> bool {
    &&& r.engine_path.is_some() == st.engine_path.is_some()
    &&& (r.engine_path matches Some(p) ==> p@ == st.engine_path->0)
    &&& r.format == st.format
    &&& st.command matches Some(c) && r.command@ == c
    &&& r.args@.map_values(|a: String| a@) == st.args
    &&& r.test_delay_ms == st.delay
}

/// `f` carries the refusal (verb, code, message).
pub open spec fn failure_of(e: (Seq<char>, Seq<char>, Seq<char>), f: CliFailure) -> bool {
    f.verb@ == e.0 && f.code@ == e.1 && f.message@ == e.2
}

/// The text of an optional string.
pub open spec fn opt_view(o: &Option<String>) -> Option<Seq<char>> {
    match o {
        Some(s) => Some(s@),
        None => None,
    }
}

/// The initial state: default format, the delay from the environment.
pub open spec fn initial_state(default_delay: u32) -> ParseState {
    ParseState {
        engine_path: None,
        format: OutputFormat::Json,
        command: None,
        args: Seq::empty(),
        delay: default_delay,
    }
}

fn make_failure(verb: &str, code: &str, message: Vec<char>) -> (r: CliFailure)
    ensures
        r.verb@ == verb@,
        r.code@ == code@,
        r.message@ == message@,
{
    CliFailure { verb: verb.to_owned(), code: code.to_owned(), message: string_from_chars(message.as_slice()) }
}

fn starts_with_dash(w: &str) -> (r: (bool, bool))
    ensures
        r.0 == (w@.len() > 0 && w@[0] == '-'),
        r.1 == (w@.len() >= 2 && w@[0] == '-' && w@[1] == '-'),
{
    let cs = chars_of(w);
    let one: bool = cs.len() > 0 && cs[0] == '-';
    let two: bool = cs.len() >= 2 && cs[0] == '-' && cs[1] == '-';
    (one, two)
}

fn copy_strings(v: &Vec<String>) -> (r: Vec<String>)
    ensures
        r@.map_values(|a: String| a@) == v@.map_values(|a: String| a@),
{
    let mut r: Vec<String> = Vec::new();
    let mut i: usize = 0;
    while i < v.len()
        invariant
            i <= v@.len(),
            r@.map_values(|a: String| a@) == v@.subrange(0, i as int).map_values(|a: String| a@),
        decreases v@.len() - i,
    {
        let ghost r0 = r@;
        r.push(v[i].clone());
        proof {
            assert(r@ =~= r0.push(v@[i as int]));
            assert(r@.map_values(|a: String| a@) =~= r0.map_values(|a: String| a@).push(v@[i as int]@));
            assert(v@.subrange(0, i + 1).map_values(|a: String| a@) =~= v@.subrange(0, i as int).map_values(|a: String| a@).push(v@[i as int]@));
        }
        i += 1;
    }
    proof {
        assert(v@.subrange(0, v@.len() as int) =~= v@);
    }
    r
}

/// Parses the command line (`args[0]` is the program) and runs the checks
/// that need no engine and no filesystem: see `read_words` and `check_words`.
pub fn parse_command_line(args: &[String], default_delay: u32) -> (r: Result<CliAction, CliFailure>)
    ensures
        ({
            let words = args@.map_values(|a: String| a@);
            if words.len() < 2 {
                r matches Err(f) && failure_of(cli_failure("COMMAND_ERROR"@, "cli"@, "No subcommand specified"@), f)
            } else {
                match read_words(words, 1, initial_state(default_delay)) {
                    ParseEnd::Help => r == Ok::<CliAction, CliFailure>(CliAction::Help),
                    ParseEnd::Version => r == Ok::<CliAction, CliFailure>(CliAction::CliVersion),
                    ParseEnd::Failed(m) => r matches Err(f) && failure_of(cli_failure("COMMAND_ERROR"@, "cli"@, m), f),
                    ParseEnd::Done(st) => match check_words(st) {
                        Err(e) => r matches Err(f) && failure_of(e, f),
                        Ok(st2) => r matches Ok(CliAction::Invoke(inv)) && invocation_of(st2, inv),
                    },
                }
            }
        }),
        ({
            let words = args@.map_values(|a: String| a@);
            r matches Ok(CliAction::Invoke(inv)) ==> {
                &&& (forall|k: int| 1 <= k < words.len() ==> words[k] != "--engine-path"@)
                    ==> inv.engine_path is None
                &&& forall|j: int|
                    #[trigger] last_flag_at(words, "--engine-path"@, j) ==> j + 1 < words.len()
                        && opt_view(&inv.engine_path) == Some(words[j + 1])
                &&& forall|c: int|
                    #[trigger] is_plain_word(words, c) && (forall|k: int| 1 <= k < c ==> !is_plain_word(words, k))
                        ==> inv.command@ == words[c]
                &&& inv.args@.map_values(|a: String| a@) == argument_words(
                    words,
                    1,
                    words.len() as int,
                )
                &&& (forall|k: int| 1 <= k < words.len() ==> !is_format_word(words[k]))
                    ==> inv.format == OutputFormat::Json
                &&& forall|j: int|
                    #[trigger] last_format_word_at(words, j) ==> {
                        &&& words[j] == "--json"@ ==> inv.format == OutputFormat::Json
                        &&& words[j] == "--format"@ ==> j + 1 < words.len() && parse_format(
                            words[j + 1],
                        ) == Ok::<OutputFormat, Seq<char>>(inv.format)
                    }
                &&& (forall|k: int| 1 <= k < words.len() ==> words[k] != "--test-delay-ms"@)
                    ==> inv.test_delay_ms == default_delay
                &&& forall|j: int|
                    #[trigger] last_flag_at(words, "--test-delay-ms"@, j) ==> j + 1 < words.len()
                        && (parse_u32_spec(words[j + 1]) matches Some(d) ==> inv.test_delay_ms
                        == d)
            }
        }),
{
    let ghost words = args@.map_values(|a: String| a@);
    if args.len() < 2 {
        let mut m: Vec<char> = Vec::new();
        append_chars(&mut m, "No subcommand specified");
        return Err(make_failure("cli", "COMMAND_ERROR", m));
    }
    let mut engine_path: Option<String> = None;
    let mut format = OutputFormat::Json;
    let mut command: Option<String> = None;
    let mut rest: Vec<String> = Vec::new();
    let mut delay: u32 = default_delay;
    let mut i: usize = 1;
    proof {
        assert(rest@.map_values(|a: String| a@) =~= Seq::<Seq<char>>::empty());
    }
    while i < args.len()
        invariant
            1 <= i <= args@.len() + 1,
            words == args@.map_values(|a: String| a@),
            words.len() >= 2,
            read_words(words, 1, initial_state(default_delay)) == read_words(
                words,
                i as int,
                ParseState {
                    engine_path: opt_view(&engine_path),
                    format,
                    command: opt_view(&command),
                    args: rest@.map_values(|a: String| a@),
                    delay,
                },
            ),
        decreases args@.len() + 1 - i,
    {
        let ghost st = ParseState {
            engine_path: opt_view(&engine_path),
            format,
            command: opt_view(&command),
            args: rest@.map_values(|a: String| a@),
            delay,
        };
        let w: &str = args[i].as_str();
        proof {
            assert(words[i as int] == w@);
        }
        let has_value: bool = i + 1 < args.len() && !starts_with_dash(args[i + 1].as_str()).1;
        proof {
            if i + 1 < args@.len() {
                assert(words[i + 1] == args@[i + 1]@);
            }
            assert(has_value == value_follows(words, i as int));
        }
        if same_text(w, "-h") || same_text(w, "--help") || same_text(w, "help") {
            return Ok(CliAction::Help);
        }
        if same_text(w, "-V") || same_text(w, "--version") {
            return Ok(CliAction::CliVersion);
        }
        if same_text(w, "--engine-path") {
            if !has_value {
                let mut m: Vec<char> = Vec::new();
                append_chars(&mut m, "Missing value for --engine-path");
                return Err(make_failure("cli", "COMMAND_ERROR", m));
            }
            engine_path = Some(args[i + 1].clone());
            i += 2;
        } else if same_text(w, "--test-delay-ms") {
            if !has_value {
                let mut m: Vec<char> = Vec::new();
                append_chars(&mut m, "Missing value for --test-delay-ms");
                return Err(make_failure("cli", "COMMAND_ERROR", m));
            }
            match parse_u32(args[i + 1].as_str()) {
                Some(d) => {
                    delay = d;
                },
                None => {},
            }
            i += 2;
        } else if same_text(w, "--format") {
            if !has_value {
                let mut m: Vec<char> = Vec::new();
                append_chars(&mut m, "Missing value for --format");
                return Err(make_failure("cli", "COMMAND_ERROR", m));
            }
            match OutputFormat::parse(args[i + 1].as_str()) {
                Ok(f) => {
                    format = f;
                },
                Err(e) => {
                    let m = chars_of(e.as_str());
                    return Err(make_failure("cli", "COMMAND_ERROR", m));
                },
            }
            i += 2;
        } else if same_text(w, "--json") {
            format = OutputFormat::Json;
            i += 1;
        } else if !starts_with_dash(w).0 && command.is_none() {
            command = Some(args[i].clone());
            i += 1;
        } else {
            let ghost r0 = rest@;
            rest.push(args[i].clone());
            proof {
                assert(rest@.map_values(|a: String| a@) =~= r0.map_values(|a: String| a@).push(w@));
            }
            i += 1;
        }
    }
    proof {
        assert(read_words(words, i as int, ParseState {
            engine_path: opt_view(&engine_path),
            format,
            command: opt_view(&command),
            args: rest@.map_values(|a: String| a@),
            delay,
        }) is Done);
    }
    let cmd: String = match command {
        None => {
            let mut m: Vec<char> = Vec::new();
            append_chars(&mut m, "No subcommand specified");
            return Err(make_failure("cli", "COMMAND_ERROR", m));
        },
        Some(c) => c,
    };
    let known: [&str; 7] = ["ping", "echo", "health", "status", "version", "shutdown", "scan"];
    proof {
        assert forall|k: int| 0 <= k < 7 implies (#[trigger] known@[k])@ == known_commands()[k] by {}
    }
    let mut found: bool = false;
    let mut k: usize = 0;
    while k < 7
        invariant
            k <= 7,
            known@.len() == 7,
            forall|j: int| 0 <= j < 7 ==> (#[trigger] known@[j])@ == known_commands()[j],
            found == exists|j: int| 0 <= j < k && known_commands()[j] == cmd@,
        decreases 7 - k,
    {
        if same_text(cmd.as_str(), known[k]) {
            found = true;
        }
        k += 1;
    }
    proof {
        if known_commands().contains(cmd@) {
            let j = choose|j: int| 0 <= j < known_commands().len() && known_commands()[j] == cmd@;
            assert(0 <= j < 7);
        }
        if found {
            let j = choose|j: int| 0 <= j < 7 && known_commands()[j] == cmd@;
            assert(known_commands().contains(cmd@));
        }
    }
    if !found {
        let mut m: Vec<char> = Vec::new();
        append_chars(&mut m, "Unknown subcommand: ");
        append_chars(&mut m, cmd.as_str());
        return Err(make_failure("cli", "COMMAND_ERROR", m));
    }
    if same_text(cmd.as_str(), "scan") {
        if rest.len() == 0 {
            let mut m: Vec<char> = Vec::new();
            append_chars(&mut m, "Missing target directory argument for scan");
            return Err(make_failure("cli", "COMMAND_ERROR", m));
        }
        if rest.len() > 1 {
            let mut m: Vec<char> = Vec::new();
            append_chars(&mut m, "Exactly one target directory argument required, found ");
            append_decimal(&mut m, rest.len() as u64);
            return Err(make_failure("cli", "COMMAND_ERROR", m));
        }
        let target: &str = rest[0].as_str();
        let tc = chars_of(target);
        let trimmed = trim_chars(tc.as_slice());
        proof {
            assert(rest@.map_values(|a: String| a@)[0] == rest@[0]@);
        }
        if trimmed.len() == 0 {
            let mut m: Vec<char> = Vec::new();
            append_chars(&mut m, "Target directory path cannot be empty");
            return Err(make_failure("cli", "COMMAND_ERROR", m));
        }
        if is_lexical_unc(target) {
            let mut m: Vec<char> = Vec::new();
            append_chars(&mut m, "UNC and network paths are not supported: ");
            append_chars(&mut m, target);
            return Err(make_failure("scan", "INVALID_TARGET", m));
        }
    }
    let args_out = copy_strings(&rest);
    proof {
        law_engine_path_is_last_given(words, 1, initial_state(default_delay));
        law_format_is_last_given(words, 1, initial_state(default_delay));
        law_delay_is_last_given(words, 1, initial_state(default_delay));
        law_command_is_first_plain_word(words, 1, initial_state(default_delay));
        law_arguments_are_the_other_words(words, 1, initial_state(default_delay));
        assert(initial_state(default_delay).args + argument_words(words, 1, words.len() as int)
            =~= argument_words(words, 1, words.len() as int));
    }
    Ok(
        CliAction::Invoke(
            CliInvocation { engine_path, format, command: cmd, args: args_out, test_delay_ms: delay },
        ),
    )
}

} // verus!
