//! Windows command-line quoting of process arguments.

use crate::cli::{append_decimal, decimal_digits};
use crate::text::{append_chars, chars_of, string_from_chars};
use vstd::prelude::*;

verus! {

/// A character that forces an argument into quotes.
pub open spec fn forces_quotes(c: char) -> bool {
    c == ' ' || c == '\t' || c == '\n' || c == '\x0B' || c == '"'
}

/// Some character of the argument forces quotes.
pub open spec fn needs_quotes(s: Seq<char>) -> bool {
    exists|i: int| 0 <= i < s.len() && forces_quotes(#[trigger] s[i])
}

/// `n` backslashes.
pub open spec fn backslashes(n: nat) -> Seq<char> {
    Seq::new(n, |i: int| '\\')
}

/// The quoted form of the rest of an argument, `pending` backslashes having
/// been read but not yet written: backslashes before a quote are doubled and
/// the quote escaped, backslashes before the closing quote are doubled, and
/// all other backslashes are kept as they are.
pub open spec fn quote_body(s: Seq<char>, pending: nat) -> Seq<char>
    decreases s.len(),
{
    if s.len() == 0 {
        backslashes(2 * pending)
    } else if s[0] == '\\' {
        quote_body(s.drop_first(), pending + 1)
    } else if s[0] == '"' {
        backslashes(2 * pending + 1) + seq!['"'] + quote_body(s.drop_first(), 0)
    } else {
        backslashes(pending) + seq![s[0]] + quote_body(s.drop_first(), 0)
    }
}

/// An argument as it is written on a Windows command line.
pub open spec fn quoted_arg(s: Seq<char>) -> Seq<char> {
    if s.len() == 0 {
        seq!['"', '"']
    } else if !needs_quotes(s) {
        s
    } else {
        seq!['"'] + quote_body(s, 0) + seq!['"']
    }
}

fn push_backslashes(out: &mut Vec<char>, n: usize)
    ensures
        final(out)@ == old(out)@ + backslashes(n as nat),
{
    let ghost start = out@;
    let mut k: usize = 0;
    while k < n
        invariant
            k <= n,
            out@ == start + backslashes(k as nat),
        decreases n - k,
    {
        out.push('\\');
        proof {
            assert(backslashes((k + 1) as nat) =~= backslashes(k as nat).push('\\'));
        }
        k += 1;
    }
}

proof fn lemma_backslashes_add(a: nat, b: nat)
    ensures
        backslashes(a) + backslashes(b) == backslashes(a + b),
{
    assert(backslashes(a) + backslashes(b) =~= backslashes(a + b));
}

/// Quotes one argument for a Windows command line (see `quoted_arg`).
pub fn quote_windows_arg(arg: &str) -> (r: String)
    ensures
        r@ == quoted_arg(arg@),
{
    let s = chars_of(arg);
    if s.len() == 0 {
        let mut out: Vec<char> = Vec::new();
        out.push('"');
        out.push('"');
        proof {
            assert(out@ =~= seq!['"', '"']);
        }
        return string_from_chars(out.as_slice());
    }
    let mut needs: bool = false;
    let mut i: usize = 0;
    while i < s.len()
        invariant
            i <= s@.len(),
            needs == exists|k: int| 0 <= k < i && forces_quotes(#[trigger] s@[k]),
        decreases s@.len() - i,
    {
        let c = s[i];
        if c == ' ' || c == '\t' || c == '\n' || c == '\x0B' || c == '"' {
            needs = true;
        }
        i += 1;
    }
    if !needs {
        return string_from_chars(s.as_slice());
    }
    let mut out: Vec<char> = Vec::new();
    out.push('"');
    let mut pending: usize = 0;
    let mut i: usize = 0;
    proof {
        assert(s@.subrange(0, s@.len() as int) =~= s@);
        assert(out@ =~= seq!['"']);
    }
    while i < s.len()
        invariant
            i <= s@.len(),
            pending <= i,
            out@ + quote_body(s@.subrange(i as int, s@.len() as int), pending as nat) == seq!['"']
                + quote_body(s@, 0),
        decreases s@.len() - i,
    {
        let c = s[i];
        let ghost rest = s@.subrange(i as int, s@.len() as int);
        let ghost out0 = out@;
        proof {
            assert(rest[0] == c);
            assert(rest.drop_first() =~= s@.subrange(i + 1, s@.len() as int));
        }
        if c == '\\' {
            pending = pending + 1;
        } else if c == '"' {
            push_backslashes(&mut out, pending);
            push_backslashes(&mut out, pending);
            push_backslashes(&mut out, 1);
            out.push('"');
            proof {
                lemma_backslashes_add(pending as nat, pending as nat);
                lemma_backslashes_add((2 * pending) as nat, 1);
                assert(out@ =~= out0 + backslashes((2 * pending + 1) as nat) + seq!['"']);
            }
            pending = 0;
        } else {
            push_backslashes(&mut out, pending);
            out.push(c);
            proof {
                assert(out@ =~= out0 + backslashes(pending as nat) + seq![c]);
            }
            pending = 0;
        }
        i += 1;
    }
    let ghost out1 = out@;
    push_backslashes(&mut out, pending);
    push_backslashes(&mut out, pending);
    out.push('"');
    proof {
        lemma_backslashes_add(pending as nat, pending as nat);
        assert(s@.subrange(s@.len() as int, s@.len() as int) =~= Seq::<char>::empty());
        assert(out@ =~= seq!['"'] + quote_body(s@, 0) + seq!['"']);
    }
    string_from_chars(out.as_slice())
}

/// The first `m` arguments quoted and separated by single spaces.
pub open spec fn command_line(args: Seq<Seq<char>>, m: int) -> Seq<char>
    decreases m,
{
    if m <= 0 {
        Seq::empty()
    } else if m == 1 {
        quoted_arg(args[0])
    } else {
        command_line(args, m - 1) + seq![' '] + quoted_arg(args[m - 1])
    }
}

/// Builds a full Windows command line from arguments (see `command_line`).
pub fn build_windows_command_line(args: &[&str]) -> (r: String)
    ensures
        r@ == command_line(args@.map_values(|a: &str| a@), args@.len() as int),
{
    let ghost a = args@.map_values(|x: &str| x@);
    let mut out: Vec<char> = Vec::new();
    let mut i: usize = 0;
    while i < args.len()
        invariant
            i <= args@.len(),
            a == args@.map_values(|x: &str| x@),
            out@ == command_line(a, i as int),
        decreases args@.len() - i,
    {
        if i > 0 {
            out.push(' ');
        }
        let q = quote_windows_arg(args[i]);
        let qc = chars_of(q.as_str());
        let mut k: usize = 0;
        let ghost before = out@;
        while k < qc.len()
            invariant
                k <= qc@.len(),
                out@ == before + qc@.subrange(0, k as int),
            decreases qc@.len() - k,
        {
            out.push(qc[k]);
            proof {
                assert(qc@.subrange(0, k + 1) =~= qc@.subrange(0, k as int).push(qc@[k as int]));
            }
            k += 1;
        }
        proof {
            assert(qc@.subrange(0, qc@.len() as int) =~= qc@);
            assert(a[i as int] == args@[i as int]@);
            if i == 0 {
                assert(before =~= Seq::<char>::empty());
                assert(out@ =~= quoted_arg(a[0]));
            } else {
                assert(out@ =~= command_line(a, i as int) + seq![' '] + quoted_arg(a[i as int]));
            }
        }
        i += 1;
    }
    string_from_chars(out.as_slice())
}


/// The command line the engine host is launched with: the quoted engine
/// path, the quoted pipe name and session id, and the bootstrap handle's
/// number.
pub open spec fn engine_command_line_of(exe: Seq<char>, pipe: Seq<char>, session: Seq<char>, handle: nat) -> Seq<char> {
    "\""@ + exe + "\" --pipe-name \""@ + pipe + "\" --session-id \""@ + session
        + "\" --bootstrap-handle "@ + decimal_digits(handle)
}

/// Builds the engine host's command line (see `engine_command_line_of`).
pub fn engine_command_line(engine_exe: &str, pipe_name: &str, session_id: &str, bootstrap_handle: usize) -> (r: String)
    ensures
        r@ == engine_command_line_of(engine_exe@, pipe_name@, session_id@, bootstrap_handle as nat),
{
    let mut out: Vec<char> = Vec::new();
    append_chars(&mut out, "\"");
    append_chars(&mut out, engine_exe);
    append_chars(&mut out, "\" --pipe-name \"");
    append_chars(&mut out, pipe_name);
    append_chars(&mut out, "\" --session-id \"");
    append_chars(&mut out, session_id);
    append_chars(&mut out, "\" --bootstrap-handle ");
    append_decimal(&mut out, bootstrap_handle as u64);
    proof {
        assert(out@ =~= engine_command_line_of(engine_exe@, pipe_name@, session_id@, bootstrap_handle as nat));
    }
    string_from_chars(out.as_slice())
}

} // verus!
