//! One argument parser for both policy validation and direct process launch.
//!
//! On Windows a command line is split by the C runtime's rules: backslashes
//! are literal unless they stand right before a double quote, and single
//! quotes are ordinary characters. Elsewhere the POSIX shell word rules of the
//! `shell_words` crate apply. Neither expands anything.
use vstd::prelude::*;
use crate::text::{is_ws, is_whitespace, chars_of, string_of, words_from};
use crate::monitor::model::strs_view;

verus! {

/// `n` backslashes.
pub open spec fn backslashes(n: nat) -> Seq<char> {
    Seq::new(n, |_k: int| '\\')
}

/// Length of the run of backslashes starting at `i`.
pub open spec fn backslash_run(s: Seq<char>, i: int) -> nat
    decreases s.len() - i,
{
    if 0 <= i < s.len() && s[i] == '\\' {
        1 + backslash_run(s, i + 1)
    } else {
        0
    }
}

/// The Windows splitter from position `i`, with the finished arguments
/// `args`; inside an argument (`in_arg`) it holds the text so far and
/// whether a double-quoted part is open. `None` means a double quote was
/// never closed.
pub open spec fn win_split(
    s: Seq<char>,
    i: int,
    args: Seq<Seq<char>>,
    arg: Seq<char>,
    quoted: bool,
    in_arg: bool,
) -> Option<Seq<Seq<char>>>
    decreases s.len() - i, if in_arg {
        0int
    } else {
        1int
    },
{
    if i < 0 {
        None
    } else if !in_arg {
        if i >= s.len() {
            Some(args)
        } else if is_ws(s[i]) {
            win_split(s, i + 1, args, Seq::empty(), false, false)
        } else {
            win_split(s, i, args, Seq::empty(), false, true)
        }
    } else if i >= s.len() {
        if quoted {
            None
        } else {
            Some(args.push(arg))
        }
    } else if is_ws(s[i]) && !quoted {
        win_split(s, i + 1, args.push(arg), Seq::empty(), false, false)
    } else {
        let n = backslash_run(s, i);
        let j = i + n;
        if j < s.len() && s[j] == '"' {
            let a = arg + backslashes(n / 2);
            if n % 2 == 1 {
                win_split(s, j + 1, args, a.push('"'), quoted, true)
            } else if quoted && j + 1 < s.len() && s[j + 1] == '"' {
                win_split(s, j + 2, args, a.push('"'), quoted, true)
            } else {
                win_split(s, j + 1, args, a, !quoted, true)
            }
        } else {
            let a = arg + backslashes(n);
            if j >= s.len() {
                if quoted {
                    None
                } else {
                    Some(args.push(a))
                }
            } else if is_ws(s[j]) && !quoted {
                win_split(s, j + 1, args.push(a), Seq::empty(), false, false)
            } else {
                win_split(s, j + 1, args, a.push(s[j]), quoted, true)
            }
        }
    }
}

/// The arguments of a Windows command line, or `None` when a double quote
/// is left open.
pub open spec fn windows_args(s: Seq<char>) -> Option<Seq<Seq<char>>> {
    win_split(s, 0, Seq::empty(), Seq::empty(), false, false)
}

/// A run of backslashes stays inside the text and holds only backslashes.
proof fn lemma_backslash_run(s: Seq<char>, i: int)
    requires
        0 <= i,
    ensures
        i + backslash_run(s, i) <= s.len() || backslash_run(s, i) == 0,
        forall|k: int| i <= k < i + backslash_run(s, i) ==> s[k] == '\\',
        s.subrange(i, i + backslash_run(s, i)) == backslashes(backslash_run(s, i)) || backslash_run(
            s,
            i,
        ) == 0,
    decreases s.len() - i,
{
    if 0 <= i < s.len() && s[i] == '\\' {
        lemma_backslash_run(s, i + 1);
        let n = backslash_run(s, i);
        assert(s.subrange(i, i + n) =~= backslashes(n));
    }
}

/// Without double quotes, the splitter from position `i` gives the finished
/// arguments followed by the whitespace-separated words of the rest.
proof fn lemma_split_plain(s: Seq<char>, i: int, args: Seq<Seq<char>>, arg: Seq<char>, in_arg: bool)
    requires
        0 <= i <= s.len(),
        forall|k: int| 0 <= k < s.len() ==> #[trigger] s[k] != '"',
        !in_arg ==> arg == Seq::<char>::empty(),
    ensures
        win_split(s, i, args, arg, false, in_arg) == Some(args + words_from(s, i, arg, in_arg)),
    decreases s.len() - i, if in_arg {
        0int
    } else {
        1int
    },
{
    if !in_arg {
        if i >= s.len() {
            assert(args + Seq::<Seq<char>>::empty() =~= args);
        } else if is_ws(s[i]) {
            lemma_split_plain(s, i + 1, args, Seq::empty(), false);
        } else {
            lemma_split_plain(s, i, args, Seq::empty(), true);
            assert(words_from(s, i, Seq::empty(), true) == words_from(s, i + 1, seq![s[i]], true)) by {
                assert(Seq::<char>::empty().push(s[i]) =~= seq![s[i]]);
            }
        }
    } else if i >= s.len() {
        assert(args.push(arg) =~= args + seq![arg]);
    } else if is_ws(s[i]) {
        lemma_split_plain(s, i + 1, args.push(arg), Seq::empty(), false);
        assert(args.push(arg) + words_from(s, i + 1, Seq::empty(), false) =~= args + (seq![arg]
            + words_from(s, i + 1, Seq::empty(), false)));
    } else {
        lemma_backslash_run(s, i);
        let n = backslash_run(s, i);
        let j = i + n;
        let a = arg + backslashes(n);
        assert(j <= s.len());
        assert(!(j < s.len() && s[j] == '"'));
        assert forall|k: int| i <= k < j implies !is_ws(#[trigger] s[k]) by {
            assert(s[k] == '\\');
        }
        if n > 0 {
            crate::text::lemma_words_run(s, i, j, arg, true);
            assert(arg + s.subrange(i, j) == a);
        } else {
            assert(a =~= arg);
        }
        if j >= s.len() {
            crate::text::lemma_words_end(s, a);
            assert(args.push(a) =~= args + seq![a]);
        } else if is_ws(s[j]) {
            lemma_split_plain(s, j + 1, args.push(a), Seq::empty(), false);
            assert(args.push(a) + words_from(s, j + 1, Seq::empty(), false) =~= args + (seq![a]
                + words_from(s, j + 1, Seq::empty(), false)));
        } else {
            lemma_split_plain(s, j + 1, args, a.push(s[j]), true);
        }
    }
}

/// A command line without double quotes splits at whitespace, like
/// `str::split_whitespace`; backslashes in it are kept as they are.
pub proof fn lemma_plain_command_splits_at_whitespace(s: Seq<char>)
    requires
        forall|k: int| 0 <= k < s.len() ==> #[trigger] s[k] != '"',
    ensures
        windows_args(s) == Some(crate::text::words(s)),
{
    lemma_split_plain(s, 0, Seq::empty(), Seq::empty(), false);
    assert(Seq::<Seq<char>>::empty() + crate::text::words(s) =~= crate::text::words(s));
}

/// The error reported for an unclosed double quote.
pub open spec fn unclosed_quote_message() -> Seq<char> {
    "Unclosed double quote in Windows command"@
}

/// The error reported when the POSIX rules refuse a command.
pub open spec fn invalid_syntax_message() -> Seq<char> {
    "Invalid command syntax"@
}

/// Counts the backslashes starting at `i`.
fn count_backslashes(s: &Vec<char>, i: usize) -> (n: usize)
    requires
        i <= s@.len(),
    ensures
        n as nat == backslash_run(s@, i as int),
        i + n <= s@.len(),
{
    let mut k = i;
    while k < s.len() && s[k] == '\\'
        invariant
            i <= k <= s@.len(),
            backslash_run(s@, i as int) == (k - i) + backslash_run(s@, k as int),
        decreases s.len() - k,
    {
        k = k + 1;
    }
    k - i
}

/// Appends `n` backslashes.
fn push_backslashes(arg: &mut Vec<char>, n: usize)
    ensures
        final(arg)@ == old(arg)@ + backslashes(n as nat),
{
    let mut k: usize = 0;
    while k < n
        invariant
            k <= n,
            arg@ == old(arg)@ + backslashes(k as nat),
        decreases n - k,
    {
        arg.push('\\');
        assert(backslashes((k + 1) as nat) =~= backslashes(k as nat).push('\\'));
        k = k + 1;
    }
}

/// Converts finished arguments to strings.
fn strings_of(args: &Vec<Vec<char>>) -> (r: Vec<String>)
    ensures
        strs_view(r@) == args@.map_values(|a: Vec<char>| a@),
{
    let mut r: Vec<String> = Vec::new();
    let mut i: usize = 0;
    while i < args.len()
        invariant
            i <= args@.len(),
            strs_view(r@) == args@.subrange(0, i as int).map_values(|a: Vec<char>| a@),
        decreases args.len() - i,
    {
        let s = string_of(args[i].as_slice());
        let ghost prev = r@;
        r.push(s);
        assert(strs_view(r@) =~= strs_view(prev).push(s@));
        assert(args@.subrange(0, i + 1).map_values(|a: Vec<char>| a@) =~= args@.subrange(
            0,
            i as int,
        ).map_values(|a: Vec<char>| a@).push(args@[i as int]@));
        i = i + 1;
    }
    assert(args@.subrange(0, i as int) =~= args@);
    r
}

/// Splits a command line by the Windows C runtime rules.
pub fn split_windows_command(command: &str) -> (r: Result<Vec<String>, &'static str>)
    ensures
        match windows_args(command@) {
            Some(a) => r matches Ok(v) && strs_view(v@) == a,
            None => r matches Err(e) && e@ == unclosed_quote_message(),
        },
{
    let s = chars_of(command);
    let mut i: usize = 0;
    let mut args: Vec<Vec<char>> = Vec::new();
    let mut arg: Vec<char> = Vec::new();
    let mut quoted = false;
    let mut in_arg = false;
    let ghost target = windows_args(s@);
    assert(args@.map_values(|a: Vec<char>| a@) =~= Seq::<Seq<char>>::empty());
    loop
        invariant
            s@ == command@,
            i <= s@.len(),
            target == windows_args(s@),
            !in_arg ==> arg@ == Seq::<char>::empty() && !quoted,
            win_split(s@, i as int, args@.map_values(|a: Vec<char>| a@), arg@, quoted, in_arg)
                == target,
        decreases s@.len() - i, if in_arg {
            0int
        } else {
            1int
        },
    {
        let ghost av = args@.map_values(|a: Vec<char>| a@);
        if !in_arg {
            if i >= s.len() {
                let v = strings_of(&args);
                return Ok(v);
            } else if is_whitespace(s[i]) {
                i = i + 1;
            } else {
                arg = Vec::new();
                quoted = false;
                in_arg = true;
            }
        } else if i >= s.len() {
            if quoted {
                return Err("Unclosed double quote in Windows command");
            }
            args.push(arg);
            assert(args@.map_values(|a: Vec<char>| a@) =~= av.push(arg@));
            let v = strings_of(&args);
            return Ok(v);
        } else if is_whitespace(s[i]) && !quoted {
            let finished = arg;
            args.push(finished);
            assert(args@.map_values(|a: Vec<char>| a@) =~= av.push(finished@));
            arg = Vec::new();
            quoted = false;
            in_arg = false;
            i = i + 1;
        } else {
            let n = count_backslashes(&s, i);
            let j = i + n;
            if j < s.len() && s[j] == '"' {
                push_backslashes(&mut arg, n / 2);
                if n % 2 == 1 {
                    arg.push('"');
                    i = j + 1;
                } else if quoted && j + 1 < s.len() && s[j + 1] == '"' {
                    arg.push('"');
                    i = j + 2;
                } else {
                    quoted = !quoted;
                    i = j + 1;
                }
            } else {
                push_backslashes(&mut arg, n);
                if j >= s.len() {
                    if quoted {
                        return Err("Unclosed double quote in Windows command");
                    }
                    args.push(arg);
                    assert(args@.map_values(|a: Vec<char>| a@) =~= av.push(arg@));
                    let v = strings_of(&args);
                    return Ok(v);
                } else if is_whitespace(s[j]) && !quoted {
                    let finished = arg;
                    args.push(finished);
                    assert(args@.map_values(|a: Vec<char>| a@) =~= av.push(finished@));
                    arg = Vec::new();
                    quoted = false;
                    in_arg = false;
                    i = j + 1;
                } else {
                    arg.push(s[j]);
                    i = j + 1;
                }
            }
        }
    }
}

/// What `shell_words::split` gives for a command line: its words, or `None`
/// where it reports a syntax error.
pub uninterp spec fn shell_words_split(command: Seq<char>) -> Option<Seq<Seq<char>>>;

/// `shell_words::split`: splits by POSIX shell quoting rules. The words are
/// named by [`shell_words_split`]; nothing more is claimed of them.
#[verifier::external_body]
fn posix_split(command: &str) -> (r: Result<Vec<String>, ()>)
    ensures
        match r {
            Ok(v) => shell_words_split(command@) == Some(strs_view(v@)),
            Err(_) => shell_words_split(command@) is None,
        },
{
    shell_words::split(command).map_err(|_| ())
}

/// Splits a command line the way the target platform's process launcher
/// reads it: the Windows rules when `windows`, the POSIX rules otherwise.
pub fn split_command(command: &str, windows: bool) -> (r: Result<Vec<String>, &'static str>)
    ensures
        windows ==> match windows_args(command@) {
            Some(a) => r matches Ok(v) && strs_view(v@) == a,
            None => r matches Err(e) && e@ == unclosed_quote_message(),
        },
        !windows ==> match shell_words_split(command@) {
            Some(a) => r matches Ok(v) && strs_view(v@) == a,
            None => r matches Err(e) && e@ == invalid_syntax_message(),
        },
{
    if windows {
        split_windows_command(command)
    } else {
        match posix_split(command) {
            Ok(v) => Ok(v),
            Err(_) => Err("Invalid command syntax"),
        }
    }
}

} // verus!
