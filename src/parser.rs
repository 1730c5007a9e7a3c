use vstd::prelude::*;

use crate::command::{Command, CommandView};
use crate::text::{chars_of, trim_bounds, trimmed};

verus! {

broadcast use vstd::string::group_string_axioms;

/// The messages of the parse errors.
pub open spec fn msg_no_command() -> Seq<char> {
    "Command not provided"@
}

pub open spec fn msg_invalid_command() -> Seq<char> {
    "Invalid command"@
}

pub open spec fn msg_missing_key() -> Seq<char> {
    "Expected argument {key}"@
}

pub open spec fn msg_missing_value() -> Seq<char> {
    "Expected argument {value}"@
}

pub open spec fn msg_unexpected(arg: Seq<char>) -> Seq<char> {
    "Unexpected argument "@ + arg
}

pub open spec fn msg_unterminated() -> Seq<char> {
    "Expected string termination"@
}

pub open spec fn msg_misplaced_quote() -> Seq<char> {
    "Unexpected string initializer"@
}

/// The first position at or after `i` that does not hold a space.
pub open spec fn skip_spaces(t: Seq<char>, i: int) -> int
    decreases t.len() - i,
{
    if 0 <= i < t.len() && t[i] == ' ' {
        skip_spaces(t, i + 1)
    } else {
        i
    }
}

/// The first position at or after `i` that holds a double quote, or the end.
pub open spec fn find_quote(t: Seq<char>, i: int) -> int
    decreases t.len() - i,
{
    if 0 <= i < t.len() && t[i] != '"' {
        find_quote(t, i + 1)
    } else {
        i
    }
}

/// The first position at or after `i` that holds a space or a double quote, or the end.
pub open spec fn find_delim(t: Seq<char>, i: int) -> int
    decreases t.len() - i,
{
    if 0 <= i < t.len() && t[i] != ' ' && t[i] != '"' {
        find_delim(t, i + 1)
    } else {
        i
    }
}

/// The token that starts at position `j` of `t`, and the position where it ends.
///
/// A token that opens with a double quote runs to the next double quote, which
/// closes it; its value leaves both quotes out and it ends just after the
/// closing one. Any other token runs to the next space or to the end; a double
/// quote inside it is an error.
pub open spec fn token_at(t: Seq<char>, j: int) -> Result<(Seq<char>, int), Seq<char>> {
    if t[j] == '"' {
        let k = find_quote(t, j + 1);
        if k >= t.len() {
            Err(msg_unterminated())
        } else {
            Ok((t.subrange(j + 1, k), k + 1))
        }
    } else {
        let k = find_delim(t, j + 1);
        if k >= t.len() {
            Ok((t.subrange(j, t.len() as int), t.len() as int))
        } else if t[k] == '"' {
            Err(msg_misplaced_quote())
        } else {
            Ok((t.subrange(j, k), k))
        }
    }
}

/// The tokens of `t` from position `i` on.
///
/// Runs of spaces separate tokens; a token that follows a closing quote with
/// no space between them is a token of its own.
pub open spec fn scan(t: Seq<char>, i: int) -> Result<Seq<Seq<char>>, Seq<char>>
    decreases t.len() - i,
    via scan_decreases
{
    let j = skip_spaces(t, i);
    if i < 0 || j >= t.len() {
        Ok(seq![])
    } else {
        match token_at(t, j) {
            Err(e) => Err(e),
            Ok((tok, end)) => if end >= t.len() {
                Ok(seq![tok])
            } else {
                prepend(seq![tok], scan(t, end))
            },
        }
    }
}

/// `r` with the tokens `p` put in front of its tokens; an error stays as it is.
pub open spec fn prepend(p: Seq<Seq<char>>, r: Result<Seq<Seq<char>>, Seq<char>>) -> Result<
    Seq<Seq<char>>,
    Seq<char>,
> {
    match r {
        Ok(x) => Ok(p + x),
        Err(e) => Err(e),
    }
}

proof fn lemma_skip_spaces(t: Seq<char>, i: int)
    ensures
        0 <= i <= t.len() ==> i <= skip_spaces(t, i) <= t.len(),
    decreases t.len() - i,
{
    if 0 <= i < t.len() && t[i] == ' ' {
        lemma_skip_spaces(t, i + 1);
    }
}

proof fn lemma_find_quote(t: Seq<char>, i: int)
    ensures
        0 <= i <= t.len() ==> i <= find_quote(t, i) <= t.len(),
    decreases t.len() - i,
{
    if 0 <= i < t.len() && t[i] != '"' {
        lemma_find_quote(t, i + 1);
    }
}

proof fn lemma_find_delim(t: Seq<char>, i: int)
    ensures
        0 <= i <= t.len() ==> i <= find_delim(t, i) <= t.len(),
    decreases t.len() - i,
{
    if 0 <= i < t.len() && t[i] != ' ' && t[i] != '"' {
        lemma_find_delim(t, i + 1);
    }
}

proof fn lemma_token_end(t: Seq<char>, j: int)
    ensures
        0 <= j < t.len() ==> match token_at(t, j) {
            Ok((tok, end)) => j < end <= t.len(),
            Err(_) => true,
        },
{
    lemma_find_quote(t, j + 1);
    lemma_find_delim(t, j + 1);
}

#[via_fn]
proof fn scan_decreases(t: Seq<char>, i: int) {
    lemma_skip_spaces(t, i);
    lemma_token_end(t, skip_spaces(t, i));
}

/// Whether `tok` spells the lower-case word `word`, letters compared without regard to case.
pub open spec fn spells(tok: Seq<char>, word: Seq<char>) -> bool {
    tok.len() == word.len() && forall|i: int| 0 <= i < tok.len() ==> same_letter(#[trigger] tok[i], word[i])
}

/// `c` is `l`, or `l` is a lower-case ASCII letter and `c` its upper-case form.
pub open spec fn same_letter(c: char, l: char) -> bool {
    c == l || (97 <= l as u32 <= 122 && c as u32 + 32 == l as u32)
}

/// The argument of a command that takes a key alone, or the error of a wrong count.
pub open spec fn key_only(args: Seq<Seq<char>>) -> Result<Seq<char>, Seq<char>> {
    if args.len() == 0 {
        Err(msg_missing_key())
    } else if args.len() == 1 {
        Ok(args[0])
    } else {
        Err(msg_unexpected(args[1]))
    }
}

/// The arguments of a command that takes a key and a value, or the error of a wrong count.
pub open spec fn key_value(args: Seq<Seq<char>>) -> Result<(Seq<char>, Seq<char>), Seq<char>> {
    if args.len() == 0 {
        Err(msg_missing_key())
    } else if args.len() == 1 {
        Err(msg_missing_value())
    } else if args.len() == 2 {
        Ok((args[0], args[1]))
    } else {
        Err(msg_unexpected(args[2]))
    }
}

/// The command that the line `s` spells, or the message of the error in it.
pub open spec fn parse_spec(s: Seq<char>) -> Result<CommandView, Seq<char>> {
    match scan(trimmed(s), 0) {
        Err(e) => Err(e),
        Ok(toks) => if toks.len() == 0 {
            Err(msg_no_command())
        } else {
            let verb = toks[0];
            let args = toks.drop_first();
            if spells(verb, "get"@) {
                match key_only(args) {
                    Ok(k) => Ok(CommandView::Get(k)),
                    Err(e) => Err(e),
                }
            } else if spells(verb, "set"@) {
                match key_value(args) {
                    Ok((k, v)) => Ok(CommandView::Put(k, v)),
                    Err(e) => Err(e),
                }
            } else if spells(verb, "del"@) {
                match key_only(args) {
                    Ok(k) => Ok(CommandView::Del(k)),
                    Err(e) => Err(e),
                }
            } else {
                Err(msg_invalid_command())
            }
        },
    }
}

/// The contents of each string of `v`.
pub open spec fn strings_view(v: Seq<String>) -> Seq<Seq<char>> {
    v.map_values(|s: String| s@)
}

/// What a result of `parse` means over character sequences.
pub open spec fn parsed_view(r: Result<Command, String>) -> Result<CommandView, Seq<char>> {
    match r {
        Ok(c) => Ok(c@),
        Err(e) => Err(e@),
    }
}

/// An owned copy of `s`.
pub(crate) fn message(s: &str) -> (r: String)
    ensures
        r@ == s@,
{
    s.to_owned()
}

/// The token that starts at position `j` of `t`, with the position where it ends.
fn parse_string(t: &str, chars: &Vec<char>, j: usize) -> (r: Result<(String, usize), String>)
    requires
        chars@ == t@,
        j < t@.len(),
    ensures
        match (r, token_at(t@, j as int)) {
            (Ok((tok, end)), Ok((stok, send))) => tok@ == stok && end == send,
            (Err(e), Err(se)) => e@ == se,
            _ => false,
        },
{
    let n = chars.len();
    if chars[j] == '"' {
        let mut k = j + 1;
        while k < n && chars[k] != '"'
            invariant
                j < k <= n == t@.len(),
                chars@ == t@,
                find_quote(t@, k as int) == find_quote(t@, j + 1),
            decreases n - k,
        {
            k = k + 1;
        }
        if k >= n {
            Err(message("Expected string termination"))
        } else {
            Ok((t.substring_char(j + 1, k).to_owned(), k + 1))
        }
    } else {
        let mut k = j + 1;
        while k < n && chars[k] != ' ' && chars[k] != '"'
            invariant
                j < k <= n == t@.len(),
                chars@ == t@,
                find_delim(t@, k as int) == find_delim(t@, j + 1),
            decreases n - k,
        {
            k = k + 1;
        }
        if k >= n {
            Ok((t.substring_char(j, n).to_owned(), n))
        } else if chars[k] == '"' {
            Err(message("Unexpected string initializer"))
        } else {
            Ok((t.substring_char(j, k).to_owned(), k))
        }
    }
}

/// The tokens of `t`, whose characters are `chars`.
fn parse_args(t: &str, chars: &Vec<char>) -> (r: Result<Vec<String>, String>)
    requires
        chars@ == t@,
    ensures
        match (r, scan(t@, 0)) {
            (Ok(v), Ok(sv)) => strings_view(v@) == sv,
            (Err(e), Err(se)) => e@ == se,
            _ => false,
        },
{
    let n = chars.len();
    let mut v: Vec<String> = Vec::new();
    let mut i: usize = 0;
    loop
        invariant
            i <= n == t@.len(),
            chars@ == t@,
            scan(t@, 0) == prepend(strings_view(v@), scan(t@, i as int)),
        decreases n - i,
    {
        let mut j = i;
        while j < n && chars[j] == ' '
            invariant
                i <= j <= n == t@.len(),
                chars@ == t@,
                skip_spaces(t@, j as int) == skip_spaces(t@, i as int),
            decreases n - j,
        {
            j = j + 1;
        }
        if j >= n {
            assert(strings_view(v@) + seq![] =~= strings_view(v@));
            return Ok(v);
        }
        match parse_string(t, chars, j) {
            Err(e) => {
                return Err(e);
            },
            Ok((tok, end)) => {
                proof {
                    lemma_token_end(t@, j as int);
                }
                let ghost before = strings_view(v@);
                v.push(tok);
                assert(strings_view(v@) =~= before + seq![tok@]);
                if end >= n {
                    return Ok(v);
                }
                assert forall|x: Seq<Seq<char>>| (before + seq![tok@]) + x =~= before + (seq![tok@] + x) by {}
                i = end;
            },
        }
    }
}

/// The key of a command that takes a key alone.
fn parse_key_only(args: Vec<String>) -> (r: Result<String, String>)
    ensures
        match (r, key_only(strings_view(args@))) {
            (Ok(k), Ok(sk)) => k@ == sk,
            (Err(e), Err(se)) => e@ == se,
            _ => false,
        },
{
    if args.len() == 0 {
        Err(message("Expected argument {key}"))
    } else if args.len() == 1 {
        Ok(args[0].clone())
    } else {
        Err(message("Unexpected argument ").concat(args[1].as_str()))
    }
}

/// The key and the value of a command that takes both.
fn parse_key_value(args: Vec<String>) -> (r: Result<(String, String), String>)
    ensures
        match (r, key_value(strings_view(args@))) {
            (Ok((k, v)), Ok((sk, sv))) => k@ == sk && v@ == sv,
            (Err(e), Err(se)) => e@ == se,
            _ => false,
        },
{
    if args.len() == 0 {
        Err(message("Expected argument {key}"))
    } else if args.len() == 1 {
        Err(message("Expected argument {value}"))
    } else if args.len() == 2 {
        Ok((args[0].clone(), args[1].clone()))
    } else {
        Err(message("Unexpected argument ").concat(args[2].as_str()))
    }
}

/// Whether `tok` spells the lower-case word `word` without regard to case.
fn spells_word(tok: &str, word: &str) -> (r: bool)
    ensures
        r == spells(tok@, word@),
{
    let t = chars_of(tok);
    let w = chars_of(word);
    if t.len() != w.len() {
        return false;
    }
    let mut i: usize = 0;
    while i < t.len()
        invariant
            t@ == tok@,
            w@ == word@,
            t@.len() == w@.len(),
            i <= t@.len(),
            forall|x: int| 0 <= x < i ==> same_letter(#[trigger] tok@[x], word@[x]),
        decreases t.len() - i,
    {
        let c = t[i];
        let l = w[i];
        let lu = l as u32;
        if !(c == l || (97 <= lu && lu <= 122 && c as u32 == lu - 32)) {
            return false;
        }
        i = i + 1;
    }
    true
}

/// Parses one command line.
///
/// The line is trimmed of white space and cut into tokens (see `scan`); the
/// first token names the command, without regard to case, and the others are
/// its arguments.
pub fn parse(s: &str) -> (r: Result<Command, String>)
    ensures
        parsed_view(r) == parse_spec(s@),
{
    let all = chars_of(s);
    let (a, b) = trim_bounds(&all);
    let t = s.substring_char(a, b);
    let chars = chars_of(t);
    let mut args = match parse_args(t, &chars) {
        Ok(args) => args,
        Err(e) => {
            return Err(e);
        },
    };
    if args.len() == 0 {
        return Err(message("Command not provided"));
    }
    let verb = args.remove(0);
    assert(strings_view(args@) =~= scan(trimmed(s@), 0)->Ok_0.drop_first());
    if spells_word(verb.as_str(), "get") {
        match parse_key_only(args) {
            Ok(k) => Ok(Command::Get(k)),
            Err(e) => Err(e),
        }
    } else if spells_word(verb.as_str(), "set") {
        match parse_key_value(args) {
            Ok((k, v)) => Ok(Command::Put(k, v)),
            Err(e) => Err(e),
        }
    } else if spells_word(verb.as_str(), "del") {
        match parse_key_only(args) {
            Ok(k) => Ok(Command::Del(k)),
            Err(e) => Err(e),
        }
    } else {
        Err(message("Invalid command"))
    }
}

} // verus!
