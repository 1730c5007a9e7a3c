use vstd::prelude::*;

use crate::command::CommandView;
use crate::inmem::{msg_created, msg_not_found, msg_removed, msg_updated, run};
use crate::parser::{
    msg_no_command,
    find_delim, find_quote, parse_spec, same_letter, scan, skip_spaces, spells, token_at,
};
use crate::text::{is_white, trimmed, white_run_end, white_run_start};

verus! {

/// Setting a key that the store does not hold, then getting it, answers the value set.
pub proof fn lemma_set_then_get(
    m: Map<Seq<char>, Seq<char>>,
    set_line: Seq<char>,
    get_line: Seq<char>,
    k: Seq<char>,
    v: Seq<char>,
)
    requires
        parse_spec(set_line) == Ok::<CommandView, Seq<char>>(CommandView::Put(k, v)),
        parse_spec(get_line) == Ok::<CommandView, Seq<char>>(CommandView::Get(k)),
        !m.contains_key(k),
    ensures
        run(m, set_line).1 == Ok::<Seq<char>, Seq<char>>(msg_created(k, v)),
        run(run(m, set_line).0, get_line).1 == Ok::<Seq<char>, Seq<char>>(v),
{
}

/// Setting a key twice answers the change from the first value to the second,
/// and a later get answers the second: the last write wins.
pub proof fn lemma_overwrite(
    m: Map<Seq<char>, Seq<char>>,
    first: Seq<char>,
    second: Seq<char>,
    get_line: Seq<char>,
    k: Seq<char>,
    v1: Seq<char>,
    v2: Seq<char>,
)
    requires
        parse_spec(first) == Ok::<CommandView, Seq<char>>(CommandView::Put(k, v1)),
        parse_spec(second) == Ok::<CommandView, Seq<char>>(CommandView::Put(k, v2)),
        parse_spec(get_line) == Ok::<CommandView, Seq<char>>(CommandView::Get(k)),
    ensures
        run(run(m, first).0, second).1 == Ok::<Seq<char>, Seq<char>>(msg_updated(k, v1, v2)),
        run(run(run(m, first).0, second).0, get_line).1 == Ok::<Seq<char>, Seq<char>>(v2),
{
}

/// Deleting a key that the store holds answers its value and removes it: a
/// later get of it fails as not found.
pub proof fn lemma_delete_then_get(
    m: Map<Seq<char>, Seq<char>>,
    del_line: Seq<char>,
    get_line: Seq<char>,
    k: Seq<char>,
)
    requires
        parse_spec(del_line) == Ok::<CommandView, Seq<char>>(CommandView::Del(k)),
        parse_spec(get_line) == Ok::<CommandView, Seq<char>>(CommandView::Get(k)),
        m.contains_key(k),
    ensures
        run(m, del_line).1 == Ok::<Seq<char>, Seq<char>>(msg_removed(m[k])),
        !run(m, del_line).0.contains_key(k),
        run(run(m, del_line).0, get_line).1 == Err::<Seq<char>, Seq<char>>(msg_not_found()),
{
}

/// Getting or deleting a key that the store does not hold fails as not found
/// and leaves the store as it is.
pub proof fn lemma_missing_key(
    m: Map<Seq<char>, Seq<char>>,
    get_line: Seq<char>,
    del_line: Seq<char>,
    k: Seq<char>,
)
    requires
        parse_spec(get_line) == Ok::<CommandView, Seq<char>>(CommandView::Get(k)),
        parse_spec(del_line) == Ok::<CommandView, Seq<char>>(CommandView::Del(k)),
        !m.contains_key(k),
    ensures
        run(m, get_line) == (m, Err::<Seq<char>, Seq<char>>(msg_not_found())),
        run(m, del_line) == (m, Err::<Seq<char>, Seq<char>>(msg_not_found())),
{
}

/// `x` between double quotes.
pub open spec fn quoted(x: Seq<char>) -> Seq<char> {
    seq!['"'] + x + seq!['"']
}

/// `x` holds no double quote.
pub open spec fn has_no_quote(x: Seq<char>) -> bool {
    forall|i: int| 0 <= i < x.len() ==> x[i] != '"'
}

/// The line `set "k" "v"`.
pub open spec fn quoted_set_line(k: Seq<char>, v: Seq<char>) -> Seq<char> {
    "set "@ + quoted(k) + " "@ + quoted(v)
}

/// The line `get "k"`.
pub open spec fn quoted_get_line(k: Seq<char>) -> Seq<char> {
    "get "@ + quoted(k)
}

proof fn lemma_quote_at(t: Seq<char>, i: int, e: int)
    requires
        0 <= i <= e < t.len(),
        t[e] == '"',
        forall|j: int| i <= j < e ==> t[j] != '"',
    ensures
        find_quote(t, i) == e,
    decreases e - i,
{
    if i < e {
        lemma_quote_at(t, i + 1, e);
    }
}

/// A line that starts with `s` and ends with a double quote is its own trimmed form.
proof fn lemma_line_untrimmed(t: Seq<char>)
    requires
        t.len() >= 2,
        t[0] == 's' || t[0] == 'g',
        t[t.len() - 1] == '"',
    ensures
        trimmed(t) == t,
{
    assert(white_run_end(t, 0) == 0);
    assert(white_run_start(t, t.len() as int, 0) == t.len());
    assert(t.subrange(0, t.len() as int) =~= t);
}

/// The first token of a line that starts with a three-letter word and a space.
proof fn lemma_verb(t: Seq<char>)
    requires
        t.len() > 4,
        t[0] != ' ' && t[0] != '"',
        t[1] != ' ' && t[1] != '"',
        t[2] != ' ' && t[2] != '"',
        t[3] == ' ',
    ensures
        skip_spaces(t, 0) == 0,
        token_at(t, 0) == Ok::<(Seq<char>, int), Seq<char>>((t.subrange(0, 3), 3)),
{
    assert(find_delim(t, 3) == 3);
    assert(find_delim(t, 2) == 3);
    assert(find_delim(t, 1) == 3);
}

proof fn lemma_parse_quoted_get(k: Seq<char>)
    requires
        has_no_quote(k),
    ensures
        parse_spec(quoted_get_line(k)) == Ok::<CommandView, Seq<char>>(CommandView::Get(k)),
{
    reveal_strlit("get ");
    reveal_strlit("get");
    let t = quoted_get_line(k);
    let n = k.len() as int;
    assert(t.len() == n + 6);
    assert(t[0] == 'g' && t[1] == 'e' && t[2] == 't' && t[3] == ' ' && t[4] == '"');
    assert(t[t.len() - 1] == '"');
    lemma_line_untrimmed(t);
    lemma_verb(t);
    assert(t.subrange(0, 3) =~= "get"@);
    assert forall|j: int| 5 <= j < 5 + n implies t[j] != '"' by {
        assert(t[j] == k[j - 5]);
    }
    lemma_quote_at(t, 5, 5 + n);
    assert(skip_spaces(t, 4) == 4);
    assert(skip_spaces(t, 3) == 4);
    assert(t.subrange(5, 5 + n) =~= k);
    assert(scan(t, 4) == Ok::<Seq<Seq<char>>, Seq<char>>(seq![k]));
    assert(scan(t, 3) == scan(t, 4));
    let toks = seq!["get"@, k];
    assert(seq!["get"@] + seq![k] =~= toks);
    assert(scan(t, 0) == Ok::<Seq<Seq<char>>, Seq<char>>(toks));
    assert(spells(toks[0], "get"@));
    assert(toks.drop_first() =~= seq![k]);
}

proof fn lemma_parse_quoted_set(k: Seq<char>, v: Seq<char>)
    requires
        has_no_quote(k),
        has_no_quote(v),
    ensures
        parse_spec(quoted_set_line(k, v)) == Ok::<CommandView, Seq<char>>(CommandView::Put(k, v)),
{
    reveal_strlit("set ");
    reveal_strlit("set");
    reveal_strlit("get");
    reveal_strlit(" ");
    let t = quoted_set_line(k, v);
    let n = k.len() as int;
    let m = v.len() as int;
    assert(t.len() == n + m + 9);
    assert(t[0] == 's' && t[1] == 'e' && t[2] == 't' && t[3] == ' ' && t[4] == '"');
    assert(t[5 + n] == '"' && t[6 + n] == ' ' && t[7 + n] == '"');
    assert(t[t.len() - 1] == '"');
    lemma_line_untrimmed(t);
    lemma_verb(t);
    assert(t.subrange(0, 3) =~= "set"@);
    assert forall|j: int| 5 <= j < 5 + n implies t[j] != '"' by {
        assert(t[j] == k[j - 5]);
    }
    assert forall|j: int| 8 + n <= j < 8 + n + m implies t[j] != '"' by {
        assert(t[j] == v[j - 8 - n]);
    }
    lemma_quote_at(t, 5, 5 + n);
    lemma_quote_at(t, 8 + n, 8 + n + m);
    assert(skip_spaces(t, 4) == 4);
    assert(skip_spaces(t, 3) == 4);
    assert(skip_spaces(t, 7 + n) == 7 + n);
    assert(skip_spaces(t, 6 + n) == 7 + n);
    assert(t.subrange(5, 5 + n) =~= k);
    assert(t.subrange(8 + n, 8 + n + m) =~= v);
    assert(scan(t, 7 + n) == Ok::<Seq<Seq<char>>, Seq<char>>(seq![v]));
    assert(scan(t, 6 + n) == scan(t, 7 + n));
    assert(seq![k] + seq![v] =~= seq![k, v]);
    assert(scan(t, 4) == Ok::<Seq<Seq<char>>, Seq<char>>(seq![k, v]));
    assert(scan(t, 3) == scan(t, 4));
    let toks = seq!["set"@, k, v];
    assert(seq!["set"@] + seq![k, v] =~= toks);
    assert(scan(t, 0) == Ok::<Seq<Seq<char>>, Seq<char>>(toks));
    assert(!same_letter(toks[0][0], "get"@[0]));
    assert(!spells(toks[0], "get"@));
    assert(spells(toks[0], "set"@));
    assert(toks.drop_first() =~= seq![k, v]);
}

/// Quoted arguments keep their spaces exactly: after `set "k" "v"`, the line
/// `get "k"` answers `v`, for any key and value without a double quote in them.
pub proof fn lemma_quoted_round_trip(m: Map<Seq<char>, Seq<char>>, k: Seq<char>, v: Seq<char>)
    requires
        has_no_quote(k),
        has_no_quote(v),
    ensures
        parse_spec(quoted_set_line(k, v)) == Ok::<CommandView, Seq<char>>(CommandView::Put(k, v)),
        parse_spec(quoted_get_line(k)) == Ok::<CommandView, Seq<char>>(CommandView::Get(k)),
        run(run(m, quoted_set_line(k, v)).0, quoted_get_line(k)).1 == Ok::<Seq<char>, Seq<char>>(v),
{
    lemma_parse_quoted_set(k, v);
    lemma_parse_quoted_get(k);
}

proof fn lemma_white_run(s: Seq<char>, i: int)
    requires
        0 <= i <= s.len(),
        forall|j: int| 0 <= j < s.len() ==> is_white(s[j]),
    ensures
        white_run_end(s, i) == s.len(),
    decreases s.len() - i,
{
    if i < s.len() {
        lemma_white_run(s, i + 1);
    }
}

/// A line of white space alone, the empty line among them, names no command.
pub proof fn lemma_blank_line(s: Seq<char>)
    requires
        forall|j: int| 0 <= j < s.len() ==> is_white(s[j]),
    ensures
        parse_spec(s) == Err::<CommandView, Seq<char>>(msg_no_command()),
{
    lemma_white_run(s, 0);
    assert(trimmed(s).len() == 0);
}

/// The key that a command names.
pub open spec fn command_key(c: CommandView) -> Seq<char> {
    match c {
        CommandView::Get(k) => k,
        CommandView::Put(k, _) => k,
        CommandView::Del(k) => k,
    }
}

/// The map after the lines `lines`, run one after another.
pub open spec fn run_all(m: Map<Seq<char>, Seq<char>>, lines: Seq<Seq<char>>) -> Map<
    Seq<char>,
    Seq<char>,
>
    decreases lines.len(),
{
    if lines.len() == 0 {
        m
    } else {
        run(run_all(m, lines.drop_last()), lines.last()).0
    }
}

/// A command line on one key leaves every other key as it was.
pub proof fn lemma_other_keys_untouched(m: Map<Seq<char>, Seq<char>>, line: Seq<char>, k: Seq<char>)
    requires
        parse_spec(line) is Ok ==> command_key(parse_spec(line)->Ok_0) != k,
    ensures
        run(m, line).0.contains_key(k) == m.contains_key(k),
        m.contains_key(k) ==> run(m, line).0[k] == m[k],
{
}

/// Sets of one key, run one at a time in whatever order the lock lets them
/// through, leave the key holding exactly the value of the one that ran last.
pub proof fn lemma_serialized_sets(
    m: Map<Seq<char>, Seq<char>>,
    lines: Seq<Seq<char>>,
    k: Seq<char>,
    vals: Seq<Seq<char>>,
)
    requires
        lines.len() > 0,
        lines.len() == vals.len(),
        forall|i: int|
            0 <= i < lines.len() ==> parse_spec(#[trigger] lines[i]) == Ok::<CommandView, Seq<char>>(
                CommandView::Put(k, vals[i]),
            ),
    ensures
        run_all(m, lines).contains_key(k),
        run_all(m, lines)[k] == vals.last(),
{
    let last = lines.len() - 1;
    assert(parse_spec(lines[last]) == Ok::<CommandView, Seq<char>>(CommandView::Put(k, vals[last])));
}

} // verus!
