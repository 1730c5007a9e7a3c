use vstd::prelude::*;

use crate::command::{Command, CommandView};
use crate::parser::{message, parse, parse_spec};

verus! {

broadcast use vstd::string::group_string_axioms;

/// A key-value store held in memory, with its keys unique.
pub struct InMem {
    keys: Vec<String>,
    values: Vec<String>,
    contents: Ghost<Map<Seq<char>, Seq<char>>>,
}

/// The message of a get or a delete of a key that the store does not hold.
pub open spec fn msg_not_found() -> Seq<char> {
    "None"@
}

/// The answer to a set of a new key.
pub open spec fn msg_created(k: Seq<char>, v: Seq<char>) -> Seq<char> {
    "Key '"@ + k + "' set to '"@ + v + "'"@
}

/// The answer to a set of a key that held `before`.
pub open spec fn msg_updated(k: Seq<char>, before: Seq<char>, after: Seq<char>) -> Seq<char> {
    "Updated key '"@ + k + "' from '"@ + before + "' to '"@ + after + "'"@
}

/// The answer to a delete of a key that held `v`.
pub open spec fn msg_removed(v: Seq<char>) -> Seq<char> {
    "Previous value: '"@ + v + "'"@
}

/// The map after command `c` on `m`, and what the command answers.
pub open spec fn apply(m: Map<Seq<char>, Seq<char>>, c: CommandView) -> (
    Map<Seq<char>, Seq<char>>,
    Result<Seq<char>, Seq<char>>,
) {
    match c {
        CommandView::Get(k) => (m, if m.contains_key(k) {
            Ok(m[k])
        } else {
            Err(msg_not_found())
        }),
        CommandView::Put(k, v) => (m.insert(k, v), if m.contains_key(k) {
            Ok(msg_updated(k, m[k], v))
        } else {
            Ok(msg_created(k, v))
        }),
        CommandView::Del(k) => if m.contains_key(k) {
            (m.remove(k), Ok(msg_removed(m[k])))
        } else {
            (m, Err(msg_not_found()))
        },
    }
}

/// The map after the command line `line` on `m`, and what it answers; a line
/// that does not parse leaves the map as it is and answers the parse error.
pub open spec fn run(m: Map<Seq<char>, Seq<char>>, line: Seq<char>) -> (
    Map<Seq<char>, Seq<char>>,
    Result<Seq<char>, Seq<char>>,
) {
    match parse_spec(line) {
        Err(e) => (m, Err(e)),
        Ok(c) => apply(m, c),
    }
}

/// What an answer of `execute` means over character sequences.
pub open spec fn answer_view(r: Result<String, String>) -> Result<Seq<char>, Seq<char>> {
    match r {
        Ok(s) => Ok(s@),
        Err(e) => Err(e@),
    }
}

/// Every key of `m` is among `keys`.
pub open spec fn covers(keys: Seq<String>, m: Map<Seq<char>, Seq<char>>) -> bool {
    forall|k: Seq<char>|
        #[trigger] m.contains_key(k) ==> exists|i: int| 0 <= i < keys.len() && #[trigger] keys[i]@ == k
}

/// Keys that cover `m` and keep their places still cover `m` with `k0` added at position `at`.
proof fn lemma_cover_after_insert(
    before: Seq<String>,
    after: Seq<String>,
    m: Map<Seq<char>, Seq<char>>,
    k0: Seq<char>,
    v0: Seq<char>,
    at: int,
)
    requires
        covers(before, m),
        before.len() <= after.len(),
        forall|x: int| 0 <= x < before.len() ==> after[x] == before[x],
        0 <= at < after.len(),
        after[at]@ == k0,
    ensures
        covers(after, m.insert(k0, v0)),
{
    assert forall|k: Seq<char>| #[trigger] m.insert(k0, v0).contains_key(k) implies exists|x: int|
        0 <= x < after.len() && #[trigger] after[x]@ == k by {
        if k == k0 {
            assert(after[at]@ == k);
        } else {
            assert(m.contains_key(k));
            let x = choose|x: int| 0 <= x < before.len() && #[trigger] before[x]@ == k;
            assert(after[x]@ == k);
        }
    }
}

impl View for InMem {
    type V = Map<Seq<char>, Seq<char>>;

    closed spec fn view(&self) -> Map<Seq<char>, Seq<char>> {
        self.contents@
    }
}

impl InMem {
    /// The store's invariant: one value per key, and the map holds exactly the stored pairs.
    pub closed spec fn wf(&self) -> bool {
        &&& self.keys@.len() == self.values@.len()
        &&& forall|i: int, j: int|
            0 <= i < j < self.keys@.len() ==> #[trigger] self.keys@[i]@ != #[trigger] self.keys@[j]@
        &&& forall|i: int|
            0 <= i < self.keys@.len() ==> self.contents@.contains_key(#[trigger] self.keys@[i]@)
                && self.contents@[self.keys@[i]@] == self.values@[i]@
        &&& covers(self.keys@, self.contents@)
    }

    /// An empty store.
    pub fn new() -> (r: Self)
        ensures
            r.wf(),
            r@ == Map::<Seq<char>, Seq<char>>::empty(),
    {
        InMem { keys: Vec::new(), values: Vec::new(), contents: Ghost(Map::empty()) }
    }

    /// The position of `key` among the stored keys.
    fn position(&self, key: &String) -> (r: Option<usize>)
        requires
            self.wf(),
        ensures
            match r {
                Some(i) => i < self.keys@.len() && self.keys@[i as int]@ == key@,
                None => !self@.contains_key(key@),
            },
    {
        let mut i: usize = 0;
        while i < self.keys.len()
            invariant
                self.wf(),
                i <= self.keys@.len(),
                forall|x: int| 0 <= x < i ==> self.keys@[x]@ != key@,
            decreases self.keys@.len() - i,
        {
            if self.keys[i] == *key {
                return Some(i);
            }
            i = i + 1;
        }
        None
    }

    /// The value stored under `key`.
    fn lookup(&self, key: &String) -> (r: Option<String>)
        requires
            self.wf(),
        ensures
            match r {
                Some(v) => self@.contains_key(key@) && v@ == self@[key@],
                None => !self@.contains_key(key@),
            },
    {
        match self.position(key) {
            Some(i) => Some(self.values[i].clone()),
            None => None,
        }
    }

    /// Stores `value` under `key` and hands back the value it replaces.
    fn insert(&mut self, key: String, value: String) -> (r: Option<String>)
        requires
            old(self).wf(),
        ensures
            final(self).wf(),
            final(self)@ == old(self)@.insert(key@, value@),
            match r {
                Some(v) => old(self)@.contains_key(key@) && v@ == old(self)@[key@],
                None => !old(self)@.contains_key(key@),
            },
    {
        match self.position(&key) {
            Some(i) => {
                let previous = self.values[i].clone();
                self.values.set(i, value);
                self.contents = Ghost(self.contents@.insert(key@, value@));
                proof {
                    lemma_cover_after_insert(old(self).keys@, self.keys@, old(self).contents@, key@, value@, i as int);
                }
                Some(previous)
            },
            None => {
                let ghost k0 = key@;
                self.keys.push(key);
                self.values.push(value);
                self.contents = Ghost(self.contents@.insert(k0, value@));
                proof {
                    let n = self.keys@.len() - 1;
                    lemma_cover_after_insert(old(self).keys@, self.keys@, old(self).contents@, k0, self.values@[n]@, n);
                }
                None
            },
        }
    }

    /// Removes `key` and hands back the value that it held.
    fn remove(&mut self, key: &String) -> (r: Option<String>)
        requires
            old(self).wf(),
        ensures
            final(self).wf(),
            final(self)@ == old(self)@.remove(key@),
            match r {
                Some(v) => old(self)@.contains_key(key@) && v@ == old(self)@[key@],
                None => !old(self)@.contains_key(key@),
            },
    {
        match self.position(key) {
            Some(i) => {
                self.keys.remove(i);
                let previous = self.values.remove(i);
                self.contents = Ghost(self.contents@.remove(key@));
                proof {
                    let ok = old(self).keys@;
                    assert forall|x: int| 0 <= x < self.keys@.len() implies #[trigger] self.keys@[x] == (
                    if x < i {
                        ok[x]
                    } else {
                        ok[x + 1]
                    }) by {}
                    assert forall|k: Seq<char>| #[trigger] self.contents@.contains_key(k) implies exists|x: int|
                        0 <= x < self.keys@.len() && #[trigger] self.keys@[x]@ == k by {
                        assert(old(self).contents@.contains_key(k));
                        let x = choose|x: int| 0 <= x < ok.len() && #[trigger] ok[x]@ == k;
                        assert(x != i);
                        if x < i {
                            assert(self.keys@[x]@ == k);
                        } else {
                            assert(self.keys@[x - 1]@ == k);
                        }
                    }
                    assert forall|x: int| 0 <= x < self.keys@.len() implies self.contents@.contains_key(
                        #[trigger] self.keys@[x]@) by {
                        if x < i {
                            assert(ok[x]@ != ok[i as int]@);
                        } else {
                            assert(ok[x + 1]@ != ok[i as int]@);
                        }
                    }
                }
                Some(previous)
            },
            None => {
                proof {
                    assert(self.contents@.remove(key@) =~= self.contents@);
                }
                None
            },
        }
    }

    /// Runs one command line against the store.
    ///
    /// A line that does not parse answers its parse error and changes nothing.
    pub fn execute(&mut self, command: &str) -> (r: Result<String, String>)
        requires
            old(self).wf(),
        ensures
            final(self).wf(),
            (final(self)@, answer_view(r)) == run(old(self)@, command@),
    {
        let parsed = match parse(command) {
            Ok(c) => c,
            Err(e) => {
                return Err(e);
            },
        };
        match parsed {
            Command::Get(key) => match self.lookup(&key) {
                Some(value) => Ok(value),
                None => Err(message("None")),
            },
            Command::Put(key, value) => {
                let answer = match self.insert(key.clone(), value.clone()) {
                    Some(previous) => message("Updated key '").concat(key.as_str()).concat(
                        "' from '",
                    ).concat(previous.as_str()).concat("' to '").concat(value.as_str()).concat(
                        "'",
                    ),
                    None => message("Key '").concat(key.as_str()).concat("' set to '").concat(
                        value.as_str(),
                    ).concat("'"),
                };
                Ok(answer)
            },
            Command::Del(key) => match self.remove(&key) {
                Some(value) => Ok(message("Previous value: '").concat(value.as_str()).concat("'")),
                None => Err(message("None")),
            },
        }
    }
}

} // verus!
