use vstd::prelude::*;

use crate::parser::{parse, parse_spec, parsed_view};

verus! {

/// One request to the store.
#[derive(Debug, PartialEq)]
pub enum Command {
    Get(String),
    Put(String, String),
    Del(String),
}

/// What a `Command` means: the same request over character sequences.
pub enum CommandView {
    Get(Seq<char>),
    Put(Seq<char>, Seq<char>),
    Del(Seq<char>),
}

impl View for Command {
    type V = CommandView;

    open spec fn view(&self) -> CommandView {
        match self {
            Command::Get(k) => CommandView::Get(k@),
            Command::Put(k, v) => CommandView::Put(k@, v@),
            Command::Del(k) => CommandView::Del(k@),
        }
    }
}

impl std::str::FromStr for Command {
    type Err = String;

    fn from_str(s: &str) -> (r: Result<Command, String>)
        ensures
            parsed_view(r) == parse_spec(s@),
    {
        parse(s)
    }
}

} // verus!
