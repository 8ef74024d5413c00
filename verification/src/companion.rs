//! The companion program, which the animation tool starts for each event.
//!
//! The tool passes its event as arguments. The fifth names the kind of
//! event; for a change of position it is the word `POSITION`, and the sixth
//! is the position. The companion sends that position to the relay and
//! ends. Every other call of it does nothing.

use vstd::prelude::*;
use vstd::string::StringExecFns;

use crate::numerals::{parse_i32, parse_i32_spec};

verus! {

/// The word that announces a position.
pub open spec fn keyword() -> Seq<char> {
    seq!['P', 'O', 'S', 'I', 'T', 'I', 'O', 'N']
}

/// What a call of the companion asks for.
#[derive(Clone, Copy, Debug, PartialEq, Eq)]
pub enum Request {
    /// There is no fifth argument.
    NoCommand,
    /// The fifth argument is another word than `POSITION`.
    Ignored,
    /// The word is there and no sixth argument follows it.
    NoPosition,
    /// The sixth argument writes no signed 32-bit integer.
    Malformed,
    /// The position to send.
    Send { position: i32 },
}

/// What the arguments ask for. `arguments` are those of the process, its
/// own name first, so the fifth has index 4.
pub open spec fn request_spec(arguments: Seq<Seq<char>>) -> Request {
    if arguments.len() <= 4 {
        Request::NoCommand
    } else if arguments[4] != keyword() {
        Request::Ignored
    } else if arguments.len() <= 5 {
        Request::NoPosition
    } else {
        match parse_i32_spec(arguments[5]) {
            Some(position) => Request::Send { position },
            None => Request::Malformed,
        }
    }
}

/// The arguments as contracts see them.
pub open spec fn argument_views(arguments: Seq<String>) -> Seq<Seq<char>> {
    Seq::new(arguments.len(), |k: int| arguments[k]@)
}

/// Reads the arguments of the process, its own name first.
pub fn request(arguments: &Vec<String>) -> (asked: Request)
    ensures
        asked == request_spec(argument_views(arguments@)),
{
    proof {
        reveal_strlit("POSITION");
    }
    if arguments.len() <= 4 {
        return Request::NoCommand;
    }
    let word = String::from_str("POSITION");
    assert(word@ =~= keyword());
    if !arguments[4].eq(&word) {
        return Request::Ignored;
    }
    if arguments.len() <= 5 {
        return Request::NoPosition;
    }
    match parse_i32(arguments[5].as_str()) {
        Some(position) => Request::Send { position },
        None => Request::Malformed,
    }
}

} // verus!
