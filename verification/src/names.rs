//! Names of the variables that channels are sent under.

use vstd::prelude::*;
use vstd::string::StringExecFns;

use crate::numerals::{decimal, lemma_decimal_injective, push_decimal};

verus! {

/// What every channel name starts with.
pub open spec fn channel_prefix() -> Seq<char> {
    seq!['c', 'h', 'a', 'n', 'n', 'e', 'l', '_']
}

/// The name of the variable for the channel at `position` of a frame. Names
/// count from one and position 0 is the brightness, so the channel at
/// position 1 is `channel_2`.
pub open spec fn channel_name_spec(position: int) -> Seq<char> {
    channel_prefix() + decimal((position + 1) as nat)
}

/// The name of the variable for the channel at `position` of a frame.
pub fn channel_name(position: usize) -> (name: String)
    ensures
        name@ == channel_name_spec(position as int),
{
    proof {
        reveal_strlit("channel_");
    }
    let mut name = String::from_str("channel_");
    assert(name@ =~= channel_prefix());
    let number: u128 = position as u128 + 1;
    push_decimal(&mut name, number);
    name
}

/// Different positions of a frame have different channel names.
pub proof fn lemma_channel_names_distinct(p: int, q: int)
    requires
        0 <= p,
        0 <= q,
        channel_name_spec(p) == channel_name_spec(q),
    ensures
        p == q,
{
    let a = decimal((p + 1) as nat);
    let b = decimal((q + 1) as nat);
    assert(a =~= channel_name_spec(p).subrange(8, channel_name_spec(p).len() as int));
    assert(b =~= channel_name_spec(q).subrange(8, channel_name_spec(q).len() as int));
    lemma_decimal_injective((p + 1) as nat, (q + 1) as nat);
}

} // verus!
