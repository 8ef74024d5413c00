//! The position relay: four bytes in, one variable out.
//!
//! A companion program sends the position in the scene as a signed 32-bit
//! number, most significant byte first. The relay loop reads the datagram
//! and sets the variable `position` on the device to that number.

use vstd::arithmetic::div_mod::lemma_fundamental_div_mod_converse;
use vstd::prelude::*;
use vstd::string::StringExecFns;

use crate::dispatch::{Command, CommandView};
use crate::variables::{Scalar, Variable, VariableView};

verus! {

/// How many bytes spell a position.
pub const POSITION_BYTES: usize = 4;

/// The number that the first four bytes of `bytes` spell without a sign,
/// most significant byte first.
pub open spec fn be_u32(bytes: Seq<u8>) -> int {
    ((bytes[0] * 0x100 + bytes[1]) * 0x100 + bytes[2]) * 0x100 + bytes[3]
}

/// The number that the first four bytes of `bytes` spell: two's complement,
/// most significant byte first.
pub open spec fn be_i32(bytes: Seq<u8>) -> int {
    if be_u32(bytes) >= 0x8000_0000 {
        be_u32(bytes) - 0x1_0000_0000
    } else {
        be_u32(bytes)
    }
}

/// The four bytes that spell `value`: two's complement, most significant
/// byte first.
pub open spec fn be_bytes(value: int) -> Seq<u8> {
    let unsigned = if value < 0 {
        value + 0x1_0000_0000
    } else {
        value
    };
    let upper = unsigned / 0x100;
    let top = upper / 0x100;
    seq![(top / 0x100) as u8, (top % 0x100) as u8, (upper % 0x100) as u8, (unsigned % 0x100) as u8]
}

/// The name of the variable that holds the position.
pub open spec fn position_name() -> Seq<char> {
    seq!['p', 'o', 's', 'i', 't', 'i', 'o', 'n']
}

/// The command that sets the position to `position`: one variable, a whole
/// number.
pub open spec fn position_command_spec(position: int) -> CommandView {
    CommandView::SetVariables {
        variables: seq![
            VariableView { name: position_name(), value: Scalar::Integer(position as i32) },
        ],
    }
}

/// What a datagram of `packet` holds: the position that its first four
/// bytes spell, or, with fewer than four, nothing.
pub open spec fn position_of(packet: Seq<u8>) -> Result<i32, ShortPacket> {
    if packet.len() >= POSITION_BYTES {
        Ok(be_i32(packet) as i32)
    } else {
        Err(ShortPacket { length: packet.len() as usize })
    }
}

/// The command that a datagram of `packet` calls for.
pub open spec fn relay_spec(packet: Seq<u8>) -> Result<CommandView, ShortPacket> {
    match position_of(packet) {
        Ok(position) => Ok(position_command_spec(position as int)),
        Err(short) => Err(short),
    }
}

/// A datagram too short to hold a position.
#[derive(Clone, Copy, Debug, PartialEq, Eq)]
pub struct ShortPacket {
    /// How many bytes it had.
    pub length: usize,
}

/// Reads the position out of a datagram. Fewer than four bytes are an
/// error; of a longer datagram the first four count, which is all that the
/// receiving buffer holds.
pub fn decode_position(packet: &[u8]) -> (decoded: Result<i32, ShortPacket>)
    ensures
        decoded == position_of(packet@),
{
    if packet.len() < POSITION_BYTES {
        return Err(ShortPacket { length: packet.len() });
    }
    let mut unsigned: i64 = packet[0] as i64;
    unsigned = unsigned * 0x100 + packet[1] as i64;
    unsigned = unsigned * 0x100 + packet[2] as i64;
    unsigned = unsigned * 0x100 + packet[3] as i64;
    let signed: i64 = if unsigned >= 0x8000_0000 {
        unsigned - 0x1_0000_0000
    } else {
        unsigned
    };
    Ok(signed as i32)
}

/// Spells a position as the four bytes that `decode_position` reads.
pub fn encode_position(position: i32) -> (bytes: [u8; 4])
    ensures
        bytes@ == be_bytes(position as int),
{
    let unsigned: i64 = if position < 0 {
        position as i64 + 0x1_0000_0000
    } else {
        position as i64
    };
    let upper: i64 = unsigned / 0x100;
    let top: i64 = upper / 0x100;
    let bytes = [
        (top / 0x100) as u8,
        (top % 0x100) as u8,
        (upper % 0x100) as u8,
        (unsigned % 0x100) as u8,
    ];
    assert(bytes@ =~= be_bytes(position as int));
    bytes
}

/// The command that sets the position on the device.
pub fn position_command(position: i32) -> (command: Command)
    ensures
        command@ == position_command_spec(position as int),
{
    proof {
        reveal_strlit("position");
    }
    let name = String::from_str("position");
    assert(name@ =~= position_name());
    let mut variables: Vec<Variable> = Vec::new();
    variables.push(Variable { name, value: Scalar::Integer(position) });
    let command = Command::SetVariables { variables };
    assert(command@ =~= position_command_spec(position as int)) by {
        assert(crate::variables::variable_views(variables@) =~= seq![
            VariableView { name: position_name(), value: Scalar::Integer(position) },
        ]);
    }
    command
}

/// Handles a datagram of the position socket: the command that sets the
/// position it spells, or an error where it is too short to spell one.
pub fn relay(packet: &[u8]) -> (outcome: Result<Command, ShortPacket>)
    ensures
        match outcome {
            Ok(command) => relay_spec(packet@) == Ok::<CommandView, ShortPacket>(command@),
            Err(short) => relay_spec(packet@) == Err::<CommandView, ShortPacket>(short),
        },
{
    match decode_position(packet) {
        Ok(position) => Ok(position_command(position)),
        Err(short) => Err(short),
    }
}

/// Four bytes spell a number in the range of a signed 32-bit integer.
pub proof fn lemma_be_i32_in_range(bytes: Seq<u8>)
    ensures
        i32::MIN <= be_i32(bytes) <= i32::MAX,
{
}

/// Decoding gives back the number that was encoded.
pub proof fn lemma_decode_encoded(position: int)
    requires
        i32::MIN <= position <= i32::MAX,
    ensures
        be_bytes(position).len() == POSITION_BYTES,
        be_i32(be_bytes(position)) == position,
{
    let unsigned = if position < 0 {
        position + 0x1_0000_0000
    } else {
        position
    };
    let upper = unsigned / 0x100;
    let top = upper / 0x100;
    assert(unsigned == upper * 0x100 + unsigned % 0x100);
    assert(upper == top * 0x100 + upper % 0x100);
    assert(top == (top / 0x100) * 0x100 + top % 0x100);
    assert(0 <= top / 0x100 < 0x100);
    assert(be_u32(be_bytes(position)) == unsigned);
}

/// Encoding gives back the four bytes that were decoded.
pub proof fn lemma_encode_decoded(bytes: Seq<u8>)
    requires
        bytes.len() == POSITION_BYTES,
    ensures
        be_bytes(be_i32(bytes)) == bytes,
{
    let top = bytes[0] * 0x100 + bytes[1];
    let upper = top * 0x100 + bytes[2];
    let unsigned = upper * 0x100 + bytes[3];
    lemma_fundamental_div_mod_converse(unsigned, 0x100, upper, bytes[3] as int);
    lemma_fundamental_div_mod_converse(upper, 0x100, top, bytes[2] as int);
    lemma_fundamental_div_mod_converse(top, 0x100, bytes[0] as int, bytes[1] as int);
    let value = be_i32(bytes);
    assert((if value < 0 {
        value + 0x1_0000_0000
    } else {
        value
    }) == unsigned);
    assert(be_bytes(value) =~= bytes);
}

} // verus!
