use dragonblaze::dispatch::Command;
use dragonblaze::position::{
    decode_position, encode_position, position_command, relay, ShortPacket,
};
use dragonblaze::variables::{Scalar, Variable};

#[test]
fn positions_are_read_most_significant_byte_first() {
    assert_eq!(Ok(0), decode_position(&[0, 0, 0, 0]));
    assert_eq!(Ok(1), decode_position(&[0, 0, 0, 1]));
    assert_eq!(Ok(256), decode_position(&[0, 0, 1, 0]));
    assert_eq!(Ok(0x0102_0304), decode_position(&[1, 2, 3, 4]));
    assert_eq!(Ok(i32::MAX), decode_position(&[0x7f, 0xff, 0xff, 0xff]));
    assert_eq!(Ok(i32::MIN), decode_position(&[0x80, 0, 0, 0]));
    assert_eq!(Ok(-1), decode_position(&[0xff, 0xff, 0xff, 0xff]));
    assert_eq!(Ok(-2), decode_position(&[0xff, 0xff, 0xff, 0xfe]));
}

#[test]
fn decoding_agrees_with_the_standard_library() {
    for bytes in [[0u8, 0, 0, 0], [18, 52, 86, 120], [200, 1, 2, 3], [255, 0, 255, 0], [127, 128, 129, 130]] {
        assert_eq!(Ok(i32::from_be_bytes(bytes)), decode_position(&bytes));
    }
}

#[test]
fn short_datagrams_are_errors() {
    assert_eq!(Err(ShortPacket { length: 0 }), decode_position(&[]));
    assert_eq!(Err(ShortPacket { length: 1 }), decode_position(&[7]));
    assert_eq!(Err(ShortPacket { length: 3 }), decode_position(&[1, 2, 3]));
}

#[test]
fn of_a_long_datagram_the_first_four_bytes_count() {
    assert_eq!(Ok(0x0102_0304), decode_position(&[1, 2, 3, 4, 5, 6]));
}

#[test]
fn positions_are_written_most_significant_byte_first() {
    assert_eq!([0, 0, 0, 0], encode_position(0));
    assert_eq!([0, 0, 1, 0], encode_position(256));
    assert_eq!([1, 2, 3, 4], encode_position(0x0102_0304));
    assert_eq!([0x7f, 0xff, 0xff, 0xff], encode_position(i32::MAX));
    assert_eq!([0x80, 0, 0, 0], encode_position(i32::MIN));
    assert_eq!([0xff, 0xff, 0xff, 0xff], encode_position(-1));
}

#[test]
fn encoding_agrees_with_the_standard_library() {
    for position in [0, 1, -1, 255, 256, -256, 65_536, 1_000_000, -1_000_000, i32::MAX, i32::MIN] {
        assert_eq!(position.to_be_bytes(), encode_position(position));
    }
}

#[test]
fn what_is_encoded_decodes_to_itself() {
    for position in [0, 1, -1, 42, -42, 123_456_789, -123_456_789, i32::MAX, i32::MIN] {
        assert_eq!(Ok(position), decode_position(&encode_position(position)));
    }
}

#[test]
fn position_command_sets_one_whole_number() {
    assert_eq!(
        Command::SetVariables {
            variables: vec![Variable { name: "position".to_owned(), value: Scalar::Integer(-17) }],
        },
        position_command(-17)
    );
}

#[test]
fn relay_turns_a_datagram_into_a_command() {
    assert_eq!(Ok(position_command(256)), relay(&[0, 0, 1, 0]));
    assert_eq!(Ok(position_command(-1)), relay(&[255, 255, 255, 255]));
    assert_eq!(Err(ShortPacket { length: 2 }), relay(&[0, 1]));
}
