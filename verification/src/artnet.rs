//! Art-Net packets, as far as the bridge reads them.
//!
//! Decoding is the work of the `artnet_protocol` crate. This module hands a
//! received buffer to it and keeps of the answer what the bridge acts on:
//! the channel data of an output frame.

use vstd::prelude::*;

verus! {

/// The error of `artnet_protocol`. Nothing is known of what it holds; it is
/// carried to the caller as the cause of a rejected packet.
#[verifier::external_type_specification]
#[verifier::external_body]
pub struct ExArtnetError(artnet_protocol::Error);

/// A decoded packet.
#[derive(Debug, PartialEq, Eq)]
pub enum Packet {
    /// An output frame with its channel data.
    Output { data: Vec<u8> },
    /// Any other command. The bridge does not act on it.
    Other,
}

/// A decoded packet as contracts see it.
pub enum PacketView {
    Output { data: Seq<u8> },
    Other,
}

impl View for Packet {
    type V = PacketView;

    open spec fn view(&self) -> PacketView {
        match self {
            Packet::Output { data } => PacketView::Output { data: data@ },
            Packet::Other => PacketView::Other,
        }
    }
}

/// What `artnet_protocol::ArtCommand::from_buffer` makes of `buffer`: `None`
/// where it rejects the buffer, else the packet, which is an output with
/// its data where the command is `ArtCommand::Output`. The crate reads
/// nothing but the buffer, so the same bytes always give the same answer.
pub uninterp spec fn artnet_packet(buffer: Seq<u8>) -> Option<PacketView>;

/// Calls `artnet_protocol::ArtCommand::from_buffer` on `buffer` and, for an
/// output command, `PaddedData::as_ref` on its data. Trusted: the result is
/// the one that `artnet_packet` names, and an error of the crate comes back
/// as it is. The crate returns an error for every buffer it cannot read; it
/// does not panic.
#[verifier::external_body]
fn decode_packet(buffer: &[u8]) -> (decoded: Result<Packet, artnet_protocol::Error>)
    ensures
        match decoded {
            Ok(packet) => artnet_packet(buffer@) == Some(packet@),
            Err(_) => artnet_packet(buffer@) is None,
        },
{
    match artnet_protocol::ArtCommand::from_buffer(buffer) {
        Ok(artnet_protocol::ArtCommand::Output(output)) => Ok(
            Packet::Output { data: output.data.as_ref().clone() },
        ),
        Ok(_) => Ok(Packet::Other),
        Err(cause) => Err(cause),
    }
}

/// A buffer that is no Art-Net packet, with what the decoder said of it.
#[derive(Debug)]
pub struct Undecodable {
    pub cause: artnet_protocol::Error,
}

/// Decodes a received buffer. It is a packet exactly where the decoder
/// accepts it.
pub fn decode(buffer: &[u8]) -> (decoded: Result<Packet, Undecodable>)
    ensures
        match decoded {
            Ok(packet) => artnet_packet(buffer@) == Some(packet@),
            Err(_) => artnet_packet(buffer@) is None,
        },
{
    match decode_packet(buffer) {
        Ok(packet) => Ok(packet),
        Err(cause) => Err(Undecodable { cause }),
    }
}

} // verus!
