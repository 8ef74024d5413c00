//! From a received packet to the commands for the device.
//!
//! The loop that reads the Art-Net socket owns a `VariableStore`. For each
//! buffer it asks this module which commands to send, sends them in that
//! order, and goes on to the next buffer whatever became of the sending.

use vstd::prelude::*;

use crate::artnet::{artnet_packet, decode, Packet, PacketView, Undecodable};
use crate::variables::{
    frame_update, variable_views, UpdateView, Variable, VariableStore, VariableUpdate,
    VariableView,
};

verus! {

/// One message to the device.
#[derive(Debug, PartialEq, Eq)]
pub enum Command {
    /// Sets the global brightness to `level / 255`. `save` tells the device
    /// whether to keep the value over a restart.
    SetBrightness { level: u8, save: bool },
    /// Sets each of the variables. The list may be empty.
    SetVariables { variables: Vec<Variable> },
}

/// A command as contracts see it.
pub enum CommandView {
    SetBrightness { level: u8, save: bool },
    SetVariables { variables: Seq<VariableView> },
}

impl View for Command {
    type V = CommandView;

    open spec fn view(&self) -> CommandView {
        match self {
            Command::SetBrightness { level, save } => CommandView::SetBrightness {
                level: *level,
                save: *save,
            },
            Command::SetVariables { variables } => CommandView::SetVariables {
                variables: variable_views(variables@),
            },
        }
    }
}

/// The views of a run of commands, in the same order.
pub open spec fn command_views(commands: Seq<Command>) -> Seq<CommandView> {
    Seq::new(commands.len(), |k: int| commands[k]@)
}

/// The commands that carry `update` to the device: the brightness first,
/// where there is one, never to be saved; then the variables, always, also
/// where there are none.
pub open spec fn update_commands(update: UpdateView) -> Seq<CommandView> {
    let variables = CommandView::SetVariables { variables: update.variables };
    match update.brightness {
        Some(level) => seq![CommandView::SetBrightness { level, save: false }, variables],
        None => seq![variables],
    }
}

/// The frame that the store remembers once `packet` has been handled: the
/// data of an output, else the one it remembered before.
pub open spec fn frame_after(previous: Option<Seq<u8>>, packet: PacketView) -> Option<Seq<u8>> {
    match packet {
        PacketView::Output { data } => Some(data),
        PacketView::Other => previous,
    }
}

/// The commands that `packet` calls for when the store remembers `previous`:
/// those of the update for an output, none for anything else.
pub open spec fn packet_commands(previous: Option<Seq<u8>>, packet: PacketView) -> Seq<
    CommandView,
> {
    match packet {
        PacketView::Output { data } => update_commands(frame_update(previous, data)),
        PacketView::Other => Seq::empty(),
    }
}

/// Turns an update into the commands that carry it.
pub fn commands_for(update: VariableUpdate) -> (commands: Vec<Command>)
    ensures
        command_views(commands@) == update_commands(update@),
{
    let mut commands: Vec<Command> = Vec::new();
    let ghost wanted = update_commands(update@);
    if let Some(level) = update.brightness {
        commands.push(Command::SetBrightness { level, save: false });
    }
    commands.push(Command::SetVariables { variables: update.variables });
    assert(command_views(commands@) =~= wanted);
    commands
}

/// Handles a decoded packet: an output goes through the store and yields
/// the commands of its update; anything else is dropped and leaves the
/// store as it was.
pub fn handle_packet(store: &mut VariableStore, packet: Packet) -> (commands: Vec<Command>)
    ensures
        final(store)@ == frame_after(old(store)@, packet@),
        command_views(commands@) == packet_commands(old(store)@, packet@),
{
    match packet {
        Packet::Output { data } => {
            let update = store.process(data.as_slice());
            commands_for(update)
        },
        Packet::Other => {
            let commands: Vec<Command> = Vec::new();
            assert(command_views(commands@) =~= Seq::empty());
            commands
        },
    }
}

/// Handles a received buffer. A buffer that the decoder rejects is an error
/// and leaves the store as it was; every other buffer is handled as the
/// packet it decodes to.
pub fn handle_buffer(store: &mut VariableStore, buffer: &[u8]) -> (outcome: Result<
    Vec<Command>,
    Undecodable,
>)
    ensures
        match artnet_packet(buffer@) {
            Some(packet) => {
                &&& outcome matches Ok(commands)
                &&& command_views(commands@) == packet_commands(old(store)@, packet)
                &&& final(store)@ == frame_after(old(store)@, packet)
            },
            None => outcome is Err && final(store)@ == old(store)@,
        },
{
    match decode(buffer) {
        Ok(packet) => Ok(handle_packet(store, packet)),
        Err(error) => Err(error),
    }
}

} // verus!
