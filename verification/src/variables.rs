//! The channel-state diff engine.
//!
//! A frame is an ordered run of intensity bytes. Position 0 is the global
//! brightness; every later position is a channel with a name of its own. The
//! store remembers the last frame it was given and reports, for each new
//! frame, the positions that are lit, and once more the positions that were
//! lit in the last frame and have gone dark.

use vstd::prelude::*;
use vstd::slice::slice_to_vec;

use crate::names::{channel_name, channel_name_spec, lemma_channel_names_distinct};

verus! {

/// A value that a variable of the device is set to.
#[derive(Clone, Copy, Debug, PartialEq, Eq)]
pub enum Scalar {
    /// An intensity byte. It stands for the fraction `level / 255`, so 255 is
    /// full and 0 is dark.
    Level(u8),
    /// A whole number, sent as it is.
    Integer(i32),
}

/// One variable of the device with the value it is set to.
#[derive(Debug, PartialEq, Eq)]
pub struct Variable {
    pub name: String,
    pub value: Scalar,
}

/// A variable as contracts see it: the name as a sequence of characters.
pub struct VariableView {
    pub name: Seq<char>,
    pub value: Scalar,
}

impl View for Variable {
    type V = VariableView;

    open spec fn view(&self) -> VariableView {
        VariableView { name: self.name@, value: self.value }
    }
}

/// The views of a run of variables, in the same order.
pub open spec fn variable_views(variables: Seq<Variable>) -> Seq<VariableView> {
    Seq::new(variables.len(), |k: int| variables[k]@)
}

/// What one frame changes on the device.
#[derive(Debug, PartialEq, Eq)]
pub struct VariableUpdate {
    /// The new brightness level, where position 0 of the frame is reported.
    pub brightness: Option<u8>,
    /// The reported channels, by rising position.
    pub variables: Vec<Variable>,
}

/// An update as contracts see it.
pub struct UpdateView {
    pub brightness: Option<u8>,
    pub variables: Seq<VariableView>,
}

impl View for VariableUpdate {
    type V = UpdateView;

    open spec fn view(&self) -> UpdateView {
        UpdateView { brightness: self.brightness, variables: variable_views(self.variables@) }
    }
}

/// Whether `previous`, the frame before this one, had a level above zero at
/// `position`. No frame, or one too short to have the position, had none.
pub open spec fn was_lit(previous: Option<Seq<u8>>, position: int) -> bool {
    previous matches Some(last) && 0 <= position < last.len() && last[position] > 0
}

/// Whether `frame` reports its `position`: the position is lit, or it is dark
/// now and was lit in `previous`. Positions that the frame does not have are
/// never reported.
pub open spec fn is_reported(previous: Option<Seq<u8>>, frame: Seq<u8>, position: int) -> bool {
    &&& 0 <= position < frame.len()
    &&& (frame[position] != 0 || was_lit(previous, position))
}

/// The variable that reports the channel at `position` of `frame`.
pub open spec fn channel_variable(frame: Seq<u8>, position: int) -> VariableView {
    VariableView { name: channel_name_spec(position), value: Scalar::Level(frame[position]) }
}

/// The variables for the reported channels of `frame` at positions 1 up to,
/// not including, `end`, by rising position.
pub open spec fn channel_updates(previous: Option<Seq<u8>>, frame: Seq<u8>, end: int) -> Seq<
    VariableView,
>
    decreases end,
{
    if end <= 1 {
        Seq::empty()
    } else {
        let before = channel_updates(previous, frame, end - 1);
        if is_reported(previous, frame, end - 1) {
            before.push(channel_variable(frame, end - 1))
        } else {
            before
        }
    }
}

/// What `frame` changes when it follows `previous`: the brightness where
/// position 0 is reported, and a variable for each reported channel.
pub open spec fn frame_update(previous: Option<Seq<u8>>, frame: Seq<u8>) -> UpdateView {
    UpdateView {
        brightness: if is_reported(previous, frame, 0) {
            Some(frame[0])
        } else {
            None
        },
        variables: channel_updates(previous, frame, frame.len() as int),
    }
}

/// Remembers the last frame, so that a channel that goes dark is set back to
/// zero once.
pub struct VariableStore {
    last_data: Option<Vec<u8>>,
}

impl View for VariableStore {
    type V = Option<Seq<u8>>;

    /// The last frame that was processed, if any.
    closed spec fn view(&self) -> Option<Seq<u8>> {
        match self.last_data {
            Some(last) => Some(last@),
            None => None,
        }
    }
}

impl VariableStore {
    /// A store that has seen no frame.
    pub fn new() -> (store: Self)
        ensures
            store@ is None,
    {
        Self { last_data: None }
    }

    /// Whether the last frame had a level above zero at `position`.
    fn had_level(&self, position: usize) -> (lit: bool)
        ensures
            lit == was_lit(self@, position as int),
    {
        match &self.last_data {
            Some(last) => position < last.len() && last[position] > 0,
            None => false,
        }
    }

    /// Takes the next frame: returns what it changes on the device and
    /// remembers it in place of the last one, whatever it holds.
    pub fn process(&mut self, data: &[u8]) -> (update: VariableUpdate)
        ensures
            update@ == frame_update(old(self)@, data@),
            final(self)@ == Some(data@),
    {
        let mut brightness: Option<u8> = None;
        let mut variables: Vec<Variable> = Vec::new();
        let mut position: usize = 0;
        while position < data.len()
            invariant
                position <= data.len(),
                *self == *old(self),
                brightness == frame_update(self@, data@).brightness || position == 0,
                position == 0 ==> brightness is None,
                variable_views(variables@) == channel_updates(self@, data@, position as int),
            decreases data.len() - position,
        {
            let value = data[position];
            if value != 0 || self.had_level(position) {
                if position == 0 {
                    brightness = Some(value);
                } else {
                    let variable = Variable {
                        name: channel_name(position),
                        value: Scalar::Level(value),
                    };
                    proof {
                        assert(variable_views(variables@.push(variable)) =~= variable_views(
                            variables@,
                        ).push(variable@));
                    }
                    variables.push(variable);
                }
            }
            position = position + 1;
        }
        self.last_data = Some(slice_to_vec(data));
        VariableUpdate { brightness, variables }
    }
}

/// Whether `variables` holds a variable for the channel at `position` of
/// `frame`, with the level that the frame has there.
pub open spec fn carries(variables: Seq<VariableView>, frame: Seq<u8>, position: int) -> bool {
    exists|k: int| 0 <= k < variables.len() && variables[k] == channel_variable(frame, position)
}

/// Whether `variable` is the variable of a reported channel of `frame`.
pub open spec fn reports_a_channel(
    variable: VariableView,
    previous: Option<Seq<u8>>,
    frame: Seq<u8>,
    end: int,
) -> bool {
    exists|position: int|
        1 <= position < end && #[trigger] is_reported(previous, frame, position) && variable
            == channel_variable(frame, position)
}

/// The variables up to `end` are those of the reported channels below `end`,
/// each once.
proof fn lemma_channel_updates(previous: Option<Seq<u8>>, frame: Seq<u8>, end: int)
    ensures
        forall|k: int|
            0 <= k < channel_updates(previous, frame, end).len() ==> reports_a_channel(
                #[trigger] channel_updates(previous, frame, end)[k],
                previous,
                frame,
                end,
            ),
        forall|position: int|
            1 <= position < end && #[trigger] is_reported(previous, frame, position) ==> carries(
                channel_updates(previous, frame, end),
                frame,
                position,
            ),
        forall|j: int, k: int|
            0 <= j < k < channel_updates(previous, frame, end).len() ==> (
            #[trigger] channel_updates(previous, frame, end)[j]).name != (
            #[trigger] channel_updates(previous, frame, end)[k]).name,
    decreases end,
{
    if end > 1 {
        lemma_channel_updates(previous, frame, end - 1);
        let before = channel_updates(previous, frame, end - 1);
        let now = channel_updates(previous, frame, end);
        assert forall|k: int| 0 <= k < now.len() implies reports_a_channel(
            #[trigger] now[k],
            previous,
            frame,
            end,
        ) by {
            if k < before.len() {
                assert(reports_a_channel(before[k], previous, frame, end - 1));
                let position = choose|position: int|
                    1 <= position < end - 1 && #[trigger] is_reported(previous, frame, position)
                        && before[k] == channel_variable(frame, position);
                assert(is_reported(previous, frame, position));
            } else {
                assert(is_reported(previous, frame, end - 1));
            }
        }
        assert forall|position: int|
            1 <= position < end && #[trigger] is_reported(previous, frame, position) implies carries(
            now,
            frame,
            position,
        ) by {
            if position < end - 1 {
                assert(carries(before, frame, position));
                let k = choose|k: int|
                    0 <= k < before.len() && before[k] == channel_variable(frame, position);
                assert(now[k] == channel_variable(frame, position));
            } else {
                assert(now[now.len() - 1] == channel_variable(frame, position));
            }
        }
        assert forall|j: int, k: int| 0 <= j < k < now.len() implies (#[trigger] now[j]).name != (
        #[trigger] now[k]).name by {
            if k >= before.len() {
                assert(reports_a_channel(before[j], previous, frame, end - 1));
                let position = choose|position: int|
                    1 <= position < end - 1 && #[trigger] is_reported(previous, frame, position)
                        && before[j] == channel_variable(frame, position);
                if now[j].name == now[k].name {
                    lemma_channel_names_distinct(position, end - 1);
                }
            }
        }
    }
}

/// Whether one of `variables` has the name of the channel at `position`.
pub open spec fn names_channel(variables: Seq<VariableView>, position: int) -> bool {
    exists|k: int| 0 <= k < variables.len() && variables[k].name == channel_name_spec(position)
}

/// A channel that is not reported has no variable, and position 0 never has
/// one.
proof fn lemma_unreported_is_not_named(previous: Option<Seq<u8>>, frame: Seq<u8>, position: int)
    requires
        0 <= position,
        position == 0 || !is_reported(previous, frame, position),
    ensures
        !names_channel(frame_update(previous, frame).variables, position),
{
    lemma_channel_updates(previous, frame, frame.len() as int);
    let variables = frame_update(previous, frame).variables;
    assert forall|k: int| 0 <= k < variables.len() implies (#[trigger] variables[k]).name
        != channel_name_spec(position) by {
        assert(reports_a_channel(variables[k], previous, frame, frame.len() as int));
        let reported = choose|reported: int|
            1 <= reported < frame.len() && #[trigger] is_reported(previous, frame, reported)
                && variables[k] == channel_variable(frame, reported);
        if variables[k].name == channel_name_spec(position) {
            lemma_channel_names_distinct(reported, position);
        }
    }
}

/// Which channels an update names. A channel has a variable in the update of
/// `frame` exactly if it is lit, or is dark now and was lit in `previous`; a
/// channel that is dark and was dark, or was never seen, has none. The
/// variable holds the level that the frame has for the channel. Every
/// variable of the update is that of such a channel, no two of them share a
/// name, and none has the name that position 0 would have.
pub proof fn lemma_update_names_the_reported_channels(previous: Option<Seq<u8>>, frame: Seq<u8>)
    ensures
        forall|position: int|
            1 <= position ==> (#[trigger] names_channel(
                frame_update(previous, frame).variables,
                position,
            ) <==> is_reported(previous, frame, position)),
        forall|position: int|
            1 <= position && #[trigger] is_reported(previous, frame, position) ==> carries(
                frame_update(previous, frame).variables,
                frame,
                position,
            ),
        forall|k: int|
            0 <= k < frame_update(previous, frame).variables.len() ==> reports_a_channel(
                #[trigger] frame_update(previous, frame).variables[k],
                previous,
                frame,
                frame.len() as int,
            ),
        forall|j: int, k: int|
            0 <= j < k < frame_update(previous, frame).variables.len() ==> (
            #[trigger] frame_update(previous, frame).variables[j]).name != (
            #[trigger] frame_update(previous, frame).variables[k]).name,
        !names_channel(frame_update(previous, frame).variables, 0),
{
    lemma_channel_updates(previous, frame, frame.len() as int);
    lemma_unreported_is_not_named(previous, frame, 0);
    let variables = frame_update(previous, frame).variables;
    assert forall|position: int| 1 <= position implies (#[trigger] names_channel(
        variables,
        position,
    ) <==> is_reported(previous, frame, position)) by {
        if is_reported(previous, frame, position) {
            assert(carries(variables, frame, position));
            let k = choose|k: int|
                0 <= k < variables.len() && variables[k] == channel_variable(frame, position);
            assert(variables[k].name == channel_name_spec(position));
        } else {
            lemma_unreported_is_not_named(previous, frame, position);
        }
    }
}

/// A frame reports nothing beyond its own length. Where it is shorter than
/// the frame before it, the positions it has lost get no variable, though
/// they were lit, and position 0 of an empty frame gets no brightness.
pub proof fn lemma_nothing_beyond_the_frame(
    previous: Option<Seq<u8>>,
    frame: Seq<u8>,
    position: int,
)
    requires
        position >= frame.len(),
    ensures
        !is_reported(previous, frame, position),
        !names_channel(frame_update(previous, frame).variables, position),
        position == 0 ==> frame_update(previous, frame).brightness is None,
{
    lemma_unreported_is_not_named(previous, frame, position);
}

/// An empty frame changes nothing, whatever came before it.
pub proof fn lemma_empty_frame_changes_nothing(previous: Option<Seq<u8>>)
    ensures
        frame_update(previous, Seq::empty()) == (UpdateView {
            brightness: None,
            variables: Seq::empty(),
        }),
{
}

/// A channel that goes dark is set back to zero once. Where `first` has the
/// channel lit and `second` has it dark, the update of `second` holds the
/// channel with level 0; where `third` has it dark still, the update of
/// `third` does not name it.
pub proof fn lemma_dark_channel_is_reset_once(
    first: Seq<u8>,
    second: Seq<u8>,
    third: Seq<u8>,
    position: int,
)
    requires
        1 <= position < first.len(),
        position < second.len(),
        position < third.len(),
        first[position] > 0,
        second[position] == 0,
        third[position] == 0,
    ensures
        carries(frame_update(Some(first), second).variables, second, position),
        channel_variable(second, position).value == Scalar::Level(0),
        !names_channel(frame_update(Some(second), third).variables, position),
{
    lemma_channel_updates(Some(first), second, second.len() as int);
    assert(is_reported(Some(first), second, position));
    lemma_unreported_is_not_named(Some(second), third, position);
}

/// The brightness that goes dark is set back to zero once, as a channel is.
pub proof fn lemma_dark_brightness_is_reset_once(first: Seq<u8>, second: Seq<u8>, third: Seq<u8>)
    requires
        0 < first.len(),
        0 < second.len(),
        0 < third.len(),
        first[0] > 0,
        second[0] == 0,
        third[0] == 0,
    ensures
        frame_update(Some(first), second).brightness == Some(0u8),
        frame_update(Some(second), third).brightness is None,
{
}

} // verus!
