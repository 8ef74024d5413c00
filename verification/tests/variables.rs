use artnet_protocol::PaddedData;
use dragonblaze::names::channel_name;
use dragonblaze::variables::{Scalar, Variable, VariableStore};
use serde_json::{Number, Value};

// The fraction that a level stands for, as the device receives it.
fn convert_value(level: u8) -> f64 {
    level as f64 / 255.0
}

fn insert_variable(map: &mut serde_json::Map<String, Value>, key: &str, value: f64) {
    map.insert(
        key.to_owned(),
        Value::Number(Number::from_f64(value).expect("Could not convert f64")),
    );
}

// The variables of an update as the mapping that the device receives.
fn as_mapping(variables: &[Variable]) -> serde_json::Map<String, Value> {
    let mut out = serde_json::Map::new();
    for variable in variables {
        match variable.value {
            Scalar::Level(level) => insert_variable(&mut out, &variable.name, convert_value(level)),
            Scalar::Integer(number) => {
                out.insert(variable.name.clone(), Value::Number(Number::from(number)));
            }
        }
    }
    out
}

fn level(name: &str, level: u8) -> Variable {
    Variable { name: name.to_owned(), value: Scalar::Level(level) }
}

// The store reports levels; the program divides them by 255 when it writes
// a message. The division is repeated here on levels that the store reports.
#[test]
fn test_convert_value() {
    let mut store = VariableStore::new();
    let update = store.process(&[255, 128]);
    let full = update.brightness.unwrap();
    let half = match update.variables[0].value {
        Scalar::Level(level) => level,
        Scalar::Integer(_) => panic!("a channel holds a level"),
    };
    assert_eq!(1.0, convert_value(full));
    assert_eq!(0.0, convert_value(0));
    assert!(convert_value(half) > 0.49);
    assert!(convert_value(half) < 0.51);
}

#[test]
fn test_variables() {
    let mut store = VariableStore::new();

    // Artnet message with all zeroes
    let data = PaddedData::from(vec![]);
    let bytes: &Vec<u8> = data.as_ref();
    let update = store.process(bytes);
    let (brightness, variables) = (update.brightness, update.variables);
    assert!(brightness.is_none());
    assert!(variables.is_empty());

    // Message with channels that have values above zero, and a zero value
    // in between two used ones
    let data = PaddedData::from(vec![255, 255, 0, 255, 0, 0, 0, 0]);
    let bytes: &Vec<u8> = data.as_ref();
    let update = store.process(bytes);
    let (brightness, variables) = (update.brightness, update.variables);
    assert_eq!(Some(1.0), brightness.map(convert_value));
    assert_eq!(Some(255), brightness);
    let mut expected = serde_json::Map::new();
    insert_variable(&mut expected, "channel_2", 1.0);
    insert_variable(&mut expected, "channel_4", 1.0);
    assert_eq!(expected, as_mapping(&variables));
    assert_eq!(vec![level("channel_2", 255), level("channel_4", 255)], variables);

    // A zero value for everything but channel 1: the variables seen earlier
    // are reset to zero.
    let data = PaddedData::from(vec![255, 255, 0, 0, 0, 0, 0]);
    let bytes: &Vec<u8> = data.as_ref();
    let update = store.process(bytes);
    let (brightness, variables) = (update.brightness, update.variables);
    assert_eq!(Some(1.0), brightness.map(convert_value));
    let mut expected = serde_json::Map::new();
    insert_variable(&mut expected, "channel_2", 1.0);
    insert_variable(&mut expected, "channel_4", 0.0);
    assert_eq!(expected, as_mapping(&variables));
    assert_eq!(vec![level("channel_2", 255), level("channel_4", 0)], variables);

    // Next time no variable needs a reset
    let data = PaddedData::from(vec![]);
    let bytes: &Vec<u8> = data.as_ref();
    let update = store.process(bytes);
    let (brightness, variables) = (update.brightness, update.variables);
    assert!(brightness.is_none());
    assert!(variables.is_empty());
}

#[test]
fn empty_frame_without_state_changes_nothing() {
    let mut store = VariableStore::new();
    let update = store.process(&[]);
    assert_eq!(None, update.brightness);
    assert_eq!(Vec::<Variable>::new(), update.variables);
}

#[test]
fn empty_frame_after_lit_frame_changes_nothing() {
    let mut store = VariableStore::new();
    store.process(&[9, 9, 9]);
    let update = store.process(&[]);
    assert_eq!(None, update.brightness);
    assert!(update.variables.is_empty());
    // The empty frame is remembered: nothing of the lit one is reset later.
    let update = store.process(&[0, 0, 0]);
    assert_eq!(None, update.brightness);
    assert!(update.variables.is_empty());
}

#[test]
fn dark_frame_without_state_changes_nothing() {
    let mut store = VariableStore::new();
    let update = store.process(&[0, 0, 0, 0]);
    assert_eq!(None, update.brightness);
    assert!(update.variables.is_empty());
}

#[test]
fn levels_are_reported_as_they_are() {
    let mut store = VariableStore::new();
    let update = store.process(&[128, 1, 0, 254]);
    assert_eq!(Some(128), update.brightness);
    assert_eq!(vec![level("channel_2", 1), level("channel_4", 254)], update.variables);
    // A lit channel is reported again with every frame.
    let update = store.process(&[128, 1, 0, 254]);
    assert_eq!(Some(128), update.brightness);
    assert_eq!(vec![level("channel_2", 1), level("channel_4", 254)], update.variables);
}

#[test]
fn dark_channel_is_reset_once() {
    let mut store = VariableStore::new();
    store.process(&[10, 20, 30]);
    let update = store.process(&[10, 0, 30]);
    assert_eq!(Some(10), update.brightness);
    assert_eq!(vec![level("channel_2", 0), level("channel_3", 30)], update.variables);
    let update = store.process(&[10, 0, 30]);
    assert_eq!(vec![level("channel_3", 30)], update.variables);
}

#[test]
fn dark_brightness_is_reset_once() {
    let mut store = VariableStore::new();
    store.process(&[10, 20]);
    let update = store.process(&[0, 20]);
    assert_eq!(Some(0), update.brightness);
    let update = store.process(&[0, 20]);
    assert_eq!(None, update.brightness);
    assert_eq!(vec![level("channel_2", 20)], update.variables);
}

#[test]
fn shorter_frame_resets_nothing_beyond_its_length() {
    let mut store = VariableStore::new();
    store.process(&[1, 2, 3, 4, 5]);
    let update = store.process(&[1, 0]);
    assert_eq!(Some(1), update.brightness);
    assert_eq!(vec![level("channel_2", 0)], update.variables);
    // The short frame took the place of the long one: channels 3 to 5 were
    // never reset and are not reset now.
    let update = store.process(&[1, 0, 0, 0, 0]);
    assert_eq!(Some(1), update.brightness);
    assert!(update.variables.is_empty());
}

#[test]
fn longer_frame_reports_only_what_is_lit() {
    let mut store = VariableStore::new();
    store.process(&[1, 2]);
    let update = store.process(&[0, 0, 0, 7]);
    assert_eq!(Some(0), update.brightness);
    assert_eq!(vec![level("channel_2", 0), level("channel_4", 7)], update.variables);
}

#[test]
fn names_of_an_update_are_distinct() {
    let mut store = VariableStore::new();
    let frame: Vec<u8> = (0..120).map(|_| 5u8).collect();
    let update = store.process(&frame);
    assert_eq!(119, update.variables.len());
    let mapping = as_mapping(&update.variables);
    assert_eq!(119, mapping.len());
    assert_eq!("channel_2", update.variables[0].name);
    assert_eq!("channel_120", update.variables[118].name);
}

#[test]
fn channel_names_count_from_one() {
    assert_eq!("channel_1", channel_name(0));
    assert_eq!("channel_2", channel_name(1));
    assert_eq!("channel_10", channel_name(9));
    assert_eq!("channel_11", channel_name(10));
    assert_eq!("channel_100", channel_name(99));
    assert_eq!("channel_513", channel_name(512));
    assert_eq!(format!("channel_{}", 1234567usize + 1), channel_name(1234567));
    assert_eq!("channel_18446744073709551616", channel_name(usize::MAX));
}
