use wmantle::format::{
    stream_configuration, SpaAudioInfoRaw, StreamConfiguration, AUDIO_FLAG_UNPOSITIONED,
    FORMAT_AUDIO_CHANNELS, FORMAT_AUDIO_FORMAT, FORMAT_AUDIO_POSITION, FORMAT_AUDIO_RATE,
    FORMAT_MEDIA_SUBTYPE, FORMAT_MEDIA_TYPE, MEDIA_SUBTYPE_RAW, MEDIA_TYPE_AUDIO,
};
use wmantle::pod::{
    Choice, ChoiceDefault, ChoiceEnum, ChoiceValue, Fd, Fixate, Fraction, Id, Object, Property,
    Rectangle, Value,
};

const F32_LE: u32 = 283;

fn prop(key: u32, value: Value) -> Property {
    Property { key, value }
}

fn format_object(properties: Vec<Property>) -> Value {
    Value::Object(Object { type_: 0x40003, id: 4, properties })
}

fn raw_audio_properties(rate: Value, channels: Value) -> Vec<Property> {
    vec![
        prop(FORMAT_MEDIA_TYPE, Value::Id(Id(MEDIA_TYPE_AUDIO))),
        prop(FORMAT_MEDIA_SUBTYPE, Value::Id(Id(MEDIA_SUBTYPE_RAW))),
        prop(FORMAT_AUDIO_FORMAT, Value::Id(Id(F32_LE))),
        prop(FORMAT_AUDIO_RATE, rate),
        prop(FORMAT_AUDIO_CHANNELS, channels),
    ]
}

#[test]
fn choice_default_of_each_kind() {
    let fixed = Choice(0, ChoiceEnum::Fixed(7i32));
    assert_eq!(fixed.choice_default(), Ok(7));
    let range = Choice(0, ChoiceEnum::Range { default: 48_000i32, min: 1, max: 384_000 });
    assert_eq!(range.choice_default(), Ok(48_000));
    let step = Choice(0, ChoiceEnum::Step { default: 4i64, min: 2, max: 8, step: 2 });
    assert_eq!(step.choice_default(), Ok(4));
    let list = Choice(0, ChoiceEnum::Enum { default: Id(5), alternatives: vec![Id(5), Id(6)] });
    assert_eq!(list.choice_default(), Ok(Id(5)));
    let flags = Choice(0, ChoiceEnum::Flags { default: 3u32, flags: vec![1, 2] });
    assert_eq!(flags.choice_default(), Ok(3));
}

#[test]
fn choice_value_default_needs_matching_kind() {
    let ints = ChoiceValue::Int(Choice(0, ChoiceEnum::Range { default: 2, min: 1, max: 8 }));
    let as_int: Result<i32, ()> = ints.choice_default();
    assert_eq!(as_int, Ok(2));
    let as_long: Result<i64, ()> = ints.choice_default();
    assert_eq!(as_long, Err(()));
    let as_id: Result<Id, ()> = ints.choice_default();
    assert_eq!(as_id, Err(()));
    let rects = ChoiceValue::Rectangle(Choice(0, ChoiceEnum::Fixed(Rectangle { width: 320, height: 240 })));
    let rect: Result<Rectangle, ()> = rects.choice_default();
    assert_eq!(rect, Ok(Rectangle { width: 320, height: 240 }));
    let fractions = ChoiceValue::Fraction(Choice(0, ChoiceEnum::Fixed(Fraction { num: 1, denom: 60 })));
    let fraction: Result<Fraction, ()> = fractions.choice_default();
    assert_eq!(fraction, Ok(Fraction { num: 1, denom: 60 }));
    let fds = ChoiceValue::Fd(Choice(0, ChoiceEnum::Fixed(Fd(9))));
    let fd: Result<Fd, ()> = fds.choice_default();
    assert_eq!(fd, Ok(Fd(9)));
    let bools = ChoiceValue::Bool(Choice(0, ChoiceEnum::Fixed(true)));
    let flag: Result<bool, ()> = bools.choice_default();
    assert_eq!(flag, Ok(true));
    let floats = ChoiceValue::Other;
    let none: Result<i32, ()> = floats.choice_default();
    assert_eq!(none, Err(()));
}

#[test]
fn fixate_plain_and_choice_values() {
    let int: Result<i32, ()> = Value::Int(2).fixate();
    assert_eq!(int, Ok(2));
    let id: Result<Id, ()> = Value::Id(Id(1)).fixate();
    assert_eq!(id, Ok(Id(1)));
    let choice = Value::Choice(ChoiceValue::Int(Choice(0, ChoiceEnum::Enum {
        default: 44_100,
        alternatives: vec![44_100, 48_000],
    })));
    let rate: Result<i32, ()> = choice.fixate();
    assert_eq!(rate, Ok(44_100));
    let wrong: Result<Id, ()> = Value::Int(2).fixate();
    assert_eq!(wrong, Err(()));
    let nothing: Result<i32, ()> = Value::Empty.fixate();
    assert_eq!(nothing, Err(()));
}

#[test]
fn configuration_of_raw_audio() {
    let format = format_object(raw_audio_properties(
        Value::Choice(ChoiceValue::Int(Choice(0, ChoiceEnum::Range { default: 48_000, min: 1, max: 384_000 }))),
        Value::Int(2),
    ));
    assert_eq!(
        stream_configuration(&format),
        Some(StreamConfiguration { rate: 48_000, channels: 2, format: F32_LE })
    );
}

#[test]
fn configuration_needs_every_property() {
    let mut props = raw_audio_properties(Value::Int(44_100), Value::Int(2));
    props.remove(3);
    assert_eq!(stream_configuration(&format_object(props)), None);
    let props = raw_audio_properties(Value::Id(Id(44_100)), Value::Int(2));
    assert_eq!(stream_configuration(&format_object(props)), None);
    assert_eq!(stream_configuration(&Value::Int(1)), None);
}

#[test]
fn configuration_rejects_other_media() {
    let mut props = raw_audio_properties(Value::Int(44_100), Value::Int(2));
    props[0] = prop(FORMAT_MEDIA_TYPE, Value::Id(Id(2)));
    assert_eq!(stream_configuration(&format_object(props)), None);
    let mut props = raw_audio_properties(Value::Int(44_100), Value::Int(2));
    props[1] = prop(FORMAT_MEDIA_SUBTYPE, Value::Id(Id(2)));
    assert_eq!(stream_configuration(&format_object(props)), None);
}

#[test]
fn configuration_casts_rate_and_channels() {
    let props = raw_audio_properties(Value::Int(-1), Value::Int(-2));
    assert_eq!(
        stream_configuration(&format_object(props)),
        Some(StreamConfiguration { rate: u32::MAX, channels: u32::MAX - 1, format: F32_LE })
    );
}

#[test]
fn configuration_takes_first_property_of_a_key() {
    let mut props = raw_audio_properties(Value::Int(44_100), Value::Int(2));
    props.push(prop(FORMAT_AUDIO_RATE, Value::Int(96_000)));
    assert_eq!(
        stream_configuration(&format_object(props)),
        Some(StreamConfiguration { rate: 44_100, channels: 2, format: F32_LE })
    );
}

fn keys(props: &[Property]) -> Vec<u32> {
    props.iter().map(|p| p.key).collect()
}

fn id_of(value: &Value) -> u32 {
    match value {
        Value::Id(Id(id)) => *id,
        _ => panic!("not an id"),
    }
}

#[test]
fn empty_format_offers_raw_audio_only() {
    let info = SpaAudioInfoRaw::empty();
    let props = info.properties();
    assert_eq!(keys(&props), vec![FORMAT_MEDIA_TYPE, FORMAT_MEDIA_SUBTYPE]);
    assert_eq!(id_of(&props[0].value), MEDIA_TYPE_AUDIO);
    assert_eq!(id_of(&props[1].value), MEDIA_SUBTYPE_RAW);
}

#[test]
fn full_format_offers_positions() {
    let info = SpaAudioInfoRaw { format: F32_LE, flags: 0, rate: 48_000, channels: vec![Some(3), None] };
    let props = info.properties();
    assert_eq!(
        keys(&props),
        vec![
            FORMAT_MEDIA_TYPE,
            FORMAT_MEDIA_SUBTYPE,
            FORMAT_AUDIO_FORMAT,
            FORMAT_AUDIO_RATE,
            FORMAT_AUDIO_CHANNELS,
            FORMAT_AUDIO_POSITION,
        ]
    );
    assert_eq!(id_of(&props[2].value), F32_LE);
    assert_eq!(id_of(&props[3].value), 48_000);
    assert_eq!(id_of(&props[4].value), 2);
    match &props[5].value {
        Value::IdArray(ids) => assert_eq!(ids, &vec![Id(3), Id(0)]),
        _ => panic!("positions are not an id array"),
    }
}

#[test]
fn unpositioned_format_leaves_positions_out() {
    let info = SpaAudioInfoRaw {
        format: 0,
        flags: AUDIO_FLAG_UNPOSITIONED,
        rate: 0,
        channels: vec![None, None],
    };
    let props = info.properties();
    assert_eq!(keys(&props), vec![FORMAT_MEDIA_TYPE, FORMAT_MEDIA_SUBTYPE, FORMAT_AUDIO_CHANNELS]);
    assert_eq!(id_of(&props[2].value), 2);
}
