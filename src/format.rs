use vstd::prelude::*;

use crate::pod::{Fixate, Id, Object, Property, Value};

verus! {

/// Key of a format object's media type (an id).
pub const FORMAT_MEDIA_TYPE: u32 = 1;

/// Key of a format object's media subtype (an id).
pub const FORMAT_MEDIA_SUBTYPE: u32 = 2;

/// Key of an audio format object's sample format (an id).
pub const FORMAT_AUDIO_FORMAT: u32 = 0x10001;

/// Key of an audio format object's sample rate.
pub const FORMAT_AUDIO_RATE: u32 = 0x10003;

/// Key of an audio format object's channel count.
pub const FORMAT_AUDIO_CHANNELS: u32 = 0x10004;

/// Key of an audio format object's channel positions (an array of ids).
pub const FORMAT_AUDIO_POSITION: u32 = 0x10005;

/// The media type of audio.
pub const MEDIA_TYPE_AUDIO: u32 = 1;

/// The media subtype of raw samples.
pub const MEDIA_SUBTYPE_RAW: u32 = 1;

/// The sample format that leaves the choice open.
pub const AUDIO_FORMAT_UNKNOWN: u32 = 0;

/// The flag that says channels have no positions.
pub const AUDIO_FLAG_UNPOSITIONED: u32 = 1;

/// What the capture stream agreed on.
#[derive(Debug, Clone, Copy, PartialEq, Eq, Structural)]
pub struct StreamConfiguration {
    pub rate: u32,
    pub channels: u32,
    pub format: u32,
}

/// The first property of `props` with `key`, if any.
pub open spec fn property_spec(props: Seq<Property>, key: u32) -> Option<Property>
    decreases props.len(),
{
    if props.len() == 0 {
        None
    } else if props[0].key == key {
        Some(props[0])
    } else {
        property_spec(props.drop_first(), key)
    }
}

/// The fixed value of the property under `key`, if it is there and fixes.
pub open spec fn fixed_id(props: Seq<Property>, key: u32) -> Option<Id> {
    match property_spec(props, key) {
        Some(p) => match p.value.fixate_spec() {
            Ok(id) => Some(id),
            Err(_) => None,
        },
        None => None,
    }
}

/// The fixed integer of the property under `key`, if it is there and fixes.
pub open spec fn fixed_int(props: Seq<Property>, key: u32) -> Option<i32> {
    match property_spec(props, key) {
        Some(p) => match p.value.fixate_spec() {
            Ok(value) => Some(value),
            Err(_) => None,
        },
        None => None,
    }
}

/// The configuration a format object fixes: raw audio with a sample format,
/// a rate and a channel count, the last two taken bit for bit as unsigned.
pub open spec fn configuration_spec(format: Value) -> Option<StreamConfiguration> {
    match format {
        Value::Object(object) => {
            let props = object.properties@;
            let media_type = fixed_id(props, FORMAT_MEDIA_TYPE);
            let media_subtype = fixed_id(props, FORMAT_MEDIA_SUBTYPE);
            let sample_format = fixed_id(props, FORMAT_AUDIO_FORMAT);
            let rate = fixed_int(props, FORMAT_AUDIO_RATE);
            let channels = fixed_int(props, FORMAT_AUDIO_CHANNELS);
            if media_type.is_some() && media_subtype.is_some() && sample_format.is_some()
                && rate.is_some() && channels.is_some() && media_type.unwrap().0 == MEDIA_TYPE_AUDIO
                && media_subtype.unwrap().0 == MEDIA_SUBTYPE_RAW {
                Some(
                    StreamConfiguration {
                        rate: rate.unwrap() as u32,
                        channels: channels.unwrap() as u32,
                        format: sample_format.unwrap().0,
                    },
                )
            } else {
                None
            }
        },
        _ => None,
    }
}

/// Where the first property of `props` with `key` stands.
pub fn find_property(props: &Vec<Property>, key: u32) -> (r: Option<usize>)
    ensures
        match r {
            Some(i) => i < props@.len() && property_spec(props@, key) == Some(props@[i as int]),
            None => property_spec(props@, key).is_none(),
        },
{
    let mut i: usize = 0;
    assert(props@.subrange(0, props@.len() as int) =~= props@);
    while i < props.len()
        invariant
            i <= props@.len(),
            property_spec(props@, key) == property_spec(
                props@.subrange(i as int, props@.len() as int),
                key,
            ),
        decreases props@.len() - i,
    {
        let ghost tail = props@.subrange(i as int, props@.len() as int);
        if props[i].key == key {
            assert(tail[0] == props@[i as int]);
            return Some(i);
        }
        assert(tail.drop_first() =~= props@.subrange(i + 1, props@.len() as int));
        i = i + 1;
    }
    assert(props@.subrange(i as int, props@.len() as int).len() == 0);
    None
}

fn fixate_id(object: &Object, key: u32) -> (r: Option<Id>)
    ensures
        r == fixed_id(object.properties@, key),
{
    match find_property(&object.properties, key) {
        Some(i) => match object.properties[i].value.fixate() {
            Ok(id) => Some(id),
            Err(_) => None,
        },
        None => None,
    }
}

fn fixate_int(object: &Object, key: u32) -> (r: Option<i32>)
    ensures
        r == fixed_int(object.properties@, key),
{
    match find_property(&object.properties, key) {
        Some(i) => match object.properties[i].value.fixate() {
            Ok(value) => Some(value),
            Err(_) => None,
        },
        None => None,
    }
}

/// Reads the stream configuration out of a negotiated format object.
pub fn stream_configuration(format: &Value) -> (r: Option<StreamConfiguration>)
    ensures
        r == configuration_spec(*format),
{
    match format {
        Value::Object(object) => {
            let media_type = fixate_id(object, FORMAT_MEDIA_TYPE);
            let media_subtype = fixate_id(object, FORMAT_MEDIA_SUBTYPE);
            let sample_format = fixate_id(object, FORMAT_AUDIO_FORMAT);
            let rate = fixate_int(object, FORMAT_AUDIO_RATE);
            let channels = fixate_int(object, FORMAT_AUDIO_CHANNELS);
            match (media_type, media_subtype, sample_format, rate, channels) {
                (Some(media_type), Some(media_subtype), Some(sample_format), Some(rate), Some(
                    channels,
                )) => {
                    if media_type.0 == MEDIA_TYPE_AUDIO && media_subtype.0 == MEDIA_SUBTYPE_RAW {
                        Some(
                            StreamConfiguration {
                                rate: rate as u32,
                                channels: channels as u32,
                                format: sample_format.0,
                            },
                        )
                    } else {
                        None
                    }
                },
                _ => None,
            }
        },
        _ => None,
    }
}

/// A raw audio format to offer when a capture stream connects; what is left
/// unknown or zero is left open.
pub struct SpaAudioInfoRaw {
    pub format: u32,
    pub flags: u32,
    pub rate: u32,
    /// Each channel's position, if it has one.
    pub channels: Vec<Option<u32>>,
}

/// The id properties a format offer holds, as key and id, in order.
pub open spec fn offered_ids(info: &SpaAudioInfoRaw) -> Seq<(u32, u32)> {
    let base = seq![(FORMAT_MEDIA_TYPE, MEDIA_TYPE_AUDIO), (FORMAT_MEDIA_SUBTYPE, MEDIA_SUBTYPE_RAW)];
    let with_format = if info.format != AUDIO_FORMAT_UNKNOWN {
        base.push((FORMAT_AUDIO_FORMAT, info.format))
    } else {
        base
    };
    let with_rate = if info.rate != 0 {
        with_format.push((FORMAT_AUDIO_RATE, info.rate))
    } else {
        with_format
    };
    if info.channels@.len() > 0 {
        with_rate.push((FORMAT_AUDIO_CHANNELS, info.channels@.len() as u32))
    } else {
        with_rate
    }
}

/// Whether a format offer also lists the channel positions.
pub open spec fn offers_positions(info: &SpaAudioInfoRaw) -> bool {
    info.channels@.len() > 0 && info.flags & AUDIO_FLAG_UNPOSITIONED == 0
}

/// The channel positions as ids, zero for a channel without one.
pub open spec fn positions_spec(channels: Seq<Option<u32>>) -> Seq<Id> {
    channels.map_values(
        |c: Option<u32>|
            match c {
                Some(id) => Id(id),
                None => Id(0),
            },
    )
}

impl SpaAudioInfoRaw {
    /// A format that leaves everything open.
    pub fn empty() -> (r: Self)
        ensures
            r.format == AUDIO_FORMAT_UNKNOWN,
            r.flags == 0,
            r.rate == 0,
            r.channels@.len() == 0,
    {
        SpaAudioInfoRaw { format: AUDIO_FORMAT_UNKNOWN, flags: 0, rate: 0, channels: Vec::new() }
    }

    /// The properties of the format object that offers this format: raw
    /// audio, then the sample format, rate and channel count where they are
    /// set, then the channel positions unless the channels have none.
    pub fn properties(&self) -> (r: Vec<Property>)
        ensures
            r@.len() == offered_ids(self).len() + if offers_positions(self) {
                1int
            } else {
                0int
            },
            forall|i: int|
                0 <= i < offered_ids(self).len() ==> {
                    &&& (#[trigger] r@[i]).key == offered_ids(self)[i].0
                    &&& r@[i].value == Value::Id(Id(offered_ids(self)[i].1))
                },
            offers_positions(self) ==> {
                &&& r@.last().key == FORMAT_AUDIO_POSITION
                &&& r@.last().value matches Value::IdArray(ids) && ids@ == positions_spec(
                    self.channels@,
                )
            },
    {
        let mut props: Vec<Property> = Vec::new();
        props.push(Property { key: FORMAT_MEDIA_TYPE, value: Value::Id(Id(MEDIA_TYPE_AUDIO)) });
        props.push(Property { key: FORMAT_MEDIA_SUBTYPE, value: Value::Id(Id(MEDIA_SUBTYPE_RAW)) });
        if self.format != AUDIO_FORMAT_UNKNOWN {
            props.push(Property { key: FORMAT_AUDIO_FORMAT, value: Value::Id(Id(self.format)) });
        }
        if self.rate != 0 {
            props.push(Property { key: FORMAT_AUDIO_RATE, value: Value::Id(Id(self.rate)) });
        }
        if self.channels.len() > 0 {
            props.push(
                Property {
                    key: FORMAT_AUDIO_CHANNELS,
                    value: Value::Id(Id(self.channels.len() as u32)),
                },
            );
            if self.flags & AUDIO_FLAG_UNPOSITIONED == 0 {
                let mut ids: Vec<Id> = Vec::new();
                let mut i: usize = 0;
                while i < self.channels.len()
                    invariant
                        i <= self.channels@.len(),
                        ids@ == positions_spec(self.channels@.subrange(0, i as int)),
                    decreases self.channels@.len() - i,
                {
                    let id = match self.channels[i] {
                        Some(id) => Id(id),
                        None => Id(0),
                    };
                    ids.push(id);
                    i = i + 1;
                    assert(ids@ =~= positions_spec(self.channels@.subrange(0, i as int)));
                }
                assert(self.channels@.subrange(0, i as int) =~= self.channels@);
                props.push(Property { key: FORMAT_AUDIO_POSITION, value: Value::IdArray(ids) });
            }
        }
        props
    }
}

} // verus!
