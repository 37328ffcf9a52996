use aftershock::bit_get::U32C;
use aftershock::checksum::crc_32;
use aftershock::container::Cache;
use aftershock::container::Class;
use aftershock::container::Keyframe;
use aftershock::container::List;
use aftershock::container::Mark;
use aftershock::container::Message;
use aftershock::container::Object;
use aftershock::container::PropertyValue;
use aftershock::container::Text;
use aftershock::container::Version;
use aftershock::context::Context;
use aftershock::replication::Frame;
use aftershock::replication::Replication;
use aftershock::replication::ReplicationValue;
use aftershock::BitGetError;
use aftershock::Get;
use aftershock::GetError;
use aftershock::Replay;

fn u32_le(x: u32) -> Vec<u8> {
    x.to_le_bytes().to_vec()
}

fn u64_le(x: u64) -> Vec<u8> {
    x.to_le_bytes().to_vec()
}

fn text_bytes(s: &str) -> Vec<u8> {
    let mut bytes = (s.len() as i32).to_le_bytes().to_vec();
    bytes.extend_from_slice(s.as_bytes());
    bytes
}

fn text(s: &str) -> Text {
    Text {
        size: s.len() as i32,
        value: String::from(s),
    }
}

fn join(parts: &[Vec<u8>]) -> Vec<u8> {
    let mut bytes = Vec::new();
    for part in parts {
        bytes.extend_from_slice(part);
    }
    bytes
}

fn list_bytes(items: &[Vec<u8>]) -> Vec<u8> {
    join(&[u32_le(items.len() as u32), join(items)])
}

fn int_property_bytes(key: &str, value: u32) -> Vec<u8> {
    join(&[
        text_bytes(key),
        text_bytes("IntProperty\0"),
        u64_le(4),
        u32_le(value),
    ])
}

fn section_bytes(body: &[u8]) -> Vec<u8> {
    join(&[
        u32_le(body.len() as u32),
        u32_le(crc_32(body)),
        body.to_vec(),
    ])
}

fn header_bytes(frames: u32) -> Vec<u8> {
    join(&[
        u32_le(868),
        u32_le(20),
        u32_le(1),
        text_bytes("TAGame.Replay_Soccar_TA\0"),
        int_property_bytes("NumFrames\0", frames),
        int_property_bytes("MaxChannels\0", 1023),
        text_bytes("None\0"),
    ])
}

fn push_bits(stream: &mut Vec<bool>, value: u32, width: u32) {
    for i in 0..width {
        stream.push(value >> i & 1 == 1);
    }
}

fn pack(stream: &[bool]) -> Vec<u8> {
    let mut bytes = vec![0u8; (stream.len() + 7) / 8];
    for (i, bit) in stream.iter().enumerate() {
        if *bit {
            bytes[i / 8] |= 1 << (i % 8);
        }
    }
    bytes
}

fn stream_bytes() -> Vec<u8> {
    let mut stream = Vec::new();
    push_bits(&mut stream, 0x3f80_0000, 32);
    push_bits(&mut stream, 0x3c88_8889, 32);
    stream.push(true);
    push_bits(&mut stream, 5, 10);
    stream.push(true);
    stream.push(true);
    stream.push(false);
    push_bits(&mut stream, 0, 32);
    push_bits(&mut stream, 1, 32);
    stream.push(true);
    push_bits(&mut stream, 5, 10);
    stream.push(false);
    stream.push(false);
    pack(&stream)
}

fn content_bytes(stream: &[u8]) -> Vec<u8> {
    join(&[
        list_bytes(&[text_bytes("stadium_p\0")]),
        list_bytes(&[join(&[u32_le(0x4120_0000), u32_le(0), u32_le(0)])]),
        u32_le(stream.len() as u32),
        stream.to_vec(),
        list_bytes(&[join(&[u32_le(3), text_bytes("who\0"), text_bytes("hi\0")])]),
        list_bytes(&[join(&[text_bytes("Team0Goal\0"), u32_le(0)])]),
        list_bytes(&[text_bytes("Core\0"), text_bytes("Engine\0")]),
        list_bytes(&[text_bytes("Engine.Default\0"), text_bytes("Engine.Thing\0")]),
        list_bytes(&[text_bytes("None\0")]),
        list_bytes(&[join(&[text_bytes("Engine.Pawn\0"), u32_le(0)])]),
        list_bytes(&[join(&[
            u32_le(0),
            u32_le(0),
            u32_le(0),
            list_bytes(&[join(&[u32_le(0), u32_le(2)])]),
        ])]),
    ])
}

fn replay_bytes() -> Vec<u8> {
    join(&[
        section_bytes(&header_bytes(1)),
        section_bytes(&content_bytes(&stream_bytes())),
    ])
}

fn list<T>(value: Vec<T>) -> List<T> {
    List {
        size: value.len() as u32,
        value,
    }
}

#[test]
fn replay_decodes_and_consumes_every_byte() {
    let bytes = replay_bytes();
    let total = bytes.len();
    let header_size = header_bytes(1).len();
    let content = content_bytes(&stream_bytes());
    let mut get = Get::new(bytes);
    let replay: Replay = get.get_replay().unwrap();
    assert_eq!(get.index(), total);
    assert_eq!(replay.header.size as usize, header_size);
    assert_eq!(replay.content.size as usize, content.len());
    assert_eq!(
        8 + replay.header.size as usize + 8 + replay.content.size as usize,
        total
    );
    assert_eq!(replay.header.crc, crc_32(&header_bytes(1)));
    assert_eq!(replay.content.crc, crc_32(&content));

    let header = &replay.header.value;
    assert_eq!(
        header.version,
        Version {
            major: 868,
            minor: 20,
            patch: Some(1)
        }
    );
    assert_eq!(header.label, text("TAGame.Replay_Soccar_TA\0"));
    assert_eq!(header.properties.value.len(), 2);
    assert_eq!(header.properties.value[0].0, text("NumFrames\0"));
    assert_eq!(header.properties.value[0].1.value, PropertyValue::Int(1));
    assert_eq!(header.properties.value[1].0, text("MaxChannels\0"));
    assert_eq!(header.properties.value[1].1.value, PropertyValue::Int(1023));
    assert_eq!(header.properties.last, text("None\0"));

    let content = &replay.content.value;
    assert_eq!(content.levels, list(vec![text("stadium_p\0")]));
    assert_eq!(
        content.keyframes,
        list(vec![Keyframe {
            time: 0x4120_0000,
            frame: 0,
            offset: 0
        }])
    );
    assert_eq!(content.size as usize, stream_bytes().len());
    assert_eq!(
        content.messages,
        list(vec![Message {
            frame: 3,
            label: text("who\0"),
            value: text("hi\0")
        }])
    );
    assert_eq!(
        content.marks,
        list(vec![Mark {
            value: text("Team0Goal\0"),
            frame: 0
        }])
    );
    assert_eq!(
        content.packages,
        list(vec![text("Core\0"), text("Engine\0")])
    );
    assert_eq!(
        content.objects,
        list(vec![text("Engine.Default\0"), text("Engine.Thing\0")])
    );
    assert_eq!(content.names, list(vec![text("None\0")]));
    assert_eq!(
        content.classes,
        list(vec![Class {
            name: text("Engine.Pawn\0"),
            id: 0
        }])
    );
    assert_eq!(
        content.caches,
        list(vec![Cache {
            class: 0,
            parent: 0,
            index: 0,
            objects: list(vec![Object { index: 0, id: 2 }]),
        }])
    );
    assert_eq!(
        content.frames,
        vec![Frame {
            time: 0x3f80_0000,
            delta: 0x3c88_8889,
            replications: vec![
                Replication {
                    actor: U32C {
                        limit: 1023,
                        value: 5
                    },
                    value: ReplicationValue::Created {
                        unknown: false,
                        name_index: Some(0),
                        name: Some(String::from("None\0")),
                        object_index: 1,
                        object: String::from("Engine.Thing\0"),
                        class_id: 0,
                        class: String::from("Engine.Pawn\0"),
                        location: None,
                        rotation: None,
                    },
                },
                Replication {
                    actor: U32C {
                        limit: 1023,
                        value: 5
                    },
                    value: ReplicationValue::Destroyed,
                },
            ],
        }]
    );
}

#[test]
fn replay_with_trailing_bytes_leaves_them_unread() {
    let mut bytes = replay_bytes();
    let total = bytes.len();
    bytes.push(0xaa);
    let mut get = Get::new(bytes);
    assert!(get.get_replay().is_ok());
    assert_eq!(get.index(), total);
    assert_eq!(get.len(), total + 1);
}

#[test]
fn replay_with_a_flipped_header_byte_fails_the_checksum() {
    let good = replay_bytes();
    let header = header_bytes(1);
    for at in [8, 9, 8 + header.len() - 1] {
        let mut bytes = good.clone();
        bytes[at] ^= 0x40;
        let mut get = Get::new(bytes.clone());
        assert_eq!(
            get.get_replay().err(),
            Some(GetError::ChecksumMismatch {
                expected: crc_32(&header),
                actual: crc_32(&bytes[8..8 + header.len()]),
            })
        );
    }
}

#[test]
fn replay_with_a_flipped_content_byte_fails_the_checksum() {
    let good = replay_bytes();
    let start = 8 + header_bytes(1).len() + 8;
    let content = content_bytes(&stream_bytes());
    let mut bytes = good.clone();
    bytes[start + 20] ^= 1;
    let mut get = Get::new(bytes.clone());
    assert_eq!(
        get.get_replay().err(),
        Some(GetError::ChecksumMismatch {
            expected: crc_32(&content),
            actual: crc_32(&bytes[start..]),
        })
    );
}

#[test]
fn replay_with_a_wrong_stored_checksum_fails() {
    let mut bytes = replay_bytes();
    bytes[4] ^= 1;
    let header = header_bytes(1);
    let mut get = Get::new(bytes);
    assert_eq!(
        get.get_replay().err(),
        Some(GetError::ChecksumMismatch {
            expected: crc_32(&header) ^ 1,
            actual: crc_32(&header),
        })
    );
}

#[test]
fn replay_cut_short_fails() {
    let bytes = replay_bytes();
    let total = bytes.len();
    let mut get = Get::new(bytes[..total - 1].to_vec());
    assert_eq!(
        get.get_replay().err(),
        Some(GetError::IndexOutOfBounds {
            index: total,
            len: total - 1
        })
    );
    let mut get = Get::new(vec![]);
    assert_eq!(
        get.get_replay().err(),
        Some(GetError::IndexOutOfBounds { index: 1, len: 0 })
    );
}

#[test]
fn frame_stream_failure_is_reported_from_the_content() {
    let good = stream_bytes();
    let mut short = good.clone();
    short.truncate(8);
    let bytes = join(&[
        section_bytes(&header_bytes(1)),
        section_bytes(&content_bytes(&short)),
    ]);
    let mut get = Get::new(bytes);
    assert_eq!(
        get.get_replay().err(),
        Some(GetError::BitGet(BitGetError::IndexOutOfBounds {
            index: 8,
            len: 8
        }))
    );
    let bytes = join(&[
        section_bytes(&header_bytes(2)),
        section_bytes(&content_bytes(&good)),
    ]);
    let mut get = Get::new(bytes);
    assert_eq!(
        get.get_replay().err(),
        Some(GetError::BitGet(BitGetError::IndexOutOfBounds {
            index: good.len(),
            len: good.len()
        }))
    );
}

#[test]
fn frames_decode_from_their_own_bytes() {
    let header = {
        let mut get = Get::new(header_bytes(1));
        get.get_header().unwrap()
    };
    let context = Context::new(
        &header,
        &list(vec![text("None\0")]),
        &list(vec![text("Engine.Default\0"), text("Engine.Thing\0")]),
        &list(vec![Class {
            name: text("Engine.Pawn\0"),
            id: 0,
        }]),
        &list(vec![]),
    );
    let frames = Get::get_frames(stream_bytes(), &context).unwrap();
    assert_eq!(frames.len(), 1);
    assert_eq!(frames[0].replications.len(), 2);
    assert_eq!(
        Get::get_frames(vec![], &context),
        Err(GetError::BitGet(BitGetError::IndexOutOfBounds {
            index: 0,
            len: 0
        }))
    );
}

#[test]
fn header_section_and_content_section_are_read_apart() {
    let bytes = replay_bytes();
    let header_size = header_bytes(1).len();
    let mut get = Get::new(bytes);
    let header = get.get_header_section().unwrap();
    assert_eq!(get.index(), 8 + header_size);
    assert_eq!(header.size as usize, header_size);
    let content = get.get_content_section(&header.value).unwrap();
    assert_eq!(get.index(), get.len());
    assert_eq!(content.value.frames.len(), 1);
}

#[test]
fn content_without_frames_reads_no_stream() {
    let header = {
        let mut get = Get::new(header_bytes(0));
        get.get_header().unwrap()
    };
    let bytes = content_bytes(&[]);
    let total = bytes.len();
    let mut get = Get::new(bytes);
    let content = get.get_content(&header).unwrap();
    assert_eq!(get.index(), total);
    assert_eq!(content.size, 0);
    assert!(content.frames.is_empty());
}
