use aftershock::container::Cache;
use aftershock::container::Class;
use aftershock::container::Dictionary;
use aftershock::container::Header;
use aftershock::container::Keyframe;
use aftershock::container::List;
use aftershock::container::Mark;
use aftershock::container::Message;
use aftershock::container::Object;
use aftershock::container::get_property_kind;
use aftershock::container::Property;
use aftershock::container::PropertyKind;
use aftershock::container::PropertyValue;
use aftershock::container::Text;
use aftershock::container::Version;
use aftershock::container::TEXT_SIZE_MISWRITTEN;
use aftershock::Get;
use aftershock::GetError;

fn u32_le(x: u32) -> Vec<u8> {
    x.to_le_bytes().to_vec()
}

fn u64_le(x: u64) -> Vec<u8> {
    x.to_le_bytes().to_vec()
}

fn text_bytes(s: &str) -> Vec<u8> {
    let mut bytes = (s.len() as i32).to_le_bytes().to_vec();
    bytes.extend_from_slice(s.as_bytes());
    bytes
}

fn text(s: &str) -> Text {
    Text {
        size: s.len() as i32,
        value: String::from(s),
    }
}

fn join(parts: &[Vec<u8>]) -> Vec<u8> {
    let mut bytes = Vec::new();
    for part in parts {
        bytes.extend_from_slice(part);
    }
    bytes
}

fn property_bytes(kind: &str, size: u64, value: Vec<u8>) -> Vec<u8> {
    join(&[text_bytes(kind), u64_le(size), value])
}

#[test]
fn text_windows_1252() {
    let mut get = Get::new(vec![0x05, 0x00, 0x00, 0x00, b'x', b'f', b'o', b'o', 0x00]);
    let text = get.get_text().unwrap();
    assert_eq!(text.size, 5);
    assert_eq!(text.value, "xfoo\0");
    assert_eq!(text.value.chars().count(), 5);
    assert_eq!(get.index(), 9);
}

#[test]
fn text_utf_16() {
    let mut get = Get::new(vec![0xfe, 0xff, 0xff, 0xff, 0x41, 0x00, 0x00, 0x00]);
    let text = get.get_text().unwrap();
    assert_eq!(text.size, -2);
    assert_eq!(text.value, "A\0");
    assert_eq!(text.value.encode_utf16().count(), 2);
    assert_eq!(get.index(), 8);
}

#[test]
fn text_utf_16_counts_units_not_characters() {
    let mut get = Get::new(vec![
        0xfd, 0xff, 0xff, 0xff, 0x3d, 0xd8, 0x00, 0xde, 0x00, 0x00,
    ]);
    let text = get.get_text().unwrap();
    assert_eq!(text.size, -3);
    assert_eq!(text.value, "\u{1f600}\0");
    assert_eq!(text.value.chars().count(), 2);
    assert_eq!(text.value.encode_utf16().count(), 3);
    assert_eq!(get.index(), 10);
}

#[test]
fn text_of_size_zero_is_empty() {
    let mut get = Get::new(vec![0, 0, 0, 0, 9]);
    assert_eq!(
        get.get_text(),
        Ok(Text {
            size: 0,
            value: String::new()
        })
    );
    assert_eq!(get.index(), 4);
}

#[test]
fn text_with_the_miswritten_size_has_eight_bytes() {
    assert_eq!(TEXT_SIZE_MISWRITTEN, 0x0500_0000);
    let mut get = Get::new(vec![
        0x00, 0x00, 0x00, 0x05, b'N', b'o', b'n', b'e', 0, 0, 0, 0, 7,
    ]);
    assert_eq!(
        get.get_text(),
        Ok(Text {
            size: 8,
            value: String::from("None\0\0\0\0")
        })
    );
    assert_eq!(get.index(), 12);
}

#[test]
fn text_cut_short_fails() {
    let mut get = Get::new(vec![0x05, 0x00, 0x00, 0x00, b'x', b'f']);
    assert_eq!(
        get.get_text(),
        Err(GetError::IndexOutOfBounds { index: 9, len: 6 })
    );
    let mut get = Get::new(vec![0xfe, 0xff, 0xff, 0xff, 0x41, 0x00, 0x00]);
    assert_eq!(
        get.get_text(),
        Err(GetError::IndexOutOfBounds { index: 8, len: 7 })
    );
    let mut get = Get::new(vec![0x05, 0x00]);
    assert_eq!(
        get.get_text(),
        Err(GetError::IndexOutOfBounds { index: 3, len: 2 })
    );
}

#[test]
fn text_of_the_most_negative_size_fails_without_reading() {
    let mut get = Get::new(vec![0x00, 0x00, 0x00, 0x80, 1, 2, 3]);
    let wanted: u64 = 4 + (1u64 << 32);
    let index = if wanted > usize::MAX as u64 {
        usize::MAX
    } else {
        wanted as usize
    };
    assert_eq!(
        get.get_text(),
        Err(GetError::IndexOutOfBounds { index, len: 7 })
    );
}

#[test]
fn text_with_invalid_windows_1252_fails() {
    let mut get = Get::new(vec![0x02, 0x00, 0x00, 0x00, 0x41, 0x81]);
    assert_eq!(
        get.get_text(),
        Err(GetError::InvalidWindows1252(vec![0x41, 0x81]))
    );
}

#[test]
fn text_with_invalid_utf_16_fails() {
    let mut get = Get::new(vec![0xfe, 0xff, 0xff, 0xff, 0x00, 0xd8, 0x41, 0x00]);
    assert_eq!(
        get.get_text(),
        Err(GetError::InvalidUtf16(vec![0x00, 0xd8, 0x41, 0x00]))
    );
}

#[test]
fn list_reads_its_count_then_its_values() {
    let bytes = join(&[u32_le(2), text_bytes("a\0"), text_bytes("bc\0"), vec![9]]);
    let mut get = Get::new(bytes);
    let list = get.get_list::<Text>().unwrap();
    assert_eq!(
        list,
        List {
            size: 2,
            value: vec![text("a\0"), text("bc\0")]
        }
    );
    assert_eq!(get.index(), 4 + 6 + 7);
}

#[test]
fn list_of_nothing_is_empty() {
    let mut get = Get::new(u32_le(0));
    assert_eq!(
        get.get_list::<Object>(),
        Ok(List {
            size: 0,
            value: vec![]
        })
    );
    assert_eq!(get.index(), 4);
}

#[test]
fn list_cut_short_fails() {
    let bytes = join(&[u32_le(3), u32_le(1), u32_le(2), u32_le(3)]);
    let mut get = Get::new(bytes);
    assert_eq!(
        get.get_list::<Object>(),
        Err(GetError::IndexOutOfBounds { index: 17, len: 16 })
    );
    let mut get = Get::new(vec![1, 0]);
    assert_eq!(
        get.get_list::<Object>(),
        Err(GetError::IndexOutOfBounds { index: 3, len: 2 })
    );
}

#[test]
fn dictionary_terminator() {
    let mut get = Get::new(text_bytes("None\0"));
    let dictionary = get.get_dictionary().unwrap();
    assert!(dictionary.value.is_empty());
    assert_eq!(dictionary.last.value, "None\0");
    assert_eq!(dictionary.last, text("None\0"));
    assert_eq!(get.index(), 9);
}

#[test]
fn dictionary_padded_terminator() {
    let mut get = Get::new(text_bytes("\0\0\0None\0"));
    let dictionary = get.get_dictionary().unwrap();
    assert!(dictionary.value.is_empty());
    assert_eq!(dictionary.last, text("\0\0\0None\0"));
}

#[test]
fn dictionary_keeps_insertion_order() {
    let bytes = join(&[
        text_bytes("b\0"),
        property_bytes("IntProperty\0", 4, u32_le(7)),
        text_bytes("a\0"),
        property_bytes("QWordProperty\0", 8, u64_le(0x0102_0304_0506_0708)),
        text_bytes("b\0"),
        property_bytes("BoolProperty\0", 0, vec![1]),
        text_bytes("None\0"),
    ]);
    let total = bytes.len();
    let mut get = Get::new(bytes);
    let dictionary = get.get_dictionary().unwrap();
    assert_eq!(
        dictionary,
        Dictionary {
            value: vec![
                (
                    text("b\0"),
                    Property {
                        label: text("IntProperty\0"),
                        size: 4,
                        value: PropertyValue::Int(7)
                    }
                ),
                (
                    text("a\0"),
                    Property {
                        label: text("QWordProperty\0"),
                        size: 8,
                        value: PropertyValue::QWord(0x0102_0304_0506_0708)
                    }
                ),
                (
                    text("b\0"),
                    Property {
                        label: text("BoolProperty\0"),
                        size: 0,
                        value: PropertyValue::Bool(1)
                    }
                ),
            ],
            last: text("None\0"),
        }
    );
    assert_eq!(get.index(), total);
}

#[test]
fn dictionary_without_terminator_fails() {
    let bytes = join(&[
        text_bytes("b\0"),
        property_bytes("IntProperty\0", 4, u32_le(7)),
    ]);
    let total = bytes.len();
    let mut get = Get::new(bytes);
    assert_eq!(
        get.get_dictionary(),
        Err(GetError::IndexOutOfBounds {
            index: total + 1,
            len: total
        })
    );
}

#[test]
fn property_of_each_kind() {
    let cases: Vec<(Vec<u8>, PropertyValue, &str)> = vec![
        (vec![2], PropertyValue::Bool(2), "BoolProperty\0"),
        (
            u32_le(0x3f80_0000),
            PropertyValue::Float(0x3f80_0000),
            "FloatProperty\0",
        ),
        (
            u32_le(0xffff_ffff),
            PropertyValue::Int(0xffff_ffff),
            "IntProperty\0",
        ),
        (
            text_bytes("n\0"),
            PropertyValue::Name(text("n\0")),
            "NameProperty\0",
        ),
        (u64_le(9), PropertyValue::QWord(9), "QWordProperty\0"),
        (
            text_bytes("s\0"),
            PropertyValue::Str(text("s\0")),
            "StrProperty\0",
        ),
        (
            join(&[text_bytes("Kind\0"), text_bytes("Value\0")]),
            PropertyValue::Byte {
                key: text("Kind\0"),
                value: Some(text("Value\0")),
            },
            "ByteProperty\0",
        ),
        (
            join(&[text_bytes("OnlinePlatform_Steam\0")]),
            PropertyValue::Byte {
                key: text("OnlinePlatform_Steam\0"),
                value: None,
            },
            "ByteProperty\0",
        ),
    ];
    for (body, value, kind) in cases {
        let bytes = property_bytes(kind, 0x0102, body);
        let total = bytes.len();
        let mut get = Get::new(bytes);
        assert_eq!(
            get.get_property(),
            Ok(Property {
                label: text(kind),
                size: 0x0102,
                value
            })
        );
        assert_eq!(get.index(), total);
    }
}

#[test]
fn property_value_is_chosen_by_the_label() {
    let mut get = Get::new(u32_le(5));
    assert_eq!(
        get.get_property_value("IntProperty\0"),
        Ok(PropertyValue::Int(5))
    );
    let mut get = Get::new(u32_le(5));
    assert_eq!(
        get.get_property_value("BoolProperty\0"),
        Ok(PropertyValue::Bool(5))
    );
    assert_eq!(get.index(), 1);
    let mut get = Get::new(text_bytes("OnlinePlatform_Steam\0"));
    assert_eq!(
        get.get_property_value_byte(),
        Ok(PropertyValue::Byte {
            key: text("OnlinePlatform_Steam\0"),
            value: None
        })
    );
}

#[test]
fn property_of_an_array_of_dictionaries() {
    let inner = join(&[
        text_bytes("k\0"),
        property_bytes("IntProperty\0", 4, u32_le(1)),
        text_bytes("None\0"),
    ]);
    let body = join(&[u32_le(2), inner.clone(), text_bytes("None\0")]);
    let bytes = property_bytes("ArrayProperty\0", body.len() as u64, body.clone());
    let total = bytes.len();
    let mut get = Get::new(bytes);
    let first = Dictionary {
        value: vec![(
            text("k\0"),
            Property {
                label: text("IntProperty\0"),
                size: 4,
                value: PropertyValue::Int(1),
            },
        )],
        last: text("None\0"),
    };
    let second = Dictionary {
        value: vec![],
        last: text("None\0"),
    };
    assert_eq!(
        get.get_property(),
        Ok(Property {
            label: text("ArrayProperty\0"),
            size: body.len() as u64,
            value: PropertyValue::Array(List {
                size: 2,
                value: vec![first, second]
            }),
        })
    );
    assert_eq!(get.index(), total);
    let mut get = Get::new(body);
    assert!(matches!(
        get.get_property_value_array(),
        Ok(PropertyValue::Array(List { size: 2, .. }))
    ));
}

#[test]
fn property_arrays_nest() {
    let innermost = join(&[u32_le(1), text_bytes("None\0")]);
    let middle = join(&[
        u32_le(1),
        text_bytes("deep\0"),
        property_bytes("ArrayProperty\0", 0, innermost),
        text_bytes("None\0"),
    ]);
    let bytes = property_bytes("ArrayProperty\0", 0, middle);
    let total = bytes.len();
    let mut get = Get::new(bytes);
    let property = get.get_property().unwrap();
    assert_eq!(get.index(), total);
    match property.value {
        PropertyValue::Array(outer) => {
            assert_eq!(outer.size, 1);
            assert_eq!(outer.value.len(), 1);
            assert_eq!(outer.value[0].value.len(), 1);
            assert_eq!(outer.value[0].value[0].0, text("deep\0"));
            match &outer.value[0].value[0].1.value {
                PropertyValue::Array(inner) => {
                    assert_eq!(inner.size, 1);
                    assert_eq!(
                        inner.value,
                        vec![Dictionary {
                            value: vec![],
                            last: text("None\0")
                        }]
                    );
                }
                other => panic!("{:?}", other),
            }
        }
        other => panic!("{:?}", other),
    }
}

#[test]
fn property_of_an_unknown_kind_fails() {
    let mut get = Get::new(property_bytes("ObjectProperty\0", 4, u32_le(1)));
    assert_eq!(
        get.get_property(),
        Err(GetError::UnknownProperty(String::from("ObjectProperty\0")))
    );
    let mut get = Get::new(property_bytes("IntProperty", 4, u32_le(1)));
    assert_eq!(
        get.get_property(),
        Err(GetError::UnknownProperty(String::from("IntProperty")))
    );
    let mut get = Get::new(vec![]);
    assert_eq!(
        get.get_property_value(""),
        Err(GetError::UnknownProperty(String::new()))
    );
}

#[test]
fn version_has_a_patch_from_868_18_on() {
    let mut get = Get::new(join(&[u32_le(868), u32_le(17), u32_le(5)]));
    assert_eq!(
        get.get_version(),
        Ok(Version {
            major: 868,
            minor: 17,
            patch: None
        })
    );
    assert_eq!(get.index(), 8);
    let mut get = Get::new(join(&[u32_le(868), u32_le(18), u32_le(5)]));
    assert_eq!(
        get.get_version(),
        Ok(Version {
            major: 868,
            minor: 18,
            patch: Some(5)
        })
    );
    assert_eq!(get.index(), 12);
    let mut get = Get::new(join(&[u32_le(869), u32_le(0), u32_le(6)]));
    assert_eq!(
        get.get_version(),
        Ok(Version {
            major: 869,
            minor: 0,
            patch: Some(6)
        })
    );
    let mut get = Get::new(join(&[u32_le(867), u32_le(99), u32_le(6)]));
    assert_eq!(
        get.get_version(),
        Ok(Version {
            major: 867,
            minor: 99,
            patch: None
        })
    );
    let mut get = Get::new(join(&[u32_le(868), u32_le(18)]));
    assert_eq!(
        get.get_version(),
        Err(GetError::IndexOutOfBounds { index: 9, len: 8 })
    );
}

#[test]
fn header_is_version_label_and_properties() {
    let bytes = join(&[
        u32_le(868),
        u32_le(12),
        text_bytes("TAGame.Replay_Soccar_TA\0"),
        text_bytes("NumFrames\0"),
        property_bytes("IntProperty\0", 4, u32_le(3)),
        text_bytes("None\0"),
    ]);
    let total = bytes.len();
    let mut get = Get::new(bytes);
    assert_eq!(
        get.get_header(),
        Ok(Header {
            version: Version {
                major: 868,
                minor: 12,
                patch: None
            },
            label: text("TAGame.Replay_Soccar_TA\0"),
            properties: Dictionary {
                value: vec![(
                    text("NumFrames\0"),
                    Property {
                        label: text("IntProperty\0"),
                        size: 4,
                        value: PropertyValue::Int(3)
                    }
                )],
                last: text("None\0"),
            },
        })
    );
    assert_eq!(get.index(), total);
}

#[test]
fn records_of_the_content_section() {
    let mut get = Get::new(join(&[u32_le(0x4120_0000), u32_le(7), u32_le(99)]));
    assert_eq!(
        get.get_keyframe(),
        Ok(Keyframe {
            time: 0x4120_0000,
            frame: 7,
            offset: 99
        })
    );
    assert_eq!(f32::from_bits(0x4120_0000), 10.0);
    let mut get = Get::new(join(&[u32_le(3), text_bytes("l\0"), text_bytes("v\0")]));
    assert_eq!(
        get.get_message(),
        Ok(Message {
            frame: 3,
            label: text("l\0"),
            value: text("v\0")
        })
    );
    let mut get = Get::new(join(&[text_bytes("goal\0"), u32_le(4)]));
    assert_eq!(
        get.get_mark(),
        Ok(Mark {
            value: text("goal\0"),
            frame: 4
        })
    );
    let mut get = Get::new(join(&[text_bytes("Core.Object\0"), u32_le(5)]));
    assert_eq!(
        get.get_class(),
        Ok(Class {
            name: text("Core.Object\0"),
            id: 5
        })
    );
    let mut get = Get::new(join(&[u32_le(11), u32_le(22)]));
    assert_eq!(get.get_object(), Ok(Object { index: 11, id: 22 }));
    let mut get = Get::new(join(&[
        u32_le(1),
        u32_le(2),
        u32_le(3),
        u32_le(2),
        u32_le(11),
        u32_le(22),
        u32_le(33),
        u32_le(44),
    ]));
    assert_eq!(
        get.get_cache(),
        Ok(Cache {
            class: 1,
            parent: 2,
            index: 3,
            objects: List {
                size: 2,
                value: vec![Object { index: 11, id: 22 }, Object { index: 33, id: 44 }],
            },
        })
    );
    assert_eq!(get.index(), 32);
}

#[test]
fn property_kind_is_named_by_the_exact_label() {
    let kinds = [
        ("ArrayProperty\0", PropertyKind::Array),
        ("BoolProperty\0", PropertyKind::Bool),
        ("ByteProperty\0", PropertyKind::Byte),
        ("FloatProperty\0", PropertyKind::Float),
        ("IntProperty\0", PropertyKind::Int),
        ("NameProperty\0", PropertyKind::Name),
        ("QWordProperty\0", PropertyKind::QWord),
        ("StrProperty\0", PropertyKind::Str),
    ];
    for (label, kind) in kinds {
        assert_eq!(get_property_kind(label), Some(kind));
        assert_eq!(get_property_kind(&label[..label.len() - 1]), None);
        assert_eq!(get_property_kind(&label.to_lowercase()), None);
    }
    assert_eq!(get_property_kind(""), None);
    assert_eq!(get_property_kind("None\0"), None);
}

#[test]
fn property_body_is_read_by_kind() {
    let mut get = Get::new(u64_le(0x0807_0605_0403_0201));
    assert_eq!(
        get.get_property_body(PropertyKind::Bool),
        Ok(PropertyValue::Bool(1))
    );
    assert_eq!(
        get.get_property_value_bool(),
        Ok(PropertyValue::Bool(2))
    );
    assert_eq!(get.index(), 2);
    let mut get = Get::new(u64_le(0x0807_0605_0403_0201));
    assert_eq!(
        get.get_property_value_float(),
        Ok(PropertyValue::Float(0x0403_0201))
    );
    assert_eq!(
        get.get_property_value_int(),
        Ok(PropertyValue::Int(0x0807_0605))
    );
    let mut get = Get::new(u64_le(0x0807_0605_0403_0201));
    assert_eq!(
        get.get_property_value_qword(),
        Ok(PropertyValue::QWord(0x0807_0605_0403_0201))
    );
    let mut get = Get::new(join(&[text_bytes("a\0"), text_bytes("b\0")]));
    assert_eq!(
        get.get_property_value_name(),
        Ok(PropertyValue::Name(text("a\0")))
    );
    assert_eq!(
        get.get_property_value_str(),
        Ok(PropertyValue::Str(text("b\0")))
    );
    let mut get = Get::new(vec![]);
    assert_eq!(
        get.get_property_body(PropertyKind::QWord),
        Err(GetError::IndexOutOfBounds { index: 1, len: 0 })
    );
}

#[test]
fn option_reads_only_when_asked() {
    let mut get = Get::new(u32_le(7));
    assert_eq!(get.get_option::<u32>(false), Ok(None));
    assert_eq!(get.index(), 0);
    assert_eq!(get.get_option::<u32>(true), Ok(Some(7)));
    assert_eq!(get.index(), 4);
    assert_eq!(get.get_option::<u32>(false), Ok(None));
    assert_eq!(
        get.get_option::<u32>(true),
        Err(GetError::IndexOutOfBounds { index: 5, len: 4 })
    );
    let mut get = Get::new(text_bytes("t\0"));
    assert_eq!(get.get_option::<Text>(true), Ok(Some(text("t\0"))));
    let mut get = Get::new(vec![]);
    assert_eq!(get.get_option::<Text>(false), Ok(None));
}
