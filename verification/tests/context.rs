use aftershock::container::Cache;
use aftershock::container::Class;
use aftershock::container::Dictionary;
use aftershock::container::Header;
use aftershock::container::List;
use aftershock::container::Object;
use aftershock::container::Property;
use aftershock::container::PropertyValue;
use aftershock::container::Text;
use aftershock::container::Version;
use aftershock::context::get_attributes;
use aftershock::context::ClassAttributes;
use aftershock::context::Context;
use aftershock::context::CLASSES_WITH_LOCATION;
use aftershock::context::CLASSES_WITH_ROTATION;
use aftershock::context::MAX_CHANNELS_DEFAULT;

fn text(s: &str) -> Text {
    Text {
        size: s.len() as i32,
        value: String::from(s),
    }
}

fn list<T>(value: Vec<T>) -> List<T> {
    List {
        size: value.len() as u32,
        value,
    }
}

fn int_property(x: u32) -> Property {
    Property {
        label: text("IntProperty\0"),
        size: 4,
        value: PropertyValue::Int(x),
    }
}

fn header(version: Version, properties: Vec<(Text, Property)>) -> Header {
    Header {
        version,
        label: text("TAGame.Replay_Soccar_TA\0"),
        properties: Dictionary {
            value: properties,
            last: text("None\0"),
        },
    }
}

fn old_version() -> Version {
    Version {
        major: 868,
        minor: 12,
        patch: None,
    }
}

fn cache(class: u32, parent: u32, index: u32, objects: Vec<(u32, u32)>) -> Cache {
    Cache {
        class,
        parent,
        index,
        objects: list(
            objects
                .into_iter()
                .map(|(index, id)| Object { index, id })
                .collect(),
        ),
    }
}

fn entries(attributes: &ClassAttributes, upto: u32) -> Vec<(u32, u32)> {
    let mut found = Vec::new();
    for stream in 0..=upto {
        if let Some(object) = attributes.get(stream) {
            found.push((stream, object));
        }
    }
    found
}

#[test]
fn class_attributes_start_empty() {
    let attributes = ClassAttributes::new();
    assert_eq!(attributes.limit(), 0);
    assert_eq!(attributes.get(0), None);
    assert_eq!(attributes.get(7), None);
}

#[test]
fn class_attributes_keep_the_last_object_of_a_stream() {
    let attributes = ClassAttributes::new().with(3, 30).with(1, 10).with(3, 31);
    assert_eq!(attributes.get(3), Some(31));
    assert_eq!(attributes.get(1), Some(10));
    assert_eq!(attributes.get(2), None);
    assert_eq!(attributes.limit(), 3);
    let attributes = attributes.with(9, 90);
    assert_eq!(attributes.limit(), 9);
    assert_eq!(entries(&attributes, 20), vec![(1, 10), (3, 31), (9, 90)]);
}

#[test]
fn class_attributes_with_only_stream_zero_have_limit_zero() {
    let attributes = ClassAttributes::new().with(0, 5);
    assert_eq!(attributes.limit(), 0);
    assert_eq!(attributes.get(0), Some(5));
}

#[test]
fn adopted_attributes_do_not_override() {
    let parent = ClassAttributes::new().with(0, 100).with(1, 101).with(8, 108);
    let child = ClassAttributes::new().with(1, 200).with(5, 201);
    let merged = child.adopt(&parent);
    assert_eq!(
        entries(&merged, 20),
        vec![(0, 100), (1, 200), (5, 201), (8, 108)]
    );
    assert_eq!(merged.limit(), 8);
    assert_eq!(entries(&parent, 20), vec![(0, 100), (1, 101), (8, 108)]);
    let alone = ClassAttributes::new().adopt(&ClassAttributes::new());
    assert_eq!(entries(&alone, 20), vec![]);
    assert_eq!(alone.limit(), 0);
}

#[test]
fn attributes_accumulate_along_the_parent_chain() {
    let caches = list(vec![
        cache(10, 0, 1, vec![(100, 0), (101, 1)]),
        cache(20, 1, 2, vec![(200, 1), (201, 5)]),
        cache(30, 2, 3, vec![(300, 6)]),
    ]);
    let attributes = get_attributes(&caches);
    assert_eq!(attributes.len(), 3);
    assert_eq!(entries(&attributes[&10], 20), vec![(0, 100), (1, 101)]);
    assert_eq!(
        entries(&attributes[&20], 20),
        vec![(0, 100), (1, 200), (5, 201)]
    );
    assert_eq!(
        entries(&attributes[&30], 20),
        vec![(0, 100), (1, 200), (5, 201), (6, 300)]
    );
    assert_eq!(attributes[&10].limit(), 1);
    assert_eq!(attributes[&20].limit(), 5);
    assert_eq!(attributes[&30].limit(), 6);
}

#[test]
fn parent_is_the_most_recent_class_at_or_before_the_link() {
    let caches = list(vec![
        cache(10, 0, 1, vec![(100, 0)]),
        cache(20, 1, 2, vec![(200, 1)]),
        cache(30, 7, 5, vec![(300, 2)]),
        cache(40, 0, 9, vec![(400, 3)]),
        cache(50, 1, 9, vec![(500, 4)]),
        cache(60, 9, 1, vec![(600, 5)]),
    ]);
    let attributes = get_attributes(&caches);
    assert_eq!(
        entries(&attributes[&30], 20),
        vec![(0, 100), (1, 200), (2, 300)]
    );
    assert_eq!(entries(&attributes[&40], 20), vec![(3, 400)]);
    assert_eq!(entries(&attributes[&50], 20), vec![(0, 100), (4, 500)]);
    assert_eq!(entries(&attributes[&60], 20), vec![(0, 100), (4, 500), (5, 600)]);
}

#[test]
fn own_attributes_keep_the_last_of_a_duplicate() {
    let caches = list(vec![cache(10, 0, 1, vec![(100, 4), (101, 4), (102, 2)])]);
    let attributes = get_attributes(&caches);
    assert_eq!(entries(&attributes[&10], 20), vec![(2, 102), (4, 101)]);
}

#[test]
fn a_class_that_comes_twice_is_replaced() {
    let caches = list(vec![
        cache(10, 0, 1, vec![(100, 0)]),
        cache(10, 0, 2, vec![(101, 1)]),
        cache(20, 1, 3, vec![]),
    ]);
    let attributes = get_attributes(&caches);
    assert_eq!(attributes.len(), 2);
    assert_eq!(entries(&attributes[&10], 20), vec![(1, 101)]);
    assert_eq!(entries(&attributes[&20], 20), vec![(1, 101)]);
}

#[test]
fn no_caches_give_no_attributes() {
    let attributes = get_attributes(&list(vec![]));
    assert!(attributes.is_empty());
}

#[test]
fn num_frames_and_max_channels_come_from_the_header() {
    let h = header(
        old_version(),
        vec![
            (text("Other\0"), int_property(1)),
            (text("NumFrames\0"), int_property(42)),
            (text("MaxChannels\0"), int_property(511)),
            (text("NumFrames\0"), int_property(43)),
        ],
    );
    assert_eq!(Context::get_num_frames(&h), 42);
    assert_eq!(Context::get_max_channels(&h), 511);
}

#[test]
fn num_frames_and_max_channels_have_defaults() {
    assert_eq!(MAX_CHANNELS_DEFAULT, 1023);
    let h = header(old_version(), vec![]);
    assert_eq!(Context::get_num_frames(&h), 0);
    assert_eq!(Context::get_max_channels(&h), 1023);
    let not_an_int = Property {
        label: text("QWordProperty\0"),
        size: 8,
        value: PropertyValue::QWord(9),
    };
    let also_not = Property {
        label: text("QWordProperty\0"),
        size: 8,
        value: PropertyValue::QWord(9),
    };
    let h = header(
        old_version(),
        vec![
            (text("NumFrames\0"), not_an_int),
            (text("NumFrames\0"), int_property(5)),
            (text("MaxChannels\0"), also_not),
            (text("NumFrames"), int_property(6)),
        ],
    );
    assert_eq!(Context::get_num_frames(&h), 0);
    assert_eq!(Context::get_max_channels(&h), 1023);
}

#[test]
fn version_triple_has_zero_for_a_missing_patch() {
    assert_eq!(
        Context::get_version(&header(old_version(), vec![])),
        (868, 12, 0)
    );
    let newer = Version {
        major: 868,
        minor: 20,
        patch: Some(3),
    };
    assert_eq!(Context::get_version(&header(newer, vec![])), (868, 20, 3));
}

#[test]
fn tables_keep_file_order() {
    let names = list(vec![text("b\0"), text("a\0")]);
    assert_eq!(
        Context::get_names(&names),
        vec![String::from("b\0"), String::from("a\0")]
    );
    assert_eq!(
        Context::get_objects(&names),
        vec![String::from("b\0"), String::from("a\0")]
    );
    let classes = list(vec![
        Class {
            name: text("Z\0"),
            id: 9,
        },
        Class {
            name: text("Y\0"),
            id: 2,
        },
    ]);
    assert_eq!(
        Context::get_classes(&classes),
        vec![(9, String::from("Z\0")), (2, String::from("Y\0"))]
    );
}

#[test]
fn context_gathers_everything() {
    let h = header(
        Version {
            major: 868,
            minor: 20,
            patch: Some(1),
        },
        vec![(text("NumFrames\0"), int_property(2))],
    );
    let context = Context::new(
        &h,
        &list(vec![text("n\0")]),
        &list(vec![text("o\0"), text("p\0")]),
        &list(vec![Class {
            name: text("C\0"),
            id: 0,
        }]),
        &list(vec![cache(0, 0, 0, vec![(1, 3)])]),
    );
    assert_eq!(context.num_frames, 2);
    assert_eq!(context.max_channels, 1023);
    assert_eq!(context.version, (868, 20, 1));
    assert_eq!(context.names, vec![String::from("n\0")]);
    assert_eq!(context.objects, vec![String::from("o\0"), String::from("p\0")]);
    assert_eq!(context.classes, vec![(0, String::from("C\0"))]);
    assert_eq!(entries(&context.attributes[&0], 10), vec![(3, 1)]);
}

#[test]
fn find_class_picks_the_greatest_id_below_the_bound() {
    let h = header(old_version(), vec![]);
    let classes = list(vec![
        Class {
            name: text("five\0"),
            id: 5,
        },
        Class {
            name: text("two\0"),
            id: 2,
        },
        Class {
            name: text("nine\0"),
            id: 9,
        },
        Class {
            name: text("five again\0"),
            id: 5,
        },
    ]);
    let context = Context::new(&h, &list(vec![]), &list(vec![]), &classes, &list(vec![]));
    assert_eq!(context.find_class(0), None);
    assert_eq!(context.find_class(2), None);
    assert_eq!(context.find_class(3), Some(1));
    assert_eq!(context.find_class(5), Some(1));
    assert_eq!(context.find_class(6), Some(3));
    assert_eq!(context.find_class(9), Some(3));
    assert_eq!(context.find_class(10), Some(2));
    assert_eq!(context.find_class(u32::MAX), Some(2));
    let empty = Context::new(
        &h,
        &list(vec![]),
        &list(vec![]),
        &list(vec![]),
        &list(vec![]),
    );
    assert_eq!(empty.find_class(u32::MAX), None);
}

#[test]
fn location_and_rotation_gates_match_exact_names() {
    assert_eq!(CLASSES_WITH_LOCATION.len(), 28);
    assert_eq!(CLASSES_WITH_ROTATION.len(), 4);
    for name in CLASSES_WITH_LOCATION.iter() {
        assert!(Context::has_location(name));
        assert!(name.ends_with('\0'));
        assert!(!Context::has_location(&name[..name.len() - 1]));
    }
    for name in CLASSES_WITH_ROTATION.iter() {
        assert!(Context::has_rotation(name));
        assert!(Context::has_location(name));
        assert!(!Context::has_rotation(&name[..name.len() - 1]));
    }
    assert_eq!(
        CLASSES_WITH_ROTATION,
        [
            "TAGame.Ball_Breakout_TA\0",
            "TAGame.Ball_TA\0",
            "TAGame.Car_Season_TA\0",
            "TAGame.Car_TA\0",
        ]
    );
    assert!(Context::has_location("TAGame.Ball_TA\0"));
    assert!(Context::has_rotation("TAGame.Ball_TA\0"));
    assert!(Context::has_location("TAGame.CarComponent_Boost_TA\0"));
    assert!(!Context::has_rotation("TAGame.CarComponent_Boost_TA\0"));
    assert!(Context::has_location("TAGame.PRI_TA\0"));
    assert!(!Context::has_rotation("TAGame.PRI_TA\0"));
    assert!(Context::has_location("TAGame.Team_Soccar_TA\0"));
    assert!(Context::has_location("TAGame.Ball_Breakout_TA\0"));
    assert!(!Context::has_location("TAGame.Ball_TA"));
    assert!(!Context::has_location("tagame.ball_ta\0"));
    assert!(!Context::has_location("Engine.Pawn\0"));
    assert!(!Context::has_rotation("Engine.Pawn\0"));
    assert!(!Context::has_location(""));
}
