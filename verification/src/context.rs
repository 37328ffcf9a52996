//! What the frame stream is decoded against: the tables of the content
//! section, and the attributes of each class as they follow from the class
//! hierarchy.

use crate::codec::text_eq;
use crate::container::views;
use crate::container::Cache;
use crate::container::CacheView;
use crate::container::Class;
use crate::container::ClassView;
use crate::container::Header;
use crate::container::HeaderView;
use crate::container::List;
use crate::container::Object;
use crate::container::PropertyValue;
use crate::container::PropertyValueView;
use crate::container::PropertyView;
use crate::container::Text;
use crate::container::TextView;
use crate::container::Version;
use crate::convert::u32_usize;
use std::collections::HashMap;
use std::collections::VecDeque;
use vstd::prelude::*;

verus! {

broadcast use vstd::std_specs::hash::group_hash_axioms;

/// Whether `k` is the greatest key of `m`.
pub open spec fn is_max_key(m: Map<u32, u32>, k: u32) -> bool {
    m.contains_key(k) && forall|j: u32| m.contains_key(j) ==> j <= k
}

/// The greatest key of `m`, and zero where `m` has no key.
pub open spec fn max_key(m: Map<u32, u32>) -> u32 {
    if exists|k: u32| is_max_key(m, k) {
        choose|k: u32| is_max_key(m, k)
    } else {
        0
    }
}

/// The attributes of one class: for each stream id under which the class
/// sends an attribute, the place of the attribute's name in the object table.
pub struct ClassAttributes {
    table: HashMap<u32, u32>,
    streams: Vec<u32>,
    limit: u32,
}

impl View for ClassAttributes {
    type V = Map<u32, u32>;

    closed spec fn view(&self) -> Map<u32, u32> {
        self.table@
    }
}

impl ClassAttributes {
    #[verifier::type_invariant]
    spec fn listed(&self) -> bool {
        &&& forall|k: u32| self.table@.contains_key(k) ==> self.streams@.contains(k)
        &&& forall|k: u32| self.table@.contains_key(k) ==> k <= self.limit
        &&& self.table@.contains_key(self.limit) || (self.limit == 0 && self.table@
            == Map::<u32, u32>::empty())
    }

    /// The attributes of a class that sends none.
    pub fn new() -> (r: Self)
        ensures
            r@ == Map::<u32, u32>::empty(),
    {
        ClassAttributes { table: HashMap::new(), streams: Vec::new(), limit: 0 }
    }

    /// These attributes with `object` under `stream`, in place of what stood
    /// there.
    pub fn with(self, stream: u32, object: u32) -> (r: Self)
        ensures
            r@ == self@.insert(stream, object),
    {
        proof {
            use_type_invariant(&self);
        }
        let ClassAttributes { mut table, mut streams, limit } = self;
        let limit = if stream > limit {
            stream
        } else {
            limit
        };
        table.insert(stream, object);
        streams.push(stream);
        proof {
            let before = self.streams@;
            assert forall|k: u32| table@.contains_key(k) implies streams@.contains(k) by {
                if k == stream {
                    assert(streams@[before.len() as int] == stream);
                } else {
                    assert(before.contains(k));
                    let i = choose|i: int| 0 <= i < before.len() && before[i] == k;
                    assert(streams@[i] == k);
                }
            }
        }
        ClassAttributes { table, streams, limit }
    }

    /// These attributes, and those of `parent` under the stream ids that
    /// these leave free.
    pub fn adopt(self, parent: &ClassAttributes) -> (r: Self)
        ensures
            r@ == parent@.union_prefer_right(self@),
    {
        proof {
            use_type_invariant(&self);
            use_type_invariant(parent);
        }
        let mut merged = self;
        let mut i: usize = 0;
        while i < parent.streams.len()
            invariant
                i <= parent.streams@.len(),
                forall|k: u32| #[trigger]
                    parent.table@.contains_key(k) ==> parent.streams@.contains(k),
                forall|k: u32| #[trigger]
                    self@.contains_key(k) ==> merged@.contains_key(k) && merged@[k] == self@[k],
                forall|k: u32| #[trigger]
                    merged@.contains_key(k) ==> self@.contains_key(k) || (parent@.contains_key(k)
                        && merged@[k] == parent@[k]),
                forall|j: int|
                    0 <= j < i && parent@.contains_key(#[trigger] parent.streams@[j])
                        ==> merged@.contains_key(parent.streams@[j]),
            decreases parent.streams@.len() - i,
        {
            let stream = parent.streams[i];
            let ghost before = merged@;
            if merged.get(stream).is_none() {
                match parent.table.get(&stream) {
                    Some(object) => {
                        assert(parent@.contains_key(stream) && parent@[stream] == *object);
                        assert(!self@.contains_key(stream));
                        merged = merged.with(stream, *object);
                        assert(merged@ == before.insert(stream, *object));
                    },
                    None => {
                        assert(!parent@.contains_key(stream));
                    },
                }
            }
            proof {
                assert forall|k: u32| #[trigger] before.contains_key(k) implies merged@.contains_key(
                    k,
                ) && merged@[k] == before[k] by {}
                assert forall|j: int|
                    0 <= j < i + 1 && parent@.contains_key(
                        #[trigger] parent.streams@[j],
                    ) implies merged@.contains_key(parent.streams@[j]) by {
                    if j < i {
                        assert(before.contains_key(parent.streams@[j]));
                    }
                }
            }
            i += 1;
        }
        proof {
            let expected = parent@.union_prefer_right(self@);
            assert forall|k: u32| #[trigger] expected.contains_key(k) implies merged@.contains_key(
                k,
            ) by {
                if !self@.contains_key(k) {
                    assert(parent.table@.contains_key(k));
                    assert(parent.streams@.contains(k));
                    let j = choose|j: int| 0 <= j < parent.streams@.len() && parent.streams@[j] == k;
                    assert(merged@.contains_key(parent.streams@[j]));
                }
            }
            assert forall|k: u32| #[trigger] merged@.contains_key(k) implies expected.contains_key(
                k,
            ) && expected[k] == merged@[k] by {
                if self@.contains_key(k) {
                } else {
                    assert(parent@.contains_key(k));
                }
            }
            assert(merged@ =~= expected);
        }
        merged
    }

    /// The place in the object table of the attribute sent under `stream`.
    pub fn get(&self, stream: u32) -> (r: Option<u32>)
        ensures
            r == if self@.contains_key(stream) {
                Some(self@[stream])
            } else {
                None
            },
    {
        match self.table.get(&stream) {
            Some(object) => Some(*object),
            None => None,
        }
    }

    /// The greatest stream id of the class, and zero where it has none.
    pub fn limit(&self) -> (r: u32)
        ensures
            r == max_key(self@),
    {
        proof {
            use_type_invariant(self);
            if self.table@.contains_key(self.limit) {
                assert(is_max_key(self@, self.limit));
            }
        }
        self.limit
    }
}

/// The attributes that a class declares itself. Where two declarations
/// share a stream id, the later one stands.
pub open spec fn own_attributes(objects: Seq<Object>) -> Map<u32, u32>
    decreases objects.len(),
{
    if objects.len() == 0 {
        Map::empty()
    } else {
        own_attributes(objects.drop_last()).insert(objects.last().id, objects.last().index)
    }
}

/// The id of the first class in `recent` whose place in the hierarchy is
/// `parent`. An entry of `recent` is the place of a class and its id.
pub open spec fn first_exact(recent: Seq<(u32, u32)>, parent: u32) -> Option<u32>
    decreases recent.len(),
{
    if recent.len() == 0 {
        None
    } else if recent[0].0 == parent {
        Some(recent[0].1)
    } else {
        first_exact(recent.skip(1), parent)
    }
}

/// The id of the first class in `recent` whose place in the hierarchy is
/// `parent` or before it.
pub open spec fn first_at_most(recent: Seq<(u32, u32)>, parent: u32) -> Option<u32>
    decreases recent.len(),
{
    if recent.len() == 0 {
        None
    } else if recent[0].0 <= parent {
        Some(recent[0].1)
    } else {
        first_at_most(recent.skip(1), parent)
    }
}

/// The id of the class that a class with the parent link `parent` inherits
/// from: the most recent class at that very place, else the most recent one
/// at or before it.
pub open spec fn parent_class(recent: Seq<(u32, u32)>, parent: u32) -> Option<u32> {
    match first_exact(recent, parent) {
        Some(id) => Some(id),
        None => first_at_most(recent, parent),
    }
}

/// What the resolver knows after some caches: the classes seen, most recent
/// first, each by its place in the hierarchy and its id; and the attributes
/// of each class id.
pub struct Resolved {
    pub recent: Seq<(u32, u32)>,
    pub tables: Map<u32, Map<u32, u32>>,
}

/// The attributes of the class of `cache`: its own, and those of its parent
/// under the stream ids that its own leave free.
pub open spec fn cache_attributes(known: Resolved, cache: CacheView) -> Map<u32, u32> {
    let own = own_attributes(cache.objects.value);
    match parent_class(known.recent, cache.parent) {
        Some(id) => if known.tables.contains_key(id) {
            known.tables[id].union_prefer_right(own)
        } else {
            own
        },
        None => own,
    }
}

/// What the resolver knows after one more cache.
pub open spec fn resolve_step(known: Resolved, cache: CacheView) -> Resolved {
    Resolved {
        recent: seq![(cache.index, cache.class)] + known.recent,
        tables: known.tables.insert(cache.class, cache_attributes(known, cache)),
    }
}

/// What the resolver knows after `caches`, taken in file order.
pub open spec fn resolved(caches: Seq<CacheView>) -> Resolved
    decreases caches.len(),
{
    if caches.len() == 0 {
        Resolved { recent: Seq::empty(), tables: Map::empty() }
    } else {
        resolve_step(resolved(caches.drop_last()), caches.last())
    }
}

/// The models of the attribute tables, class by class.
pub open spec fn table_views(tables: Map<u32, ClassAttributes>) -> Map<u32, Map<u32, u32>> {
    tables.map_values(|t: ClassAttributes| t@)
}

/// A class has every stream id of the class that it inherits from, and
/// under each the parent's attribute unless it declares its own.
pub proof fn lemma_cache_attributes_inherit(known: Resolved, cache: CacheView, stream: u32)
    requires
        parent_class(known.recent, cache.parent) matches Some(id) && known.tables.contains_key(id)
            && known.tables[id].contains_key(stream),
    ensures
        cache_attributes(known, cache).contains_key(stream),
        !own_attributes(cache.objects.value).contains_key(stream) ==> cache_attributes(
            known,
            cache,
        )[stream] == known.tables[parent_class(known.recent, cache.parent)->0][stream],
{
}

/// Finds the class that a class with the parent link `parent` inherits from.
fn find_parent(recent: &VecDeque<(u32, u32)>, parent: u32) -> (r: Option<u32>)
    ensures
        r == parent_class(recent@, parent),
{
    let mut i: usize = 0;
    assert(recent@.skip(0) =~= recent@);
    while i < recent.len()
        invariant
            i <= recent@.len(),
            first_exact(recent@, parent) == first_exact(recent@.skip(i as int), parent),
        decreases recent@.len() - i,
    {
        let entry = recent[i];
        if entry.0 == parent {
            return Some(entry.1);
        }
        assert(recent@.skip(i as int).skip(1) =~= recent@.skip(i + 1));
        i += 1;
    }
    let mut i: usize = 0;
    while i < recent.len()
        invariant
            i <= recent@.len(),
            first_exact(recent@, parent) is None,
            first_at_most(recent@, parent) == first_at_most(recent@.skip(i as int), parent),
        decreases recent@.len() - i,
    {
        let entry = recent[i];
        if entry.0 <= parent {
            return Some(entry.1);
        }
        assert(recent@.skip(i as int).skip(1) =~= recent@.skip(i + 1));
        i += 1;
    }
    None
}

/// Collects the attributes that a class declares itself.
fn get_own_attributes(objects: &List<Object>) -> (r: ClassAttributes)
    ensures
        r@ == own_attributes(objects.value@),
{
    let mut attributes = ClassAttributes::new();
    let mut i: usize = 0;
    while i < objects.value.len()
        invariant
            i <= objects.value@.len(),
            attributes@ == own_attributes(objects.value@.take(i as int)),
        decreases objects.value@.len() - i,
    {
        let object = objects.value[i];
        proof {
            let next = objects.value@.take(i + 1);
            assert(next.drop_last() =~= objects.value@.take(i as int));
            assert(next.last() == object);
        }
        attributes = attributes.with(object.id, object.index);
        i += 1;
    }
    assert(objects.value@.take(i as int) =~= objects.value@);
    attributes
}

/// Resolves the attributes of every class from the caches, in file order.
pub fn get_attributes(caches: &List<Cache>) -> (r: HashMap<u32, ClassAttributes>)
    ensures
        table_views(r@) == resolved(views(caches.value@)).tables,
{
    let mut class_index_to_class_id: VecDeque<(u32, u32)> = VecDeque::new();
    let mut class_id_to_attributes: HashMap<u32, ClassAttributes> = HashMap::new();
    let ghost all = views(caches.value@);
    let mut i: usize = 0;
    proof {
        assert(table_views(class_id_to_attributes@) =~= Map::<u32, Map<u32, u32>>::empty());
        assert(all.take(0) =~= Seq::<CacheView>::empty());
    }
    while i < caches.value.len()
        invariant
            i <= caches.value@.len(),
            all == views(caches.value@),
            class_index_to_class_id@ == resolved(all.take(i as int)).recent,
            table_views(class_id_to_attributes@) == resolved(all.take(i as int)).tables,
        decreases caches.value@.len() - i,
    {
        let cache = &caches.value[i];
        let ghost known = resolved(all.take(i as int));
        let ghost before = class_id_to_attributes@;
        proof {
            let next = all.take(i + 1);
            assert(next.drop_last() =~= all.take(i as int));
            assert(next.last() == cache@);
            assert(views(cache.objects.value@) =~= cache.objects.value@);
        }
        let mut attributes = get_own_attributes(&cache.objects);
        match find_parent(&class_index_to_class_id, cache.parent) {
            Some(parent_class_id) => {
                match class_id_to_attributes.get(&parent_class_id) {
                    Some(parent_attributes) => {
                        assert(before.contains_key(parent_class_id));
                        assert(known.tables.contains_key(parent_class_id));
                        assert(known.tables[parent_class_id] == parent_attributes@);
                        attributes = attributes.adopt(parent_attributes);
                    },
                    None => {
                        assert(!before.contains_key(parent_class_id));
                        assert(!known.tables.contains_key(parent_class_id));
                    },
                }
            },
            None => {},
        }
        assert(attributes@ == cache_attributes(known, cache@));
        class_id_to_attributes.insert(cache.class, attributes);
        class_index_to_class_id.push_front((cache.index, cache.class));
        proof {
            assert(table_views(class_id_to_attributes@) =~= table_views(before).insert(
                cache.class,
                attributes@,
            ));
        }
        i += 1;
    }
    assert(all.take(i as int) =~= all);
    class_id_to_attributes
}

/// The value of the first entry of `entries` under `key`.
pub open spec fn first_under(entries: Seq<(TextView, PropertyView)>, key: Seq<char>) -> Option<
    PropertyView,
>
    decreases entries.len(),
{
    if entries.len() == 0 {
        None
    } else if entries[0].0.value == key {
        Some(entries[0].1)
    } else {
        first_under(entries.skip(1), key)
    }
}

/// The integer that the header records under `key`: that of the first
/// property with this key if it is an integer property, else `otherwise`.
pub open spec fn int_property(header: HeaderView, key: Seq<char>, otherwise: u32) -> u32 {
    match first_under(header.properties.value, key) {
        Some(property) => match property.value {
            PropertyValueView::Int(x) => x,
            _ => otherwise,
        },
        None => otherwise,
    }
}

/// The number of channels of a replay that does not say.
pub const MAX_CHANNELS_DEFAULT: u32 = 1_023;

/// The version as a triple, with zero for a patch version that is not
/// recorded.
pub open spec fn version_triple(version: Version) -> (u32, u32, u32) {
    (
        version.major,
        version.minor,
        match version.patch {
            Some(patch) => patch,
            None => 0,
        },
    )
}

/// The strings of `texts`, one for one.
pub open spec fn text_values(texts: Seq<TextView>) -> Seq<Seq<char>> {
    Seq::new(texts.len(), |i: int| texts[i].value)
}

/// The strings of `strings`, one for one.
pub open spec fn string_views(strings: Seq<String>) -> Seq<Seq<char>> {
    Seq::new(strings.len(), |i: int| strings[i]@)
}

/// The id and the name of each of `classes`, in file order.
pub open spec fn class_entries(classes: Seq<ClassView>) -> Seq<(u32, Seq<char>)> {
    Seq::new(classes.len(), |i: int| (classes[i].id, classes[i].name.value))
}

/// The models of the entries of a class table, one for one.
pub open spec fn class_views(classes: Seq<(u32, String)>) -> Seq<(u32, Seq<char>)> {
    Seq::new(classes.len(), |i: int| (classes[i].0, classes[i].1@))
}

/// The class that an object at place `bound` of the object table belongs
/// to: among the classes with an id below `bound` the one with the greatest
/// id, and among several of that id the last.
pub open spec fn class_below(classes: Seq<(u32, Seq<char>)>, bound: u32) -> Option<
    (u32, Seq<char>),
>
    decreases classes.len(),
{
    if classes.len() == 0 {
        None
    } else {
        let earlier = class_below(classes.drop_last(), bound);
        let last = classes.last();
        if last.0 < bound && (earlier matches Some(best) ==> best.0 <= last.0) {
            Some(last)
        } else {
            earlier
        }
    }
}

/// The class that [`class_below`] picks is one of the classes, has an id
/// below the bound, and no class with an id below the bound has a greater
/// id or stands later with the same id; and it picks one wherever a class
/// has an id below the bound.
pub proof fn lemma_class_below(classes: Seq<(u32, Seq<char>)>, bound: u32)
    ensures
        match class_below(classes, bound) {
            Some(best) => exists|i: int|
                0 <= i < classes.len() && classes[i] == best && best.0 < bound && (forall|j: int|
                    0 <= j < classes.len() && (#[trigger] classes[j]).0 < bound ==> classes[j].0
                        < best.0 || (classes[j].0 == best.0 && j <= i)),
            None => forall|j: int| 0 <= j < classes.len() ==> (#[trigger] classes[j]).0 >= bound,
        },
    decreases classes.len(),
{
    if classes.len() > 0 {
        let front = classes.drop_last();
        let last = classes.last();
        lemma_class_below(front, bound);
        let earlier = class_below(front, bound);
        assert forall|j: int| 0 <= j < front.len() implies front[j] == classes[j] by {}
        if last.0 < bound && (earlier matches Some(best) ==> best.0 <= last.0) {
            let i = classes.len() - 1;
            assert(classes[i] == last);
            assert forall|j: int|
                0 <= j < classes.len() && (#[trigger] classes[j]).0 < bound implies classes[j].0
                < last.0 || (classes[j].0 == last.0 && j <= i) by {
                if j < front.len() {
                    assert(front[j].0 < bound);
                }
            }
        } else {
            match earlier {
                Some(best) => {
                    let i = choose|i: int|
                        0 <= i < front.len() && front[i] == best && best.0 < bound && (forall|
                            j: int,
                        |
                            0 <= j < front.len() && (#[trigger] front[j]).0 < bound ==> front[j].0
                                < best.0 || (front[j].0 == best.0 && j <= i));
                    assert(classes[i] == best);
                    assert forall|j: int|
                        0 <= j < classes.len() && (#[trigger] classes[j]).0
                            < bound implies classes[j].0 < best.0 || (classes[j].0 == best.0 && j
                        <= i) by {
                        if j < front.len() {
                            assert(front[j].0 < bound);
                        }
                    }
                },
                None => {
                    assert forall|j: int| 0 <= j < classes.len() implies (#[trigger] classes[j]).0
                        >= bound by {
                        if j < front.len() {
                            assert(front[j].0 >= bound);
                        }
                    }
                },
            }
        }
    }
}

/// The classes whose actors are created with a location.
pub const CLASSES_WITH_LOCATION: [&'static str; 28] = [
    "TAGame.Ball_Breakout_TA\0",
    "TAGame.Ball_TA\0",
    "TAGame.CameraSettingsActor_TA\0",
    "TAGame.Car_Season_TA\0",
    "TAGame.Car_TA\0",
    "TAGame.CarComponent_Boost_TA\0",
    "TAGame.CarComponent_Dodge_TA\0",
    "TAGame.CarComponent_DoubleJump_TA\0",
    "TAGame.CarComponent_FlipCar_TA\0",
    "TAGame.CarComponent_Jump_TA\0",
    "TAGame.GameEvent_Season_TA\0",
    "TAGame.GameEvent_Soccar_TA\0",
    "TAGame.GameEvent_SoccarPrivate_TA\0",
    "TAGame.GameEvent_SoccarSplitscreen_TA\0",
    "TAGame.GRI_TA\0",
    "TAGame.PRI_TA\0",
    "TAGame.SpecialPickup_BallCarSpring_TA\0",
    "TAGame.SpecialPickup_BallFreeze_TA\0",
    "TAGame.SpecialPickup_BallGravity_TA\0",
    "TAGame.SpecialPickup_BallLasso_TA\0",
    "TAGame.SpecialPickup_BallVelcro_TA\0",
    "TAGame.SpecialPickup_Batarang_TA\0",
    "TAGame.SpecialPickup_BoostOverride_TA\0",
    "TAGame.SpecialPickup_GrapplingHook_TA\0",
    "TAGame.SpecialPickup_HitForce_TA\0",
    "TAGame.SpecialPickup_Swapper_TA\0",
    "TAGame.SpecialPickup_Tornado_TA\0",
    "TAGame.Team_Soccar_TA\0",
];

/// The classes whose actors are created with a rotation.
pub const CLASSES_WITH_ROTATION: [&'static str; 4] = [
    "TAGame.Ball_Breakout_TA\0",
    "TAGame.Ball_TA\0",
    "TAGame.Car_Season_TA\0",
    "TAGame.Car_TA\0",
];

/// Whether an actor of the class `name` is created with a location.
pub open spec fn with_location(name: Seq<char>) -> bool {
    exists|i: int| 0 <= i < CLASSES_WITH_LOCATION@.len() && CLASSES_WITH_LOCATION@[i]@ == name
}

/// Whether an actor of the class `name` is created with a rotation.
pub open spec fn with_rotation(name: Seq<char>) -> bool {
    exists|i: int| 0 <= i < CLASSES_WITH_ROTATION@.len() && CLASSES_WITH_ROTATION@[i]@ == name
}

/// The tables that the frame stream refers to.
pub struct Context {
    pub num_frames: usize,
    pub max_channels: u32,
    pub version: (u32, u32, u32),
    pub names: Vec<String>,
    pub objects: Vec<String>,
    pub classes: Vec<(u32, String)>,
    pub attributes: HashMap<u32, ClassAttributes>,
}

/// The mathematical content of a [`Context`].
pub struct ContextView {
    pub num_frames: nat,
    pub max_channels: u32,
    pub version: (u32, u32, u32),
    pub names: Seq<Seq<char>>,
    pub objects: Seq<Seq<char>>,
    pub classes: Seq<(u32, Seq<char>)>,
    pub attributes: Map<u32, Map<u32, u32>>,
}

impl View for Context {
    type V = ContextView;

    open spec fn view(&self) -> ContextView {
        ContextView {
            num_frames: self.num_frames as nat,
            max_channels: self.max_channels,
            version: self.version,
            names: string_views(self.names@),
            objects: string_views(self.objects@),
            classes: class_views(self.classes@),
            attributes: table_views(self.attributes@),
        }
    }
}

/// The context that a header and the tables of a content section make.
pub open spec fn context_of(
    header: HeaderView,
    names: Seq<TextView>,
    objects: Seq<TextView>,
    classes: Seq<ClassView>,
    caches: Seq<CacheView>,
) -> ContextView {
    ContextView {
        num_frames: int_property(header, "NumFrames\0"@, 0) as nat,
        max_channels: int_property(header, "MaxChannels\0"@, MAX_CHANNELS_DEFAULT),
        version: version_triple(header.version),
        names: text_values(names),
        objects: text_values(objects),
        classes: class_entries(classes),
        attributes: resolved(caches).tables,
    }
}

impl Context {
    /// Gathers what the frame stream refers to.
    pub fn new(
        header: &Header,
        names: &List<Text>,
        objects: &List<Text>,
        classes: &List<Class>,
        caches: &List<Cache>,
    ) -> (r: Self)
        ensures
            r@ == context_of(
                header@,
                views(names.value@),
                views(objects.value@),
                views(classes.value@),
                views(caches.value@),
            ),
    {
        Context {
            num_frames: Self::get_num_frames(header),
            max_channels: Self::get_max_channels(header),
            version: Self::get_version(header),
            names: Self::get_names(names),
            objects: Self::get_objects(objects),
            classes: Self::get_classes(classes),
            attributes: get_attributes(caches),
        }
    }

    /// Looks up an integer property of the header.
    fn get_int_property(header: &Header, key: &str, otherwise: u32) -> (r: u32)
        ensures
            r == int_property(header@, key@, otherwise),
    {
        let entries = &header.properties.value;
        let ghost all = header@.properties.value;
        let mut i: usize = 0;
        assert(all.skip(0) =~= all);
        while i < entries.len()
            invariant
                i <= entries@.len(),
                all == header@.properties.value,
                all.len() == entries@.len(),
                forall|j: int| 0 <= j < entries@.len() ==> #[trigger] all[j] == (
                    entries@[j].0@,
                    entries@[j].1@,
                ),
                first_under(all, key@) == first_under(all.skip(i as int), key@),
            decreases entries@.len() - i,
        {
            let entry = &entries[i];
            assert(all.skip(i as int)[0] == all[i as int]);
            if text_eq(entry.0.value.as_str(), key) {
                return match entry.1.value {
                    PropertyValue::Int(x) => x,
                    _ => otherwise,
                };
            }
            assert(all.skip(i as int).skip(1) =~= all.skip(i + 1));
            i += 1;
        }
        otherwise
    }

    /// The number of frames that the header announces, or zero.
    pub fn get_num_frames(header: &Header) -> (r: usize)
        ensures
            r == int_property(header@, "NumFrames\0"@, 0),
    {
        u32_usize(Self::get_int_property(header, "NumFrames\0", 0))
    }

    /// The greatest channel id that the header announces, or the default.
    pub fn get_max_channels(header: &Header) -> (r: u32)
        ensures
            r == int_property(header@, "MaxChannels\0"@, MAX_CHANNELS_DEFAULT),
    {
        Self::get_int_property(header, "MaxChannels\0", MAX_CHANNELS_DEFAULT)
    }

    /// The version of the header as a triple.
    pub fn get_version(header: &Header) -> (r: (u32, u32, u32))
        ensures
            r == version_triple(header.version),
    {
        (
            header.version.major,
            header.version.minor,
            match header.version.patch {
                Some(patch) => patch,
                None => 0,
            },
        )
    }

    /// The strings of a list of texts.
    fn get_values(texts: &List<Text>) -> (r: Vec<String>)
        ensures
            string_views(r@) == text_values(views(texts.value@)),
    {
        let mut values: Vec<String> = Vec::new();
        let mut i: usize = 0;
        while i < texts.value.len()
            invariant
                i <= texts.value@.len(),
                values@.len() == i,
                forall|j: int| 0 <= j < i ==> (#[trigger] values@[j])@ == texts.value@[j].value@,
            decreases texts.value@.len() - i,
        {
            values.push(texts.value[i].value.clone());
            i += 1;
        }
        assert(string_views(values@) =~= text_values(views(texts.value@)));
        values
    }

    /// The name table.
    pub fn get_names(names: &List<Text>) -> (r: Vec<String>)
        ensures
            string_views(r@) == text_values(views(names.value@)),
    {
        Self::get_values(names)
    }

    /// The object table.
    pub fn get_objects(objects: &List<Text>) -> (r: Vec<String>)
        ensures
            string_views(r@) == text_values(views(objects.value@)),
    {
        Self::get_values(objects)
    }

    /// The id and the name of each class, in file order.
    pub fn get_classes(classes: &List<Class>) -> (r: Vec<(u32, String)>)
        ensures
            class_views(r@) == class_entries(views(classes.value@)),
    {
        let mut entries: Vec<(u32, String)> = Vec::new();
        let mut i: usize = 0;
        while i < classes.value.len()
            invariant
                i <= classes.value@.len(),
                entries@.len() == i,
                forall|j: int|
                    0 <= j < i ==> (#[trigger] entries@[j]).0 == classes.value@[j].id
                        && entries@[j].1@ == classes.value@[j].name.value@,
            decreases classes.value@.len() - i,
        {
            let class = &classes.value[i];
            entries.push((class.id, class.name.value.clone()));
            i += 1;
        }
        assert(class_views(entries@) =~= class_entries(views(classes.value@)));
        entries
    }

    /// Whether an actor of the class `class` is created with a location.
    pub fn has_location(class: &str) -> (r: bool)
        ensures
            r == with_location(class@),
    {
        let mut i: usize = 0;
        while i < CLASSES_WITH_LOCATION.len()
            invariant
                i <= CLASSES_WITH_LOCATION@.len(),
                forall|j: int| 0 <= j < i ==> (#[trigger] CLASSES_WITH_LOCATION@[j])@ != class@,
            decreases CLASSES_WITH_LOCATION@.len() - i,
        {
            if text_eq(CLASSES_WITH_LOCATION[i], class) {
                return true;
            }
            i += 1;
        }
        false
    }

    /// Whether an actor of the class `class` is created with a rotation.
    pub fn has_rotation(class: &str) -> (r: bool)
        ensures
            r == with_rotation(class@),
    {
        let mut i: usize = 0;
        while i < CLASSES_WITH_ROTATION.len()
            invariant
                i <= CLASSES_WITH_ROTATION@.len(),
                forall|j: int| 0 <= j < i ==> (#[trigger] CLASSES_WITH_ROTATION@[j])@ != class@,
            decreases CLASSES_WITH_ROTATION@.len() - i,
        {
            if text_eq(CLASSES_WITH_ROTATION[i], class) {
                return true;
            }
            i += 1;
        }
        false
    }

    /// The class that an object at place `bound` of the object table belongs
    /// to, as the place of the class in the class table.
    pub fn find_class(&self, bound: u32) -> (r: Option<usize>)
        ensures
            match r {
                Some(i) => i < self.classes@.len() && class_below(self@.classes, bound) == Some(
                    self@.classes[i as int],
                ),
                None => class_below(self@.classes, bound) is None,
            },
    {
        let ghost all = self@.classes;
        let mut best: Option<usize> = None;
        let mut i: usize = 0;
        assert(all.take(0) =~= Seq::<(u32, Seq<char>)>::empty());
        while i < self.classes.len()
            invariant
                i <= self.classes@.len(),
                all == self@.classes,
                all.len() == self.classes@.len(),
                match best {
                    Some(b) => b < i && class_below(all.take(i as int), bound) == Some(
                        all[b as int],
                    ),
                    None => class_below(all.take(i as int), bound) is None,
                },
            decreases self.classes@.len() - i,
        {
            let id = self.classes[i].0;
            proof {
                let next = all.take(i + 1);
                assert(next.drop_last() =~= all.take(i as int));
                assert(next.last() == all[i as int]);
                assert(all[i as int].0 == id);
            }
            let better = id < bound && match best {
                Some(b) => self.classes[b].0 <= id,
                None => true,
            };
            if better {
                best = Some(i);
            }
            i += 1;
        }
        assert(all.take(i as int) =~= all);
        best
    }
}

} // verus!
