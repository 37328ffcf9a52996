//! The frame stream: per frame, the actors that were created, updated and
//! destroyed.
//!
//! The stream is read against a [`Context`], which never changes, and the
//! map of live actors, which records the class of every actor created so
//! far.

use crate::bit_get::bit_reads;
use crate::bit_get::lemma_bits_at_bound;
use crate::bit_get::lemma_u32c_at_bounded;
use crate::bit_get::bit_option_at;
use crate::bit_get::bit_plain;
use crate::bit_get::bit_u32_at;
use crate::bit_get::bool_at;
use crate::bit_get::out_of_bits;
use crate::bit_get::u32c_at;
use crate::bit_get::BitDecode;
use crate::bit_get::BitGet;
use crate::bit_get::BitParsed;
use crate::bit_get::U32C;
use crate::context::class_below;
use crate::context::max_key;
use crate::context::with_location;
use crate::context::with_rotation;
use crate::context::Context;
use crate::context::ContextView;
use crate::convert::u32_usize;
use crate::error::BitGetError;
use crate::error::BitGetFault;
use std::collections::HashMap;
use vstd::arithmetic::power2::lemma2_to64;
use vstd::arithmetic::power2::lemma_pow2_strictly_increases;
use vstd::arithmetic::power2::pow2;
use vstd::bits::lemma_u32_shl_is_mul;
use vstd::prelude::*;

verus! {

broadcast use vstd::std_specs::hash::group_hash_axioms;

/// Where an actor was created: three coordinates, each sent under a limit
/// that follows from `size`.
#[derive(Debug, Clone, Copy, PartialEq, Eq)]
pub struct Location {
    pub size: U32C,
    pub x: U32C,
    pub y: U32C,
    pub z: U32C,
}

/// How an actor was turned when it was created: for each axis the angle, if
/// one was sent.
#[derive(Debug, Clone, Copy, PartialEq, Eq)]
pub struct Rotation {
    pub x: Option<i8>,
    pub y: Option<i8>,
    pub z: Option<i8>,
}

/// The payload of an attribute.
///
/// No attribute has a payload layout so far, so every attribute name is
/// reported as unknown and no value of this type is ever produced.
#[derive(Debug, Clone, Copy, PartialEq, Eq)]
pub struct AttributeValue {}

/// One updated attribute of an actor: the class of the actor, the stream id
/// that was sent, and the object that the stream id stands for in that
/// class, by its place in the object table and by name.
#[derive(Debug, PartialEq, Eq)]
pub struct Attribute {
    pub class_id: u32,
    pub stream_id: U32C,
    pub object_id: u32,
    pub object: String,
    pub value: AttributeValue,
}

/// The mathematical content of an [`Attribute`].
pub struct AttributeView {
    pub class_id: u32,
    pub stream_id: U32C,
    pub object_id: u32,
    pub object: Seq<char>,
    pub value: AttributeValue,
}

impl View for Attribute {
    type V = AttributeView;

    open spec fn view(&self) -> AttributeView {
        AttributeView {
            class_id: self.class_id,
            stream_id: self.stream_id,
            object_id: self.object_id,
            object: self.object@,
            value: self.value,
        }
    }
}

/// What happened to an actor in a frame.
#[derive(Debug, PartialEq, Eq)]
pub enum ReplicationValue {
    Created {
        unknown: bool,
        name_index: Option<u32>,
        name: Option<String>,
        object_index: u32,
        object: String,
        class_id: u32,
        class: String,
        location: Option<Location>,
        rotation: Option<Rotation>,
    },
    Updated(Vec<Attribute>),
    Destroyed,
}

/// The mathematical content of a [`ReplicationValue`].
pub enum ReplicationValueView {
    Created {
        unknown: bool,
        name_index: Option<u32>,
        name: Option<Seq<char>>,
        object_index: u32,
        object: Seq<char>,
        class_id: u32,
        class: Seq<char>,
        location: Option<Location>,
        rotation: Option<Rotation>,
    },
    Updated(Seq<AttributeView>),
    Destroyed,
}

/// The models of `attributes`, one for one.
pub open spec fn attribute_views(attributes: Seq<Attribute>) -> Seq<AttributeView> {
    Seq::new(attributes.len(), |i: int| attributes[i]@)
}

impl View for ReplicationValue {
    type V = ReplicationValueView;

    open spec fn view(&self) -> ReplicationValueView {
        match *self {
            ReplicationValue::Created {
                unknown,
                name_index,
                name,
                object_index,
                object,
                class_id,
                class,
                location,
                rotation,
            } => ReplicationValueView::Created {
                unknown,
                name_index,
                name: match name {
                    Some(s) => Some(s@),
                    None => None,
                },
                object_index,
                object: object@,
                class_id,
                class: class@,
                location,
                rotation,
            },
            ReplicationValue::Updated(attributes) => ReplicationValueView::Updated(
                attribute_views(attributes@),
            ),
            ReplicationValue::Destroyed => ReplicationValueView::Destroyed,
        }
    }
}

/// An event on the channel of one actor.
#[derive(Debug, PartialEq, Eq)]
pub struct Replication {
    pub actor: U32C,
    pub value: ReplicationValue,
}

/// The mathematical content of a [`Replication`].
pub struct ReplicationView {
    pub actor: U32C,
    pub value: ReplicationValueView,
}

impl View for Replication {
    type V = ReplicationView;

    open spec fn view(&self) -> ReplicationView {
        ReplicationView { actor: self.actor, value: self.value@ }
    }
}

/// The models of `replications`, one for one.
pub open spec fn replication_views(replications: Seq<Replication>) -> Seq<ReplicationView> {
    Seq::new(replications.len(), |i: int| replications[i]@)
}

/// One tick of the game. `time` and `delta` hold the bit patterns of
/// IEEE-754 singles.
#[derive(Debug, PartialEq, Eq)]
pub struct Frame {
    pub time: u32,
    pub delta: u32,
    pub replications: Vec<Replication>,
}

/// The mathematical content of a [`Frame`].
pub struct FrameView {
    pub time: u32,
    pub delta: u32,
    pub replications: Seq<ReplicationView>,
}

impl View for Frame {
    type V = FrameView;

    open spec fn view(&self) -> FrameView {
        FrameView {
            time: self.time,
            delta: self.delta,
            replications: replication_views(self.replications@),
        }
    }
}

/// The models of `frames`, one for one.
pub open spec fn frame_views(frames: Seq<Frame>) -> Seq<FrameView> {
    Seq::new(frames.len(), |i: int| frames[i]@)
}

/// The limit under which the size of a location is sent.
pub const LOCATION_SIZE_LIMIT: u32 = 19;

/// The limit under which the coordinates of a location of this size are
/// sent.
pub open spec fn location_limit(size: u32) -> u32 {
    (4 * pow2(size as nat)) as u32
}

/// The location at position `pos`.
pub open spec fn location_at(bytes: Seq<u8>, pos: int) -> BitParsed<Location> {
    match u32c_at(bytes, pos, LOCATION_SIZE_LIMIT) {
        Err(e) => Err(e),
        Ok((size, first)) => match u32c_at(bytes, first, location_limit(size.value)) {
            Err(e) => Err(e),
            Ok((x, second)) => match u32c_at(bytes, second, location_limit(size.value)) {
                Err(e) => Err(e),
                Ok((y, third)) => match u32c_at(bytes, third, location_limit(size.value)) {
                    Err(e) => Err(e),
                    Ok((z, end)) => Ok((Location { size, x, y, z }, end)),
                },
            },
        },
    }
}

/// The angle at position `pos`, if the bit before it says that there is one.
pub open spec fn angle_at(bytes: Seq<u8>, pos: int) -> BitParsed<Option<i8>> {
    match bool_at(bytes, pos) {
        Err(e) => Err(e),
        Ok((present, next)) => bit_option_at::<i8>(bytes, next, present),
    }
}

/// The rotation at position `pos`.
pub open spec fn rotation_at(bytes: Seq<u8>, pos: int) -> BitParsed<Rotation> {
    match angle_at(bytes, pos) {
        Err(e) => Err(e),
        Ok((x, second)) => match angle_at(bytes, second) {
            Err(e) => Err(e),
            Ok((y, third)) => match angle_at(bytes, third) {
                Err(e) => Err(e),
                Ok((z, end)) => Ok((Rotation { x, y, z }, end)),
            },
        },
    }
}

impl BitDecode for Location {
    open spec fn bits_value_at(bytes: Seq<u8>, pos: int) -> BitParsed<Location> {
        location_at(bytes, pos)
    }

    fn get_bits(get: &mut BitGet) -> (r: Result<Self, BitGetError>) {
        get.get_location()
    }
}

impl BitDecode for Rotation {
    open spec fn bits_value_at(bytes: Seq<u8>, pos: int) -> BitParsed<Rotation> {
        rotation_at(bytes, pos)
    }

    fn get_bits(get: &mut BitGet) -> (r: Result<Self, BitGetError>) {
        get.get_rotation()
    }
}

/// The name of a new actor at position `pos`: the place of the name in the
/// name table and the name, where the replay names its actors.
pub open spec fn actor_name_at(bytes: Seq<u8>, pos: int, context: ContextView) -> BitParsed<
    (Option<u32>, Option<Seq<char>>),
> {
    match bit_option_at::<u32>(bytes, pos, names_actors(context.version)) {
        Err(e) => Err(e),
        Ok((None, end)) => Ok(((None, None), end)),
        Ok((Some(index), end)) => if index < context.names.len() {
            Ok(((Some(index), Some(context.names[index as int])), end))
        } else {
            Err(BitGetFault::UnknownName(index))
        },
    }
}

/// Whether a replay of this version names the actors that it creates.
pub open spec fn names_actors(version: (u32, u32, u32)) -> bool {
    version.0 > 868 || (version.0 == 868 && version.1 >= 14)
}

/// The new actor at position `pos`: a bit of unknown meaning, the name
/// where the replay names its actors, the object, whose class is looked up,
/// and the location and the rotation where the class has them.
pub open spec fn created_at(bytes: Seq<u8>, pos: int, context: ContextView) -> BitParsed<
    ReplicationValueView,
> {
    match bool_at(bytes, pos) {
        Err(e) => Err(e),
        Ok((unknown, named)) => match actor_name_at(bytes, named, context) {
            Err(e) => Err(e),
            Ok(((name_index, name), indexed)) => match bit_u32_at(bytes, indexed) {
                Err(e) => Err(e),
                Ok((object_index, placed)) => if object_index >= context.objects.len() {
                    Err(BitGetFault::UnknownObject(object_index))
                } else {
                    let object = context.objects[object_index as int];
                    match class_below(context.classes, object_index) {
                        None => Err(BitGetFault::UnknownObjectClass(object)),
                        Some((class_id, class)) => match bit_option_at::<Location>(
                            bytes,
                            placed,
                            with_location(class),
                        ) {
                            Err(e) => Err(e),
                            Ok((location, turned)) => match bit_option_at::<Rotation>(
                                bytes,
                                turned,
                                with_rotation(class),
                            ) {
                                Err(e) => Err(e),
                                Ok((rotation, end)) => Ok(
                                    (
                                        ReplicationValueView::Created {
                                            unknown,
                                            name_index,
                                            name,
                                            object_index,
                                            object,
                                            class_id,
                                            class,
                                            location,
                                            rotation,
                                        },
                                        end,
                                    ),
                                ),
                            },
                        },
                    }
                },
            },
        },
    }
}

/// What an attribute is of: the class of its actor, the stream id that was
/// sent and the object that the stream id stands for.
pub struct AttributeHead {
    pub class_id: u32,
    pub stream_id: U32C,
    pub object_id: u32,
    pub object: Seq<char>,
}

/// The head of the attribute of `actor` at position `pos`.
///
/// The actor must be live and its class must have attributes; the stream id
/// is sent under the greatest stream id of the class and must be one of the
/// class; the object that it stands for must be in the object table.
pub open spec fn attribute_head_at(
    bytes: Seq<u8>,
    pos: int,
    context: ContextView,
    actors: Map<u32, u32>,
    actor: u32,
) -> BitParsed<AttributeHead> {
    if !actors.contains_key(actor) {
        Err(BitGetFault::UnknownActor(actor))
    } else {
        let class_id = actors[actor];
        if !context.attributes.contains_key(class_id) {
            Err(BitGetFault::UnknownClass(class_id))
        } else {
            let attributes = context.attributes[class_id];
            match u32c_at(bytes, pos, max_key(attributes)) {
                Err(e) => Err(e),
                Ok((stream_id, end)) => if !attributes.contains_key(stream_id.value) {
                    Err(BitGetFault::UnknownStreamId(stream_id.value))
                } else {
                    let object_id = attributes[stream_id.value];
                    if object_id >= context.objects.len() {
                        Err(BitGetFault::UnknownAttributeIndex(object_id))
                    } else {
                        Ok(
                            (
                                AttributeHead {
                                    class_id,
                                    stream_id,
                                    object_id,
                                    object: context.objects[object_id as int],
                                },
                                end,
                            ),
                        )
                    }
                },
            }
        }
    }
}

/// The payload at position `pos` of the attribute called `name`: no name is
/// known.
pub open spec fn attribute_value_at(bytes: Seq<u8>, pos: int, name: Seq<char>) -> BitParsed<
    AttributeValue,
> {
    Err(BitGetFault::UnknownAttribute(name))
}

/// The attribute of `actor` at position `pos`.
pub open spec fn attribute_at(
    bytes: Seq<u8>,
    pos: int,
    context: ContextView,
    actors: Map<u32, u32>,
    actor: u32,
) -> BitParsed<AttributeView> {
    match attribute_head_at(bytes, pos, context, actors, actor) {
        Err(e) => Err(e),
        Ok((head, body)) => match attribute_value_at(bytes, body, head.object) {
            Err(e) => Err(e),
            Ok((value, end)) => Ok(
                (
                    AttributeView {
                        class_id: head.class_id,
                        stream_id: head.stream_id,
                        object_id: head.object_id,
                        object: head.object,
                        value,
                    },
                    end,
                ),
            ),
        },
    }
}

/// The number of bits from position `pos` to the end of `bytes`.
pub open spec fn bits_left(bytes: Seq<u8>, pos: int) -> int {
    if pos <= 8 * bytes.len() {
        8 * bytes.len() - pos
    } else {
        0
    }
}

/// `done` followed by the values of `rest`, where `rest` has any.
pub open spec fn then_bit_items<V>(done: Seq<V>, rest: BitParsed<Seq<V>>) -> BitParsed<Seq<V>> {
    match rest {
        Err(e) => Err(e),
        Ok((more, end)) => Ok((done + more, end)),
    }
}

/// The attributes of `actor` from position `pos` on: each is announced by a
/// set bit, and a clear bit ends them.
///
/// An attribute does not end before its start
/// ([`lemma_attributes_at_advance`]), so the test that stands before the
/// next one never fails; it is what shows that the attributes come to an
/// end.
pub open spec fn attributes_at(
    bytes: Seq<u8>,
    pos: int,
    context: ContextView,
    actors: Map<u32, u32>,
    actor: u32,
) -> BitParsed<Seq<AttributeView>>
    decreases bits_left(bytes, pos),
{
    match bool_at(bytes, pos) {
        Err(e) => Err(e),
        Ok((has_more, first)) => if !has_more {
            Ok((Seq::empty(), first))
        } else {
            match attribute_at(bytes, first, context, actors, actor) {
                Err(e) => Err(e),
                Ok((attribute, next)) => if first <= next {
                    then_bit_items(
                        seq![attribute],
                        attributes_at(bytes, next, context, actors, actor),
                    )
                } else {
                    Err(out_of_bits(bytes, next))
                },
            }
        },
    }
}

/// The event at position `pos` on the channel of `actor`: a clear bit says
/// that the actor was destroyed; else a set bit says that it was created,
/// and a clear one that it was updated.
pub open spec fn replication_value_at(
    bytes: Seq<u8>,
    pos: int,
    context: ContextView,
    actors: Map<u32, u32>,
    actor: u32,
) -> BitParsed<ReplicationValueView> {
    match bool_at(bytes, pos) {
        Err(e) => Err(e),
        Ok((is_open, second)) => if !is_open {
            Ok((ReplicationValueView::Destroyed, second))
        } else {
            match bool_at(bytes, second) {
                Err(e) => Err(e),
                Ok((is_new, body)) => if is_new {
                    created_at(bytes, body, context)
                } else {
                    match attributes_at(bytes, body, context, actors, actor) {
                        Err(e) => Err(e),
                        Ok((attributes, end)) => Ok(
                            (ReplicationValueView::Updated(attributes), end),
                        ),
                    }
                },
            }
        },
    }
}

/// The replication at position `pos`.
pub open spec fn replication_at(
    bytes: Seq<u8>,
    pos: int,
    context: ContextView,
    actors: Map<u32, u32>,
) -> BitParsed<ReplicationView> {
    match u32c_at(bytes, pos, context.max_channels) {
        Err(e) => Err(e),
        Ok((actor, body)) => match replication_value_at(bytes, body, context, actors, actor.value) {
            Err(e) => Err(e),
            Ok((value, end)) => Ok((ReplicationView { actor, value }, end)),
        },
    }
}

/// The live actors after `replication`: a created actor is live with its
/// class, in place of whatever was live on its channel before.
pub open spec fn actors_after(actors: Map<u32, u32>, replication: ReplicationView) -> Map<
    u32,
    u32,
> {
    match replication.value {
        ReplicationValueView::Created { class_id, .. } => actors.insert(
            replication.actor.value,
            class_id,
        ),
        _ => actors,
    }
}

/// `done` followed by the values of `rest`, where `rest` has any, with the
/// live actors that `rest` ends with.
pub open spec fn then_tracked<V>(
    done: Seq<V>,
    rest: BitParsed<(Seq<V>, Map<u32, u32>)>,
) -> BitParsed<(Seq<V>, Map<u32, u32>)> {
    match rest {
        Err(e) => Err(e),
        Ok(((more, actors), end)) => Ok(((done + more, actors), end)),
    }
}

/// The replications of a frame from position `pos` on, and the live actors
/// after them: each replication is announced by a set bit, and a clear bit
/// ends them.
///
/// A replication ends behind its start
/// ([`lemma_replication_at_advances`]), so the test that stands before the
/// next one never fails; it is what shows that the replications come to an
/// end.
pub open spec fn replications_at(
    bytes: Seq<u8>,
    pos: int,
    context: ContextView,
    actors: Map<u32, u32>,
) -> BitParsed<(Seq<ReplicationView>, Map<u32, u32>)>
    decreases bits_left(bytes, pos),
{
    match bool_at(bytes, pos) {
        Err(e) => Err(e),
        Ok((has_more, first)) => if !has_more {
            Ok(((Seq::empty(), actors), first))
        } else {
            match replication_at(bytes, first, context, actors) {
                Err(e) => Err(e),
                Ok((replication, next)) => if first <= next {
                    then_tracked(
                        seq![replication],
                        replications_at(bytes, next, context, actors_after(actors, replication)),
                    )
                } else {
                    Err(out_of_bits(bytes, next))
                },
            }
        },
    }
}

/// The frame at position `pos`, and the live actors after it.
pub open spec fn frame_at(bytes: Seq<u8>, pos: int, context: ContextView, actors: Map<u32, u32>)
    -> BitParsed<(FrameView, Map<u32, u32>)> {
    match bit_u32_at(bytes, pos) {
        Err(e) => Err(e),
        Ok((time, second)) => match bit_u32_at(bytes, second) {
            Err(e) => Err(e),
            Ok((delta, third)) => match replications_at(bytes, third, context, actors) {
                Err(e) => Err(e),
                Ok(((replications, live), end)) => Ok(
                    ((FrameView { time, delta, replications }, live), end),
                ),
            },
        },
    }
}

/// The `n` frames in a row from position `pos` on, and the live actors
/// after them.
pub open spec fn frames_at(
    bytes: Seq<u8>,
    pos: int,
    context: ContextView,
    actors: Map<u32, u32>,
    n: nat,
) -> BitParsed<(Seq<FrameView>, Map<u32, u32>)>
    decreases n,
{
    if n == 0 {
        Ok(((Seq::empty(), actors), pos))
    } else {
        match frame_at(bytes, pos, context, actors) {
            Err(e) => Err(e),
            Ok(((frame, live), next)) => then_tracked(
                seq![frame],
                frames_at(bytes, next, context, live, (n - 1) as nat),
            ),
        }
    }
}

proof fn lemma_then_bit_items_push<V>(done: Seq<V>, item: V, rest: BitParsed<Seq<V>>)
    ensures
        then_bit_items(done, then_bit_items(seq![item], rest)) == then_bit_items(
            done.push(item),
            rest,
        ),
{
    if let Ok((more, end)) = rest {
        assert(done + (seq![item] + more) =~= done.push(item) + more);
    }
}

proof fn lemma_then_tracked_push<V>(
    done: Seq<V>,
    item: V,
    rest: BitParsed<(Seq<V>, Map<u32, u32>)>,
)
    ensures
        then_tracked(done, then_tracked(seq![item], rest)) == then_tracked(done.push(item), rest),
{
    if let Ok(((more, actors), end)) = rest {
        assert(done + (seq![item] + more) =~= done.push(item) + more);
    }
}

/// The outcome of a reader of a row of values that keeps the live actors.
pub open spec fn tracked_outcome<T, V>(
    r: Result<Vec<T>, BitGetError>,
    models: spec_fn(Seq<T>) -> Seq<V>,
    actors: Map<u32, u32>,
) -> Result<(Seq<V>, Map<u32, u32>), BitGetFault> {
    match r {
        Ok(items) => Ok((models(items@), actors)),
        Err(e) => Err(e@),
    }
}

impl BitGet {
    /// Reads a location.
    pub fn get_location(&mut self) -> (r: Result<Location, BitGetError>)
        ensures
            bit_reads(
                old(self)@,
                final(self)@,
                location_at(old(self)@.bytes, old(self)@.pos),
                bit_plain(r),
            ),
    {
        let size = self.get_u32c(LOCATION_SIZE_LIMIT)?;
        proof {
            lemma2_to64();
            if size.value < 19 {
                lemma_pow2_strictly_increases(size.value as nat, 19);
            }
            assert(4 * pow2(size.value as nat) <= u32::MAX) by (nonlinear_arith)
                requires
                    pow2(size.value as nat) <= 0x8_0000,
            ;
            lemma_u32_shl_is_mul(4, size.value);
        }
        let limit: u32 = 4u32 << size.value;
        let x = self.get_u32c(limit)?;
        let y = self.get_u32c(limit)?;
        let z = self.get_u32c(limit)?;
        Ok(Location { size, x, y, z })
    }

    /// Reads a rotation.
    pub fn get_rotation(&mut self) -> (r: Result<Rotation, BitGetError>)
        ensures
            bit_reads(
                old(self)@,
                final(self)@,
                rotation_at(old(self)@.bytes, old(self)@.pos),
                bit_plain(r),
            ),
    {
        let has_x = self.get_bool()?;
        let x = self.get_option::<i8>(has_x)?;
        let has_y = self.get_bool()?;
        let y = self.get_option::<i8>(has_y)?;
        let has_z = self.get_bool()?;
        let z = self.get_option::<i8>(has_z)?;
        Ok(Rotation { x, y, z })
    }

    /// Reads what is sent of an actor that is created, and resolves its
    /// name, its object and its class.
    pub fn get_replication_value_created(&mut self, context: &Context) -> (r: Result<
        ReplicationValue,
        BitGetError,
    >)
        ensures
            bit_reads(
                old(self)@,
                final(self)@,
                created_at(old(self)@.bytes, old(self)@.pos, context@),
                crate::bit_get::bit_viewed(r),
            ),
    {
        let unknown = self.get_bool()?;
        let named = context.version.0 > 868 || (context.version.0 == 868 && context.version.1
            >= 14);
        let name_index = self.get_option::<u32>(named)?;
        let name = match name_index {
            None => None,
            Some(index) => {
                if u32_usize(index) >= context.names.len() {
                    return Err(BitGetError::UnknownName(index));
                }
                Some(context.names[u32_usize(index)].clone())
            },
        };
        let object_index = self.get_u32()?;
        if u32_usize(object_index) >= context.objects.len() {
            return Err(BitGetError::UnknownObject(object_index));
        }
        let object = context.objects[u32_usize(object_index)].clone();
        let (class_id, class) = match context.find_class(object_index) {
            None => {
                return Err(BitGetError::UnknownObjectClass(object));
            },
            Some(place) => (context.classes[place].0, context.classes[place].1.clone()),
        };
        let location = self.get_option::<Location>(Context::has_location(class.as_str()))?;
        let rotation = self.get_option::<Rotation>(Context::has_rotation(class.as_str()))?;
        Ok(
            ReplicationValue::Created {
                unknown,
                name_index,
                name,
                object_index,
                object,
                class_id,
                class,
                location,
                rotation,
            },
        )
    }

    /// Reads the payload of the attribute called `name`.
    pub fn get_attribute_value(&mut self, name: &str) -> (r: Result<AttributeValue, BitGetError>)
        ensures
            bit_reads(
                old(self)@,
                final(self)@,
                attribute_value_at(old(self)@.bytes, old(self)@.pos, name@),
                bit_plain(r),
            ),
    {
        Err(BitGetError::UnknownAttribute(name.to_owned()))
    }

    /// Reads one attribute of `actor`.
    pub fn get_attribute(
        &mut self,
        context: &Context,
        actors: &HashMap<u32, u32>,
        actor: u32,
    ) -> (r: Result<Attribute, BitGetError>)
        ensures
            bit_reads(
                old(self)@,
                final(self)@,
                attribute_at(old(self)@.bytes, old(self)@.pos, context@, actors@, actor),
                crate::bit_get::bit_viewed(r),
            ),
            r matches Ok(attribute) ==> {
                &&& actors@.contains_key(actor)
                &&& actors@[actor] == attribute.class_id
                &&& context@.attributes.contains_key(attribute.class_id)
                &&& context@.attributes[attribute.class_id].contains_key(attribute.stream_id.value)
                &&& context@.attributes[attribute.class_id][attribute.stream_id.value]
                    == attribute.object_id
                &&& attribute.object_id < context@.objects.len()
                &&& context@.objects[attribute.object_id as int] == attribute.object@
            },
    {
        proof {
            lemma_attribute_at_resolved(self@.bytes, self@.pos, context@, actors@, actor);
        }
        let class_id = match actors.get(&actor) {
            None => {
                return Err(BitGetError::UnknownActor(actor));
            },
            Some(id) => *id,
        };
        let attributes = match context.attributes.get(&class_id) {
            Some(x) => x,
            None => {
                return Err(BitGetError::UnknownClass(class_id));
            },
        };
        assert(context@.attributes[class_id] == attributes@);
        let limit = attributes.limit();
        let stream_id = self.get_u32c(limit)?;
        let object_id = match attributes.get(stream_id.value) {
            Some(x) => x,
            None => {
                return Err(BitGetError::UnknownStreamId(stream_id.value));
            },
        };
        if u32_usize(object_id) >= context.objects.len() {
            return Err(BitGetError::UnknownAttributeIndex(object_id));
        }
        let object = context.objects[u32_usize(object_id)].clone();
        let value = self.get_attribute_value(object.as_str())?;
        Ok(Attribute { class_id, stream_id, object_id, object, value })
    }

    /// Reads the attributes of `actor` that a frame updates.
    pub fn get_attributes(
        &mut self,
        context: &Context,
        actors: &HashMap<u32, u32>,
        actor: u32,
    ) -> (r: Result<Vec<Attribute>, BitGetError>)
        ensures
            bit_reads(
                old(self)@,
                final(self)@,
                attributes_at(old(self)@.bytes, old(self)@.pos, context@, actors@, actor),
                match r {
                    Ok(items) => Ok(attribute_views(items@)),
                    Err(e) => Err(e@),
                },
            ),
    {
        let mut attributes: Vec<Attribute> = Vec::new();
        let ghost bytes = self@.bytes;
        let ghost start = self@.pos;
        proof {
            if let Ok((all, end)) = attributes_at(bytes, start, context@, actors@, actor) {
                assert(Seq::<AttributeView>::empty() + all =~= all);
            }
            assert(attribute_views(attributes@) =~= Seq::<AttributeView>::empty());
        }
        loop
            invariant
                bytes == old(self)@.bytes,
                start == old(self)@.pos,
                self@.bytes == bytes,
                start <= self@.pos,
                attributes_at(bytes, start, context@, actors@, actor) == then_bit_items(
                    attribute_views(attributes@),
                    attributes_at(bytes, self@.pos, context@, actors@, actor),
                ),
            decreases bits_left(bytes, self@.pos),
        {
            let ghost done = attribute_views(attributes@);
            let has_more = self.get_bool()?;
            if !has_more {
                proof {
                    assert(done + Seq::<AttributeView>::empty() =~= done);
                }
                return Ok(attributes);
            }
            let attribute = self.get_attribute(context, actors, actor)?;
            proof {
                lemma_then_bit_items_push(
                    done,
                    attribute@,
                    attributes_at(bytes, self@.pos, context@, actors@, actor),
                );
            }
            attributes.push(attribute);
            proof {
                assert(attribute_views(attributes@) =~= done.push(attribute@));
            }
        }
    }

    /// Reads what happened to `actor`.
    pub fn get_replication_value(
        &mut self,
        context: &Context,
        actors: &HashMap<u32, u32>,
        actor: u32,
    ) -> (r: Result<ReplicationValue, BitGetError>)
        ensures
            bit_reads(
                old(self)@,
                final(self)@,
                replication_value_at(old(self)@.bytes, old(self)@.pos, context@, actors@, actor),
                crate::bit_get::bit_viewed(r),
            ),
    {
        let is_open = self.get_bool()?;
        if is_open {
            let is_new = self.get_bool()?;
            if is_new {
                self.get_replication_value_created(context)
            } else {
                let attributes = self.get_attributes(context, actors, actor)?;
                Ok(ReplicationValue::Updated(attributes))
            }
        } else {
            Ok(ReplicationValue::Destroyed)
        }
    }

    /// Reads one replication, and records the actor as live if it was
    /// created.
    pub fn get_replication(&mut self, context: &Context, actors: &mut HashMap<u32, u32>) -> (r:
        Result<Replication, BitGetError>)
        ensures
            bit_reads(
                old(self)@,
                final(self)@,
                replication_at(old(self)@.bytes, old(self)@.pos, context@, old(actors)@),
                crate::bit_get::bit_viewed(r),
            ),
            final(actors)@ == match r {
                Ok(replication) => actors_after(old(actors)@, replication@),
                Err(_) => old(actors)@,
            },
    {
        let actor = self.get_u32c(context.max_channels)?;
        let value = self.get_replication_value(context, &*actors, actor.value)?;
        match &value {
            ReplicationValue::Created { class_id, .. } => {
                actors.insert(actor.value, *class_id);
            },
            _ => {},
        }
        Ok(Replication { actor, value })
    }

    /// Reads the replications of one frame.
    pub fn get_replications(&mut self, context: &Context, actors: &mut HashMap<u32, u32>) -> (r:
        Result<Vec<Replication>, BitGetError>)
        ensures
            bit_reads(
                old(self)@,
                final(self)@,
                replications_at(old(self)@.bytes, old(self)@.pos, context@, old(actors)@),
                tracked_outcome(
                    r,
                    |items: Seq<Replication>| replication_views(items),
                    final(actors)@,
                ),
            ),
    {
        let mut replications: Vec<Replication> = Vec::new();
        let ghost bytes = self@.bytes;
        let ghost start = self@.pos;
        proof {
            if let Ok(((all, live), end)) = replications_at(bytes, start, context@, actors@) {
                assert(Seq::<ReplicationView>::empty() + all =~= all);
            }
            assert(replication_views(replications@) =~= Seq::<ReplicationView>::empty());
        }
        loop
            invariant
                bytes == old(self)@.bytes,
                start == old(self)@.pos,
                self@.bytes == bytes,
                start <= self@.pos,
                replications_at(bytes, start, context@, old(actors)@) == then_tracked(
                    replication_views(replications@),
                    replications_at(bytes, self@.pos, context@, actors@),
                ),
            decreases bits_left(bytes, self@.pos),
        {
            let ghost done = replication_views(replications@);
            let ghost live = actors@;
            let has_more = self.get_bool()?;
            if !has_more {
                proof {
                    assert(done + Seq::<ReplicationView>::empty() =~= done);
                }
                return Ok(replications);
            }
            let replication = self.get_replication(context, actors)?;
            proof {
                lemma_then_tracked_push(
                    done,
                    replication@,
                    replications_at(bytes, self@.pos, context@, actors@),
                );
            }
            replications.push(replication);
            proof {
                assert(replication_views(replications@) =~= done.push(replication@));
            }
        }
    }

    /// Reads one frame.
    pub fn get_frame(&mut self, context: &Context, actors: &mut HashMap<u32, u32>) -> (r: Result<
        Frame,
        BitGetError,
    >)
        ensures
            bit_reads(
                old(self)@,
                final(self)@,
                frame_at(old(self)@.bytes, old(self)@.pos, context@, old(actors)@),
                match r {
                    Ok(frame) => Ok((frame@, final(actors)@)),
                    Err(e) => Err(e@),
                },
            ),
    {
        let time = self.get_u32()?;
        let delta = self.get_u32()?;
        let replications = self.get_replications(context, actors)?;
        Ok(Frame { time, delta, replications })
    }

    /// Reads as many frames as the context announces.
    pub fn get_frames(&mut self, context: &Context, actors: &mut HashMap<u32, u32>) -> (r: Result<
        Vec<Frame>,
        BitGetError,
    >)
        ensures
            bit_reads(
                old(self)@,
                final(self)@,
                frames_at(
                    old(self)@.bytes,
                    old(self)@.pos,
                    context@,
                    old(actors)@,
                    context@.num_frames,
                ),
                tracked_outcome(r, |items: Seq<Frame>| frame_views(items), final(actors)@),
            ),
    {
        let mut frames: Vec<Frame> = Vec::new();
        let ghost bytes = self@.bytes;
        let ghost start = self@.pos;
        let count = context.num_frames;
        let mut i: usize = 0;
        proof {
            if let Ok(((all, live), end)) = frames_at(
                bytes,
                start,
                context@,
                actors@,
                count as nat,
            ) {
                assert(Seq::<FrameView>::empty() + all =~= all);
            }
            assert(frame_views(frames@) =~= Seq::<FrameView>::empty());
        }
        while i < count
            invariant
                i <= count,
                count == context@.num_frames,
                bytes == old(self)@.bytes,
                start == old(self)@.pos,
                self@.bytes == bytes,
                start <= self@.pos,
                frames@.len() == i,
                frames_at(bytes, start, context@, old(actors)@, count as nat) == then_tracked(
                    frame_views(frames@),
                    frames_at(bytes, self@.pos, context@, actors@, (count - i) as nat),
                ),
            decreases count - i,
        {
            let ghost done = frame_views(frames@);
            let frame = self.get_frame(context, actors)?;
            frames.push(frame);
            i += 1;
            proof {
                assert(frame_views(frames@) =~= done.push(frame@));
                lemma_then_tracked_push(
                    done,
                    frame@,
                    frames_at(bytes, self@.pos, context@, actors@, (count - i) as nat),
                );
            }
        }
        proof {
            assert(frame_views(frames@) + Seq::<FrameView>::empty() =~= frame_views(frames@));
        }
        Ok(frames)
    }
}

/// The head of an attribute says what the tables say: the class is that of
/// the live actor, the class sends the object under the stream id, and the
/// object has the name at its place in the object table.
pub proof fn lemma_attribute_head_at_resolved(
    bytes: Seq<u8>,
    pos: int,
    context: ContextView,
    actors: Map<u32, u32>,
    actor: u32,
)
    ensures
        attribute_head_at(bytes, pos, context, actors, actor) matches Ok((head, end)) ==> {
            &&& actors.contains_key(actor)
            &&& actors[actor] == head.class_id
            &&& context.attributes.contains_key(head.class_id)
            &&& context.attributes[head.class_id].contains_key(head.stream_id.value)
            &&& context.attributes[head.class_id][head.stream_id.value] == head.object_id
            &&& head.object_id < context.objects.len()
            &&& context.objects[head.object_id as int] == head.object
        },
{
}

/// A decoded attribute carries the head that stood before its payload, so
/// what holds of the head holds of it.
pub proof fn lemma_attribute_at_resolved(
    bytes: Seq<u8>,
    pos: int,
    context: ContextView,
    actors: Map<u32, u32>,
    actor: u32,
)
    ensures
        attribute_at(bytes, pos, context, actors, actor) matches Ok((attribute, end)) ==> {
            &&& actors.contains_key(actor)
            &&& actors[actor] == attribute.class_id
            &&& context.attributes.contains_key(attribute.class_id)
            &&& context.attributes[attribute.class_id].contains_key(attribute.stream_id.value)
            &&& context.attributes[attribute.class_id][attribute.stream_id.value]
                == attribute.object_id
            &&& attribute.object_id < context.objects.len()
            &&& context.objects[attribute.object_id as int] == attribute.object
        },
{
    lemma_attribute_head_at_resolved(bytes, pos, context, actors, actor);
}

/// An update that carries an attribute is an update of a live actor.
pub proof fn lemma_updated_actor_is_live(
    bytes: Seq<u8>,
    pos: int,
    context: ContextView,
    actors: Map<u32, u32>,
)
    ensures
        replication_at(bytes, pos, context, actors) matches Ok((replication, end)) ==> (
        replication.value matches ReplicationValueView::Updated(attributes) ==> (attributes.len()
            > 0 ==> actors.contains_key(replication.actor.value))),
{
    if let Ok((actor, body)) = u32c_at(bytes, pos, context.max_channels) {
        if let Ok((is_open, second)) = bool_at(bytes, body) {
            if let Ok((is_new, first)) = bool_at(bytes, second) {
                if is_open && !is_new {
                    if let Ok((has_more, start)) = bool_at(bytes, first) {
                        if has_more {
                            lemma_attribute_at_resolved(bytes, start, context, actors, actor.value);
                        }
                    }
                }
            }
        }
    }
}

/// Whether one of `replications` creates `actor`.
pub open spec fn creates(replications: Seq<ReplicationView>, actor: u32) -> bool {
    exists|i: int|
        0 <= i < replications.len() && (#[trigger] replications[i]).actor.value == actor
            && replications[i].value is Created
}

/// Whether one of `frames` creates `actor`.
pub open spec fn frames_create(frames: Seq<FrameView>, actor: u32) -> bool {
    exists|i: int| 0 <= i < frames.len() && creates((#[trigger] frames[i]).replications, actor)
}

/// After the replications of a frame the live actors are those that were
/// live before and those that the frame created.
pub proof fn lemma_replications_live_actors(
    bytes: Seq<u8>,
    pos: int,
    context: ContextView,
    actors: Map<u32, u32>,
)
    ensures
        replications_at(bytes, pos, context, actors) matches Ok(((replications, live), end))
            ==> forall|actor: u32|
            #[trigger] live.contains_key(actor) <==> actors.contains_key(actor) || creates(
                replications,
                actor,
            ),
    decreases bits_left(bytes, pos),
{
    if let Ok(((replications, live), end)) = replications_at(bytes, pos, context, actors) {
        let has_more = bool_at(bytes, pos)->Ok_0.0;
        let first = bool_at(bytes, pos)->Ok_0.1;
        if has_more {
            let replication = replication_at(bytes, first, context, actors)->Ok_0.0;
            let next = replication_at(bytes, first, context, actors)->Ok_0.1;
            let between = actors_after(actors, replication);
            lemma_replications_live_actors(bytes, next, context, between);
            let rest = replications_at(bytes, next, context, between)->Ok_0.0.0;
            assert(replications =~= seq![replication] + rest);
            assert forall|actor: u32|
                #[trigger] live.contains_key(actor) <==> actors.contains_key(actor) || creates(
                    replications,
                    actor,
                ) by {
                if creates(replications, actor) {
                    let i = choose|i: int|
                        0 <= i < replications.len() && (#[trigger] replications[i]).actor.value
                            == actor && replications[i].value is Created;
                    if i > 0 {
                        assert(rest[i - 1] == replications[i]);
                        assert(creates(rest, actor));
                    }
                }
                if creates(rest, actor) {
                    let i = choose|i: int|
                        0 <= i < rest.len() && (#[trigger] rest[i]).actor.value == actor
                            && rest[i].value is Created;
                    assert(replications[i + 1] == rest[i]);
                }
                if between.contains_key(actor) && !actors.contains_key(actor) {
                    assert(replications[0] == replication);
                }
            }
        } else {
            assert forall|actor: u32| !creates(replications, actor) by {}
        }
    }
}

/// After some frames the live actors are those that were live before and
/// those that the frames created.
pub proof fn lemma_frames_live_actors(
    bytes: Seq<u8>,
    pos: int,
    context: ContextView,
    actors: Map<u32, u32>,
    n: nat,
)
    ensures
        frames_at(bytes, pos, context, actors, n) matches Ok(((frames, live), end)) ==> forall|
            actor: u32,
        |
            #[trigger] live.contains_key(actor) <==> actors.contains_key(actor) || frames_create(frames, actor),
    decreases n,
{
    if let Ok(((frames, live), end)) = frames_at(bytes, pos, context, actors, n) {
        if n == 0 {
            assert forall|actor: u32| !frames_create(frames, actor) by {}
        } else {
            let frame = frame_at(bytes, pos, context, actors)->Ok_0.0.0;
            let between = frame_at(bytes, pos, context, actors)->Ok_0.0.1;
            let next = frame_at(bytes, pos, context, actors)->Ok_0.1;
            let third = bit_u32_at(bytes, bit_u32_at(bytes, pos)->Ok_0.1)->Ok_0.1;
            lemma_replications_live_actors(bytes, third, context, actors);
            lemma_frames_live_actors(bytes, next, context, between, (n - 1) as nat);
            let rest = frames_at(bytes, next, context, between, (n - 1) as nat)->Ok_0.0.0;
            assert(frames =~= seq![frame] + rest);
            assert forall|actor: u32|
                #[trigger] live.contains_key(actor) <==> actors.contains_key(actor) || frames_create(
                    frames,
                    actor,
                ) by {
                if frames_create(frames, actor) {
                    let i = choose|i: int|
                        0 <= i < frames.len() && creates((#[trigger] frames[i]).replications, actor);
                    if i > 0 {
                        assert(rest[i - 1] == frames[i]);
                        assert(frames_create(rest, actor));
                    }
                }
                if frames_create(rest, actor) {
                    let i = choose|i: int|
                        0 <= i < rest.len() && creates((#[trigger] rest[i]).replications, actor);
                    assert(frames[i + 1] == rest[i]);
                }
                if creates(frame.replications, actor) {
                    assert(frames[0] == frame);
                }
            }
        }
    }
}

/// Whether the replication at place `i` of `replications` is an update
/// that carries an attribute.
pub open spec fn updates_at(replications: Seq<ReplicationView>, i: int) -> bool {
    &&& 0 <= i < replications.len()
    &&& replications[i].value matches ReplicationValueView::Updated(attributes)
    &&& attributes.len() > 0
}

/// Among the replications of a frame, every update that carries an
/// attribute is of an actor that was live before the frame or that an
/// earlier replication of the frame created.
pub proof fn lemma_replications_update_live_actors(
    bytes: Seq<u8>,
    pos: int,
    context: ContextView,
    actors: Map<u32, u32>,
)
    ensures
        replications_at(bytes, pos, context, actors) matches Ok(((replications, live), end))
            ==> forall|i: int| #[trigger]
            updates_at(replications, i) ==> actors.contains_key(replications[i].actor.value)
                || creates(replications.take(i), replications[i].actor.value),
    decreases bits_left(bytes, pos),
{
    if let Ok(((replications, live), end)) = replications_at(bytes, pos, context, actors) {
        let has_more = bool_at(bytes, pos)->Ok_0.0;
        let first = bool_at(bytes, pos)->Ok_0.1;
        if has_more {
            let replication = replication_at(bytes, first, context, actors)->Ok_0.0;
            let next = replication_at(bytes, first, context, actors)->Ok_0.1;
            let between = actors_after(actors, replication);
            lemma_replications_update_live_actors(bytes, next, context, between);
            lemma_updated_actor_is_live(bytes, first, context, actors);
            let rest = replications_at(bytes, next, context, between)->Ok_0.0.0;
            assert(replications =~= seq![replication] + rest);
            assert forall|i: int| #[trigger] updates_at(replications, i) implies actors.contains_key(
                replications[i].actor.value,
            ) || creates(replications.take(i), replications[i].actor.value) by {
                let actor = replications[i].actor.value;
                if i > 0 {
                    assert(rest[i - 1] == replications[i]);
                    assert(updates_at(rest, i - 1));
                    let before = replications.take(i);
                    if creates(rest.take(i - 1), actor) {
                        let j = choose|j: int|
                            0 <= j < rest.take(i - 1).len() && (#[trigger] rest.take(
                                i - 1,
                            )[j]).actor.value == actor && rest.take(i - 1)[j].value is Created;
                        assert(before[j + 1] == rest.take(i - 1)[j]);
                    } else if !actors.contains_key(actor) {
                        assert(between.contains_key(actor));
                        assert(before[0] == replication);
                    }
                }
            }
        }
    }
}

/// Among some frames, every update that carries an attribute is of an
/// actor that was live before the frames or that an earlier replication
/// created, in the same frame or in a frame before.
pub proof fn lemma_frames_update_live_actors(
    bytes: Seq<u8>,
    pos: int,
    context: ContextView,
    actors: Map<u32, u32>,
    n: nat,
)
    ensures
        frames_at(bytes, pos, context, actors, n) matches Ok(((frames, live), end)) ==> forall|
            f: int,
            i: int,
        |
            0 <= f < frames.len() && #[trigger] updates_at(frames[f].replications, i) ==> {
                let actor = frames[f].replications[i].actor.value;
                ||| actors.contains_key(actor)
                ||| frames_create(frames.take(f), actor)
                ||| creates(frames[f].replications.take(i), actor)
            },
    decreases n,
{
    if let Ok(((frames, live), end)) = frames_at(bytes, pos, context, actors, n) {
        if n > 0 {
            let frame = frame_at(bytes, pos, context, actors)->Ok_0.0.0;
            let between = frame_at(bytes, pos, context, actors)->Ok_0.0.1;
            let next = frame_at(bytes, pos, context, actors)->Ok_0.1;
            let third = bit_u32_at(bytes, bit_u32_at(bytes, pos)->Ok_0.1)->Ok_0.1;
            lemma_replications_live_actors(bytes, third, context, actors);
            lemma_replications_update_live_actors(bytes, third, context, actors);
            lemma_frames_update_live_actors(bytes, next, context, between, (n - 1) as nat);
            let rest = frames_at(bytes, next, context, between, (n - 1) as nat)->Ok_0.0.0;
            assert(frames =~= seq![frame] + rest);
            assert forall|f: int, i: int|
                0 <= f < frames.len() && #[trigger] updates_at(frames[f].replications, i) implies ({
                let actor = frames[f].replications[i].actor.value;
                ||| actors.contains_key(actor)
                ||| frames_create(frames.take(f), actor)
                ||| creates(frames[f].replications.take(i), actor)
            }) by {
                let actor = frames[f].replications[i].actor.value;
                if f > 0 {
                    assert(rest[f - 1] == frames[f]);
                    assert(updates_at(rest[f - 1].replications, i));
                    let before = frames.take(f);
                    if creates(rest[f - 1].replications.take(i), actor) {
                    } else if frames_create(rest.take(f - 1), actor) {
                        let j = choose|j: int|
                            0 <= j < rest.take(f - 1).len() && creates(
                                (#[trigger] rest.take(f - 1)[j]).replications,
                                actor,
                            );
                        assert(before[j + 1] == rest.take(f - 1)[j]);
                    } else if !actors.contains_key(actor) {
                        assert(between.contains_key(actor));
                        assert(creates(frame.replications, actor));
                        assert(before[0] == frame);
                    }
                }
            }
        }
    }
}

/// In the frames of a stream, before which no actor is live, every update
/// that carries an attribute is of an actor that an earlier replication
/// created, in the same frame or in a frame before.
pub proof fn lemma_updates_follow_creation(bytes: Seq<u8>, context: ContextView, n: nat)
    ensures
        frames_at(bytes, 0, context, Map::empty(), n) matches Ok(((frames, live), end))
            ==> forall|f: int, i: int|
            0 <= f < frames.len() && #[trigger] updates_at(frames[f].replications, i) ==> {
                let actor = frames[f].replications[i].actor.value;
                ||| frames_create(frames.take(f), actor)
                ||| creates(frames[f].replications.take(i), actor)
            },
{
    lemma_frames_update_live_actors(bytes, 0, context, Map::empty(), n);
}

/// A location ends at or behind its start.
pub proof fn lemma_location_at_advances(bytes: Seq<u8>, pos: int)
    ensures
        location_at(bytes, pos) matches Ok((location, end)) ==> pos <= end,
{
    lemma_u32c_at_bounded(bytes, pos, LOCATION_SIZE_LIMIT);
    if let Ok((size, first)) = u32c_at(bytes, pos, LOCATION_SIZE_LIMIT) {
        let limit = location_limit(size.value);
        lemma_u32c_at_bounded(bytes, first, limit);
        if let Ok((x, second)) = u32c_at(bytes, first, limit) {
            lemma_u32c_at_bounded(bytes, second, limit);
            if let Ok((y, third)) = u32c_at(bytes, second, limit) {
                lemma_u32c_at_bounded(bytes, third, limit);
            }
        }
    }
}

/// A rotation ends behind its start.
pub proof fn lemma_rotation_at_advances(bytes: Seq<u8>, pos: int)
    ensures
        rotation_at(bytes, pos) matches Ok((rotation, end)) ==> pos < end,
{
    if let Ok((x, second)) = angle_at(bytes, pos) {
        lemma_bits_at_bound(bytes, pos + 1, 8);
        if let Ok((y, third)) = angle_at(bytes, second) {
            lemma_bits_at_bound(bytes, second + 1, 8);
            lemma_bits_at_bound(bytes, third + 1, 8);
        }
    }
}

/// What is sent of a new actor ends behind its start.
pub proof fn lemma_created_at_advances(bytes: Seq<u8>, pos: int, context: ContextView)
    ensures
        created_at(bytes, pos, context) matches Ok((value, end)) ==> pos < end,
{
    if let Ok((unknown, named)) = bool_at(bytes, pos) {
        lemma_bits_at_bound(bytes, named, 32);
        if let Ok(((name_index, name), indexed)) = actor_name_at(bytes, named, context) {
            lemma_bits_at_bound(bytes, indexed, 32);
            if let Ok((object_index, placed)) = bit_u32_at(bytes, indexed) {
                lemma_location_at_advances(bytes, placed);
                if let Some((class_id, class)) = class_below(context.classes, object_index) {
                    if let Ok((location, turned)) = bit_option_at::<Location>(
                        bytes,
                        placed,
                        with_location(class),
                    ) {
                        lemma_rotation_at_advances(bytes, turned);
                    }
                }
            }
        }
    }
}

/// An attribute ends at or behind its start, and the attributes of an
/// update end behind theirs: the test in [`attributes_at`] never fails.
pub proof fn lemma_attributes_at_advance(
    bytes: Seq<u8>,
    pos: int,
    context: ContextView,
    actors: Map<u32, u32>,
    actor: u32,
)
    ensures
        attribute_at(bytes, pos, context, actors, actor) matches Ok((attribute, end)) ==> pos
            <= end,
        attributes_at(bytes, pos, context, actors, actor) matches Ok((attributes, end)) ==> pos
            < end,
    decreases bits_left(bytes, pos),
{
    if let Ok((head, body)) = attribute_head_at(bytes, pos, context, actors, actor) {
        lemma_u32c_at_bounded(bytes, pos, max_key(context.attributes[actors[actor]]));
    }
    if let Ok((has_more, first)) = bool_at(bytes, pos) {
        if has_more {
            if let Ok((attribute, next)) = attribute_at(bytes, first, context, actors, actor) {
                if first <= next {
                    lemma_attributes_at_advance(bytes, next, context, actors, actor);
                }
            }
        }
    }
}

/// A replication ends behind its start: the test in [`replications_at`]
/// never fails.
pub proof fn lemma_replication_at_advances(
    bytes: Seq<u8>,
    pos: int,
    context: ContextView,
    actors: Map<u32, u32>,
)
    ensures
        replication_at(bytes, pos, context, actors) matches Ok((replication, end)) ==> pos < end,
{
    lemma_u32c_at_bounded(bytes, pos, context.max_channels);
    if let Ok((actor, body)) = u32c_at(bytes, pos, context.max_channels) {
        if let Ok((is_open, second)) = bool_at(bytes, body) {
            if let Ok((is_new, third)) = bool_at(bytes, second) {
                lemma_created_at_advances(bytes, third, context);
                lemma_attributes_at_advance(bytes, third, context, actors, actor.value);
            }
        }
    }
}

} // verus!
