//! The replay as a whole: two sections, each guarded by a checksum.

use crate::bit_get::BitGet;
use crate::checksum::crc_32;
use crate::checksum::crc_32_of;
use crate::container::header_at;
use crate::container::list_at;
use crate::container::Cache;
use crate::container::CacheView;
use crate::container::Class;
use crate::container::ClassView;
use crate::container::Header;
use crate::container::HeaderView;
use crate::container::Keyframe;
use crate::container::List;
use crate::container::ListView;
use crate::container::Mark;
use crate::container::MarkView;
use crate::container::Message;
use crate::container::MessageView;
use crate::container::Text;
use crate::container::TextView;
use crate::context::context_of;
use crate::context::Context;
use crate::convert::u32_usize;
use crate::error::GetError;
use crate::error::GetFault;
use crate::get::reads;
use crate::get::u32_at;
use crate::get::vec_at;
use crate::get::viewed;
use crate::get::Get;
use crate::get::Parsed;
use crate::replication::frame_views;
use crate::replication::frames_at;
use crate::replication::Frame;
use crate::replication::FrameView;
use std::collections::HashMap;
use vstd::prelude::*;

verus! {

/// A value with the size of its encoding and the checksum of its encoding,
/// as they were announced before it.
#[derive(Debug, PartialEq, Eq)]
pub struct Section<T> {
    pub size: u32,
    pub crc: u32,
    pub value: T,
}

/// The mathematical content of a [`Section`].
pub struct SectionView<V> {
    pub size: u32,
    pub crc: u32,
    pub value: V,
}

impl<T: View> View for Section<T> {
    type V = SectionView<T::V>;

    open spec fn view(&self) -> SectionView<T::V> {
        SectionView { size: self.size, crc: self.crc, value: self.value@ }
    }
}

/// What a section says of itself at offset `at`: its size and its checksum,
/// provided that the `size` bytes behind the two are there and have that
/// checksum. The offset that comes with them is that of the body.
pub open spec fn section_start_at(bytes: Seq<u8>, at: int) -> Parsed<(u32, u32)> {
    match u32_at(bytes, at) {
        Err(e) => Err(e),
        Ok((size, second)) => match u32_at(bytes, second) {
            Err(e) => Err(e),
            Ok((crc, body)) => match vec_at(bytes, body, size as int) {
                Err(e) => Err(e),
                Ok((payload, end)) => if crc_32_of(payload) == crc {
                    Ok(((size, crc), body))
                } else {
                    Err(GetFault::ChecksumMismatch { expected: crc, actual: crc_32_of(payload) })
                },
            },
        },
    }
}

/// The section at offset `at` whose value is what `value_at` finds at the
/// offset of the body.
pub open spec fn section_at<V>(bytes: Seq<u8>, at: int, value_at: spec_fn(int) -> Parsed<V>)
    -> Parsed<SectionView<V>> {
    match section_start_at(bytes, at) {
        Err(e) => Err(e),
        Ok(((size, crc), body)) => match value_at(body) {
            Err(e) => Err(e),
            Ok((value, end)) => Ok((SectionView { size, crc, value }, end)),
        },
    }
}

/// What follows the header: the tables of the match and its frames.
#[derive(Debug, PartialEq, Eq)]
pub struct Content {
    pub levels: List<Text>,
    pub keyframes: List<Keyframe>,
    pub size: u32,
    pub messages: List<Message>,
    pub marks: List<Mark>,
    pub packages: List<Text>,
    pub objects: List<Text>,
    pub names: List<Text>,
    pub classes: List<Class>,
    pub caches: List<Cache>,
    pub frames: Vec<Frame>,
}

/// The mathematical content of a [`Content`].
pub struct ContentView {
    pub levels: ListView<TextView>,
    pub keyframes: ListView<Keyframe>,
    pub size: u32,
    pub messages: ListView<MessageView>,
    pub marks: ListView<MarkView>,
    pub packages: ListView<TextView>,
    pub objects: ListView<TextView>,
    pub names: ListView<TextView>,
    pub classes: ListView<ClassView>,
    pub caches: ListView<CacheView>,
    pub frames: Seq<FrameView>,
}

impl View for Content {
    type V = ContentView;

    open spec fn view(&self) -> ContentView {
        ContentView {
            levels: self.levels@,
            keyframes: self.keyframes@,
            size: self.size,
            messages: self.messages@,
            marks: self.marks@,
            packages: self.packages@,
            objects: self.objects@,
            names: self.names@,
            classes: self.classes@,
            caches: self.caches@,
            frames: frame_views(self.frames@),
        }
    }
}

/// The frames that the bytes `stream` hold for a replay with this header
/// and these tables. No actor is live before the first frame.
pub open spec fn stream_frames(
    stream: Seq<u8>,
    header: HeaderView,
    names: Seq<TextView>,
    objects: Seq<TextView>,
    classes: Seq<ClassView>,
    caches: Seq<CacheView>,
) -> Result<Seq<FrameView>, GetFault> {
    let context = context_of(header, names, objects, classes, caches);
    match frames_at(stream, 0, context, Map::empty(), context.num_frames) {
        Err(e) => Err(GetFault::BitGet(e)),
        Ok(((frames, live), end)) => Ok(frames),
    }
}

/// The content at offset `at` of a replay with the header `header`: the
/// lists in their order, with the frame stream as a sized run of bytes
/// after the keyframes, and the frames that this stream holds.
pub open spec fn content_at(bytes: Seq<u8>, at: int, header: HeaderView) -> Parsed<ContentView> {
    match list_at::<Text>(bytes, at) {
        Err(e) => Err(e),
        Ok((levels, keyframes_start)) => match list_at::<Keyframe>(bytes, keyframes_start) {
            Err(e) => Err(e),
            Ok((keyframes, stream_size_start)) => match u32_at(bytes, stream_size_start) {
                Err(e) => Err(e),
                Ok((size, stream_start)) => match vec_at(bytes, stream_start, size as int) {
                    Err(e) => Err(e),
                    Ok((stream, messages_start)) => match list_at::<Message>(bytes, messages_start) {
                        Err(e) => Err(e),
                        Ok((messages, marks_start)) => match list_at::<Mark>(bytes, marks_start) {
                            Err(e) => Err(e),
                            Ok((marks, packages_start)) => match list_at::<Text>(bytes, packages_start) {
                                Err(e) => Err(e),
                                Ok((packages, objects_start)) => match list_at::<Text>(bytes, objects_start) {
                                    Err(e) => Err(e),
                                    Ok((objects, names_start)) => match list_at::<Text>(bytes, names_start) {
                                        Err(e) => Err(e),
                                        Ok((names, classes_start)) => match list_at::<Class>(bytes, classes_start) {
                                            Err(e) => Err(e),
                                            Ok((classes, caches_start)) => match list_at::<Cache>(
                                                bytes,
                                                caches_start,
                                            ) {
                                                Err(e) => Err(e),
                                                Ok((caches, end)) => match stream_frames(
                                                    stream,
                                                    header,
                                                    names.value,
                                                    objects.value,
                                                    classes.value,
                                                    caches.value,
                                                ) {
                                                    Err(e) => Err(e),
                                                    Ok(frames) => Ok(
                                                        (
                                                            ContentView {
                                                                levels,
                                                                keyframes,
                                                                size,
                                                                messages,
                                                                marks,
                                                                packages,
                                                                objects,
                                                                names,
                                                                classes,
                                                                caches,
                                                                frames,
                                                            },
                                                            end,
                                                        ),
                                                    ),
                                                },
                                            },
                                        },
                                    },
                                },
                            },
                        },
                    },
                },
            },
        },
    }
}

/// A decoded replay.
#[derive(Debug, PartialEq, Eq)]
pub struct Replay {
    pub header: Section<Header>,
    pub content: Section<Content>,
}

/// The mathematical content of a [`Replay`].
pub struct ReplayView {
    pub header: SectionView<HeaderView>,
    pub content: SectionView<ContentView>,
}

impl View for Replay {
    type V = ReplayView;

    open spec fn view(&self) -> ReplayView {
        ReplayView { header: self.header@, content: self.content@ }
    }
}

/// The replay at offset `at`: the header section, then the content section.
pub open spec fn replay_at(bytes: Seq<u8>, at: int) -> Parsed<ReplayView> {
    match section_at(bytes, at, |body: int| header_at(bytes, body)) {
        Err(e) => Err(e),
        Ok((header, second)) => match section_at(
            bytes,
            second,
            |body: int| content_at(bytes, body, header.value),
        ) {
            Err(e) => Err(e),
            Ok((content, end)) => Ok((ReplayView { header, content }, end)),
        },
    }
}

impl Get {
    /// Checks that the next `size` bytes have the checksum `expected`.
    pub fn check_crc_32(&self, size: u32, expected: u32) -> (r: Result<(), GetError>)
        ensures
            match r {
                Ok(_) => vec_at(self@.bytes, self@.index, size as int) matches Ok((payload, end))
                    && crc_32_of(payload) == expected,
                Err(e) => match vec_at(self@.bytes, self@.index, size as int) {
                    Err(fault) => e@ == fault,
                    Ok((payload, end)) => crc_32_of(payload) != expected && e@
                        == (GetFault::ChecksumMismatch {
                        expected,
                        actual: crc_32_of(payload),
                    }),
                },
            },
    {
        let bytes = self.peek_vec(u32_usize(size))?;
        let actual = crc_32(bytes.as_slice());
        if actual == expected {
            Ok(())
        } else {
            Err(GetError::ChecksumMismatch { expected, actual })
        }
    }

    /// Reads the size and the checksum of a section and checks its body
    /// against them, without reading the body.
    pub fn get_section_start(&mut self) -> (r: Result<(u32, u32), GetError>)
        ensures
            reads(
                old(self)@,
                final(self)@,
                section_start_at(old(self)@.bytes, old(self)@.index),
                crate::get::plain(r),
            ),
            r matches Ok((size, crc)) ==> crc_32_of(
                old(self)@.bytes.subrange(final(self)@.index, final(self)@.index + size),
            ) == crc,
    {
        let size = self.get_u32()?;
        let crc = self.get_u32()?;
        self.check_crc_32(size, crc)?;
        Ok((size, crc))
    }

    /// Reads the header section.
    pub fn get_header_section(&mut self) -> (r: Result<Section<Header>, GetError>)
        ensures
            reads(
                old(self)@,
                final(self)@,
                section_at(
                    old(self)@.bytes,
                    old(self)@.index,
                    |body: int| header_at(old(self)@.bytes, body),
                ),
                viewed(r),
            ),
            r matches Ok(section) ==> crc_32_of(
                old(self)@.bytes.subrange(
                    old(self)@.index + 8,
                    old(self)@.index + 8 + section.size,
                ),
            ) == section.crc,
    {
        proof {
            lemma_section_checksum(self@.bytes, self@.index);
        }
        let (size, crc) = self.get_section_start()?;
        let value = self.get_header()?;
        Ok(Section { size, crc, value })
    }

    /// Reads the content section of a replay with the header `header`.
    pub fn get_content_section(&mut self, header: &Header) -> (r: Result<
        Section<Content>,
        GetError,
    >)
        ensures
            reads(
                old(self)@,
                final(self)@,
                section_at(
                    old(self)@.bytes,
                    old(self)@.index,
                    |body: int| content_at(old(self)@.bytes, body, header@),
                ),
                viewed(r),
            ),
            r matches Ok(section) ==> crc_32_of(
                old(self)@.bytes.subrange(
                    old(self)@.index + 8,
                    old(self)@.index + 8 + section.size,
                ),
            ) == section.crc,
    {
        proof {
            lemma_section_checksum(self@.bytes, self@.index);
        }
        let (size, crc) = self.get_section_start()?;
        let value = self.get_content(header)?;
        Ok(Section { size, crc, value })
    }

    /// Reads the content of a replay with the header `header`.
    pub fn get_content(&mut self, header: &Header) -> (r: Result<Content, GetError>)
        ensures
            reads(
                old(self)@,
                final(self)@,
                content_at(old(self)@.bytes, old(self)@.index, header@),
                viewed(r),
            ),
    {
        let levels = self.get_list::<Text>()?;
        let keyframes = self.get_list::<Keyframe>()?;
        let size = self.get_u32()?;
        let bytes = self.get_vec(u32_usize(size))?;
        let messages = self.get_list::<Message>()?;
        let marks = self.get_list::<Mark>()?;
        let packages = self.get_list::<Text>()?;
        let objects = self.get_list::<Text>()?;
        let names = self.get_list::<Text>()?;
        let classes = self.get_list::<Class>()?;
        let caches = self.get_list::<Cache>()?;
        let context = Context::new(header, &names, &objects, &classes, &caches);
        let frames = Self::get_frames(bytes, &context)?;
        Ok(
            Content {
                levels,
                keyframes,
                size,
                messages,
                marks,
                packages,
                objects,
                names,
                classes,
                caches,
                frames,
            },
        )
    }

    /// Decodes the frames that the bytes `bytes` hold, starting with no live
    /// actor.
    pub fn get_frames(bytes: Vec<u8>, context: &Context) -> (r: Result<Vec<Frame>, GetError>)
        ensures
            match r {
                Ok(frames) => frames_at(
                    bytes@,
                    0,
                    context@,
                    Map::empty(),
                    context@.num_frames,
                ) matches Ok(((models, live), end)) && models == frame_views(frames@),
                Err(e) => frames_at(
                    bytes@,
                    0,
                    context@,
                    Map::empty(),
                    context@.num_frames,
                ) matches Err(fault) && e@ == GetFault::BitGet(fault),
            },
    {
        let mut actors: HashMap<u32, u32> = HashMap::new();
        let mut stream = BitGet::new(bytes);
        match stream.get_frames(context, &mut actors) {
            Err(problem) => Err(GetError::BitGet(problem)),
            Ok(frames) => Ok(frames),
        }
    }

    /// Decodes the replay under the cursor.
    pub fn get_replay(&mut self) -> (r: Result<Replay, GetError>)
        ensures
            reads(
                old(self)@,
                final(self)@,
                replay_at(old(self)@.bytes, old(self)@.index),
                viewed(r),
            ),
    {
        let header = self.get_header_section()?;
        let content = self.get_content_section(&header.value)?;
        Ok(Replay { header, content })
    }
}

/// A section that starts is a section whose body has the checksum that
/// stands before it.
pub proof fn lemma_section_checksum(bytes: Seq<u8>, at: int)
    ensures
        section_start_at(bytes, at) matches Ok(((size, crc), body)) ==> {
            &&& body == at + 8
            &&& body + size <= bytes.len()
            &&& crc_32_of(bytes.subrange(body, body + size)) == crc
        },
{
}

/// Both sections of a decoded replay carry the checksum of their bodies.
pub proof fn lemma_replay_checksums(bytes: Seq<u8>, at: int)
    ensures
        replay_at(bytes, at) matches Ok((replay, end)) ==> {
            let header_body = at + 8;
            let content_body = section_at(
                bytes,
                at,
                |body: int| header_at(bytes, body),
            )->Ok_0.1 + 8;
            &&& crc_32_of(bytes.subrange(header_body, header_body + replay.header.size))
                == replay.header.crc
            &&& crc_32_of(bytes.subrange(content_body, content_body + replay.content.size))
                == replay.content.crc
        },
{
    if let Ok((replay, end)) = replay_at(bytes, at) {
        lemma_section_checksum(bytes, at);
        let second = section_at(bytes, at, |body: int| header_at(bytes, body))->Ok_0.1;
        lemma_section_checksum(bytes, second);
    }
}

/// Whether the bytes are those of `replay` and nothing else: the value of
/// each section ends where the size of the section says, and the sizes of
/// the two sections with their eight bytes of size and checksum each add
/// up to the number of bytes.
pub open spec fn sections_fill(bytes: Seq<u8>, replay: ReplayView) -> bool {
    &&& header_at(bytes, 8) matches Ok((header, end)) && end == 8 + replay.header.size
    &&& content_at(bytes, 16 + replay.header.size, replay.header.value) matches Ok((content, end))
        && end == 16 + replay.header.size + replay.content.size
    &&& bytes.len() == 16 + replay.header.size + replay.content.size
}

/// Decoding a replay whose sections fill the bytes consumes every byte.
pub proof fn lemma_replay_consumes_all(bytes: Seq<u8>, replay: ReplayView, end: int)
    requires
        replay_at(bytes, 0) == Ok::<(ReplayView, int), GetFault>((replay, end)),
        sections_fill(bytes, replay),
    ensures
        end == bytes.len(),
{
    lemma_section_checksum(bytes, 0);
    lemma_section_checksum(bytes, 8 + replay.header.size);
}

} // verus!
