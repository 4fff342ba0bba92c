use crate::error::BmffError;
use crate::ext_cr3::jpeg::JpegBox;
use crate::fourcc::FourCC;
use crate::header::{header_at, header_len_at, BoxHeader};
use crate::opaque::OpaqueBox;
use crate::read_box::ReadBox;
use crate::stream::ByteStream;
use crate::stts::{SttsBox, SttsTable};
use vstd::prelude::*;

verus! {

/// The bytes of the tag `moov`.
pub const MOOV: [u8; 4] = [0x6d, 0x6f, 0x6f, 0x76];

/// The bytes of the tag `trak`.
pub const TRAK: [u8; 4] = [0x74, 0x72, 0x61, 0x6b];

/// The bytes of the tag `mdia`.
pub const MDIA: [u8; 4] = [0x6d, 0x64, 0x69, 0x61];

/// The bytes of the tag `minf`.
pub const MINF: [u8; 4] = [0x6d, 0x69, 0x6e, 0x66];

/// The bytes of the tag `stbl`.
pub const STBL: [u8; 4] = [0x73, 0x74, 0x62, 0x6c];

/// How the payload of a box is decoded.
#[derive(Clone, Copy, Debug, PartialEq, Eq, Structural)]
pub enum BoxKind {
    /// Version and flags, nothing else.
    Marker,
    /// The sample-timing table.
    SampleTiming,
    /// A sequence of boxes.
    Container,
    /// Not known: skipped.
    Opaque,
}

/// A box that holds boxes.
#[derive(Debug, Default, PartialEq)]
pub struct ContainerBox {
    pub header: BoxHeader,
    pub children: Vec<BmffBox>,
}

/// A decoded box. Each variant holds the header it was decoded under, and a
/// container owns its children.
#[derive(Debug, PartialEq)]
pub enum BmffBox {
    Jpeg(JpegBox),
    Stts(SttsBox),
    Container(ContainerBox),
    Opaque(OpaqueBox),
}

/// A decoded box as a value.
pub enum BoxTree {
    Jpeg(JpegBox),
    Stts(SttsTable),
    Container(BoxHeader, Seq<BoxTree>),
    Opaque(OpaqueBox),
}

impl View for BmffBox {
    type V = BoxTree;

    open spec fn view(&self) -> BoxTree
        decreases self,
    {
        match self {
            BmffBox::Jpeg(b) => BoxTree::Jpeg(*b),
            BmffBox::Stts(b) => BoxTree::Stts(b@),
            // an index outside the range picks no child: the branch bounds
            // the recursion to the children that are there
            BmffBox::Container(b) => BoxTree::Container(
                b.header,
                Seq::new(
                    b.children@.len(),
                    |i: int|
                        if 0 <= i < b.children@.len() {
                            b.children[i]@
                        } else {
                            BoxTree::Opaque(OpaqueBox { header: b.header })
                        },
                ),
            ),
            BmffBox::Opaque(b) => BoxTree::Opaque(*b),
        }
    }
}

impl BoxTree {
    /// The header that the box was decoded under.
    pub open spec fn header(self) -> BoxHeader {
        match self {
            BoxTree::Jpeg(b) => b.header,
            BoxTree::Stts(b) => b.header,
            BoxTree::Container(header, _) => header,
            BoxTree::Opaque(b) => b.header,
        }
    }
}

impl BmffBox {
    /// The header that the box was decoded under.
    pub fn header(&self) -> (h: BoxHeader)
        ensures
            h == self@.header(),
    {
        match self {
            BmffBox::Jpeg(b) => b.header,
            BmffBox::Stts(b) => b.header,
            BmffBox::Container(b) => b.header,
            BmffBox::Opaque(b) => b.header,
        }
    }
}

/// The values of a sequence of boxes, in order.
pub open spec fn trees(boxes: Seq<BmffBox>) -> Seq<BoxTree> {
    Seq::new(boxes.len(), |i: int| boxes[i]@)
}

/// The kind under which a tag is registered. Five tags of the base format
/// are containers; every tag that is not registered is opaque.
pub open spec fn kind_of(tag: FourCC) -> BoxKind {
    if tag == JpegBox::tag() {
        BoxKind::Marker
    } else if tag == SttsBox::tag() {
        BoxKind::SampleTiming
    } else if tag.value == MOOV || tag.value == TRAK || tag.value == MDIA || tag.value == MINF
        || tag.value == STBL {
        BoxKind::Container
    } else {
        BoxKind::Opaque
    }
}

/// The number of bytes from `from` to `to`, none where `to` lies before
/// `from`.
pub open spec fn span(from: int, to: int) -> nat {
    if from <= to {
        (to - from) as nat
    } else {
        0
    }
}

/// What the payload at `pos` decodes to under `header`.
pub open spec fn payload_at(data: Seq<u8>, pos: u64, header: BoxHeader) -> Result<
    BoxTree,
    BmffError,
>
    decreases span(pos as int, header.end()), 1nat,
{
    match kind_of(header.type_tag) {
        BoxKind::Marker => match JpegBox::decoded(data, pos, header) {
            Ok(b) => Ok(BoxTree::Jpeg(b)),
            Err(e) => Err(e),
        },
        BoxKind::SampleTiming => match SttsBox::decoded(data, pos, header) {
            Ok(b) => Ok(BoxTree::Stts(b)),
            Err(e) => Err(e),
        },
        BoxKind::Container => if !header.wf() {
            Err(BmffError::MalformedHeader { offset: header.start_offset })
        } else {
            match boxes_in(data, pos, header.end() as u64) {
                Ok(children) => Ok(BoxTree::Container(header, children)),
                Err(e) => Err(e),
            }
        },
        BoxKind::Opaque => match OpaqueBox::decoded(data, pos, header) {
            Ok(b) => Ok(BoxTree::Opaque(b)),
            Err(e) => Err(e),
        },
    }
}

/// The boxes that fill the region from `pos` to `region_end`, in order.
///
/// The region is walked header by header: each box is decoded behind its
/// header, and the next header is looked for at the end offset of the box,
/// until that offset is `region_end`. The first failure is the failure of the
/// whole region.
pub open spec fn boxes_in(data: Seq<u8>, pos: u64, region_end: u64) -> Result<
    Seq<BoxTree>,
    BmffError,
>
    decreases span(pos as int, region_end as int), 0nat,
{
    if pos == region_end {
        Ok(Seq::empty())
    } else {
        match header_at(data, pos, region_end) {
            Err(e) => Err(e),
            Ok(header) => match payload_at(
                data,
                (pos + header_len_at(data, pos as int)) as u64,
                header,
            ) {
                Err(e) => Err(e),
                Ok(first) => match boxes_in(data, header.end() as u64, region_end) {
                    Err(e) => Err(e),
                    Ok(rest) => Ok(seq![first] + rest),
                },
            },
        }
    }
}

/// The box whose header lies at `pos`, in a region that ends at `region_end`.
pub open spec fn box_at(data: Seq<u8>, pos: u64, region_end: u64) -> Result<BoxTree, BmffError> {
    match header_at(data, pos, region_end) {
        Err(e) => Err(e),
        Ok(header) => payload_at(data, (pos + header_len_at(data, pos as int)) as u64, header),
    }
}

/// A container's value holds its header and the values of its children.
pub proof fn lemma_container_view(c: ContainerBox)
    ensures
        BmffBox::Container(c)@ == BoxTree::Container(c.header, trees(c.children@)),
{
    reveal_with_fuel(<BmffBox as View>::view, 2);
    let b = BmffBox::Container(c);
    assert forall|i: int| 0 <= i < c.children@.len() implies b@->Container_1[i] == trees(
        c.children@,
    )[i] by {
        assert(c.children[i] == c.children@[i]);
    }
    assert(b@->Container_1 =~= trees(c.children@));
}

/// Looks a tag up in the registry.
pub fn lookup(tag: FourCC) -> (kind: BoxKind)
    ensures
        kind == kind_of(tag),
{
    if tag == JpegBox::typ() {
        BoxKind::Marker
    } else if tag == SttsBox::typ() {
        BoxKind::SampleTiming
    } else if tag == (FourCC { value: MOOV }) || tag == (FourCC { value: TRAK }) || tag == (FourCC {
        value: MDIA,
    }) || tag == (FourCC { value: MINF }) || tag == (FourCC { value: STBL }) {
        BoxKind::Container
    } else {
        BoxKind::Opaque
    }
}

/// Decodes the payload at the stream's position with the decoder that the
/// registry holds for the header's tag, and leaves the stream at the header's
/// end offset. On failure the stream stays where it was.
pub fn read_payload(stream: &mut ByteStream, header: BoxHeader) -> (r: Result<BmffBox, BmffError>)
    ensures
        final(stream).data@ == old(stream).data@,
        match r {
            Ok(b) => payload_at(old(stream).data@, old(stream).pos, header) == Ok::<
                BoxTree,
                BmffError,
            >(b@) && final(stream).pos == header.end(),
            Err(e) => payload_at(old(stream).data@, old(stream).pos, header) == Err::<
                BoxTree,
                BmffError,
            >(e) && final(stream).pos == old(stream).pos,
        },
    decreases span(old(stream).pos as int, header.end()), 2nat,
{
    match lookup(header.type_tag) {
        BoxKind::Marker => match JpegBox::read_box(stream, header) {
            Ok(b) => Ok(BmffBox::Jpeg(b)),
            Err(e) => Err(e),
        },
        BoxKind::SampleTiming => match SttsBox::read_box(stream, header) {
            Ok(b) => Ok(BmffBox::Stts(b)),
            Err(e) => Err(e),
        },
        BoxKind::Container => {
            if !header.is_valid() {
                return Err(BmffError::MalformedHeader { offset: header.start_offset });
            }
            match read_boxes(stream, header.end_offset()) {
                Ok(children) => {
                    let container = ContainerBox { header, children };
                    proof {
                        lemma_container_view(container);
                    }
                    Ok(BmffBox::Container(container))
                },
                Err(e) => Err(e),
            }
        },
        BoxKind::Opaque => match OpaqueBox::read_box(stream, header) {
            Ok(b) => Ok(BmffBox::Opaque(b)),
            Err(e) => Err(e),
        },
    }
}

/// Decodes the box that starts at the stream's position, header and
/// payload, in a region that ends at `region_end`, and leaves the stream at the
/// end offset of the box. On failure the stream stays where it was.
pub fn read_next_box(stream: &mut ByteStream, region_end: u64) -> (r: Result<BmffBox, BmffError>)
    ensures
        final(stream).data@ == old(stream).data@,
        match r {
            Ok(b) => box_at(old(stream).data@, old(stream).pos, region_end) == Ok::<
                BoxTree,
                BmffError,
            >(b@) && header_at(old(stream).data@, old(stream).pos, region_end) == Ok::<
                BoxHeader,
                BmffError,
            >(b@.header()) && final(stream).pos == b@.header().end(),
            Err(e) => box_at(old(stream).data@, old(stream).pos, region_end) == Err::<
                BoxTree,
                BmffError,
            >(e) && final(stream).pos == old(stream).pos,
        },
    decreases span(old(stream).pos as int, region_end as int), 0nat,
{
    let start = stream.position();
    let header = match BoxHeader::decode(stream, region_end) {
        Ok(header) => header,
        Err(e) => {
            return Err(e);
        },
    };
    match read_payload(stream, header) {
        Ok(b) => Ok(b),
        Err(e) => {
            stream.seek(start);
            Err(e)
        },
    }
}

/// Walks the region from the stream's position to `region_end`: decodes box
/// after box, each where the one before it ends, until the position is
/// `region_end`. On failure no box is returned and the stream stays where it
/// was.
pub fn read_boxes(stream: &mut ByteStream, region_end: u64) -> (r: Result<Vec<BmffBox>, BmffError>)
    ensures
        final(stream).data@ == old(stream).data@,
        match r {
            Ok(boxes) => boxes_in(old(stream).data@, old(stream).pos, region_end) == Ok::<
                Seq<BoxTree>,
                BmffError,
            >(trees(boxes@)) && final(stream).pos == region_end,
            Err(e) => boxes_in(old(stream).data@, old(stream).pos, region_end) == Err::<
                Seq<BoxTree>,
                BmffError,
            >(e) && final(stream).pos == old(stream).pos,
        },
    decreases span(old(stream).pos as int, region_end as int), 1nat,
{
    let start = stream.position();
    let ghost data = stream.data@;
    let mut boxes: Vec<BmffBox> = Vec::new();
    while stream.pos != region_end
        invariant
            data == old(stream).data@,
            start == old(stream).pos,
            stream.data@ == data,
            span(stream.pos as int, region_end as int) <= span(start as int, region_end as int),
            // the boxes walked so far, followed by the walk of what is left,
            // are the walk of the region
            boxes_in(data, start, region_end) == match boxes_in(data, stream.pos, region_end) {
                Ok(rest) => Ok::<Seq<BoxTree>, BmffError>(trees(boxes@) + rest),
                Err(e) => Err(e),
            },
        decreases span(stream.pos as int, region_end as int),
    {
        let ghost walked = trees(boxes@);
        let b = match read_next_box(stream, region_end) {
            Ok(b) => b,
            Err(e) => {
                stream.seek(start);
                return Err(e);
            },
        };
        boxes.push(b);
        proof {
            let rest = boxes_in(data, stream.pos, region_end);
            if rest is Ok {
                assert(trees(boxes@) + rest->Ok_0 =~= walked + (seq![b@] + rest->Ok_0));
            }
        }
    }
    Ok(boxes)
}

/// Decodes the one box that starts at the stream's position, in the region
/// that ends where the stream ends.
pub fn read_root_box(stream: &mut ByteStream) -> (r: Result<BmffBox, BmffError>)
    ensures
        final(stream).data@ == old(stream).data@,
        match r {
            Ok(b) => box_at(old(stream).data@, old(stream).pos, old(stream).data@.len() as u64)
                == Ok::<BoxTree, BmffError>(b@) && final(stream).pos == b@.header().end(),
            Err(e) => box_at(old(stream).data@, old(stream).pos, old(stream).data@.len() as u64)
                == Err::<BoxTree, BmffError>(e) && final(stream).pos == old(stream).pos,
        },
{
    let end = stream.len();
    read_next_box(stream, end)
}

/// Decodes every box from the stream's position to the end of the stream.
pub fn read_box_tree(stream: &mut ByteStream) -> (r: Result<Vec<BmffBox>, BmffError>)
    ensures
        final(stream).data@ == old(stream).data@,
        match r {
            Ok(boxes) => boxes_in(
                old(stream).data@,
                old(stream).pos,
                old(stream).data@.len() as u64,
            ) == Ok::<Seq<BoxTree>, BmffError>(trees(boxes@)) && final(stream).pos == old(
                stream,
            ).data@.len(),
            Err(e) => boxes_in(old(stream).data@, old(stream).pos, old(stream).data@.len() as u64)
                == Err::<Seq<BoxTree>, BmffError>(e) && final(stream).pos == old(stream).pos,
        },
{
    let end = stream.len();
    read_boxes(stream, end)
}

/// Every decoded box holds the header it was decoded under.
pub proof fn lemma_box_keeps_header(data: Seq<u8>, pos: u64, header: BoxHeader)
    requires
        payload_at(data, pos, header) is Ok,
    ensures
        payload_at(data, pos, header)->Ok_0.header() == header,
        header.wf(),
{
}

/// The walk of a region that is not empty is its first box, followed by the
/// walk from the end offset of that box.
pub proof fn lemma_walk_step(data: Seq<u8>, pos: u64, region_end: u64)
    requires
        pos != region_end,
    ensures
        boxes_in(data, pos, region_end) == match box_at(data, pos, region_end) {
            Err(e) => Err::<Seq<BoxTree>, BmffError>(e),
            Ok(first) => match boxes_in(data, first.header().end() as u64, region_end) {
                Err(e) => Err(e),
                Ok(rest) => Ok(seq![first] + rest),
            },
        },
{
    if let Ok(header) = header_at(data, pos, region_end) {
        let behind = (pos + header_len_at(data, pos as int)) as u64;
        if payload_at(data, behind, header) is Ok {
            lemma_box_keeps_header(data, behind, header);
        }
    }
}

/// A walk that succeeds ends exactly at the end of its region: the boxes it
/// yields lie one behind the other, the first at `pos`, the last up to
/// `region_end`, and none is shorter than a header.
pub proof fn lemma_walk_is_exact(data: Seq<u8>, pos: u64, region_end: u64, i: int)
    requires
        boxes_in(data, pos, region_end) is Ok,
        0 <= i < boxes_in(data, pos, region_end)->Ok_0.len(),
    ensures
        pos <= region_end,
        boxes_in(data, pos, region_end)->Ok_0[i].header().wf(),
        boxes_in(data, pos, region_end)->Ok_0[0].header().start_offset == pos,
        boxes_in(data, pos, region_end)->Ok_0.last().header().end() == region_end,
        i > 0 ==> boxes_in(data, pos, region_end)->Ok_0[i].header().start_offset == boxes_in(
            data,
            pos,
            region_end,
        )->Ok_0[i - 1].header().end(),
    decreases span(pos as int, region_end as int),
{
    let header = header_at(data, pos, region_end)->Ok_0;
    let behind = (pos + header_len_at(data, pos as int)) as u64;
    let next = header.end() as u64;
    lemma_box_keeps_header(data, behind, header);
    let rest = boxes_in(data, next, region_end)->Ok_0;
    if rest.len() > 0 {
        lemma_walk_is_exact(data, next, region_end, 0);
        if i > 0 {
            lemma_walk_is_exact(data, next, region_end, i - 1);
        }
    }
}

/// A tag that is not registered does not stop the walk: its box is kept as an
/// opaque box under its own header, and the walk goes on at the end offset of
/// that header.
pub proof fn lemma_unknown_tag_skipped(data: Seq<u8>, pos: u64, region_end: u64)
    requires
        pos != region_end,
        header_at(data, pos, region_end) is Ok,
        kind_of(header_at(data, pos, region_end)->Ok_0.type_tag) == BoxKind::Opaque,
    ensures
        box_at(data, pos, region_end) == Ok::<BoxTree, BmffError>(
            BoxTree::Opaque(OpaqueBox { header: header_at(data, pos, region_end)->Ok_0 }),
        ),
        boxes_in(data, pos, region_end) == match boxes_in(
            data,
            header_at(data, pos, region_end)->Ok_0.end() as u64,
            region_end,
        ) {
            Err(e) => Err::<Seq<BoxTree>, BmffError>(e),
            Ok(rest) => Ok(
                seq![
                    BoxTree::Opaque(OpaqueBox { header: header_at(data, pos, region_end)->Ok_0 }),
                ] + rest,
            ),
        },
{
}

} // verus!
