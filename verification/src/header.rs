use crate::endian::{be_bytes, be_value, lemma_be_round_trip, lemma_widths};
use crate::error::BmffError;
use crate::fourcc::FourCC;
use crate::stream::{field, ByteStream};
use vstd::prelude::*;

verus! {

/// The length of a header whose size field holds the size itself.
pub const BASIC_HEADER_LEN: u64 = 8;

/// The length of a header whose size field holds 1 and is followed by an
/// eight-byte size.
pub const LARGE_HEADER_LEN: u64 = 16;

/// The envelope that every box starts with: where the box begins, how many
/// bytes it spans, header included, and its type tag.
#[derive(Clone, Copy, Debug, Default, PartialEq, Eq)]
pub struct BoxHeader {
    pub start_offset: u64,
    pub declared_size: u64,
    pub type_tag: FourCC,
}

/// The number of bytes that the header at `pos` occupies.
pub open spec fn header_len_at(data: Seq<u8>, pos: int) -> int {
    if be_value(field(data, pos, 4)) == 1 {
        LARGE_HEADER_LEN as int
    } else {
        BASIC_HEADER_LEN as int
    }
}

/// The size of the box whose header lies at `pos`, in a region that ends at
/// `region_end`: a size field of 0 stands for all that is left of the region,
/// a size field of 1 for the eight-byte size that follows the tag.
pub open spec fn resolved_size_at(data: Seq<u8>, pos: int, region_end: int) -> int {
    let size = be_value(field(data, pos, 4));
    if size == 0 {
        region_end - pos
    } else if size == 1 {
        be_value(field(data, pos + 8, 8)) as int
    } else {
        size as int
    }
}

/// The header that lies at `pos` in a region that ends at `region_end`.
///
/// There is one where the header's own bytes lie before the end of both the
/// region and the data, the box is at least as long as its header, and the box
/// ends within the region.
pub open spec fn header_at(data: Seq<u8>, pos: u64, region_end: u64) -> Result<
    BoxHeader,
    BmffError,
> {
    let limit = if region_end <= data.len() {
        region_end as int
    } else {
        data.len() as int
    };
    let size = resolved_size_at(data, pos as int, region_end as int);
    if pos + BASIC_HEADER_LEN <= limit && pos + header_len_at(data, pos as int) <= limit
        && header_len_at(data, pos as int) <= size && pos + size <= region_end {
        Ok(
            BoxHeader {
                start_offset: pos,
                declared_size: size as u64,
                type_tag: FourCC::at(data, pos + 4),
            },
        )
    } else {
        Err(BmffError::MalformedHeader { offset: pos })
    }
}

impl BoxHeader {
    /// A header spans at least its own basic length, and its end offset is a
    /// `u64`.
    pub open spec fn wf(&self) -> bool {
        self.declared_size >= BASIC_HEADER_LEN && self.start_offset + self.declared_size
            <= u64::MAX
    }

    /// The offset of the first byte after the box.
    pub open spec fn end(&self) -> int {
        self.start_offset + self.declared_size
    }

    /// Whether the header is well formed.
    pub fn is_valid(&self) -> (b: bool)
        ensures
            b == self.wf(),
    {
        self.declared_size >= BASIC_HEADER_LEN && self.declared_size <= u64::MAX
            - self.start_offset
    }

    /// The offset of the first byte after the box.
    pub fn end_offset(&self) -> (e: u64)
        requires
            self.wf(),
        ensures
            e == self.end(),
    {
        self.start_offset + self.declared_size
    }

    /// Decodes the header at the stream's position, in a region that ends at
    /// `region_end`, and leaves the stream behind the header. On failure the
    /// stream stays where it was.
    pub fn decode(stream: &mut ByteStream, region_end: u64) -> (r: Result<BoxHeader, BmffError>)
        ensures
            final(stream).data@ == old(stream).data@,
            r == header_at(old(stream).data@, old(stream).pos, region_end),
            match r {
                Ok(h) => h.wf() && final(stream).pos == old(stream).pos + header_len_at(
                    old(stream).data@,
                    old(stream).pos as int,
                ),
                Err(_) => final(stream).pos == old(stream).pos,
            },
    {
        let start = stream.position();
        let bad = BmffError::MalformedHeader { offset: start };
        let len = stream.len();
        let limit = if region_end <= len {
            region_end
        } else {
            len
        };
        if start > limit || limit - start < BASIC_HEADER_LEN {
            return Err(bad);
        }
        let size = match stream.read_u32() {
            Ok(size) => size,
            Err(_) => {
                return Err(bad);
            },
        };
        let type_tag = match stream.read_fourcc() {
            Ok(tag) => tag,
            Err(_) => {
                stream.seek(start);
                return Err(bad);
            },
        };
        let header_len = if size == 1 {
            LARGE_HEADER_LEN
        } else {
            BASIC_HEADER_LEN
        };
        let declared_size = if size == 0 {
            region_end - start
        } else if size == 1 {
            match stream.read_u64() {
                Ok(large) => large,
                Err(_) => {
                    stream.seek(start);
                    return Err(bad);
                },
            }
        } else {
            size as u64
        };
        if limit - start < header_len || declared_size < header_len || declared_size > region_end
            - start {
            stream.seek(start);
            return Err(bad);
        }
        Ok(BoxHeader { start_offset: start, declared_size, type_tag })
    }
}

/// Whether the bytes of a header of `n` bytes at `pos` lie before the end of
/// both the region and the data.
pub open spec fn header_bytes_present(data: Seq<u8>, pos: u64, region_end: u64, n: u64) -> bool {
    pos + n <= region_end && pos + n <= data.len()
}

/// A size field that holds neither 0 nor 1 holds the size of the box: the
/// header is accepted when that size covers the header and the box ends
/// within the region, and the box then ends `size` bytes behind its start.
pub proof fn lemma_plain_size(data: Seq<u8>, pos: u64, region_end: u64)
    requires
        header_bytes_present(data, pos, region_end, BASIC_HEADER_LEN),
        be_value(field(data, pos as int, 4)) >= 2,
    ensures
        header_at(data, pos, region_end) is Ok <==> BASIC_HEADER_LEN <= be_value(
            field(data, pos as int, 4),
        ) && pos + be_value(field(data, pos as int, 4)) <= region_end,
        header_at(data, pos, region_end) matches Ok(h) ==> h.start_offset == pos && h.end() == pos
            + be_value(field(data, pos as int, 4)),
{
}

/// A size field that holds 0 makes the box end where its region ends.
pub proof fn lemma_size_zero(data: Seq<u8>, pos: u64, region_end: u64)
    requires
        header_bytes_present(data, pos, region_end, BASIC_HEADER_LEN),
        be_value(field(data, pos as int, 4)) == 0,
    ensures
        header_at(data, pos, region_end) is Ok,
        header_at(data, pos, region_end)->Ok_0.start_offset == pos,
        header_at(data, pos, region_end)->Ok_0.end() == region_end,
{
}

/// A size field that holds 1 hands over to the eight bytes behind the tag:
/// the header is accepted when the size they hold covers the sixteen bytes of
/// the header and the box ends within the region, and the box then ends that
/// many bytes behind its start.
pub proof fn lemma_large_size(data: Seq<u8>, pos: u64, region_end: u64)
    requires
        header_bytes_present(data, pos, region_end, LARGE_HEADER_LEN),
        be_value(field(data, pos as int, 4)) == 1,
    ensures
        header_at(data, pos, region_end) is Ok <==> LARGE_HEADER_LEN <= be_value(
            field(data, pos + 8, 8),
        ) && pos + be_value(field(data, pos + 8, 8)) <= region_end,
        header_at(data, pos, region_end) matches Ok(h) ==> h.start_offset == pos && h.end() == pos
            + be_value(field(data, pos + 8, 8)),
{
}

/// Every header that is accepted is well formed, carries the tag that lies
/// behind the size field, and ends within its region and behind its own
/// bytes.
pub proof fn lemma_accepted_header(data: Seq<u8>, pos: u64, region_end: u64)
    requires
        header_at(data, pos, region_end) is Ok,
    ensures
        header_at(data, pos, region_end)->Ok_0.wf(),
        header_at(data, pos, region_end)->Ok_0.start_offset == pos,
        header_at(data, pos, region_end)->Ok_0.type_tag@ == field(data, pos + 4, 4),
        pos + header_len_at(data, pos as int) <= header_at(data, pos, region_end)->Ok_0.end()
            <= region_end,
{
    let h = header_at(data, pos, region_end)->Ok_0;
    assert(h.type_tag@ =~= field(data, pos + 4, 4));
}

/// The version and flags that lie at `pos`: one byte, then a three-byte
/// big-endian number.
pub open spec fn ext_at(data: Seq<u8>, pos: u64) -> Result<(u8, u32), BmffError> {
    if pos + 4 <= data.len() {
        Ok((data[pos as int], be_value(field(data, pos + 1, 3)) as u32))
    } else {
        Err(BmffError::TruncatedStream { offset: pos })
    }
}

/// Reads the version and flags with which the payload of a full box begins.
/// On failure the stream stays where it was.
pub fn read_box_header_ext(stream: &mut ByteStream) -> (r: Result<(u8, u32), BmffError>)
    ensures
        final(stream).data@ == old(stream).data@,
        r == ext_at(old(stream).data@, old(stream).pos),
        match r {
            Ok(_) => final(stream).pos == old(stream).pos + 4,
            Err(_) => final(stream).pos == old(stream).pos,
        },
{
    let start = stream.position();
    if !stream.can_read(4) {
        return Err(BmffError::TruncatedStream { offset: start });
    }
    let version = match stream.read_u8() {
        Ok(version) => version,
        Err(e) => {
            return Err(e);
        },
    };
    let flags = match stream.read_u24() {
        Ok(flags) => flags,
        Err(e) => {
            stream.seek(start);
            return Err(e);
        },
    };
    Ok((version, flags))
}

/// The four bytes that spell a version and flags.
pub open spec fn ext_bytes(version: u8, flags: u32) -> Seq<u8> {
    seq![version] + be_bytes(flags as nat, 3)
}

/// A version and flags of up to 24 bits are read back from the bytes that
/// spell them.
pub proof fn lemma_ext_round_trip(data: Seq<u8>, pos: u64, version: u8, flags: u32)
    requires
        flags < 0x100_0000,
        pos + 4 <= data.len(),
        field(data, pos as int, 4) == ext_bytes(version, flags),
    ensures
        ext_at(data, pos) == Ok::<(u8, u32), BmffError>((version, flags)),
{
    lemma_widths();
    lemma_be_round_trip(flags as nat, 3);
    let ext = field(data, pos as int, 4);
    assert(data[pos as int] == ext[0]);
    assert(field(data, pos + 1, 3) =~= ext.subrange(1, 4));
    assert(ext.subrange(1, 4) =~= be_bytes(flags as nat, 3));
}

} // verus!
