use crate::error::BmffError;
use crate::fourcc::FourCC;
use crate::header::{ext_at, ext_bytes, lemma_ext_round_trip, read_box_header_ext, BoxHeader};
use crate::read_box::ReadBox;
use crate::stream::{field, ByteStream};
use vstd::prelude::*;

verus! {

/// The bytes of the tag `JPEG`.
pub const JPEG: [u8; 4] = [0x4a, 0x50, 0x45, 0x47];

/// A marker box: it says that the embedded data that goes with it is JPEG,
/// and carries nothing but a version and flags.
#[derive(Clone, Copy, Debug, Default, PartialEq)]
pub struct JpegBox {
    pub header: BoxHeader,
    pub version: u8,
    pub flags: u32,
}

impl View for JpegBox {
    type V = JpegBox;

    open spec fn view(&self) -> JpegBox {
        *self
    }
}

impl JpegBox {
    /// The tag of a marker box.
    pub open spec fn tag() -> FourCC {
        FourCC { value: JPEG }
    }

    /// The tag of a marker box.
    #[verifier::when_used_as_spec(tag)]
    pub fn typ() -> (t: FourCC)
        ensures
            t == Self::tag(),
    {
        FourCC { value: JPEG }
    }
}

impl ReadBox for JpegBox {
    /// A marker box is its version and flags; no bit of the flags is looked
    /// at.
    open spec fn decoded(data: Seq<u8>, pos: u64, header: BoxHeader) -> Result<JpegBox, BmffError> {
        if !header.wf() {
            Err(BmffError::MalformedHeader { offset: header.start_offset })
        } else {
            match ext_at(data, pos) {
                Ok((version, flags)) => Ok(JpegBox { header, version, flags }),
                Err(e) => Err(e),
            }
        }
    }

    fn read_box(stream: &mut ByteStream, header: BoxHeader) -> (r: Result<JpegBox, BmffError>) {
        if !header.is_valid() {
            return Err(BmffError::MalformedHeader { offset: header.start_offset });
        }
        let (version, flags) = match read_box_header_ext(stream) {
            Ok(ext) => ext,
            Err(e) => {
                return Err(e);
            },
        };
        stream.seek(header.end_offset());
        Ok(JpegBox { header, version, flags })
    }
}

/// Round trip: a marker box is decoded from the bytes that spell its version
/// and flags, whatever follows them.
pub proof fn lemma_marker_round_trip(
    data: Seq<u8>,
    pos: u64,
    header: BoxHeader,
    version: u8,
    flags: u32,
)
    requires
        header.wf(),
        flags < 0x100_0000,
        pos + 4 <= data.len(),
        field(data, pos as int, 4) == ext_bytes(version, flags),
    ensures
        JpegBox::decoded(data, pos, header) == Ok::<JpegBox, BmffError>(
            JpegBox { header, version, flags },
        ),
{
    lemma_ext_round_trip(data, pos, version, flags);
}

} // verus!
