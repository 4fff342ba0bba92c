use crate::error::BmffError;
use crate::header::BoxHeader;
use crate::read_box::ReadBox;
use crate::stream::ByteStream;
use vstd::prelude::*;

verus! {

/// A box whose tag is not known. Only its header is kept; its payload is the
/// bytes from behind the header to the end offset, none of which is read.
#[derive(Clone, Copy, Debug, Default, PartialEq)]
pub struct OpaqueBox {
    pub header: BoxHeader,
}

impl View for OpaqueBox {
    type V = OpaqueBox;

    open spec fn view(&self) -> OpaqueBox {
        *self
    }
}

impl ReadBox for OpaqueBox {
    /// Any payload will do.
    open spec fn decoded(data: Seq<u8>, pos: u64, header: BoxHeader) -> Result<
        OpaqueBox,
        BmffError,
    > {
        if header.wf() {
            Ok(OpaqueBox { header })
        } else {
            Err(BmffError::MalformedHeader { offset: header.start_offset })
        }
    }

    fn read_box(stream: &mut ByteStream, header: BoxHeader) -> (r: Result<OpaqueBox, BmffError>) {
        if !header.is_valid() {
            return Err(BmffError::MalformedHeader { offset: header.start_offset });
        }
        stream.seek(header.end_offset());
        Ok(OpaqueBox { header })
    }
}

} // verus!
