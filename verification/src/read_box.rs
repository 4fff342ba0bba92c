use crate::error::BmffError;
use crate::header::BoxHeader;
use crate::stream::ByteStream;
use vstd::prelude::*;

verus! {

/// A kind of box that can be decoded from the bytes behind its header.
///
/// Every decoder obeys one rule, whatever its payload holds: when it
/// succeeds it leaves the stream at the end offset that the header declares,
/// not where its own fields happen to end. Padding and fields of later
/// revisions are skipped that way, and the next sibling is found at its place.
/// When it fails it leaves the stream where it was. A header that is not well
/// formed is refused by every decoder.
pub trait ReadBox: Sized + View {
    /// What decoding yields for the payload that starts at `pos` under
    /// `header`.
    spec fn decoded(data: Seq<u8>, pos: u64, header: BoxHeader) -> Result<Self::V, BmffError>;

    /// Decodes the payload at the stream's position.
    fn read_box(stream: &mut ByteStream, header: BoxHeader) -> (r: Result<Self, BmffError>)
        ensures
            final(stream).data@ == old(stream).data@,
            match r {
                Ok(b) => Self::decoded(old(stream).data@, old(stream).pos, header) == Ok::<
                    Self::V,
                    BmffError,
                >(b@) && final(stream).pos == header.end(),
                Err(e) => Self::decoded(old(stream).data@, old(stream).pos, header) == Err::<
                    Self::V,
                    BmffError,
                >(e) && final(stream).pos == old(stream).pos,
            },
    ;
}

} // verus!
