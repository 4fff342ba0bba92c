use crate::fourcc::FourCC;
use vstd::prelude::*;

verus! {

/// Why decoding stopped. Every failure is final for the call that reports it.
#[derive(Clone, Copy, Debug, PartialEq, Eq)]
pub enum BmffError {
    /// The stream ends before a fixed-width field does. `offset` is where
    /// that field begins.
    TruncatedStream { offset: u64 },
    /// No usable header lies at `offset`: its bytes are cut short, its size
    /// is smaller than the header itself, or the box would end beyond the
    /// region that encloses it.
    MalformedHeader { offset: u64 },
    /// The box that starts at `offset` declares more entries than lie before
    /// its end offset.
    MalformedPayload { offset: u64, type_tag: FourCC },
}

impl BmffError {
    /// The offset that the failure names.
    pub fn offset(&self) -> (at: u64)
        ensures
            at == match *self {
                BmffError::TruncatedStream { offset } => offset,
                BmffError::MalformedHeader { offset } => offset,
                BmffError::MalformedPayload { offset, .. } => offset,
            },
    {
        match *self {
            BmffError::TruncatedStream { offset } => offset,
            BmffError::MalformedHeader { offset } => offset,
            BmffError::MalformedPayload { offset, .. } => offset,
        }
    }
}

} // verus!
