use crate::endian::{be_bytes, be_value, lemma_be_round_trip, lemma_widths};
use crate::error::BmffError;
use crate::fourcc::FourCC;
use crate::header::{ext_at, ext_bytes, lemma_ext_round_trip, read_box_header_ext, BoxHeader};
use crate::read_box::ReadBox;
use crate::stream::{field, ByteStream};
use vstd::prelude::*;

verus! {

/// The bytes of the tag `stts`.
pub const STTS: [u8; 4] = [0x73, 0x74, 0x74, 0x73];

/// The number of bytes that one table entry occupies.
pub const ENTRY_LEN: u64 = 8;

/// One run of the timing table: `sample_count` samples in a row that last
/// `sample_delta` each.
#[derive(Clone, Copy, Debug, Default, PartialEq)]
pub struct SttsEntry {
    pub sample_count: u32,
    pub sample_delta: u32,
}

/// A sample-timing box: the run-length table that gives each sample its
/// duration. The order of the runs is the order of the samples.
#[derive(Clone, Debug, Default, PartialEq)]
pub struct SttsBox {
    pub header: BoxHeader,
    pub version: u8,
    pub flags: u32,
    pub entries: Vec<SttsEntry>,
}

/// A sample-timing box as a value.
pub struct SttsTable {
    pub header: BoxHeader,
    pub version: u8,
    pub flags: u32,
    pub entries: Seq<SttsEntry>,
}

impl View for SttsBox {
    type V = SttsTable;

    open spec fn view(&self) -> SttsTable {
        SttsTable {
            header: self.header,
            version: self.version,
            flags: self.flags,
            entries: self.entries@,
        }
    }
}

/// The table entry whose eight bytes start at `pos`.
pub open spec fn entry_at(data: Seq<u8>, pos: int) -> SttsEntry {
    SttsEntry {
        sample_count: be_value(field(data, pos, 4)) as u32,
        sample_delta: be_value(field(data, pos + 4, 4)) as u32,
    }
}

/// The number of entries that the payload at `pos` declares.
pub open spec fn entry_count_at(data: Seq<u8>, pos: int) -> nat {
    be_value(field(data, pos + 4, 4))
}

/// The offset of the first byte after the table of the payload at `pos`.
pub open spec fn table_end_at(data: Seq<u8>, pos: int) -> int {
    pos + 8 + ENTRY_LEN * entry_count_at(data, pos)
}

impl SttsBox {
    /// The tag of a sample-timing box.
    pub open spec fn tag() -> FourCC {
        FourCC { value: STTS }
    }

    /// The tag of a sample-timing box.
    #[verifier::when_used_as_spec(tag)]
    pub fn typ() -> (t: FourCC)
        ensures
            t == Self::tag(),
    {
        FourCC { value: STTS }
    }
}

impl ReadBox for SttsBox {
    /// Version and flags, a four-byte count, then that many entries. The
    /// whole table has to lie before both the end of the box and the end of
    /// the data; what lies between the table and the end of the box is
    /// padding.
    open spec fn decoded(data: Seq<u8>, pos: u64, header: BoxHeader) -> Result<
        SttsTable,
        BmffError,
    > {
        if !header.wf() {
            Err(BmffError::MalformedHeader { offset: header.start_offset })
        } else {
            match ext_at(data, pos) {
                Err(e) => Err(e),
                Ok((version, flags)) => if pos + 8 > data.len() {
                    Err(BmffError::TruncatedStream { offset: (pos + 4) as u64 })
                } else if table_end_at(data, pos as int) > header.end() || table_end_at(
                    data,
                    pos as int,
                ) > data.len() {
                    Err(
                        BmffError::MalformedPayload {
                            offset: header.start_offset,
                            type_tag: header.type_tag,
                        },
                    )
                } else {
                    Ok(
                        SttsTable {
                            header,
                            version,
                            flags,
                            entries: Seq::new(
                                entry_count_at(data, pos as int),
                                |i: int| entry_at(data, pos + 8 + ENTRY_LEN * i),
                            ),
                        },
                    )
                },
            }
        }
    }

    fn read_box(stream: &mut ByteStream, header: BoxHeader) -> (r: Result<SttsBox, BmffError>) {
        if !header.is_valid() {
            return Err(BmffError::MalformedHeader { offset: header.start_offset });
        }
        let start = stream.position();
        let (version, flags) = match read_box_header_ext(stream) {
            Ok(ext) => ext,
            Err(e) => {
                return Err(e);
            },
        };
        let entry_count = match stream.read_u32() {
            Ok(count) => count,
            Err(e) => {
                stream.seek(start);
                return Err(e);
            },
        };
        let table = stream.position();
        let end = header.end_offset();
        let len = stream.len();
        let limit = if end <= len {
            end
        } else {
            len
        };
        if table > limit || (limit - table) / ENTRY_LEN < entry_count as u64 {
            stream.seek(start);
            return Err(
                BmffError::MalformedPayload {
                    offset: header.start_offset,
                    type_tag: header.type_tag,
                },
            );
        }
        let ghost data = stream.data@;
        let mut entries: Vec<SttsEntry> = Vec::with_capacity(entry_count as usize);
        let mut i: u32 = 0;
        while i < entry_count
            invariant
                i <= entry_count,
                stream.data@ == data,
                stream.pos == table + ENTRY_LEN * i,
                table + ENTRY_LEN * entry_count <= data.len(),
                entries@ =~= Seq::new(i as nat, |k: int| entry_at(data, table + ENTRY_LEN * k)),
            decreases entry_count - i,
        {
            let sample_count = match stream.read_u32() {
                Ok(v) => v,
                Err(e) => {
                    stream.seek(start);
                    return Err(e);
                },
            };
            let sample_delta = match stream.read_u32() {
                Ok(v) => v,
                Err(e) => {
                    stream.seek(start);
                    return Err(e);
                },
            };
            entries.push(SttsEntry { sample_count, sample_delta });
            i = i + 1;
        }
        stream.seek(end);
        Ok(SttsBox { header, version, flags, entries })
    }
}

/// The eight bytes that spell a table entry.
pub open spec fn entry_bytes(entry: SttsEntry) -> Seq<u8> {
    be_bytes(entry.sample_count as nat, 4) + be_bytes(entry.sample_delta as nat, 4)
}

/// The bytes that spell a table: those of its entries, in order.
pub open spec fn table_bytes(entries: Seq<SttsEntry>) -> Seq<u8>
    decreases entries.len(),
{
    if entries.len() == 0 {
        Seq::empty()
    } else {
        table_bytes(entries.drop_last()) + entry_bytes(entries.last())
    }
}

/// The bytes that spell the payload of a sample-timing box: version and
/// flags, the number of entries, the table.
pub open spec fn payload_bytes(version: u8, flags: u32, entries: Seq<SttsEntry>) -> Seq<u8> {
    ext_bytes(version, flags) + be_bytes(entries.len(), 4) + table_bytes(entries)
}

/// An entry is read back from the bytes that spell it.
pub proof fn lemma_entry_round_trip(data: Seq<u8>, pos: int, entry: SttsEntry)
    requires
        0 <= pos,
        pos + ENTRY_LEN <= data.len(),
        field(data, pos, ENTRY_LEN as int) == entry_bytes(entry),
    ensures
        entry_at(data, pos) == entry,
{
    lemma_widths();
    lemma_be_round_trip(entry.sample_count as nat, 4);
    lemma_be_round_trip(entry.sample_delta as nat, 4);
    let bytes = field(data, pos, ENTRY_LEN as int);
    assert(field(data, pos, 4) =~= bytes.subrange(0, 4));
    assert(field(data, pos + 4, 4) =~= bytes.subrange(4, 8));
    assert(bytes.subrange(0, 4) =~= be_bytes(entry.sample_count as nat, 4));
    assert(bytes.subrange(4, 8) =~= be_bytes(entry.sample_delta as nat, 4));
}

/// An entry takes eight bytes.
pub proof fn lemma_entry_len(entry: SttsEntry)
    ensures
        entry_bytes(entry).len() == ENTRY_LEN,
{
    lemma_widths();
    lemma_be_round_trip(entry.sample_count as nat, 4);
    lemma_be_round_trip(entry.sample_delta as nat, 4);
}

/// A table of `n` entries takes `8 * n` bytes.
pub proof fn lemma_table_len(entries: Seq<SttsEntry>)
    ensures
        table_bytes(entries).len() == ENTRY_LEN * entries.len(),
    decreases entries.len(),
{
    if entries.len() > 0 {
        lemma_table_len(entries.drop_last());
        lemma_entry_len(entries.last());
    }
}

/// A table of `n` entries takes `8 * n` bytes, and its entry `i` lies `8 * i`
/// bytes into it.
pub proof fn lemma_table_layout(entries: Seq<SttsEntry>, i: int)
    requires
        0 <= i < entries.len(),
    ensures
        table_bytes(entries).len() == ENTRY_LEN * entries.len(),
        field(table_bytes(entries), ENTRY_LEN * i, ENTRY_LEN as int) == entry_bytes(entries[i]),
    decreases entries.len(),
{
    lemma_table_len(entries);
    lemma_table_len(entries.drop_last());
    lemma_entry_len(entries.last());
    let front = table_bytes(entries.drop_last());
    if i == entries.len() - 1 {
        assert(field(table_bytes(entries), ENTRY_LEN * i, ENTRY_LEN as int) =~= entry_bytes(
            entries.last(),
        ));
    } else {
        lemma_table_layout(entries.drop_last(), i);
        assert(field(table_bytes(entries), ENTRY_LEN * i, ENTRY_LEN as int) =~= field(
            front,
            ENTRY_LEN * i,
            ENTRY_LEN as int,
        ));
    }
}

/// Round trip: from the bytes that spell a version, flags and `n` entries,
/// the decoder yields that version, those flags and those `n` entries in their
/// order, whatever follows the table before the end of the box.
pub proof fn lemma_table_round_trip(
    data: Seq<u8>,
    pos: u64,
    header: BoxHeader,
    version: u8,
    flags: u32,
    entries: Seq<SttsEntry>,
)
    requires
        header.wf(),
        flags < 0x100_0000,
        entries.len() <= u32::MAX,
        pos + 8 + ENTRY_LEN * entries.len() <= data.len(),
        pos + 8 + ENTRY_LEN * entries.len() <= header.end(),
        field(data, pos as int, 8 + ENTRY_LEN * entries.len()) == payload_bytes(
            version,
            flags,
            entries,
        ),
    ensures
        SttsBox::decoded(data, pos, header) == Ok::<SttsTable, BmffError>(
            SttsTable { header, version, flags, entries },
        ),
{
    let n = entries.len();
    let payload = payload_bytes(version, flags, entries);
    let table = table_bytes(entries);
    lemma_widths();
    lemma_be_round_trip(flags as nat, 3);
    lemma_be_round_trip(n, 4);
    lemma_table_len(entries);
    assert(field(data, pos as int, 4) =~= payload.subrange(0, 4));
    assert(payload.subrange(0, 4) =~= ext_bytes(version, flags));
    lemma_ext_round_trip(data, pos, version, flags);
    assert(field(data, pos + 4, 4) =~= payload.subrange(4, 8));
    assert(payload.subrange(4, 8) =~= be_bytes(n, 4));
    assert(entry_count_at(data, pos as int) == n);
    let decoded = SttsBox::decoded(data, pos, header)->Ok_0.entries;
    assert forall|i: int| 0 <= i < n implies decoded[i] == entries[i] by {
        lemma_table_layout(entries, i);
        let at = pos + 8 + ENTRY_LEN * i;
        assert(payload.subrange(8, 8 + ENTRY_LEN * n) =~= table);
        assert(field(data, at, ENTRY_LEN as int) =~= payload.subrange(
            8 + ENTRY_LEN * i,
            16 + ENTRY_LEN * i,
        ));
        assert(field(data, at, ENTRY_LEN as int) =~= field(table, ENTRY_LEN * i, ENTRY_LEN as int));
        lemma_entry_round_trip(data, at, entries[i]);
    }
    assert(decoded =~= entries);
}

/// Padding is ignored: a table that ends before the end of its box, or at
/// it, is decoded whole, and no byte behind the table has a say in the result.
pub proof fn lemma_padding_ignored(a: Seq<u8>, b: Seq<u8>, pos: u64, header: BoxHeader)
    requires
        header.wf(),
        pos + 8 <= a.len(),
        table_end_at(a, pos as int) <= header.end(),
        table_end_at(a, pos as int) <= a.len(),
        table_end_at(a, pos as int) <= b.len(),
        field(a, pos as int, table_end_at(a, pos as int) - pos) == field(
            b,
            pos as int,
            table_end_at(a, pos as int) - pos,
        ),
    ensures
        SttsBox::decoded(a, pos, header) is Ok,
        SttsBox::decoded(a, pos, header)->Ok_0.entries.len() == entry_count_at(a, pos as int),
        SttsBox::decoded(b, pos, header) == SttsBox::decoded(a, pos, header),
{
    let end = table_end_at(a, pos as int);
    let fa = field(a, pos as int, end - pos);
    let fb = field(b, pos as int, end - pos);
    assert forall|at: int, n: int| pos <= at && 0 <= n && at + n <= end implies field(a, at, n)
        == #[trigger] field(b, at, n) by {
        assert(field(a, at, n) =~= fa.subrange(at - pos, at - pos + n));
        assert(field(b, at, n) =~= fb.subrange(at - pos, at - pos + n));
    }
    assert(a[pos as int] == fa[0] && b[pos as int] == fb[0]);
    assert(field(a, pos + 1, 3) == field(b, pos + 1, 3));
    assert(field(a, pos + 4, 4) == field(b, pos + 4, 4));
    let ea = SttsBox::decoded(a, pos, header)->Ok_0.entries;
    let eb = SttsBox::decoded(b, pos, header)->Ok_0.entries;
    assert forall|i: int| 0 <= i < ea.len() implies ea[i] == eb[i] by {
        assert(field(a, pos + 8 + ENTRY_LEN * i, 4) == field(b, pos + 8 + ENTRY_LEN * i, 4));
        assert(field(a, pos + 8 + ENTRY_LEN * i + 4, 4) == field(
            b,
            pos + 8 + ENTRY_LEN * i + 4,
            4,
        ));
    }
    assert(ea =~= eb);
}

/// A table that does not end before the end of its box and of the data is
/// refused as a whole: no part of it is returned.
pub proof fn lemma_overlong_table_refused(data: Seq<u8>, pos: u64, header: BoxHeader)
    requires
        header.wf(),
        pos + 8 <= data.len(),
        table_end_at(data, pos as int) > header.end() || table_end_at(data, pos as int)
            > data.len(),
    ensures
        SttsBox::decoded(data, pos, header) == Err::<SttsTable, BmffError>(
            BmffError::MalformedPayload { offset: header.start_offset, type_tag: header.type_tag },
        ),
{
}

} // verus!
