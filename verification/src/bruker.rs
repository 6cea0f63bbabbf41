//! The header of Bruker Opus files: the table of data blocks, and the
//! absorbance data among them.

use vstd::prelude::*;

verus! {

/// Size of the header that holds the block table.
pub const HEADER_SIZE_BYTES: usize = 504;

/// Size of one entry of the block table.
pub const META_BLOCK_SIZE: usize = 12;

/// Position of the first entry of the block table.
pub const INITIAL_CURSOR_POS: usize = 24;

/// Number of entries the header has room for.
pub const MAX_BLOCKS: usize = 39;

/// The kind of data a block holds.
#[derive(Debug, PartialEq, Eq, Clone, Copy, Structural)]
pub enum BlockKind {
    AB,
    ABDataParameter,
    Acquisition,
    AcquisitionRf,
    CurveFit,
    FourierTransformation,
    FourierTransformationRf,
    History,
    IgRf,
    IgRfDataParameter,
    IgSm,
    IgSmDataParameter,
    InfoBlock,
    Instrument,
    InstrumentRf,
    IntegrationMethod,
    Optik,
    OptikRf,
    PhRf,
    PhRfDataParameter,
    PhSm,
    PhSmDataParameter,
    PwRf,
    PwRfDataParameter,
    PwSm,
    PwSmDataParameter,
    Sample,
    ScRf,
    ScRfDataParameter,
    ScSm,
    ScSmDataParameter,
    Signature,
    TextInformation,
    Invalid,
}

/// The kind of a block with the given data and channel type.
pub open spec fn block_kind(data_type: u8, channel_type: u8) -> BlockKind {
    match (data_type, channel_type) {
        (0, 8) => BlockKind::InfoBlock,
        (0, 104) => BlockKind::History,
        (0, 152) => BlockKind::CurveFit,
        (0, 168) => BlockKind::Signature,
        (0, 240) => BlockKind::IntegrationMethod,
        (0, _) => BlockKind::TextInformation,
        (7, 4) => BlockKind::ScSm,
        (7, 8) => BlockKind::IgSm,
        (7, 12) => BlockKind::PhSm,
        (7, 56) => BlockKind::PwSm,
        (11, 4) => BlockKind::ScRf,
        (11, 8) => BlockKind::IgRf,
        (11, 12) => BlockKind::PhRf,
        (11, 56) => BlockKind::PwRf,
        (15, _) => BlockKind::AB,
        (23, 4) => BlockKind::ScSmDataParameter,
        (23, 8) => BlockKind::IgSmDataParameter,
        (23, 12) => BlockKind::PhSmDataParameter,
        (23, 56) => BlockKind::PwSmDataParameter,
        (27, 4) => BlockKind::ScRfDataParameter,
        (27, 8) => BlockKind::IgRfDataParameter,
        (27, 12) => BlockKind::PhRfDataParameter,
        (27, 56) => BlockKind::PwRfDataParameter,
        (31, _) => BlockKind::ABDataParameter,
        (32, _) => BlockKind::Instrument,
        (40, _) => BlockKind::InstrumentRf,
        (48, _) => BlockKind::Acquisition,
        (56, _) => BlockKind::AcquisitionRf,
        (64, _) => BlockKind::FourierTransformation,
        (72, _) => BlockKind::FourierTransformationRf,
        (96, _) => BlockKind::Optik,
        (104, _) => BlockKind::OptikRf,
        (160, _) => BlockKind::Sample,
        _ => BlockKind::Invalid,
    }
}

impl BlockKind {
    /// The kind of a block with the given data and channel type.
    pub fn from_types(data_type: u8, channel_type: u8) -> (r: BlockKind)
        ensures
            r == block_kind(data_type, channel_type),
    {
        match (data_type, channel_type) {
            (0, 8) => BlockKind::InfoBlock,
            (0, 104) => BlockKind::History,
            (0, 152) => BlockKind::CurveFit,
            (0, 168) => BlockKind::Signature,
            (0, 240) => BlockKind::IntegrationMethod,
            (0, _) => BlockKind::TextInformation,
            (7, 4) => BlockKind::ScSm,
            (7, 8) => BlockKind::IgSm,
            (7, 12) => BlockKind::PhSm,
            (7, 56) => BlockKind::PwSm,
            (11, 4) => BlockKind::ScRf,
            (11, 8) => BlockKind::IgRf,
            (11, 12) => BlockKind::PhRf,
            (11, 56) => BlockKind::PwRf,
            (15, _) => BlockKind::AB,
            (23, 4) => BlockKind::ScSmDataParameter,
            (23, 8) => BlockKind::IgSmDataParameter,
            (23, 12) => BlockKind::PhSmDataParameter,
            (23, 56) => BlockKind::PwSmDataParameter,
            (27, 4) => BlockKind::ScRfDataParameter,
            (27, 8) => BlockKind::IgRfDataParameter,
            (27, 12) => BlockKind::PhRfDataParameter,
            (27, 56) => BlockKind::PwRfDataParameter,
            (31, _) => BlockKind::ABDataParameter,
            (32, _) => BlockKind::Instrument,
            (40, _) => BlockKind::InstrumentRf,
            (48, _) => BlockKind::Acquisition,
            (56, _) => BlockKind::AcquisitionRf,
            (64, _) => BlockKind::FourierTransformation,
            (72, _) => BlockKind::FourierTransformationRf,
            (96, _) => BlockKind::Optik,
            (104, _) => BlockKind::OptikRf,
            (160, _) => BlockKind::Sample,
            _ => BlockKind::Invalid,
        }
    }
}

impl From<(u8, u8)> for BlockKind {
    fn from(value: (u8, u8)) -> (r: BlockKind) {
        BlockKind::from_types(value.0, value.1)
    }
}

impl vstd::std_specs::convert::FromSpecImpl<(u8, u8)> for BlockKind {
    open spec fn obeys_from_spec() -> bool {
        true
    }

    open spec fn from_spec(v: (u8, u8)) -> BlockKind {
        block_kind(v.0, v.1)
    }
}

/// The number four little-endian bytes denote.
pub open spec fn le_u32(b0: u8, b1: u8, b2: u8, b3: u8) -> int {
    b0 as int + 256 * (b1 as int) + 65536 * (b2 as int) + 16777216 * (b3 as int)
}

/// Reads four bytes as a little-endian `u32`; the slice must hold exactly
/// four bytes.
pub fn bytes_to_u32(bytes: &[u8]) -> (r: u32)
    requires
        bytes@.len() == 4,
    ensures
        r as int == le_u32(bytes@[0], bytes@[1], bytes@[2], bytes@[3]),
{
    let b0 = bytes[0];
    let b1 = bytes[1];
    let b2 = bytes[2];
    let b3 = bytes[3];
    let x1 = (b1 as u32) << 8u32;
    let x2 = (b2 as u32) << 16u32;
    let x3 = (b3 as u32) << 24u32;
    assert(x1 == 256 * (b1 as u32)) by (bit_vector)
        requires
            x1 == (b1 as u32) << 8u32;
    assert(x2 == 65536 * (b2 as u32)) by (bit_vector)
        requires
            x2 == (b2 as u32) << 16u32;
    assert(x3 == 16777216 * (b3 as u32)) by (bit_vector)
        requires
            x3 == (b3 as u32) << 24u32;
    (b0 as u32) + x1 + x2 + x3
}

/// Reads four bytes of `buf` at `pos` as a little-endian `u32`.
fn u32_at(buf: &[u8], pos: usize) -> (r: u32)
    requires
        pos + 4 <= buf@.len(),
    ensures
        r as int == le_u32(buf@[pos as int], buf@[pos + 1], buf@[pos + 2], buf@[pos + 3]),
{
    let mut four: Vec<u8> = Vec::new();
    four.push(buf[pos]);
    four.push(buf[pos + 1]);
    four.push(buf[pos + 2]);
    four.push(buf[pos + 3]);
    bytes_to_u32(four.as_slice())
}

/// The definition of a data block: its kind, and the range of the file
/// that holds its data (`size` counts four-byte words).
#[derive(Debug, Clone, Copy)]
pub struct BlockDefinition {
    pub kind: BlockKind,
    pub offset: usize,
    pub size: usize,
}

/// The definition in the table entry that starts at `cursor`: the data type
/// in its first byte, the channel type in its second (third for text
/// blocks), then the little-endian size and offset.
pub open spec fn block_definition_at(buf: Seq<u8>, cursor: int) -> BlockDefinition {
    let data_type = buf[cursor];
    let channel_type = if data_type == 0 { buf[cursor + 2] } else { buf[cursor + 1] };
    BlockDefinition {
        kind: block_kind(data_type, channel_type),
        size: le_u32(buf[cursor + 4], buf[cursor + 5], buf[cursor + 6], buf[cursor + 7]) as usize,
        offset: le_u32(buf[cursor + 8], buf[cursor + 9], buf[cursor + 10], buf[cursor + 11]) as usize,
    }
}

/// The entry of the block table with number `i`.
pub open spec fn table_entry(buf: Seq<u8>, i: int) -> BlockDefinition {
    block_definition_at(buf, INITIAL_CURSOR_POS + i * META_BLOCK_SIZE)
}

impl BlockDefinition {
    /// Reads the block definition that starts at `cursor`.
    pub fn from_buffer(buf: &[u8; 504], cursor: usize) -> (r: BlockDefinition)
        requires
            cursor + META_BLOCK_SIZE <= HEADER_SIZE_BYTES,
        ensures
            r == block_definition_at(buf@, cursor as int),
    {
        let b = buf.as_slice();
        let data_type = b[cursor];
        let channel_type = if data_type == 0 { b[cursor + 2] } else { b[cursor + 1] };
        let kind = BlockKind::from_types(data_type, channel_type);
        let size = u32_at(b, cursor + 4) as usize;
        let offset = u32_at(b, cursor + 8) as usize;
        BlockDefinition { kind, offset, size }
    }

    /// The number of bytes of the data block: four per word.
    pub fn byte_len(&self) -> (r: u64)
        requires
            self.size <= u32::MAX,
        ensures
            r == 4 * self.size,
    {
        (self.size as u64) * 4
    }
}

/// Reads the block table: the entries one after the other, up to the first
/// whose offset is zero or the end of the header.
pub fn read_block_definitions(buf: &[u8; 504]) -> (r: Vec<BlockDefinition>)
    ensures
        r@.len() <= MAX_BLOCKS,
        forall|i: int| 0 <= i < r@.len() ==> #[trigger] r@[i] == table_entry(buf@, i) && r@[i].offset != 0,
        r@.len() < MAX_BLOCKS ==> table_entry(buf@, r@.len() as int).offset == 0,
{
    let mut blks: Vec<BlockDefinition> = Vec::new();
    let mut cursor: usize = INITIAL_CURSOR_POS;
    while cursor < HEADER_SIZE_BYTES - META_BLOCK_SIZE
        invariant
            cursor == INITIAL_CURSOR_POS + blks@.len() * META_BLOCK_SIZE,
            blks@.len() <= MAX_BLOCKS,
            forall|i: int| 0 <= i < blks@.len() ==> #[trigger] blks@[i] == table_entry(buf@, i) && blks@[i].offset != 0,
        decreases HEADER_SIZE_BYTES - cursor,
    {
        let blk = BlockDefinition::from_buffer(buf, cursor);
        if blk.offset == 0 {
            return blks;
        }
        blks.push(blk);
        cursor = cursor + META_BLOCK_SIZE;
    }
    blks
}

/// The position of the last block of kind `kind`, or -1.
pub open spec fn last_of_kind(blks: Seq<BlockDefinition>, kind: BlockKind) -> int
    decreases blks.len(),
{
    if blks.len() == 0 {
        -1
    } else if blks.last().kind == kind {
        blks.len() - 1
    } else {
        last_of_kind(blks.drop_last(), kind)
    }
}

/// The message when a file holds no absorbance data.
pub open spec fn no_absorbance_message() -> Seq<char> {
    "file does not contain absorbance data"@
}

/// Picks the absorbance block and the block of its parameters (the last of
/// each, if several); fails if either is missing.
pub fn find_absorbance_blocks(blks: &Vec<BlockDefinition>) -> (r: Result<(BlockDefinition, BlockDefinition), String>)
    ensures
        match r {
            Ok((ab, param)) => {
                &&& last_of_kind(blks@, BlockKind::AB) >= 0
                &&& last_of_kind(blks@, BlockKind::ABDataParameter) >= 0
                &&& ab == blks@[last_of_kind(blks@, BlockKind::AB)]
                &&& param == blks@[last_of_kind(blks@, BlockKind::ABDataParameter)]
            },
            Err(msg) => {
                &&& (last_of_kind(blks@, BlockKind::AB) < 0 || last_of_kind(blks@, BlockKind::ABDataParameter) < 0)
                &&& msg@ == no_absorbance_message()
            },
        },
{
    let n = blks.len();
    let mut ab: Option<BlockDefinition> = None;
    let mut param: Option<BlockDefinition> = None;
    let mut i: usize = 0;
    assert(blks@.take(0) =~= Seq::<BlockDefinition>::empty());
    while i < n
        invariant
            n == blks@.len(),
            i <= n,
            match ab {
                Some(b) => last_of_kind(blks@.take(i as int), BlockKind::AB) >= 0 && b == blks@[last_of_kind(blks@.take(i as int), BlockKind::AB)],
                None => last_of_kind(blks@.take(i as int), BlockKind::AB) < 0,
            },
            match param {
                Some(b) => last_of_kind(blks@.take(i as int), BlockKind::ABDataParameter) >= 0 && b == blks@[last_of_kind(blks@.take(i as int), BlockKind::ABDataParameter)],
                None => last_of_kind(blks@.take(i as int), BlockKind::ABDataParameter) < 0,
            },
            forall|k: BlockKind| -1 <= #[trigger] last_of_kind(blks@.take(i as int), k) < i,
        decreases n - i,
    {
        assert(blks@.take(i + 1).drop_last() =~= blks@.take(i as int));
        let b = blks[i];
        match b.kind {
            BlockKind::AB => {
                ab = Some(b);
            },
            BlockKind::ABDataParameter => {
                param = Some(b);
            },
            _ => {},
        }
        proof {
            assert forall|k: BlockKind| -1 <= #[trigger] last_of_kind(blks@.take(i + 1), k) < i + 1 by {
                assert(last_of_kind(blks@.take(i as int), k) < i);
            }
        }
        i = i + 1;
    }
    assert(blks@.take(n as int) =~= blks@);
    match (ab, param) {
        (Some(a), Some(p)) => Ok((a, p)),
        _ => {
            let msg = String::from_str("file does not contain absorbance data");
            Err(msg)
        },
    }
}

/// Reads the words of a data block: every four bytes, little-endian;
/// trailing bytes that do not make a word are left out.
pub fn decode_words(bytes: &[u8]) -> (r: Vec<u32>)
    ensures
        r@.len() == bytes@.len() / 4,
        forall|k: int| 0 <= k < r@.len() ==> #[trigger] r@[k] as int == le_u32(
            bytes@[4 * k],
            bytes@[4 * k + 1],
            bytes@[4 * k + 2],
            bytes@[4 * k + 3],
        ),
{
    let n = bytes.len() / 4;
    let mut out: Vec<u32> = Vec::new();
    let mut k: usize = 0;
    while k < n
        invariant
            n == bytes@.len() / 4,
            k <= n,
            out@.len() == k,
            forall|j: int| 0 <= j < k ==> #[trigger] out@[j] as int == le_u32(
                bytes@[4 * j],
                bytes@[4 * j + 1],
                bytes@[4 * j + 2],
                bytes@[4 * j + 3],
            ),
        decreases n - k,
    {
        assert(4 * k + 4 <= bytes@.len()) by (nonlinear_arith)
            requires
                k < n,
                n == bytes@.len() / 4,
        {
        }
        assert(bytes@.len() == bytes.len());
        let w = u32_at(bytes, 4 * k);
        out.push(w);
        k = k + 1;
    }
    out
}

/// How a table entry is read from its bytes: a text block (data type 0)
/// is told apart by the entry's third byte, whatever its second byte; any
/// other block by its first two bytes, whatever its third. So
/// `[0, x, 104, ..]` is a history block for every `x`. The size is the
/// little-endian word at byte 4 of the entry, the offset the one at byte 8.
pub proof fn lemma_entry_bytes(buf: Seq<u8>, other: Seq<u8>, cursor: int)
    requires
        0 <= cursor,
        cursor + META_BLOCK_SIZE <= buf.len(),
        other.len() == buf.len(),
    ensures
        buf[cursor] == 0 && (forall|k: int| 0 <= k < buf.len() && k != cursor + 1 ==> other[k] == buf[k])
            ==> block_definition_at(other, cursor).kind == block_definition_at(buf, cursor).kind,
        buf[cursor] != 0 && (forall|k: int| 0 <= k < buf.len() && k != cursor + 2 ==> other[k] == buf[k])
            ==> block_definition_at(other, cursor).kind == block_definition_at(buf, cursor).kind,
        buf[cursor] == 0 && buf[cursor + 2] == 104 ==> block_definition_at(buf, cursor).kind == BlockKind::History,
        buf[cursor] == 0 && buf[cursor + 2] == 8 ==> block_definition_at(buf, cursor).kind == BlockKind::InfoBlock,
        buf[cursor] == 15 ==> block_definition_at(buf, cursor).kind == BlockKind::AB,
        buf[cursor] == 31 ==> block_definition_at(buf, cursor).kind == BlockKind::ABDataParameter,
        block_definition_at(buf, cursor).size == le_u32(buf[cursor + 4], buf[cursor + 5], buf[cursor + 6], buf[cursor + 7]),
        block_definition_at(buf, cursor).offset == le_u32(buf[cursor + 8], buf[cursor + 9], buf[cursor + 10], buf[cursor + 11]),
{
    if buf[cursor] == 0 && (forall|k: int| 0 <= k < buf.len() && k != cursor + 1 ==> other[k] == buf[k]) {
        assert(other[cursor] == buf[cursor]);
        assert(other[cursor + 2] == buf[cursor + 2]);
    }
    if buf[cursor] != 0 && (forall|k: int| 0 <= k < buf.len() && k != cursor + 2 ==> other[k] == buf[k]) {
        assert(other[cursor] == buf[cursor]);
        assert(other[cursor + 1] == buf[cursor + 1]);
    }
}

/// `last_of_kind` finds the last block of a kind: the block there has the
/// kind and no later block has it; -1 means no block has it.
pub proof fn lemma_last_of_kind(blks: Seq<BlockDefinition>, kind: BlockKind)
    ensures
        last_of_kind(blks, kind) >= 0 ==> {
            &&& last_of_kind(blks, kind) < blks.len()
            &&& blks[last_of_kind(blks, kind)].kind == kind
            &&& forall|j: int| last_of_kind(blks, kind) < j < blks.len() ==> #[trigger] blks[j].kind != kind
        },
        last_of_kind(blks, kind) < 0 ==> last_of_kind(blks, kind) == -1 && forall|j: int| 0 <= j < blks.len() ==> #[trigger] blks[j].kind != kind,
    decreases blks.len(),
{
    if blks.len() > 0 {
        let prev = blks.drop_last();
        lemma_last_of_kind(prev, kind);
        assert forall|j: int| 0 <= j < prev.len() implies prev[j] == #[trigger] blks[j] by {}
    }
}

/// The kinds of the blocks that hold absorbance data: data type 15 is the
/// absorbance block and data type 31 its parameter block, whatever the
/// channel type; other data types are neither.
pub proof fn lemma_absorbance_kinds(data_type: u8, channel_type: u8)
    ensures
        (block_kind(data_type, channel_type) == BlockKind::AB) <==> data_type == 15,
        (block_kind(data_type, channel_type) == BlockKind::ABDataParameter) <==> data_type == 31,
        block_kind(0, 104) == BlockKind::History,
{
}

} // verus!
