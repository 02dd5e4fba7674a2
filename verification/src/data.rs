//! Records, blocks and request/response data, and the binary codec over
//! them.
//!
//! A [`Record`] maps field names to string values; a [`Block`] is one
//! record or an array of records; a [`Data`] carries the blocks of one
//! request or response under its TR code.

pub mod error;

use vstd::prelude::*;
use vstd::slice::slice_subrange;

use crate::euckr;
use crate::euckr::{euckr_bytes, euckr_str};
use crate::layout::{
    body_len, field_extent, lemma_body_len_prefix, wf_block, wf_tr, BlockLayout, BlockLayoutV,
    FieldLayout, FieldLayoutV, TrLayout, TrLayoutV,
};
use crate::text;
use self::error::{DecodeError, DecodeErrorV, EncodeError, EncodeErrorV};

verus! {

/// Whether a [`Data`] is a request or a response.
#[derive(PartialEq, Eq, Structural, Clone, Copy, Debug)]
pub enum DataType {
    /// Request data.
    Input,
    /// Response data.
    Output,
}

/// One decoded or to-be-encoded record: field name to string value,
/// where a later entry for the same name replaces the earlier one.
#[derive(Clone, Debug)]
pub struct Record {
    entries: Vec<(String, String)>,
}

/// The map an entry list stands for: later entries win.
pub open spec fn record_map(es: Seq<(String, String)>) -> Map<Seq<char>, Seq<char>>
    decreases es.len(),
{
    if es.len() == 0 {
        Map::empty()
    } else {
        record_map(es.drop_last()).insert(es.last().0@, es.last().1@)
    }
}

impl View for Record {
    type V = Map<Seq<char>, Seq<char>>;

    closed spec fn view(&self) -> Map<Seq<char>, Seq<char>> {
        record_map(self.entries@)
    }
}

/// A key is in the map exactly when some entry carries it.
pub proof fn lemma_record_map_dom(es: Seq<(String, String)>)
    ensures
        forall|k: Seq<char>|
            #[trigger] record_map(es).contains_key(k) ==> exists|i: int|
                0 <= i < es.len() && es[i].0@ == k,
        forall|i: int| 0 <= i < es.len() ==> record_map(es).contains_key(#[trigger] es[i].0@),
    decreases es.len(),
{
    if es.len() > 0 {
        lemma_record_map_dom(es.drop_last());
        assert forall|k: Seq<char>| #[trigger] record_map(es).contains_key(k) implies exists|
            i: int,
        | 0 <= i < es.len() && es[i].0@ == k by {
            if k == es.last().0@ {
                assert(es[es.len() - 1].0@ == k);
            } else {
                assert(record_map(es.drop_last()).contains_key(k));
                let i = choose|i: int| 0 <= i < es.drop_last().len() && es.drop_last()[i].0@ == k;
                assert(es[i].0@ == k);
            }
        }
        assert forall|i: int| 0 <= i < es.len() implies record_map(es).contains_key(
            #[trigger] es[i].0@,
        ) by {
            if i < es.len() - 1 {
                assert(es.drop_last()[i].0@ == es[i].0@);
            }
        }
    }
}

impl Record {
    /// An empty record.
    pub fn new() -> (r: Record)
        ensures
            r@ == Map::<Seq<char>, Seq<char>>::empty(),
    {
        Record { entries: Vec::new() }
    }

    /// Sets the value stored under `key`.
    pub fn insert(&mut self, key: String, value: String)
        ensures
            final(self)@ == old(self)@.insert(key@, value@),
    {
        let ghost es = self.entries@;
        self.entries.push((key, value));
        proof {
            assert(self.entries@.drop_last() =~= es);
        }
    }

    /// The value stored under `key`, if any.
    pub fn get(&self, key: &str) -> (r: Option<&String>)
        ensures
            match r {
                Some(v) => self@.contains_key(key@) && self@[key@] == v@,
                None => !self@.contains_key(key@),
            },
    {
        let ghost es = self.entries@;
        let mut i = self.entries.len();
        proof {
            assert(es.subrange(0, i as int) =~= es);
        }
        while i > 0
            invariant
                i <= es.len(),
                es == self.entries@,
                record_map(es).contains_key(key@) == record_map(
                    es.subrange(0, i as int),
                ).contains_key(key@),
                record_map(es.subrange(0, i as int)).contains_key(key@) ==> record_map(
                    es.subrange(0, i as int),
                )[key@] == record_map(es)[key@],
            decreases i,
        {
            i = i - 1;
            proof {
                assert(es.subrange(0, i + 1).drop_last() =~= es.subrange(0, i as int));
                assert(es.subrange(0, i + 1).last() == es[i as int]);
            }
            if text::str_eq(self.entries[i].0.as_str(), key) {
                return Some(&self.entries[i].1);
            }
        }
        proof {
            assert(es.subrange(0, 0) =~= Seq::<(String, String)>::empty());
        }
        None
    }
}

/// `m1`'s entries all stand in `m2` with the same values.
pub open spec fn map_le<K, V>(m1: Map<K, V>, m2: Map<K, V>) -> bool {
    forall|k: K| #[trigger] m1.contains_key(k) ==> m2.contains_key(k) && m2[k] == m1[k]
}

/// Whether every field of `a` stands in `b` with the same value.
fn record_le(a: &Record, b: &Record) -> (r: bool)
    ensures
        r == map_le(a@, b@),
{
    proof {
        lemma_record_map_dom(a.entries@);
    }
    let ghost es = a.entries@;
    let n = a.entries.len();
    let mut i: usize = 0;
    while i < n
        invariant
            n == es.len(),
            es == a.entries@,
            i <= n,
            forall|j: int|
                0 <= j < i ==> b@.contains_key(#[trigger] es[j].0@) && b@[es[j].0@] == a@[es[j].0@],
        decreases n - i,
    {
        let key = a.entries[i].0.as_str();
        let va = match a.get(key) {
            Some(v) => v,
            None => {
                proof {
                    lemma_record_map_dom(a.entries@);
                }
                // Unreachable: the entry's own key is in the map.
                assert(false);
                return false;
            },
        };
        match b.get(key) {
            Some(vb) => {
                if !text::str_eq(va.as_str(), vb.as_str()) {
                    assert(!map_le(a@, b@)) by {
                        assert(a@.contains_key(es[i as int].0@));
                    }
                    return false;
                }
            },
            None => {
                assert(!map_le(a@, b@)) by {
                    assert(a@.contains_key(es[i as int].0@));
                }
                return false;
            },
        }
        i = i + 1;
    }
    proof {
        assert forall|k: Seq<char>| #[trigger] a@.contains_key(k) implies b@.contains_key(k)
            && b@[k] == a@[k] by {
            lemma_record_map_dom(es);
            let j = choose|j: int| 0 <= j < es.len() && es[j].0@ == k;
            assert(b@.contains_key(es[j].0@));
        }
    }
    true
}

impl PartialEq for Record {
    /// Two records are equal when they hold the same fields with the
    /// same values, whatever order they were filled in.
    fn eq(&self, other: &Record) -> (r: bool) {
        let r = record_le(self, other) && record_le(other, self);
        proof {
            if r {
                assert(self@ =~= other@);
            }
        }
        r
    }
}

impl vstd::std_specs::cmp::PartialEqSpecImpl for Record {
    open spec fn obeys_eq_spec() -> bool {
        true
    }

    open spec fn eq_spec(&self, other: &Record) -> bool {
        self@ == other@
    }
}

/// One block of a [`Data`]: a single record, or an array of records.
#[derive(Clone, Debug)]
pub enum Block {
    /// A single record.
    Block(Record),
    /// A repeating record.
    Array(Vec<Record>),
}

/// Mathematical image of a [`Block`].
#[verifier::ext_equal]
pub ghost enum BlockV {
    Block(Map<Seq<char>, Seq<char>>),
    Array(Seq<Map<Seq<char>, Seq<char>>>),
}

impl View for Block {
    type V = BlockV;

    open spec fn view(&self) -> BlockV {
        match self {
            Block::Block(rec) => BlockV::Block(rec@),
            Block::Array(recs) => BlockV::Array(recs@.map_values(|r: Record| r@)),
        }
    }
}

impl Block {
    /// Whether this is a single block.
    pub fn is_block(&self) -> (r: bool)
        ensures
            r == (self@ is Block),
    {
        match self {
            Block::Block(_) => true,
            Block::Array(_) => false,
        }
    }

    /// Whether this is an array block.
    pub fn is_array(&self) -> (r: bool)
        ensures
            r == (self@ is Array),
    {
        match self {
            Block::Block(_) => false,
            Block::Array(_) => true,
        }
    }

    /// The single record, when this is a single block.
    pub fn as_block(&self) -> (r: Option<&Record>)
        ensures
            match r {
                Some(rec) => self@ is Block && self@->Block_0 == rec@,
                None => self@ is Array,
            },
    {
        match self {
            Block::Block(rec) => Some(rec),
            Block::Array(_) => None,
        }
    }

    /// The record array, when this is an array block.
    pub fn as_array(&self) -> (r: Option<&Vec<Record>>)
        ensures
            match r {
                Some(recs) => self@ is Array && self@->Array_0 == recs@.map_values(
                    |rec: Record| rec@,
                ),
                None => self@ is Block,
            },
    {
        match self {
            Block::Block(_) => None,
            Block::Array(recs) => Some(recs),
        }
    }
}

impl PartialEq for Block {
    /// Single blocks compare as records; array blocks compare record by
    /// record.
    fn eq(&self, other: &Block) -> (r: bool) {
        match self {
            Block::Block(a) => match other {
                Block::Block(b) => a == b,
                Block::Array(_) => false,
            },
            Block::Array(a) => match other {
                Block::Block(_) => false,
                Block::Array(b) => {
                    if a.len() != b.len() {
                        assert(self@->Array_0.len() != other@->Array_0.len());
                        return false;
                    }
                    let n = a.len();
                    let mut i: usize = 0;
                    while i < n
                        invariant
                            n == a@.len(),
                            n == b@.len(),
                            i <= n,
                            self@ == BlockV::Array(a@.map_values(|rec: Record| rec@)),
                            other@ == BlockV::Array(b@.map_values(|rec: Record| rec@)),
                            forall|j: int| 0 <= j < i ==> (#[trigger] a@[j])@ == b@[j]@,
                        decreases n - i,
                    {
                        let ra = &a[i];
                        let rb = &b[i];
                        if !(ra == rb) {
                            assert(self@->Array_0[i as int] != other@->Array_0[i as int]);
                            return false;
                        }
                        i = i + 1;
                    }
                    proof {
                        assert(self@->Array_0 =~= other@->Array_0);
                        assert(self@ =~= other@);
                    }
                    true
                },
            },
        }
    }
}

impl vstd::std_specs::cmp::PartialEqSpecImpl for Block {
    open spec fn obeys_eq_spec() -> bool {
        true
    }

    open spec fn eq_spec(&self, other: &Block) -> bool {
        self@ == other@
    }
}

/// The blocks of a [`Data`], by block name; a later entry for the same
/// name replaces the earlier one.
#[derive(Clone, Debug)]
pub struct BlockMap {
    entries: Vec<(String, Block)>,
}

/// The map an entry list stands for: later entries win.
pub open spec fn block_map(es: Seq<(String, Block)>) -> Map<Seq<char>, BlockV>
    decreases es.len(),
{
    if es.len() == 0 {
        Map::empty()
    } else {
        block_map(es.drop_last()).insert(es.last().0@, es.last().1@)
    }
}

impl View for BlockMap {
    type V = Map<Seq<char>, BlockV>;

    closed spec fn view(&self) -> Map<Seq<char>, BlockV> {
        block_map(self.entries@)
    }
}

impl BlockMap {
    /// An empty block table.
    pub fn new() -> (r: BlockMap)
        ensures
            r@ == Map::<Seq<char>, BlockV>::empty(),
    {
        BlockMap { entries: Vec::new() }
    }

    /// Number of insertions made.
    pub fn len(&self) -> (r: usize)
        ensures
            r == self.spec_entries().len(),
    {
        self.entries.len()
    }

    /// The inserted entries, in insertion order.
    pub closed spec fn spec_entries(&self) -> Seq<(Seq<char>, BlockV)> {
        self.entries@.map_values(|e: (String, Block)| (e.0@, e.1@))
    }

    /// Sets the block stored under `name`.
    pub fn insert(&mut self, name: String, b: Block)
        ensures
            final(self)@ == old(self)@.insert(name@, b@),
            final(self).spec_entries() == old(self).spec_entries().push((name@, b@)),
    {
        let ghost es = self.entries@;
        self.entries.push((name, b));
        proof {
            assert(self.entries@.drop_last() =~= es);
            assert(self.spec_entries() =~= old(self).spec_entries().push(
                (self.entries@.last().0@, self.entries@.last().1@),
            ));
        }
    }

    /// The block stored under `name`, if any.
    pub fn get(&self, name: &str) -> (r: Option<&Block>)
        ensures
            match r {
                Some(b) => self@.contains_key(name@) && self@[name@] == b@,
                None => !self@.contains_key(name@),
            },
    {
        let ghost es = self.entries@;
        let mut i = self.entries.len();
        proof {
            assert(es.subrange(0, i as int) =~= es);
        }
        while i > 0
            invariant
                i <= es.len(),
                es == self.entries@,
                block_map(es).contains_key(name@) == block_map(
                    es.subrange(0, i as int),
                ).contains_key(name@),
                block_map(es.subrange(0, i as int)).contains_key(name@) ==> block_map(
                    es.subrange(0, i as int),
                )[name@] == block_map(es)[name@],
            decreases i,
        {
            i = i - 1;
            proof {
                assert(es.subrange(0, i + 1).drop_last() =~= es.subrange(0, i as int));
                assert(es.subrange(0, i + 1).last() == es[i as int]);
            }
            if text::str_eq(self.entries[i].0.as_str(), name) {
                return Some(&self.entries[i].1);
            }
        }
        proof {
            assert(es.subrange(0, 0) =~= Seq::<(String, Block)>::empty());
        }
        None
    }
}

/// The data of one request or response: its TR code, direction, and
/// blocks.
#[derive(Clone, Debug)]
pub struct Data {
    /// The TR code the data belongs to.
    pub code: String,
    /// Request or response.
    pub data_type: DataType,
    /// The blocks, by block name.
    pub blocks: BlockMap,
}

/// Mathematical image of a [`Data`].
#[verifier::ext_equal]
pub ghost struct DataV {
    pub code: Seq<char>,
    pub data_type: DataType,
    pub blocks: Map<Seq<char>, BlockV>,
}

impl View for Data {
    type V = DataV;

    open spec fn view(&self) -> DataV {
        DataV { code: self.code@, data_type: self.data_type, blocks: self.blocks@ }
    }
}

/// A response's raw bytes as the transport hands them over: one buffer
/// per block in block mode, one contiguous buffer otherwise.
#[derive(Clone, Debug)]
pub enum RawData {
    /// Block-mode input: each received block's bytes under its name.
    Block(Vec<(String, Vec<u8>)>),
    /// One contiguous buffer covering all declared output blocks.
    NonBlock(Vec<u8>),
}

/// Mathematical image of a [`RawData`].
#[verifier::ext_equal]
pub ghost enum RawDataV {
    Block(Seq<(Seq<char>, Seq<u8>)>),
    NonBlock(Seq<u8>),
}

impl View for RawData {
    type V = RawDataV;

    open spec fn view(&self) -> RawDataV {
        match self {
            RawData::Block(es) => RawDataV::Block(
                es@.map_values(|e: (String, Vec<u8>)| (e.0@, e.1@)),
            ),
            RawData::NonBlock(raw) => RawDataV::NonBlock(raw@),
        }
    }
}

// ---------------------------------------------------------------------
// What the codec computes, as spec functions.
// ---------------------------------------------------------------------

/// What one field's byte slot decodes to: the legacy decoding of its
/// bytes, trimmed of control characters and spaces on both ends.
pub open spec fn sp_dec_value(b: Seq<u8>) -> Option<Seq<char>> {
    match euckr_str(b) {
        None => None,
        Some(s) => Some(text::trim_chars(s)),
    }
}

/// Decodes the fields of one record, walking `raw` from `off` by each
/// field's extent; `None` when a field's bytes are malformed.
pub open spec fn sp_dec_record(
    fields: Seq<FieldLayoutV>,
    attr: bool,
    raw: Seq<u8>,
    off: int,
    i: int,
    acc: Map<Seq<char>, Seq<char>>,
) -> Option<(Map<Seq<char>, Seq<char>>, int)>
    decreases fields.len() - i,
{
    if i >= fields.len() {
        Some((acc, off))
    } else {
        let f = fields[i];
        match sp_dec_value(raw.subrange(off, off + f.len)) {
            None => None,
            Some(v) => sp_dec_record(
                fields,
                attr,
                raw,
                off + field_extent(f, attr),
                i + 1,
                acc.insert(f.name, v),
            ),
        }
    }
}

/// Decodes `cnt` consecutive records.
pub open spec fn sp_dec_records(
    fields: Seq<FieldLayoutV>,
    attr: bool,
    raw: Seq<u8>,
    off: int,
    cnt: int,
    acc: Seq<Map<Seq<char>, Seq<char>>>,
) -> Option<(Seq<Map<Seq<char>, Seq<char>>>, int)>
    decreases cnt,
{
    if cnt <= 0 {
        Some((acc, off))
    } else {
        match sp_dec_record(fields, attr, raw, off, 0, Map::empty()) {
            None => None,
            Some((m, off2)) => sp_dec_records(fields, attr, raw, off2, cnt - 1, acc.push(m)),
        }
    }
}

/// Block-mode decode of a single block: the buffer must be exactly one
/// record.
pub open spec fn sp_dec_block(tr: TrLayoutV, bl: BlockLayoutV, raw: Seq<u8>) -> Result<
    BlockV,
    DecodeErrorV,
> {
    if raw.len() != bl.len {
        Err(DecodeErrorV::MismatchDataLength)
    } else {
        match sp_dec_record(bl.fields, tr.attr, raw, 0, 0, Map::empty()) {
            None => Err(DecodeErrorV::MalformedString),
            Some((m, _)) => Ok(BlockV::Block(m)),
        }
    }
}

/// Block-mode decode of an array block: the buffer must be an exact
/// multiple of the record width; the count is the quotient.
pub open spec fn sp_dec_block_array(tr: TrLayoutV, bl: BlockLayoutV, raw: Seq<u8>) -> Result<
    BlockV,
    DecodeErrorV,
> {
    if (raw.len() as int) % bl.len != 0 {
        Err(DecodeErrorV::MismatchDataLength)
    } else {
        match sp_dec_records(bl.fields, tr.attr, raw, 0, (raw.len() as int) / bl.len, Seq::empty()) {
            None => Err(DecodeErrorV::MalformedString),
            Some((recs, _)) => Ok(BlockV::Array(recs)),
        }
    }
}

/// The first declared block with the given name.
pub open spec fn find_block(blocks: Seq<BlockLayoutV>, name: Seq<char>) -> Option<BlockLayoutV>
    decreases blocks.len(),
{
    if blocks.len() == 0 {
        None
    } else if blocks[0].name == name {
        Some(blocks[0])
    } else {
        find_block(blocks.drop_first(), name)
    }
}

/// Block-mode decode of a whole response: each received buffer is
/// matched to the output block of its name and decoded on its own.
pub open spec fn sp_dec_block_tbl(
    tr: TrLayoutV,
    entries: Seq<(Seq<char>, Seq<u8>)>,
    i: int,
    acc: Map<Seq<char>, BlockV>,
) -> Result<Map<Seq<char>, BlockV>, DecodeErrorV>
    decreases entries.len() - i,
{
    if i >= entries.len() {
        Ok(acc)
    } else {
        let name = entries[i].0;
        let rawb = entries[i].1;
        match find_block(tr.out_blocks, name) {
            None => Err(DecodeErrorV::UnknownBlock(name)),
            Some(bl) => {
                let r = if bl.occurs {
                    sp_dec_block_array(tr, bl, rawb)
                } else {
                    sp_dec_block(tr, bl, rawb)
                };
                match r {
                    Err(e) => Err(e),
                    Ok(b) => sp_dec_block_tbl(tr, entries, i + 1, acc.insert(name, b)),
                }
            },
        }
    }
}

/// An ASCII decimal digit byte.
pub open spec fn is_digit_byte(b: u8) -> bool {
    0x30 <= b <= 0x39
}

/// A five-byte ASCII decimal count prefix, or `None` when any byte is
/// not a digit.
pub open spec fn count5(b: Seq<u8>) -> Option<int> {
    if b.len() == 5 && is_digit_byte(b[0]) && is_digit_byte(b[1]) && is_digit_byte(b[2])
        && is_digit_byte(b[3]) && is_digit_byte(b[4]) {
        Some(
            (b[0] - 0x30) * 10000 + (b[1] - 0x30) * 1000 + (b[2] - 0x30) * 100 + (b[3] - 0x30) * 10
                + (b[4] - 0x30),
        )
    } else {
        None
    }
}

/// Non-block-mode decode: the declared output blocks lie back to back in
/// one buffer; an array block is preceded by its five-byte count.
pub open spec fn sp_dec_non_block_blocks(
    tr: TrLayoutV,
    blocks: Seq<BlockLayoutV>,
    i: int,
    raw: Seq<u8>,
    off: int,
    acc: Map<Seq<char>, BlockV>,
) -> Result<(Map<Seq<char>, BlockV>, int), DecodeErrorV>
    decreases blocks.len() - i,
{
    if i >= blocks.len() {
        Ok((acc, off))
    } else {
        let bl = blocks[i];
        if bl.occurs {
            if off + 5 > raw.len() {
                Err(DecodeErrorV::MismatchDataLength)
            } else {
                match count5(raw.subrange(off, off + 5)) {
                    None => Err(DecodeErrorV::InvalidArrayLength),
                    Some(cnt) => if off + 5 + bl.len * cnt > raw.len() {
                        Err(DecodeErrorV::MismatchDataLength)
                    } else {
                        match sp_dec_records(bl.fields, tr.attr, raw, off + 5, cnt, Seq::empty()) {
                            None => Err(DecodeErrorV::MalformedString),
                            Some((recs, off2)) => sp_dec_non_block_blocks(
                                tr,
                                blocks,
                                i + 1,
                                raw,
                                off2,
                                acc.insert(bl.name, BlockV::Array(recs)),
                            ),
                        }
                    },
                }
            }
        } else {
            if off + bl.len > raw.len() {
                Err(DecodeErrorV::MismatchDataLength)
            } else {
                match sp_dec_record(bl.fields, tr.attr, raw, off, 0, Map::empty()) {
                    None => Err(DecodeErrorV::MalformedString),
                    Some((m, off2)) => sp_dec_non_block_blocks(
                        tr,
                        blocks,
                        i + 1,
                        raw,
                        off2,
                        acc.insert(bl.name, BlockV::Block(m)),
                    ),
                }
            }
        }
    }
}

/// Non-block-mode decode of a whole buffer.  The declared blocks must
/// cover the buffer exactly: bytes left over after the last block are a
/// length mismatch, just as missing bytes are.
pub open spec fn sp_dec_non_block(tr: TrLayoutV, dt: DataType, raw: Seq<u8>) -> Result<
    DataV,
    DecodeErrorV,
> {
    match sp_dec_non_block_blocks(tr, tr.out_blocks, 0, raw, 0, Map::empty()) {
        Err(e) => Err(e),
        Ok((m, off)) => if off != raw.len() {
            Err(DecodeErrorV::MismatchDataLength)
        } else {
            Ok(DataV { code: tr.code, data_type: dt, blocks: m })
        },
    }
}

/// Decode of a whole response, in either transport shape.
pub open spec fn sp_decode(tr: TrLayoutV, raw: RawDataV) -> Result<DataV, DecodeErrorV> {
    match raw {
        RawDataV::Block(entries) => match sp_dec_block_tbl(tr, entries, 0, Map::empty()) {
            Err(e) => Err(e),
            Ok(m) => Ok(DataV { code: tr.code, data_type: DataType::Output, blocks: m }),
        },
        RawDataV::NonBlock(bytes) => sp_dec_non_block(tr, DataType::Output, bytes),
    }
}

/// `n` zero bytes.
pub open spec fn zeros(n: int) -> Seq<u8> {
    Seq::new(n as nat, |i: int| 0u8)
}

/// What one field's value becomes on the wire: its legacy encoding,
/// rejected when longer than the field's width, else padded with NULs to
/// the field's extent.
pub open spec fn sp_enc_value(v: Seq<char>, f: FieldLayoutV, attr: bool) -> Option<Seq<u8>> {
    let b = euckr_bytes(v);
    if b.len() > f.len {
        None
    } else {
        Some(b + zeros(field_extent(f, attr) - b.len()))
    }
}

/// A record's value for a field: the current name first, then the
/// legacy name.
pub open spec fn rec_lookup(rec: Map<Seq<char>, Seq<char>>, f: FieldLayoutV) -> Option<Seq<char>> {
    if rec.contains_key(f.name) {
        Some(rec[f.name])
    } else if rec.contains_key(f.name_old) {
        Some(rec[f.name_old])
    } else {
        None
    }
}

/// Encodes one record's fields in order onto `acc`.
pub open spec fn sp_enc_record(
    bname: Seq<char>,
    fields: Seq<FieldLayoutV>,
    attr: bool,
    rec: Map<Seq<char>, Seq<char>>,
    i: int,
    acc: Seq<u8>,
) -> Result<Seq<u8>, EncodeErrorV>
    decreases fields.len() - i,
{
    if i >= fields.len() {
        Ok(acc)
    } else {
        let f = fields[i];
        match rec_lookup(rec, f) {
            None => Err(EncodeErrorV::MissingField { block: bname, field: f.name }),
            Some(v) => match sp_enc_value(v, f, attr) {
                None => Err(EncodeErrorV::ExceedFieldLength { block: bname, field: f.name }),
                Some(b) => sp_enc_record(bname, fields, attr, rec, i + 1, acc + b),
            },
        }
    }
}

/// Encodes an array block's records in order onto `acc`.
pub open spec fn sp_enc_records(
    bname: Seq<char>,
    fields: Seq<FieldLayoutV>,
    attr: bool,
    recs: Seq<Map<Seq<char>, Seq<char>>>,
    i: int,
    acc: Seq<u8>,
) -> Result<Seq<u8>, EncodeErrorV>
    decreases recs.len() - i,
{
    if i >= recs.len() {
        Ok(acc)
    } else {
        match sp_enc_record(bname, fields, attr, recs[i], 0, acc) {
            Err(e) => Err(e),
            Ok(acc2) => sp_enc_records(bname, fields, attr, recs, i + 1, acc2),
        }
    }
}

/// The five-digit zero-padded ASCII decimal form of a record count.
pub open spec fn digits5(cnt: int) -> Seq<u8> {
    seq![
        (0x30 + cnt / 10000 % 10) as u8,
        (0x30 + cnt / 1000 % 10) as u8,
        (0x30 + cnt / 100 % 10) as u8,
        (0x30 + cnt / 10 % 10) as u8,
        (0x30 + cnt % 10) as u8,
    ]
}

/// Encodes the declared blocks in order onto `acc`.  In non-block mode
/// an array block is preceded by its five-digit count, which must fit
/// five digits.
pub open spec fn sp_enc_blocks(
    tr: TrLayoutV,
    blocks: Seq<BlockLayoutV>,
    data: DataV,
    i: int,
    acc: Seq<u8>,
) -> Result<Seq<u8>, EncodeErrorV>
    decreases blocks.len() - i,
{
    if i >= blocks.len() {
        Ok(acc)
    } else {
        let bl = blocks[i];
        if !data.blocks.contains_key(bl.name) {
            Err(EncodeErrorV::MissingBlock { block: bl.name })
        } else if bl.occurs {
            match data.blocks[bl.name] {
                BlockV::Block(_) => Err(EncodeErrorV::MismatchBlockType { block: bl.name }),
                BlockV::Array(recs) => if !tr.block && recs.len() >= 100000 {
                    Err(EncodeErrorV::ExceedArrayLength { block: bl.name })
                } else {
                    let acc1 = if tr.block {
                        acc
                    } else {
                        acc + digits5(recs.len() as int)
                    };
                    match sp_enc_records(bl.name, bl.fields, tr.attr, recs, 0, acc1) {
                        Err(e) => Err(e),
                        Ok(acc2) => sp_enc_blocks(tr, blocks, data, i + 1, acc2),
                    }
                },
            }
        } else {
            match data.blocks[bl.name] {
                BlockV::Array(_) => Err(EncodeErrorV::MismatchBlockType { block: bl.name }),
                BlockV::Block(rec) => match sp_enc_record(bl.name, bl.fields, tr.attr, rec, 0, acc) {
                    Err(e) => Err(e),
                    Ok(acc2) => sp_enc_blocks(tr, blocks, data, i + 1, acc2),
                },
            }
        }
    }
}

/// Encode of a whole request or response: the data's code must be the
/// layout's; its direction picks the block list.
pub open spec fn sp_encode(tr: TrLayoutV, data: DataV) -> Result<Seq<u8>, EncodeErrorV> {
    if data.code != tr.code {
        Err(EncodeErrorV::MismatchLayout)
    } else {
        let blocks = if data.data_type == DataType::Input {
            tr.in_blocks
        } else {
            tr.out_blocks
        };
        sp_enc_blocks(tr, blocks, data, 0, Seq::empty())
    }
}

/// Every value in the record is short enough for the encoder.
pub open spec fn rec_bounded(m: Map<Seq<char>, Seq<char>>) -> bool {
    forall|k: Seq<char>| #[trigger] m.contains_key(k) ==> m[k].len() <= euckr::MAX_TEXT_LEN
}

/// Every value in the block is short enough for the encoder.
pub open spec fn block_bounded(b: BlockV) -> bool {
    match b {
        BlockV::Block(m) => rec_bounded(m),
        BlockV::Array(s) => forall|i: int| 0 <= i < s.len() ==> rec_bounded(#[trigger] s[i]),
    }
}

/// Every value in the data is short enough for the encoder: a machine
/// limit on the size of a single field value.
pub open spec fn data_bounded(d: DataV) -> bool {
    forall|k: Seq<char>| #[trigger] d.blocks.contains_key(k) ==> block_bounded(d.blocks[k])
}

// ---------------------------------------------------------------------
// Decoding.
// ---------------------------------------------------------------------

/// The field views of a layout's field list.
pub open spec fn field_views(fields: Seq<FieldLayout>) -> Seq<FieldLayoutV> {
    fields.map_values(|f: FieldLayout| f@)
}

/// Every field's slot lies inside the record: the offset sum up to any
/// field, plus that field's extent, stays within the record width.
pub proof fn lemma_offsets_within_record(fields: Seq<FieldLayoutV>, attr: bool, i: int)
    requires
        forall|k: int| 0 <= k < fields.len() ==> crate::layout::wf_field(#[trigger] fields[k]),
        0 <= i < fields.len(),
    ensures
        0 <= body_len(fields.subrange(0, i), attr),
        body_len(fields.subrange(0, i), attr) + field_extent(fields[i], attr) <= body_len(
            fields,
            attr,
        ),
{
    lemma_body_len_prefix(fields, attr, 0, i);
    assert(fields.subrange(0, 0) =~= Seq::<FieldLayoutV>::empty());
    assert(fields.subrange(0, i + 1).drop_last() =~= fields.subrange(0, i));
    assert(fields.subrange(0, i + 1).last() == fields[i]);
    lemma_body_len_prefix(fields, attr, i + 1, fields.len() as int);
    assert(fields.subrange(0, fields.len() as int) =~= fields);
}

/// Decodes one field's byte slot.
pub fn decode_str(data: &[u8]) -> (res: Result<String, DecodeError>)
    requires
        data@.len() <= euckr::MAX_TEXT_LEN,
    ensures
        match sp_dec_value(data@) {
            None => res is Err && res->Err_0@ == DecodeErrorV::MalformedString,
            Some(v) => res is Ok && res->Ok_0@ == v,
        },
{
    match euckr::decode(data) {
        None => Err(DecodeError::MalformedString),
        Some(s) => Ok(text::trim_value(s.as_str())),
    }
}

/// Decodes one record's fields starting at `offset`; returns the record
/// and the offset just past it.
#[verifier::loop_isolation(false)]
fn decode_record(fields: &Vec<FieldLayout>, attr: bool, raw: &[u8], offset: usize) -> (res: Result<
    (Record, usize),
    DecodeError,
>)
    requires
        raw@.len() <= euckr::MAX_TEXT_LEN,
        forall|k: int| 0 <= k < fields@.len() ==> crate::layout::wf_field((#[trigger] fields@[k])@),
        offset + body_len(field_views(fields@), attr) <= raw@.len(),
    ensures
        match sp_dec_record(field_views(fields@), attr, raw@, offset as int, 0, Map::empty()) {
            None => res is Err && res->Err_0@ == DecodeErrorV::MalformedString,
            Some((m, off2)) => {
                &&& res is Ok
                &&& (res->Ok_0).0@ == m
                &&& (res->Ok_0).1 == off2
            },
        },
{
    let ghost fvs = field_views(fields@);
    let mut rec = Record::new();
    let mut off = offset;
    let mut i: usize = 0;
    while i < fields.len()
        invariant
            i <= fields.len(),
            off == offset + body_len(fvs.subrange(0, i as int), attr),
            sp_dec_record(fvs, attr, raw@, offset as int, 0, Map::empty()) == sp_dec_record(
                fvs,
                attr,
                raw@,
                off as int,
                i as int,
                rec@,
            ),
        decreases fields.len() - i,
    {
        proof {
            lemma_offsets_within_record(fvs, attr, i as int);
        }
        let f = &fields[i];
        let slice = slice_subrange(raw, off, off + f.len);
        let v = match decode_str(slice) {
            Err(e) => {
                return Err(e);
            },
            Ok(v) => v,
        };
        rec.insert(f.name.clone(), v);
        proof {
            assert(fvs.subrange(0, i + 1).drop_last() =~= fvs.subrange(0, i as int));
            assert(fvs.subrange(0, i + 1).last() == fvs[i as int]);
        }
        off = off + f.len + if attr {
            1
        } else {
            0
        };
        i = i + 1;
    }
    proof {
        assert(fvs.subrange(0, fvs.len() as int) =~= fvs);
    }
    Ok((rec, off))
}

/// Decodes `cnt` consecutive records starting at `offset`.
#[verifier::loop_isolation(false)]
fn decode_records(fields: &Vec<FieldLayout>, attr: bool, raw: &[u8], offset: usize, cnt: usize) -> (res:
    Result<(Vec<Record>, usize), DecodeError>)
    requires
        raw@.len() <= euckr::MAX_TEXT_LEN,
        forall|k: int| 0 <= k < fields@.len() ==> crate::layout::wf_field((#[trigger] fields@[k])@),
        offset + cnt * body_len(field_views(fields@), attr) <= raw@.len(),
        0 <= body_len(field_views(fields@), attr),
    ensures
        match sp_dec_records(field_views(fields@), attr, raw@, offset as int, cnt as int, Seq::empty()) {
            None => res is Err && res->Err_0@ == DecodeErrorV::MalformedString,
            Some((ms, off2)) => {
                &&& res is Ok
                &&& (res->Ok_0).0@.map_values(|r: Record| r@) == ms
                &&& (res->Ok_0).1 == off2
            },
        },
{
    let ghost fvs = field_views(fields@);
    let ghost rbl = body_len(fvs, attr);
    let mut recs: Vec<Record> = Vec::new();
    let mut off = offset;
    let mut k: usize = 0;
    proof {
        assert(recs@.map_values(|r: Record| r@) =~= Seq::<Map<Seq<char>, Seq<char>>>::empty());
    }
    while k < cnt
        invariant
            k <= cnt,
            off == offset + k * rbl,
            sp_dec_records(fvs, attr, raw@, offset as int, cnt as int, Seq::empty())
                == sp_dec_records(
                fvs,
                attr,
                raw@,
                off as int,
                cnt - k,
                recs@.map_values(|r: Record| r@),
            ),
        decreases cnt - k,
    {
        proof {
            assert((k + 1) * rbl <= cnt * rbl) by (nonlinear_arith)
                requires
                    k + 1 <= cnt,
                    rbl >= 0,
            ;
            assert(off + rbl <= raw@.len()) by {
                assert((k + 1) * rbl == k * rbl + rbl) by (nonlinear_arith);
            }
        }
        let (rec, off2) = match decode_record(fields, attr, raw, off) {
            Err(e) => {
                return Err(e);
            },
            Ok(p) => p,
        };
        proof {
            if let Some((m, o)) = sp_dec_record(fvs, attr, raw@, off as int, 0, Map::empty()) {
                lemma_dec_record_offset(fvs, attr, raw@, off as int, 0, Map::empty());
            }
        }
        let ghost before = recs@.map_values(|r: Record| r@);
        recs.push(rec);
        proof {
            assert(recs@.map_values(|r: Record| r@) =~= before.push(recs@.last()@));
        }
        off = off2;
        k = k + 1;
        proof {
            assert(k * rbl == (k - 1) * rbl + rbl) by (nonlinear_arith);
        }
    }
    Ok((recs, off))
}

/// A decoded record ends exactly one record width past where it began.
proof fn lemma_dec_record_offset(
    fields: Seq<FieldLayoutV>,
    attr: bool,
    raw: Seq<u8>,
    off: int,
    i: int,
    acc: Map<Seq<char>, Seq<char>>,
)
    requires
        0 <= i <= fields.len(),
    ensures
        match sp_dec_record(fields, attr, raw, off, i, acc) {
            None => true,
            Some((m, off2)) => off2 == off + body_len(fields, attr) - body_len(
                fields.subrange(0, i),
                attr,
            ),
        },
    decreases fields.len() - i,
{
    if i < fields.len() {
        let f = fields[i];
        match sp_dec_value(raw.subrange(off, off + f.len)) {
            None => {},
            Some(v) => {
                lemma_dec_record_offset(
                    fields,
                    attr,
                    raw,
                    off + field_extent(f, attr),
                    i + 1,
                    acc.insert(f.name, v),
                );
                assert(fields.subrange(0, i + 1).drop_last() =~= fields.subrange(0, i));
                assert(fields.subrange(0, i + 1).last() == fields[i]);
            },
        }
    } else {
        assert(fields.subrange(0, i) =~= fields);
    }
}

/// Decodes one single (non-array) block of a block-mode response.  The
/// buffer must be exactly one record.
pub fn decode_block(tr_layout: &TrLayout, block_layout: &BlockLayout, raw_block: &[u8]) -> (res:
    Result<Block, DecodeError>)
    requires
        tr_layout@.block,
        !block_layout@.occurs,
        wf_block(block_layout@, tr_layout@.attr),
        raw_block@.len() <= euckr::MAX_TEXT_LEN,
    ensures
        match sp_dec_block(tr_layout@, block_layout@, raw_block@) {
            Err(e) => res is Err && res->Err_0@ == e,
            Ok(b) => res is Ok && res->Ok_0@ == b,
        },
{
    if raw_block.len() != block_layout.len {
        return Err(DecodeError::MismatchDataLength);
    }
    match decode_record(&block_layout.fields, tr_layout.attr, raw_block, 0) {
        Err(e) => Err(e),
        Ok((rec, _)) => Ok(Block::Block(rec)),
    }
}

/// Decodes one array block of a block-mode response.  The buffer must
/// be an exact multiple of the record width; the count is the quotient.
pub fn decode_block_array(tr_layout: &TrLayout, block_layout: &BlockLayout, raw_block: &[u8]) -> (res:
    Result<Block, DecodeError>)
    requires
        tr_layout@.block,
        block_layout@.occurs,
        wf_block(block_layout@, tr_layout@.attr),
        block_layout@.len > 0,
        raw_block@.len() <= euckr::MAX_TEXT_LEN,
    ensures
        match sp_dec_block_array(tr_layout@, block_layout@, raw_block@) {
            Err(e) => res is Err && res->Err_0@ == e,
            Ok(b) => res is Ok && res->Ok_0@ == b,
        },
{
    if raw_block.len() % block_layout.len != 0 {
        return Err(DecodeError::MismatchDataLength);
    }
    let cnt = raw_block.len() / block_layout.len;
    proof {
        vstd::arithmetic::div_mod::lemma_fundamental_div_mod(
            raw_block@.len() as int,
            block_layout@.len,
        );
        assert(field_views(block_layout.fields@) =~= block_layout@.fields);
        assert(body_len(field_views(block_layout.fields@), tr_layout@.attr) == block_layout@.len);
        assert(cnt * block_layout@.len == block_layout@.len * cnt) by (nonlinear_arith);
    }
    match decode_records(&block_layout.fields, tr_layout.attr, raw_block, 0, cnt) {
        Err(e) => Err(e),
        Ok((recs, _)) => Ok(Block::Array(recs)),
    }
}

/// Index of the first declared block with the given name.
#[verifier::loop_isolation(false)]
fn find_block_idx(blocks: &Vec<BlockLayout>, name: &str) -> (r: Option<usize>)
    ensures
        match find_block(blocks@.map_values(|b: BlockLayout| b@), name@) {
            None => r is None,
            Some(bl) => r is Some && r->0 < blocks@.len() && blocks@[r->0 as int]@ == bl,
        },
{
    let ghost bvs = blocks@.map_values(|b: BlockLayout| b@);
    let n = blocks.len();
    let mut j: usize = 0;
    proof {
        assert(bvs.skip(0) =~= bvs);
    }
    while j < n
        invariant
            j <= n,
            find_block(bvs.skip(j as int), name@) == find_block(bvs, name@),
        decreases n - j,
    {
        proof {
            assert(bvs.skip(j as int).drop_first() =~= bvs.skip(j + 1));
            assert(bvs.skip(j as int)[0] == bvs[j as int]);
        }
        if text::str_eq(blocks[j].name.as_str(), name) {
            return Some(j);
        }
        j = j + 1;
    }
    proof {
        assert(bvs.skip(n as int) =~= Seq::<BlockLayoutV>::empty());
    }
    None
}

/// Decodes a whole response, in either transport shape: block-mode
/// buffers are matched to output blocks by name; a non-block buffer is
/// walked in declared order.
#[verifier::loop_isolation(false)]
pub fn decode(tr_layout: &TrLayout, raw_data: &RawData) -> (res: Result<Data, DecodeError>)
    requires
        wf_tr(tr_layout@),
        tr_layout@.block <==> raw_data@ is Block,
        forall|i: int|
            0 <= i < tr_layout@.out_blocks.len() && (#[trigger] tr_layout@.out_blocks[i]).occurs
                ==> tr_layout@.out_blocks[i].len > 0,
        match raw_data@ {
            RawDataV::Block(es) => forall|i: int|
                0 <= i < es.len() ==> (#[trigger] es[i]).1.len() <= euckr::MAX_TEXT_LEN,
            RawDataV::NonBlock(b) => b.len() <= euckr::MAX_TEXT_LEN,
        },
    ensures
        match sp_decode(tr_layout@, raw_data@) {
            Err(e) => res is Err && res->Err_0@ == e,
            Ok(d) => res is Ok && res->Ok_0@ == d,
        },
{
    let ghost trv = tr_layout@;
    match raw_data {
        RawData::Block(entries) => {
            let ghost esv = entries@.map_values(|e: (String, Vec<u8>)| (e.0@, e.1@));
            let mut blocks = BlockMap::new();
            let n = entries.len();
            let mut i: usize = 0;
            while i < n
                invariant
                    i <= n,
                    sp_dec_block_tbl(trv, esv, 0, Map::empty()) == sp_dec_block_tbl(
                        trv,
                        esv,
                        i as int,
                        blocks@,
                    ),
                decreases n - i,
            {
                let name = &entries[i].0;
                let raw_block = &entries[i].1;
                let bl_idx = match find_block_idx(&tr_layout.out_blocks, name.as_str()) {
                    None => {
                        return Err(DecodeError::UnknownBlock(name.clone()));
                    },
                    Some(j) => j,
                };
                let bl = &tr_layout.out_blocks[bl_idx];
                proof {
                    assert(wf_block(trv.out_blocks[bl_idx as int], trv.attr));
                    assert(esv[i as int].1 == entries@[i as int].1@);
                }
                let b = if bl.occurs {
                    decode_block_array(tr_layout, bl, raw_block.as_slice())
                } else {
                    decode_block(tr_layout, bl, raw_block.as_slice())
                };
                match b {
                    Err(e) => {
                        return Err(e);
                    },
                    Ok(b) => {
                        blocks.insert(name.clone(), b);
                    },
                }
                i = i + 1;
            }
            Ok(Data { code: tr_layout.code.clone(), data_type: DataType::Output, blocks })
        },
        RawData::NonBlock(raw) => decode_non_block(tr_layout, DataType::Output, raw.as_slice()),
    }
}

/// Reads the five-byte ASCII decimal count at `off`.
fn count5_x(raw: &[u8], off: usize) -> (r: Option<usize>)
    requires
        off + 5 <= raw@.len(),
    ensures
        match count5(raw@.subrange(off as int, off + 5)) {
            None => r is None,
            Some(v) => r == Some(v as usize),
        },
{
    let ghost b = raw@.subrange(off as int, off + 5);
    let d0 = raw[off];
    let d1 = raw[off + 1];
    let d2 = raw[off + 2];
    let d3 = raw[off + 3];
    let d4 = raw[off + 4];
    proof {
        assert(b[0] == d0 && b[1] == d1 && b[2] == d2 && b[3] == d3 && b[4] == d4);
    }
    if d0 < 0x30 || d0 > 0x39 || d1 < 0x30 || d1 > 0x39 || d2 < 0x30 || d2 > 0x39 || d3 < 0x30
        || d3 > 0x39 || d4 < 0x30 || d4 > 0x39 {
        return None;
    }
    let v: usize = (d0 - 0x30) as usize * 10000 + (d1 - 0x30) as usize * 1000 + (d2
        - 0x30) as usize * 100 + (d3 - 0x30) as usize * 10 + (d4 - 0x30) as usize;
    Some(v)
}

/// Decodes a non-block-mode buffer: the declared output blocks lie back
/// to back, each array block preceded by its five-byte count, and
/// together they must cover the buffer exactly.
#[verifier::loop_isolation(false)]
pub fn decode_non_block(tr_layout: &TrLayout, data_type: DataType, raw_data: &[u8]) -> (res: Result<
    Data,
    DecodeError,
>)
    requires
        wf_tr(tr_layout@),
        !tr_layout@.block,
        raw_data@.len() <= euckr::MAX_TEXT_LEN,
    ensures
        match sp_dec_non_block(tr_layout@, data_type, raw_data@) {
            Err(e) => res is Err && res->Err_0@ == e,
            Ok(d) => res is Ok && res->Ok_0@ == d,
        },
{
    let ghost trv = tr_layout@;
    let ghost bvs = trv.out_blocks;
    let mut blocks = BlockMap::new();
    let mut off: usize = 0;
    let n = tr_layout.out_blocks.len();
    let mut i: usize = 0;
    while i < n
        invariant
            i <= n,
            off <= raw_data@.len(),
            sp_dec_non_block_blocks(trv, bvs, 0, raw_data@, 0, Map::empty())
                == sp_dec_non_block_blocks(trv, bvs, i as int, raw_data@, off as int, blocks@),
        decreases n - i,
    {
        let bl = &tr_layout.out_blocks[i];
        let ghost blv = bvs[i as int];
        let ghost rbl = blv.len;
        if bl.occurs {
            if raw_data.len() - off < 5 {
                return Err(DecodeError::MismatchDataLength);
            }
            let cnt = match count5_x(raw_data, off) {
                None => {
                    return Err(DecodeError::InvalidArrayLength);
                },
                Some(c) => c,
            };
            let rem = raw_data.len() - off - 5;
            let too_long: bool = if cnt == 0 {
                false
            } else {
                bl.len > rem / cnt
            };
            proof {
                if cnt > 0 {
                    assert((rbl > rem / cnt) == (rbl * cnt > rem)) by (nonlinear_arith)
                        requires
                            cnt > 0,
                            rem >= 0,
                            rbl >= 0,
                    ;
                }
            }
            if too_long {
                return Err(DecodeError::MismatchDataLength);
            }
            proof {
                if cnt == 0 {
                    assert(rbl * cnt == 0) by (nonlinear_arith)
                        requires
                            cnt == 0,
                    ;
                }
                assert(off + 5 + cnt * rbl <= raw_data@.len()) by (nonlinear_arith)
                    requires
                        rbl * cnt <= rem,
                        rem == raw_data@.len() - off - 5,
                        cnt >= 0,
                        rbl >= 0,
                ;
            }
            let (recs, off2) = match decode_records(&bl.fields, tr_layout.attr, raw_data, off + 5, cnt) {
                Err(e) => {
                    return Err(e);
                },
                Ok(p) => p,
            };
            proof {
                lemma_dec_records_offset(blv.fields, trv.attr, raw_data@, off + 5, cnt as int, Seq::empty());
                assert((cnt as int) * rbl == rbl * cnt) by (nonlinear_arith);
            }
            blocks.insert(bl.name.clone(), Block::Array(recs));
            off = off2;
        } else {
            if raw_data.len() - off < bl.len {
                return Err(DecodeError::MismatchDataLength);
            }
            let (rec, off2) = match decode_record(&bl.fields, tr_layout.attr, raw_data, off) {
                Err(e) => {
                    return Err(e);
                },
                Ok(p) => p,
            };
            proof {
                lemma_dec_record_offset(blv.fields, trv.attr, raw_data@, off as int, 0, Map::empty());
                assert(blv.fields.subrange(0, 0) =~= Seq::<FieldLayoutV>::empty());
            }
            blocks.insert(bl.name.clone(), Block::Block(rec));
            off = off2;
        }
        i = i + 1;
    }
    if off != raw_data.len() {
        // Surplus bytes after the declared blocks are as wrong as
        // missing ones.
        return Err(DecodeError::MismatchDataLength);
    }
    Ok(Data { code: tr_layout.code.clone(), data_type, blocks })
}

/// Decoded records end exactly `cnt` record widths past where they
/// began.
proof fn lemma_dec_records_offset(
    fields: Seq<FieldLayoutV>,
    attr: bool,
    raw: Seq<u8>,
    off: int,
    cnt: int,
    acc: Seq<Map<Seq<char>, Seq<char>>>,
)
    requires
        cnt >= 0,
    ensures
        match sp_dec_records(fields, attr, raw, off, cnt, acc) {
            None => true,
            Some((ms, off2)) => off2 == off + cnt * body_len(fields, attr) && ms.len() == acc.len()
                + cnt,
        },
    decreases cnt,
{
    if cnt > 0 {
        match sp_dec_record(fields, attr, raw, off, 0, Map::empty()) {
            None => {},
            Some((m, off2)) => {
                lemma_dec_record_offset(fields, attr, raw, off, 0, Map::empty());
                assert(fields.subrange(0, 0) =~= Seq::<FieldLayoutV>::empty());
                lemma_dec_records_offset(fields, attr, raw, off2, cnt - 1, acc.push(m));
                assert(cnt * body_len(fields, attr) == body_len(fields, attr) + (cnt - 1)
                    * body_len(fields, attr)) by (nonlinear_arith);
            },
        }
    } else {
        assert(cnt * body_len(fields, attr) == 0) by (nonlinear_arith)
            requires
                cnt == 0,
        ;
    }
}

// ---------------------------------------------------------------------
// Encoding.
// ---------------------------------------------------------------------

/// Encodes one record onto `enc_data`, field by field in declared
/// order: each value is looked up under the field's current name, then
/// its legacy name, encoded, length-checked, and NUL-padded to the
/// field's extent.  Bytes are only ever appended: whatever stood in
/// `enc_data` stays as a prefix, also when encoding fails part-way.
#[verifier::loop_isolation(false)]
pub fn encode_block(
    tr_layout: &TrLayout,
    block_layout: &BlockLayout,
    rec: &Record,
    enc_data: &mut Vec<u8>,
) -> (res: Result<(), EncodeError>)
    requires
        wf_block(block_layout@, tr_layout@.attr),
        rec_bounded(rec@),
    ensures
        final(enc_data)@.len() >= old(enc_data)@.len(),
        final(enc_data)@.subrange(0, old(enc_data)@.len() as int) == old(enc_data)@,
        match sp_enc_record(
            block_layout@.name,
            block_layout@.fields,
            tr_layout@.attr,
            rec@,
            0,
            old(enc_data)@,
        ) {
            Err(e) => res is Err && res->Err_0@ == e,
            Ok(acc) => res is Ok && final(enc_data)@ == acc,
        },
{
    let ghost bname = block_layout@.name;
    let ghost fvs = block_layout@.fields;
    let ghost attr_g = tr_layout@.attr;
    let ghost acc0 = enc_data@;
    proof {
        assert(fvs =~= field_views(block_layout.fields@));
    }
    proof {
        assert(enc_data@.subrange(0, acc0.len() as int) =~= acc0);
    }
    let attr = tr_layout.attr;
    let n = block_layout.fields.len();
    let mut i: usize = 0;
    while i < n
        invariant
            i <= n,
            enc_data@.len() >= acc0.len(),
            enc_data@.subrange(0, acc0.len() as int) == acc0,
            sp_enc_record(bname, fvs, attr_g, rec@, 0, acc0) == sp_enc_record(
                bname,
                fvs,
                attr_g,
                rec@,
                i as int,
                enc_data@,
            ),
        decreases n - i,
    {
        let f = &block_layout.fields[i];
        let value = match rec.get(f.name.as_str()) {
            Some(v) => v,
            None => {
                match rec.get(f.name_old.as_str()) {
                    Some(v) => v,
                    None => {
                        return Err(
                            EncodeError::MissingField {
                                block: block_layout.name.clone(),
                                field: f.name.clone(),
                            },
                        );
                    },
                }
            },
        };
        let enc = euckr::encode(value.as_str());
        if enc.len() > f.len {
            return Err(
                EncodeError::ExceedFieldLength {
                    block: block_layout.name.clone(),
                    field: f.name.clone(),
                },
            );
        }
        proof {
            lemma_offsets_within_record(fvs, attr_g, i as int);
        }
        let extent: usize = if attr {
            f.len + 1
        } else {
            f.len
        };
        let ghost before = enc_data@;
        let mut j: usize = 0;
        while j < enc.len()
            invariant
                j <= enc@.len(),
                enc_data@ == before + enc@.subrange(0, j as int),
            decreases enc@.len() - j,
        {
            enc_data.push(enc[j]);
            proof {
                assert(before + enc@.subrange(0, j as int) + seq![enc@[j as int]] =~= before
                    + enc@.subrange(0, j + 1));
            }
            j = j + 1;
        }
        proof {
            assert(enc@.subrange(0, enc@.len() as int) =~= enc@);
        }
        let mut k: usize = enc.len();
        while k < extent
            invariant
                enc@.len() <= k <= extent,
                enc_data@ == before + enc@ + zeros(k - enc@.len()),
            decreases extent - k,
        {
            enc_data.push(0u8);
            proof {
                assert(before + enc@ + zeros(k - enc@.len()) + seq![0u8] =~= before + enc@ + zeros(
                    k + 1 - enc@.len(),
                ));
            }
            k = k + 1;
        }
        proof {
            let v = rec@[if rec@.contains_key(fvs[i as int].name) {
                fvs[i as int].name
            } else {
                fvs[i as int].name_old
            }];
            assert(enc_data@ =~= before + (euckr_bytes(v) + zeros(
                field_extent(fvs[i as int], attr_g) - euckr_bytes(v).len(),
            )));
            assert(enc_data@.subrange(0, acc0.len() as int) =~= before.subrange(
                0,
                acc0.len() as int,
            ));
        }
        i = i + 1;
    }
    Ok(())
}

/// Encodes a whole request or response into its wire bytes: the
/// declared blocks of the data's direction, in order, each array block
/// preceded by its five-digit count when the TR is not block-mode.
#[verifier::loop_isolation(false)]
pub fn encode(data: &Data, tr_layout: &TrLayout) -> (res: Result<Vec<u8>, EncodeError>)
    requires
        wf_tr(tr_layout@),
        data_bounded(data@),
    ensures
        match sp_encode(tr_layout@, data@) {
            Err(e) => res is Err && res->Err_0@ == e,
            Ok(b) => res is Ok && res->Ok_0@ == b,
        },
{
    let ghost trv = tr_layout@;
    let ghost dv = data@;
    if !text::str_eq(data.code.as_str(), tr_layout.code.as_str()) {
        return Err(EncodeError::MismatchLayout);
    }
    let block_layouts = match data.data_type {
        DataType::Input => &tr_layout.in_blocks,
        DataType::Output => &tr_layout.out_blocks,
    };
    let ghost bvs = block_layouts@.map_values(|b: BlockLayout| b@);
    let mut enc_data: Vec<u8> = Vec::new();
    proof {
        assert(enc_data@ =~= Seq::<u8>::empty());
    }
    let n = block_layouts.len();
    let mut i: usize = 0;
    while i < n
        invariant
            i <= n,
            sp_enc_blocks(trv, bvs, dv, 0, Seq::empty()) == sp_enc_blocks(
                trv,
                bvs,
                dv,
                i as int,
                enc_data@,
            ),
        decreases n - i,
    {
        let bl = &block_layouts[i];
        proof {
            assert(wf_block(bvs[i as int], trv.attr));
        }
        let b = match data.blocks.get(bl.name.as_str()) {
            None => {
                return Err(EncodeError::MissingBlock { block: bl.name.clone() });
            },
            Some(b) => b,
        };
        if bl.occurs {
            let recs = match b.as_array() {
                None => {
                    return Err(EncodeError::MismatchBlockType { block: bl.name.clone() });
                },
                Some(recs) => recs,
            };
            let ghost rvs = recs@.map_values(|r: Record| r@);
            if !tr_layout.block {
                if recs.len() >= 100000 {
                    return Err(EncodeError::ExceedArrayLength { block: bl.name.clone() });
                }
                let c = recs.len();
                let ghost before = enc_data@;
                enc_data.push((0x30 + c / 10000 % 10) as u8);
                enc_data.push((0x30 + c / 1000 % 10) as u8);
                enc_data.push((0x30 + c / 100 % 10) as u8);
                enc_data.push((0x30 + c / 10 % 10) as u8);
                enc_data.push((0x30 + c % 10) as u8);
                proof {
                    assert(enc_data@ =~= before + digits5(c as int));
                }
            }
            let ghost acc1 = enc_data@;
            let m = recs.len();
            let mut j: usize = 0;
            while j < m
                invariant
                    j <= m,
                    sp_enc_records(bvs[i as int].name, bvs[i as int].fields, trv.attr, rvs, 0, acc1)
                        == sp_enc_records(
                        bvs[i as int].name,
                        bvs[i as int].fields,
                        trv.attr,
                        rvs,
                        j as int,
                        enc_data@,
                    ),
                decreases m - j,
            {
                proof {
                    assert(rec_bounded(rvs[j as int])) by {
                        assert(dv.blocks.contains_key(bvs[i as int].name));
                        assert(block_bounded(dv.blocks[bvs[i as int].name]));
                    }
                }
                match encode_block(tr_layout, bl, &recs[j], &mut enc_data) {
                    Err(e) => {
                        return Err(e);
                    },
                    Ok(()) => {},
                }
                j = j + 1;
            }
        } else {
            let rec = match b.as_block() {
                None => {
                    return Err(EncodeError::MismatchBlockType { block: bl.name.clone() });
                },
                Some(rec) => rec,
            };
            proof {
                assert(rec_bounded(rec@)) by {
                    assert(dv.blocks.contains_key(bvs[i as int].name));
                    assert(block_bounded(dv.blocks[bvs[i as int].name]));
                }
            }
            match encode_block(tr_layout, bl, rec, &mut enc_data) {
                Err(e) => {
                    return Err(e);
                },
                Ok(()) => {},
            }
        }
        i = i + 1;
    }
    Ok(enc_data)
}

// ---------------------------------------------------------------------
// Laws of the codec.
// ---------------------------------------------------------------------

/// The value an encoded record carries for a field.
pub open spec fn lookup_val(rec: Map<Seq<char>, Seq<char>>, f: FieldLayoutV) -> Seq<char> {
    rec_lookup(rec, f)->0
}

/// Offset of field `j` within its record.
pub open spec fn field_off(fields: Seq<FieldLayoutV>, attr: bool, j: int) -> int {
    body_len(fields.subrange(0, j), attr)
}

/// No two fields of the record share a name.
pub open spec fn distinct_names(fields: Seq<FieldLayoutV>) -> bool {
    forall|i: int, j: int|
        0 <= i < j < fields.len() ==> (#[trigger] fields[i]).name != (#[trigger] fields[j]).name
}

proof fn lemma_enc_rec_general(
    bname: Seq<char>,
    fields: Seq<FieldLayoutV>,
    attr: bool,
    rec: Map<Seq<char>, Seq<char>>,
    i: int,
    acc: Seq<u8>,
    raw: Seq<u8>,
)
    requires
        forall|k: int| 0 <= k < fields.len() ==> crate::layout::wf_field(#[trigger] fields[k]),
        0 <= i <= fields.len(),
        sp_enc_record(bname, fields, attr, rec, i, acc) == Ok::<Seq<u8>, EncodeErrorV>(raw),
    ensures
        raw.len() == acc.len() + body_len(fields, attr) - field_off(fields, attr, i),
        raw.subrange(0, acc.len() as int) == acc,
        forall|j: int|
            i <= j < fields.len() ==> {
                let v = lookup_val(rec, #[trigger] fields[j]);
                let b = euckr_bytes(v);
                let o = acc.len() + field_off(fields, attr, j) - field_off(fields, attr, i);
                &&& rec_lookup(rec, fields[j]) is Some
                &&& b.len() <= fields[j].len
                &&& raw.subrange(o, o + field_extent(fields[j], attr)) == b + zeros(
                    field_extent(fields[j], attr) - b.len(),
                )
            },
    decreases fields.len() - i,
{
    if i == fields.len() {
        assert(fields.subrange(0, i) =~= fields);
        assert(raw.subrange(0, acc.len() as int) =~= acc);
    } else {
        let f = fields[i];
        let v = lookup_val(rec, f);
        let b = euckr_bytes(v);
        let padded = b + zeros(field_extent(f, attr) - b.len());
        let acc2 = acc + padded;
        lemma_enc_rec_general(bname, fields, attr, rec, i + 1, acc2, raw);
        lemma_offsets_within_record(fields, attr, i);
        assert(fields.subrange(0, i + 1).drop_last() =~= fields.subrange(0, i));
        assert(fields.subrange(0, i + 1).last() == fields[i]);
        // The part of the result before this field's slot is `acc`.
        assert(raw.subrange(0, acc.len() as int) =~= raw.subrange(0, acc2.len() as int).subrange(
            0,
            acc.len() as int,
        ));
        // This field's slot holds its padded bytes.
        assert(raw.subrange(acc.len() as int, acc2.len() as int) =~= raw.subrange(
            0,
            acc2.len() as int,
        ).subrange(acc.len() as int, acc2.len() as int));
        assert(raw.subrange(acc.len() as int, acc2.len() as int) =~= padded);
        assert forall|j: int| i <= j < fields.len() implies {
            let vj = lookup_val(rec, #[trigger] fields[j]);
            let bj = euckr_bytes(vj);
            let o = acc.len() + field_off(fields, attr, j) - field_off(fields, attr, i);
            &&& rec_lookup(rec, fields[j]) is Some
            &&& bj.len() <= fields[j].len
            &&& raw.subrange(o, o + field_extent(fields[j], attr)) == bj + zeros(
                field_extent(fields[j], attr) - bj.len(),
            )
        } by {
            let o = acc.len() + field_off(fields, attr, j) - field_off(fields, attr, i);
            if j == i {
                assert(o == acc.len());
                assert(raw.subrange(o, o + field_extent(fields[i], attr)) =~= padded);
            } else {
                let o2 = acc2.len() + field_off(fields, attr, j) - field_off(fields, attr, i + 1);
                assert(o2 == o);
            }
        }
    }
}

/// Encoding lays the record out exactly: each field's slot, starting at
/// the sum of the extents before it, holds that field's encoded value
/// padded with NULs to the field's extent, and the whole record is
/// exactly the record width long.
pub proof fn lemma_encode_record_layout(
    bname: Seq<char>,
    fields: Seq<FieldLayoutV>,
    attr: bool,
    rec: Map<Seq<char>, Seq<char>>,
    raw: Seq<u8>,
)
    requires
        forall|k: int| 0 <= k < fields.len() ==> crate::layout::wf_field(#[trigger] fields[k]),
        sp_enc_record(bname, fields, attr, rec, 0, Seq::empty()) == Ok::<Seq<u8>, EncodeErrorV>(
            raw,
        ),
    ensures
        raw.len() == body_len(fields, attr),
        forall|j: int|
            0 <= j < fields.len() ==> {
                let v = lookup_val(rec, #[trigger] fields[j]);
                let b = euckr_bytes(v);
                let o = field_off(fields, attr, j);
                &&& rec_lookup(rec, fields[j]) is Some
                &&& b.len() <= fields[j].len
                &&& raw.subrange(o, o + field_extent(fields[j], attr)) == b + zeros(
                    field_extent(fields[j], attr) - b.len(),
                )
            },
{
    lemma_enc_rec_general(bname, fields, attr, rec, 0, Seq::empty(), raw);
    assert(fields.subrange(0, 0) =~= Seq::<FieldLayoutV>::empty());
}

proof fn lemma_dec_rec_general(
    fields: Seq<FieldLayoutV>,
    attr: bool,
    raw: Seq<u8>,
    off: int,
    i: int,
    acc: Map<Seq<char>, Seq<char>>,
    m: Map<Seq<char>, Seq<char>>,
    off2: int,
)
    requires
        distinct_names(fields),
        0 <= i <= fields.len(),
        sp_dec_record(fields, attr, raw, off, i, acc) == Some((m, off2)),
    ensures
        forall|j: int|
            i <= j < fields.len() ==> {
                let o = off + field_off(fields, attr, j) - field_off(fields, attr, i);
                let sl = raw.subrange(o, o + fields[j].len);
                &&& sp_dec_value(sl) is Some
                &&& m.contains_key((#[trigger] fields[j]).name)
                &&& m[fields[j].name] == sp_dec_value(sl)->0
            },
        forall|k: Seq<char>|
            #[trigger] acc.contains_key(k) && !(exists|j: int|
                i <= j < fields.len() && (#[trigger] fields[j]).name == k) ==> m.contains_key(k)
                && m[k] == acc[k],
    decreases fields.len() - i,
{
    if i < fields.len() {
        let f = fields[i];
        let sl0 = raw.subrange(off, off + f.len);
        let v = sp_dec_value(sl0)->0;
        lemma_dec_rec_general(
            fields,
            attr,
            raw,
            off + field_extent(f, attr),
            i + 1,
            acc.insert(f.name, v),
            m,
            off2,
        );
        assert(fields.subrange(0, i + 1).drop_last() =~= fields.subrange(0, i));
        assert(fields.subrange(0, i + 1).last() == fields[i]);
        assert forall|j: int| i <= j < fields.len() implies {
            let o = off + field_off(fields, attr, j) - field_off(fields, attr, i);
            let sl = raw.subrange(o, o + fields[j].len);
            &&& sp_dec_value(sl) is Some
            &&& m.contains_key((#[trigger] fields[j]).name)
            &&& m[fields[j].name] == sp_dec_value(sl)->0
        } by {
            let o = off + field_off(fields, attr, j) - field_off(fields, attr, i);
            if j == i {
                assert(o == off);
                assert(acc.insert(f.name, v).contains_key(f.name));
                assert(!(exists|l: int|
                    i + 1 <= l < fields.len() && (#[trigger] fields[l]).name == f.name));
            } else {
                let o2 = off + field_extent(f, attr) + field_off(fields, attr, j) - field_off(
                    fields,
                    attr,
                    i + 1,
                );
                assert(o2 == o);
            }
        }
        assert forall|k: Seq<char>|
            #[trigger] acc.contains_key(k) && !(exists|j: int|
                i <= j < fields.len() && (#[trigger] fields[j]).name == k) implies m.contains_key(
            k,
        ) && m[k] == acc[k] by {
            assert(fields[i as int].name != k);
            assert(acc.insert(f.name, v).contains_key(k) && acc.insert(f.name, v)[k] == acc[k]);
            assert(!(exists|j: int|
                i + 1 <= j < fields.len() && (#[trigger] fields[j]).name == k));
        }
    }
}

/// Round trip of the codec's binary layer: decoding what encode
/// produced hands back, for every field, exactly the trimmed decoding
/// of that field's own encoded bytes — nothing shifts and nothing
/// bleeds across field slots.  For a value that the legacy encoding
/// carries byte for byte this is the original value with control
/// characters and spaces stripped from both ends.
pub proof fn lemma_record_round_trip(
    bname: Seq<char>,
    fields: Seq<FieldLayoutV>,
    attr: bool,
    rec: Map<Seq<char>, Seq<char>>,
    raw: Seq<u8>,
    dec: Map<Seq<char>, Seq<char>>,
    off2: int,
)
    requires
        forall|k: int| 0 <= k < fields.len() ==> crate::layout::wf_field(#[trigger] fields[k]),
        distinct_names(fields),
        sp_enc_record(bname, fields, attr, rec, 0, Seq::empty()) == Ok::<Seq<u8>, EncodeErrorV>(
            raw,
        ),
        sp_dec_record(fields, attr, raw, 0, 0, Map::empty()) == Some((dec, off2)),
    ensures
        forall|j: int|
            0 <= j < fields.len() ==> {
                let v = lookup_val(rec, #[trigger] fields[j]);
                let b = euckr_bytes(v);
                let slot = b + zeros(fields[j].len - b.len());
                &&& dec.contains_key(fields[j].name)
                &&& dec[fields[j].name] == sp_dec_value(slot)->0
                &&& sp_dec_value(slot) is Some
            },
{
    lemma_encode_record_layout(bname, fields, attr, rec, raw);
    lemma_dec_rec_general(fields, attr, raw, 0, 0, Map::empty(), dec, off2);
    assert forall|j: int| 0 <= j < fields.len() implies {
        let v = lookup_val(rec, #[trigger] fields[j]);
        let b = euckr_bytes(v);
        let slot = b + zeros(fields[j].len - b.len());
        &&& dec.contains_key(fields[j].name)
        &&& dec[fields[j].name] == sp_dec_value(slot)->0
        &&& sp_dec_value(slot) is Some
    } by {
        let v = lookup_val(rec, fields[j]);
        let b = euckr_bytes(v);
        let o = field_off(fields, attr, j);
        let ext = field_extent(fields[j], attr);
        lemma_offsets_within_record(fields, attr, j);
        // The decoded slice is the first `len` bytes of the padded slot.
        assert(raw.subrange(o, o + fields[j].len) =~= raw.subrange(o, o + ext).subrange(
            0,
            fields[j].len,
        ));
        assert(raw.subrange(o, o + fields[j].len) =~= b + zeros(fields[j].len - b.len()));
    }
}

/// Array count law for non-block decode, for a layout whose output is
/// one repeating block: a buffer without a five-byte decimal count
/// prefix is rejected; a buffer whose length is not exactly the prefix
/// plus the counted records is rejected; and a decoded buffer holds
/// exactly the counted number of records, read from the five-byte
/// prefix.
pub proof fn lemma_array_count(tr: TrLayoutV, raw: Seq<u8>)
    requires
        !tr.block,
        wf_tr(tr),
        tr.out_blocks.len() == 1,
        tr.out_blocks[0].occurs,
    ensures
        raw.len() < 5 ==> sp_dec_non_block(tr, DataType::Output, raw) == Err::<
            DataV,
            DecodeErrorV,
        >(DecodeErrorV::MismatchDataLength),
        raw.len() >= 5 && count5(raw.subrange(0, 5)) is None ==> sp_dec_non_block(
            tr,
            DataType::Output,
            raw,
        ) == Err::<DataV, DecodeErrorV>(DecodeErrorV::InvalidArrayLength),
        raw.len() >= 5 && count5(raw.subrange(0, 5)) is Some && raw.len() != 5
            + tr.out_blocks[0].len * count5(raw.subrange(0, 5))->0 ==> sp_dec_non_block(
            tr,
            DataType::Output,
            raw,
        ) is Err,
        raw.len() >= 5 && count5(raw.subrange(0, 5)) is Some && 5 + tr.out_blocks[0].len * count5(
            raw.subrange(0, 5),
        )->0 > raw.len() ==> sp_dec_non_block(tr, DataType::Output, raw) == Err::<
            DataV,
            DecodeErrorV,
        >(DecodeErrorV::MismatchDataLength),
        raw.len() >= 5 && count5(raw.subrange(0, 5)) is Some && 5 + tr.out_blocks[0].len * count5(
            raw.subrange(0, 5),
        )->0 < raw.len() && sp_dec_records(
            tr.out_blocks[0].fields,
            tr.attr,
            raw,
            5,
            count5(raw.subrange(0, 5))->0,
            Seq::empty(),
        ) is Some ==> sp_dec_non_block(tr, DataType::Output, raw) == Err::<
            DataV,
            DecodeErrorV,
        >(DecodeErrorV::MismatchDataLength),
        sp_dec_non_block(tr, DataType::Output, raw) is Ok ==> {
            let cnt = count5(raw.subrange(0, 5))->0;
            let d = sp_dec_non_block(tr, DataType::Output, raw)->Ok_0;
            &&& count5(raw.subrange(0, 5)) is Some
            &&& raw.len() == 5 + tr.out_blocks[0].len * cnt
            &&& d.blocks.contains_key(tr.out_blocks[0].name)
            &&& d.blocks[tr.out_blocks[0].name] is Array
            &&& d.blocks[tr.out_blocks[0].name]->Array_0.len() == cnt
        },
{
    let bl = tr.out_blocks[0];
    if raw.len() >= 5 {
        if let Some(cnt) = count5(raw.subrange(0, 5)) {
            if 5 + bl.len * cnt <= raw.len() {
                if let Some((recs, o2)) = sp_dec_records(
                    bl.fields,
                    tr.attr,
                    raw,
                    5,
                    cnt,
                    Seq::empty(),
                ) {
                    lemma_dec_records_offset(bl.fields, tr.attr, raw, 5, cnt, Seq::empty());
                    assert(o2 == 5 + cnt * body_len(bl.fields, tr.attr));
                    assert(cnt * bl.len == bl.len * cnt) by (nonlinear_arith);
                    let acc1 = Map::<Seq<char>, BlockV>::empty().insert(
                        bl.name,
                        BlockV::Array(recs),
                    );
                    assert(sp_dec_non_block_blocks(tr, tr.out_blocks, 1, raw, o2, acc1)
                        == Ok::<(Map<Seq<char>, BlockV>, int), DecodeErrorV>((acc1, o2)));
                }
            }
        }
    }
}

} // verus!
