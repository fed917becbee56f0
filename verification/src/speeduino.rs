//! Speeduino/rusEFI MegaLogViewer (.mlg) binary format parser.

use vstd::prelude::*;
use vstd::slice::slice_subrange;

use crate::text::{
    decimal, decimal_string, decode_utf8_lossy, field_text, quoted_after, text_quoted_after,
    trim_end_nul, trim_end_ws, trim_start_ws, trimmed_field_text, utf8_lossy,
};

verus! {

/// MLG field data types, as encoded in the field definition's type byte.
#[derive(Clone, Copy, Debug, PartialEq, Eq)]
pub enum FieldType {
    U08,
    S08,
    U16,
    S16,
    U32,
    S32,
    S64,
    F32,
    U08Bitfield,
    U16Bitfield,
    U32Bitfield,
}

/// The field type that a type byte denotes, if any.
pub open spec fn field_type_of(value: u8) -> Option<FieldType> {
    if value == 0 {
        Some(FieldType::U08)
    } else if value == 1 {
        Some(FieldType::S08)
    } else if value == 2 {
        Some(FieldType::U16)
    } else if value == 3 {
        Some(FieldType::S16)
    } else if value == 4 {
        Some(FieldType::U32)
    } else if value == 5 {
        Some(FieldType::S32)
    } else if value == 6 {
        Some(FieldType::S64)
    } else if value == 7 {
        Some(FieldType::F32)
    } else if value == 10 {
        Some(FieldType::U08Bitfield)
    } else if value == 11 {
        Some(FieldType::U16Bitfield)
    } else if value == 12 {
        Some(FieldType::U32Bitfield)
    } else {
        None
    }
}

impl FieldType {
    /// Number of bytes a value of this type occupies in a data record.
    pub open spec fn size(self) -> nat {
        match self {
            FieldType::U08 | FieldType::S08 | FieldType::U08Bitfield => 1,
            FieldType::U16 | FieldType::S16 | FieldType::U16Bitfield => 2,
            FieldType::U32 | FieldType::S32 | FieldType::F32 | FieldType::U32Bitfield => 4,
            FieldType::S64 => 8,
        }
    }

    /// Decodes a field type byte.
    pub fn from_u8(value: u8) -> (res: Option<FieldType>)
        ensures
            res == field_type_of(value),
    {
        match value {
            0 => Some(FieldType::U08),
            1 => Some(FieldType::S08),
            2 => Some(FieldType::U16),
            3 => Some(FieldType::S16),
            4 => Some(FieldType::U32),
            5 => Some(FieldType::S32),
            6 => Some(FieldType::S64),
            7 => Some(FieldType::F32),
            10 => Some(FieldType::U08Bitfield),
            11 => Some(FieldType::U16Bitfield),
            12 => Some(FieldType::U32Bitfield),
            _ => None,
        }
    }

    /// Number of bytes a value of this type occupies in a data record.
    pub fn byte_size(&self) -> (res: usize)
        ensures
            res == self.size(),
    {
        match self {
            FieldType::U08 | FieldType::S08 | FieldType::U08Bitfield => 1,
            FieldType::U16 | FieldType::S16 | FieldType::U16Bitfield => 2,
            FieldType::U32 | FieldType::S32 | FieldType::F32 | FieldType::U32Bitfield => 4,
            FieldType::S64 => 8,
        }
    }
}

/// The magic bytes "MLVLG" that open every MLG file.
pub open spec fn mlg_magic() -> Seq<u8> {
    seq![0x4Du8, 0x4Cu8, 0x56u8, 0x4Cu8, 0x47u8]
}

/// Whether `data` begins with the MLG magic bytes.
pub open spec fn starts_with_magic(data: Seq<u8>) -> bool {
    data.len() >= 5 && data.subrange(0, 5) == mlg_magic()
}

/// Big-endian unsigned 16-bit integer at `off`.
pub open spec fn be_u16(data: Seq<u8>, off: int) -> int {
    data[off] * 256 + data[off + 1]
}

/// Big-endian unsigned 32-bit integer at `off`.
pub open spec fn be_u32(data: Seq<u8>, off: int) -> int {
    be_u16(data, off) * 65536 + be_u16(data, off + 2)
}

/// Big-endian unsigned 64-bit integer at `off`.
pub open spec fn be_u64(data: Seq<u8>, off: int) -> int {
    be_u32(data, off) * 4294967296 + be_u32(data, off + 4)
}

/// The two's-complement reading of an unsigned value `u` whose sign bit
/// has weight `half`.
pub open spec fn signed(u: int, half: int) -> int {
    if u < half {
        u
    } else {
        u - 2 * half
    }
}

/// Reads a big-endian u16.
fn read_u16(data: &[u8], off: usize) -> (v: u16)
    requires
        off + 2 <= data.len(),
    ensures
        v == be_u16(data@, off as int),
{
    (data[off] as u16) * 256 + (data[off + 1] as u16)
}

/// Reads a big-endian u32.
fn read_u32(data: &[u8], off: usize) -> (v: u32)
    requires
        off + 4 <= data.len(),
    ensures
        v == be_u32(data@, off as int),
{
    let hi = read_u16(data, off) as u32;
    let lo = read_u16(data, off + 2) as u32;
    hi * 65536 + lo
}

/// Reads a big-endian u64.
fn read_u64(data: &[u8], off: usize) -> (v: u64)
    requires
        off + 8 <= data.len(),
    ensures
        v == be_u64(data@, off as int),
{
    let hi = read_u32(data, off) as u64;
    let lo = read_u32(data, off + 4) as u64;
    hi * 4294967296 + lo
}

/// Layout of the MLG file header, as read from its first bytes.
pub struct MlgHeader {
    /// True for format version 2 (89-byte field definitions and a 32-bit
    /// info offset); version 1 otherwise.
    pub is_v2: bool,
    /// Offset of the info (metadata) text.
    pub info_data_start: usize,
    /// Offset of the first data block.
    pub data_begin_index: usize,
    /// Number of logged fields.
    pub num_fields: usize,
    /// Offset of the first field definition.
    pub fields_start: usize,
}

/// Whether the header declares format version 2.
pub open spec fn spec_is_v2(data: Seq<u8>) -> bool {
    be_u16(data, 6) == 2
}

/// Size of one field definition.
pub open spec fn spec_field_length(data: Seq<u8>) -> int {
    if spec_is_v2(data) {
        89
    } else {
        55
    }
}

/// Offset of the data-begin index within the header.
pub open spec fn spec_begin_pos(data: Seq<u8>) -> int {
    if spec_is_v2(data) {
        16
    } else {
        14
    }
}

/// Offset of the info text, as the header gives it.
pub open spec fn spec_info_start(data: Seq<u8>) -> int {
    if spec_is_v2(data) {
        be_u32(data, 12)
    } else {
        be_u16(data, 12)
    }
}

/// Offset of the first data block, as the header gives it.
pub open spec fn spec_data_begin(data: Seq<u8>) -> int {
    be_u32(data, spec_begin_pos(data))
}

/// Number of fields, as the header gives it.
pub open spec fn spec_num_fields(data: Seq<u8>) -> int {
    be_u16(data, spec_begin_pos(data) + 6)
}

/// Offset of the first field definition.
pub open spec fn spec_fields_start(data: Seq<u8>) -> int {
    spec_begin_pos(data) + 8
}

/// Inputs on which reading the header runs past the end of the data: a
/// version 2 header that is cut off inside its field count.
pub open spec fn header_overrun(data: Seq<u8>) -> bool {
    &&& data.len() >= 6
    &&& starts_with_magic(data)
    &&& 22 <= data.len() < 24
    &&& spec_is_v2(data)
}

/// Reasons an MLG file is refused.
#[derive(Clone, Copy, Debug, PartialEq, Eq)]
pub enum MlgError {
    /// The data does not start with the "MLVLG" magic.
    InvalidHeader,
    /// The data is shorter than a version 1 header.
    HeaderTruncated,
    /// The header declares more than 1000 fields.
    UnreasonableFieldCount(usize),
    /// The first data block would lie past the end of the file.
    DataBeginOutOfRange { data_begin_index: usize, file_size: usize },
    /// A field definition runs past the end of the file.
    FieldTruncated { index: usize, offset: usize, need: usize, have: usize },
    /// A data record holds a field of an unknown type.
    UnknownFieldType(u8),
    /// Text input was given to this binary-only parser.
    BinaryFormatOnly,
}

/// The text that describes an error.
pub open spec fn spec_message(e: MlgError) -> Seq<char> {
    match e {
        MlgError::InvalidHeader => "Invalid MLG file header"@,
        MlgError::HeaderTruncated => "MLG file header truncated"@,
        MlgError::UnreasonableFieldCount(n) => "Unreasonable field count: "@ + decimal(n as nat),
        MlgError::DataBeginOutOfRange { data_begin_index, file_size } => "data_begin_index "@
            + decimal(data_begin_index as nat) + " exceeds file size "@ + decimal(
            file_size as nat,
        ),
        MlgError::FieldTruncated { index, offset, need, have } => "Not enough data for field "@
            + decimal(index as nat) + " at offset "@ + decimal(offset as nat) + " (need "@
            + decimal(need as nat) + ", have "@ + decimal(have as nat) + ")"@,
        MlgError::UnknownFieldType(t) => "Unknown field type: "@ + decimal(t as nat),
        MlgError::BinaryFormatOnly =>
            "Speeduino/rusEFI MLG files are binary format. Use parse_binary() instead."@,
    }
}

impl MlgError {
    /// The text that describes the error.
    pub fn message(&self) -> (m: String)
        ensures
            m@ == spec_message(*self),
    {
        match *self {
            MlgError::InvalidHeader => String::from_str("Invalid MLG file header"),
            MlgError::HeaderTruncated => String::from_str("MLG file header truncated"),
            MlgError::UnreasonableFieldCount(n) => String::from_str(
                "Unreasonable field count: ",
            ).concat(decimal_string(n).as_str()),
            MlgError::DataBeginOutOfRange { data_begin_index, file_size } => String::from_str(
                "data_begin_index ",
            ).concat(decimal_string(data_begin_index).as_str()).concat(
                " exceeds file size ",
            ).concat(decimal_string(file_size).as_str()),
            MlgError::FieldTruncated { index, offset, need, have } => String::from_str(
                "Not enough data for field ",
            ).concat(decimal_string(index).as_str()).concat(" at offset ").concat(
                decimal_string(offset).as_str(),
            ).concat(" (need ").concat(decimal_string(need).as_str()).concat(", have ").concat(
                decimal_string(have).as_str(),
            ).concat(")"),
            MlgError::UnknownFieldType(t) => String::from_str("Unknown field type: ").concat(
                decimal_string(t as usize).as_str(),
            ),
            MlgError::BinaryFormatOnly => String::from_str(
                "Speeduino/rusEFI MLG files are binary format. Use parse_binary() instead.",
            ),
        }
    }
}

/// Header check and layout: `Ok` with the header's values, or the error
/// that the header alone decides.
pub open spec fn spec_header(data: Seq<u8>) -> Result<(), MlgError> {
    if !(data.len() >= 6 && starts_with_magic(data)) {
        Err(MlgError::InvalidHeader)
    } else if data.len() < 22 {
        Err(MlgError::HeaderTruncated)
    } else if spec_num_fields(data) > 1000 {
        Err(MlgError::UnreasonableFieldCount(spec_num_fields(data) as usize))
    } else if spec_data_begin(data) > data.len() {
        Err(
            MlgError::DataBeginOutOfRange {
                data_begin_index: spec_data_begin(data) as usize,
                file_size: data.len() as usize,
            },
        )
    } else {
        Ok(())
    }
}

/// The bit pattern of the `f32` value 1.0, the scale of a bitfield.
pub const F32_ONE_BITS: u32 = 0x3F80_0000;

/// Speeduino field metadata. The scale and transform are `f32` values in
/// the file and are kept here as their bit patterns; a value reads as
/// `(raw + transform) * scale`.
#[derive(Clone, Debug)]
pub struct SpeeduinoChannel {
    pub name: String,
    pub unit: String,
    pub scale_bits: u32,
    pub transform_bits: u32,
    pub field_type: u8,
}

/// Abstract view of a channel.
pub struct ChannelView {
    pub name: Seq<char>,
    pub unit: Seq<char>,
    pub scale_bits: u32,
    pub transform_bits: u32,
    pub field_type: u8,
}

impl View for SpeeduinoChannel {
    type V = ChannelView;

    open spec fn view(&self) -> ChannelView {
        ChannelView {
            name: self.name@,
            unit: self.unit@,
            scale_bits: self.scale_bits,
            transform_bits: self.transform_bits,
            field_type: self.field_type,
        }
    }
}

impl SpeeduinoChannel {
    /// The channel's unit.
    pub fn unit(&self) -> (u: &str)
        ensures
            u@ == self.unit@,
    {
        self.unit.as_str()
    }
}

/// The channel that the field definition at `off` describes.
pub open spec fn spec_channel(data: Seq<u8>, off: int) -> ChannelView {
    let field_type = data[off];
    ChannelView {
        name: field_text(utf8_lossy(data.subrange(off + 1, off + 35))),
        unit: field_text(utf8_lossy(data.subrange(off + 35, off + 45))),
        scale_bits: if field_type < 10 {
            be_u32(data, off + 46) as u32
        } else {
            F32_ONE_BITS
        },
        transform_bits: if field_type < 10 {
            be_u32(data, off + 50) as u32
        } else {
            0
        },
        field_type,
    }
}

/// Offset of the `i`-th field definition.
pub open spec fn spec_field_offset(data: Seq<u8>, i: int) -> int {
    spec_fields_start(data) + i * spec_field_length(data)
}

/// The field definitions: all channels, or the error for the first
/// definition that runs past the end of the data.
pub open spec fn spec_fields(data: Seq<u8>) -> Result<Seq<ChannelView>, MlgError> {
    let fs = spec_fields_start(data);
    let fl = spec_field_length(data);
    let nf = spec_num_fields(data);
    if fs + nf * fl > data.len() {
        let i = (data.len() - fs) / fl;
        Err(
            MlgError::FieldTruncated {
                index: i as usize,
                offset: (fs + i * fl) as usize,
                need: fl as usize,
                have: (data.len() - (fs + i * fl)) as usize,
            },
        )
    } else {
        Ok(Seq::new(nf as nat, |i: int| spec_channel(data, spec_field_offset(data, i))))
    }
}

proof fn lemma_truncated_index(len: int, fs: int, fl: int, i: int, nf: int)
    by (nonlinear_arith)
    requires
        fl > 0,
        0 <= i < nf,
        fs + i * fl <= len,
        len < fs + (i + 1) * fl,
    ensures
        fs + nf * fl > len,
        (len - fs) / fl == i,
{
    assert(nf * fl >= (i + 1) * fl);
    assert((len - fs) == i * fl + (len - fs - i * fl));
}

/// A raw field value from a data record. Integers are given as read;
/// `F32Bits` is the bit pattern of an `f32`; bitfields are not decoded.
#[derive(Clone, Copy, Debug, PartialEq, Eq)]
pub enum RawValue {
    Int(i64),
    F32Bits(u32),
    Bitfield,
}

/// The value of type `ft` stored at `off`.
pub open spec fn decode_value(data: Seq<u8>, off: int, ft: FieldType) -> RawValue {
    match ft {
        FieldType::U08 => RawValue::Int(data[off] as i64),
        FieldType::S08 => RawValue::Int(signed(data[off] as int, 0x80) as i64),
        FieldType::U16 => RawValue::Int(be_u16(data, off) as i64),
        FieldType::S16 => RawValue::Int(signed(be_u16(data, off), 0x8000) as i64),
        FieldType::U32 => RawValue::Int(be_u32(data, off) as i64),
        FieldType::S32 => RawValue::Int(signed(be_u32(data, off), 0x8000_0000) as i64),
        FieldType::S64 => RawValue::Int(
            signed(be_u64(data, off), 0x8000_0000_0000_0000) as i64,
        ),
        FieldType::F32 => RawValue::F32Bits(be_u32(data, off) as u32),
        FieldType::U08Bitfield | FieldType::U16Bitfield | FieldType::U32Bitfield => {
            RawValue::Bitfield
        },
    }
}

/// Size of a field of type byte `t` in a data record; 0 for an unknown type.
pub open spec fn type_size(t: u8) -> nat {
    match field_type_of(t) {
        Some(ft) => ft.size(),
        None => 0,
    }
}

/// Size of the field values of a data record (without its CRC byte).
pub open spec fn record_size(types: Seq<u8>) -> nat
    decreases types.len(),
{
    if types.len() == 0 {
        0
    } else {
        record_size(types.drop_last()) + type_size(types.last())
    }
}

/// The first type byte that names no known field type.
pub open spec fn first_unknown(types: Seq<u8>) -> Option<u8>
    decreases types.len(),
{
    if types.len() == 0 {
        None
    } else {
        match first_unknown(types.drop_last()) {
            Some(t) => Some(t),
            None => if field_type_of(types.last()) is None {
                Some(types.last())
            } else {
                None
            },
        }
    }
}

/// The values of a data record whose fields start at `off`.
pub open spec fn decode_record(data: Seq<u8>, off: int, types: Seq<u8>) -> Seq<RawValue>
    decreases types.len(),
{
    if types.len() == 0 {
        Seq::empty()
    } else {
        let prefix = types.drop_last();
        let v = match field_type_of(types.last()) {
            Some(ft) => decode_value(data, off + record_size(prefix), ft),
            None => RawValue::Bitfield,
        };
        decode_record(data, off, prefix).push(v)
    }
}

proof fn lemma_record_size_prefix(types: Seq<u8>, i: int)
    requires
        0 <= i <= types.len(),
    ensures
        record_size(types.take(i)) <= record_size(types),
    decreases types.len(),
{
    if i < types.len() {
        lemma_record_size_prefix(types.drop_last(), i);
        assert(types.drop_last().take(i) == types.take(i));
    } else {
        assert(types.take(i) == types);
    }
}

proof fn lemma_record_size_bound(types: Seq<u8>)
    ensures
        record_size(types) <= 8 * types.len(),
    decreases types.len(),
{
    if types.len() > 0 {
        lemma_record_size_bound(types.drop_last());
    }
}

proof fn lemma_first_unknown_prefix(types: Seq<u8>, i: int)
    requires
        0 <= i <= types.len(),
        first_unknown(types.take(i)) is Some,
    ensures
        first_unknown(types) == first_unknown(types.take(i)),
    decreases types.len(),
{
    if i < types.len() {
        assert(types.drop_last().take(i) == types.take(i));
        lemma_first_unknown_prefix(types.drop_last(), i);
    } else {
        assert(types.take(i) == types);
    }
}

proof fn lemma_decode_record_len(data: Seq<u8>, off: int, types: Seq<u8>)
    ensures
        decode_record(data, off, types).len() == types.len(),
    decreases types.len(),
{
    if types.len() > 0 {
        lemma_decode_record_len(data, off, types.drop_last());
    }
}

/// The timestamp counter of a block is a u16 in 10 µs ticks; a drop of more
/// than this many ticks from one block to the next is taken as a wraparound.
pub const WRAP_THRESHOLD: u16 = 30000;

/// Whether going from raw timestamp `prev` to `raw` counts as a wraparound.
pub open spec fn wraps_around(prev: u16, raw: u16) -> bool {
    raw < prev && prev - raw > WRAP_THRESHOLD
}

/// Timestamps (in ticks) and records of the data blocks read so far.
pub type Blocks = (Seq<int>, Seq<Seq<RawValue>>);

/// `r` with `ts` and `rs` put in front of its timestamps and records.
pub open spec fn prepend_blocks(ts: Seq<int>, rs: Seq<Seq<RawValue>>, r: Result<Blocks, MlgError>) -> Result<Blocks, MlgError> {
    match r {
        Ok((ts2, rs2)) => Ok((ts + ts2, rs + rs2)),
        Err(e) => Err(e),
    }
}

/// The data blocks from `off` on. Each block starts with a type byte, a
/// counter byte and a big-endian u16 timestamp. Type 0 is a data record
/// (field values and a CRC byte), type 1 a 50-byte marker; reading stops at
/// any other type and at a block that does not fit in the data. `prev` is
/// the raw timestamp of the previous block and `wraps` the number of
/// wraparounds seen; a record's time in ticks is `raw + 65536 * wraps`.
pub open spec fn spec_blocks(data: Seq<u8>, types: Seq<u8>, off: int, prev: u16, wraps: nat) -> Result<Blocks, MlgError>
    decreases data.len() - off,
{
    if off < 0 || off + 4 > data.len() {
        Ok((Seq::empty(), Seq::empty()))
    } else {
        let raw = be_u16(data, off + 2) as u16;
        let w = if wraps_around(prev, raw) {
            wraps + 1
        } else {
            wraps
        };
        let body = off + 4;
        if data[off] == 0 {
            let next = body + record_size(types) + 1;
            if next > data.len() {
                Ok((Seq::empty(), Seq::empty()))
            } else if first_unknown(types) is Some {
                Err(MlgError::UnknownFieldType(first_unknown(types)->0))
            } else {
                prepend_blocks(
                    seq![raw + 65536 * w],
                    seq![decode_record(data, body, types)],
                    spec_blocks(data, types, next, raw, w),
                )
            }
        } else if data[off] == 1 {
            if body + 50 > data.len() {
                Ok((Seq::empty(), Seq::empty()))
            } else {
                spec_blocks(data, types, body + 50, raw, w)
            }
        } else {
            Ok((Seq::empty(), Seq::empty()))
        }
    }
}

proof fn lemma_prepend_assoc(
    a: Seq<int>,
    b: Seq<Seq<RawValue>>,
    c: Seq<int>,
    d: Seq<Seq<RawValue>>,
    r: Result<Blocks, MlgError>,
)
    ensures
        prepend_blocks(a, b, prepend_blocks(c, d, r)) == prepend_blocks(a + c, b + d, r),
{
    match r {
        Ok((x, y)) => {
            assert(a + (c + x) =~= (a + c) + x);
            assert(b + (d + y) =~= (b + d) + y);
        },
        Err(_) => {},
    }
}

/// Speeduino log metadata.
#[derive(Clone, Debug)]
pub struct SpeeduinoMeta {
    pub version: String,
    pub capture_date: String,
}

/// The metadata text of the info section: the firmware version (from
/// "speeduino" up to the next double quote) and the capture date (from
/// "Capture Date:" up to the next double quote). Both are empty when the
/// info section is missing or the text is not found.
pub open spec fn spec_meta(data: Seq<u8>) -> (Seq<char>, Seq<char>) {
    let a = spec_info_start(data);
    let b = spec_data_begin(data);
    if a < b && b < data.len() {
        let text = utf8_lossy(data.subrange(a, b));
        (quoted_after(text, "speeduino"@), quoted_after(text, "Capture Date:"@))
    } else {
        (Seq::empty(), Seq::empty())
    }
}

/// A parsed MLG log. Times are in 10 µs ticks counted from the start of the
/// log's timestamp counter, wraparounds included.
#[derive(Clone, Debug)]
pub struct MlgLog {
    pub meta: SpeeduinoMeta,
    pub channels: Vec<SpeeduinoChannel>,
    pub ticks: Vec<u128>,
    pub data: Vec<Vec<RawValue>>,
}

/// Abstract view of a parsed MLG log.
pub struct MlgLogView {
    pub version: Seq<char>,
    pub capture_date: Seq<char>,
    pub channels: Seq<ChannelView>,
    pub ticks: Seq<int>,
    pub data: Seq<Seq<RawValue>>,
}

impl View for MlgLog {
    type V = MlgLogView;

    open spec fn view(&self) -> MlgLogView {
        MlgLogView {
            version: self.meta.version@,
            capture_date: self.meta.capture_date@,
            channels: self.channels@.map_values(|c: SpeeduinoChannel| c@),
            ticks: self.ticks@.map_values(|t: u128| t as int),
            data: self.data@.map_values(|r: Vec<RawValue>| r@),
        }
    }
}

/// The type bytes of a sequence of channels.
pub open spec fn channel_types(channels: Seq<ChannelView>) -> Seq<u8> {
    channels.map_values(|c: ChannelView| c.field_type)
}

/// What parsing an MLG file gives: the log, or the error that stops it.
pub open spec fn spec_parse_mlg(data: Seq<u8>) -> Result<MlgLogView, MlgError> {
    match spec_header(data) {
        Err(e) => Err(e),
        Ok(_) => match spec_fields(data) {
            Err(e) => Err(e),
            Ok(channels) => match spec_blocks(
                data,
                channel_types(channels),
                spec_data_begin(data),
                0,
                0,
            ) {
                Err(e) => Err(e),
                Ok((ticks, records)) => Ok(
                    MlgLogView {
                        version: spec_meta(data).0,
                        capture_date: spec_meta(data).1,
                        channels,
                        ticks,
                        data: records,
                    },
                ),
            },
        },
    }
}

/// Speeduino parser for the MegaLogViewer binary format.
pub struct Speeduino;

impl Speeduino {
    /// Detects the MegaLogViewer format by its "MLVLG" magic.
    pub fn detect(data: &[u8]) -> (b: bool)
        ensures
            b == starts_with_magic(data@),
    {
        if data.len() < 5 {
            return false;
        }
        let ok = data[0] == 0x4D && data[1] == 0x4C && data[2] == 0x56 && data[3] == 0x4C
            && data[4] == 0x47;
        assert(ok == (data@.subrange(0, 5) =~= mlg_magic()));
        ok
    }

    /// Text parsing is not available for this binary-only format.
    pub fn parse(&self, data: &str) -> (res: Result<MlgLog, MlgError>)
        ensures
            res matches Err(e) && e == MlgError::BinaryFormatOnly,
    {
        Err(MlgError::BinaryFormatOnly)
    }

    /// Parses a MegaLogViewer binary file: header, field definitions, info
    /// metadata and data blocks.
    pub fn parse_binary(data: &[u8]) -> (res: Result<MlgLog, MlgError>)
        requires
            !header_overrun(data@),
        ensures
            res matches Ok(log) ==> spec_parse_mlg(data@) == Ok::<MlgLogView, MlgError>(log@),
            res matches Err(e) ==> spec_parse_mlg(data@) == Err::<MlgLogView, MlgError>(e),
    {
        let header = match Self::read_header(data) {
            Ok(h) => h,
            Err(e) => return Err(e),
        };
        let channels = match Self::read_channels(data, &header) {
            Ok(c) => c,
            Err(e) => return Err(e),
        };
        let meta = Self::read_meta(data, &header);
        let mut types: Vec<u8> = Vec::new();
        let mut i: usize = 0;
        while i < channels.len()
            invariant
                i <= channels.len(),
                types@ =~= channel_types(channels@.map_values(|c: SpeeduinoChannel| c@)).take(
                    i as int,
                ),
            decreases channels.len() - i,
        {
            types.push(channels[i].field_type);
            i = i + 1;
        }
        assert(types@ =~= channel_types(channels@.map_values(|c: SpeeduinoChannel| c@)));
        let (ticks, records) = match Self::read_blocks(data, header.data_begin_index, &types) {
            Ok(b) => b,
            Err(e) => return Err(e),
        };
        Ok(MlgLog { meta, channels, ticks, data: records })
    }

    /// Reads the info metadata.
    fn read_meta(data: &[u8], header: &MlgHeader) -> (meta: SpeeduinoMeta)
        requires
            header.info_data_start == spec_info_start(data@),
            header.data_begin_index == spec_data_begin(data@),
        ensures
            (meta.version@, meta.capture_date@) == spec_meta(data@),
    {
        let a = header.info_data_start;
        let b = header.data_begin_index;
        if a < b && b < data.len() {
            let text = decode_utf8_lossy(slice_subrange(data, a, b));
            let version = text_quoted_after(&text, "speeduino");
            let capture_date = text_quoted_after(&text, "Capture Date:");
            SpeeduinoMeta { version, capture_date }
        } else {
            SpeeduinoMeta { version: String::new(), capture_date: String::new() }
        }
    }

    /// Reads and checks the file header.
    fn read_header(data: &[u8]) -> (res: Result<MlgHeader, MlgError>)
        requires
            !header_overrun(data@),
        ensures
            res matches Err(e) ==> spec_header(data@) == Err::<(), MlgError>(e),
            res matches Ok(h) ==> {
                &&& spec_header(data@) is Ok
                &&& h.is_v2 == spec_is_v2(data@)
                &&& h.info_data_start == spec_info_start(data@)
                &&& h.data_begin_index == spec_data_begin(data@)
                &&& h.num_fields == spec_num_fields(data@)
                &&& h.fields_start == spec_fields_start(data@)
                &&& h.fields_start <= data.len()
            },
    {
        if data.len() < 6 || !Self::detect(data) {
            return Err(MlgError::InvalidHeader);
        }
        if data.len() < 22 {
            return Err(MlgError::HeaderTruncated);
        }
        let is_v2 = read_u16(data, 6) == 2;
        let info_data_start: usize = if is_v2 {
            read_u32(data, 12) as usize
        } else {
            read_u16(data, 12) as usize
        };
        let begin_pos: usize = if is_v2 {
            16
        } else {
            14
        };
        let data_begin_index = read_u32(data, begin_pos) as usize;
        let num_fields = read_u16(data, begin_pos + 6) as usize;
        if num_fields > 1000 {
            return Err(MlgError::UnreasonableFieldCount(num_fields));
        }
        if data_begin_index > data.len() {
            return Err(
                MlgError::DataBeginOutOfRange { data_begin_index, file_size: data.len() },
            );
        }
        assert(spec_header(data@) is Ok);
        Ok(
            MlgHeader {
                is_v2,
                info_data_start,
                data_begin_index,
                num_fields,
                fields_start: begin_pos + 8,
            },
        )
    }

    /// Reads the field definition at `off`.
    fn read_channel(data: &[u8], off: usize, field_length: usize) -> (ch: SpeeduinoChannel)
        requires
            field_length == 55 || field_length == 89,
            off + field_length <= data.len(),
        ensures
            ch@ == spec_channel(data@, off as int),
    {
        let field_type = data[off];
        let name_raw = decode_utf8_lossy(slice_subrange(data, off + 1, off + 35));
        let name = trimmed_field_text(name_raw.as_str());
        let unit_raw = decode_utf8_lossy(slice_subrange(data, off + 35, off + 45));
        let unit = trimmed_field_text(unit_raw.as_str());
        let (scale_bits, transform_bits) = if field_type < 10 {
            (read_u32(data, off + 46), read_u32(data, off + 50))
        } else {
            (F32_ONE_BITS, 0)
        };
        SpeeduinoChannel { name, unit, scale_bits, transform_bits, field_type }
    }

    /// Reads all field definitions.
    fn read_channels(data: &[u8], header: &MlgHeader) -> (res: Result<
        Vec<SpeeduinoChannel>,
        MlgError,
    >)
        requires
            header.is_v2 == spec_is_v2(data@),
            header.num_fields == spec_num_fields(data@),
            header.fields_start == spec_fields_start(data@),
            header.fields_start <= data.len(),
        ensures
            res matches Err(e) ==> spec_fields(data@) == Err::<Seq<ChannelView>, MlgError>(e),
            res matches Ok(chs) ==> spec_fields(data@) == Ok::<Seq<ChannelView>, MlgError>(
                chs@.map_values(|c: SpeeduinoChannel| c@),
            ),
    {
        let field_length: usize = if header.is_v2 {
            89
        } else {
            55
        };
        let ghost fs = spec_fields_start(data@);
        let mut channels: Vec<SpeeduinoChannel> = Vec::new();
        let mut offset = header.fields_start;
        let mut i: usize = 0;
        while i < header.num_fields
            invariant
                field_length == spec_field_length(data@),
                header.num_fields == spec_num_fields(data@),
                fs == spec_fields_start(data@),
                i <= header.num_fields,
                offset == fs + i * field_length,
                offset <= data.len(),
                channels@.len() == i,
                forall|j: int|
                    0 <= j < i ==> #[trigger] channels@[j]@ == spec_channel(
                        data@,
                        spec_field_offset(data@, j),
                    ),
            decreases header.num_fields - i,
        {
            if field_length > data.len() - offset {
                proof {
                    lemma_truncated_index(
                        data.len() as int,
                        fs,
                        field_length as int,
                        i as int,
                        header.num_fields as int,
                    );
                }
                return Err(
                    MlgError::FieldTruncated {
                        index: i,
                        offset,
                        need: field_length,
                        have: data.len() - offset,
                    },
                );
            }
            let ch = Self::read_channel(data, offset, field_length);
            channels.push(ch);
            proof {
                assert((i + 1) * field_length == i * field_length + field_length)
                    by (nonlinear_arith);
            }
            offset = offset + field_length;
            i = i + 1;
        }
        assert(channels@.map_values(|c: SpeeduinoChannel| c@) =~= Seq::new(
            spec_num_fields(data@) as nat,
            |j: int| spec_channel(data@, spec_field_offset(data@, j)),
        ));
        Ok(channels)
    }

    /// Reads the value of type `ft` at `off`.
    fn read_value(data: &[u8], off: usize, ft: FieldType) -> (v: RawValue)
        requires
            off + ft.size() <= data.len(),
        ensures
            v == decode_value(data@, off as int, ft),
    {
        match ft {
            FieldType::U08 => RawValue::Int(data[off] as i64),
            FieldType::S08 => {
                let b = data[off] as i64;
                RawValue::Int(
                    if b < 0x80 {
                        b
                    } else {
                        b - 0x100
                    },
                )
            },
            FieldType::U16 => RawValue::Int(read_u16(data, off) as i64),
            FieldType::S16 => {
                let u = read_u16(data, off) as i64;
                RawValue::Int(
                    if u < 0x8000 {
                        u
                    } else {
                        u - 0x1_0000
                    },
                )
            },
            FieldType::U32 => RawValue::Int(read_u32(data, off) as i64),
            FieldType::S32 => {
                let u = read_u32(data, off) as i64;
                RawValue::Int(
                    if u < 0x8000_0000 {
                        u
                    } else {
                        u - 0x1_0000_0000
                    },
                )
            },
            FieldType::S64 => {
                let u = read_u64(data, off);
                RawValue::Int(
                    if u < 0x8000_0000_0000_0000 {
                        u as i64
                    } else {
                        (u - 0x8000_0000_0000_0000) as i64 + i64::MIN
                    },
                )
            },
            FieldType::F32 => RawValue::F32Bits(read_u32(data, off)),
            FieldType::U08Bitfield | FieldType::U16Bitfield | FieldType::U32Bitfield => {
                RawValue::Bitfield
            },
        }
    }

    /// Reads the values of a data record whose fields start at `off`.
    fn read_record(data: &[u8], off: usize, types: &Vec<u8>) -> (res: Result<
        Vec<RawValue>,
        MlgError,
    >)
        requires
            off + record_size(types@) <= data.len(),
        ensures
            res matches Ok(r) ==> first_unknown(types@) is None && r@ == decode_record(
                data@,
                off as int,
                types@,
            ),
            res matches Err(e) ==> first_unknown(types@) matches Some(t) && e
                == MlgError::UnknownFieldType(t),
    {
        let mut record: Vec<RawValue> = Vec::new();
        let mut pos = off;
        let mut i: usize = 0;
        assert(types@.take(0) =~= Seq::<u8>::empty());
        while i < types.len()
            invariant
                i <= types.len(),
                off + record_size(types@) <= data.len(),
                first_unknown(types@.take(i as int)) is None,
                pos == off + record_size(types@.take(i as int)),
                record@ == decode_record(data@, off as int, types@.take(i as int)),
            decreases types.len() - i,
        {
            let t = types[i];
            assert(types@.take(i + 1).drop_last() =~= types@.take(i as int));
            proof {
                lemma_record_size_prefix(types@, i + 1);
            }
            match FieldType::from_u8(t) {
                Some(ft) => {
                    let v = Self::read_value(data, pos, ft);
                    record.push(v);
                    pos = pos + ft.byte_size();
                },
                None => {
                    proof {
                        lemma_first_unknown_prefix(types@, i + 1);
                    }
                    return Err(MlgError::UnknownFieldType(t));
                },
            }
            i = i + 1;
        }
        assert(types@.take(types.len() as int) =~= types@);
        Ok(record)
    }

    /// Size of a data record's field values.
    fn record_size_exec(types: &Vec<u8>) -> (n: usize)
        requires
            types.len() <= 1000,
        ensures
            n == record_size(types@),
            n <= 8000,
    {
        proof {
            lemma_record_size_bound(types@);
        }
        let mut n: usize = 0;
        let mut i: usize = 0;
        assert(types@.take(0) =~= Seq::<u8>::empty());
        while i < types.len()
            invariant
                i <= types.len() <= 1000,
                n == record_size(types@.take(i as int)),
            decreases types.len() - i,
        {
            assert(types@.take(i + 1).drop_last() =~= types@.take(i as int));
            proof {
                lemma_record_size_bound(types@.take(i + 1));
            }
            match FieldType::from_u8(types[i]) {
                Some(ft) => {
                    n = n + ft.byte_size();
                },
                None => {},
            }
            i = i + 1;
        }
        assert(types@.take(types.len() as int) =~= types@);
        n
    }

    /// Reads the data blocks that start at `begin`.
    fn read_blocks(data: &[u8], begin: usize, types: &Vec<u8>) -> (res: Result<
        (Vec<u128>, Vec<Vec<RawValue>>),
        MlgError,
    >)
        requires
            begin <= data.len(),
            types.len() <= 1000,
        ensures
            res matches Err(e) ==> spec_blocks(data@, types@, begin as int, 0, 0) == Err::<
                Blocks,
                MlgError,
            >(e),
            res matches Ok((ts, rs)) ==> spec_blocks(data@, types@, begin as int, 0, 0) == Ok::<
                Blocks,
                MlgError,
            >((ts@.map_values(|t: u128| t as int), rs@.map_values(|r: Vec<RawValue>| r@))),
    {
        let need = Self::record_size_exec(types) + 1;
        let mut ticks: Vec<u128> = Vec::new();
        let mut records: Vec<Vec<RawValue>> = Vec::new();
        let mut offset = begin;
        let mut prev: u16 = 0;
        let mut wraps: u64 = 0;
        let ghost goal = spec_blocks(data@, types@, begin as int, 0, 0);
        assert(prepend_blocks(Seq::empty(), Seq::empty(), goal) == goal) by {
            lemma_prepend_assoc(Seq::empty(), Seq::empty(), Seq::empty(), Seq::empty(), goal);
            match goal {
                Ok((x, y)) => {
                    assert(Seq::<int>::empty() + x =~= x);
                    assert(Seq::<Seq<RawValue>>::empty() + y =~= y);
                },
                Err(_) => {},
            }
        }
        while data.len() - offset >= 4
            invariant_except_break
                offset <= data.len(),
                wraps <= offset,
                goal == prepend_blocks(
                    ticks@.map_values(|t: u128| t as int),
                    records@.map_values(|r: Vec<RawValue>| r@),
                    spec_blocks(data@, types@, offset as int, prev, wraps as nat),
                ),
            invariant
                need == record_size(types@) + 1,
                types.len() <= 1000,
                goal == spec_blocks(data@, types@, begin as int, 0, 0),
            ensures
                goal == prepend_blocks(
                    ticks@.map_values(|t: u128| t as int),
                    records@.map_values(|r: Vec<RawValue>| r@),
                    Ok((Seq::empty(), Seq::empty())),
                ),
            decreases data.len() - offset,
        {
            let ghost tv = ticks@.map_values(|t: u128| t as int);
            let ghost rv = records@.map_values(|r: Vec<RawValue>| r@);
            let ghost here = spec_blocks(data@, types@, offset as int, prev, wraps as nat);
            let block_type = data[offset];
            let raw = read_u16(data, offset + 2);
            if raw < prev && prev - raw > WRAP_THRESHOLD {
                wraps = wraps + 1;
            }
            prev = raw;
            let body = offset + 4;
            if block_type == 0 {
                if need > data.len() - body {
                    break;
                }
                let record = match Self::read_record(data, body, types) {
                    Ok(r) => r,
                    Err(e) => {
                        return Err(e);
                    },
                };
                let tick = (raw as u128) + (wraps as u128) * 65536;
                let ghost rec_view = record@;
                ticks.push(tick);
                records.push(record);
                offset = body + need;
                proof {
                    let rest = spec_blocks(data@, types@, offset as int, prev, wraps as nat);
                    lemma_prepend_assoc(tv, rv, seq![tick as int], seq![rec_view], rest);
                    assert(ticks@.map_values(|t: u128| t as int) =~= tv + seq![tick as int]);
                    assert(records@.map_values(|r: Vec<RawValue>| r@) =~= rv + seq![rec_view]);
                }
            } else if block_type == 1 {
                if 50 > data.len() - body {
                    break;
                }
                offset = body + 50;
            } else {
                break;
            }
        }
        proof {
            assert(ticks@.map_values(|t: u128| t as int) + Seq::<int>::empty() =~= ticks@.map_values(|t: u128| t as int));
            assert(records@.map_values(|r: Vec<RawValue>| r@) + Seq::<Seq<RawValue>>::empty() =~= records@.map_values(|r: Vec<RawValue>| r@));
        }
        Ok((ticks, records))
    }
}


/// Whether the raw timestamps of the blocks read from `off` on never fall
/// back by `WRAP_THRESHOLD` ticks or less from one block to the next (a
/// larger fall is a wraparound). `prev` is the raw timestamp before `off`.
pub open spec fn steady_clock(data: Seq<u8>, types: Seq<u8>, off: int, prev: u16) -> bool
    decreases data.len() - off,
{
    if off < 0 || off + 4 > data.len() {
        true
    } else {
        let raw = be_u16(data, off + 2) as u16;
        let body = off + 4;
        &&& (raw >= prev || wraps_around(prev, raw))
        &&& if data[off] == 0 {
            let next = body + record_size(types) + 1;
            next > data.len() || steady_clock(data, types, next, raw)
        } else if data[off] == 1 {
            body + 50 > data.len() || steady_clock(data, types, body + 50, raw)
        } else {
            true
        }
    }
}

proof fn lemma_blocks_shape(data: Seq<u8>, types: Seq<u8>, off: int, prev: u16, wraps: nat)
    requires
        spec_blocks(data, types, off, prev, wraps) is Ok,
    ensures
        ({
            let (ts, rs) = spec_blocks(data, types, off, prev, wraps)->Ok_0;
            &&& ts.len() == rs.len()
            &&& forall|k: int| 0 <= k < rs.len() ==> #[trigger] rs[k].len() == types.len()
        }),
    decreases data.len() - off,
{
    if !(off < 0 || off + 4 > data.len()) {
        let raw = be_u16(data, off + 2) as u16;
        let w = if wraps_around(prev, raw) {
            wraps + 1
        } else {
            wraps
        };
        let body = off + 4;
        if data[off] == 0 {
            let next = body + record_size(types) + 1;
            if next <= data.len() && first_unknown(types) is None {
                lemma_blocks_shape(data, types, next, raw, w);
                lemma_decode_record_len(data, body, types);
                let (ts, rs) = spec_blocks(data, types, next, raw, w)->Ok_0;
                let rs2 = seq![decode_record(data, body, types)] + rs;
                assert forall|k: int| 0 <= k < rs2.len() implies #[trigger] rs2[k].len()
                    == types.len() by {
                    if k > 0 {
                        assert(rs2[k] == rs[k - 1]);
                    }
                }
            }
        } else if data[off] == 1 {
            if body + 50 <= data.len() {
                lemma_blocks_shape(data, types, body + 50, raw, w);
            }
        }
    }
}

proof fn lemma_blocks_steady(data: Seq<u8>, types: Seq<u8>, off: int, prev: u16, wraps: nat)
    requires
        spec_blocks(data, types, off, prev, wraps) is Ok,
        steady_clock(data, types, off, prev),
    ensures
        ({
            let ts = spec_blocks(data, types, off, prev, wraps)->Ok_0.0;
            &&& forall|k: int| 0 <= k < ts.len() ==> prev + 65536 * wraps <= #[trigger] ts[k]
            &&& forall|i: int, j: int| 0 <= i <= j < ts.len() ==> ts[i] <= ts[j]
        }),
    decreases data.len() - off,
{
    if !(off < 0 || off + 4 > data.len()) {
        let raw = be_u16(data, off + 2) as u16;
        let w = if wraps_around(prev, raw) {
            wraps + 1
        } else {
            wraps
        };
        assert(prev + 65536 * wraps <= raw + 65536 * w);
        let body = off + 4;
        if data[off] == 0 {
            let next = body + record_size(types) + 1;
            if next <= data.len() && first_unknown(types) is None {
                lemma_blocks_steady(data, types, next, raw, w);
                let ts = spec_blocks(data, types, next, raw, w)->Ok_0.0;
                let t0 = raw + 65536 * w;
                let ts2 = seq![t0] + ts;
                assert forall|k: int| 0 <= k < ts2.len() implies prev + 65536 * wraps
                    <= #[trigger] ts2[k] by {
                    if k > 0 {
                        assert(ts2[k] == ts[k - 1]);
                    }
                }
                assert forall|i: int, j: int| 0 <= i <= j < ts2.len() implies ts2[i]
                    <= ts2[j] by {
                    if i > 0 {
                        assert(ts2[i] == ts[i - 1]);
                        assert(ts2[j] == ts[j - 1]);
                    } else if j > 0 {
                        assert(ts2[j] == ts[j - 1]);
                    }
                }
            }
        } else if data[off] == 1 {
            if body + 50 <= data.len() {
                lemma_blocks_steady(data, types, body + 50, raw, w);
            }
        }
    }
}

/// A file that parses starts with the "MLVLG" magic, so `detect` accepts
/// it, and is at least as long as a version 1 header.
pub proof fn law_parsed_file_is_detected(data: Seq<u8>)
    requires
        spec_parse_mlg(data) is Ok,
    ensures
        starts_with_magic(data),
        data.len() >= 22,
{
}

/// In a parsed log there is one timestamp per data record, every record
/// holds one value per channel, and there is one channel per declared field
/// (at most 1000).
pub proof fn law_parsed_log_shape(data: Seq<u8>)
    requires
        spec_parse_mlg(data) is Ok,
    ensures
        ({
            let log = spec_parse_mlg(data)->Ok_0;
            &&& log.ticks.len() == log.data.len()
            &&& forall|k: int|
                0 <= k < log.data.len() ==> #[trigger] log.data[k].len() == log.channels.len()
            &&& log.channels.len() == spec_num_fields(data)
            &&& log.channels.len() <= 1000
        }),
{
    let channels = spec_fields(data)->Ok_0;
    lemma_blocks_shape(data, channel_types(channels), spec_data_begin(data), 0, 0);
}

/// With wraparounds of the 16-bit timestamp counter accounted for, the
/// timestamps of a parsed log never decrease, provided that no block's raw
/// timestamp falls back by `WRAP_THRESHOLD` ticks or less from the block
/// before it.
pub proof fn law_ticks_nondecreasing(data: Seq<u8>)
    requires
        spec_parse_mlg(data) is Ok,
        steady_clock(
            data,
            channel_types(spec_parse_mlg(data)->Ok_0.channels),
            spec_data_begin(data),
            0,
        ),
    ensures
        ({
            let ticks = spec_parse_mlg(data)->Ok_0.ticks;
            forall|i: int, j: int| 0 <= i <= j < ticks.len() ==> ticks[i] <= ticks[j]
        }),
{
    let channels = spec_fields(data)->Ok_0;
    lemma_blocks_steady(data, channel_types(channels), spec_data_begin(data), 0, 0);
}

proof fn lemma_blocks_ok(data: Seq<u8>, types: Seq<u8>, off: int, prev: u16, wraps: nat)
    requires
        first_unknown(types) is None,
    ensures
        spec_blocks(data, types, off, prev, wraps) is Ok,
    decreases data.len() - off,
{
    if !(off < 0 || off + 4 > data.len()) {
        let raw = be_u16(data, off + 2) as u16;
        let w = if wraps_around(prev, raw) {
            wraps + 1
        } else {
            wraps
        };
        let body = off + 4;
        if data[off] == 0 {
            let next = body + record_size(types) + 1;
            if next <= data.len() {
                lemma_blocks_ok(data, types, next, raw, w);
            }
        } else if data[off] == 1 {
            if body + 50 <= data.len() {
                lemma_blocks_ok(data, types, body + 50, raw, w);
            }
        }
    }
}

/// Reading the data blocks fails only on a field of unknown type: when the
/// header and the field definitions are read and every field type is known,
/// the file parses. A trailing block that does not fit in the data, and a
/// block of a type other than data or marker, end the log instead of
/// making it fail.
pub proof fn law_parse_succeeds_with_known_types(data: Seq<u8>)
    requires
        spec_header(data) is Ok,
        spec_fields(data) is Ok,
        first_unknown(channel_types(spec_fields(data)->Ok_0)) is None,
    ensures
        spec_parse_mlg(data) is Ok,
{
    lemma_blocks_ok(data, channel_types(spec_fields(data)->Ok_0), spec_data_begin(data), 0, 0);
}

/// The raw 16-bit timestamp of the block at `off`.
pub open spec fn raw_timestamp(data: Seq<u8>, off: int) -> u16 {
    be_u16(data, off + 2) as u16
}

/// Where the block after the one at `off` starts: a data record holds its
/// field values and a CRC byte, a marker 50 bytes.
pub open spec fn block_next(data: Seq<u8>, types: Seq<u8>, off: int) -> int {
    if data[off] == 0 {
        off + 4 + record_size(types) + 1
    } else {
        off + 4 + 50
    }
}

/// Whether a whole block starts at `off`: its 4-byte prefix, a data
/// record or marker type, and its body all lie within the data.
pub open spec fn complete_block_at(data: Seq<u8>, types: Seq<u8>, off: int) -> bool {
    &&& 0 <= off
    &&& off + 4 <= data.len()
    &&& (data[off] == 0 || data[off] == 1)
    &&& block_next(data, types, off) <= data.len()
}

/// Offsets of the blocks read from `off` on, data records and markers
/// alike: one block after the other, as long as whole blocks follow.
pub open spec fn block_offsets(data: Seq<u8>, types: Seq<u8>, off: int) -> Seq<int>
    decreases data.len() - off,
{
    if complete_block_at(data, types, off) {
        seq![off] + block_offsets(data, types, block_next(data, types, off))
    } else {
        Seq::empty()
    }
}

/// Where reading the blocks from `off` on stops.
pub open spec fn blocks_end(data: Seq<u8>, types: Seq<u8>, off: int) -> int
    decreases data.len() - off,
{
    if complete_block_at(data, types, off) {
        blocks_end(data, types, block_next(data, types, off))
    } else {
        off
    }
}

/// The positions, among `offs`, of the data-record blocks.
pub open spec fn data_positions(data: Seq<u8>, offs: Seq<int>) -> Seq<int>
    decreases offs.len(),
{
    if offs.len() == 0 {
        Seq::empty()
    } else {
        let rest = data_positions(data, offs.drop_first()).map_values(|k: int| k + 1);
        if data[offs[0]] == 0 {
            seq![0int] + rest
        } else {
            rest
        }
    }
}

/// The number of wraparounds among the first `k + 1` raw timestamps, each
/// compared with the one before it and the first with `prev`.
pub open spec fn wrap_count(raws: Seq<u16>, prev: u16, k: int) -> nat
    decreases raws.len(),
{
    if k < 0 || raws.len() == 0 {
        0
    } else {
        (if wraps_around(prev, raws[0]) {
            1nat
        } else {
            0nat
        }) + wrap_count(raws.drop_first(), raws[0], k - 1)
    }
}

#[verifier::rlimit(40)]
proof fn lemma_walk(data: Seq<u8>, types: Seq<u8>, off: int, prev: u16, wraps: nat)
    requires
        first_unknown(types) is None,
    ensures
        ({
            let offs = block_offsets(data, types, off);
            let raws = offs.map_values(|o: int| raw_timestamp(data, o));
            let pos = data_positions(data, offs);
            let (ticks, records) = spec_blocks(data, types, off, prev, wraps)->Ok_0;
            &&& spec_blocks(data, types, off, prev, wraps) is Ok
            &&& ticks.len() == pos.len()
            &&& records.len() == pos.len()
            &&& forall|i: int|
                0 <= i < pos.len() ==> {
                    &&& 0 <= #[trigger] pos[i] < offs.len()
                    &&& data[offs[pos[i]]] == 0
                    &&& ticks[i] == raws[pos[i]] + 65536 * (wraps + wrap_count(raws, prev, pos[i]))
                    &&& records[i] == decode_record(data, offs[pos[i]] + 4, types)
                }
            &&& forall|k: int|
                0 <= k < offs.len() && data[offs[k]] == 0 ==> exists|i: int|
                    0 <= i < pos.len() && #[trigger] pos[i] == k
            &&& forall|k: int|
                0 <= k < offs.len() ==> #[trigger] complete_block_at(data, types, offs[k])
            &&& offs.len() > 0 ==> offs[0] == off
            &&& forall|k: int|
                0 <= k < offs.len() - 1 ==> offs[k + 1] == block_next(data, types, #[trigger] offs[k])
            &&& !complete_block_at(data, types, blocks_end(data, types, off))
            &&& offs.len() > 0 ==> blocks_end(data, types, off) == block_next(
                data,
                types,
                offs[offs.len() - 1],
            )
            &&& offs.len() == 0 ==> blocks_end(data, types, off) == off
        }),
    decreases data.len() - off,
{
    lemma_blocks_ok(data, types, off, prev, wraps);
    if complete_block_at(data, types, off) {
        let raw = raw_timestamp(data, off);
        let w = if wraps_around(prev, raw) {
            wraps + 1
        } else {
            wraps
        };
        let next = block_next(data, types, off);
        lemma_walk(data, types, next, raw, w);
        let offs2 = block_offsets(data, types, next);
        let raws2 = offs2.map_values(|o: int| raw_timestamp(data, o));
        let pos2 = data_positions(data, offs2);
        let offs = block_offsets(data, types, off);
        let raws = offs.map_values(|o: int| raw_timestamp(data, o));
        let pos = data_positions(data, offs);
        assert(offs.drop_first() =~= offs2);
        assert(raws.drop_first() =~= raws2);
        assert(raws[0] == raw);
        let (ticks2, records2) = spec_blocks(data, types, next, raw, w)->Ok_0;
        let (ticks, records) = spec_blocks(data, types, off, prev, wraps)->Ok_0;
        let rest = pos2.map_values(|k: int| k + 1);
        assert forall|k: int| 0 <= k < offs.len() - 1 implies offs[k + 1] == block_next(
            data,
            types,
            #[trigger] offs[k],
        ) by {
            if k > 0 {
                assert(offs[k] == offs2[k - 1]);
                assert(offs[k + 1] == offs2[k]);
            }
        }
        assert forall|k: int| 0 <= k < offs.len() implies #[trigger] complete_block_at(
            data,
            types,
            offs[k],
        ) by {
            if k > 0 {
                assert(offs[k] == offs2[k - 1]);
            }
        }
        if offs2.len() > 0 {
            assert(offs[offs.len() - 1] == offs2[offs2.len() - 1]);
        }
        if data[off] == 0 {
            assert(pos =~= seq![0int] + rest);
            assert(first_unknown(types) is None);
            assert(off + 4 + record_size(types) + 1 == next);
            assert(spec_blocks(data, types, off, prev, wraps) == prepend_blocks(
                seq![raw + 65536 * w],
                seq![decode_record(data, off + 4, types)],
                spec_blocks(data, types, next, raw, w),
            ));
            assert(ticks =~= seq![raw + 65536 * w] + ticks2);
            assert(records =~= seq![decode_record(data, off + 4, types)] + records2);
            assert(wrap_count(raws.drop_first(), raw, -1) == 0);
            assert(wrap_count(raws, prev, 0) == (if wraps_around(prev, raw) {
                1nat
            } else {
                0nat
            }));
            assert forall|i: int| 0 <= i < pos.len() implies {
                &&& 0 <= #[trigger] pos[i] < offs.len()
                &&& data[offs[pos[i]]] == 0
                &&& ticks[i] == raws[pos[i]] + 65536 * (wraps + wrap_count(raws, prev, pos[i]))
                &&& records[i] == decode_record(data, offs[pos[i]] + 4, types)
            } by {
                if i > 0 {
                    assert(pos[i] == pos2[i - 1] + 1);
                    assert(0 <= pos2[i - 1] < offs2.len());
                    assert(offs[pos[i]] == offs2[pos2[i - 1]]);
                    assert(raws[pos[i]] == raws2[pos2[i - 1]]);
                    assert(ticks[i] == ticks2[i - 1]);
                    assert(records[i] == records2[i - 1]);
                }
            }
            assert forall|k: int| 0 <= k < offs.len() && data[offs[k]] == 0 implies exists|i: int|
                0 <= i < pos.len() && #[trigger] pos[i] == k by {
                if k == 0 {
                    assert(pos[0] == 0);
                } else {
                    assert(offs[k] == offs2[k - 1]);
                    let j = choose|j: int| 0 <= j < pos2.len() && #[trigger] pos2[j] == k - 1;
                    assert(pos[j + 1] == k);
                }
            }
        } else {
            assert(pos =~= rest);
            assert forall|i: int| 0 <= i < pos.len() implies {
                &&& 0 <= #[trigger] pos[i] < offs.len()
                &&& data[offs[pos[i]]] == 0
                &&& ticks[i] == raws[pos[i]] + 65536 * (wraps + wrap_count(raws, prev, pos[i]))
                &&& records[i] == decode_record(data, offs[pos[i]] + 4, types)
            } by {
                assert(pos[i] == pos2[i] + 1);
                assert(0 <= pos2[i] < offs2.len());
                assert(offs[pos[i]] == offs2[pos2[i]]);
                assert(raws[pos[i]] == raws2[pos2[i]]);
            }
            assert forall|k: int| 0 <= k < offs.len() && data[offs[k]] == 0 implies exists|i: int|
                0 <= i < pos.len() && #[trigger] pos[i] == k by {
                assert(k != 0);
                assert(offs[k] == offs2[k - 1]);
                let j = choose|j: int| 0 <= j < pos2.len() && #[trigger] pos2[j] == k - 1;
                assert(pos[j] == k);
            }
        }
    } else {
        let offs = block_offsets(data, types, off);
        assert(offs =~= Seq::<int>::empty());
    }
}

/// The blocks of a file whose field types are all known, read from the
/// first data block on, data records and markers alike, one whole block
/// after the other: the log holds one record per data-record block among
/// them and nothing else, so a trailing part that is no whole block is
/// dropped. A record's time is its block's raw timestamp plus 65536 times
/// the number of wraparounds among the blocks read up to and including it.
pub proof fn law_blocks_read(data: Seq<u8>)
    requires
        spec_parse_mlg(data) is Ok,
        first_unknown(channel_types(spec_parse_mlg(data)->Ok_0.channels)) is None,
    ensures
        ({
            let log = spec_parse_mlg(data)->Ok_0;
            let types = channel_types(log.channels);
            let begin = spec_data_begin(data);
            let offs = block_offsets(data, types, begin);
            let raws = offs.map_values(|o: int| raw_timestamp(data, o));
            let pos = data_positions(data, offs);
            &&& log.ticks.len() == pos.len()
            &&& log.data.len() == pos.len()
            &&& forall|i: int|
                0 <= i < pos.len() ==> {
                    &&& 0 <= #[trigger] pos[i] < offs.len()
                    &&& data[offs[pos[i]]] == 0
                    &&& log.ticks[i] == raws[pos[i]] + 65536 * wrap_count(raws, 0, pos[i])
                    &&& log.data[i] == decode_record(data, offs[pos[i]] + 4, types)
                }
            &&& forall|k: int|
                0 <= k < offs.len() && data[offs[k]] == 0 ==> exists|i: int|
                    0 <= i < pos.len() && #[trigger] pos[i] == k
            &&& forall|k: int|
                0 <= k < offs.len() ==> #[trigger] complete_block_at(data, types, offs[k])
            &&& offs.len() > 0 ==> offs[0] == begin
            &&& forall|k: int|
                0 <= k < offs.len() - 1 ==> offs[k + 1] == block_next(data, types, #[trigger] offs[k])
            &&& !complete_block_at(data, types, blocks_end(data, types, begin))
            &&& offs.len() > 0 ==> blocks_end(data, types, begin) == block_next(
                data,
                types,
                offs[offs.len() - 1],
            )
            &&& offs.len() == 0 ==> blocks_end(data, types, begin) == begin
        }),
{
    let log = spec_parse_mlg(data)->Ok_0;
    let channels = spec_fields(data)->Ok_0;
    assert(log.channels == channels);
    lemma_walk(data, channel_types(channels), spec_data_begin(data), 0, 0);
}

/// The header checks, in order: data that is shorter than six bytes or
/// does not start with "MLVLG" is refused as an invalid header; data
/// shorter than a version 1 header as truncated; a header declaring more
/// than 1000 fields as unreasonable; and a first data block past the end of
/// the file as out of range.
pub proof fn law_header_checks(data: Seq<u8>)
    ensures
        data.len() < 6 || !starts_with_magic(data) ==> spec_parse_mlg(data) == Err::<
            MlgLogView,
            MlgError,
        >(MlgError::InvalidHeader),
        data.len() >= 6 && starts_with_magic(data) && data.len() < 22 ==> spec_parse_mlg(data)
            == Err::<MlgLogView, MlgError>(MlgError::HeaderTruncated),
        data.len() >= 22 && starts_with_magic(data) && spec_num_fields(data) > 1000
            ==> spec_parse_mlg(data) == Err::<MlgLogView, MlgError>(
            MlgError::UnreasonableFieldCount(spec_num_fields(data) as usize),
        ),
        data.len() >= 22 && starts_with_magic(data) && spec_num_fields(data) <= 1000
            && spec_data_begin(data) > data.len() ==> spec_parse_mlg(data) == Err::<
            MlgLogView,
            MlgError,
        >(
            MlgError::DataBeginOutOfRange {
                data_begin_index: spec_data_begin(data) as usize,
                file_size: data.len() as usize,
            },
        ),
{
}

proof fn lemma_decode_record_at(data: Seq<u8>, off: int, types: Seq<u8>, k: int)
    requires
        0 <= k < types.len(),
    ensures
        decode_record(data, off, types).len() == types.len(),
        decode_record(data, off, types)[k] == (match field_type_of(types[k]) {
            Some(ft) => decode_value(data, off + record_size(types.take(k)), ft),
            None => RawValue::Bitfield,
        }),
        record_size(types.take(k)) + type_size(types[k]) <= record_size(types),
    decreases types.len(),
{
    lemma_decode_record_len(data, off, types);
    let prefix = types.drop_last();
    if k < types.len() - 1 {
        lemma_decode_record_at(data, off, prefix, k);
        assert(prefix.take(k) == types.take(k));
        assert(prefix[k] == types[k]);
        lemma_record_size_prefix(types, types.len() - 1);
        assert(types.take(types.len() - 1) == prefix);
    } else {
        assert(types.take(k) == prefix);
    }
}

/// Whether `v` is the value of a field of type byte `t` stored at `o`:
/// U08 is the unsigned byte and S08 the signed one; U16, S16, U32, S32 and
/// S64 are the big-endian unsigned and two's-complement readings of 2, 4
/// and 8 bytes; F32 keeps the big-endian bit pattern; bitfields are not
/// decoded.
#[verifier::opaque]
pub open spec fn field_reads(data: Seq<u8>, o: int, t: u8, v: RawValue) -> bool {
    let u16v = data[o] * 256 + data[o + 1];
    let u32v = data[o] * 16777216 + data[o + 1] * 65536 + data[o + 2] * 256 + data[o + 3];
    let u64v = u32v * 4294967296 + (data[o + 4] * 16777216 + data[o + 5] * 65536 + data[o + 6]
        * 256 + data[o + 7]);
    &&& t == 0 ==> v == RawValue::Int(data[o] as i64)
    &&& t == 1 ==> v == RawValue::Int(
        (if data[o] < 128 {
            data[o] as int
        } else {
            data[o] - 256
        }) as i64,
    )
    &&& t == 2 ==> v == RawValue::Int(u16v as i64)
    &&& t == 3 ==> v == RawValue::Int(
        (if u16v < 32768 {
            u16v
        } else {
            u16v - 65536
        }) as i64,
    )
    &&& t == 4 ==> v == RawValue::Int(u32v as i64)
    &&& t == 5 ==> v == RawValue::Int(
        (if u32v < 2147483648 {
            u32v
        } else {
            u32v - 4294967296
        }) as i64,
    )
    &&& t == 6 ==> v == RawValue::Int(
        (if u64v < 9223372036854775808 {
            u64v
        } else {
            u64v - 18446744073709551616
        }) as i64,
    )
    &&& t == 7 ==> v == RawValue::F32Bits(u32v as u32)
    &&& (t == 10 || t == 11 || t == 12) ==> v == RawValue::Bitfield
}

/// Where field `k` of record `i` of a parsed log is stored: in the block of
/// the `i`-th data record among the blocks read, after the block's 4-byte
/// prefix and the fields before it.
pub open spec fn record_field_offset(data: Seq<u8>, i: int, k: int) -> int {
    let types = channel_types(spec_parse_mlg(data)->Ok_0.channels);
    let offs = block_offsets(data, types, spec_data_begin(data));
    offs[data_positions(data, offs)[i]] + 4 + record_size(types.take(k))
}

/// The value of every field of every record of a parsed log whose field
/// types are all known, read at the field's position as `field_reads`
/// says: in each data-record block the fields follow the block's 4-byte
/// prefix one after the other, each taking its type's size.
pub proof fn law_record_fields(data: Seq<u8>)
    requires
        spec_parse_mlg(data) is Ok,
        first_unknown(channel_types(spec_parse_mlg(data)->Ok_0.channels)) is None,
    ensures
        forall|i: int, k: int|
            #![trigger spec_parse_mlg(data)->Ok_0.data[i][k]]
            0 <= i < spec_parse_mlg(data)->Ok_0.data.len() && 0 <= k
                < spec_parse_mlg(data)->Ok_0.channels.len() ==> field_reads(
                data,
                record_field_offset(data, i, k),
                spec_parse_mlg(data)->Ok_0.channels[k].field_type,
                spec_parse_mlg(data)->Ok_0.data[i][k],
            ),
{
    let log = spec_parse_mlg(data)->Ok_0;
    let types = channel_types(log.channels);
    let offs = block_offsets(data, types, spec_data_begin(data));
    let pos = data_positions(data, offs);
    law_blocks_read(data);
    assert(types.len() == log.channels.len());
    assert forall|i: int, k: int|
        #![trigger log.data[i][k]]
        0 <= i < log.data.len() && 0 <= k < log.channels.len() implies field_reads(
            data,
            record_field_offset(data, i, k),
            log.channels[k].field_type,
            log.data[i][k],
        ) by {
        let b = offs[pos[i]];
        assert(0 <= pos[i] < offs.len());
        assert(complete_block_at(data, types, b));
        assert(types[k] == log.channels[k].field_type);
        lemma_record_field(data, types, b, k);
    }
}

proof fn lemma_record_field(data: Seq<u8>, types: Seq<u8>, b: int, k: int)
    requires
        complete_block_at(data, types, b),
        data[b] == 0,
        first_unknown(types) is None,
        0 <= k < types.len(),
    ensures
        decode_record(data, b + 4, types).len() == types.len(),
        b + 4 + record_size(types.take(k)) + type_size(types[k]) <= data.len(),
        field_reads(
            data,
            b + 4 + record_size(types.take(k)),
            types[k],
            decode_record(data, b + 4, types)[k],
        ),
{
    lemma_decode_record_at(data, b + 4, types, k);
    lemma_first_unknown_none(types, k);
    lemma_field_reads(data, b + 4 + record_size(types.take(k)), types[k]);
}

proof fn lemma_field_reads(data: Seq<u8>, o: int, t: u8)
    requires
        0 <= o,
        field_type_of(t) is Some,
        o + type_size(t) <= data.len(),
    ensures
        field_reads(data, o, t, decode_value(data, o, field_type_of(t)->0)),
{
    reveal(field_reads);
}

proof fn lemma_first_unknown_none(types: Seq<u8>, k: int)
    requires
        first_unknown(types) is None,
        0 <= k < types.len(),
    ensures
        field_type_of(types[k]) is Some,
    decreases types.len(),
{
    if k < types.len() - 1 {
        assert(types.drop_last()[k] == types[k]);
        lemma_first_unknown_none(types.drop_last(), k);
    }
}

/// Where the header keeps its values: the format version is the big-endian
/// 16-bit value at byte 6 (version 2 when it is 2). In version 1 the info
/// offset is a 16-bit value at byte 12, the first data block's offset a
/// 32-bit value at byte 14, the field count a 16-bit value at byte 20, and
/// the field definitions (55 bytes each) start at byte 22. In version 2 the
/// info offset is a 32-bit value at byte 12, the data offset at byte 16,
/// the field count at byte 22, and the definitions (89 bytes each) start at
/// byte 24. All values are big-endian.
pub proof fn law_header_layout(data: Seq<u8>)
    ensures
        spec_is_v2(data) <==> data[6] * 256 + data[7] == 2,
        !spec_is_v2(data) ==> {
            &&& spec_info_start(data) == data[12] * 256 + data[13]
            &&& spec_data_begin(data) == data[14] * 16777216 + data[15] * 65536 + data[16] * 256
                + data[17]
            &&& spec_num_fields(data) == data[20] * 256 + data[21]
            &&& spec_fields_start(data) == 22
            &&& spec_field_length(data) == 55
        },
        spec_is_v2(data) ==> {
            &&& spec_info_start(data) == data[12] * 16777216 + data[13] * 65536 + data[14] * 256
                + data[15]
            &&& spec_data_begin(data) == data[16] * 16777216 + data[17] * 65536 + data[18] * 256
                + data[19]
            &&& spec_num_fields(data) == data[22] * 256 + data[23]
            &&& spec_fields_start(data) == 24
            &&& spec_field_length(data) == 89
        },
{
}

/// What a field definition of a parsed file gives its channel: the type
/// byte comes first; the name is the next 34 bytes and the unit the 10
/// after them, each decoded as lossy UTF-8 with trailing NULs and then
/// surrounding white space removed; after a display-style byte come the
/// big-endian bit patterns of the scale and the transform, for a type byte
/// below 10; other types have scale 1.0 and transform 0.
pub proof fn law_channel_definitions(data: Seq<u8>)
    requires
        spec_parse_mlg(data) is Ok,
    ensures
        forall|j: int|
            #![trigger spec_parse_mlg(data)->Ok_0.channels[j]]
            0 <= j < spec_parse_mlg(data)->Ok_0.channels.len() ==> {
                let fo = spec_fields_start(data) + j * spec_field_length(data);
                let ch = spec_parse_mlg(data)->Ok_0.channels[j];
                &&& fo + spec_field_length(data) <= data.len()
                &&& ch.field_type == data[fo]
                &&& ch.name == trim_start_ws(
                    trim_end_ws(trim_end_nul(utf8_lossy(data.subrange(fo + 1, fo + 35)))),
                )
                &&& ch.unit == trim_start_ws(
                    trim_end_ws(trim_end_nul(utf8_lossy(data.subrange(fo + 35, fo + 45)))),
                )
                &&& ch.scale_bits == if data[fo] < 10 {
                    data[fo + 46] * 16777216 + data[fo + 47] * 65536 + data[fo + 48] * 256
                        + data[fo + 49]
                } else {
                    0x3F80_0000
                }
                &&& ch.transform_bits == if data[fo] < 10 {
                    data[fo + 50] * 16777216 + data[fo + 51] * 65536 + data[fo + 52] * 256
                        + data[fo + 53]
                } else {
                    0
                }
            },
{
    let log = spec_parse_mlg(data)->Ok_0;
    assert forall|j: int|
        #![trigger spec_parse_mlg(data)->Ok_0.channels[j]]
        0 <= j < log.channels.len() implies {
            let fo = spec_fields_start(data) + j * spec_field_length(data);
            let ch = spec_parse_mlg(data)->Ok_0.channels[j];
            &&& fo + spec_field_length(data) <= data.len()
            &&& ch.field_type == data[fo]
            &&& ch.name == trim_start_ws(
                trim_end_ws(trim_end_nul(utf8_lossy(data.subrange(fo + 1, fo + 35)))),
            )
            &&& ch.unit == trim_start_ws(
                trim_end_ws(trim_end_nul(utf8_lossy(data.subrange(fo + 35, fo + 45)))),
            )
            &&& ch.scale_bits == if data[fo] < 10 {
                data[fo + 46] * 16777216 + data[fo + 47] * 65536 + data[fo + 48] * 256 + data[fo
                    + 49]
            } else {
                0x3F80_0000
            }
            &&& ch.transform_bits == if data[fo] < 10 {
                data[fo + 50] * 16777216 + data[fo + 51] * 65536 + data[fo + 52] * 256 + data[fo
                    + 53]
            } else {
                0
            }
        } by {
        let fl = spec_field_length(data);
        let nf = spec_num_fields(data);
        assert(j + 1 <= nf);
        assert((j + 1) * fl <= nf * fl) by (nonlinear_arith)
            requires
                j + 1 <= nf,
                fl > 0,
        ;
        assert(j * fl + fl == (j + 1) * fl) by (nonlinear_arith);
    }
}

/// A fall of the raw timestamp from one block to the next counts as a
/// wraparound exactly when it is more than 30000 ticks.
pub proof fn law_wraparound(prev: u16, raw: u16)
    ensures
        wraps_around(prev, raw) <==> raw < prev && prev - raw > 30000,
{
}

} // verus!
