//! KLV records: an 8-byte header (FourCC, type code, sample size, repeat)
//! followed by a payload zero-padded to a 4-byte boundary. Nested records
//! frame a sequence of child records that must fill the padded payload
//! region exactly.
//!
//! The module defines the record tree, a ghost model of it, a specification
//! parser over byte sequences, and the executable parser proved equal to it.

use vstd::prelude::*;

verus! {

use crate::{round4, nat_of};
use crate::bytes::{be_u16, be_u32, be_u64, sign8, sign16, sign32};
use crate::bytes::{
    read_u8,
    read_u16_be,
    read_u32_be,
    read_u64_be,
    read_i8,
    read_i16_be,
    read_i32_be,
    read_bytes,
    skip_padding,
};
use crate::datetime::{DateTime, datetime_bytes_valid, datetime_of, parse_datetime};
use crate::text::{latin1_of, latin1_to_string};

/// Maximum nesting depth a parse will follow before failing.
pub const MAX_NESTING_DEPTH: usize = 32;

/// Everything that can go wrong while decoding a payload.
#[derive(Debug, Clone, Copy, PartialEq, Eq, Structural)]
pub enum KlvError {
    /// A zero-FourCC sentinel, or the source exhausted at the first four
    /// header bytes. The top level treats this as clean termination; inside
    /// a nested container it propagates as a failure.
    EndOfStream,
    /// A short read inside header bytes 5 to 8, a payload, or padding, or a
    /// nested container whose children overrun its declared end.
    UnexpectedEndOfStream,
    /// A type byte outside the closed set.
    UnknownTypeCode(u8),
    /// A `U` payload that does not match `YYMMDDhhmmss.fff`.
    InvalidDateTime,
    /// A FourCC holding non-ASCII bytes was asked for its string form.
    InvalidUtf8InFourCC,
    /// The GPS9 projector found the record tree shaped other than declared.
    StructureMismatch,
    /// Nesting deeper than `MAX_NESTING_DEPTH`.
    DepthExceeded,
}

/// The semantic kind one type-code byte denotes.
#[derive(Debug, Clone, Copy, PartialEq, Eq, PartialOrd, Ord, Hash, Structural)]
pub enum ValueType {
    S8,
    U8,
    S32,
    U32,
    Ascii,
    F32,
    Fourcc,
    U64,
    S16,
    U16,
    DateTime,
    Complex,
    Nested,
}

/// The type-code table: which byte maps to which kind.
pub open spec fn type_code_of(b: u8) -> Option<ValueType> {
    if b == 0x62u8 {
        Some(ValueType::S8)
    } else if b == 0x42u8 {
        Some(ValueType::U8)
    } else if b == 0x6Cu8 {
        Some(ValueType::S32)
    } else if b == 0x4Cu8 {
        Some(ValueType::U32)
    } else if b == 0x63u8 {
        Some(ValueType::Ascii)
    } else if b == 0x66u8 {
        Some(ValueType::F32)
    } else if b == 0x46u8 {
        Some(ValueType::Fourcc)
    } else if b == 0x4Au8 {
        Some(ValueType::U64)
    } else if b == 0x73u8 {
        Some(ValueType::S16)
    } else if b == 0x53u8 {
        Some(ValueType::U16)
    } else if b == 0x55u8 {
        Some(ValueType::DateTime)
    } else if b == 0x3Fu8 {
        Some(ValueType::Complex)
    } else if b == 0 {
        Some(ValueType::Nested)
    } else {
        None
    }
}

/// Fixed per-element width in bytes; 0 for the variable-width kinds.
pub open spec fn spec_element_size(t: ValueType) -> int {
    match t {
        ValueType::S8 => 1,
        ValueType::U8 => 1,
        ValueType::S32 => 4,
        ValueType::U32 => 4,
        ValueType::Ascii => 1,
        ValueType::F32 => 4,
        ValueType::Fourcc => 4,
        ValueType::U64 => 8,
        ValueType::S16 => 2,
        ValueType::U16 => 2,
        ValueType::DateTime => 16,
        ValueType::Complex => 0,
        ValueType::Nested => 0,
    }
}

impl ValueType {
    /// The kind a type-code byte denotes, or the byte itself as the error.
    pub fn from_u8(b: u8) -> (r: Result<ValueType, KlvError>)
        ensures
            match r {
                Ok(t) => type_code_of(b) == Some(t),
                Err(e) => type_code_of(b) is None && e == KlvError::UnknownTypeCode(b),
            },
    {
        if b == 0x62u8 {
            Ok(ValueType::S8)
        } else if b == 0x42u8 {
            Ok(ValueType::U8)
        } else if b == 0x6Cu8 {
            Ok(ValueType::S32)
        } else if b == 0x4Cu8 {
            Ok(ValueType::U32)
        } else if b == 0x63u8 {
            Ok(ValueType::Ascii)
        } else if b == 0x66u8 {
            Ok(ValueType::F32)
        } else if b == 0x46u8 {
            Ok(ValueType::Fourcc)
        } else if b == 0x4Au8 {
            Ok(ValueType::U64)
        } else if b == 0x73u8 {
            Ok(ValueType::S16)
        } else if b == 0x53u8 {
            Ok(ValueType::U16)
        } else if b == 0x55u8 {
            Ok(ValueType::DateTime)
        } else if b == 0x3Fu8 {
            Ok(ValueType::Complex)
        } else if b == 0 {
            Ok(ValueType::Nested)
        } else {
            Err(KlvError::UnknownTypeCode(b))
        }
    }

    /// Returns `0` for `Complex` and `Nested`.
    pub fn element_size(&self) -> (r: usize)
        ensures
            r == spec_element_size(*self),
    {
        match self {
            ValueType::S8 => 1,
            ValueType::U8 => 1,
            ValueType::S32 => 4,
            ValueType::U32 => 4,
            ValueType::Ascii => 1,
            ValueType::F32 => 4,
            ValueType::Fourcc => 4,
            ValueType::U64 => 8,
            ValueType::S16 => 2,
            ValueType::U16 => 2,
            ValueType::DateTime => 16,
            ValueType::Complex => 0,
            ValueType::Nested => 0,
        }
    }
}

/// A four-byte record tag; all-zero bytes are the end-of-container sentinel,
/// never a real tag.
#[derive(Debug, Clone, Copy, PartialEq, Eq, PartialOrd, Ord, Hash)]
pub struct Fourcc(pub [u8; 4]);

impl View for Fourcc {
    type V = Seq<u8>;

    open spec fn view(&self) -> Seq<u8> {
        self.0@
    }
}

/// Whether the four bytes at `pos` are all zero.
pub open spec fn fourcc_is_zero(data: Seq<u8>, pos: int) -> bool {
    data[pos] == 0 && data[pos + 1] == 0 && data[pos + 2] == 0 && data[pos + 3] == 0
}

impl Fourcc {
    /// Reads exactly 4 bytes; the zero sentinel and a short read both end
    /// the caller's stream.
    pub fn from_reader(data: &Vec<u8>, pos: &mut usize) -> (r: Result<Fourcc, KlvError>)
        ensures
            match r {
                Ok(f) => *old(pos) + 4 <= data@.len() && !fourcc_is_zero(data@, *old(pos) as int)
                    && *final(pos) == *old(pos) + 4 && f@ == data@.subrange(
                    *old(pos) as int,
                    *old(pos) + 4,
                ),
                Err(e) => e == KlvError::EndOfStream && *final(pos) == *old(pos) && (*old(pos) + 4
                    > data@.len() || fourcc_is_zero(data@, *old(pos) as int)),
            },
    {
        if data.len() < 4 || *pos > data.len() - 4 {
            return Err(KlvError::EndOfStream);
        }
        let b0 = data[*pos];
        let b1 = data[*pos + 1];
        let b2 = data[*pos + 2];
        let b3 = data[*pos + 3];
        if b0 == 0 && b1 == 0 && b2 == 0 && b3 == 0 {
            return Err(KlvError::EndOfStream);
        }
        *pos = *pos + 4;
        let f = Fourcc([b0, b1, b2, b3]);
        proof {
            assert(f@ =~= data@.subrange(*old(pos) as int, *old(pos) + 4));
        }
        Ok(f)
    }

    pub fn as_bytes(&self) -> (r: &[u8; 4])
        ensures
            r@ == self@,
    {
        &self.0
    }

    /// The tag as text; ASCII tags only, per `InvalidUtf8InFourCC`.
    pub fn as_str(&self) -> (r: Result<String, KlvError>)
        ensures
            match r {
                Ok(s) => (forall|i: int| 0 <= i < 4 ==> self@[i] < 0x80) && s@ == latin1_of(self@),
                Err(e) => e == KlvError::InvalidUtf8InFourCC && exists|i: int|
                    0 <= i < 4 && self@[i] >= 0x80,
            },
    {
        let mut bs: Vec<u8> = Vec::new();
        let mut i: usize = 0;
        while i < 4
            invariant
                i <= 4,
                bs@ == self@.subrange(0, i as int),
                forall|j: int| 0 <= j < i ==> self@[j] < 0x80,
            decreases 4 - i,
        {
            if self.0[i] >= 0x80 {
                return Err(KlvError::InvalidUtf8InFourCC);
            }
            bs.push(self.0[i]);
            i = i + 1;
            proof {
                assert(bs@ =~= self@.subrange(0, i as int));
            }
        }
        proof {
            assert(bs@ =~= self@);
        }
        Ok(latin1_to_string(&bs))
    }

    /// Whether the tag equals the given four bytes.
    pub fn matches(&self, name: &[u8; 4]) -> (r: bool)
        ensures
            r == (self@ == name@),
    {
        let r = self.0[0] == name[0] && self.0[1] == name[1] && self.0[2] == name[2] && self.0[3]
            == name[3];
        proof {
            if r {
                assert(self@ =~= name@);
            }
        }
        r
    }
}

/// Ghost form of `TypeSizeRepeat`.
pub ghost struct TsrV {
    pub typ: ValueType,
    pub sample_size: u8,
    pub repeat: u16,
}

/// Header bytes 5 to 8: type code, sample size, and big-endian repeat count.
#[derive(Debug, Clone, Copy)]
pub struct TypeSizeRepeat {
    pub typ: ValueType,
    /// Byte size of one sample; a sample may span several axes.
    pub sample_size: u8,
    /// Number of samples in the payload.
    pub repeat: u16,
}

impl View for TypeSizeRepeat {
    type V = TsrV;

    open spec fn view(&self) -> TsrV {
        TsrV { typ: self.typ, sample_size: self.sample_size, repeat: self.repeat }
    }
}

/// Elements per sample: `sample_size / element_width`, or 1 when the kind
/// has no fixed width.
pub open spec fn axis_count_of(t: TsrV) -> int {
    let e = spec_element_size(t.typ);
    if e == 0 {
        1
    } else {
        t.sample_size as int / e
    }
}

/// Total element count of a payload.
pub open spec fn count_of(t: TsrV) -> int {
    axis_count_of(t) * t.repeat
}

/// Declared payload length in bytes, before padding.
pub open spec fn payload_len(t: TsrV) -> int {
    t.sample_size * t.repeat
}

/// Bytes of payload the parser actually reads before padding: whole-payload
/// kinds read the declared length, element kinds read whole elements only.
pub open spec fn bytes_read_of(t: TsrV) -> int {
    match t.typ {
        ValueType::Ascii => payload_len(t),
        ValueType::DateTime => payload_len(t),
        ValueType::Complex => payload_len(t),
        ValueType::Nested => payload_len(t),
        _ => spec_element_size(t.typ) * count_of(t),
    }
}

/// Stream bytes one whole record spans: its header plus its padded payload.
pub open spec fn record_consumed(t: TsrV) -> int {
    8 + round4(bytes_read_of(t))
}

/// Reads bytes 5 to 8 of a header.
pub open spec fn spec_parse_tsr(data: Seq<u8>, pos: int) -> Result<TsrV, KlvError> {
    if pos + 1 > data.len() {
        Err(KlvError::UnexpectedEndOfStream)
    } else {
        match type_code_of(data[pos]) {
            None => Err(KlvError::UnknownTypeCode(data[pos])),
            Some(t) => if pos + 4 > data.len() {
                Err(KlvError::UnexpectedEndOfStream)
            } else {
                Ok(
                    TsrV {
                        typ: t,
                        sample_size: data[pos + 1],
                        repeat: be_u16(data, pos + 2) as u16,
                    },
                )
            },
        }
    }
}

impl TypeSizeRepeat {
    /// Reads exactly 4 bytes: type code, sample size, big-endian repeat.
    pub fn from_reader(data: &Vec<u8>, pos: &mut usize) -> (r: Result<TypeSizeRepeat, KlvError>)
        ensures
            match r {
                Ok(t) => spec_parse_tsr(data@, *old(pos) as int) == Ok::<TsrV, KlvError>(t@)
                    && *final(pos) == *old(pos) + 4 && *final(pos) <= data@.len(),
                Err(e) => spec_parse_tsr(data@, *old(pos) as int) == Err::<TsrV, KlvError>(e)
                    && *final(pos) == *old(pos),
            },
    {
        let mut p = *pos;
        let type_u8 = match read_u8(data, &mut p) {
            Some(b) => b,
            None => {
                return Err(KlvError::UnexpectedEndOfStream);
            },
        };
        let typ = match ValueType::from_u8(type_u8) {
            Ok(t) => t,
            Err(e) => {
                return Err(e);
            },
        };
        let sample_size = match read_u8(data, &mut p) {
            Some(b) => b,
            None => {
                return Err(KlvError::UnexpectedEndOfStream);
            },
        };
        let repeat = match read_u16_be(data, &mut p) {
            Some(v) => v,
            None => {
                return Err(KlvError::UnexpectedEndOfStream);
            },
        };
        *pos = p;
        Ok(TypeSizeRepeat { typ, sample_size, repeat })
    }

    pub fn typ(&self) -> (r: ValueType)
        ensures
            r == self@.typ,
    {
        self.typ
    }

    pub fn sample_size(&self) -> (r: u8)
        ensures
            r == self@.sample_size,
    {
        self.sample_size
    }

    pub fn repeat(&self) -> (r: u16)
        ensures
            r == self@.repeat,
    {
        self.repeat
    }

    /// Elements per sample; 1 when the kind has no fixed element width.
    pub fn axis_count(&self) -> (r: usize)
        ensures
            r == axis_count_of(self@),
    {
        let single_size = self.typ.element_size();
        if single_size == 0 {
            return 1;
        }
        (self.sample_size as usize) / single_size
    }
}

/// Ghost form of `Header`.
pub ghost struct HeaderV {
    pub fourcc: Seq<u8>,
    pub tsr: TsrV,
}

/// The 8-byte record header.
#[derive(Debug, Clone, Copy)]
pub struct Header {
    pub fourcc: Fourcc,
    pub tsr: TypeSizeRepeat,
}

impl View for Header {
    type V = HeaderV;

    open spec fn view(&self) -> HeaderV {
        HeaderV { fourcc: self.fourcc@, tsr: self.tsr@ }
    }
}

/// Reads one 8-byte header. The zero sentinel and a short read at the first
/// four bytes give `EndOfStream`; the rest of the header read is hard.
pub open spec fn spec_parse_header(data: Seq<u8>, pos: int) -> Result<HeaderV, KlvError> {
    if pos + 4 > data.len() {
        Err(KlvError::EndOfStream)
    } else if fourcc_is_zero(data, pos) {
        Err(KlvError::EndOfStream)
    } else {
        match spec_parse_tsr(data, pos + 4) {
            Err(e) => Err(e),
            Ok(t) => Ok(HeaderV { fourcc: data.subrange(pos, pos + 4), tsr: t }),
        }
    }
}

impl Header {
    /// Reads exactly 8 bytes.
    pub fn from_reader(data: &Vec<u8>, pos: &mut usize) -> (r: Result<Header, KlvError>)
        ensures
            match r {
                Ok(h) => spec_parse_header(data@, *old(pos) as int) == Ok::<HeaderV, KlvError>(h@)
                    && *final(pos) == *old(pos) + 8 && *final(pos) <= data@.len(),
                Err(e) => spec_parse_header(data@, *old(pos) as int) == Err::<HeaderV, KlvError>(e)
                    && *final(pos) == *old(pos),
            },
    {
        let mut p = *pos;
        let fourcc = match Fourcc::from_reader(data, &mut p) {
            Ok(f) => f,
            Err(e) => {
                return Err(e);
            },
        };
        let tsr = match TypeSizeRepeat::from_reader(data, &mut p) {
            Ok(t) => t,
            Err(e) => {
                return Err(e);
            },
        };
        *pos = p;
        Ok(Header { fourcc, tsr })
    }

    pub fn fourcc(&self) -> (r: Fourcc)
        ensures
            r@ == self@.fourcc,
    {
        self.fourcc
    }

    pub fn tsr(&self) -> (r: TypeSizeRepeat)
        ensures
            r@ == self@.tsr,
    {
        self.tsr
    }
}

/// An uninterpreted payload; a sibling `TYPE` record names its layout.
#[derive(Debug, Clone)]
pub struct ComplexValue {
    pub raw_data: Vec<u8>,
}

impl View for ComplexValue {
    type V = Seq<u8>;

    open spec fn view(&self) -> Seq<u8> {
        self.raw_data@
    }
}

impl ComplexValue {
    pub fn new(raw_data: Vec<u8>) -> (r: ComplexValue)
        ensures
            r@ == raw_data@,
    {
        ComplexValue { raw_data }
    }

    pub fn raw_data(&self) -> (r: &Vec<u8>)
        ensures
            r@ == self@,
    {
        &self.raw_data
    }
}

/// Ghost form of `Value`.
pub ghost enum ValueV {
    S8(Seq<i8>),
    U8(Seq<u8>),
    S32(Seq<i32>),
    U32(Seq<u32>),
    Ascii(Seq<char>),
    /// Raw IEEE-754 bit patterns, most significant byte first.
    F32(Seq<u32>),
    Fourcc(Seq<Seq<u8>>),
    U64(Seq<u64>),
    S16(Seq<i16>),
    U16(Seq<u16>),
    DateTime(DateTime),
    Complex(Seq<u8>),
    Nested(Seq<KlvV>),
}

/// Ghost form of `Klv`.
pub ghost struct KlvV {
    pub header: HeaderV,
    pub value: ValueV,
}

/// A record's decoded payload, tagged by its type code. `F32` holds the
/// big-endian bit patterns verbatim; interpreting them as floating point is
/// the caller's concern.
#[derive(Debug)]
pub enum Value {
    S8(Vec<i8>),
    U8(Vec<u8>),
    S32(Vec<i32>),
    U32(Vec<u32>),
    Ascii(String),
    F32(Vec<u32>),
    Fourcc(Vec<Fourcc>),
    U64(Vec<u64>),
    S16(Vec<i16>),
    U16(Vec<u16>),
    DateTime(DateTime),
    Complex(ComplexValue),
    Nested(Vec<Klv>),
}

/// One record: header plus decoded payload.
#[derive(Debug)]
pub struct Klv {
    pub header: Header,
    pub value: Value,
}

/// Ghost form of a sequence of FourCC payload entries.
pub open spec fn fourccs_view(s: Seq<Fourcc>) -> Seq<Seq<u8>> {
    Seq::new(s.len(), |i: int| s[i]@)
}

pub open spec fn value_view(v: Value) -> ValueV
    decreases v,
{
    match v {
        Value::S8(s) => ValueV::S8(s@),
        Value::U8(s) => ValueV::U8(s@),
        Value::S32(s) => ValueV::S32(s@),
        Value::U32(s) => ValueV::U32(s@),
        Value::Ascii(s) => ValueV::Ascii(s@),
        Value::F32(s) => ValueV::F32(s@),
        Value::Fourcc(s) => ValueV::Fourcc(fourccs_view(s@)),
        Value::U64(s) => ValueV::U64(s@),
        Value::S16(s) => ValueV::S16(s@),
        Value::U16(s) => ValueV::U16(s@),
        Value::DateTime(d) => ValueV::DateTime(d),
        Value::Complex(c) => ValueV::Complex(c@),
        Value::Nested(ks) => ValueV::Nested(klvs_view(ks@)),
    }
}

pub open spec fn klv_view(k: Klv) -> KlvV
    decreases k,
{
    KlvV { header: k.header@, value: value_view(k.value) }
}

pub open spec fn klvs_view(s: Seq<Klv>) -> Seq<KlvV>
    decreases s,
{
    if s.len() == 0 {
        Seq::empty()
    } else {
        seq![klv_view(s[0])] + klvs_view(s.drop_first())
    }
}

impl View for Klv {
    type V = KlvV;

    open spec fn view(&self) -> KlvV {
        klv_view(*self)
    }
}

impl Klv {
    pub fn header(&self) -> (r: Header)
        ensures
            r@ == self@.header,
    {
        self.header
    }

    pub fn value(&self) -> (r: &Value)
        ensures
            value_view(*r) == self@.value,
    {
        &self.value
    }

    pub fn into_value(self) -> (r: Value)
        ensures
            value_view(r) == self@.value,
    {
        self.value
    }
}

/// The ghost-level values a payload of each elementary kind decodes to.
pub open spec fn spec_read_i8s(data: Seq<u8>, pos: int, n: int) -> Seq<i8> {
    Seq::new(nat_of(n), |i: int| sign8(data[pos + i] as int) as i8)
}

pub open spec fn spec_read_u16s(data: Seq<u8>, pos: int, n: int) -> Seq<u16> {
    Seq::new(nat_of(n), |i: int| be_u16(data, pos + 2 * i) as u16)
}

pub open spec fn spec_read_i16s(data: Seq<u8>, pos: int, n: int) -> Seq<i16> {
    Seq::new(nat_of(n), |i: int| sign16(be_u16(data, pos + 2 * i)) as i16)
}

pub open spec fn spec_read_u32s(data: Seq<u8>, pos: int, n: int) -> Seq<u32> {
    Seq::new(nat_of(n), |i: int| be_u32(data, pos + 4 * i) as u32)
}

pub open spec fn spec_read_i32s(data: Seq<u8>, pos: int, n: int) -> Seq<i32> {
    Seq::new(nat_of(n), |i: int| sign32(be_u32(data, pos + 4 * i)) as i32)
}

pub open spec fn spec_read_u64s(data: Seq<u8>, pos: int, n: int) -> Seq<u64> {
    Seq::new(nat_of(n), |i: int| be_u64(data, pos + 8 * i) as u64)
}

pub open spec fn spec_read_fourccs(data: Seq<u8>, pos: int, n: int) -> Seq<Seq<u8>> {
    Seq::new(nat_of(n), |i: int| data.subrange(pos + 4 * i, pos + 4 * i + 4))
}

/// Reads one payload of the non-nested kinds, padding included.
/// `pos` points just past the record's header.
pub open spec fn spec_parse_flat_value(data: Seq<u8>, pos: int, t: TsrV) -> Result<
    (ValueV, int),
    KlvError,
> {
    let n = bytes_read_of(t);
    let cnt = count_of(t);
    if pos + round4(n) > data.len() {
        Err(KlvError::UnexpectedEndOfStream)
    } else {
        let vend = pos + round4(n);
        match t.typ {
            ValueType::S8 => Ok((ValueV::S8(spec_read_i8s(data, pos, cnt)), vend)),
            ValueType::U8 => Ok((ValueV::U8(data.subrange(pos, pos + cnt)), vend)),
            ValueType::S32 => Ok((ValueV::S32(spec_read_i32s(data, pos, cnt)), vend)),
            ValueType::U32 => Ok((ValueV::U32(spec_read_u32s(data, pos, cnt)), vend)),
            ValueType::Ascii => Ok((ValueV::Ascii(latin1_of(data.subrange(pos, pos + n))), vend)),
            ValueType::F32 => Ok((ValueV::F32(spec_read_u32s(data, pos, cnt)), vend)),
            ValueType::Fourcc => Ok((ValueV::Fourcc(spec_read_fourccs(data, pos, cnt)), vend)),
            ValueType::U64 => Ok((ValueV::U64(spec_read_u64s(data, pos, cnt)), vend)),
            ValueType::S16 => Ok((ValueV::S16(spec_read_i16s(data, pos, cnt)), vend)),
            ValueType::U16 => Ok((ValueV::U16(spec_read_u16s(data, pos, cnt)), vend)),
            ValueType::DateTime => {
                let s = data.subrange(pos, pos + n);
                if datetime_bytes_valid(s) {
                    Ok((ValueV::DateTime(datetime_of(s)), vend))
                } else {
                    Err(KlvError::InvalidDateTime)
                }
            },
            ValueType::Complex => Ok((ValueV::Complex(data.subrange(pos, pos + n)), vend)),
            ValueType::Nested => Err(KlvError::UnexpectedEndOfStream),
        }
    }
}

/// Reads one payload. For the nested kind the children must fill the padded
/// payload region exactly; stopping short of or overrunning the declared end
/// is corruption. `depth` is the remaining nesting budget.
pub open spec fn spec_parse_value(data: Seq<u8>, pos: int, t: TsrV, depth: nat) -> Result<
    (ValueV, int),
    KlvError,
>
    decreases depth, 0int, 0int,
{
    if t.typ is Nested {
        if depth == 0 {
            Err(KlvError::DepthExceeded)
        } else {
            let end = pos + round4(payload_len(t));
            match spec_parse_records(data, pos, end, (depth - 1) as nat) {
                Err(e) => Err(e),
                Ok((ks, p)) => if p == end {
                    Ok((ValueV::Nested(ks), p))
                } else {
                    Err(KlvError::UnexpectedEndOfStream)
                },
            }
        }
    } else {
        spec_parse_flat_value(data, pos, t)
    }
}

/// Reads records until the cursor reaches `end`. A record must start at
/// every position strictly before `end`.
pub open spec fn spec_parse_records(data: Seq<u8>, pos: int, end: int, depth: nat) -> Result<
    (Seq<KlvV>, int),
    KlvError,
>
    decreases depth, 1int, nat_of(data.len() - pos),
{
    if pos >= end {
        Ok((Seq::empty(), pos))
    } else {
        match spec_parse_header(data, pos) {
            Err(e) => Err(e),
            Ok(h) => match spec_parse_value(data, pos + 8, h.tsr, depth) {
                Err(e) => Err(e),
                Ok((v, p)) => {
                    if p <= pos || p > data.len() {
                        // A parsed record always advances the cursor and
                        // stays within the source; this arm is never taken.
                        Err(KlvError::UnexpectedEndOfStream)
                    } else {
                        match spec_parse_records(data, p, end, depth) {
                            Err(e) => Err(e),
                            Ok((rest, q)) => Ok(
                                (seq![KlvV { header: h, value: v }] + rest, q),
                            ),
                        }
                    }
                },
            },
        }
    }
}

/// Reads top-level records until the zero-FourCC sentinel (consumed, flag
/// `true`) or a clean end of the source at the first four header bytes
/// (flag `false`). Any other failure propagates.
pub open spec fn spec_parse_stream(data: Seq<u8>, pos: int, depth: nat) -> Result<
    (Seq<KlvV>, int, bool),
    KlvError,
>
    decreases nat_of(data.len() - pos),
{
    if pos + 4 > data.len() {
        Ok((Seq::empty(), pos, false))
    } else if fourcc_is_zero(data, pos) {
        Ok((Seq::empty(), pos + 4, true))
    } else {
        match spec_parse_header(data, pos) {
            Err(e) => Err(e),
            Ok(h) => match spec_parse_value(data, pos + 8, h.tsr, depth) {
                Err(e) => Err(e),
                Ok((v, p)) => {
                    if p <= pos || p > data.len() {
                        // Never taken: a parsed record advances the cursor
                        // and stays within the source.
                        Err(KlvError::UnexpectedEndOfStream)
                    } else {
                        match spec_parse_stream(data, p, depth) {
                            Err(e) => Err(e),
                            Ok((rest, q, sent)) => Ok(
                                (seq![KlvV { header: h, value: v }] + rest, q, sent),
                            ),
                        }
                    }
                },
            },
        }
    }
}


/// The element count of one record, `axis_count * repeat`, as a machine
/// integer; it is at most 255 * 65535.
fn count_exec(tsr: &TypeSizeRepeat) -> (r: usize)
    ensures
        r == count_of(tsr@),
        r <= 0xFF * 0xFFFF,
{
    let axis = tsr.axis_count();
    proof {
        assert(axis_count_of(tsr@) <= 255);
        assert(axis * tsr@.repeat <= 255 * 0xFFFF) by (nonlinear_arith)
            requires
                axis <= 255,
                tsr@.repeat <= 0xFFFF,
        ;
    }
    axis * (tsr.repeat as usize)
}

fn read_i8s(data: &Vec<u8>, pos: &mut usize, n: usize) -> (r: Option<Vec<i8>>)
    requires
        *old(pos) <= data@.len(),
    ensures
        match r {
            Some(v) => *old(pos) + n <= data@.len() && *final(pos) == *old(pos) + n && v@
                == spec_read_i8s(data@, *old(pos) as int, n as int),
            None => *old(pos) + n > data@.len(),
        },
{
    let mut out: Vec<i8> = Vec::new();
    let mut i: usize = 0;
    proof {
        assert(out@ =~= spec_read_i8s(data@, *old(pos) as int, 0));
    }
    while i < n
        invariant
            i <= n,
            *pos == *old(pos) + i,
            *pos <= data@.len(),
            out@ == spec_read_i8s(data@, *old(pos) as int, i as int),
        decreases n - i,
    {
        match read_i8(data, pos) {
            Some(v) => out.push(v),
            None => {
                return None;
            },
        }
        i = i + 1;
        proof {
            assert(out@ =~= spec_read_i8s(data@, *old(pos) as int, i as int));
        }
    }
    Some(out)
}

fn read_u16s(data: &Vec<u8>, pos: &mut usize, n: usize) -> (r: Option<Vec<u16>>)
    requires
        *old(pos) <= data@.len(),
    ensures
        match r {
            Some(v) => *old(pos) + 2 * n <= data@.len() && *final(pos) == *old(pos) + 2 * n && v@
                == spec_read_u16s(data@, *old(pos) as int, n as int),
            None => *old(pos) + 2 * n > data@.len(),
        },
{
    let mut out: Vec<u16> = Vec::new();
    let mut i: usize = 0;
    proof {
        assert(out@ =~= spec_read_u16s(data@, *old(pos) as int, 0));
    }
    while i < n
        invariant
            i <= n,
            *pos == *old(pos) + 2 * i,
            *pos <= data@.len(),
            out@ == spec_read_u16s(data@, *old(pos) as int, i as int),
        decreases n - i,
    {
        match read_u16_be(data, pos) {
            Some(v) => out.push(v),
            None => {
                return None;
            },
        }
        i = i + 1;
        proof {
            assert(out@ =~= spec_read_u16s(data@, *old(pos) as int, i as int));
        }
    }
    Some(out)
}

fn read_i16s(data: &Vec<u8>, pos: &mut usize, n: usize) -> (r: Option<Vec<i16>>)
    requires
        *old(pos) <= data@.len(),
    ensures
        match r {
            Some(v) => *old(pos) + 2 * n <= data@.len() && *final(pos) == *old(pos) + 2 * n && v@
                == spec_read_i16s(data@, *old(pos) as int, n as int),
            None => *old(pos) + 2 * n > data@.len(),
        },
{
    let mut out: Vec<i16> = Vec::new();
    let mut i: usize = 0;
    proof {
        assert(out@ =~= spec_read_i16s(data@, *old(pos) as int, 0));
    }
    while i < n
        invariant
            i <= n,
            *pos == *old(pos) + 2 * i,
            *pos <= data@.len(),
            out@ == spec_read_i16s(data@, *old(pos) as int, i as int),
        decreases n - i,
    {
        match read_i16_be(data, pos) {
            Some(v) => out.push(v),
            None => {
                return None;
            },
        }
        i = i + 1;
        proof {
            assert(out@ =~= spec_read_i16s(data@, *old(pos) as int, i as int));
        }
    }
    Some(out)
}

fn read_u32s(data: &Vec<u8>, pos: &mut usize, n: usize) -> (r: Option<Vec<u32>>)
    requires
        *old(pos) <= data@.len(),
    ensures
        match r {
            Some(v) => *old(pos) + 4 * n <= data@.len() && *final(pos) == *old(pos) + 4 * n && v@
                == spec_read_u32s(data@, *old(pos) as int, n as int),
            None => *old(pos) + 4 * n > data@.len(),
        },
{
    let mut out: Vec<u32> = Vec::new();
    let mut i: usize = 0;
    proof {
        assert(out@ =~= spec_read_u32s(data@, *old(pos) as int, 0));
    }
    while i < n
        invariant
            i <= n,
            *pos == *old(pos) + 4 * i,
            *pos <= data@.len(),
            out@ == spec_read_u32s(data@, *old(pos) as int, i as int),
        decreases n - i,
    {
        match read_u32_be(data, pos) {
            Some(v) => out.push(v),
            None => {
                return None;
            },
        }
        i = i + 1;
        proof {
            assert(out@ =~= spec_read_u32s(data@, *old(pos) as int, i as int));
        }
    }
    Some(out)
}

fn read_i32s(data: &Vec<u8>, pos: &mut usize, n: usize) -> (r: Option<Vec<i32>>)
    requires
        *old(pos) <= data@.len(),
    ensures
        match r {
            Some(v) => *old(pos) + 4 * n <= data@.len() && *final(pos) == *old(pos) + 4 * n && v@
                == spec_read_i32s(data@, *old(pos) as int, n as int),
            None => *old(pos) + 4 * n > data@.len(),
        },
{
    let mut out: Vec<i32> = Vec::new();
    let mut i: usize = 0;
    proof {
        assert(out@ =~= spec_read_i32s(data@, *old(pos) as int, 0));
    }
    while i < n
        invariant
            i <= n,
            *pos == *old(pos) + 4 * i,
            *pos <= data@.len(),
            out@ == spec_read_i32s(data@, *old(pos) as int, i as int),
        decreases n - i,
    {
        match read_i32_be(data, pos) {
            Some(v) => out.push(v),
            None => {
                return None;
            },
        }
        i = i + 1;
        proof {
            assert(out@ =~= spec_read_i32s(data@, *old(pos) as int, i as int));
        }
    }
    Some(out)
}

fn read_u64s(data: &Vec<u8>, pos: &mut usize, n: usize) -> (r: Option<Vec<u64>>)
    requires
        *old(pos) <= data@.len(),
    ensures
        match r {
            Some(v) => *old(pos) + 8 * n <= data@.len() && *final(pos) == *old(pos) + 8 * n && v@
                == spec_read_u64s(data@, *old(pos) as int, n as int),
            None => *old(pos) + 8 * n > data@.len(),
        },
{
    let mut out: Vec<u64> = Vec::new();
    let mut i: usize = 0;
    proof {
        assert(out@ =~= spec_read_u64s(data@, *old(pos) as int, 0));
    }
    while i < n
        invariant
            i <= n,
            *pos == *old(pos) + 8 * i,
            *pos <= data@.len(),
            out@ == spec_read_u64s(data@, *old(pos) as int, i as int),
        decreases n - i,
    {
        match read_u64_be(data, pos) {
            Some(v) => out.push(v),
            None => {
                return None;
            },
        }
        i = i + 1;
        proof {
            assert(out@ =~= spec_read_u64s(data@, *old(pos) as int, i as int));
        }
    }
    Some(out)
}

/// Reads `n` FourCC entries from a payload; unlike header tags, payload
/// entries may hold any bytes, the zero sentinel included.
fn read_fourccs(data: &Vec<u8>, pos: &mut usize, n: usize) -> (r: Option<Vec<Fourcc>>)
    requires
        *old(pos) <= data@.len(),
    ensures
        match r {
            Some(v) => *old(pos) + 4 * n <= data@.len() && *final(pos) == *old(pos) + 4 * n
                && fourccs_view(v@) == spec_read_fourccs(data@, *old(pos) as int, n as int),
            None => *old(pos) + 4 * n > data@.len(),
        },
{
    let mut out: Vec<Fourcc> = Vec::new();
    let mut i: usize = 0;
    proof {
        assert(fourccs_view(out@) =~~= spec_read_fourccs(data@, *old(pos) as int, 0));
    }
    while i < n
        invariant
            i <= n,
            *pos == *old(pos) + 4 * i,
            *pos <= data@.len(),
            out@.len() == i,
            fourccs_view(out@) == spec_read_fourccs(data@, *old(pos) as int, i as int),
        decreases n - i,
    {
        match read_bytes(data, pos, 4) {
            Some(v) => {
                let f = Fourcc([v[0], v[1], v[2], v[3]]);
                let ghost prev = out@;
                proof {
                    assert(f@ =~= v@);
                }
                out.push(f);
                i = i + 1;
                proof {
                    assert(out@ == prev.push(f));
                    assert forall|j: int| 0 <= j < i as int implies #[trigger] fourccs_view(out@)[j]
                        == spec_read_fourccs(data@, *old(pos) as int, i as int)[j] by {
                        if j < i as int - 1 {
                            assert(out@[j] == prev[j]);
                            assert(fourccs_view(prev)[j] == spec_read_fourccs(
                                data@,
                                *old(pos) as int,
                                i as int - 1,
                            )[j]);
                        } else {
                            assert(out@[j] == f);
                        }
                    }
                    assert(fourccs_view(out@) =~= spec_read_fourccs(
                        data@,
                        *old(pos) as int,
                        i as int,
                    ));
                }
            },
            None => {
                return None;
            },
        }
    }
    Some(out)
}

/// Sequence views commute with `push`.
pub proof fn lemma_klvs_view_push(s: Seq<Klv>, k: Klv)
    ensures
        klvs_view(s.push(k)) == klvs_view(s) + seq![klv_view(k)],
    decreases s,
{
    reveal_with_fuel(klvs_view, 3);
    if s.len() == 0 {
        assert(s.push(k).drop_first() =~= Seq::<Klv>::empty());
        assert(klvs_view(s.push(k)) =~= klvs_view(s) + seq![klv_view(k)]);
    } else {
        lemma_klvs_view_push(s.drop_first(), k);
        assert(s.push(k).drop_first() =~= s.drop_first().push(k));
        assert(klvs_view(s.push(k)) =~= klvs_view(s) + seq![klv_view(k)]);
    }
}

/// Sequence views keep length and map elements pointwise.
pub proof fn lemma_klvs_view_index(s: Seq<Klv>)
    ensures
        klvs_view(s).len() == s.len(),
        forall|i: int| 0 <= i < s.len() ==> klvs_view(s)[i] == klv_view(#[trigger] s[i]),
    decreases s,
{
    reveal_with_fuel(klvs_view, 2);
    if s.len() > 0 {
        lemma_klvs_view_index(s.drop_first());
        assert forall|i: int| 0 <= i < s.len() implies klvs_view(s)[i] == klv_view(
            #[trigger] s[i],
        ) by {
            if i > 0 {
                assert(s.drop_first()[i - 1] == s[i]);
                assert(klvs_view(s)[i] == klvs_view(s.drop_first())[i - 1]);
            }
        }
    }
}

/// Parsing a record region does not depend on where the region is declared
/// to end, once that end lies beyond the whole source.
proof fn lemma_records_end_beyond(data: Seq<u8>, pos: int, end1: int, end2: int, depth: nat)
    requires
        pos <= data.len(),
        end1 > data.len(),
        end2 > data.len(),
    ensures
        spec_parse_records(data, pos, end1, depth) == spec_parse_records(data, pos, end2, depth),
    decreases nat_of(data.len() - pos),
{
    match spec_parse_header(data, pos) {
        Err(_) => {},
        Ok(h) => {
            match spec_parse_value(data, pos + 8, h.tsr, depth) {
                Err(_) => {},
                Ok((v, p)) => {
                    if p > pos && p <= data.len() {
                        lemma_records_end_beyond(data, p, end1, end2, depth);
                    }
                },
            }
        },
    }
}


/// Payload lengths are small: the sizes never exceed `255 * 65535` bytes.
pub proof fn lemma_tsr_bounds(t: TsrV)
    ensures
        0 <= axis_count_of(t) <= 255,
        0 <= count_of(t) <= 0xFF * 0xFFFF,
        0 <= payload_len(t) <= 0xFF * 0xFFFF,
        0 <= bytes_read_of(t) <= 8 * 0xFF * 0xFFFF,
        8 <= record_consumed(t) <= 8 + round4((8 * 0xFF * 0xFFFF) as int),
{
    let e = spec_element_size(t.typ);
    let a = axis_count_of(t);
    assert(0 <= a <= 255);
    assert(0 <= a * t.repeat <= 255 * 0xFFFF) by (nonlinear_arith)
        requires
            0 <= a <= 255,
            0 <= t.repeat <= 0xFFFF,
    ;
    assert(0 <= t.sample_size * t.repeat <= 0xFF * 0xFFFF) by (nonlinear_arith)
        requires
            t.sample_size <= 0xFF,
            t.repeat <= 0xFFFF,
    ;
}

/// The declared payload length, `sample_size * repeat`, as a machine integer.
fn payload_exec(tsr: &TypeSizeRepeat) -> (r: usize)
    ensures
        r == payload_len(tsr@),
        r <= 0xFF * 0xFFFF,
{
    proof {
        lemma_tsr_bounds(tsr@);
    }
    (tsr.sample_size as usize) * (tsr.repeat as usize)
}

impl Value {
    /// Reads one record's payload, padding included; `pos` points just past
    /// the record's header. `depth` is the remaining nesting budget.
    pub fn from_reader(data: &Vec<u8>, pos: &mut usize, header: Header, depth: usize) -> (r:
        Result<Value, KlvError>)
        requires
            *old(pos) <= data@.len(),
            data@.len() < usize::MAX,
        ensures
            match r {
                Ok(v) => spec_parse_value(data@, *old(pos) as int, header@.tsr, depth as nat)
                    == Ok::<(ValueV, int), KlvError>((value_view(v), *final(pos) as int))
                    && *final(pos) <= data@.len() && *final(pos) == *old(pos) + round4(
                    bytes_read_of(header@.tsr),
                ),
                Err(e) => spec_parse_value(data@, *old(pos) as int, header@.tsr, depth as nat)
                    == Err::<(ValueV, int), KlvError>(e),
            },
        decreases depth, 0int,
    {
        let tsr = header.tsr;
        proof {
            lemma_tsr_bounds(tsr@);
        }
        match tsr.typ {
            ValueType::Nested => {
                if depth == 0 {
                    return Err(KlvError::DepthExceeded);
                }
                let payload: usize = payload_exec(&tsr);
                let padded: usize = payload + ((4 - payload % 4) % 4);
                let end: usize = if usize::MAX - *pos < padded {
                    usize::MAX
                } else {
                    *pos + padded
                };
                let ghost end_true: int = *pos + round4(payload_len(tsr@));
                proof {
                    if usize::MAX - *old(pos) < padded {
                        lemma_records_end_beyond(
                            data@,
                            *old(pos) as int,
                            end as int,
                            end_true,
                            (depth - 1) as nat,
                        );
                    }
                }
                let klvs = match parse_records(data, pos, end, depth - 1) {
                    Ok(ks) => ks,
                    Err(e) => {
                        return Err(e);
                    },
                };
                if *pos == end {
                    Ok(Value::Nested(klvs))
                } else {
                    Err(KlvError::UnexpectedEndOfStream)
                }
            },
            ValueType::Ascii => {
                let n: usize = payload_exec(&tsr);
                let bytes = match read_bytes(data, pos, n) {
                    Some(b) => b,
                    None => {
                        return Err(KlvError::UnexpectedEndOfStream);
                    },
                };
                if !skip_padding(data, pos, n) {
                    return Err(KlvError::UnexpectedEndOfStream);
                }
                Ok(Value::Ascii(latin1_to_string(&bytes)))
            },
            ValueType::DateTime => {
                let n: usize = payload_exec(&tsr);
                let bytes = match read_bytes(data, pos, n) {
                    Some(b) => b,
                    None => {
                        return Err(KlvError::UnexpectedEndOfStream);
                    },
                };
                if !skip_padding(data, pos, n) {
                    return Err(KlvError::UnexpectedEndOfStream);
                }
                match parse_datetime(&bytes) {
                    Ok(dt) => Ok(Value::DateTime(dt)),
                    Err(e) => Err(e),
                }
            },
            ValueType::Complex => {
                let n: usize = payload_exec(&tsr);
                let bytes = match read_bytes(data, pos, n) {
                    Some(b) => b,
                    None => {
                        return Err(KlvError::UnexpectedEndOfStream);
                    },
                };
                if !skip_padding(data, pos, n) {
                    return Err(KlvError::UnexpectedEndOfStream);
                }
                Ok(Value::Complex(ComplexValue::new(bytes)))
            },
            ValueType::U8 => {
                let cnt = count_exec(&tsr);
                let bytes = match read_bytes(data, pos, cnt) {
                    Some(b) => b,
                    None => {
                        return Err(KlvError::UnexpectedEndOfStream);
                    },
                };
                if !skip_padding(data, pos, cnt) {
                    return Err(KlvError::UnexpectedEndOfStream);
                }
                Ok(Value::U8(bytes))
            },
            ValueType::S8 => {
                let cnt = count_exec(&tsr);
                let vals = match read_i8s(data, pos, cnt) {
                    Some(v) => v,
                    None => {
                        return Err(KlvError::UnexpectedEndOfStream);
                    },
                };
                if !skip_padding(data, pos, cnt) {
                    return Err(KlvError::UnexpectedEndOfStream);
                }
                Ok(Value::S8(vals))
            },
            ValueType::U16 => {
                let cnt = count_exec(&tsr);
                let vals = match read_u16s(data, pos, cnt) {
                    Some(v) => v,
                    None => {
                        return Err(KlvError::UnexpectedEndOfStream);
                    },
                };
                if !skip_padding(data, pos, 2 * cnt) {
                    return Err(KlvError::UnexpectedEndOfStream);
                }
                Ok(Value::U16(vals))
            },
            ValueType::S16 => {
                let cnt = count_exec(&tsr);
                let vals = match read_i16s(data, pos, cnt) {
                    Some(v) => v,
                    None => {
                        return Err(KlvError::UnexpectedEndOfStream);
                    },
                };
                if !skip_padding(data, pos, 2 * cnt) {
                    return Err(KlvError::UnexpectedEndOfStream);
                }
                Ok(Value::S16(vals))
            },
            ValueType::U32 => {
                let cnt = count_exec(&tsr);
                let vals = match read_u32s(data, pos, cnt) {
                    Some(v) => v,
                    None => {
                        return Err(KlvError::UnexpectedEndOfStream);
                    },
                };
                if !skip_padding(data, pos, 4 * cnt) {
                    return Err(KlvError::UnexpectedEndOfStream);
                }
                Ok(Value::U32(vals))
            },
            ValueType::S32 => {
                let cnt = count_exec(&tsr);
                let vals = match read_i32s(data, pos, cnt) {
                    Some(v) => v,
                    None => {
                        return Err(KlvError::UnexpectedEndOfStream);
                    },
                };
                if !skip_padding(data, pos, 4 * cnt) {
                    return Err(KlvError::UnexpectedEndOfStream);
                }
                Ok(Value::S32(vals))
            },
            ValueType::F32 => {
                let cnt = count_exec(&tsr);
                let vals = match read_u32s(data, pos, cnt) {
                    Some(v) => v,
                    None => {
                        return Err(KlvError::UnexpectedEndOfStream);
                    },
                };
                if !skip_padding(data, pos, 4 * cnt) {
                    return Err(KlvError::UnexpectedEndOfStream);
                }
                Ok(Value::F32(vals))
            },
            ValueType::Fourcc => {
                let cnt = count_exec(&tsr);
                let vals = match read_fourccs(data, pos, cnt) {
                    Some(v) => v,
                    None => {
                        return Err(KlvError::UnexpectedEndOfStream);
                    },
                };
                if !skip_padding(data, pos, 4 * cnt) {
                    return Err(KlvError::UnexpectedEndOfStream);
                }
                Ok(Value::Fourcc(vals))
            },
            ValueType::U64 => {
                let cnt = count_exec(&tsr);
                let vals = match read_u64s(data, pos, cnt) {
                    Some(v) => v,
                    None => {
                        return Err(KlvError::UnexpectedEndOfStream);
                    },
                };
                if !skip_padding(data, pos, 8 * cnt) {
                    return Err(KlvError::UnexpectedEndOfStream);
                }
                Ok(Value::U64(vals))
            },
        }
    }
}

/// The record list a successful region parse yields; empty on failure.
pub open spec fn spec_parse_records_rest(data: Seq<u8>, pos: int, end: int, depth: nat) -> Seq<
    KlvV,
> {
    match spec_parse_records(data, pos, end, depth) {
        Ok(t) => t.0,
        Err(_) => Seq::empty(),
    }
}

/// Reads records until the cursor reaches `end`; used for the payload of a
/// nested record.
fn parse_records(data: &Vec<u8>, pos: &mut usize, end: usize, depth: usize) -> (r: Result<
    Vec<Klv>,
    KlvError,
>)
    requires
        *old(pos) <= data@.len(),
        data@.len() < usize::MAX,
    ensures
        match r {
            Ok(ks) => spec_parse_records(data@, *old(pos) as int, end as int, depth as nat)
                == Ok::<(Seq<KlvV>, int), KlvError>((klvs_view(ks@), *final(pos) as int))
                && *final(pos) <= data@.len(),
            Err(e) => spec_parse_records(data@, *old(pos) as int, end as int, depth as nat)
                == Err::<(Seq<KlvV>, int), KlvError>(e),
        },
    decreases depth, 1int,
{
    let ghost pos0: int = *pos as int;
    let mut klvs: Vec<Klv> = Vec::new();
    while *pos < end
        invariant
            pos0 == *old(pos) as int,
            *pos <= data@.len(),
            data@.len() < usize::MAX,
            match spec_parse_records(data@, *pos as int, end as int, depth as nat) {
                Ok(t) => spec_parse_records(data@, pos0, end as int, depth as nat) == Ok::<
                    (Seq<KlvV>, int),
                    KlvError,
                >((klvs_view(klvs@) + t.0, t.1)),
                Err(e) => spec_parse_records(data@, pos0, end as int, depth as nat) == Err::<
                    (Seq<KlvV>, int),
                    KlvError,
                >(e),
            },
        decreases nat_of(end - *pos),
    {
        let ghost pos_it: int = *pos as int;
        let header = match Header::from_reader(data, pos) {
            Ok(h) => h,
            Err(e) => {
                proof {
                    assert(spec_parse_records(data@, pos_it, end as int, depth as nat)
                        == Err::<(Seq<KlvV>, int), KlvError>(e));
                }
                return Err(e);
            },
        };
        let value = match Value::from_reader(data, pos, header, depth) {
            Ok(v) => v,
            Err(e) => {
                proof {
                    assert(spec_parse_records(data@, pos_it, end as int, depth as nat)
                        == Err::<(Seq<KlvV>, int), KlvError>(e));
                }
                return Err(e);
            },
        };
        let k = Klv { header, value };
        proof {
            lemma_tsr_bounds(header@.tsr);
            assert(*pos as int == pos_it + 8 + round4(bytes_read_of(header@.tsr)));
            assert(pos_it < *pos as int <= data@.len());
            assert(spec_parse_records(data@, pos_it, end as int, depth as nat) == (match
                spec_parse_records(data@, *pos as int, end as int, depth as nat) {
                Ok(t) => Ok::<(Seq<KlvV>, int), KlvError>(
                    (seq![klv_view(k)] + t.0, t.1),
                ),
                Err(e) => Err::<(Seq<KlvV>, int), KlvError>(e),
            }));
            lemma_klvs_view_push(klvs@, k);
            assert((klvs_view(klvs@) + seq![klv_view(k)]) + spec_parse_records_rest(
                data@,
                *pos as int,
                end as int,
                depth as nat,
            ) =~= klvs_view(klvs@) + (seq![klv_view(k)] + spec_parse_records_rest(
                data@,
                *pos as int,
                end as int,
                depth as nat,
            )));
        }
        klvs.push(k);
    }
    proof {
        assert(spec_parse_records(data@, *pos as int, end as int, depth as nat) == Ok::<
            (Seq<KlvV>, int),
            KlvError,
        >((Seq::empty(), *pos as int)));
        assert(klvs_view(klvs@) + Seq::<KlvV>::empty() =~= klvs_view(klvs@));
    }
    Ok(klvs)
}

/// The record list a successful top-level parse yields; empty on failure.
pub open spec fn spec_parse_stream_rest(data: Seq<u8>, pos: int, depth: nat) -> Seq<KlvV> {
    match spec_parse_stream(data, pos, depth) {
        Ok(t) => t.0,
        Err(_) => Seq::empty(),
    }
}

impl Klv {
    /// Parses a whole payload: records until the zero-FourCC sentinel or a
    /// clean end of the source. The nesting budget is `MAX_NESTING_DEPTH`.
    pub fn from_reader(data: &Vec<u8>) -> (r: Result<Vec<Klv>, KlvError>)
        requires
            data@.len() < usize::MAX,
        ensures
            match r {
                Ok(ks) => spec_parse_stream(data@, 0, MAX_NESTING_DEPTH as nat) matches Ok(t)
                    && t.0 == klvs_view(ks@),
                Err(e) => spec_parse_stream(data@, 0, MAX_NESTING_DEPTH as nat) == Err::<
                    (Seq<KlvV>, int, bool),
                    KlvError,
                >(e),
            },
    {
        let mut pos: usize = 0;
        let mut klvs: Vec<Klv> = Vec::new();
        loop
            invariant
                pos <= data@.len(),
                data@.len() < usize::MAX,
                match spec_parse_stream(data@, pos as int, MAX_NESTING_DEPTH as nat) {
                    Ok(t) => spec_parse_stream(data@, 0, MAX_NESTING_DEPTH as nat) == Ok::<
                        (Seq<KlvV>, int, bool),
                        KlvError,
                    >((klvs_view(klvs@) + t.0, t.1, t.2)),
                    Err(e) => spec_parse_stream(data@, 0, MAX_NESTING_DEPTH as nat) == Err::<
                        (Seq<KlvV>, int, bool),
                        KlvError,
                    >(e),
                },
            decreases data@.len() - pos,
        {
            if data.len() - pos < 4 {
                proof {
                    assert(klvs_view(klvs@) + Seq::<KlvV>::empty() =~= klvs_view(klvs@));
                }
                return Ok(klvs);
            }
            if data[pos] == 0 && data[pos + 1] == 0 && data[pos + 2] == 0 && data[pos + 3] == 0 {
                proof {
                    assert(klvs_view(klvs@) + Seq::<KlvV>::empty() =~= klvs_view(klvs@));
                }
                return Ok(klvs);
            }
            let ghost pos_it: int = pos as int;
            let header = match Header::from_reader(data, &mut pos) {
                Ok(h) => h,
                Err(e) => {
                    proof {
                        assert(spec_parse_stream(data@, pos_it, MAX_NESTING_DEPTH as nat)
                            == Err::<(Seq<KlvV>, int, bool), KlvError>(e));
                    }
                    return Err(e);
                },
            };
            let value = match Value::from_reader(data, &mut pos, header, MAX_NESTING_DEPTH) {
                Ok(v) => v,
                Err(e) => {
                    proof {
                        assert(spec_parse_stream(data@, pos_it, MAX_NESTING_DEPTH as nat)
                            == Err::<(Seq<KlvV>, int, bool), KlvError>(e));
                    }
                    return Err(e);
                },
            };
            let k = Klv { header, value };
            proof {
                lemma_tsr_bounds(header@.tsr);
                assert(pos as int == pos_it + 8 + round4(bytes_read_of(header@.tsr)));
                assert(pos_it < pos as int <= data@.len());
                assert(spec_parse_stream(data@, pos_it, MAX_NESTING_DEPTH as nat) == (match
                    spec_parse_stream(data@, pos as int, MAX_NESTING_DEPTH as nat) {
                    Ok(t) => Ok::<(Seq<KlvV>, int, bool), KlvError>(
                        (seq![klv_view(k)] + t.0, t.1, t.2),
                    ),
                    Err(e) => Err::<(Seq<KlvV>, int, bool), KlvError>(e),
                }));
                lemma_klvs_view_push(klvs@, k);
                assert((klvs_view(klvs@) + seq![klv_view(k)]) + spec_parse_stream_rest(
                    data@,
                    pos as int,
                    MAX_NESTING_DEPTH as nat,
                ) =~= klvs_view(klvs@) + (seq![klv_view(k)] + spec_parse_stream_rest(
                    data@,
                    pos as int,
                    MAX_NESTING_DEPTH as nat,
                )));
            }
            klvs.push(k);
        }
    }
}

} // verus!
