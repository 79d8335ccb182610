//! Global properties of the parser: how many bytes a parse consumes, that
//! nested children tile their region exactly, determinism, that trailing
//! bytes after the sentinel cannot change a parse, payload geometry, and
//! the empty-payload boundary cases.

use vstd::prelude::*;

verus! {

use crate::{round4, nat_of};
use crate::klv::{
    KlvV,
    TsrV,
    ValueType,
    ValueV,
    KlvError,
    spec_parse_header,
    spec_parse_value,
    spec_parse_records,
    spec_parse_stream,
    spec_element_size,
    axis_count_of,
    count_of,
    payload_len,
    bytes_read_of,
    record_consumed,
    lemma_tsr_bounds,
    fourcc_is_zero,
};

/// Stream bytes a record list spans: for each record its header plus its
/// padded payload.
pub open spec fn records_len(ks: Seq<KlvV>) -> int
    decreases ks.len(),
{
    if ks.len() == 0 {
        0
    } else {
        record_consumed(ks[0].header.tsr) + records_len(ks.drop_first())
    }
}

pub proof fn lemma_records_len_nonneg(ks: Seq<KlvV>)
    ensures
        records_len(ks) >= 0,
    decreases ks.len(),
{
    if ks.len() > 0 {
        lemma_tsr_bounds(ks[0].header.tsr);
        lemma_records_len_nonneg(ks.drop_first());
    }
}

/// A parsed payload ends exactly where the header said it would: at
/// `round_up_4(bytes_read)` bytes past its start.
pub proof fn lemma_value_consumed(data: Seq<u8>, pos: int, t: TsrV, depth: nat)
    ensures
        spec_parse_value(data, pos, t, depth) matches Ok(r) ==> r.1 == pos + round4(
            bytes_read_of(t),
        ),
{
}

/// A region parse consumes exactly the summed spans of the records it
/// yields.
pub proof fn lemma_records_consumed(data: Seq<u8>, pos: int, end: int, depth: nat)
    ensures
        spec_parse_records(data, pos, end, depth) matches Ok(r) ==> r.1 - pos == records_len(r.0),
    decreases nat_of(data.len() - pos),
{
    if pos >= end {
        assert(records_len(Seq::<KlvV>::empty()) == 0);
    } else {
        match spec_parse_header(data, pos) {
            Err(_) => {},
            Ok(h) => {
                match spec_parse_value(data, pos + 8, h.tsr, depth) {
                    Err(_) => {},
                    Ok((v, p1)) => {
                        if p1 > pos && p1 <= data.len() {
                            lemma_value_consumed(data, pos + 8, h.tsr, depth);
                            lemma_records_consumed(data, p1, end, depth);
                            match spec_parse_records(data, p1, end, depth) {
                                Err(_) => {},
                                Ok((rest, _)) => {
                                    let ks = seq![KlvV { header: h, value: v }] + rest;
                                    assert(ks.drop_first() =~= rest);
                                    assert(records_len(ks) == record_consumed(h.tsr)
                                        + records_len(rest));
                                },
                            }
                        }
                    },
                }
            },
        }
    }
}

/// The children of a parsed nested record fully tile its padded payload
/// region: their spans sum to exactly `round_up_4(sample_size * repeat)`.
pub proof fn lemma_nested_children_tile(data: Seq<u8>, pos: int, t: TsrV, depth: nat)
    requires
        t.typ is Nested,
    ensures
        spec_parse_value(data, pos, t, depth) matches Ok(r) ==> {
            &&& r.0 matches ValueV::Nested(ks)
            &&& (r.0 matches ValueV::Nested(ks) ==> records_len(ks) == round4(payload_len(t)))
            &&& r.1 == pos + round4(payload_len(t))
        },
{
    if depth > 0 {
        lemma_records_consumed(data, pos, pos + round4(payload_len(t)), (depth - 1) as nat);
    }
}

/// A top-level parse consumes exactly the summed spans of its records,
/// plus the four sentinel bytes when one ended it.
pub proof fn lemma_stream_consumes(data: Seq<u8>, pos: int, depth: nat)
    ensures
        spec_parse_stream(data, pos, depth) matches Ok(t) ==> t.1 - pos == records_len(t.0) + (
        if t.2 {
            4int
        } else {
            0int
        }),
    decreases nat_of(data.len() - pos),
{
    if pos + 4 > data.len() {
        assert(records_len(Seq::<KlvV>::empty()) == 0);
    } else if fourcc_is_zero(data, pos) {
        assert(records_len(Seq::<KlvV>::empty()) == 0);
    } else {
        match spec_parse_header(data, pos) {
            Err(_) => {},
            Ok(h) => {
                match spec_parse_value(data, pos + 8, h.tsr, depth) {
                    Err(_) => {},
                    Ok((v, p1)) => {
                        if p1 > pos && p1 <= data.len() {
                            lemma_value_consumed(data, pos + 8, h.tsr, depth);
                            lemma_stream_consumes(data, p1, depth);
                            match spec_parse_stream(data, p1, depth) {
                                Err(_) => {},
                                Ok((rest, _, _)) => {
                                    let ks = seq![KlvV { header: h, value: v }] + rest;
                                    assert(ks.drop_first() =~= rest);
                                    assert(records_len(ks) == record_consumed(h.tsr)
                                        + records_len(rest));
                                },
                            }
                        }
                    },
                }
            },
        }
    }
}

/// Every position a successful parse returns lies within the source.
pub proof fn lemma_stream_bounded(data: Seq<u8>, pos: int, depth: nat)
    requires
        0 <= pos <= data.len(),
    ensures
        spec_parse_stream(data, pos, depth) matches Ok(t) ==> pos <= t.1 <= data.len(),
    decreases nat_of(data.len() - pos),
{
    if pos + 4 > data.len() {
    } else if fourcc_is_zero(data, pos) {
    } else {
        match spec_parse_header(data, pos) {
            Err(_) => {},
            Ok(h) => {
                match spec_parse_value(data, pos + 8, h.tsr, depth) {
                    Err(_) => {},
                    Ok((v, p1)) => {
                        if p1 > pos && p1 <= data.len() {
                            lemma_stream_bounded(data, p1, depth);
                        }
                    },
                }
            },
        }
    }
}

/// Parsing is deterministic: equal bytes always yield the same record tree
/// and the same failure.
pub proof fn lemma_parse_deterministic(data1: Seq<u8>, data2: Seq<u8>, depth: nat)
    requires
        data1 == data2,
    ensures
        spec_parse_stream(data1, 0, depth) == spec_parse_stream(data2, 0, depth),
{
}

/// Bytes equal on a range are equal pointwise.
proof fn lemma_bytes_agree(d1: Seq<u8>, d2: Seq<u8>, pos: int, p: int)
    requires
        0 <= pos <= p,
        p <= d1.len(),
        p <= d2.len(),
        d2.subrange(pos, p) == d1.subrange(pos, p),
    ensures
        forall|x: int| pos <= x < p ==> d1[x] == d2[x],
{
    assert forall|x: int| pos <= x < p implies d1[x] == d2[x] by {
        assert(d1.subrange(pos, p)[x - pos] == d1[x]);
        assert(d2.subrange(pos, p)[x - pos] == d2[x]);
    }
}

/// An 8-byte header parse depends only on those eight bytes.
proof fn lemma_header_local(d1: Seq<u8>, d2: Seq<u8>, pos: int, h: KlvV)
    requires
        0 <= pos,
        spec_parse_header(d1, pos) == Ok::<crate::klv::HeaderV, KlvError>(h.header),
        pos + 8 <= d2.len(),
        d2.subrange(pos, pos + 8) == d1.subrange(pos, pos + 8),
    ensures
        spec_parse_header(d2, pos) == Ok::<crate::klv::HeaderV, KlvError>(h.header),
{
    lemma_bytes_agree(d1, d2, pos, pos + 8);
    assert(d2.subrange(pos, pos + 4) =~= d1.subrange(pos, pos + 4));
}

/// A payload parse that succeeds depends only on the bytes it consumed.
#[verifier::rlimit(100)]
proof fn lemma_value_local(
    d1: Seq<u8>,
    d2: Seq<u8>,
    pos: int,
    t: TsrV,
    depth: nat,
    v: ValueV,
    p: int,
)
    requires
        0 <= pos <= p,
        p <= d1.len(),
        spec_parse_value(d1, pos, t, depth) == Ok::<(ValueV, int), KlvError>((v, p)),
        p <= d2.len(),
        d2.subrange(pos, p) == d1.subrange(pos, p),
    ensures
        spec_parse_value(d2, pos, t, depth) == Ok::<(ValueV, int), KlvError>((v, p)),
    decreases depth, 0int, 0int,
{
    lemma_bytes_agree(d1, d2, pos, p);
    lemma_tsr_bounds(t);
    if t.typ is Nested {
        let end = pos + round4(payload_len(t));
        match spec_parse_records(d1, pos, end, (depth - 1) as nat) {
            Err(_) => {},
            Ok((ks, p1)) => {
                lemma_records_local(d1, d2, pos, end, (depth - 1) as nat, ks, p1);
            },
        }
    } else {
        let n = bytes_read_of(t);
        assert(pos + round4(n) == p);
        assert(d2.subrange(pos, pos + n) =~= d1.subrange(pos, pos + n));
        let cnt = count_of(t);
        match t.typ {
            ValueType::S8 => {
                assert(crate::klv::spec_read_i8s(d2, pos, cnt) =~= crate::klv::spec_read_i8s(
                    d1,
                    pos,
                    cnt,
                ));
            },
            ValueType::U8 => {
                assert(d2.subrange(pos, pos + cnt) =~= d1.subrange(pos, pos + cnt));
            },
            ValueType::S16 => {
                assert(crate::klv::spec_read_i16s(d2, pos, cnt) =~= crate::klv::spec_read_i16s(
                    d1,
                    pos,
                    cnt,
                ));
            },
            ValueType::U16 => {
                assert(crate::klv::spec_read_u16s(d2, pos, cnt) =~= crate::klv::spec_read_u16s(
                    d1,
                    pos,
                    cnt,
                ));
            },
            ValueType::S32 => {
                assert(crate::klv::spec_read_i32s(d2, pos, cnt) =~= crate::klv::spec_read_i32s(
                    d1,
                    pos,
                    cnt,
                ));
            },
            ValueType::U32 => {
                assert(crate::klv::spec_read_u32s(d2, pos, cnt) =~= crate::klv::spec_read_u32s(
                    d1,
                    pos,
                    cnt,
                ));
            },
            ValueType::F32 => {
                assert(crate::klv::spec_read_u32s(d2, pos, cnt) =~= crate::klv::spec_read_u32s(
                    d1,
                    pos,
                    cnt,
                ));
            },
            ValueType::U64 => {
                assert(crate::klv::spec_read_u64s(d2, pos, cnt) =~= crate::klv::spec_read_u64s(
                    d1,
                    pos,
                    cnt,
                ));
            },
            ValueType::Fourcc => {
                assert(crate::klv::spec_read_fourccs(d2, pos, cnt)
                    =~~= crate::klv::spec_read_fourccs(d1, pos, cnt));
            },
            _ => {},
        }
    }
}

/// A region parse that succeeds depends only on the bytes it consumed.
#[verifier::rlimit(100)]
proof fn lemma_records_local(
    d1: Seq<u8>,
    d2: Seq<u8>,
    pos: int,
    end: int,
    depth: nat,
    ks: Seq<KlvV>,
    p: int,
)
    requires
        0 <= pos,
        p <= d1.len(),
        spec_parse_records(d1, pos, end, depth) == Ok::<(Seq<KlvV>, int), KlvError>((ks, p)),
        p <= d2.len(),
        d2.subrange(pos, p) == d1.subrange(pos, p),
    ensures
        spec_parse_records(d2, pos, end, depth) == Ok::<(Seq<KlvV>, int), KlvError>((ks, p)),
    decreases depth, 1int, nat_of(d1.len() - pos),
{
    lemma_records_consumed(d1, pos, end, depth);
    lemma_records_len_nonneg(ks);
    lemma_bytes_agree(d1, d2, pos, p);
    if pos >= end {
    } else {
        match spec_parse_header(d1, pos) {
            Err(_) => {},
            Ok(h) => {
                match spec_parse_value(d1, pos + 8, h.tsr, depth) {
                    Err(_) => {},
                    Ok((v, p1)) => {
                        if p1 > pos && p1 <= d1.len() {
                            match spec_parse_records(d1, p1, end, depth) {
                                Err(_) => {},
                                Ok((rest, _)) => {
                                    lemma_tsr_bounds(h.tsr);
                                    lemma_value_consumed(d1, pos + 8, h.tsr, depth);
                                    lemma_records_consumed(d1, p1, end, depth);
                                    lemma_records_len_nonneg(rest);
                                    assert(pos + 8 <= p1 <= p);
                                    assert(d2.subrange(pos, pos + 8) =~= d1.subrange(
                                        pos,
                                        pos + 8,
                                    ));
                                    lemma_header_local(
                                        d1,
                                        d2,
                                        pos,
                                        KlvV { header: h, value: v },
                                    );
                                    assert(d2.subrange(pos + 8, p1) =~= d1.subrange(pos + 8, p1));
                                    lemma_value_local(d1, d2, pos + 8, h.tsr, depth, v, p1);
                                    assert(d2.subrange(p1, p) =~= d1.subrange(p1, p));
                                    lemma_records_local(d1, d2, p1, end, depth, rest, p);
                                },
                            }
                        }
                    },
                }
            },
        }
    }
}

/// A sentinel-terminated top-level parse depends only on the bytes up to
/// and including the sentinel.
#[verifier::rlimit(100)]
proof fn lemma_stream_local(
    d1: Seq<u8>,
    d2: Seq<u8>,
    pos: int,
    depth: nat,
    ks: Seq<KlvV>,
    p: int,
)
    requires
        0 <= pos,
        p <= d1.len(),
        spec_parse_stream(d1, pos, depth) == Ok::<(Seq<KlvV>, int, bool), KlvError>((ks, p, true)),
        p <= d2.len(),
        d2.subrange(pos, p) == d1.subrange(pos, p),
    ensures
        spec_parse_stream(d2, pos, depth) == Ok::<(Seq<KlvV>, int, bool), KlvError>((ks, p, true)),
    decreases nat_of(d1.len() - pos),
{
    lemma_stream_consumes(d1, pos, depth);
    lemma_records_len_nonneg(ks);
    lemma_bytes_agree(d1, d2, pos, p);
    if pos + 4 > d1.len() {
    } else if fourcc_is_zero(d1, pos) {
        assert(p == pos + 4);
        assert(fourcc_is_zero(d2, pos));
    } else {
        match spec_parse_header(d1, pos) {
            Err(_) => {},
            Ok(h) => {
                match spec_parse_value(d1, pos + 8, h.tsr, depth) {
                    Err(_) => {},
                    Ok((v, p1)) => {
                        if p1 > pos && p1 <= d1.len() {
                            match spec_parse_stream(d1, p1, depth) {
                                Err(_) => {},
                                Ok((rest, _, _)) => {
                                    lemma_tsr_bounds(h.tsr);
                                    lemma_value_consumed(d1, pos + 8, h.tsr, depth);
                                    lemma_stream_consumes(d1, p1, depth);
                                    lemma_records_len_nonneg(rest);
                                    assert(pos + 8 <= p1 <= p);
                                    assert(d2.subrange(pos, pos + 8) =~= d1.subrange(
                                        pos,
                                        pos + 8,
                                    ));
                                    lemma_header_local(
                                        d1,
                                        d2,
                                        pos,
                                        KlvV { header: h, value: v },
                                    );
                                    assert(d2.subrange(pos + 8, p1) =~= d1.subrange(pos + 8, p1));
                                    lemma_value_local(d1, d2, pos + 8, h.tsr, depth, v, p1);
                                    assert(d2.subrange(p1, p) =~= d1.subrange(p1, p));
                                    lemma_stream_local(d1, d2, p1, depth, rest, p);
                                },
                            }
                        }
                    },
                }
            },
        }
    }
}

/// A zero-FourCC sentinel shields a stream from whatever follows it:
/// appending arbitrary trailing bytes to a sentinel-terminated stream
/// leaves the parse, record list and all, unchanged.
pub proof fn lemma_sentinel_ignores_trailing(data: Seq<u8>, tail: Seq<u8>, depth: nat)
    requires
        spec_parse_stream(data, 0, depth) matches Ok(t) && t.2,
    ensures
        spec_parse_stream(data + tail, 0, depth) == spec_parse_stream(data, 0, depth),
{
    let t = spec_parse_stream(data, 0, depth)->Ok_0;
    lemma_stream_bounded(data, 0, depth);
    assert((data + tail).subrange(0, t.1) =~= data.subrange(0, t.1));
    lemma_stream_local(data, data + tail, 0, depth, t.0, t.1);
}

/// For an element kind whose width divides the sample size, the elements
/// account for the whole declared payload:
/// `axis_count * repeat * element_width == sample_size * repeat`.
pub proof fn lemma_numeric_geometry(t: TsrV)
    requires
        spec_element_size(t.typ) > 0,
        t.sample_size as int % spec_element_size(t.typ) == 0,
    ensures
        count_of(t) * spec_element_size(t.typ) == payload_len(t),
{
    let e = spec_element_size(t.typ);
    let a = axis_count_of(t);
    assert(a * e == t.sample_size) by (nonlinear_arith)
        requires
            e > 0,
            a == t.sample_size as int / e,
            t.sample_size as int % e == 0,
    ;
    assert((a * t.repeat) * e == t.sample_size * t.repeat) by (nonlinear_arith)
        requires
            a * e == t.sample_size,
    ;
}

/// Whether a decoded payload holds nothing.
pub open spec fn value_is_empty(v: ValueV) -> bool {
    match v {
        ValueV::S8(s) => s.len() == 0,
        ValueV::U8(s) => s.len() == 0,
        ValueV::S32(s) => s.len() == 0,
        ValueV::U32(s) => s.len() == 0,
        ValueV::Ascii(s) => s.len() == 0,
        ValueV::F32(s) => s.len() == 0,
        ValueV::Fourcc(s) => s.len() == 0,
        ValueV::U64(s) => s.len() == 0,
        ValueV::S16(s) => s.len() == 0,
        ValueV::U16(s) => s.len() == 0,
        ValueV::DateTime(_) => false,
        ValueV::Complex(s) => s.len() == 0,
        ValueV::Nested(ks) => ks.len() == 0,
    }
}

/// A repeat of 0 yields an empty value, no payload bytes, and no padding.
/// The datetime kind is the one exception: its empty payload cannot match
/// the datetime pattern, so it fails instead.
pub proof fn lemma_repeat_zero(data: Seq<u8>, pos: int, t: TsrV, depth: nat)
    requires
        t.repeat == 0,
        0 <= pos <= data.len(),
        t.typ is Nested ==> depth > 0,
        !(t.typ is DateTime),
    ensures
        spec_parse_value(data, pos, t, depth) matches Ok(r) && r.1 == pos && value_is_empty(r.0),
{
    lemma_tsr_bounds(t);
    assert(count_of(t) == 0) by (nonlinear_arith)
        requires
            count_of(t) == axis_count_of(t) * t.repeat,
            t.repeat == 0,
    ;
    assert(payload_len(t) == 0);
    assert(bytes_read_of(t) == 0) by {
        if !(t.typ is Ascii || t.typ is DateTime || t.typ is Complex || t.typ is Nested) {
            assert(bytes_read_of(t) == spec_element_size(t.typ) * count_of(t));
            assert(spec_element_size(t.typ) * 0 == 0) by (nonlinear_arith);
        }
    }
    if t.typ is Nested {
        assert(spec_parse_records(data, pos, pos, (depth - 1) as nat) == Ok::<
            (Seq<KlvV>, int),
            KlvError,
        >((Seq::empty(), pos)));
    }
}

/// A sample size of 0 with the nested or the opaque kind yields an empty
/// container or an empty blob, whatever the repeat count says.
pub proof fn lemma_sample_size_zero(data: Seq<u8>, pos: int, t: TsrV, depth: nat)
    requires
        t.sample_size == 0,
        t.typ is Nested || t.typ is Complex,
        0 <= pos <= data.len(),
        t.typ is Nested ==> depth > 0,
    ensures
        spec_parse_value(data, pos, t, depth) matches Ok(r) && r.1 == pos && value_is_empty(r.0),
{
    lemma_tsr_bounds(t);
    assert(payload_len(t) == 0) by (nonlinear_arith)
        requires
            payload_len(t) == t.sample_size * t.repeat,
            t.sample_size == 0,
    ;
    if t.typ is Nested {
        assert(spec_parse_records(data, pos, pos, (depth - 1) as nat) == Ok::<
            (Seq<KlvV>, int),
            KlvError,
        >((Seq::empty(), pos)));
    } else {
        assert(data.subrange(pos, pos).len() == 0);
    }
}

} // verus!
