//! GPS9 projector: walks a `DEVC` subtree, selects the first `STRM` child
//! whose children include a `GPS9` record, validates the sibling `TYPE`
//! descriptor and the nine `SCAL` divisors, and decodes the first sample's
//! nine raw big-endian integer fields.
//!
//! Scaling the raw fields into floating-point fixes is left to the caller:
//! each field divided by the matching `SCAL` divisor, the final `fix`
//! truncated to an unsigned integer.

use vstd::prelude::*;

verus! {

use crate::bytes::{be_u16, be_u32, sign32, read_u16_be, read_i32_be};
use crate::klv::{
    Klv,
    KlvV,
    KlvError,
    Value,
    ValueV,
    klv_view,
    klvs_view,
    lemma_klvs_view_index,
};

/// Ghost form of `Gps9`.
pub ghost struct Gps9V {
    pub latitude_raw: i32,
    pub longitude_raw: i32,
    pub altitude_raw: i32,
    pub speed_2d_raw: i32,
    pub speed_3d_raw: i32,
    pub days_since_2000_raw: i32,
    pub seconds_since_midnight_raw: i32,
    pub dop_raw: u16,
    pub fix_raw: u16,
    pub scale: Seq<i32>,
}

/// One `GPS9` sample, as decoded: the nine raw integer fields, in record
/// order, together with the nine `SCAL` divisors that scale them. A
/// `fix_raw` of 0 marks an unusable sample.
#[derive(Debug)]
pub struct Gps9 {
    pub latitude_raw: i32,
    pub longitude_raw: i32,
    pub altitude_raw: i32,
    pub speed_2d_raw: i32,
    pub speed_3d_raw: i32,
    pub days_since_2000_raw: i32,
    pub seconds_since_midnight_raw: i32,
    pub dop_raw: u16,
    pub fix_raw: u16,
    /// The nine `SCAL` divisors, one per field above, in the same order.
    pub scale: Vec<i32>,
}

impl View for Gps9 {
    type V = Gps9V;

    open spec fn view(&self) -> Gps9V {
        Gps9V {
            latitude_raw: self.latitude_raw,
            longitude_raw: self.longitude_raw,
            altitude_raw: self.altitude_raw,
            speed_2d_raw: self.speed_2d_raw,
            speed_3d_raw: self.speed_3d_raw,
            days_since_2000_raw: self.days_since_2000_raw,
            seconds_since_midnight_raw: self.seconds_since_midnight_raw,
            dop_raw: self.dop_raw,
            fix_raw: self.fix_raw,
            scale: self.scale@,
        }
    }
}

pub open spec fn fourcc_devc() -> Seq<u8> {
    seq![0x44u8, 0x45u8, 0x56u8, 0x43u8]
}

pub open spec fn fourcc_strm() -> Seq<u8> {
    seq![0x53u8, 0x54u8, 0x52u8, 0x4Du8]
}

pub open spec fn fourcc_gps9() -> Seq<u8> {
    seq![0x47u8, 0x50u8, 0x53u8, 0x39u8]
}

pub open spec fn fourcc_type() -> Seq<u8> {
    seq![0x54u8, 0x59u8, 0x50u8, 0x45u8]
}

pub open spec fn fourcc_scal() -> Seq<u8> {
    seq![0x53u8, 0x43u8, 0x41u8, 0x4Cu8]
}

/// The only `TYPE` layout this projector accepts: seven signed-32 fields
/// and two unsigned-16 fields.
pub open spec fn type_descriptor() -> Seq<char> {
    seq!['l', 'l', 'l', 'l', 'l', 'l', 'l', 'S', 'S']
}

/// Whether some record in the sequence is tagged `GPS9`.
pub open spec fn contains_gps9(cs: Seq<KlvV>) -> bool {
    exists|i: int| 0 <= i < cs.len() && (#[trigger] cs[i]).header.fourcc == fourcc_gps9()
}

/// The children of the first `STRM` record whose children include a `GPS9`
/// record. A `STRM` met on the way that is not a nested record is a
/// structure failure, as is running out of candidates.
pub open spec fn find_gps9_strm(cs: Seq<KlvV>) -> Result<Seq<KlvV>, KlvError>
    decreases cs.len(),
{
    if cs.len() == 0 {
        Err(KlvError::StructureMismatch)
    } else if cs[0].header.fourcc == fourcc_strm() {
        match cs[0].value {
            ValueV::Nested(sc) => if contains_gps9(sc) {
                Ok(sc)
            } else {
                find_gps9_strm(cs.drop_first())
            },
            _ => Err(KlvError::StructureMismatch),
        }
    } else {
        find_gps9_strm(cs.drop_first())
    }
}

/// The first record tagged `name`, or a structure failure.
pub open spec fn find_first(cs: Seq<KlvV>, name: Seq<u8>) -> Result<KlvV, KlvError>
    decreases cs.len(),
{
    if cs.len() == 0 {
        Err(KlvError::StructureMismatch)
    } else if cs[0].header.fourcc == name {
        Ok(cs[0])
    } else {
        find_first(cs.drop_first(), name)
    }
}

/// The nine raw fields of the first sample in a `GPS9` payload: seven
/// signed 32-bit values, then two unsigned 16-bit values, big-endian.
pub open spec fn spec_gps9_of(raw: Seq<u8>, scal: Seq<i32>) -> Gps9V {
    Gps9V {
        latitude_raw: sign32(be_u32(raw, 0)) as i32,
        longitude_raw: sign32(be_u32(raw, 4)) as i32,
        altitude_raw: sign32(be_u32(raw, 8)) as i32,
        speed_2d_raw: sign32(be_u32(raw, 12)) as i32,
        speed_3d_raw: sign32(be_u32(raw, 16)) as i32,
        days_since_2000_raw: sign32(be_u32(raw, 20)) as i32,
        seconds_since_midnight_raw: sign32(be_u32(raw, 24)) as i32,
        dop_raw: be_u16(raw, 28) as u16,
        fix_raw: be_u16(raw, 30) as u16,
        scale: scal,
    }
}

/// The whole projection, from a `DEVC` record to its children and the
/// decoded `GPS9` sample; every shape violation is a structure failure.
pub open spec fn spec_project_gps9(devc: KlvV) -> Result<(Seq<KlvV>, Gps9V), KlvError> {
    if devc.header.fourcc != fourcc_devc() {
        Err(KlvError::StructureMismatch)
    } else {
        match devc.value {
            ValueV::Nested(cs) => match find_gps9_strm(cs) {
                Err(e) => Err(e),
                Ok(sc) => match find_first(sc, fourcc_gps9()) {
                    Err(e) => Err(e),
                    Ok(g) => match g.value {
                        ValueV::Complex(raw) => if raw.len() < 32 {
                            Err(KlvError::StructureMismatch)
                        } else {
                            match find_first(sc, fourcc_type()) {
                                Err(e) => Err(e),
                                Ok(t) => match t.value {
                                    ValueV::Ascii(s) => if s != type_descriptor() {
                                        Err(KlvError::StructureMismatch)
                                    } else {
                                        match find_first(sc, fourcc_scal()) {
                                            Err(e) => Err(e),
                                            Ok(sk) => match sk.value {
                                                ValueV::S32(vals) => if vals.len() != 9 {
                                                    Err(KlvError::StructureMismatch)
                                                } else {
                                                    Ok((cs, spec_gps9_of(raw, vals)))
                                                },
                                                _ => Err(KlvError::StructureMismatch),
                                            },
                                        }
                                    },
                                    _ => Err(KlvError::StructureMismatch),
                                },
                            }
                        },
                        _ => Err(KlvError::StructureMismatch),
                    },
                },
            },
            _ => Err(KlvError::StructureMismatch),
        }
    }
}

/// Skipping one more element drops the head of the remainder.
proof fn lemma_skip_step(cs: Seq<KlvV>, i: int)
    requires
        0 <= i < cs.len(),
    ensures
        cs.skip(i).len() == cs.len() - i,
        cs.skip(i)[0] == cs[i],
        cs.skip(i).drop_first() == cs.skip(i + 1),
{
    assert(cs.skip(i).drop_first() =~= cs.skip(i + 1));
}

/// Whether some record in the vector is tagged `GPS9`.
fn contains_gps9_exec(cs: &Vec<Klv>) -> (r: bool)
    ensures
        r == contains_gps9(klvs_view(cs@)),
{
    proof {
        lemma_klvs_view_index(cs@);
    }
    let gps9_name: [u8; 4] = [0x47, 0x50, 0x53, 0x39];
    proof {
        assert(gps9_name@ =~= fourcc_gps9());
    }
    let mut i: usize = 0;
    while i < cs.len()
        invariant
            i <= cs@.len(),
            gps9_name@ == fourcc_gps9(),
            klvs_view(cs@).len() == cs@.len(),
            forall|j: int|
                0 <= j < cs@.len() ==> klvs_view(cs@)[j] == klv_view(#[trigger] cs@[j]),
            forall|j: int| 0 <= j < i ==> (#[trigger] klvs_view(cs@)[j]).header.fourcc
                != fourcc_gps9(),
        decreases cs@.len() - i,
    {
        if cs[i].header.fourcc().matches(&gps9_name) {
            return true;
        }
        i = i + 1;
    }
    false
}

/// The index of the first `STRM` child whose children include a `GPS9`
/// record; that child is a nested record.
fn find_gps9_strm_exec(children: &Vec<Klv>) -> (r: Result<usize, KlvError>)
    ensures
        match r {
            Ok(i) => i < children@.len() && (klv_view(children@[i as int]).value matches
                ValueV::Nested(sc) && find_gps9_strm(klvs_view(children@)) == Ok::<
                Seq<KlvV>,
                KlvError,
            >(sc)),
            Err(e) => find_gps9_strm(klvs_view(children@)) == Err::<Seq<KlvV>, KlvError>(e),
        },
{
    proof {
        lemma_klvs_view_index(children@);
    }
    let strm_name: [u8; 4] = [0x53, 0x54, 0x52, 0x4D];
    proof {
        assert(strm_name@ =~= fourcc_strm());
    }
    let ghost cv: Seq<KlvV> = klvs_view(children@);
    proof {
        assert(cv.skip(0) =~= cv);
    }
    let mut i: usize = 0;
    while i < children.len()
        invariant
            i <= children@.len(),
            strm_name@ == fourcc_strm(),
            cv == klvs_view(children@),
            cv.len() == children@.len(),
            forall|j: int| 0 <= j < children@.len() ==> cv[j] == klv_view(#[trigger] children@[j]),
            find_gps9_strm(cv) == find_gps9_strm(cv.skip(i as int)),
        decreases children@.len() - i,
    {
        proof {
            lemma_skip_step(cv, i as int);
        }
        if children[i].header.fourcc().matches(&strm_name) {
            match &children[i].value {
                Value::Nested(sc) => {
                    if contains_gps9_exec(sc) {
                        return Ok(i);
                    }
                },
                _ => {
                    return Err(KlvError::StructureMismatch);
                },
            }
        }
        i = i + 1;
    }
    proof {
        assert(cv.skip(i as int).len() == 0);
    }
    Err(KlvError::StructureMismatch)
}

/// The index of the first record tagged `name`.
pub(crate) fn find_first_exec(cs: &Vec<Klv>, name: &[u8; 4]) -> (r: Result<usize, KlvError>)
    ensures
        match r {
            Ok(i) => i < cs@.len() && find_first(klvs_view(cs@), name@) == Ok::<KlvV, KlvError>(
                klv_view(cs@[i as int]),
            ),
            Err(e) => find_first(klvs_view(cs@), name@) == Err::<KlvV, KlvError>(e),
        },
{
    proof {
        lemma_klvs_view_index(cs@);
    }
    let ghost cv: Seq<KlvV> = klvs_view(cs@);
    proof {
        assert(cv.skip(0) =~= cv);
    }
    let mut i: usize = 0;
    while i < cs.len()
        invariant
            i <= cs@.len(),
            cv == klvs_view(cs@),
            cv.len() == cs@.len(),
            forall|j: int| 0 <= j < cs@.len() ==> cv[j] == klv_view(#[trigger] cs@[j]),
            find_first(cv, name@) == find_first(cv.skip(i as int), name@),
        decreases cs@.len() - i,
    {
        proof {
            lemma_skip_step(cv, i as int);
        }
        if cs[i].header.fourcc().matches(name) {
            return Ok(i);
        }
        i = i + 1;
    }
    proof {
        assert(cv.skip(i as int).len() == 0);
    }
    Err(KlvError::StructureMismatch)
}

/// One `DEVC` subtree with its projected `GPS9` sample.
#[derive(Debug)]
pub struct GpmfSample {
    pub klvs: Vec<Klv>,
    pub gps9: Gps9,
}

impl GpmfSample {
    /// The children of the `DEVC` record the sample was built from.
    pub fn klvs(&self) -> (r: &Vec<Klv>)
        ensures
            r@ == self.klvs@,
    {
        &self.klvs
    }

    /// The projected sample.
    pub fn gps9(&self) -> (r: &Gps9)
        ensures
            r@ == self.gps9@,
    {
        &self.gps9
    }

    /// Projects a nested `DEVC` record: selects the first `STRM` child whose
    /// children include `GPS9`, checks `TYPE` against the nine-field layout
    /// and `SCAL` for exactly nine divisors, and decodes the first sample.
    pub fn new(devc_klv: Klv) -> (r: Result<GpmfSample, KlvError>)
        ensures
            match r {
                Ok(s) => spec_project_gps9(klv_view(devc_klv)) matches Ok(t) && klvs_view(s.klvs@)
                    == t.0 && s.gps9@ == t.1,
                Err(e) => spec_project_gps9(klv_view(devc_klv)) == Err::<
                    (Seq<KlvV>, Gps9V),
                    KlvError,
                >(e),
            },
    {
        let devc_name: [u8; 4] = [0x44, 0x45, 0x56, 0x43];
        proof {
            assert(devc_name@ =~= fourcc_devc());
        }
        if !devc_klv.header.fourcc().matches(&devc_name) {
            return Err(KlvError::StructureMismatch);
        }
        let children = match devc_klv.value {
            Value::Nested(cs) => cs,
            _ => {
                return Err(KlvError::StructureMismatch);
            },
        };
        let si = match find_gps9_strm_exec(&children) {
            Ok(i) => i,
            Err(e) => {
                return Err(e);
            },
        };
        let sc: &Vec<Klv> = match &children[si].value {
            Value::Nested(sc) => sc,
            _ => {
                proof {
                    assert(false);
                }
                return Err(KlvError::StructureMismatch);
            },
        };
        proof {
            lemma_klvs_view_index(children@);
            lemma_klvs_view_index(sc@);
        }
        let gps9_name: [u8; 4] = [0x47, 0x50, 0x53, 0x39];
        let layout_name: [u8; 4] = [0x54, 0x59, 0x50, 0x45];
        let scal_name: [u8; 4] = [0x53, 0x43, 0x41, 0x4C];
        proof {
            assert(gps9_name@ =~= fourcc_gps9());
            assert(layout_name@ =~= fourcc_type());
            assert(scal_name@ =~= fourcc_scal());
        }
        let gi = match find_first_exec(sc, &gps9_name) {
            Ok(i) => i,
            Err(e) => {
                return Err(e);
            },
        };
        let raw: &Vec<u8> = match &sc[gi].value {
            Value::Complex(cv) => cv.raw_data(),
            _ => {
                return Err(KlvError::StructureMismatch);
            },
        };
        if raw.len() < 32 {
            return Err(KlvError::StructureMismatch);
        }
        let ti = match find_first_exec(sc, &layout_name) {
            Ok(i) => i,
            Err(e) => {
                return Err(e);
            },
        };
        match &sc[ti].value {
            Value::Ascii(s) => {
                let expected = String::from_str("lllllllSS");
                proof {
                    reveal_strlit("lllllllSS");
                    assert(expected@ =~= type_descriptor());
                }
                if !(*s == expected) {
                    return Err(KlvError::StructureMismatch);
                }
            },
            _ => {
                return Err(KlvError::StructureMismatch);
            },
        };
        let ki = match find_first_exec(sc, &scal_name) {
            Ok(i) => i,
            Err(e) => {
                return Err(e);
            },
        };
        let scal: &Vec<i32> = match &sc[ki].value {
            Value::S32(vals) => vals,
            _ => {
                return Err(KlvError::StructureMismatch);
            },
        };
        if scal.len() != 9 {
            return Err(KlvError::StructureMismatch);
        }
        let mut scale: Vec<i32> = Vec::new();
        let mut i: usize = 0;
        while i < 9
            invariant
                i <= 9,
                scal@.len() == 9,
                scale@ == scal@.subrange(0, i as int),
            decreases 9 - i,
        {
            scale.push(scal[i]);
            i = i + 1;
            proof {
                assert(scale@ =~= scal@.subrange(0, i as int));
            }
        }
        proof {
            assert(scale@ =~= scal@);
        }
        let mut p: usize = 0;
        let latitude_raw = match read_i32_be(raw, &mut p) {
            Some(v) => v,
            None => {
                proof {
                    assert(false);
                }
                return Err(KlvError::StructureMismatch);
            },
        };
        let longitude_raw = match read_i32_be(raw, &mut p) {
            Some(v) => v,
            None => {
                proof {
                    assert(false);
                }
                return Err(KlvError::StructureMismatch);
            },
        };
        let altitude_raw = match read_i32_be(raw, &mut p) {
            Some(v) => v,
            None => {
                proof {
                    assert(false);
                }
                return Err(KlvError::StructureMismatch);
            },
        };
        let speed_2d_raw = match read_i32_be(raw, &mut p) {
            Some(v) => v,
            None => {
                proof {
                    assert(false);
                }
                return Err(KlvError::StructureMismatch);
            },
        };
        let speed_3d_raw = match read_i32_be(raw, &mut p) {
            Some(v) => v,
            None => {
                proof {
                    assert(false);
                }
                return Err(KlvError::StructureMismatch);
            },
        };
        let days_since_2000_raw = match read_i32_be(raw, &mut p) {
            Some(v) => v,
            None => {
                proof {
                    assert(false);
                }
                return Err(KlvError::StructureMismatch);
            },
        };
        let seconds_since_midnight_raw = match read_i32_be(raw, &mut p) {
            Some(v) => v,
            None => {
                proof {
                    assert(false);
                }
                return Err(KlvError::StructureMismatch);
            },
        };
        let dop_raw = match read_u16_be(raw, &mut p) {
            Some(v) => v,
            None => {
                proof {
                    assert(false);
                }
                return Err(KlvError::StructureMismatch);
            },
        };
        let fix_raw = match read_u16_be(raw, &mut p) {
            Some(v) => v,
            None => {
                proof {
                    assert(false);
                }
                return Err(KlvError::StructureMismatch);
            },
        };
        let gps9 = Gps9 {
            latitude_raw,
            longitude_raw,
            altitude_raw,
            speed_2d_raw,
            speed_3d_raw,
            days_since_2000_raw,
            seconds_since_midnight_raw,
            dop_raw,
            fix_raw,
            scale,
        };
        Ok(GpmfSample { klvs: children, gps9 })
    }
}

} // verus!
