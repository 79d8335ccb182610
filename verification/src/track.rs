//! A track of GPMF samples: each sample one parsed payload with its
//! projected `GPS9` record, optionally carrying the timing of the MP4
//! sample it came from, and a lookup of the sample nearest a time.

use vstd::prelude::*;

verus! {

use crate::klv::{Klv, KlvV, KlvError, klvs_view, MAX_NESTING_DEPTH, spec_parse_stream};
use crate::gps9::{GpmfSample, Gps9V, spec_project_gps9, find_first, find_first_exec, fourcc_devc};

/// Timing of the MP4 sample a payload came from.
#[derive(Debug, Clone, Copy, PartialEq, Eq, Structural)]
pub struct Mp4SampleInfo {
    /// Start time in the track's timescale units.
    pub start_time: u64,
    pub duration: u32,
    pub rendering_offset: i32,
    pub is_sync: bool,
}

/// One parsed GPMF payload with its container timing, where known.
#[derive(Debug)]
pub struct GpmfSampleInfo {
    pub sample: GpmfSample,
    pub mp4_sample_info: Option<Mp4SampleInfo>,
}

/// Parsing a payload and projecting the first `DEVC` record in it.
pub open spec fn spec_sample_from_bytes(data: Seq<u8>) -> Result<(Seq<KlvV>, Gps9V), KlvError> {
    match spec_parse_stream(data, 0, MAX_NESTING_DEPTH as nat) {
        Err(e) => Err(e),
        Ok(t) => match find_first(t.0, fourcc_devc()) {
            Err(e) => Err(e),
            Ok(d) => spec_project_gps9(d),
        },
    }
}

impl GpmfSampleInfo {
    pub fn gpmf_sample(&self) -> (r: &GpmfSample)
        ensures
            r.klvs@ == self.sample.klvs@,
            r.gps9@ == self.sample.gps9@,
    {
        &self.sample
    }

    pub fn mp4_sample_info(&self) -> (r: Option<Mp4SampleInfo>)
        ensures
            r == self.mp4_sample_info,
    {
        self.mp4_sample_info
    }

    /// Parses one payload and projects the first `DEVC` record in it; a
    /// payload without a `DEVC` record is a structure failure.
    pub fn from_bytes(bytes: &Vec<u8>, mp4_sample_info: Option<Mp4SampleInfo>) -> (r: Result<
        GpmfSampleInfo,
        KlvError,
    >)
        requires
            bytes@.len() < usize::MAX,
        ensures
            match r {
                Ok(info) => spec_sample_from_bytes(bytes@) matches Ok(t) && klvs_view(
                    info.sample.klvs@,
                ) == t.0 && info.sample.gps9@ == t.1 && info.mp4_sample_info == mp4_sample_info,
                Err(e) => spec_sample_from_bytes(bytes@) == Err::<(Seq<KlvV>, Gps9V), KlvError>(e),
            },
    {
        let mut klvs = match Klv::from_reader(bytes) {
            Ok(ks) => ks,
            Err(e) => {
                return Err(e);
            },
        };
        let devc_name: [u8; 4] = [0x44, 0x45, 0x56, 0x43];
        proof {
            assert(devc_name@ =~= fourcc_devc());
        }
        let di = match find_first_exec(&klvs, &devc_name) {
            Ok(i) => i,
            Err(e) => {
                return Err(e);
            },
        };
        let devc = klvs.swap_remove(di);
        let sample = match GpmfSample::new(devc) {
            Ok(s) => s,
            Err(e) => {
                return Err(e);
            },
        };
        Ok(GpmfSampleInfo { sample, mp4_sample_info })
    }
}

/// The start time of a sample whose container timing is known.
pub open spec fn info_start(i: GpmfSampleInfo) -> int {
    i.mp4_sample_info->Some_0.start_time as int
}

/// Every sample carries its container timing.
pub open spec fn infos_timed(s: Seq<GpmfSampleInfo>) -> bool {
    forall|j: int| 0 <= j < s.len() ==> (#[trigger] s[j]).mp4_sample_info is Some
}

/// Samples are ordered by start time.
pub open spec fn infos_sorted(s: Seq<GpmfSampleInfo>) -> bool {
    forall|a: int, b: int| 0 <= a <= b < s.len() ==> info_start(#[trigger] s[a]) <= info_start(
        #[trigger] s[b],
    )
}

/// A sequence of GPMF samples, ordered by their container start times.
#[derive(Debug)]
pub struct GpmfTrack {
    pub gpmf_sample_infos: Vec<GpmfSampleInfo>,
}

impl GpmfTrack {
    pub fn new(gpmf_sample_infos: Vec<GpmfSampleInfo>) -> (r: GpmfTrack)
        ensures
            r.gpmf_sample_infos@ == gpmf_sample_infos@,
    {
        GpmfTrack { gpmf_sample_infos }
    }

    pub fn gpmf_sample_infos(&self) -> (r: &Vec<GpmfSampleInfo>)
        ensures
            r@ == self.gpmf_sample_infos@,
    {
        &self.gpmf_sample_infos
    }

    /// The latest sample starting at or before `time_ms`, or `None` when
    /// every sample starts after it.
    pub fn find_nearest_sample(&self, time_ms: u64) -> (r: Option<&GpmfSampleInfo>)
        requires
            infos_timed(self.gpmf_sample_infos@),
            infos_sorted(self.gpmf_sample_infos@),
        ensures
            match r {
                Some(info) => exists|i: int|
                    0 <= i < self.gpmf_sample_infos@.len() && *info == #[trigger] self
                        .gpmf_sample_infos@[i] && info_start(self.gpmf_sample_infos@[i])
                        <= time_ms && (i + 1 < self.gpmf_sample_infos@.len() ==> info_start(
                        self.gpmf_sample_infos@[i + 1],
                    ) > time_ms),
                None => self.gpmf_sample_infos@.len() == 0 || info_start(
                    self.gpmf_sample_infos@[0],
                ) > time_ms,
            },
    {
        let infos = &self.gpmf_sample_infos;
        let mut lo: usize = 0;
        let mut hi: usize = infos.len();
        while lo < hi
            invariant
                lo <= hi <= infos@.len(),
                infos@ == self.gpmf_sample_infos@,
                infos_timed(infos@),
                infos_sorted(infos@),
                forall|j: int| 0 <= j < lo ==> info_start(#[trigger] infos@[j]) <= time_ms,
                forall|j: int| hi <= j < infos@.len() ==> info_start(#[trigger] infos@[j])
                    > time_ms,
            decreases hi - lo,
        {
            let mid = lo + (hi - lo) / 2;
            let start = match &infos[mid].mp4_sample_info {
                Some(m) => m.start_time,
                None => {
                    proof {
                        assert(false);
                    }
                    return None;
                },
            };
            if start <= time_ms {
                lo = mid + 1;
            } else {
                hi = mid;
            }
        }
        if lo == 0 {
            None
        } else {
            Some(&self.gpmf_sample_infos[lo - 1])
        }
    }
}

} // verus!
