use vstd::prelude::*;
use crate::bi::Bi;
use crate::cenum::{BiDir, LeftSegMethod};
use crate::chan_exception::{ChanError, ErrCode};
use crate::eigen_fx::EigenFX;
use crate::utils::str_equal;

verus! {

/// Segment settings.
#[derive(Debug, Clone, Copy, PartialEq, Eq, Structural)]
pub struct SegConfig {
    pub left_method: LeftSegMethod,
}

pub open spec fn spec_left_method_of(s: Seq<char>) -> Option<LeftSegMethod> {
    if s == "peak"@ {
        Some(LeftSegMethod::Peak)
    } else if s == "all"@ {
        Some(LeftSegMethod::All)
    } else {
        None
    }
}

impl SegConfig {
    /// Settings from the algorithm name and the trailing-stroke policy. Only
    /// "chan" is implemented; another algorithm, or a policy other than "peak"
    /// or "all", fails with `ParaError`. Missing values take "chan" and "peak".
    pub fn new(seg_algo: Option<&str>, left_method: Option<&str>) -> (r: Result<Self, ChanError>)
        ensures
            r.is_ok() <==> (match seg_algo {
                Some(a) => a@ == "chan"@,
                None => true,
            }) && (match left_method {
                Some(m) => spec_left_method_of(m@).is_some(),
                None => true,
            }),
            r matches Err(e) ==> e.errcode == ErrCode::ParaError,
            r matches Ok(c) ==> c.left_method == (match left_method {
                Some(m) => spec_left_method_of(m@).unwrap(),
                None => LeftSegMethod::Peak,
            }),
    {
        match seg_algo {
            Some(a) => {
                if !str_equal(a, "chan") {
                    return Err(ChanError::with_msg("unsupported segment algorithm", ErrCode::ParaError));
                }
            },
            None => {},
        }
        let m = match left_method {
            None => LeftSegMethod::Peak,
            Some(m) => {
                if str_equal(m, "peak") {
                    LeftSegMethod::Peak
                } else if str_equal(m, "all") {
                    LeftSegMethod::All
                } else {
                    return Err(ChanError::with_msg("unknown trailing segment method", ErrCode::ParaError));
                }
            },
        };
        Ok(SegConfig { left_method: m })
    }

    pub fn default() -> (r: Self)
        ensures
            r.left_method == LeftSegMethod::Peak,
    {
        SegConfig { left_method: LeftSegMethod::Peak }
    }
}

/// A segment: a run of strokes from `start_bi` to `end_bi`.
#[derive(Debug)]
pub struct Seg {
    pub idx: usize,
    pub start_bi: usize,
    pub end_bi: usize,
    pub is_sure: bool,
    pub dir: BiDir,
    /// Price where the first stroke starts.
    pub begin_val: i64,
    /// Price where the last stroke ends.
    pub end_val: i64,
    /// Indices of the zones inside the segment.
    pub zs_lst: Vec<usize>,
    /// The characteristic fractal that confirmed the segment.
    pub eigen_fx: Option<EigenFX>,
    pub reason: String,
    /// Zones inside no longer change.
    pub ele_inside_is_sure: bool,
}

/// A confirmed segment moves the way it points.
pub open spec fn seg_values_ok(dir: BiDir, begin_val: int, end_val: int) -> bool {
    if dir == BiDir::Down { begin_val > end_val } else { begin_val < end_val }
}

impl Seg {
    /// A segment over strokes `start` to `end`, pointing `seg_dir` or, when
    /// none is given, the way the last stroke points. Under two strokes apart
    /// it is tentative. A confirmed one whose ends contradict its direction
    /// fails with `SegEndValueErr`.
    pub fn new(idx: usize, start: &Bi, end: &Bi, is_sure: bool, seg_dir: Option<BiDir>, reason: &str) -> (r: Result<Self, ChanError>)
        ensures
            ({
                let dir = match seg_dir {
                    Some(d) => d,
                    None => end.dir,
                };
                let sure = is_sure && end.idx >= start.idx + 2;
                &&& r.is_err() <==> sure && !seg_values_ok(dir, start.spec_begin_val(), end.spec_end_val())
                &&& r matches Err(e) ==> e.errcode == ErrCode::SegEndValueErr
                &&& r matches Ok(s) ==> s.idx == idx && s.start_bi == start.idx && s.end_bi == end.idx
                    && s.dir == dir && s.is_sure == sure && s.begin_val as int == start.spec_begin_val()
                    && s.end_val as int == end.spec_end_val() && s.eigen_fx.is_none() && s.zs_lst@.len() == 0
            }),
    {
        let dir = match seg_dir {
            Some(d) => d,
            None => end.dir,
        };
        let sure = is_sure && end.idx >= start.idx && end.idx - start.idx >= 2;
        let begin_val = start.get_begin_val();
        let end_val = end.get_end_val();
        if sure {
            if dir == BiDir::Down && begin_val <= end_val {
                return Err(ChanError::with_msg("a down segment must start above its end", ErrCode::SegEndValueErr));
            }
            if dir == BiDir::Up && begin_val >= end_val {
                return Err(ChanError::with_msg("an up segment must start below its end", ErrCode::SegEndValueErr));
            }
        }
        Ok(Seg {
            idx,
            start_bi: start.idx,
            end_bi: end.idx,
            is_sure: sure,
            dir,
            begin_val,
            end_val,
            zs_lst: Vec::new(),
            eigen_fx: None,
            reason: String::from_str(reason),
            ele_inside_is_sure: false,
        })
    }

    pub fn is_up(&self) -> (r: bool)
        ensures
            r == (self.dir == BiDir::Up),
    {
        self.dir == BiDir::Up
    }

    pub fn is_down(&self) -> (r: bool)
        ensures
            r == (self.dir == BiDir::Down),
    {
        self.dir == BiDir::Down
    }

    /// Number of strokes in the segment.
    pub fn cal_bi_cnt(&self) -> (r: usize)
        requires
            self.start_bi <= self.end_bi,
            self.end_bi < usize::MAX,
        ensures
            r == self.end_bi - self.start_bi + 1,
    {
        self.end_bi - self.start_bi + 1
    }

    /// Distance between the start and end prices.
    pub fn amp(&self) -> (r: u64)
        ensures
            r as int == (if self.end_val >= self.begin_val {
                self.end_val - self.begin_val
            } else {
                self.begin_val - self.end_val
            }),
    {
        if self.end_val >= self.begin_val {
            (self.end_val as i128 - self.begin_val as i128) as u64
        } else {
            (self.begin_val as i128 - self.end_val as i128) as u64
        }
    }

    /// Records a zone; zones arrive from the last to the first.
    pub fn add_zs(&mut self, zs_idx: usize)
        ensures
            final(self).zs_lst@ == seq![zs_idx] + old(self).zs_lst@,
    {
        let mut v: Vec<usize> = vec![zs_idx];
        let mut i: usize = 0;
        while i < self.zs_lst.len()
            invariant
                i <= self.zs_lst@.len(),
                v@ == seq![zs_idx] + self.zs_lst@.subrange(0, i as int),
            decreases self.zs_lst@.len() - i,
        {
            v.push(self.zs_lst[i]);
            i += 1;
            assert(v@ =~= seq![zs_idx] + self.zs_lst@.subrange(0, i as int));
        }
        assert(self.zs_lst@.subrange(0, self.zs_lst@.len() as int) =~= self.zs_lst@);
        self.zs_lst = v;
    }

    pub fn clear_zs_lst(&mut self)
        ensures
            final(self).zs_lst@.len() == 0,
    {
        self.zs_lst = Vec::new();
    }
}

/// Segment `k` of `segs` is in order: it sits at its index, starts on the
/// stroke after the previous segment's last (or on the first stroke), ends at
/// or after its start, and, when confirmed, spans at least two strokes beyond
/// its start, moves the way it points and points the other way from the
/// segment before it.
pub open spec fn seg_ok(segs: Seq<Seg>, k: int) -> bool {
    let s = segs[k];
    &&& s.idx == k
    &&& s.start_bi == (if k == 0 { 0 } else { segs[k - 1].end_bi + 1 })
    &&& s.start_bi <= s.end_bi
    &&& s.is_sure ==> s.end_bi >= s.start_bi + 2 && seg_values_ok(s.dir, s.begin_val as int, s.end_val as int)
        && (k > 0 ==> s.dir != segs[k - 1].dir)
}

pub open spec fn segs_ok(segs: Seq<Seg>, n_bis: int) -> bool {
    &&& forall|k: int| 0 <= k < segs.len() ==> #[trigger] seg_ok(segs, k)
    &&& segs.len() > 0 ==> segs.last().end_bi < n_bis
}

/// The first `i + 1` elements, or all when there are fewer.
pub open spec fn spec_truncate_after<T>(s: Seq<T>, i: int) -> Seq<T> {
    if i + 1 < s.len() { s.subrange(0, i + 1) } else { s }
}

/// Truncating after the same index twice is truncating once.
pub proof fn lemma_truncate_after_idempotent<T>(s: Seq<T>, i: int)
    requires
        i >= 0,
    ensures
        spec_truncate_after(spec_truncate_after(s, i), i) == spec_truncate_after(s, i),
{
}

} // verus!
