//! Choice of the point at which a recording is cut in two: in the middle of
//! the first silence that ends at or after the recording's midpoint.
use vstd::prelude::*;
use crate::error::PipelineError;
use crate::silence::{parse_silence_report, report_of, SilenceInterval};

verus! {

/// Where to cut a recording, in microseconds.
#[derive(Debug, Clone, Copy, PartialEq, Eq, Structural)]
pub struct SplitPlan {
    pub total_micros: u64,
    pub cut_micros: u64,
}

impl SplitPlan {
    /// The cut lies strictly inside the recording.
    pub open spec fn wf(self) -> bool {
        0 < self.cut_micros < self.total_micros
    }
}

/// The silence ends at or after the midpoint of a recording of `total`
/// microseconds, i.e. its deviation `end - total / 2` is not negative.
pub open spec fn ends_after_middle(total: nat, iv: SilenceInterval) -> bool {
    2 * iv.end_micros >= total
}

pub open spec fn some_ends_after_middle(total: nat, ivs: Seq<SilenceInterval>) -> bool {
    exists|j: int| 0 <= j < ivs.len() && ends_after_middle(total, #[trigger] ivs[j])
}

/// `ivs[i]` is the silence that the cut goes into: of those that end at or
/// after the midpoint, the one with the smallest deviation from it, the
/// first of equals; when none does, the one closest to it from below (the
/// latest), the first of equals.
pub open spec fn is_chosen(total: nat, ivs: Seq<SilenceInterval>, i: int) -> bool {
    &&& 0 <= i < ivs.len()
    &&& if some_ends_after_middle(total, ivs) {
        &&& ends_after_middle(total, ivs[i])
        &&& forall|j: int|
            0 <= j < ivs.len() && ends_after_middle(total, #[trigger] ivs[j]) ==> ivs[i].end_micros
                <= ivs[j].end_micros
        &&& forall|j: int|
            0 <= j < i && ends_after_middle(total, #[trigger] ivs[j]) ==> ivs[i].end_micros
                < ivs[j].end_micros
    } else {
        &&& forall|j: int| 0 <= j < ivs.len() ==> (#[trigger] ivs[j]).end_micros <= ivs[i].end_micros
        &&& forall|j: int| 0 <= j < i ==> (#[trigger] ivs[j]).end_micros < ivs[i].end_micros
    }
}

/// The cut in the middle of a silence: its end less half its duration.
pub open spec fn cut_in(iv: SilenceInterval) -> int {
    iv.end_micros - iv.duration_micros / 2
}

/// The plan for a recording of `total` microseconds with the silences `ivs`,
/// or `SplitPointOutOfRange` when the cut would not lie strictly inside it.
pub open spec fn split_result(total: nat, ivs: Seq<SilenceInterval>) -> Result<
    SplitPlan,
    PipelineError,
> {
    let i = choose|i: int| is_chosen(total, ivs, i);
    let cut = cut_in(ivs[i]);
    if 0 < cut < total {
        Ok(SplitPlan { total_micros: total as u64, cut_micros: cut as u64 })
    } else {
        Err(PipelineError::SplitPointOutOfRange)
    }
}

pub proof fn lemma_chosen_unique(total: nat, ivs: Seq<SilenceInterval>, i: int, k: int)
    requires
        is_chosen(total, ivs, i),
        is_chosen(total, ivs, k),
    ensures
        i == k,
{
    if some_ends_after_middle(total, ivs) {
        if i < k {
            assert(ends_after_middle(total, ivs[i]));
        }
        if k < i {
            assert(ends_after_middle(total, ivs[k]));
        }
    } else {
        if i < k {
            assert(ivs[i].end_micros < ivs[k].end_micros);
            assert(ivs[i].end_micros <= ivs[k].end_micros);
        }
        if k < i {
            assert(ivs[k].end_micros < ivs[i].end_micros);
        }
    }
}

fn ends_after(total: u64, iv: &SilenceInterval) -> (r: bool)
    ensures
        r == ends_after_middle(total as nat, *iv),
{
    2 * (iv.end_micros as u128) >= total as u128
}

/// When `found`, `best` is the choice among the first `n` silences of those
/// that end at or after the midpoint; otherwise none of them does.
spec fn best_after_among(t: nat, ivs: Seq<SilenceInterval>, n: int, found: bool, best: int) -> bool {
    if found {
        &&& 0 <= best < n
        &&& ends_after_middle(t, ivs[best])
        &&& forall|j: int|
            0 <= j < n && ends_after_middle(t, #[trigger] ivs[j]) ==> ivs[best].end_micros
                <= ivs[j].end_micros
        &&& forall|j: int|
            0 <= j < best && ends_after_middle(t, #[trigger] ivs[j]) ==> ivs[best].end_micros
                < ivs[j].end_micros
    } else {
        forall|j: int| 0 <= j < n ==> !ends_after_middle(t, #[trigger] ivs[j])
    }
}

/// Index of the silence that the cut goes into.
fn choose_silence(total: u64, ivs: &Vec<SilenceInterval>) -> (r: usize)
    requires
        ivs@.len() > 0,
    ensures
        is_chosen(total as nat, ivs@, r as int),
{
    let ghost t = total as nat;
    let mut found = ends_after(total, &ivs[0]);
    let mut best: usize = 0;
    let mut latest: usize = 0;
    let mut i: usize = 1;
    while i < ivs.len()
        invariant
            t == total as nat,
            1 <= i <= ivs@.len(),
            latest < i,
            forall|j: int| 0 <= j < i ==> (#[trigger] ivs@[j]).end_micros <= ivs@[latest as int].end_micros,
            forall|j: int| 0 <= j < latest ==> (#[trigger] ivs@[j]).end_micros < ivs@[latest as int].end_micros,
            best_after_among(t, ivs@, i as int, found, best as int),
        decreases ivs@.len() - i,
    {
        let iv = &ivs[i];
        assert(*iv == ivs@[i as int]);
        if iv.end_micros > ivs[latest].end_micros {
            latest = i;
        }
        let after = ends_after(total, iv);
        if after && (!found || iv.end_micros < ivs[best].end_micros) {
            proof {
                if found {
                    assert forall|j: int|
                        0 <= j < i && ends_after_middle(t, #[trigger] ivs@[j]) implies ivs@[i as int].end_micros
                        < ivs@[j].end_micros by {
                        assert(ivs@[best as int].end_micros <= ivs@[j].end_micros);
                    }
                }
            }
            found = true;
            best = i;
        }
        i = i + 1;
    }
    if found {
        assert(some_ends_after_middle(t, ivs@)) by {
            assert(ends_after_middle(t, ivs@[best as int]));
        }
        best
    } else {
        latest
    }
}

/// Plans the cut of a recording of `total_micros` microseconds with the
/// silences `silences`: in the middle of the chosen silence, and only where
/// that lies strictly inside the recording.
pub fn plan_split(total_micros: u64, silences: &Vec<SilenceInterval>) -> (r: Result<
    SplitPlan,
    PipelineError,
>)
    requires
        silences@.len() > 0,
    ensures
        r == split_result(total_micros as nat, silences@),
        match r {
            Ok(plan) => plan.wf() && plan.total_micros == total_micros,
            Err(e) => e == PipelineError::SplitPointOutOfRange,
        },
{
    let i = choose_silence(total_micros, silences);
    proof {
        let k = choose|k: int| is_chosen(total_micros as nat, silences@, k);
        lemma_chosen_unique(total_micros as nat, silences@, i as int, k);
    }
    let iv = &silences[i];
    let half = iv.duration_micros / 2;
    if half < iv.end_micros && iv.end_micros - half < total_micros {
        Ok(SplitPlan { total_micros, cut_micros: iv.end_micros - half })
    } else {
        Err(PipelineError::SplitPointOutOfRange)
    }
}

/// The plan that a diagnostic stream of a silence-detection pass leads to.
pub open spec fn plan_of_stream(stream: Seq<u8>) -> Result<SplitPlan, PipelineError> {
    match report_of(stream) {
        Ok((total, ivs)) => split_result(total, ivs),
        Err(e) => Err(e),
    }
}

/// Decodes a silence-detection stream and plans the cut from it.
pub fn plan_split_from_report(stream: &[u8]) -> (r: Result<SplitPlan, PipelineError>)
    ensures
        r == plan_of_stream(stream@),
        r is Ok ==> r->Ok_0.wf(),
{
    let report = parse_silence_report(stream)?;
    plan_split(report.total_micros, &report.silences)
}

} // verus!
