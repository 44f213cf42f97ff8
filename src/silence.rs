//! Decoding of a silence-detection pass: the stream duration and the
//! silence intervals that the encoder reports on its diagnostic channel.
use vstd::prelude::*;
use crate::error::PipelineError;
use crate::text::{
    contains, decimal_micros, find, find_spec, first_occurrence, lines, parse_micros,
    split_lines,
};

verus! {

/// One detected silence: where it ends and how long it lasted, in microseconds.
#[derive(Debug, Clone, Copy, PartialEq, Eq, Structural)]
pub struct SilenceInterval {
    pub end_micros: u64,
    pub duration_micros: u64,
}

/// What a silence-detection pass reports: the stream's total duration and
/// the silences in stream order, all in microseconds.
#[derive(Debug)]
pub struct SilenceReport {
    pub total_micros: u64,
    pub silences: Vec<SilenceInterval>,
}

/// The bytes of `Duration: `.
pub open spec fn duration_tag() -> Seq<u8> {
    seq![68u8, 117, 114, 97, 116, 105, 111, 110, 58, 32]
}

/// The bytes of `, start: `.
pub open spec fn start_tag() -> Seq<u8> {
    seq![44u8, 32, 115, 116, 97, 114, 116, 58, 32]
}

/// The bytes of `, bitrate: `.
pub open spec fn bitrate_tag() -> Seq<u8> {
    seq![44u8, 32, 98, 105, 116, 114, 97, 116, 101, 58, 32]
}

/// The bytes of `silence_end: `.
pub open spec fn end_tag() -> Seq<u8> {
    seq![115u8, 105, 108, 101, 110, 99, 101, 95, 101, 110, 100, 58, 32]
}

/// The bytes of ` | silence_duration: `.
pub open spec fn gap_tag() -> Seq<u8> {
    seq![
        32u8, 124, 32, 115, 105, 108, 101, 110, 99, 101, 95, 100, 117, 114,
        97, 116, 105, 111, 110, 58, 32,
    ]
}

/// The bytes of `:`.
pub open spec fn colon() -> Seq<u8> {
    seq![58u8]
}

fn duration_tag_bytes() -> (r: Vec<u8>)
    ensures
        r@ == duration_tag(),
{
    let r = vec![68u8, 117, 114, 97, 116, 105, 111, 110, 58, 32];
    assert(r@ =~= duration_tag());
    r
}

fn start_tag_bytes() -> (r: Vec<u8>)
    ensures
        r@ == start_tag(),
{
    let r = vec![44u8, 32, 115, 116, 97, 114, 116, 58, 32];
    assert(r@ =~= start_tag());
    r
}

fn bitrate_tag_bytes() -> (r: Vec<u8>)
    ensures
        r@ == bitrate_tag(),
{
    let r = vec![44u8, 32, 98, 105, 116, 114, 97, 116, 101, 58, 32];
    assert(r@ =~= bitrate_tag());
    r
}

fn end_tag_bytes() -> (r: Vec<u8>)
    ensures
        r@ == end_tag(),
{
    let r = vec![115u8, 105, 108, 101, 110, 99, 101, 95, 101, 110, 100, 58, 32];
    assert(r@ =~= end_tag());
    r
}

fn gap_tag_bytes() -> (r: Vec<u8>)
    ensures
        r@ == gap_tag(),
{
    let r = vec![32u8, 124, 32, 115, 105, 108, 101, 110, 99, 101, 95, 100, 117, 114, 97, 116, 105, 111, 110, 58, 32];
    assert(r@ =~= gap_tag());
    r
}

fn colon_bytes() -> (r: Vec<u8>)
    ensures
        r@ == colon(),
{
    let r = vec![58u8];
    assert(r@ =~= colon());
    r
}

/// The value in microseconds of a clock reading `H:M:S` whose three parts
/// are decimal numerals: `(H * 60 + M) * 60 + S`.
pub open spec fn clock_micros(s: Seq<u8>) -> Option<nat> {
    match find_spec(s, colon()) {
        None => None,
        Some(a) => {
            let rest = s.subrange(a + 1, s.len() as int);
            match find_spec(rest, colon()) {
                None => None,
                Some(b) => match (
                    decimal_micros(s.subrange(0, a)),
                    decimal_micros(rest.subrange(0, b)),
                    decimal_micros(rest.subrange(b + 1, rest.len() as int)),
                ) {
                    (Some(h), Some(m), Some(sec)) => {
                        let v = (h * 60 + m) * 60 + sec;
                        if v <= u64::MAX {
                            Some(v)
                        } else {
                            None
                        }
                    },
                    _ => None,
                },
            }
        },
    }
}

/// The line reports the stream duration.
pub open spec fn is_duration_line(l: Seq<u8>) -> bool {
    contains(l, duration_tag()) && contains(l, start_tag()) && contains(l, bitrate_tag())
}

/// The clock between the first `Duration: ` of a line and the next `, start: `.
pub open spec fn line_duration(l: Seq<u8>) -> Option<nat> {
    match find_spec(l, duration_tag()) {
        None => None,
        Some(d) => {
            let rest = l.subrange(d + duration_tag().len(), l.len() as int);
            match find_spec(rest, start_tag()) {
                None => None,
                Some(t) => clock_micros(rest.subrange(0, t)),
            }
        },
    }
}

/// The line reports the end of a silence.
pub open spec fn is_silence_line(l: Seq<u8>) -> bool {
    contains(l, end_tag())
}

/// The silence of a line `... silence_end: E | silence_duration: D`, where
/// `E` and `D` are decimal numerals and `D` is not zero.
pub open spec fn line_silence(l: Seq<u8>) -> Option<SilenceInterval> {
    match find_spec(l, end_tag()) {
        None => None,
        Some(e) => {
            let rest = l.subrange(e + end_tag().len(), l.len() as int);
            match find_spec(rest, gap_tag()) {
                None => None,
                Some(p) => match (
                    decimal_micros(rest.subrange(0, p)),
                    decimal_micros(rest.subrange(p + gap_tag().len(), rest.len() as int)),
                ) {
                    (Some(end), Some(d)) => {
                        if d > 0 {
                            Some(SilenceInterval { end_micros: end as u64, duration_micros: d as u64 })
                        } else {
                            None
                        }
                    },
                    _ => None,
                },
            }
        },
    }
}

pub open spec fn is_first_duration_line(ls: Seq<Seq<u8>>, i: int) -> bool {
    &&& 0 <= i < ls.len()
    &&& is_duration_line(ls[i])
    &&& forall|j: int| 0 <= j < i ==> !is_duration_line(#[trigger] ls[j])
}

/// The duration that the first duration line reports.
pub open spec fn stream_duration(ls: Seq<Seq<u8>>) -> Option<nat> {
    if exists|i: int| is_first_duration_line(ls, i) {
        line_duration(ls[choose|i: int| is_first_duration_line(ls, i)])
    } else {
        None
    }
}

/// The silences of all silence lines in order; `None` when one of them is
/// not well formed.
pub open spec fn stream_silences(ls: Seq<Seq<u8>>) -> Option<Seq<SilenceInterval>>
    decreases ls.len(),
{
    if ls.len() == 0 {
        Some(Seq::empty())
    } else {
        match stream_silences(ls.drop_last()) {
            None => None,
            Some(prev) => if is_silence_line(ls.last()) {
                match line_silence(ls.last()) {
                    Some(iv) => Some(prev.push(iv)),
                    None => None,
                }
            } else {
                Some(prev)
            },
        }
    }
}

/// What a diagnostic stream reports: its duration and its silences, or the
/// first thing wrong with it.
pub open spec fn report_of(stream: Seq<u8>) -> Result<(nat, Seq<SilenceInterval>), PipelineError> {
    let ls = lines(stream);
    match stream_duration(ls) {
        None => Err(PipelineError::DurationParseFailure),
        Some(t) => match stream_silences(ls) {
            None => Err(PipelineError::MalformedSilenceEvent),
            Some(v) => if v.len() == 0 {
                Err(PipelineError::SilenceDetectionEmpty)
            } else {
                Ok((t, v))
            },
        },
    }
}

/// Reads a clock `H:M:S` into microseconds.
pub fn parse_clock(s: &[u8]) -> (r: Option<u64>)
    ensures
        match r {
            Some(v) => clock_micros(s@) == Some(v as nat),
            None => clock_micros(s@) is None,
        },
{
    let n = s.len();
    let c = colon_bytes();
    let a = match find(s, c.as_slice()) {
        Some(a) => a,
        None => return None,
    };
    let rest = &s[a + 1..n];
    let b = match find(rest, c.as_slice()) {
        Some(b) => b,
        None => return None,
    };
    let h = match parse_micros(&s[0..a]) {
        Some(v) => v,
        None => return None,
    };
    let m = match parse_micros(&rest[0..b]) {
        Some(v) => v,
        None => return None,
    };
    let sec = match parse_micros(&rest[b + 1..rest.len()]) {
        Some(v) => v,
        None => return None,
    };
    let v: u128 = (h as u128 * 60 + m as u128) * 60 + sec as u128;
    if v <= u64::MAX as u128 {
        Some(v as u64)
    } else {
        None
    }
}

fn duration_line(l: &[u8]) -> (r: bool)
    ensures
        r == is_duration_line(l@),
{
    let d = duration_tag_bytes();
    let s = start_tag_bytes();
    let b = bitrate_tag_bytes();
    find(l, d.as_slice()).is_some() && find(l, s.as_slice()).is_some() && find(
        l,
        b.as_slice(),
    ).is_some()
}

fn line_duration_value(l: &[u8]) -> (r: Option<u64>)
    ensures
        match r {
            Some(v) => line_duration(l@) == Some(v as nat),
            None => line_duration(l@) is None,
        },
{
    let n = l.len();
    let dt = duration_tag_bytes();
    let st = start_tag_bytes();
    let d = match find(l, dt.as_slice()) {
        Some(d) => d,
        None => return None,
    };
    let rest = &l[d + dt.len()..n];
    let t = match find(rest, st.as_slice()) {
        Some(t) => t,
        None => return None,
    };
    parse_clock(&rest[0..t])
}

fn silence_line(l: &[u8]) -> (r: bool)
    ensures
        r == is_silence_line(l@),
{
    let e = end_tag_bytes();
    find(l, e.as_slice()).is_some()
}

fn line_silence_value(l: &[u8]) -> (r: Option<SilenceInterval>)
    ensures
        r == line_silence(l@),
{
    let n = l.len();
    let et = end_tag_bytes();
    let gt = gap_tag_bytes();
    let e = match find(l, et.as_slice()) {
        Some(e) => e,
        None => return None,
    };
    let rest = &l[e + et.len()..n];
    let p = match find(rest, gt.as_slice()) {
        Some(p) => p,
        None => return None,
    };
    let end = match parse_micros(&rest[0..p]) {
        Some(v) => v,
        None => return None,
    };
    let d = match parse_micros(&rest[p + gt.len()..rest.len()]) {
        Some(v) => v,
        None => return None,
    };
    if d > 0 {
        Some(SilenceInterval { end_micros: end, duration_micros: d })
    } else {
        None
    }
}

proof fn lemma_silences_none_extends(ls: Seq<Seq<u8>>, i: int)
    requires
        0 <= i <= ls.len(),
        stream_silences(ls.subrange(0, i)) is None,
    ensures
        stream_silences(ls) is None,
    decreases ls.len() - i,
{
    if i == ls.len() {
        assert(ls.subrange(0, i) =~= ls);
    } else {
        assert(ls.subrange(0, i + 1).drop_last() =~= ls.subrange(0, i));
        lemma_silences_none_extends(ls, i + 1);
    }
}

/// Index of the first line that reports the stream duration.
fn first_duration_line(ls: &Vec<Vec<u8>>) -> (r: Option<usize>)
    ensures
        match r {
            Some(i) => is_first_duration_line(ls.deep_view(), i as int),
            None => forall|j: int| !is_first_duration_line(ls.deep_view(), j),
        },
{
    let ghost lv = ls.deep_view();
    let mut i: usize = 0;
    while i < ls.len()
        invariant
            lv == ls.deep_view(),
            i <= ls@.len(),
            forall|j: int| 0 <= j < i ==> !is_duration_line(#[trigger] lv[j]),
        decreases ls@.len() - i,
    {
        assert(ls[i as int]@ =~= lv[i as int]);
        if duration_line(ls[i].as_slice()) {
            return Some(i);
        }
        i = i + 1;
    }
    None
}

/// The silences of all silence lines, or `None` when one is not well formed.
fn collect_silences(ls: &Vec<Vec<u8>>) -> (r: Option<Vec<SilenceInterval>>)
    ensures
        match r {
            Some(v) => stream_silences(ls.deep_view()) == Some(v@),
            None => stream_silences(ls.deep_view()) is None,
        },
{
    let ghost lv = ls.deep_view();
    let mut out: Vec<SilenceInterval> = Vec::new();
    let mut i: usize = 0;
    assert(lv.subrange(0, 0) =~= Seq::<Seq<u8>>::empty());
    while i < ls.len()
        invariant
            lv == ls.deep_view(),
            i <= ls@.len(),
            stream_silences(lv.subrange(0, i as int)) == Some(out@),
        decreases ls@.len() - i,
    {
        assert(ls[i as int]@ =~= lv[i as int]);
        assert(lv.subrange(0, i + 1).drop_last() =~= lv.subrange(0, i as int));
        assert(lv.subrange(0, i + 1).last() == lv[i as int]);
        let line = ls[i].as_slice();
        if silence_line(line) {
            match line_silence_value(line) {
                Some(iv) => {
                    out.push(iv);
                },
                None => {
                    proof {
                        lemma_silences_none_extends(lv, i + 1);
                    }
                    return None;
                },
            }
        }
        i = i + 1;
    }
    assert(lv.subrange(0, i as int) =~= lv);
    Some(out)
}

/// Decodes the diagnostic stream of a silence-detection pass: the duration
/// of the first duration line and the silence of every silence line.
pub fn parse_silence_report(stream: &[u8]) -> (r: Result<SilenceReport, PipelineError>)
    ensures
        match r {
            Ok(rep) => report_of(stream@) == Ok::<(nat, Seq<SilenceInterval>), PipelineError>(
                (rep.total_micros as nat, rep.silences@),
            ),
            Err(e) => report_of(stream@) == Err::<(nat, Seq<SilenceInterval>), PipelineError>(e),
        },
{
    let ls = split_lines(stream);
    let ghost lv = ls.deep_view();
    let total = match first_duration_line(&ls) {
        Some(i) => {
            proof {
                assert forall|k: int| is_first_duration_line(lv, k) implies k == i by {
                    if k < i {
                        assert(!is_duration_line(lv[k]));
                    }
                    if i < k {
                        assert(!is_duration_line(lv[i as int]));
                    }
                }
            }
            assert(ls[i as int]@ =~= lv[i as int]);
            match line_duration_value(ls[i].as_slice()) {
                Some(t) => t,
                None => return Err(PipelineError::DurationParseFailure),
            }
        },
        None => return Err(PipelineError::DurationParseFailure),
    };
    let silences = match collect_silences(&ls) {
        Some(v) => v,
        None => return Err(PipelineError::MalformedSilenceEvent),
    };
    if silences.len() == 0 {
        return Err(PipelineError::SilenceDetectionEmpty);
    }
    Ok(SilenceReport { total_micros: total, silences })
}

} // verus!
