//! Interval percentiles over time.
//!
//! A second histogram is read and reset once per interval of completions, so
//! the series shows when a stall happened and not only that there was one.

use vstd::prelude::*;
use vstd::string::StringExecFns;

verus! {

/// Completions between two samples.
pub const SAMPLE_INTERVAL: usize = 1_000;

/// What to do with the interval's histogram.
#[derive(Clone, Copy, Debug, PartialEq, Eq, Structural)]
pub enum SampleStep {
    /// The interval is not over.
    Wait,
    /// The interval is over and recorded nothing: reset only.
    Reset,
    /// The interval is over: take a sample, and reset.
    SampleAndReset,
}

/// What to do with the interval's histogram after a completion. Once the
/// interval is over its count starts again.
pub fn maybe_sample(interval_is_empty: bool, interval_count: &mut usize) -> (step: SampleStep)
    ensures
        *old(interval_count) < SAMPLE_INTERVAL ==> {
            &&& step == SampleStep::Wait
            &&& *final(interval_count) == *old(interval_count)
        },
        *old(interval_count) >= SAMPLE_INTERVAL ==> {
            &&& step == (if interval_is_empty {
                SampleStep::Reset
            } else {
                SampleStep::SampleAndReset
            })
            &&& *final(interval_count) == 0
        },
{
    if *interval_count >= SAMPLE_INTERVAL {
        *interval_count = 0;
        if interval_is_empty {
            SampleStep::Reset
        } else {
            SampleStep::SampleAndReset
        }
    } else {
        SampleStep::Wait
    }
}

/// One sample, with its numbers as they are printed.
#[derive(Debug)]
pub struct LatencySample {
    pub elapsed_secs: String,
    pub p99_us: String,
    pub p999_us: String,
    pub p9999_us: String,
}

/// A sample in the results file.
pub open spec fn sample_text(s: LatencySample) -> Seq<char> {
    "{\"elapsed_secs\":"@ + s.elapsed_secs@ + ",\"p99_us\":"@ + s.p99_us@ + ",\"p999_us\":"@
        + s.p999_us@ + ",\"p9999_us\":"@ + s.p9999_us@ + "}"@
}

/// Samples in the results file, each behind a comma but the first.
pub open spec fn series_body(series: Seq<LatencySample>) -> Seq<char>
    decreases series.len(),
{
    if series.len() == 0 {
        Seq::empty()
    } else if series.len() == 1 {
        sample_text(series[0])
    } else {
        series_body(series.drop_last()) + ","@ + sample_text(series.last())
    }
}

/// The `time_series` array of the results file.
pub fn to_json(series: &[LatencySample]) -> (json: String)
    ensures
        json@ == "["@ + series_body(series@) + "]"@,
{
    let mut json: String = "[".to_owned();
    let mut i: usize = 0;
    assert(series@.take(0) =~= Seq::empty());
    assert("["@ + series_body(series@.take(0)) =~= "["@);
    while i < series.len()
        invariant
            0 <= i <= series@.len(),
            json@ == "["@ + series_body(series@.take(i as int)),
        decreases series@.len() - i,
    {
        let ghost before = series@.take(i as int);
        if i > 0 {
            json.append(",");
        }
        json.append("{\"elapsed_secs\":");
        json.append(series[i].elapsed_secs.as_str());
        json.append(",\"p99_us\":");
        json.append(series[i].p99_us.as_str());
        json.append(",\"p999_us\":");
        json.append(series[i].p999_us.as_str());
        json.append(",\"p9999_us\":");
        json.append(series[i].p9999_us.as_str());
        json.append("}");
        proof {
            let after = series@.take(i + 1);
            assert(after.drop_last() =~= before);
            let text = sample_text(series@[i as int]);
            assert(after.last() == series@[i as int]);
            if i == 0 {
                assert(json@ =~= "["@ + text);
            } else {
                assert(json@ =~= "["@ + (series_body(before) + ","@ + text));
            }
        }
        i = i + 1;
    }
    assert(series@.take(i as int) =~= series@);
    json.append("]");
    json
}

/// A sample is due at a thousand completions and not before, and is taken
/// where something was recorded; the count then starts again.
pub proof fn law_sample_at_a_thousand(empty: bool, count: &mut usize, step: SampleStep)
    requires
        call_ensures(maybe_sample, (empty, count), step),
    ensures
        step is Wait <==> *old(count) < 1000,
        step is Wait ==> *final(count) == *old(count),
        step !is Wait ==> *final(count) == 0,
        step is Reset ==> empty,
        step is SampleAndReset ==> !empty,
{
}

} // verus!
