use vstd::prelude::*;

verus! {

/// Instantaneous measurement details of one forecast sample. The temperature
/// is held in milli-degrees Celsius, so the whole document is plain integer
/// data.
#[derive(Clone, Copy, Debug, PartialEq, Eq, Structural)]
pub struct Details {
    pub air_temperature: i64,
}

#[derive(Clone, Copy, Debug, PartialEq, Eq, Structural)]
pub struct Instant {
    pub details: Details,
}

#[derive(Clone, Copy, Debug, PartialEq, Eq, Structural)]
pub struct Data {
    pub instant: Instant,
}

/// One forecast sample: the moment it describes, as seconds since the Unix
/// epoch, and the data predicted for that moment.
#[derive(Clone, Copy, Debug, PartialEq, Eq, Structural)]
pub struct Timeseries {
    pub time: i64,
    pub data: Data,
}

#[derive(Debug)]
pub struct Properties {
    pub timeseries: Vec<Timeseries>,
}

/// A decoded forecast document: a chronological list of hourly samples as the
/// upstream source returned it. Immutable once decoded; it is consumed only
/// through the pure projection `next_n_hours`.
#[derive(Debug)]
pub struct Response {
    pub properties: Properties,
}

pub open spec fn sample_temperature(s: Timeseries) -> i64 {
    s.data.instant.details.air_temperature
}

/// The samples of `ts` that lie strictly after `now`, in their original
/// order, truncated to the first `n`.
pub open spec fn project_samples(ts: Seq<Timeseries>, now: i64, n: int) -> Seq<Timeseries>
    decreases ts.len(),
{
    if n <= 0 || ts.len() == 0 {
        Seq::empty()
    } else if ts[0].time > now {
        seq![ts[0]] + project_samples(ts.skip(1), now, n - 1)
    } else {
        project_samples(ts.skip(1), now, n)
    }
}

/// The temperatures of the projected samples, in the same order.
pub open spec fn project_temperatures(ts: Seq<Timeseries>, now: i64, n: int) -> Seq<i64> {
    project_samples(ts, now, n).map_values(|s: Timeseries| sample_temperature(s))
}

/// How many samples of `ts` lie strictly after `now`.
pub open spec fn future_count(ts: Seq<Timeseries>, now: i64) -> nat
    decreases ts.len(),
{
    if ts.len() == 0 {
        0
    } else if ts[0].time > now {
        1 + future_count(ts.skip(1), now)
    } else {
        future_count(ts.skip(1), now)
    }
}

/// The samples are in non-decreasing time order.
pub open spec fn chronological(ts: Seq<Timeseries>) -> bool {
    forall|i: int, j: int| 0 <= i < j < ts.len() ==> ts[i].time <= ts[j].time
}

impl Response {
    /// The document's sample list, as the contracts see it.
    pub open spec fn spec_samples(&self) -> Seq<Timeseries> {
        self.properties.timeseries@
    }

    /// Project the document onto the strictly-future samples: keep those with
    /// `time > now`, in their original order, and take at most the first `n`
    /// temperatures. A short result is valid output, never padded.
    pub fn next_n_hours(&self, now: i64, n: usize) -> (r: Vec<i64>)
        ensures
            r@ == project_temperatures(self.spec_samples(), now, n as int),
    {
        let ts = &self.properties.timeseries;
        let mut r: Vec<i64> = Vec::new();
        let mut i: usize = 0;
        while i < ts.len()
            invariant
                i <= ts@.len(),
                r@ == project_temperatures(ts@.take(i as int), now, n as int),
                r@.len() <= n,
            decreases ts@.len() - i,
        {
            let e = ts[i];
            proof {
                lemma_project_samples_snoc(ts@.take(i as int), ts@[i as int], now, n as int);
                assert(ts@.take(i + 1 as int) =~= ts@.take(i as int).push(ts@[i as int]));
            }
            if e.time > now && r.len() < n {
                r.push(e.data.instant.details.air_temperature);
            }
            proof {
                assert(r@ =~= project_temperatures(ts@.take(i + 1 as int), now, n as int));
            }
            i += 1;
        }
        proof {
            assert(ts@.take(ts@.len() as int) =~= ts@);
        }
        r
    }
}

/// Appending one sample on the right extends the projection exactly when the
/// sample is strictly future and the truncation bound is not yet reached.
proof fn lemma_project_samples_snoc(ts: Seq<Timeseries>, e: Timeseries, now: i64, n: int)
    ensures
        project_samples(ts.push(e), now, n) == (if e.time > now && project_samples(
            ts,
            now,
            n,
        ).len() < n {
            project_samples(ts, now, n).push(e)
        } else {
            project_samples(ts, now, n)
        }),
    decreases ts.len(),
{
    if n <= 0 {
        assert(project_samples(ts.push(e), now, n) =~= project_samples(ts, now, n));
    } else if ts.len() == 0 {
        assert(ts.push(e)[0] == e);
        assert(ts.push(e).skip(1) =~= Seq::<Timeseries>::empty());
        assert(project_samples(ts, now, n) =~= Seq::<Timeseries>::empty());
        assert(project_samples(Seq::<Timeseries>::empty(), now, n - 1)
            =~= Seq::<Timeseries>::empty());
        assert(project_samples(Seq::<Timeseries>::empty(), now, n) =~= Seq::<Timeseries>::empty());
        if e.time > now {
            assert(project_samples(ts.push(e), now, n) =~= seq![e] + Seq::<Timeseries>::empty());
            assert(seq![e] + Seq::<Timeseries>::empty() =~= project_samples(ts, now, n).push(e));
        } else {
            assert(project_samples(ts.push(e), now, n) =~= project_samples(ts, now, n));
        }
    } else {
        let t0 = ts[0];
        assert(ts.push(e)[0] == t0);
        assert(ts.push(e).skip(1) =~= ts.skip(1).push(e));
        if t0.time > now {
            lemma_project_samples_snoc(ts.skip(1), e, now, n - 1);
            let p = project_samples(ts.skip(1), now, n - 1);
            assert(project_samples(ts, now, n) == seq![t0] + p);
            if e.time > now && p.len() < n - 1 {
                assert(project_samples(ts.push(e), now, n) == seq![t0] + p.push(e));
                assert(seq![t0] + p.push(e) =~= (seq![t0] + p).push(e));
            } else {
                assert(project_samples(ts.push(e), now, n) == seq![t0] + p);
            }
        } else {
            lemma_project_samples_snoc(ts.skip(1), e, now, n);
        }
    }
}

/// Every projected sample lies strictly after `now` and occurs in the
/// document.
pub proof fn lemma_projection_returns_only_future(ts: Seq<Timeseries>, now: i64, n: int)
    ensures
        forall|k: int|
            0 <= k < project_samples(ts, now, n).len() ==> (#[trigger] project_samples(
                ts,
                now,
                n,
            )[k]).time > now && ts.contains(project_samples(ts, now, n)[k]),
    decreases ts.len(),
{
    if n <= 0 || ts.len() == 0 {
    } else {
        let rest = ts.skip(1);
        lemma_projection_returns_only_future(rest, now, n - 1);
        lemma_projection_returns_only_future(rest, now, n);
        assert forall|k: int| 0 <= k < project_samples(ts, now, n).len() implies (
        #[trigger] project_samples(ts, now, n)[k]).time > now && ts.contains(
            project_samples(ts, now, n)[k],
        ) by {
            let p = project_samples(ts, now, n);
            if ts[0].time > now {
                if k == 0 {
                    assert(p[0] == ts[0]);
                    assert(ts.contains(ts[0]));
                } else {
                    let pr = project_samples(rest, now, n - 1);
                    assert(p[k] == pr[k - 1]);
                    let j = choose|j: int| 0 <= j < rest.len() && rest[j] == pr[k - 1];
                    assert(ts[j + 1] == pr[k - 1]);
                    assert(ts.contains(p[k]));
                }
            } else {
                let pr = project_samples(rest, now, n);
                assert(p[k] == pr[k]);
                let j = choose|j: int| 0 <= j < rest.len() && rest[j] == pr[k];
                assert(ts[j + 1] == pr[k]);
                assert(ts.contains(p[k]));
            }
        }
    }
}

/// The projection keeps the document's chronological order: filtering and
/// truncation never reorder samples.
pub proof fn lemma_projection_preserves_order(ts: Seq<Timeseries>, now: i64, n: int)
    requires
        chronological(ts),
    ensures
        chronological(project_samples(ts, now, n)),
    decreases ts.len(),
{
    if n <= 0 || ts.len() == 0 {
    } else {
        let rest = ts.skip(1);
        assert(chronological(rest));
        lemma_projection_preserves_order(rest, now, n - 1);
        lemma_projection_preserves_order(rest, now, n);
        if ts[0].time > now {
            let pr = project_samples(rest, now, n - 1);
            lemma_projection_returns_only_future(rest, now, n - 1);
            let p = project_samples(ts, now, n);
            assert forall|i: int, j: int| 0 <= i < j < p.len() implies p[i].time <= p[j].time by {
                if i == 0 {
                    let w = choose|w: int| 0 <= w < rest.len() && rest[w] == pr[j - 1];
                    assert(ts[w + 1] == pr[j - 1]);
                    assert(ts[0].time <= ts[w + 1].time);
                } else {
                    assert(p[i] == pr[i - 1] && p[j] == pr[j - 1]);
                }
            }
        }
    }
}

/// The projection returns `min(n, future_count)` samples: never more than
/// asked for, and never padded beyond what the document holds.
pub proof fn lemma_projection_length(ts: Seq<Timeseries>, now: i64, n: int)
    requires
        n >= 0,
    ensures
        project_samples(ts, now, n).len() == (if future_count(ts, now) < n {
            future_count(ts, now) as int
        } else {
            n
        }),
    decreases ts.len(),
{
    if n == 0 || ts.len() == 0 {
    } else {
        lemma_projection_length(ts.skip(1), now, n - 1);
        lemma_projection_length(ts.skip(1), now, n);
    }
}

/// The projection is a pure function: equal documents, reference times and
/// bounds give equal results, however often it is applied.
pub proof fn lemma_projection_pure(
    ts1: Seq<Timeseries>,
    ts2: Seq<Timeseries>,
    now1: i64,
    now2: i64,
    n1: int,
    n2: int,
)
    requires
        ts1 == ts2,
        now1 == now2,
        n1 == n2,
    ensures
        project_temperatures(ts1, now1, n1) == project_temperatures(ts2, now2, n2),
{
}

} // verus!
