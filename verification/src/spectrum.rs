//! The analysis of a track: which samples go into which spectrum, who computes it, and
//! what is reported of it.
use vstd::math::{max, min};
use vstd::prelude::*;
use crate::meter::SPECTRUM_FPS;
use crate::track::TrackVisual;

verus! {

/// The length of the part that is analysed for a preview, in seconds.
pub const SPECTRUM_PREVIEW_SECONDS: u64 = 20;

/// The number of threads that are left to others.
pub const ANALYSIS_RESERVED_THREADS: usize = 2;

/// An analysis under way: how samples are gathered, and how far that is.
pub struct TrackAnalysis {
    /// The number of channels, whose samples take turns.
    pub channels: usize,
    /// The number of mixed samples between the starts of two spectra.
    pub hop_size: usize,
    /// The number of mixed samples after which gathering stops.
    pub sample_limit: Option<u128>,
    /// The height of the highest level.
    pub height: usize,
    /// The number of samples of the mixed sample begun.
    pub channel_index: usize,
    /// The number of mixed samples.
    pub mono_samples: usize,
}

/// What to do with a sample.
#[derive(Clone, Copy, Debug, PartialEq, Eq, Structural)]
pub enum SampleStep {
    /// Add it to the mixed sample begun.
    Partial,
    /// It completes a mixed sample.
    Mixed,
    /// It completes the last mixed sample.
    Last,
}

/// The number of mixed samples between the starts of two spectra.
pub open spec fn hop_of(sample_rate: int) -> int {
    if sample_rate / (SPECTRUM_FPS as int) >= 1 {
        sample_rate / (SPECTRUM_FPS as int)
    } else {
        1
    }
}

impl TrackAnalysis {
    /// Whether fewer samples are begun than make a mixed one.
    pub open spec fn wf(self) -> bool {
        self.channel_index < self.channels
    }

    /// The number of samples taken in.
    pub open spec fn samples(self) -> int {
        self.mono_samples * self.channels + self.channel_index
    }

    /// Whether enough samples are mixed.
    pub open spec fn full(self) -> bool {
        match self.sample_limit {
            Some(limit) => self.mono_samples >= limit,
            None => false,
        }
    }

    /// What to do with the sample that was taken in last.
    pub open spec fn last_step(self) -> SampleStep {
        if self.channel_index > 0 {
            SampleStep::Partial
        } else if self.full() {
            SampleStep::Last
        } else {
            SampleStep::Mixed
        }
    }

    /// Takes in one more sample, and tells what to do with it.
    pub fn next_sample(&mut self) -> (step: SampleStep)
        requires
            old(self).wf(),
            old(self).mono_samples < usize::MAX,
        ensures
            final(self).wf(),
            final(self).channels == old(self).channels,
            final(self).hop_size == old(self).hop_size,
            final(self).sample_limit == old(self).sample_limit,
            final(self).height == old(self).height,
            final(self).samples() == old(self).samples() + 1,
            step == final(self).last_step(),
            step == (if final(self).channel_index > 0 {
                SampleStep::Partial
            } else if final(self).full() {
                SampleStep::Last
            } else {
                SampleStep::Mixed
            }),
    {
        let ghost before = *self;
        self.channel_index = self.channel_index + 1;
        if self.channel_index < self.channels {
            return SampleStep::Partial;
        }
        self.channel_index = 0;
        self.mono_samples = self.mono_samples + 1;
        proof {
            let m = before.mono_samples as int;
            let c = before.channels as int;
            assert((m + 1) * c == m * c + c) by (nonlinear_arith);
        }
        match self.sample_limit {
            Some(limit) => {
                if self.mono_samples as u128 >= limit {
                    SampleStep::Last
                } else {
                    SampleStep::Mixed
                }
            },
            None => SampleStep::Mixed,
        }
    }
}

/// Starts the analysis of a track of `channels` channels with `sample_rate` samples a
/// second each, of its first `max_mono_samples` mixed samples where that is given.
pub fn analyze_track_with_limit(
    channels: usize,
    sample_rate: u32,
    height: usize,
    max_mono_samples: Option<u128>,
) -> (analysis: TrackAnalysis)
    requires
        channels > 0,
    ensures
        analysis.wf(),
        analysis.channels == channels,
        analysis.hop_size == hop_of(sample_rate as int),
        analysis.height == height,
        analysis.samples() == 0,
        analysis.sample_limit == max_mono_samples,
{
    let hop: usize = (sample_rate / SPECTRUM_FPS) as usize;
    let hop_size: usize = if hop >= 1 {
        hop
    } else {
        1
    };
    TrackAnalysis {
        channels,
        hop_size,
        sample_limit: max_mono_samples,
        height,
        channel_index: 0,
        mono_samples: 0,
    }
}

/// Starts the analysis of the beginning of a track.
pub fn analyze_track_preview(channels: usize, sample_rate: u32, height: usize) -> (analysis:
    TrackAnalysis)
    requires
        channels > 0,
    ensures
        analysis.wf(),
        analysis.channels == channels,
        analysis.hop_size == hop_of(sample_rate as int),
        analysis.height == height,
        analysis.samples() == 0,
        analysis.sample_limit is Some,
        analysis.sample_limit->0 == SPECTRUM_PREVIEW_SECONDS * sample_rate,
{
    let limit: u128 = SPECTRUM_PREVIEW_SECONDS as u128 * sample_rate as u128;
    analyze_track_with_limit(channels, sample_rate, height, Some(limit))
}

/// Starts the analysis of a whole track.
pub fn analyze_track(channels: usize, sample_rate: u32, height: usize) -> (analysis: TrackAnalysis)
    requires
        channels > 0,
    ensures
        analysis.wf(),
        analysis.channels == channels,
        analysis.hop_size == hop_of(sample_rate as int),
        analysis.height == height,
        analysis.samples() == 0,
        analysis.sample_limit is None,
{
    analyze_track_with_limit(channels, sample_rate, height, None)
}

/// Samples are mixed in whole turns of the channels: how many are mixed and how many
/// are begun follows from the number of samples taken in.
pub proof fn samples_mix_by_turns(analysis: TrackAnalysis)
    requires
        analysis.wf(),
    ensures
        analysis.mono_samples == analysis.samples() / (analysis.channels as int),
        analysis.channel_index == analysis.samples() % (analysis.channels as int),
{
    vstd::arithmetic::div_mod::lemma_fundamental_div_mod_converse(
        analysis.samples(),
        analysis.channels as int,
        analysis.mono_samples as int,
        analysis.channel_index as int,
    );
}

/// `a / b`, rounded up.
pub open spec fn ceil_div(a: int, b: int) -> int {
    (a + b - 1) / b
}

/// The starts of the spectra of `sample_count` mixed samples: one every `hop_size`
/// samples, from the first on.
pub open spec fn starts_of(sample_count: int, hop_size: int) -> Seq<usize> {
    Seq::new(ceil_div(sample_count, hop_size) as nat, |k: int| (k * hop_size) as usize)
}

/// The starts of the spectra of `sample_count` mixed samples.
pub fn frame_starts(sample_count: usize, hop_size: usize) -> (starts: Vec<usize>)
    requires
        hop_size > 0,
    ensures
        starts@ == starts_of(sample_count as int, hop_size as int),
        forall|k: int| 0 <= k < starts@.len() ==> #[trigger] starts@[k] < sample_count,
{
    let mut starts: Vec<usize> = Vec::new();
    let mut start: usize = 0;
    let ghost n = sample_count as int;
    let ghost h = hop_size as int;
    let ghost mut done = false;
    assert(0 * h == 0) by (nonlinear_arith);
    while start < sample_count
        invariant
            n == sample_count,
            h == hop_size,
            h > 0,
            !done ==> start == starts@.len() * h,
            done ==> start == n && starts@.len() * h >= n,
            starts@.len() > 0 ==> (starts@.len() - 1) * h < n,
            forall|k: int| 0 <= k < starts@.len() ==> #[trigger] starts@[k] < n && starts@[k] == k * h,
        decreases sample_count - start,
    {
        starts.push(start);
        proof {
            let c = starts@.len() as int;
            assert(c * h == (c - 1) * h + h) by (nonlinear_arith);
        }
        if hop_size < sample_count - start {
            start = start + hop_size;
        } else {
            start = sample_count;
            proof {
                done = starts@.len() * h != n;
            }
        }
    }
    proof {
        let c = starts@.len() as int;
        assert(c == ceil_div(n, h)) by (nonlinear_arith)
            requires
                h > 0,
                n >= 0,
                c >= 0,
                c * h >= n,
                c > 0 ==> (c - 1) * h < n,
        ;
        assert(starts@ =~= starts_of(n, h));
    }
    starts
}

/// The number of workers for `jobs` spectra: the threads that are not reserved, but no
/// more than there are spectra, and at least one.
pub open spec fn workers_for(available_threads: Option<usize>, jobs: int) -> int {
    let available = match available_threads {
        Some(threads) => threads as int,
        None => 1,
    };
    let free = available - ANALYSIS_RESERVED_THREADS;
    if free <= 1 || jobs <= 1 {
        1
    } else if free > jobs {
        jobs
    } else {
        free
    }
}

/// A part of a list: the positions from `start` up to, not including, `end`.
#[derive(Clone, Copy, Debug, PartialEq, Eq, Structural)]
pub struct Chunk {
    pub start: usize,
    pub end: usize,
}

/// `jobs` spectra in chunks of `size`, the last one smaller where they do not come out
/// even.
pub open spec fn chunks_of(jobs: int, size: int) -> Seq<Chunk> {
    Seq::new(
        ceil_div(jobs, size) as nat,
        |k: int|
            Chunk {
                start: (k * size) as usize,
                end: (if (k + 1) * size < jobs {
                    (k + 1) * size
                } else {
                    jobs
                }) as usize,
            },
    )
}

/// How `jobs` spectra are shared out among workers: evenly, each worker's in one chunk.
pub open spec fn shares(available_threads: Option<usize>, jobs: int) -> Seq<Chunk> {
    let workers = workers_for(available_threads, jobs);
    if workers == 1 {
        seq![Chunk { start: 0, end: jobs as usize }]
    } else {
        chunks_of(jobs, ceil_div(jobs, workers))
    }
}

/// How `jobs` spectra are shared out among workers.
pub fn worker_chunks(available_threads: Option<usize>, jobs: usize) -> (chunks: Vec<Chunk>)
    ensures
        chunks@ == shares(available_threads, jobs as int),
{
    let available: usize = match available_threads {
        Some(threads) => threads,
        None => 1,
    };
    let free: usize = available.saturating_sub(ANALYSIS_RESERVED_THREADS);
    let workers: usize = if free <= 1 || jobs <= 1 {
        1
    } else if free > jobs {
        jobs
    } else {
        free
    };
    let mut chunks: Vec<Chunk> = Vec::new();
    if workers == 1 {
        chunks.push(Chunk { start: 0, end: jobs });
        assert(chunks@ =~= shares(available_threads, jobs as int));
        return chunks;
    }
    let whole: usize = jobs / workers;
    let size: usize = if jobs % workers == 0 {
        whole
    } else {
        proof {
            assert(whole < jobs) by (nonlinear_arith)
                requires
                    whole == jobs / workers,
                    workers >= 2,
                    jobs >= 1,
            ;
        }
        whole + 1
    };
    proof {
        let (j, w) = (jobs as int, workers as int);
        vstd::arithmetic::div_mod::lemma_fundamental_div_mod(j, w);
        let (q, r) = (j / w, j % w);
        assert(size == ceil_div(j, w) && size > 0) by (nonlinear_arith)
            requires
                w >= 2,
                j >= w,
                j == w * q + r,
                0 <= r < w,
                size == (if r == 0 {
                    q
                } else {
                    q + 1
                }),
        ;
    }
    let starts = frame_starts(jobs, size);
    for k in 0..starts.len()
        invariant
            size > 0,
            starts@ == starts_of(jobs as int, size as int),
            forall|i: int| 0 <= i < starts@.len() ==> #[trigger] starts@[i] < jobs,
            chunks@ == chunks_of(jobs as int, size as int).take(k as int),
    {
        let start: usize = starts[k];
        let end: usize = if size < jobs - start {
            start + size
        } else {
            jobs
        };
        proof {
            let c = ceil_div(jobs as int, size as int);
            let (j, s, i) = (jobs as int, size as int, k as int);
            assert(starts@[i] == (i * s) as usize);
            assert(i * s < j && i * s >= 0) by (nonlinear_arith)
                requires
                    s > 0,
                    j >= 0,
                    0 <= i < (j + s - 1) / s,
            ;
            assert((i + 1) * s == i * s + s) by (nonlinear_arith);
        }
        chunks.push(Chunk { start, end });
        assert(chunks@ =~= chunks_of(jobs as int, size as int).take(k + 1));
    }
    assert(chunks@ =~= chunks_of(jobs as int, size as int));
    chunks
}

/// The chunks lie one behind the other from the first spectrum to the last, so what the
/// workers compute, put together in their order, is what one alone would have computed.
pub proof fn chunks_cover_all(available_threads: Option<usize>, jobs: usize)
    ensures
        ({
            let chunks = shares(available_threads, jobs as int);
            &&& chunks.len() > 0
            &&& chunks[0].start == 0
            &&& chunks.last().end == jobs
            &&& forall|k: int|
                0 <= k < chunks.len() ==> (#[trigger] chunks[k]).start <= chunks[k].end <= jobs
            &&& forall|k: int|
                0 <= k < chunks.len() - 1 ==> (#[trigger] chunks[k]).end == chunks[k + 1].start
        }),
{
    let j = jobs as int;
    let w = workers_for(available_threads, j);
    if w > 1 {
        let s = ceil_div(j, w);
        assert(s > 0) by (nonlinear_arith)
            requires
                s == (j + w - 1) / w,
                j >= w,
                w > 1,
        ;
        let chunks = chunks_of(j, s);
        let c = ceil_div(j, s);
        assert(c > 0 && (c - 1) * s < j && c * s >= j) by (nonlinear_arith)
            requires
                c == (j + s - 1) / s,
                s > 0,
                j > 0,
        ;
        assert forall|k: int| 0 <= k < c implies 0 <= #[trigger] (k * s) < j && (k + 1) * s == k * s
            + s by {
            assert(0 <= k * s <= (c - 1) * s && (k + 1) * s == k * s + s) by (nonlinear_arith)
                requires
                    0 <= k <= c - 1,
                    s > 0,
            ;
        }
        assert(0 * s == 0);
        assert forall|k: int| 0 <= k < chunks.len() implies (#[trigger] chunks[k]).start
            <= chunks[k].end <= jobs by {
            assert(0 <= k * s < j);
        }
        assert forall|k: int| 0 <= k < chunks.len() - 1 implies (#[trigger] chunks[k]).end == chunks[k
            + 1].start by {
            assert(0 <= k * s < j);
            assert(0 <= (k + 1) * s < j);
        }
        assert(((c - 1) + 1) * s >= j);
        assert(0 <= (c - 1) * s < j);
        assert(chunks[0].start == 0);
    }
}

/// Where the bins of a frequency band end.
pub open spec fn bins_end(start_bin: int, end_bin: int, bin_count: int) -> int {
    min(max(end_bin, start_bin + 1), bin_count / 2)
}

/// A band has the bins that it was given, and one at least, as far as the lower half of the
/// bins goes.
pub proof fn bands_have_bins(start_bin: int, end_bin: int, bin_count: int)
    requires
        0 <= start_bin <= bin_count / 2,
    ensures
        start_bin == bin_count / 2 ==> bins_end(start_bin, end_bin, bin_count) == start_bin,
        start_bin < bin_count / 2 ==> start_bin < bins_end(start_bin, end_bin, bin_count),
        bins_end(start_bin, end_bin, bin_count) <= bin_count / 2,
        start_bin < end_bin <= bin_count / 2 ==> bins_end(start_bin, end_bin, bin_count) == end_bin,
        end_bin > bin_count / 2 ==> bins_end(start_bin, end_bin, bin_count) == bin_count / 2,
        end_bin <= start_bin < bin_count / 2 ==> bins_end(start_bin, end_bin, bin_count) == start_bin
            + 1,
{
}

/// The bins that make up a frequency band, of `bin_count` bins whose second half mirrors
/// the first: at least one, as far as the first half goes.
pub fn band_bins(start_bin: usize, end_bin: usize, bin_count: usize) -> (bins: Chunk)
    requires
        start_bin <= bin_count / 2,
    ensures
        bins.start == start_bin,
        bins.end == bins_end(start_bin as int, end_bin as int, bin_count as int),
        bins.end == min(max(end_bin as int, start_bin + 1), (bin_count / 2) as int),
        bins.start <= bins.end <= bin_count / 2,
{
    let half: usize = bin_count / 2;
    if start_bin == half {
        return Chunk { start: start_bin, end: half };
    }
    let wanted: usize = if end_bin > start_bin {
        end_bin
    } else {
        start_bin + 1
    };
    Chunk {
        start: start_bin,
        end: if wanted < half {
            wanted
        } else {
            half
        },
    }
}

/// What the background analysis of a track reports.
pub enum AnalysisMessage {
    /// The beginning of the track is analysed.
    Preview(TrackVisual),
    /// The whole track is analysed.
    Complete(TrackVisual),
    /// The track could not be analysed.
    Failed(String),
}

/// What is reported of a preview: one that holds something, or its failure.
pub open spec fn preview_report(preview: Result<TrackVisual, String>) -> Option<AnalysisMessage> {
    match preview {
        Ok(visual) => if visual.spectra@.len() > 0 {
            Some(AnalysisMessage::Preview(visual))
        } else {
            None
        },
        Err(error) => Some(AnalysisMessage::Failed(error)),
    }
}

/// What is reported of a whole analysis.
pub open spec fn final_report(analysis: Result<TrackVisual, String>) -> AnalysisMessage {
    match analysis {
        Ok(visual) => AnalysisMessage::Complete(visual),
        Err(error) => AnalysisMessage::Failed(error),
    }
}

/// What is reported of a preview, and whether the whole track is still to be analysed.
pub fn after_preview(preview: Result<TrackVisual, String>) -> (report: (Option<AnalysisMessage>, bool))
    ensures
        report.0 == preview_report(preview),
        report.1 == (preview is Ok),
{
    match preview {
        Ok(visual) => {
            if visual.spectra.len() > 0 {
                (Some(AnalysisMessage::Preview(visual)), true)
            } else {
                (None, true)
            }
        },
        Err(error) => (Some(AnalysisMessage::Failed(error)), false),
    }
}

/// What is reported of a whole analysis.
pub fn after_analysis(analysis: Result<TrackVisual, String>) -> (report: AnalysisMessage)
    ensures
        report == final_report(analysis),
{
    match analysis {
        Ok(visual) => AnalysisMessage::Complete(visual),
        Err(error) => AnalysisMessage::Failed(error),
    }
}

/// All that is reported of a track.
pub open spec fn reports(
    preview: Result<TrackVisual, String>,
    analysis: Result<TrackVisual, String>,
) -> Seq<AnalysisMessage> {
    let first = match preview_report(preview) {
        Some(message) => seq![message],
        None => Seq::empty(),
    };
    if preview is Ok {
        first.push(final_report(analysis))
    } else {
        first
    }
}

/// The reports of a track end with the one that says whether it could be analysed, and
/// only a preview comes before it.
pub proof fn reports_end_once(
    preview: Result<TrackVisual, String>,
    analysis: Result<TrackVisual, String>,
)
    ensures
        ({
            let all = reports(preview, analysis);
            &&& all.len() > 0
            &&& !(all.last() is Preview)
            &&& forall|k: int| 0 <= k < all.len() - 1 ==> all[k] is Preview
            &&& all.last() is Failed <==> preview is Err || analysis is Err
        }),
{
}

/// There are as many spectra a second as frames, or one for each sample of a slow track.
pub proof fn spectra_come_at_the_frame_rate(sample_rate: int)
    requires
        sample_rate >= 0,
    ensures
        hop_of(sample_rate) >= 1,
        sample_rate >= 24 ==> 24 * hop_of(sample_rate) <= sample_rate < 24 * (hop_of(sample_rate) + 1),
        sample_rate < 24 ==> hop_of(sample_rate) == 1,
{
}

/// Gathering ends with the sample that reaches the limit, and without a limit not at all.
pub proof fn gathering_ends_at_the_limit(analysis: TrackAnalysis)
    ensures
        analysis.sample_limit is None ==> !analysis.full(),
        analysis.sample_limit matches Some(limit) ==> (analysis.full() <==> limit
            <= analysis.mono_samples),
{
}

/// A quotient that is rounded up is the smallest number of parts that is enough.
pub proof fn ceil_div_is_enough(a: int, b: int)
    requires
        a >= 0,
        b > 0,
    ensures
        ceil_div(a, b) * b >= a,
        (ceil_div(a, b) - 1) * b < a,
{
    let c = ceil_div(a, b);
    assert(c * b >= a && (c - 1) * b < a) by (nonlinear_arith)
        requires
            c == (a + b - 1) / b,
            a >= 0,
            b > 0,
    ;
}

/// A spectrum starts at every multiple of the hop that is among the samples, in ascending
/// order, and nowhere else.
pub proof fn spectra_start_at_every_hop(sample_count: int, hop_size: int, k: int)
    requires
        0 <= sample_count <= usize::MAX,
        0 < hop_size,
        0 <= k,
    ensures
        k < starts_of(sample_count, hop_size).len() <==> k * hop_size < sample_count,
        k * hop_size < sample_count ==> starts_of(sample_count, hop_size)[k] == k * hop_size,
{
    let c = ceil_div(sample_count, hop_size);
    ceil_div_is_enough(sample_count, hop_size);
    assert(0 <= c && (k < c <==> k * hop_size < sample_count) && k * hop_size >= 0)
        by (nonlinear_arith)
        requires
            c * hop_size >= sample_count,
            (c - 1) * hop_size < sample_count,
            sample_count >= 0,
            hop_size > 0,
            k >= 0,
    ;
}

/// As many workers as threads that are not reserved, but no more than spectra, and at least
/// one.
pub proof fn workers_are_the_free_threads(available_threads: Option<usize>, jobs: int)
    requires
        jobs >= 0,
    ensures
        ({
            let workers = workers_for(available_threads, jobs);
            let threads = match available_threads {
                Some(threads) => threads as int,
                None => 1,
            };
            &&& workers == max(min(max(threads - 2, 1), jobs), 1)
        }),
{
}

/// Workers share evenly: every chunk but the last has as many spectra as the first, the
/// last no more, and there is at least one in each and no more chunks than workers.
pub proof fn workers_share_evenly(available_threads: Option<usize>, jobs: usize, k: int)
    requires
        jobs > 0,
        0 <= k < shares(available_threads, jobs as int).len(),
    ensures
        ({
            let chunks = shares(available_threads, jobs as int);
            let workers = workers_for(available_threads, jobs as int);
            let size = chunks[k].end - chunks[k].start;
            &&& 1 <= size <= ceil_div(jobs as int, workers)
            &&& k < chunks.len() - 1 ==> size == ceil_div(jobs as int, workers)
            &&& chunks.len() <= workers
        }),
{
    let j = jobs as int;
    let w = workers_for(available_threads, j);
    if w == 1 {
        ceil_div_is_enough(j, 1);
        assert(ceil_div(j, 1) * 1 == ceil_div(j, 1));
        assert((ceil_div(j, 1) - 1) * 1 == ceil_div(j, 1) - 1);
    } else {
        let s = ceil_div(j, w);
        ceil_div_is_enough(j, w);
        assert(s > 0) by (nonlinear_arith)
            requires
                s * w >= j,
                j > 0,
                w > 0,
        ;
        let c = ceil_div(j, s);
        ceil_div_is_enough(j, s);
        assert(c <= w) by (nonlinear_arith)
            requires
                (c - 1) * s < j,
                s * w >= j,
                s > 0,
        ;
        assert(0 <= k * s < j && (k + 1) * s == k * s + s && (k < c - 1 ==> (k + 1) * s < j))
            by (nonlinear_arith)
            requires
                0 <= k < c,
                (c - 1) * s < j,
                s > 0,
        ;
    }
}

/// A preview that holds something is reported as it is, an empty one not at all, and a
/// failure with its reason; then the whole track is reported, or its failure.
pub proof fn reports_tell_what_came(
    preview: Result<TrackVisual, String>,
    analysis: Result<TrackVisual, String>,
)
    ensures
        ({
            let all = reports(preview, analysis);
            &&& preview matches Err(error) ==> all == seq![AnalysisMessage::Failed(error)]
            &&& preview matches Ok(visual) ==> (visual.spectra@.len() > 0 <==> all.len() == 2) && (
            visual.spectra@.len() > 0 ==> all[0] == AnalysisMessage::Preview(visual))
            &&& preview is Ok ==> (analysis matches Ok(visual) ==> all.last()
                == AnalysisMessage::Complete(visual)) && (analysis matches Err(error) ==> all.last()
                == AnalysisMessage::Failed(error))
        }),
{
    if let Err(error) = preview {
        assert(reports(preview, analysis) =~= seq![AnalysisMessage::Failed(error)]);
    }
}

/// Without spectra there is one worker, and nothing for it to do.
pub proof fn nothing_is_shared_out_once(available_threads: Option<usize>)
    ensures
        shares(available_threads, 0) == seq![Chunk { start: 0, end: 0 }],
{
}

/// The number of samples taken in is that of the mixed ones, for each channel, and those of
/// the one begun.
pub proof fn samples_are_counted(analysis: TrackAnalysis)
    ensures
        analysis.samples() == analysis.channels * analysis.mono_samples + analysis.channel_index,
        analysis.wf() <==> analysis.channel_index < analysis.channels,
{
    assert(analysis.channels * analysis.mono_samples == analysis.mono_samples * analysis.channels)
        by (nonlinear_arith);
}

/// A sample completes a mixed one if every channel had its turn, that is, at every multiple
/// of their number, and the last one if the limit is then reached.
pub proof fn turns_complete_mixed_samples(analysis: TrackAnalysis)
    requires
        analysis.wf(),
    ensures
        analysis.last_step() == SampleStep::Partial <==> analysis.samples() % (
        analysis.channels as int) != 0,
        analysis.last_step() == SampleStep::Last <==> analysis.samples() % (
        analysis.channels as int) == 0 && (analysis.sample_limit matches Some(limit)
            && analysis.samples() / (analysis.channels as int) >= limit),
{
    samples_mix_by_turns(analysis);
}

} // verus!
