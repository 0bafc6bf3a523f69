//! The analysis of a track.
use music_player::spectrum::{
    after_analysis, after_preview, analyze_track, analyze_track_preview, analyze_track_with_limit,
    band_bins, frame_starts, worker_chunks, AnalysisMessage, Chunk, SampleStep,
};
use music_player::track::TrackVisual;

fn visual(spectra: Vec<Vec<usize>>) -> TrackVisual {
    TrackVisual { duration: None, spectra }
}

fn chunks(pairs: &[(usize, usize)]) -> Vec<Chunk> {
    pairs.iter().map(|(start, end)| Chunk { start: *start, end: *end }).collect()
}

#[test]
fn an_analysis_starts() {
    let analysis = analyze_track(2, 44_100, 10);
    assert_eq!(analysis.channels, 2);
    assert_eq!(analysis.hop_size, 1_837);
    assert_eq!(analysis.sample_limit, None);
    assert_eq!(analysis.height, 10);
    assert_eq!((analysis.channel_index, analysis.mono_samples), (0, 0));
}

#[test]
fn slow_tracks_have_a_spectrum_for_each_sample() {
    assert_eq!(analyze_track(1, 24, 10).hop_size, 1);
    assert_eq!(analyze_track(1, 23, 10).hop_size, 1);
    assert_eq!(analyze_track(1, 1, 10).hop_size, 1);
    assert_eq!(analyze_track(1, 48, 10).hop_size, 2);
}

#[test]
fn a_preview_is_limited() {
    assert_eq!(analyze_track_preview(2, 44_100, 10).sample_limit, Some(882_000));
    assert_eq!(analyze_track_preview(1, u32::MAX, 10).sample_limit, Some(85_899_345_900));
    assert_eq!(analyze_track_with_limit(2, 8_000, 10, Some(24_000)).sample_limit, Some(24_000));
    assert_eq!(analyze_track_with_limit(2, 8_000, 10, None).sample_limit, None);
}

#[test]
fn samples_of_the_channels_are_mixed() {
    let mut analysis = analyze_track(3, 44_100, 10);
    for taken in 1..=30 {
        let step = analysis.next_sample();
        let expected = if taken % 3 == 0 { SampleStep::Mixed } else { SampleStep::Partial };
        assert_eq!(step, expected);
        assert_eq!(analysis.mono_samples, taken / 3);
        assert_eq!(analysis.channel_index, taken % 3);
    }
}

#[test]
fn a_limit_ends_the_analysis() {
    let mut analysis = analyze_track_with_limit(2, 2, 10, Some(2));
    let steps = (0..6).map(|_| analysis.next_sample()).collect::<Vec<_>>();
    assert_eq!(
        steps,
        vec![
            SampleStep::Partial,
            SampleStep::Mixed,
            SampleStep::Partial,
            SampleStep::Last,
            SampleStep::Partial,
            SampleStep::Last,
        ]
    );
    let mut empty = analyze_track_with_limit(1, 44_100, 10, Some(0));
    assert_eq!(empty.next_sample(), SampleStep::Last);
}

#[test]
fn spectra_start_at_even_distances() {
    assert_eq!(frame_starts(0, 4), Vec::<usize>::new());
    assert_eq!(frame_starts(1, 4), vec![0]);
    assert_eq!(frame_starts(8, 4), vec![0, 4]);
    assert_eq!(frame_starts(9, 4), vec![0, 4, 8]);
    assert_eq!(frame_starts(3, usize::MAX), vec![0]);
    for count in 0..50 {
        for hop in 1..20 {
            assert_eq!(frame_starts(count, hop), (0..count).step_by(hop).collect::<Vec<_>>());
        }
    }
}

#[test]
fn one_worker_does_everything() {
    for threads in [None, Some(0), Some(1), Some(2), Some(3)] {
        assert_eq!(worker_chunks(threads, 5), chunks(&[(0, 5)]));
    }
    assert_eq!(worker_chunks(Some(16), 1), chunks(&[(0, 1)]));
    assert_eq!(worker_chunks(Some(16), 0), chunks(&[(0, 0)]));
}

#[test]
fn workers_share_the_spectra() {
    assert_eq!(worker_chunks(Some(4), 10), chunks(&[(0, 5), (5, 10)]));
    assert_eq!(worker_chunks(Some(5), 10), chunks(&[(0, 4), (4, 8), (8, 10)]));
    assert_eq!(worker_chunks(Some(16), 3), chunks(&[(0, 1), (1, 2), (2, 3)]));
    assert_eq!(worker_chunks(Some(6), 6), chunks(&[(0, 2), (2, 4), (4, 6)]));
}

#[test]
fn shares_put_together_are_the_whole() {
    for threads in 0..12_usize {
        for jobs in 1..60_usize {
            let starts = (0..jobs).collect::<Vec<_>>();
            let shares = worker_chunks(Some(threads), jobs);
            let joined = shares
                .iter()
                .flat_map(|share| starts[share.start..share.end].to_vec())
                .collect::<Vec<_>>();
            assert_eq!(joined, starts);
            let workers = threads.saturating_sub(2).max(1).min(jobs).max(1);
            let lengths = starts.chunks(jobs.div_ceil(workers)).map(|part| part.len());
            assert!(lengths.eq(shares.iter().map(|share| share.end - share.start)));
        }
    }
}

#[test]
fn bands_have_bins() {
    assert_eq!(band_bins(2, 5, 2_048), Chunk { start: 2, end: 5 });
    assert_eq!(band_bins(2, 2, 2_048), Chunk { start: 2, end: 3 });
    assert_eq!(band_bins(2, 1, 2_048), Chunk { start: 2, end: 3 });
    assert_eq!(band_bins(1_000, 3_000, 2_048), Chunk { start: 1_000, end: 1_024 });
    assert_eq!(band_bins(1_024, 1_024, 2_048), Chunk { start: 1_024, end: 1_024 });
}

#[test]
fn a_preview_is_reported() {
    let (report, go_on) = after_preview(Ok(visual(vec![vec![3]])));
    assert!(matches!(report, Some(AnalysisMessage::Preview(shown)) if shown.spectra == vec![vec![3]]));
    assert!(go_on);
}

#[test]
fn an_empty_preview_is_not_reported() {
    let (report, go_on) = after_preview(Ok(visual(Vec::new())));
    assert!(report.is_none());
    assert!(go_on);
}

#[test]
fn a_failed_preview_ends_the_analysis() {
    let (report, go_on) = after_preview(Err(String::from("broken")));
    assert!(matches!(report, Some(AnalysisMessage::Failed(error)) if error == "broken"));
    assert!(!go_on);
}

#[test]
fn the_end_of_an_analysis_is_reported() {
    let report = after_analysis(Ok(visual(Vec::new())));
    assert!(matches!(report, AnalysisMessage::Complete(shown) if shown.spectra.is_empty()));
    let report = after_analysis(Err(String::from("broken")));
    assert!(matches!(report, AnalysisMessage::Failed(error) if error == "broken"));
}
