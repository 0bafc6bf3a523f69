//! The meter.
use music_player::meter::{
    bar_segment, get_peak_color, get_theme_color, meter_bar_count, meter_content_width,
    visualizer_levels, RowColor, METER_HEIGHT, SPECTRUM_BANDS,
};
use music_player::mode::VisualizerTheme;
use music_player::panels::{should_draw_peak, MeterColumn};
use music_player::style::Color;
use music_player::track::TrackVisual;

const THEMES: [VisualizerTheme; 4] = [
    VisualizerTheme::Cyberpunk,
    VisualizerTheme::Sunset,
    VisualizerTheme::Aurora,
    VisualizerTheme::Classic,
];

fn visual(spectra: Vec<Vec<usize>>) -> TrackVisual {
    TrackVisual { duration: None, spectra }
}

#[test]
fn bars_are_counted() {
    assert_eq!(meter_bar_count(0), 1);
    assert_eq!(meter_bar_count(4), 1);
    assert_eq!(meter_bar_count(5), 2);
    assert_eq!(meter_bar_count(56), 19);
    assert_eq!(meter_bar_count(116), 39);
    assert_eq!(meter_bar_count(143), 48);
    assert_eq!(meter_bar_count(1_000), SPECTRUM_BANDS);
}

#[test]
fn bars_have_gaps_between_them() {
    assert_eq!(meter_content_width(0), 0);
    assert_eq!(meter_content_width(1), 2);
    assert_eq!(meter_content_width(2), 5);
    assert_eq!(meter_content_width(48), 143);
}

#[test]
fn bars_fit_into_their_panel() {
    for inner_width in 2..400 {
        let bars = meter_bar_count(inner_width);
        assert!(meter_content_width(bars) <= inner_width);
        assert!(bars == SPECTRUM_BANDS || meter_content_width(bars + 1) > inner_width);
    }
}

#[test]
fn levels_are_low_without_spectra() {
    assert_eq!(visualizer_levels(None, 72, 4), vec![1, 1, 1, 1]);
    assert_eq!(visualizer_levels(Some(&visual(Vec::new())), 72, 2), vec![1, 1]);
    assert_eq!(visualizer_levels(Some(&visual(vec![Vec::new()])), 0, 2), vec![1, 1]);
    assert_eq!(visualizer_levels(None, 0, 0), Vec::<usize>::new());
}

#[test]
fn levels_are_those_of_the_frame() {
    let frames = visual((0..100).map(|frame| vec![frame]).collect());
    for frame in 0..100 {
        assert_eq!(visualizer_levels(Some(&frames), frame, 1), vec![frame]);
    }
}

#[test]
fn the_last_spectrum_stays() {
    let frames = visual((0..100).map(|frame| vec![frame]).collect());
    for frame in [99, 100, 5_000, usize::MAX] {
        assert_eq!(visualizer_levels(Some(&frames), frame, 2), vec![99, 99]);
    }
}

#[test]
fn columns_spread_the_bands() {
    let bands = visual(vec![(10..58).collect()]);
    let levels = visualizer_levels(Some(&bands), 0, 16);
    assert_eq!(levels, vec![10, 13, 16, 19, 22, 25, 28, 31, 34, 37, 40, 43, 46, 49, 52, 55]);
    let few = visual(vec![vec![7, 8, 9]]);
    assert_eq!(visualizer_levels(Some(&few), 0, 5), vec![7, 7, 8, 8, 9]);
}

#[test]
fn a_paused_meter_has_one_colour() {
    for theme in THEMES {
        for row in 1..=METER_HEIGHT {
            let slate = RowColor::Fixed(Color::Rgb { r: 85, g: 95, b: 110 });
            assert_eq!(get_theme_color(theme, row, METER_HEIGHT, true), slate);
        }
        assert_eq!(get_peak_color(theme, true), Color::Rgb { r: 60, g: 65, b: 75 });
    }
}

#[test]
fn themes_colour_the_rows() {
    let stops = [
        ((106, 0, 244), (0, 245, 212), (255, 0, 127)),
        ((255, 210, 0), (247, 127, 0), (214, 40, 40)),
        ((10, 36, 99), (0, 180, 216), (144, 224, 169)),
        ((46, 196, 182), (255, 159, 28), (231, 29, 54)),
    ];
    for (theme, (foot, middle, top)) in THEMES.into_iter().zip(stops) {
        for row in 1..=5 {
            let lower = RowColor::Lower { from: foot, to: middle };
            assert_eq!(get_theme_color(theme, row, 10, false), lower);
        }
        for row in 6..=10 {
            let upper = RowColor::Upper { from: middle, to: top };
            assert_eq!(get_theme_color(theme, row, 10, false), upper);
        }
    }
}

#[test]
fn the_halves_of_the_meter_are_told_apart() {
    for height in 2..60_usize {
        for row in 1..=height {
            let y = (row - 1) as f32 / (height - 1) as f32;
            let color = get_theme_color(VisualizerTheme::Aurora, row, height, false);
            assert_eq!(matches!(color, RowColor::Lower { .. }), y < 0.5);
            assert_eq!(matches!(color, RowColor::Upper { .. }), y >= 0.5);
        }
    }
    let single = get_theme_color(VisualizerTheme::Aurora, 1, 1, false);
    assert!(matches!(single, RowColor::Upper { .. }));
}

#[test]
fn large_rows_are_counted_in_single_precision() {
    let mut sizes = vec![1_usize, 2, 3, 10, usize::MAX, usize::MAX - 1];
    for bits in 20..64 {
        for offset in 0..9 {
            sizes.push((1_usize << bits) - 4 + offset);
            sizes.push((1_usize << bits) + (1_usize << (bits - 1)) + offset);
            sizes.push((3_usize << (bits - 2)) + (1_usize << (bits - 20)) * offset);
        }
    }
    for height in &sizes {
        for half in [*height, *height / 2, *height / 2 + 1, *height / 2 + 2, *height / 2 + 3] {
            let row = half.max(1);
            let y = (row - 1) as f32 / (*height - 1) as f32;
            let color = get_theme_color(VisualizerTheme::Aurora, row, *height, false);
            assert_eq!(matches!(color, RowColor::Lower { .. }), y < 0.5, "{} {}", row, height);
        }
    }
    for row in [(1 << 24) + 2, (1 << 24) + 4, (1 << 25) + 7, (1 << 30) + 63] {
        for step in 0..40_usize {
            let level = (row - 20 + step) as f32;
            let fill = (level - (row - 1) as f32).clamp(0.0, 1.0);
            let expected = if fill == 0.0 { ' ' } else { '█' };
            assert_eq!(bar_segment(row, (level * 8.0).round() as usize), expected);
        }
    }
}

#[test]
fn themes_colour_the_peaks() {
    assert_eq!(get_peak_color(THEMES[0], false), Color::Rgb { r: 255, g: 100, b: 200 });
    assert_eq!(get_peak_color(THEMES[1], false), Color::Rgb { r: 255, g: 255, b: 255 });
    assert_eq!(get_peak_color(THEMES[2], false), Color::Rgb { r: 200, g: 255, b: 220 });
    assert_eq!(get_peak_color(THEMES[3], false), Color::Rgb { r: 255, g: 80, b: 80 });
}

#[test]
fn bars_fill_their_rows() {
    let row = (0..=9).map(|level| bar_segment(1, level)).collect::<String>();
    assert_eq!(row, " ░░▒▒▓▓███");
    let bar = (1..=4).map(|row| bar_segment(row, 19)).collect::<String>();
    assert_eq!(bar, "██▒ ");
    assert_eq!(bar_segment(usize::MAX, usize::MAX), ' ');
    assert_eq!(bar_segment(1, usize::MAX), '█');
}

#[test]
fn bars_are_as_high_as_their_levels() {
    for step in 0..2_000 {
        let level = step as f32 * 0.0061;
        for row in 1..=METER_HEIGHT {
            let fill = (level - (row - 1) as f32).clamp(0.0, 1.0);
            let expected = match (fill * 8.0).round() as usize {
                0 => ' ',
                1 | 2 => '░',
                3 | 4 => '▒',
                5 | 6 => '▓',
                _ => '█',
            };
            assert_eq!(bar_segment(row, (level * 8.0).round() as usize), expected);
        }
    }
}

#[test]
fn peaks_are_marked_where_they_stand_out() {
    let column = MeterColumn { level: 3, peak_row: 4, stands_out: true };
    assert!(should_draw_peak(4, &column));
    assert!(!should_draw_peak(5, &column));
    assert!(!should_draw_peak(4, &MeterColumn { stands_out: false, ..column }));
}
