//! The meter that shows the spectrum of the track that plays.
use vstd::math::{max, min};
use vstd::prelude::*;
use crate::mode::VisualizerTheme;
use crate::style::Color;
use crate::track::{visual_of, TrackVisual};

verus! {

/// The number of frequency bands of a spectrum.
pub const SPECTRUM_BANDS: usize = 48;

/// The number of spectra in a second.
pub const SPECTRUM_FPS: u32 = 24;

/// The number of columns of a bar.
pub const METER_BAR_WIDTH: usize = 2;

/// The number of columns between bars.
pub const METER_BAR_GAP: usize = 1;

/// The number of rows of the meter.
pub const METER_HEIGHT: usize = 10;

/// The number of bars for `inner_width` columns: as many as fit, but at least one and
/// at most one for each band.
pub open spec fn bars_for(inner_width: int) -> int {
    let fitting = (inner_width + METER_BAR_GAP) / (METER_BAR_WIDTH + METER_BAR_GAP);
    if fitting < 1 {
        1
    } else if fitting > SPECTRUM_BANDS {
        SPECTRUM_BANDS as int
    } else {
        fitting
    }
}

/// The number of bars for `inner_width` columns.
pub fn meter_bar_count(inner_width: usize) -> (bars: usize)
    requires
        inner_width + METER_BAR_GAP <= usize::MAX,
    ensures
        bars == bars_for(inner_width as int),
{
    let fitting: usize = (inner_width + METER_BAR_GAP) / (METER_BAR_WIDTH + METER_BAR_GAP);
    if fitting < 1 {
        1
    } else if fitting > SPECTRUM_BANDS {
        SPECTRUM_BANDS
    } else {
        fitting
    }
}

/// The number of columns that `bar_count` bars take up with the gaps between them.
pub open spec fn columns_of(bar_count: int) -> int {
    if bar_count == 0 {
        0
    } else {
        bar_count * METER_BAR_WIDTH + (bar_count - 1) * METER_BAR_GAP
    }
}

/// The number of columns that `bar_count` bars take up with the gaps between them.
pub fn meter_content_width(bar_count: usize) -> (columns: usize)
    requires
        columns_of(bar_count as int) <= usize::MAX,
    ensures
        columns == columns_of(bar_count as int),
{
    bar_count * METER_BAR_WIDTH + bar_count.saturating_sub(1) * METER_BAR_GAP
}

/// The bars fit into the columns that they were counted for, and one more bar, if
/// there is a band for it, would not.
pub proof fn bars_fit(inner_width: int)
    requires
        inner_width >= METER_BAR_WIDTH,
    ensures
        columns_of(bars_for(inner_width)) <= inner_width,
        bars_for(inner_width) < SPECTRUM_BANDS ==> columns_of(bars_for(inner_width) + 1)
            > inner_width,
{
}

/// The spectrum to show for a frame: its own, or the last one there is.
pub open spec fn spectrum_at(visual: TrackVisual, frame_index: int) -> Seq<usize> {
    if frame_index < visual.spectra@.len() {
        visual.spectra@[frame_index]@
    } else {
        visual.spectra@.last()@
    }
}

/// The level of one of `column_count` columns that spread `spectrum` evenly.
pub open spec fn level_of(spectrum: Seq<usize>, column: int, column_count: int) -> usize {
    let band = (column * spectrum.len()) / column_count;
    if band < spectrum.len() {
        spectrum[band]
    } else {
        1
    }
}

/// The levels of the meter for a frame: the lowest for every column as long as nothing is
/// known of the spectra.
pub open spec fn levels_at(
    visual: Option<TrackVisual>,
    frame_index: nat,
    column_count: nat,
) -> Seq<usize> {
    match visual {
        Some(visual) if visual.spectra@.len() > 0 => Seq::new(
            column_count,
            |column: int|
                level_of(spectrum_at(visual, frame_index as int), column, column_count as int),
        ),
        _ => Seq::new(column_count, |column: int| 1usize),
    }
}

/// From the last spectrum on the levels stay as they are.
pub proof fn last_spectrum_stays(
    visual: TrackVisual,
    frame_index: nat,
    later_index: nat,
    column_count: nat,
)
    requires
        visual.spectra@.len() - 1 <= frame_index <= later_index,
    ensures
        levels_at(Some(visual), frame_index, column_count) == levels_at(
            Some(visual),
            later_index,
            column_count,
        ),
{
    assert(spectrum_at(visual, frame_index as int) == spectrum_at(visual, later_index as int)
        || visual.spectra@.len() == 0);
}

/// The levels of `column_count` columns of the meter for the frame `frame_index`.
pub fn visualizer_levels(
    visual: Option<&TrackVisual>,
    frame_index: usize,
    column_count: usize,
) -> (levels: Vec<usize>)
    ensures
        levels@ == levels_at(visual_of(visual), frame_index as nat, column_count as nat),
{
    let mut levels: Vec<usize> = Vec::new();
    let known: bool = match visual {
        Some(visual) => visual.spectra.len() > 0,
        None => false,
    };
    if !known {
        for column in 0..column_count
            invariant
                levels@ == Seq::new(column as nat, |c: int| 1usize),
        {
            levels.push(1);
            assert(levels@ =~= Seq::new((column + 1) as nat, |c: int| 1usize));
        }
        return levels;
    }
    let visual: &TrackVisual = visual.unwrap();
    let last: usize = visual.spectra.len() - 1;
    let shown: usize = if frame_index < last {
        frame_index
    } else {
        last
    };
    let spectrum: &Vec<usize> = &visual.spectra[shown];
    let ghost heights = spectrum_at(*visual, frame_index as int);
    assert(spectrum@ == heights);
    for column in 0..column_count
        invariant
            spectrum@ == heights,
            levels@ == Seq::new(
                column as nat,
                |c: int| level_of(heights, c, column_count as int),
            ),
    {
        let bands: usize = spectrum.len();
        proof {
            assert(0 <= column * bands <= u64::MAX * u64::MAX) by (nonlinear_arith)
                requires
                    0 <= column <= u64::MAX,
                    0 <= bands <= u64::MAX,
            ;
        }
        let band: u128 = (column as u128 * bands as u128) / column_count as u128;
        if band < bands as u128 {
            levels.push(spectrum[band as usize]);
        } else {
            levels.push(1);
        }
        assert(levels@ =~= Seq::new(
            (column + 1) as nat,
            |c: int| level_of(heights, c, column_count as int),
        ));
    }
    levels
}

/// Where the spectrum of a track has a band, every column shows one of its bands.
pub proof fn columns_show_bands(spectrum: Seq<usize>, column: int, column_count: int)
    requires
        spectrum.len() > 0,
        0 <= column < column_count,
    ensures
        spectrum.contains(level_of(spectrum, column, column_count)),
{
    let band = (column * spectrum.len()) / column_count;
    let bands = spectrum.len() as int;
    assert(0 <= band < bands) by (nonlinear_arith)
        requires
            0 <= column < column_count,
            bands > 0,
            band == (column * bands) / column_count,
    ;
    assert(spectrum[band] == level_of(spectrum, column, column_count));
}

/// A colour as its red, green and blue parts.
pub type RgbParts = (u8, u8, u8);

/// The colour of a row of the meter: a fixed one, or one on the way between two.
#[derive(Clone, Copy, Debug, PartialEq, Eq)]
pub enum RowColor {
    /// The same colour in every row.
    Fixed(Color),
    /// Between `from` at the foot and `to` in the middle of the meter.
    Lower { from: RgbParts, to: RgbParts },
    /// Between `from` in the middle and `to` at the top of the meter.
    Upper { from: RgbParts, to: RgbParts },
}

/// The colours of a theme at the foot, in the middle and at the top of the meter.
pub open spec fn stops(theme: VisualizerTheme) -> (RgbParts, RgbParts, RgbParts) {
    match theme {
        VisualizerTheme::Cyberpunk => ((106, 0, 244), (0, 245, 212), (255, 0, 127)),
        VisualizerTheme::Sunset => ((255, 210, 0), (247, 127, 0), (214, 40, 40)),
        VisualizerTheme::Aurora => ((10, 36, 99), (0, 180, 216), (144, 224, 169)),
        VisualizerTheme::Classic => ((46, 196, 182), (255, 159, 28), (231, 29, 54)),
    }
}

/// The distance between the numbers of single precision around `n`.
pub open spec fn single_step(n: nat) -> nat
    decreases n,
{
    if n < 0x100_0000 {
        1
    } else {
        2 * single_step(n / 2)
    }
}

/// The number of single precision nearest to `n`; of two that are equally near, the even
/// multiple of their distance.
pub open spec fn single(n: nat) -> nat {
    let step = single_step(n);
    let (below, over) = (n / step, n % step);
    if 2 * over > step || (2 * over == step && below % 2 == 1) {
        (below + 1) * step
    } else {
        below * step
    }
}

/// A number of up to 24 bits is one of single precision.
pub proof fn small_numbers_are_single(n: nat)
    requires
        n < 0x100_0000,
    ensures
        single(n) == n,
{
    assert(single_step(n) == 1);
    assert(n / 1nat == n && n % 1nat == 0);
    assert(n * 1nat == n);
}

/// The distance between the numbers of single precision around `n` is no more than `n`.
proof fn lemma_single_step(n: nat)
    ensures
        1 <= single_step(n),
        n > 0 ==> single_step(n) <= n,
    decreases n,
{
    if n >= 0x100_0000 {
        lemma_single_step(n / 2);
    }
}

/// The number of single precision nearest to `n`.
fn nearest_single(n: usize) -> (nearest: u128)
    ensures
        nearest == single(n as nat),
        nearest <= 2 * n,
{
    let mut step: u128 = 1;
    let mut rest: usize = n;
    proof {
        lemma_single_step(n as nat);
    }
    while rest >= 0x100_0000
        invariant
            single_step(n as nat) == step * single_step(rest as nat),
            1 <= step <= single_step(n as nat) <= n || (step == 1 && n < 0x100_0000),
            1 <= single_step(rest as nat),
        decreases rest,
    {
        proof {
            let (s, inner) = (step as int, single_step((rest / 2) as nat) as int);
            lemma_single_step((rest / 2) as nat);
            assert(s * (2 * inner) == (s * 2) * inner) by (nonlinear_arith);
            assert(s * 2 <= (s * 2) * inner) by (nonlinear_arith)
                requires
                    s >= 1,
                    inner >= 1,
            ;
        }
        step = step * 2;
        rest = rest / 2;
    }
    assert(single_step(n as nat) == step) by {
        assert(single_step(rest as nat) == 1);
        assert(step * 1 == step);
    }
    let below: u128 = n as u128 / step;
    let over: u128 = n as u128 % step;
    proof {
        let (s, b, m) = (step as int, below as int, n as int);
        vstd::arithmetic::div_mod::lemma_fundamental_div_mod(m, s);
        assert(b * s <= m && (b + 1) * s == b * s + s) by (nonlinear_arith)
            requires
                m == s * b + m % s,
                m % s >= 0,
        ;
    }
    if 2 * over > step || (2 * over == step && below % 2 == 1) {
        (below + 1) * step
    } else {
        below * step
    }
}

/// Whether a row is in the lower half of the meter.
pub open spec fn in_lower_half(row: int, height: int) -> bool {
    2 * single((row - 1) as nat) < single((height - 1) as nat)
}

/// The colour of a row, the lowest being row 1 of `height`: a slate blue while
/// playback is paused, else between two colours of the theme, by the half of the
/// meter that the row is in. Rows are counted in single precision, in which the way
/// between the colours is measured.
pub open spec fn row_color(
    theme: VisualizerTheme,
    row: int,
    height: int,
    is_paused: bool,
) -> RowColor {
    let (foot, middle, top) = stops(theme);
    if is_paused {
        RowColor::Fixed(Color::Rgb { r: 85, g: 95, b: 110 })
    } else if in_lower_half(row, height) {
        RowColor::Lower { from: foot, to: middle }
    } else {
        RowColor::Upper { from: middle, to: top }
    }
}

/// The colour of row `row` of `height`, the lowest being row 1.
pub fn get_theme_color(
    theme: VisualizerTheme,
    row: usize,
    height: usize,
    is_paused: bool,
) -> (color: RowColor)
    requires
        is_paused || (1 <= row && 1 <= height),
    ensures
        color == row_color(theme, row as int, height as int, is_paused),
{
    if is_paused {
        return RowColor::Fixed(Color::Rgb { r: 85, g: 95, b: 110 });
    }
    let (foot, middle, top): (RgbParts, RgbParts, RgbParts) = match theme {
        VisualizerTheme::Cyberpunk => ((106, 0, 244), (0, 245, 212), (255, 0, 127)),
        VisualizerTheme::Sunset => ((255, 210, 0), (247, 127, 0), (214, 40, 40)),
        VisualizerTheme::Aurora => ((10, 36, 99), (0, 180, 216), (144, 224, 169)),
        VisualizerTheme::Classic => ((46, 196, 182), (255, 159, 28), (231, 29, 54)),
    };
    if 2 * nearest_single(row - 1) < nearest_single(height - 1) {
        RowColor::Lower { from: foot, to: middle }
    } else {
        RowColor::Upper { from: middle, to: top }
    }
}

/// The two halves of the meter meet in one colour.
pub proof fn halves_meet(theme: VisualizerTheme, lower_row: int, upper_row: int, height: int)
    requires
        in_lower_half(lower_row, height),
        !in_lower_half(upper_row, height),
    ensures
        row_color(theme, lower_row, height, false) is Lower,
        row_color(theme, upper_row, height, false) is Upper,
        row_color(theme, lower_row, height, false)->Lower_to == row_color(
            theme,
            upper_row,
            height,
            false,
        )->Upper_from,
{
}

/// In a meter of up to 2^24 rows the lower half holds the rows with more above them than
/// below.
pub proof fn lower_half_is_below(row: int, height: int)
    requires
        1 <= row <= height <= 0x100_0000,
    ensures
        in_lower_half(row, height) <==> row - 1 < height - row,
{
    small_numbers_are_single((row - 1) as nat);
    small_numbers_are_single((height - 1) as nat);
}

/// The colour of the mark at the peak of a bar.
pub open spec fn peak_color(theme: VisualizerTheme, is_paused: bool) -> Color {
    if is_paused {
        Color::Rgb { r: 60, g: 65, b: 75 }
    } else {
        match theme {
            VisualizerTheme::Cyberpunk => Color::Rgb { r: 255, g: 100, b: 200 },
            VisualizerTheme::Sunset => Color::Rgb { r: 255, g: 255, b: 255 },
            VisualizerTheme::Aurora => Color::Rgb { r: 200, g: 255, b: 220 },
            VisualizerTheme::Classic => Color::Rgb { r: 255, g: 80, b: 80 },
        }
    }
}

/// The colour of the mark at the peak of a bar.
pub fn get_peak_color(theme: VisualizerTheme, is_paused: bool) -> (color: Color)
    ensures
        color == peak_color(theme, is_paused),
{
    if is_paused {
        return Color::Rgb { r: 60, g: 65, b: 75 };
    }
    match theme {
        VisualizerTheme::Cyberpunk => Color::Rgb { r: 255, g: 100, b: 200 },
        VisualizerTheme::Sunset => Color::Rgb { r: 255, g: 255, b: 255 },
        VisualizerTheme::Aurora => Color::Rgb { r: 200, g: 255, b: 220 },
        VisualizerTheme::Classic => Color::Rgb { r: 255, g: 80, b: 80 },
    }
}

/// The character for a row that a bar fills to `eighths` eighths.
pub open spec fn segment(eighths: int) -> char {
    if eighths == 0 {
        ' '
    } else if eighths == 1 || eighths == 2 {
        '░'
    } else if eighths == 3 || eighths == 4 {
        '▒'
    } else if eighths == 5 || eighths == 6 {
        '▓'
    } else {
        '█'
    }
}

/// How many eighths of row `row` a bar fills that is `level` eighths of a row high, the
/// lowest row being row 1. Rows are counted in single precision, in which levels are
/// measured.
pub open spec fn filled_eighths(row: int, level: int) -> int {
    min(max(level - 8 * single((row - 1) as nat), 0), 8)
}

/// In a meter of up to 2^24 rows a bar fills the rows below its top, none above it, and all
/// of them together to its height.
pub proof fn bars_fill_from_below(row: int, level: int)
    requires
        1 <= row < 0x100_0000,
        0 <= level,
    ensures
        filled_eighths(row + 1, level) > 0 ==> filled_eighths(row, level) == 8,
        0 <= filled_eighths(row, level) <= 8,
        min(level, 8 * row) == min(level, 8 * (row - 1)) + filled_eighths(row, level),
{
    small_numbers_are_single((row - 1) as nat);
    small_numbers_are_single(row as nat);
}

/// The character that a bar shows in row `row`, the lowest being row 1. The bar is `level`
/// eighths of a row high.
pub fn bar_segment(row: usize, level: usize) -> (c: char)
    requires
        1 <= row,
    ensures
        c == segment(filled_eighths(row as int, level as int)),
{
    let below: u128 = 8 * nearest_single(row - 1);
    let above: u128 = (level as u128).saturating_sub(below);
    let eighths: u128 = if above < 8 {
        above
    } else {
        8
    };
    match eighths {
        0 => ' ',
        1 | 2 => '░',
        3 | 4 => '▒',
        5 | 6 => '▓',
        _ => '█',
    }
}

/// There is a bar at least, and no more bars than bands; where not even one fits there is
/// one.
pub proof fn bars_are_counted(inner_width: int)
    requires
        inner_width >= 0,
    ensures
        1 <= bars_for(inner_width) <= 48,
        inner_width < 5 ==> bars_for(inner_width) == 1,
        inner_width >= 143 ==> bars_for(inner_width) == 48,
        bars_for(inner_width) <= bars_for(inner_width + 1) <= bars_for(inner_width) + 1,
{
}

/// A bar is two columns wide, and each further one takes three with the gap before it.
pub proof fn bars_take_up_columns(bar_count: int)
    requires
        bar_count >= 1,
    ensures
        columns_of(0) == 0,
        columns_of(1) == 2,
        columns_of(bar_count + 1) == columns_of(bar_count) + 3,
{
}

/// A frame shows its own spectrum.
pub proof fn frames_show_their_spectra(visual: TrackVisual, frame_index: int)
    requires
        0 <= frame_index < visual.spectra@.len(),
    ensures
        spectrum_at(visual, frame_index) == visual.spectra@[frame_index]@,
        spectrum_at(visual, visual.spectra@.len() as int) == visual.spectra@[visual.spectra@.len()
            - 1]@,
{
}

/// A column shows the band that stands where the column does: as far into the spectrum as
/// the column is into the meter. Without bands it shows the lowest level.
pub proof fn columns_stand_for_bands(
    spectrum: Seq<usize>,
    column: int,
    column_count: int,
    band: int,
)
    requires
        0 <= column < column_count,
        spectrum.len() > 0 ==> 0 <= band && band * column_count <= column * spectrum.len() < (band
            + 1) * column_count,
    ensures
        spectrum.len() > 0 ==> band < spectrum.len() && level_of(spectrum, column, column_count)
            == spectrum[band],
        spectrum.len() == 0 ==> level_of(spectrum, column, column_count) == 1,
{
    let bands = spectrum.len() as int;
    if bands > 0 {
        let b = (column * bands) / column_count;
        assert(b == band && band < bands) by (nonlinear_arith)
            requires
                b == (column * bands) / column_count,
                0 <= column < column_count,
                bands > 0,
                0 <= band,
                band * column_count <= column * bands < (band + 1) * column_count,
        ;
    }
}

/// There is a level for each column: that of the frame's spectrum, or the lowest where no
/// spectra are known.
pub proof fn every_column_has_its_level(
    visual: Option<TrackVisual>,
    frame_index: nat,
    column_count: nat,
    column: int,
)
    requires
        0 <= column < column_count,
    ensures
        levels_at(visual, frame_index, column_count).len() == column_count,
        visual is None || visual->0.spectra@.len() == 0 ==> levels_at(
            visual,
            frame_index,
            column_count,
        )[column] == 1,
        visual is Some && visual->0.spectra@.len() > 0 ==> levels_at(
            visual,
            frame_index,
            column_count,
        )[column] == level_of(
            spectrum_at(visual->0, frame_index as int),
            column,
            column_count as int,
        ),
{
}

/// While playback is held every row has one colour, whatever the theme; else a row has the
/// colours of its half of the theme.
pub proof fn rows_are_coloured_by_half(
    theme: VisualizerTheme,
    row: int,
    height: int,
)
    ensures
        row_color(theme, row, height, true) == RowColor::Fixed(
            Color::Rgb { r: 85, g: 95, b: 110 },
        ),
        in_lower_half(row, height) ==> row_color(theme, row, height, false) == (RowColor::Lower {
            from: stops(theme).0,
            to: stops(theme).1,
        }),
        !in_lower_half(row, height) ==> row_color(theme, row, height, false) == (RowColor::Upper {
            from: stops(theme).1,
            to: stops(theme).2,
        }),
{
}

/// A number is rounded to single precision to within half the distance between numbers
/// there: a power of two that leaves 24 bits of the number. What lies in the middle goes to
/// the even side.
pub proof fn single_is_nearest(n: nat)
    ensures
        2 * single(n) <= 2 * n + single_step(n),
        2 * n <= 2 * single(n) + single_step(n),
        single(n) % single_step(n) == 0,
        n < 0x100_0000 ==> single_step(n) == 1,
        n >= 0x100_0000 ==> 0x80_0000 * single_step(n) <= n < 0x100_0000 * single_step(n),
        2 * single(n) == 2 * n + single_step(n) || 2 * n == 2 * single(n) + single_step(n) ==> (
        single(n) / single_step(n)) % 2 == 0,
{
    let step = single_step(n) as int;
    let m = n as int;
    lemma_single_step(n);
    lemma_single_step_fits(n);
    let (below, over) = (m / step, m % step);
    vstd::arithmetic::div_mod::lemma_fundamental_div_mod(m, step);
    assert(m == below * step + over) by (nonlinear_arith)
        requires
            m == step * below + over,
    ;
    assert((below + 1) * step == below * step + step) by (nonlinear_arith);
    vstd::arithmetic::div_mod::lemma_mod_multiples_basic(below, step);
    vstd::arithmetic::div_mod::lemma_mod_multiples_basic(below + 1, step);
    vstd::arithmetic::div_mod::lemma_div_by_multiple(below, step);
    vstd::arithmetic::div_mod::lemma_div_by_multiple(below + 1, step);
    assert(below >= 0) by (nonlinear_arith)
        requires
            below == m / step,
            m >= 0,
            step > 0,
    ;
    assert(single(n) == if 2 * over > step || (2 * over == step && below % 2 == 1) {
        (below + 1) * step
    } else {
        below * step
    });
}

/// The distance leaves 24 bits of a large number.
proof fn lemma_single_step_fits(n: nat)
    ensures
        n < 0x100_0000 * single_step(n),
        n >= 0x100_0000 ==> 0x80_0000 * single_step(n) <= n,
    decreases n,
{
    if n >= 0x100_0000 {
        lemma_single_step_fits(n / 2);
        if n / 2 < 0x100_0000 {
            assert(single_step(n / 2) == 1);
        }
    }
}

/// Rows are told apart, and filled, by their places in single precision.
pub proof fn rows_are_counted_in_single_precision(row: int, height: int, level: int)
    requires
        1 <= row,
        1 <= height,
        0 <= level,
    ensures
        in_lower_half(row, height) <==> 2 * single((row - 1) as nat) < single((height - 1) as nat),
        level <= 8 * single((row - 1) as nat) ==> filled_eighths(row, level) == 0,
        8 * single((row - 1) as nat) <= level <= 8 * single((row - 1) as nat) + 8
            ==> filled_eighths(row, level) == level - 8 * single((row - 1) as nat),
        level >= 8 * single((row - 1) as nat) + 8 ==> filled_eighths(row, level) == 8,
{
}

/// A row that is filled shows it in five steps, and the fuller the denser.
pub proof fn fuller_rows_are_denser(eighths: int)
    ensures
        segment(0) == ' ',
        1 <= eighths <= 2 ==> segment(eighths) == '░',
        3 <= eighths <= 4 ==> segment(eighths) == '▒',
        5 <= eighths <= 6 ==> segment(eighths) == '▓',
        7 <= eighths ==> segment(eighths) == '█',
{
}

/// The colours of the themes, from the foot of the meter to its top, and of the peaks.
pub proof fn themes_have_their_colors(theme: VisualizerTheme)
    ensures
        stops(VisualizerTheme::Cyberpunk) == ((106u8, 0u8, 244u8), (0u8, 245u8, 212u8), (255u8, 0u8, 127u8)),
        stops(VisualizerTheme::Sunset) == ((255u8, 210u8, 0u8), (247u8, 127u8, 0u8), (214u8, 40u8, 40u8)),
        stops(VisualizerTheme::Aurora) == ((10u8, 36u8, 99u8), (0u8, 180u8, 216u8), (144u8, 224u8, 169u8)),
        stops(VisualizerTheme::Classic) == ((46u8, 196u8, 182u8), (255u8, 159u8, 28u8), (231u8, 29u8, 54u8)),
        peak_color(theme, true) == (Color::Rgb { r: 60, g: 65, b: 75 }),
        peak_color(VisualizerTheme::Cyberpunk, false) == (Color::Rgb { r: 255, g: 100, b: 200 }),
        peak_color(VisualizerTheme::Sunset, false) == (Color::Rgb { r: 255, g: 255, b: 255 }),
        peak_color(VisualizerTheme::Aurora, false) == (Color::Rgb { r: 200, g: 255, b: 220 }),
        peak_color(VisualizerTheme::Classic, false) == (Color::Rgb { r: 255, g: 80, b: 80 }),
{
}

} // verus!
