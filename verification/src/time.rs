//! Positions in a track and how they are written.
use vstd::prelude::*;
use crate::text::{all_digits, decimal, push_two_digits, two_digits, value_of};

verus! {

/// The number of nanoseconds in a second.
pub const NANOS_PER_SECOND: u32 = 1_000_000_000;

/// A span of time: whole seconds, and nanoseconds of the second begun.
#[derive(Clone, Copy, Debug, PartialEq, Eq, Structural)]
pub struct PlayTime {
    pub secs: u64,
    pub nanos: u32,
}

impl PlayTime {
    /// Whether the nanoseconds are less than a second.
    pub open spec fn wf(self) -> bool {
        self.nanos < NANOS_PER_SECOND
    }

    /// The span in nanoseconds.
    pub open spec fn total(self) -> int {
        self.secs * NANOS_PER_SECOND + self.nanos
    }

    /// Whether the span is empty.
    pub fn is_zero(&self) -> (yes: bool)
        ensures
            yes == (self.total() == 0),
    {
        self.secs == 0 && self.nanos == 0
    }
}

/// The longest span there is, in nanoseconds.
pub open spec fn longest() -> int {
    u64::MAX * NANOS_PER_SECOND + (NANOS_PER_SECOND - 1)
}

/// `total` nanoseconds moved by `delta` seconds, no further than to either end of
/// what a span can be.
pub open spec fn moved(total: int, delta: int) -> int {
    let there = total + delta * NANOS_PER_SECOND;
    if there < 0 {
        0
    } else if there > longest() {
        longest()
    } else {
        there
    }
}

/// The span of `total` nanoseconds.
pub open spec fn span(total: int) -> PlayTime {
    PlayTime {
        secs: (total / (NANOS_PER_SECOND as int)) as u64,
        nanos: (total % (NANOS_PER_SECOND as int)) as u32,
    }
}

/// A span is the span of its nanoseconds.
pub proof fn lemma_span(time: PlayTime)
    requires
        time.wf(),
    ensures
        span(time.total()) == time,
{
}

/// A span in nanoseconds, where it is known.
pub open spec fn total_of(time: Option<PlayTime>) -> Option<int> {
    match time {
        Some(time) => Some(time.total()),
        None => None,
    }
}

/// Why a seek was not tried.
#[derive(Clone, Copy, Debug, PartialEq, Eq, Structural)]
pub enum SeekError {
    NothingPlaying,
}

impl SeekError {
    /// The error in words.
    pub fn message(&self) -> (text: &'static str)
        ensures
            text@ == "nothing is playing"@,
    {
        "nothing is playing"
    }
}

/// Where a seek by `delta` seconds leads from `current`: no further than to the end
/// of the track, where its length is known.
pub open spec fn seek_goal(current: int, duration: Option<int>, delta: int) -> int {
    let there = moved(current, delta);
    match duration {
        Some(end) => if there > end {
            end
        } else {
            there
        },
        None => there,
    }
}

/// The position to seek to for a step of `delta_seconds` from `current`.
pub fn seek_by(
    current: PlayTime,
    duration: Option<PlayTime>,
    is_playing: bool,
    delta_seconds: i64,
) -> (goal: Result<PlayTime, SeekError>)
    requires
        current.wf(),
        duration matches Some(end) ==> end.wf(),
    ensures
        goal == (if is_playing {
            Ok(span(seek_goal(current.total(), total_of(duration), delta_seconds as int)))
        } else {
            Err(SeekError::NothingPlaying)
        }),
        goal matches Ok(there) ==> there.wf(),
{
    if !is_playing {
        return Err(SeekError::NothingPlaying);
    }
    let there: PlayTime = if delta_seconds < 0 {
        let back: u64 = (-(delta_seconds + 1)) as u64 + 1;
        if current.secs >= back {
            PlayTime { secs: current.secs - back, nanos: current.nanos }
        } else {
            PlayTime { secs: 0, nanos: 0 }
        }
    } else {
        let ahead: u64 = delta_seconds as u64;
        match current.secs.checked_add(ahead) {
            Some(secs) => PlayTime { secs, nanos: current.nanos },
            None => PlayTime { secs: u64::MAX, nanos: NANOS_PER_SECOND - 1 },
        }
    };
    let goal: PlayTime = match duration {
        Some(end) => {
            if there.secs > end.secs || (there.secs == end.secs && there.nanos > end.nanos) {
                end
            } else {
                there
            }
        },
        None => there,
    };
    proof {
        lemma_span(goal);
        assert(goal.total() == seek_goal(
            current.total(),
            total_of(duration),
            delta_seconds as int,
        ));
    }
    Ok(goal)
}

/// A span as minutes and seconds, `MM:SS`; the minutes have more digits where they
/// need them.
pub open spec fn clock_text(secs: nat) -> Seq<char> {
    two_digits(secs / 60) + ":"@ + two_digits(secs % 60)
}

/// `duration` as minutes and seconds.
pub fn format_duration(duration: PlayTime) -> (text: String)
    ensures
        text@ == clock_text(duration.secs as nat),
{
    let mut text = String::new();
    push_two_digits(&mut text, duration.secs / 60);
    text.append(":");
    push_two_digits(&mut text, duration.secs % 60);
    assert(text@ =~= clock_text(duration.secs as nat));
    text
}

/// The position in a track and its length, where that is known.
pub open spec fn progress_text(elapsed: PlayTime, duration: Option<PlayTime>) -> Seq<char> {
    clock_text(elapsed.secs as nat) + (match duration {
        Some(end) => " / "@ + clock_text(end.secs as nat),
        None => " / --:--"@,
    })
}

/// The position in a track and its length, where that is known.
pub fn playback_time(elapsed: PlayTime, duration: Option<PlayTime>) -> (text: String)
    ensures
        text@ == progress_text(elapsed, duration),
{
    let mut text = format_duration(elapsed);
    match duration {
        Some(end) => {
            text.append(" / ");
            text.append(format_duration(end).as_str());
            assert(text@ =~= progress_text(elapsed, duration));
        },
        None => {
            text.append(" / --:--");
        },
    }
    text
}

/// A seek never leads beyond the end of the track.
pub proof fn seek_stays_in_track(current: int, end: int, delta: int)
    requires
        0 <= current,
        0 <= end,
    ensures
        0 <= seek_goal(current, Some(end), delta) <= end,
{
}

/// A step back undoes a step ahead of the same length that neither end cut short.
pub proof fn seek_back_undoes_ahead(current: int, duration: Option<int>, delta: int)
    requires
        0 <= current <= longest(),
        delta >= 0,
        current + delta * NANOS_PER_SECOND <= longest(),
        duration matches Some(end) ==> current + delta * NANOS_PER_SECOND <= end,
    ensures
        seek_goal(seek_goal(current, duration, delta), duration, -delta) == current,
{
    assert((-delta) * NANOS_PER_SECOND == -(delta * NANOS_PER_SECOND)) by (nonlinear_arith);
    assert(delta * NANOS_PER_SECOND >= 0) by (nonlinear_arith)
        requires
            delta >= 0,
    ;
}

/// The numbers below 100 are written with two digits.
proof fn lemma_two_digits_len(n: nat)
    requires
        n < 100,
    ensures
        two_digits(n).len() == 2,
{
    reveal_with_fuel(decimal, 2);
}

/// Positions that differ in their whole seconds are written differently.
pub proof fn clock_text_is_injective(a: nat, b: nat)
    requires
        clock_text(a) == clock_text(b),
    ensures
        a == b,
{
    let (am, sec_a) = (two_digits(a / 60), two_digits(a % 60));
    let (bm, sec_b) = (two_digits(b / 60), two_digits(b % 60));
    lemma_two_digits_len(a % 60);
    lemma_two_digits_len(b % 60);
    let (x, y) = (clock_text(a), clock_text(b));
    let colon = ":"@.len() as int;
    assert(x.len() == am.len() + colon + sec_a.len());
    assert(y.len() == bm.len() + colon + sec_b.len());
    let m = am.len() as int;
    assert(am =~= x.take(m));
    assert(bm =~= y.take(m));
    assert(sec_a =~= x.skip(m + colon));
    assert(sec_b =~= y.skip(m + colon));
    lemma_two_digits_injective(a / 60, b / 60);
    lemma_two_digits_injective(a % 60, b % 60);
}

/// Different numbers are written differently.
proof fn lemma_two_digits_injective(a: nat, b: nat)
    requires
        two_digits(a) == two_digits(b),
    ensures
        a == b,
{
    let zero = seq!['0'];
    if a < 10 && b < 10 {
        assert(decimal(a) =~= two_digits(a).skip(1));
        assert(decimal(b) =~= two_digits(b).skip(1));
        crate::text::decimal_is_injective(a, b);
    } else if a >= 10 && b >= 10 {
        crate::text::decimal_is_injective(a, b);
    } else {
        let n = if a < 10 { b } else { a };
        lemma_no_leading_zero(n);
        assert((zero + decimal(if a < 10 { a } else { b }))[0] == '0');
    }
}

/// A number other than 0 does not start with the digit 0.
proof fn lemma_no_leading_zero(n: nat)
    requires
        n > 0,
    ensures
        decimal(n).len() > 0,
        decimal(n)[0] != '0',
    decreases n,
{
    if n >= 10 {
        lemma_no_leading_zero(n / 10);
        assert(decimal(n)[0] == decimal(n / 10)[0]);
    } else {
        assert(decimal(n)[0] == crate::text::digit(n));
        assert(crate::text::digit(n) as u32 == 48 + n);
    }
}

/// A span is made of its nanoseconds: those of its seconds and those of the second begun.
pub proof fn spans_are_their_nanoseconds(total: int)
    requires
        0 <= total <= longest(),
    ensures
        span(total).wf(),
        span(total).total() == total,
        span(total).secs == total / 1_000_000_000,
        span(total).nanos == total % 1_000_000_000,
{
}

/// Of two spans the one with more seconds is the longer, and of those with equal seconds
/// the one with more nanoseconds.
pub proof fn seconds_decide_first(a: PlayTime, b: PlayTime)
    requires
        a.wf(),
        b.wf(),
    ensures
        a.total() < b.total() <==> a.secs < b.secs || (a.secs == b.secs && a.nanos < b.nanos),
{
}

/// A seek leads where it was asked to, if that is within the track: before its start it
/// leads to the start, behind its end to the end. Where the length is not known, the track
/// ends with the longest span.
pub proof fn seek_goes_where_asked(current: int, duration: Option<int>, delta: int)
    requires
        0 <= current <= longest(),
        duration matches Some(end) ==> 0 <= end <= longest(),
    ensures
        ({
            let asked = current + delta * 1_000_000_000;
            let end = match duration {
                Some(end) => end,
                None => u64::MAX * 1_000_000_000 + 999_999_999,
            };
            let goal = seek_goal(current, duration, delta);
            &&& asked < 0 ==> goal == 0
            &&& 0 <= asked <= end ==> goal == asked
            &&& asked > end ==> goal == end
        }),
{
}

/// A step back never leads ahead, and a step ahead leads back only to the end of the track.
pub proof fn seeks_keep_their_direction(current: int, duration: Option<int>, delta: int)
    requires
        0 <= current <= longest(),
        duration matches Some(end) ==> 0 <= end <= longest(),
    ensures
        delta <= 0 ==> seek_goal(current, duration, delta) <= current,
        delta >= 0 ==> seek_goal(current, duration, delta) >= current || duration == Some(
            seek_goal(current, duration, delta),
        ),
{
    assert(delta <= 0 ==> delta * NANOS_PER_SECOND <= 0) by (nonlinear_arith);
    assert(delta >= 0 ==> delta * NANOS_PER_SECOND >= 0) by (nonlinear_arith);
}

/// A longer step leads no less far, and a step from further on no less far on.
pub proof fn longer_seeks_lead_further(
    current: int,
    later: int,
    duration: Option<int>,
    delta: int,
    more: int,
)
    requires
        0 <= current <= later <= longest(),
        delta <= more,
    ensures
        seek_goal(current, duration, delta) <= seek_goal(later, duration, delta),
        seek_goal(current, duration, delta) <= seek_goal(current, duration, more),
{
    assert(delta * NANOS_PER_SECOND <= more * NANOS_PER_SECOND) by (nonlinear_arith)
        requires
            delta <= more,
    ;
}

/// What is written of a position is its minutes, a colon and two digits for its seconds.
pub proof fn clock_text_reads_back(secs: nat)
    ensures
        ({
            let text = clock_text(secs);
            let colon = text.len() - 3;
            &&& text.len() >= 5
            &&& text[colon] == ':'
            &&& all_digits(text.take(colon))
            &&& all_digits(text.skip(colon + 1))
            &&& value_of(text.take(colon)) == secs / 60
            &&& value_of(text.skip(colon + 1)) == secs % 60
            &&& colon > 2 ==> text[0] != '0'
        }),
{
    reveal_strlit(":");
    let (minutes, seconds) = (two_digits(secs / 60), two_digits(secs % 60));
    let text = clock_text(secs);
    crate::text::two_digits_read_back(secs / 60);
    crate::text::two_digits_read_back(secs % 60);
    assert(text.take(text.len() - 3) =~= minutes);
    assert(text.skip(text.len() - 2) =~= seconds);
    assert(text[0] == minutes[0]);
}

/// Progress is the position, and behind it the length, or dashes where it is not known.
pub proof fn progress_shows_position_and_length(elapsed: PlayTime, duration: Option<PlayTime>)
    ensures
        ({
            let text = progress_text(elapsed, duration);
            let position = clock_text(elapsed.secs as nat);
            &&& text.take(position.len() as int) == position
            &&& duration matches Some(end) ==> text.skip(position.len() as int) == " / "@
                + clock_text(end.secs as nat)
            &&& duration is None ==> text.skip(position.len() as int) == " / --:--"@
        }),
{
    let text = progress_text(elapsed, duration);
    let position = clock_text(elapsed.secs as nat);
    let n = position.len() as int;
    assert(text.take(n) =~= position);
    match duration {
        Some(end) => {
            assert(text.skip(n) =~= " / "@ + clock_text(end.secs as nat));
        },
        None => {
            assert(text.skip(n) =~= " / --:--"@);
        },
    }
}

/// A span that is known has its nanoseconds.
pub proof fn known_spans_have_nanoseconds(time: PlayTime)
    ensures
        total_of(None) is None,
        total_of(Some(time)) == Some(time.secs * 1_000_000_000 + time.nanos),
{
}

} // verus!
