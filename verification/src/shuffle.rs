//! Shuffled play.
use vstd::prelude::*;

verus! {

/// The number behind `seed` in the sequence of pseudo-random numbers.
pub open spec fn next_number(seed: u64) -> u64 {
    seed.wrapping_mul(6364136223846793005u64).wrapping_add(1u64)
}

/// `s` with the items at `i` and `j` in each other's place.
pub open spec fn swapped(s: Seq<usize>, i: int, j: int) -> Seq<usize> {
    s.update(i, s[j]).update(j, s[i])
}

/// `s` with each of the items at `i`, `i - 1` and so on down to 1 swapped with one
/// that stands no further back, which the next pseudo-random number picks.
pub open spec fn shuffled_from(s: Seq<usize>, seed: u64, i: int) -> Seq<usize>
    decreases i,
{
    if i <= 0 {
        s
    } else {
        let number = next_number(seed);
        let j = (number as usize as int) % (i + 1);
        shuffled_from(swapped(s, i, j), number, i - 1)
    }
}

/// `s` shuffled by the pseudo-random numbers behind `seed`.
pub open spec fn shuffled(s: Seq<usize>, seed: u64) -> Seq<usize> {
    shuffled_from(s, seed, s.len() - 1)
}

/// Replacing an item of a sequence replaces it among the items.
proof fn lemma_multiset_update(s: Seq<usize>, i: int, v: usize)
    requires
        0 <= i < s.len(),
    ensures
        s.update(i, v).to_multiset() == s.to_multiset().remove(s[i]).insert(v),
{
    assert(s.update(i, v) =~= s.remove(i).insert(i, v));
    vstd::seq_lib::to_multiset_remove(s, i);
    vstd::seq_lib::to_multiset_insert(s.remove(i), i, v);
}

/// Swapping two items keeps the items.
proof fn lemma_swap_keeps_items(s: Seq<usize>, i: int, j: int)
    requires
        0 <= i < s.len(),
        0 <= j < s.len(),
    ensures
        swapped(s, i, j).to_multiset() == s.to_multiset(),
{
    broadcast use vstd::seq_lib::group_to_multiset_ensures;

    let t = s.update(i, s[j]);
    lemma_multiset_update(s, i, s[j]);
    lemma_multiset_update(t, j, s[i]);
    assert(s.contains(s[i]));
    assert(s.to_multiset().contains(s[i]));
    assert(t.contains(t[j]));
    assert(t[j] == s[j]);
    assert(swapped(s, i, j).to_multiset() =~= s.to_multiset());
}

/// Shuffling keeps the items.
proof fn lemma_shuffled_from(s: Seq<usize>, seed: u64, i: int)
    requires
        i < s.len(),
    ensures
        shuffled_from(s, seed, i).len() == s.len(),
        shuffled_from(s, seed, i).to_multiset() == s.to_multiset(),
    decreases i,
{
    if i > 0 {
        let number = next_number(seed);
        let j = (number as usize as int) % (i + 1);
        lemma_swap_keeps_items(s, i, j);
        lemma_shuffled_from(swapped(s, i, j), number, i - 1);
    }
}

/// Shuffling rearranges: it neither adds, drops nor repeats an item, whatever the
/// seed.
pub proof fn shuffle_rearranges(s: Seq<usize>, seed: u64)
    ensures
        shuffled(s, seed).to_multiset() == s.to_multiset(),
        shuffled(s, seed).len() == s.len(),
        forall|x: usize| #[trigger] shuffled(s, seed).contains(x) <==> s.contains(x),
        s.no_duplicates() ==> shuffled(s, seed).no_duplicates(),
{
    broadcast use vstd::seq_lib::group_to_multiset_ensures;

    lemma_shuffled_from(s, seed, s.len() - 1);
    let t = shuffled(s, seed);
    assert forall|x: usize| #[trigger] t.contains(x) <==> s.contains(x) by {
        assert(t.contains(x) <==> t.to_multiset().count(x) > 0);
        assert(s.contains(x) <==> s.to_multiset().count(x) > 0);
    }
    if s.no_duplicates() {
        s.lemma_multiset_has_no_duplicates();
        t.lemma_multiset_has_no_duplicates_conv();
    }
}

/// Shuffles `indices` by the pseudo-random numbers behind `seed`.
pub fn shuffle_with_seed(indices: &mut [usize], seed: u64)
    ensures
        final(indices)@ == shuffled(old(indices)@, seed),
{
    let count: usize = indices.len();
    if count <= 1 {
        return;
    }
    let mut number: u64 = seed;
    let mut i: usize = count - 1;
    while i > 0
        invariant
            i < count == indices@.len(),
            shuffled_from(indices@, number, i as int) == shuffled(old(indices)@, seed),
        decreases i,
    {
        number = number.wrapping_mul(6364136223846793005).wrapping_add(1);
        #[verifier::truncate]
        let picked: usize = number as usize;
        let j: usize = picked % (i + 1);
        let there: usize = indices[j];
        let here: usize = indices[i];
        indices[i] = there;
        indices[j] = here;
        i = i - 1;
    }
}

/// The nanoseconds that `SystemTime::elapsed` counts since `SystemTime::UNIX_EPOCH`,
/// `None` where the system clock stands before it. Nothing is claimed of the number.
#[verifier::external_body]
fn nanos_since_epoch() -> (nanos: Option<u128>) {
    std::time::SystemTime::UNIX_EPOCH.elapsed().ok().map(|span| span.as_nanos())
}

/// The seed that a reading of the clock gives.
pub open spec fn seed_of(nanos: Option<u128>) -> u64 {
    match nanos {
        Some(count) => count as u64,
        None => 123456789,
    }
}

/// The seed that a reading of the clock, in nanoseconds, gives: its lower bits, or a
/// fixed number where the clock could not be read.
pub fn seed_from_clock(nanos: Option<u128>) -> (seed: u64)
    ensures
        seed == seed_of(nanos),
{
    match nanos {
        Some(count) => #[verifier::truncate] (count as u64),
        None => 123456789,
    }
}

/// A seed from the system clock.
pub fn clock_seed() -> (seed: u64)
    ensures
        exists|nanos: Option<u128>| seed == seed_of(nanos),
{
    let nanos = nanos_since_epoch();
    seed_from_clock(nanos)
}

/// Shuffles `indices` by a seed from the system clock.
pub fn shuffle_indices(indices: &mut [usize])
    ensures
        exists|seed: u64| final(indices)@ == #[trigger] shuffled(old(indices)@, seed),
{
    let seed: u64 = clock_seed();
    shuffle_with_seed(indices, seed);
}

/// The tracks of a playlist without the one that plays.
pub open spec fn others(playlist: Seq<usize>, playing: Option<usize>) -> Seq<usize> {
    playlist.filter(|i: usize| Some(i) != playing)
}

/// Fills `shuffle_queue` with the tracks of the playlist, but for the one that plays,
/// in the order that `seed` gives.
pub fn refill_shuffle_queue(
    shuffle_queue: &mut Vec<usize>,
    playlist_indices: &[usize],
    current_playing: Option<usize>,
    seed: u64,
)
    ensures
        final(shuffle_queue)@ == shuffled(others(playlist_indices@, current_playing), seed),
{
    let ghost keep = |i: usize| Some(i) != current_playing;
    let mut remaining: Vec<usize> = Vec::new();
    assert(playlist_indices@.take(0).filter(keep) =~= Seq::<usize>::empty()) by {
        reveal(Seq::filter);
    }
    for k in 0..playlist_indices.len()
        invariant
            keep == (|i: usize| Some(i) != current_playing),
            remaining@ == playlist_indices@.take(k as int).filter(keep),
    {
        proof {
            reveal(Seq::filter);
            assert(playlist_indices@.take(k + 1).drop_last() =~= playlist_indices@.take(k as int));
        }
        let index: usize = playlist_indices[k];
        let plays: bool = match current_playing {
            Some(current) => current == index,
            None => false,
        };
        if !plays {
            remaining.push(index);
        }
    }
    assert(playlist_indices@.take(playlist_indices@.len() as int) =~= playlist_indices@);
    shuffle_with_seed(&mut remaining, seed);
    *shuffle_queue = remaining;
}

/// Fills `shuffle_queue` with the tracks of the playlist, but for the one that plays,
/// in an order that the system clock decides.
pub fn regenerate_shuffle_queue(
    shuffle_queue: &mut Vec<usize>,
    playlist_indices: &[usize],
    current_playing: Option<usize>,
)
    ensures
        exists|seed: u64|
            final(shuffle_queue)@ == #[trigger] shuffled(
                others(playlist_indices@, current_playing),
                seed,
            ),
{
    let seed: u64 = clock_seed();
    refill_shuffle_queue(shuffle_queue, playlist_indices, current_playing, seed);
}

/// A refilled queue holds every track of the playlist but the one that plays, and
/// none twice if the playlist holds none twice.
pub proof fn refilled_queue_holds_the_others(
    playlist: Seq<usize>,
    playing: Option<usize>,
    seed: u64,
)
    ensures
        forall|i: usize| #[trigger]
            shuffled(others(playlist, playing), seed).contains(i) <==> playlist.contains(i) && Some(i)
                != playing,
        playlist.no_duplicates() ==> shuffled(others(playlist, playing), seed).no_duplicates(),
{
    let rest = others(playlist, playing);
    shuffle_rearranges(rest, seed);
    lemma_filtered(playlist, |i: usize| Some(i) != playing);
}

/// Filtering keeps the items that pass, and repeats none.
pub proof fn lemma_filtered(s: Seq<usize>, keep: spec_fn(usize) -> bool)
    ensures
        forall|x: usize| #[trigger] s.filter(keep).contains(x) <==> s.contains(x) && keep(x),
        s.no_duplicates() ==> s.filter(keep).no_duplicates(),
    decreases s.len(),
{
    reveal(Seq::filter);
    if s.len() > 0 {
        let init = s.drop_last();
        lemma_filtered(init, keep);
        let f = s.filter(keep);
        let g = init.filter(keep);
        assert forall|x: usize| #[trigger] f.contains(x) <==> s.contains(x) && keep(x) by {
            assert(s =~= init.push(s.last()));
            if f.contains(x) {
                let k = choose|k: int| 0 <= k < f.len() && f[k] == x;
                if k < g.len() {
                    assert(g[k] == x);
                    assert(g.contains(x));
                    let m = choose|m: int| 0 <= m < init.len() && init[m] == x;
                    assert(s[m] == x);
                } else {
                    assert(s[s.len() - 1] == x);
                }
            }
            if s.contains(x) && keep(x) {
                let m = choose|m: int| 0 <= m < s.len() && s[m] == x;
                if m < init.len() {
                    assert(init[m] == x);
                    assert(g.contains(x));
                    let k = choose|k: int| 0 <= k < g.len() && g[k] == x;
                    assert(f[k] == x);
                } else {
                    assert(f[f.len() - 1] == x);
                }
            }
        }
        if s.no_duplicates() {
            assert(init.no_duplicates());
            if keep(s.last()) {
                assert forall|a: int, b: int| 0 <= a < f.len() && 0 <= b < f.len() && a != b implies f[a]
                    != f[b] by {
                    if a < g.len() && b < g.len() {
                        assert(g[a] != g[b]);
                    } else {
                        let c = if a < g.len() { a } else { b };
                        assert(g.contains(g[c]));
                        let m = choose|m: int| 0 <= m < init.len() && init[m] == g[c];
                        assert(s[m] == g[c]);
                    }
                }
            }
        }
    }
}

/// The pseudo-random numbers are those of a linear congruence modulo 2^64.
pub proof fn numbers_follow_a_congruence(seed: u64)
    ensures
        next_number(seed) == (seed * 6364136223846793005 + 1) % 0x1_0000_0000_0000_0000,
{
    let m = 0x1_0000_0000_0000_0000int;
    let product = seed * 6364136223846793005;
    let low = seed.wrapping_mul(6364136223846793005u64);
    assert(low == product % m);
    vstd::arithmetic::div_mod::lemma_add_mod_noop(product, 1, m);
}

/// A clock reading gives its lower 64 bits as the seed.
pub proof fn seed_is_the_low_bits(nanos: u128)
    ensures
        seed_of(Some(nanos)) == nanos % 0x1_0000_0000_0000_0000,
        seed_of(None) == 123456789,
{
    assert(nanos as u64 == nanos % 0x1_0000_0000_0000_0000u128) by (bit_vector);
}

/// Swapping puts two items in each other's place and leaves the others.
pub proof fn swapping_trades_places(s: Seq<usize>, i: int, j: int, k: int)
    requires
        0 <= i < s.len(),
        0 <= j < s.len(),
        0 <= k < s.len(),
    ensures
        swapped(s, i, j).len() == s.len(),
        swapped(s, i, j)[k] == (if k == i {
            s[j]
        } else if k == j {
            s[i]
        } else {
            s[k]
        }),
{
}

/// An item behind those that are shuffled stays where it is.
proof fn lemma_shuffled_push(s: Seq<usize>, last: usize, seed: u64, i: int)
    requires
        i < s.len(),
    ensures
        shuffled_from(s.push(last), seed, i) == shuffled_from(s, seed, i).push(last),
    decreases i,
{
    if i > 0 {
        let number = next_number(seed);
        let j = (number as usize as int) % (i + 1);
        assert(0 <= j < i + 1);
        assert(swapped(s.push(last), i, j) =~= swapped(s, i, j).push(last));
        lemma_shuffled_push(swapped(s, i, j), last, number, i - 1);
    }
}

/// The next pseudo-random number picks the item that comes last, out of all of them; the
/// item that stood last takes its place, and the rest is shuffled by the numbers behind it.
/// So it is for a list of any length.
pub proof fn shuffle_picks_the_last(s: Seq<usize>, seed: u64)
    ensures
        s.len() <= 1 ==> shuffled(s, seed) == s,
        s.len() > 1 ==> ({
            let number = next_number(seed);
            let picked = (number as usize as int) % (s.len() as int);
            let rest = s.update(picked, s.last()).drop_last();
            &&& shuffled(s, seed).last() == s[picked]
            &&& shuffled(s, seed).drop_last() == shuffled(rest, number)
        }),
{
    if s.len() > 1 {
        let number = next_number(seed);
        let i = s.len() - 1;
        let picked = (number as usize as int) % (s.len() as int);
        assert(0 <= picked < s.len());
        let rest = s.update(picked, s.last()).drop_last();
        assert(swapped(s, i, picked) =~= rest.push(s[picked]));
        lemma_shuffled_push(rest, s[picked], number, i - 1);
        lemma_shuffled_from(rest, number, i - 1);
        assert(shuffled(s, seed) == shuffled(rest, number).push(s[picked]));
        assert(shuffled(s, seed).drop_last() =~= shuffled(rest, number));
    }
}

/// The other tracks are those of the playlist, in its order, but for the one that plays.
pub proof fn others_keep_their_order(playlist: Seq<usize>, index: usize, playing: Option<usize>)
    ensures
        others(Seq::empty(), playing) == Seq::<usize>::empty(),
        Some(index) == playing ==> others(playlist.push(index), playing) == others(playlist, playing),
        Some(index) != playing ==> others(playlist.push(index), playing) == others(
            playlist,
            playing,
        ).push(index),
{
    reveal(Seq::filter);
    assert(playlist.push(index).drop_last() =~= playlist);
}

} // verus!
