//! Moving through the playlist.
use vstd::prelude::*;
use crate::mode::RepeatMode;
use crate::shuffle::{others, refill_shuffle_queue, shuffled};

verus! {

/// The first position of `index` in `indices` from `start` on.
pub open spec fn position_from(indices: Seq<usize>, index: usize, start: int) -> Option<int>
    decreases indices.len() - start,
{
    if start < 0 || start >= indices.len() {
        None
    } else if indices[start] == index {
        Some(start)
    } else {
        position_from(indices, index, start + 1)
    }
}

/// The first position of `index` in `indices`.
pub open spec fn position_of(indices: Seq<usize>, index: usize) -> Option<int> {
    position_from(indices, index, 0)
}

/// A position that is found holds the index; if none is found, the index does not
/// occur.
pub proof fn lemma_position_from(indices: Seq<usize>, index: usize, start: int)
    requires
        0 <= start,
    ensures
        position_from(indices, index, start) matches Some(p) ==> start <= p < indices.len()
            && indices[p] == index && forall|k: int| start <= k < p ==> indices[k] != index,
        position_from(indices, index, start) is None ==> forall|k: int|
            start <= k < indices.len() ==> indices[k] != index,
    decreases indices.len() - start,
{
    if start < indices.len() && indices[start] != index {
        lemma_position_from(indices, index, start + 1);
    }
}

/// The first position of `index` in `indices`.
pub fn find_position(indices: &[usize], index: usize) -> (position: Option<usize>)
    ensures
        match position {
            Some(p) => position_of(indices@, index) == Some(p as int),
            None => position_of(indices@, index) is None,
        },
        position matches Some(p) ==> p < indices@.len() && indices@[p as int] == index,
        position is Some <==> indices@.contains(index),
{
    let mut i: usize = 0;
    proof {
        lemma_position_from(indices@, index, 0);
    }
    while i < indices.len()
        invariant
            position_of(indices@, index) == position_from(indices@, index, i as int),
            position_of(indices@, index) is None ==> forall|k: int|
                0 <= k < indices@.len() ==> indices@[k] != index,
        decreases indices@.len() - i,
    {
        if indices[i] == index {
            return Some(i);
        }
        i = i + 1;
    }
    None
}

/// The track that is selected after a move by `direction` places from
/// `current_index`: no further than to either end of the list. A track that is not
/// in the list counts as its first.
pub open spec fn selection_after(indices: Seq<usize>, current_index: usize, direction: int) -> usize {
    if indices.len() == 0 {
        current_index
    } else {
        let from = match position_of(indices, current_index) {
            Some(p) => p,
            None => 0,
        };
        let to = from + direction;
        if to < 0 {
            indices[0]
        } else if to >= indices.len() {
            indices.last()
        } else {
            indices[to]
        }
    }
}

/// The track that is selected after a move by `direction` places from
/// `current_index`.
pub fn move_selection(indices: &[usize], current_index: usize, direction: isize) -> (selected: usize)
    ensures
        selected == selection_after(indices@, current_index, direction as int),
{
    if indices.len() == 0 {
        return current_index;
    }
    let from: usize = match find_position(indices, current_index) {
        Some(position) => position,
        None => 0,
    };
    let last: usize = indices.len() - 1;
    let to: usize = if direction < 0 {
        let back: usize = (-(direction + 1)) as usize + 1;
        from.saturating_sub(back)
    } else {
        let there: usize = from.saturating_add(direction as usize);
        if there < last {
            there
        } else {
            last
        }
    };
    indices[to]
}

/// The track behind `current_index` in the list, the first behind the last; `None`
/// if the track is not in the list or alone in it.
pub open spec fn track_behind(indices: Seq<usize>, current_index: usize) -> Option<usize> {
    match position_of(indices, current_index) {
        None => None,
        Some(p) => {
            let next = if p + 1 < indices.len() {
                indices[p + 1]
            } else {
                indices[0]
            };
            if next != current_index || indices.len() > 1 {
                Some(next)
            } else {
                None
            }
        },
    }
}

/// The track behind `current_index` in the list.
pub fn next_playlist_index(indices: &[usize], current_index: usize) -> (next: Option<usize>)
    ensures
        next == track_behind(indices@, current_index),
{
    let position: usize = match find_position(indices, current_index) {
        Some(position) => position,
        None => {
            return None;
        },
    };
    let next: usize = if position < indices.len() - 1 {
        indices[position + 1]
    } else {
        indices[0]
    };
    if next != current_index || indices.len() > 1 {
        Some(next)
    } else {
        None
    }
}

/// The track that plays behind `index` in the order of the list: none behind the
/// last one unless all repeat.
pub open spec fn next_in_order(
    indices: Seq<usize>,
    index: usize,
    repeat_mode: RepeatMode,
) -> Option<usize> {
    match track_behind(indices, index) {
        None => None,
        Some(next) => match (position_of(indices, index), position_of(indices, next)) {
            (Some(here), Some(there)) => if there <= here && repeat_mode != RepeatMode::All {
                None
            } else {
                Some(next)
            },
            _ => Some(next),
        },
    }
}

/// The tracks of a queue that are in the playlist.
pub open spec fn queued(queue: Seq<usize>, indices: Seq<usize>) -> Seq<usize> {
    queue.filter(|i: usize| indices.contains(i))
}

/// The track that plays behind `index` in shuffled order, and the queue that is left:
/// the first of the queued tracks that the playlist still has. Where there is none
/// and all repeat, the queue is filled anew and its last track plays.
pub open spec fn next_shuffled(
    queue: Seq<usize>,
    indices: Seq<usize>,
    index: usize,
    repeat_mode: RepeatMode,
    seed: u64,
) -> (Option<usize>, Seq<usize>) {
    let rest = queued(queue, indices);
    if rest.len() > 0 {
        (Some(rest[0]), rest.drop_first())
    } else if repeat_mode == RepeatMode::All {
        let refilled = shuffled(others(indices, Some(index)), seed);
        if refilled.len() > 0 {
            (Some(refilled.last()), refilled.drop_last())
        } else {
            (None, refilled)
        }
    } else {
        (None, rest)
    }
}

/// The track that plays when the track `index` has ended, and the shuffle queue that
/// is left.
pub open spec fn next_after(
    queue: Seq<usize>,
    indices: Seq<usize>,
    index: usize,
    repeat_mode: RepeatMode,
    shuffle: bool,
    seed: u64,
) -> (Option<usize>, Seq<usize>) {
    if repeat_mode == RepeatMode::One {
        (Some(index), queue)
    } else if shuffle {
        next_shuffled(queue, indices, index, repeat_mode, seed)
    } else {
        (next_in_order(indices, index, repeat_mode), queue)
    }
}

/// Drops from `queue` the tracks that the playlist does not have.
fn retain_listed(queue: &mut Vec<usize>, indices: &[usize])
    ensures
        final(queue)@ == queued(old(queue)@, indices@),
{
    let ghost keep = |i: usize| indices@.contains(i);
    let mut kept: Vec<usize> = Vec::new();
    assert(queue@.take(0).filter(keep) =~= Seq::<usize>::empty()) by {
        reveal(Seq::filter);
    }
    for k in 0..queue.len()
        invariant
            keep == (|i: usize| indices@.contains(i)),
            queue@ == old(queue)@,
            kept@ == queue@.take(k as int).filter(keep),
    {
        proof {
            reveal(Seq::filter);
            assert(queue@.take(k + 1).drop_last() =~= queue@.take(k as int));
        }
        let index: usize = queue[k];
        if find_position(indices, index).is_some() {
            kept.push(index);
        }
    }
    assert(queue@.take(queue@.len() as int) =~= queue@);
    *queue = kept;
}

/// The track that plays when the track `index` has ended; `queue` is the shuffle
/// queue, and `seed` decides the order if it is filled anew.
pub fn next_track(
    queue: &mut Vec<usize>,
    indices: &[usize],
    index: usize,
    repeat_mode: RepeatMode,
    shuffle: bool,
    seed: u64,
) -> (next: Option<usize>)
    ensures
        (next, final(queue)@) == next_after(
            old(queue)@,
            indices@,
            index,
            repeat_mode,
            shuffle,
            seed,
        ),
{
    match repeat_mode {
        RepeatMode::One => Some(index),
        _ => {
            if shuffle {
                retain_listed(queue, indices);
                if queue.len() == 0 {
                    match repeat_mode {
                        RepeatMode::All => {
                            refill_shuffle_queue(queue, indices, Some(index), seed);
                            queue.pop()
                        },
                        _ => None,
                    }
                } else {
                    let ghost rest = queue@;
                    let first: usize = queue.remove(0);
                    assert(queue@ =~= rest.drop_first());
                    Some(first)
                }
            } else {
                match next_playlist_index(indices, index) {
                    None => None,
                    Some(next) => {
                        match (find_position(indices, index), find_position(indices, next)) {
                            (Some(here), Some(there)) => {
                                if there <= here {
                                    match repeat_mode {
                                        RepeatMode::All => Some(next),
                                        _ => None,
                                    }
                                } else {
                                    Some(next)
                                }
                            },
                            _ => Some(next),
                        }
                    },
                }
            }
        },
    }
}

/// A selection that was moved is in the list, if there is anything in the list.
pub proof fn selection_stays_in_list(indices: Seq<usize>, current_index: usize, direction: int)
    requires
        indices.len() > 0,
    ensures
        indices.contains(selection_after(indices, current_index, direction)),
{
    lemma_position_from(indices, current_index, 0);
    let from = match position_of(indices, current_index) {
        Some(p) => p,
        None => 0,
    };
    let to = from + direction;
    if to < 0 {
        assert(indices.contains(indices[0]));
    } else if to >= indices.len() {
        assert(indices.contains(indices[indices.len() - 1]));
    } else {
        assert(indices.contains(indices[to]));
    }
}

/// In a list that holds nothing twice, a track is found where it stands.
pub proof fn lemma_position_unique(indices: Seq<usize>, p: int)
    requires
        indices.no_duplicates(),
        0 <= p < indices.len(),
    ensures
        position_of(indices, indices[p]) == Some(p),
{
    lemma_position_from(indices, indices[p], 0);
}

/// Moving the selection by any distance and back by the same leads to where it stood,
/// unless an end of the list cut the move short.
pub proof fn selection_moves_back(indices: Seq<usize>, p: int, distance: int)
    requires
        indices.no_duplicates(),
        0 <= p < indices.len(),
        0 <= p + distance < indices.len(),
    ensures
        selection_after(indices, indices[p], distance) == indices[p + distance],
        selection_after(
            indices,
            selection_after(indices, indices[p], distance),
            -distance,
        ) == indices[p],
{
    lemma_position_unique(indices, p);
    lemma_position_unique(indices, p + distance);
}

/// The track that follows is one of the playlist, unless one track repeats.
pub proof fn next_track_is_listed(
    queue: Seq<usize>,
    indices: Seq<usize>,
    index: usize,
    repeat_mode: RepeatMode,
    shuffle: bool,
    seed: u64,
)
    requires
        repeat_mode != RepeatMode::One,
    ensures
        next_after(queue, indices, index, repeat_mode, shuffle, seed).0 matches Some(next)
            ==> indices.contains(next),
{
    if shuffle {
        let rest = queued(queue, indices);
        crate::shuffle::lemma_filtered(queue, |i: usize| indices.contains(i));
        if rest.len() > 0 {
            assert(rest.contains(rest[0]));
        } else {
            crate::shuffle::refilled_queue_holds_the_others(indices, Some(index), seed);
            let refilled = shuffled(others(indices, Some(index)), seed);
            if refilled.len() > 0 {
                assert(refilled.contains(refilled.last()));
            }
        }
    } else {
        lemma_position_from(indices, index, 0);
        if let Some(p) = position_of(indices, index) {
            if p + 1 < indices.len() {
                assert(indices.contains(indices[p + 1]));
            } else {
                assert(indices.contains(indices[0]));
            }
        }
    }
}

/// One repeating track follows itself, and the shuffle queue stays as it is.
pub proof fn repeat_one_replays(
    queue: Seq<usize>,
    indices: Seq<usize>,
    index: usize,
    shuffle: bool,
    seed: u64,
)
    ensures
        next_after(queue, indices, index, RepeatMode::One, shuffle, seed) == (Some(index), queue),
{
}

/// Without repeat and shuffle each track is followed by the one behind it in the
/// playlist, and the last by none.
pub proof fn plays_in_order(queue: Seq<usize>, indices: Seq<usize>, p: int, seed: u64)
    requires
        indices.no_duplicates(),
        0 <= p < indices.len(),
    ensures
        next_after(queue, indices, indices[p], RepeatMode::Off, false, seed).0 == (if p + 1
            < indices.len() {
            Some(indices[p + 1])
        } else {
            None
        }),
{
    lemma_position_unique(indices, p);
    lemma_position_unique(indices, 0);
    if p + 1 < indices.len() {
        lemma_position_unique(indices, p + 1);
    }
}

/// Where all repeat and there is more than one track, the playlist never ends: each
/// track is followed by the one behind it, and the last by the first.
pub proof fn repeat_all_wraps_around(queue: Seq<usize>, indices: Seq<usize>, p: int, seed: u64)
    requires
        indices.no_duplicates(),
        0 <= p < indices.len(),
        indices.len() > 1,
    ensures
        next_after(queue, indices, indices[p], RepeatMode::All, false, seed).0 == Some(
            indices[if p + 1 < indices.len() {
                p + 1
            } else {
                0
            }],
        ),
{
    lemma_position_unique(indices, p);
}

/// In shuffled order no track of the queue plays twice: the track that follows is no
/// longer queued, and the queue that is left repeats nothing. While the playlist has
/// a track of the queue, each track that follows leaves the queue shorter.
pub proof fn shuffle_plays_each_once(
    queue: Seq<usize>,
    indices: Seq<usize>,
    index: usize,
    repeat_mode: RepeatMode,
    seed: u64,
)
    requires
        repeat_mode != RepeatMode::One,
        queue.no_duplicates(),
        indices.no_duplicates(),
    ensures
        ({
            let (next, left) = next_after(queue, indices, index, repeat_mode, true, seed);
            &&& left.no_duplicates()
            &&& next matches Some(track) ==> !left.contains(track)
            &&& queued(queue, indices).len() > 0 ==> next is Some && left.len() < queue.len()
        }),
{
    let rest = queued(queue, indices);
    crate::shuffle::lemma_filtered(queue, |i: usize| indices.contains(i));
    queue.lemma_filter_len(|i: usize| indices.contains(i));
    crate::shuffle::refilled_queue_holds_the_others(indices, Some(index), seed);
    let refilled = shuffled(others(indices, Some(index)), seed);
    if rest.len() > 0 {
        assert forall|k: int| 0 <= k < rest.drop_first().len() implies rest.drop_first()[k] != rest[0] by {
            assert(rest[k + 1] != rest[0]);
        }
    } else if refilled.len() > 0 {
        assert forall|k: int| 0 <= k < refilled.drop_last().len() implies refilled.drop_last()[k]
            != refilled.last() by {
            assert(refilled[k] != refilled[refilled.len() - 1]);
        }
    }
}

/// In shuffled order without repeat, playback goes on until the queue has no track of
/// the playlist left, and then ends.
pub proof fn shuffle_ends_with_its_queue(
    queue: Seq<usize>,
    indices: Seq<usize>,
    index: usize,
    seed: u64,
)
    ensures
        next_after(queue, indices, index, RepeatMode::Off, true, seed).0 is None <==> queued(
            queue,
            indices,
        ).len() == 0,
{
}

/// The position of an index is that of its first occurrence, if there is one.
pub proof fn position_is_the_first(indices: Seq<usize>, index: usize)
    ensures
        position_of(indices, index) is Some <==> indices.contains(index),
        position_of(indices, index) matches Some(p) ==> 0 <= p < indices.len() && indices[p] == index
            && forall|k: int| 0 <= k < p ==> indices[k] != index,
{
    lemma_position_from(indices, index, 0);
}

/// A selection moves by as many places as was asked for, but not beyond the first and the
/// last track of the list; one that is not in the list moves as from the first.
pub proof fn selection_moves_as_asked(indices: Seq<usize>, current_index: usize, from: int, distance: int)
    requires
        indices.len() > 0,
        0 <= from < indices.len(),
        indices.contains(current_index) ==> indices[from] == current_index && forall|k: int|
            0 <= k < from ==> indices[k] != current_index,
        !indices.contains(current_index) ==> from == 0,
    ensures
        from + distance < 0 ==> selection_after(indices, current_index, distance) == indices[0],
        0 <= from + distance < indices.len() ==> selection_after(indices, current_index, distance)
            == indices[from + distance],
        from + distance >= indices.len() ==> selection_after(indices, current_index, distance)
            == indices[indices.len() - 1],
{
    position_is_the_first(indices, current_index);
}

/// In an empty list the selection stays.
pub proof fn selection_stays_without_tracks(indices: Seq<usize>, current_index: usize, distance: int)
    requires
        indices.len() == 0,
    ensures
        selection_after(indices, current_index, distance) == current_index,
{
}

/// Behind a track comes the one at the next place, behind the last the first; behind a
/// track that is alone in the list, or not in it, none does.
pub proof fn tracks_stand_in_a_ring(indices: Seq<usize>, current_index: usize, p: int)
    ensures
        !indices.contains(current_index) ==> track_behind(indices, current_index) is None,
        indices.len() == 1 ==> track_behind(indices, current_index) is None,
        indices.len() > 1 && 0 <= p < indices.len() && indices[p] == current_index && (forall|k: int|
            0 <= k < p ==> indices[k] != current_index) ==> track_behind(indices, current_index)
            == Some(indices[(p + 1) % (indices.len() as int)]),
{
    position_is_the_first(indices, current_index);
    if 0 <= p < indices.len() {
        if p + 1 < indices.len() {
            vstd::arithmetic::div_mod::lemma_small_mod((p + 1) as nat, indices.len());
        } else {
            vstd::arithmetic::div_mod::lemma_mod_self_0(indices.len() as int);
        }
    }
}

/// Behind a track that the list does not have, or has alone, none plays in order.
pub proof fn nothing_follows_an_unlisted_track(
    queue: Seq<usize>,
    indices: Seq<usize>,
    index: usize,
    repeat_mode: RepeatMode,
    seed: u64,
)
    requires
        !indices.contains(index) || indices.len() == 1,
        repeat_mode != RepeatMode::One,
    ensures
        next_after(queue, indices, index, repeat_mode, false, seed).0 is None,
{
    tracks_stand_in_a_ring(indices, index, 0);
}

/// While play is not shuffled, the shuffle queue stays as it is.
pub proof fn ordered_play_keeps_the_queue(
    queue: Seq<usize>,
    indices: Seq<usize>,
    index: usize,
    repeat_mode: RepeatMode,
    seed: u64,
)
    ensures
        next_after(queue, indices, index, repeat_mode, false, seed).1 == queue,
{
}

/// A queue keeps the tracks that the playlist has, in its order, and no others.
pub proof fn queue_keeps_listed_tracks(queue: Seq<usize>, index: usize, indices: Seq<usize>)
    ensures
        queued(Seq::empty(), indices) == Seq::<usize>::empty(),
        indices.contains(index) ==> queued(queue.push(index), indices) == queued(
            queue,
            indices,
        ).push(index),
        !indices.contains(index) ==> queued(queue.push(index), indices) == queued(queue, indices),
{
    reveal(Seq::filter);
    assert(queue.push(index).drop_last() =~= queue);
}

/// In shuffled order the first track of the queue that the playlist still has plays next,
/// and those behind it stay queued, whatever repeats but one track.
pub proof fn shuffle_follows_its_queue(
    queue: Seq<usize>,
    indices: Seq<usize>,
    index: usize,
    repeat_mode: RepeatMode,
    seed: u64,
)
    requires
        repeat_mode != RepeatMode::One,
        queued(queue, indices).len() > 0,
    ensures
        ({
            let (next, left) = next_after(queue, indices, index, repeat_mode, true, seed);
            &&& next is Some
            &&& seq![next->0] + left == queued(queue, indices)
        }),
{
    let rest = queued(queue, indices);
    assert(seq![rest[0]] + rest.drop_first() =~= rest);
}

/// Where the queue has no track of the playlist left: if all repeat, the queue is filled
/// with the other tracks in shuffled order, and the last of them plays; else none does.
pub proof fn shuffle_starts_over_where_all_repeat(
    queue: Seq<usize>,
    indices: Seq<usize>,
    index: usize,
    seed: u64,
)
    requires
        queued(queue, indices).len() == 0,
    ensures
        ({
            let (next, left) = next_after(queue, indices, index, RepeatMode::All, true, seed);
            let refilled = shuffled(others(indices, Some(index)), seed);
            &&& next matches Some(track) ==> left.push(track) == refilled
            &&& next is None ==> refilled.len() == 0 && left.len() == 0
        }),
        next_after(queue, indices, index, RepeatMode::Off, true, seed).0 is None,
        next_after(queue, indices, index, RepeatMode::Off, true, seed).1.len() == 0,
{
    let refilled = shuffled(others(indices, Some(index)), seed);
    if refilled.len() > 0 {
        assert(refilled.drop_last().push(refilled.last()) =~= refilled);
    }
}

/// Without shuffle the track behind the one that ended plays, unless that turns back to
/// where playback was before, which it does only where all repeat.
pub proof fn order_turns_back_where_all_repeat(
    queue: Seq<usize>,
    indices: Seq<usize>,
    index: usize,
    here: int,
    there: int,
    seed: u64,
)
    requires
        indices.len() > 1,
        position_of(indices, index) == Some(here),
        position_of(indices, indices[(here + 1) % (indices.len() as int)]) == Some(there),
    ensures
        ({
            let behind = indices[(here + 1) % (indices.len() as int)];
            &&& next_after(queue, indices, index, RepeatMode::All, false, seed).0 == Some(behind)
            &&& there > here ==> next_after(queue, indices, index, RepeatMode::Off, false, seed).0
                == Some(behind)
            &&& there <= here ==> next_after(queue, indices, index, RepeatMode::Off, false, seed).0 is None
        }),
{
    position_is_the_first(indices, index);
    tracks_stand_in_a_ring(indices, index, here);
}

} // verus!
