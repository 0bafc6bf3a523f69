//! Moving through the playlist, and shuffled play.
use music_player::mode::RepeatMode;
use music_player::playlist::{find_position, move_selection, next_playlist_index, next_track};
use music_player::shuffle::{
    clock_seed, refill_shuffle_queue, regenerate_shuffle_queue, seed_from_clock, shuffle_indices,
    shuffle_with_seed,
};

fn sorted(mut indices: Vec<usize>) -> Vec<usize> {
    indices.sort();
    indices
}

#[test]
fn positions_are_found() {
    assert_eq!(find_position(&[4, 2, 9], 9), Some(2));
    assert_eq!(find_position(&[4, 2, 4], 4), Some(0));
    assert_eq!(find_position(&[4, 2, 9], 3), None);
    assert_eq!(find_position(&[], 3), None);
}

#[test]
fn the_selection_moves() {
    let list = [4, 2, 9];
    assert_eq!(move_selection(&list, 4, 1), 2);
    assert_eq!(move_selection(&list, 9, -1), 2);
    assert_eq!(move_selection(&list, 4, 2), 9);
    assert_eq!(move_selection(&list, 2, 0), 2);
}

#[test]
fn the_selection_stops_at_the_ends() {
    let list = [4, 2, 9];
    assert_eq!(move_selection(&list, 9, 1), 9);
    assert_eq!(move_selection(&list, 4, -1), 4);
    assert_eq!(move_selection(&list, 2, isize::MAX), 9);
    assert_eq!(move_selection(&list, 2, isize::MIN), 4);
}

#[test]
fn a_selection_outside_the_list_counts_as_its_first() {
    assert_eq!(move_selection(&[4, 2, 9], 7, 1), 2);
    assert_eq!(move_selection(&[4, 2, 9], 7, -1), 4);
    assert_eq!(move_selection(&[], 7, 1), 7);
}

#[test]
fn a_move_back_undoes_a_move() {
    let list = [4, 2, 9, 7];
    for from in 0..4_isize {
        for to in 0..4_isize {
            let (here, there) = (list[from as usize], list[to as usize]);
            assert_eq!(move_selection(&list, here, to - from), there);
            assert_eq!(move_selection(&list, there, from - to), here);
        }
    }
}

#[test]
fn tracks_stand_behind_one_another() {
    assert_eq!(next_playlist_index(&[4, 2, 9], 4), Some(2));
    assert_eq!(next_playlist_index(&[4, 2, 9], 9), Some(4));
    assert_eq!(next_playlist_index(&[4], 4), None);
    assert_eq!(next_playlist_index(&[4, 4], 4), Some(4));
    assert_eq!(next_playlist_index(&[4, 2], 7), None);
    assert_eq!(next_playlist_index(&[], 7), None);
}

#[test]
fn tracks_play_in_order() {
    let mut queue = vec![8];
    let list = [4, 2, 9];
    assert_eq!(next_track(&mut queue, &list, 4, RepeatMode::Off, false, 0), Some(2));
    assert_eq!(next_track(&mut queue, &list, 2, RepeatMode::Off, false, 0), Some(9));
    assert_eq!(next_track(&mut queue, &list, 9, RepeatMode::Off, false, 0), None);
    assert_eq!(next_track(&mut queue, &list, 5, RepeatMode::Off, false, 0), None);
    assert_eq!(queue, vec![8]);
}

#[test]
fn all_tracks_repeat() {
    let mut queue = Vec::new();
    let list = [4, 2, 9];
    assert_eq!(next_track(&mut queue, &list, 4, RepeatMode::All, false, 0), Some(2));
    assert_eq!(next_track(&mut queue, &list, 9, RepeatMode::All, false, 0), Some(4));
    assert_eq!(next_track(&mut queue, &[4], 4, RepeatMode::All, false, 0), None);
}

#[test]
fn one_track_repeats() {
    let mut queue = vec![1, 2];
    assert_eq!(next_track(&mut queue, &[1, 2], 7, RepeatMode::One, true, 0), Some(7));
    assert_eq!(next_track(&mut queue, &[], 7, RepeatMode::One, false, 0), Some(7));
    assert_eq!(queue, vec![1, 2]);
}

#[test]
fn shuffled_tracks_come_from_the_queue() {
    let list = [0, 1, 2, 3];
    let mut queue = vec![9, 3, 1];
    assert_eq!(next_track(&mut queue, &list, 0, RepeatMode::Off, true, 0), Some(3));
    assert_eq!(queue, vec![1]);
    assert_eq!(next_track(&mut queue, &list, 3, RepeatMode::Off, true, 0), Some(1));
    assert_eq!(queue, Vec::<usize>::new());
    assert_eq!(next_track(&mut queue, &list, 1, RepeatMode::Off, true, 0), None);
}

#[test]
fn a_queue_without_listed_tracks_ends() {
    let mut queue = vec![8, 9];
    assert_eq!(next_track(&mut queue, &[0, 1], 0, RepeatMode::Off, true, 0), None);
    assert_eq!(queue, Vec::<usize>::new());
}

#[test]
fn an_empty_queue_is_filled_anew_where_all_repeat() {
    let mut queue = Vec::new();
    assert_eq!(next_track(&mut queue, &[0, 1, 2, 3], 1, RepeatMode::All, true, 7), Some(3));
    assert_eq!(queue, vec![0, 2]);
    let mut alone = Vec::new();
    assert_eq!(next_track(&mut alone, &[5], 5, RepeatMode::All, true, 7), None);
    assert_eq!(alone, Vec::<usize>::new());
}

#[test]
fn shuffled_play_plays_each_track_once() {
    let list = [0, 1, 2, 3, 4, 5, 6];
    let mut queue = Vec::new();
    refill_shuffle_queue(&mut queue, &list, Some(2), 99);
    let mut played = vec![2];
    while let Some(next) = next_track(&mut queue, &list, 2, RepeatMode::Off, true, 0) {
        played.push(next);
    }
    assert_eq!(sorted(played), list.to_vec());
}

#[test]
fn a_seed_decides_the_order() {
    let mut eight = [0, 1, 2, 3, 4, 5, 6, 7];
    shuffle_with_seed(&mut eight, 42);
    assert_eq!(eight, [6, 1, 2, 5, 4, 7, 0, 3]);
    let mut five = [10, 20, 30, 40, 50];
    shuffle_with_seed(&mut five, 0);
    assert_eq!(five, [50, 10, 40, 30, 20]);
    let mut three = [0, 1, 2];
    shuffle_with_seed(&mut three, 1);
    assert_eq!(three, [0, 2, 1]);
}

#[test]
fn little_is_not_shuffled() {
    let mut none: [usize; 0] = [];
    shuffle_with_seed(&mut none, 42);
    assert_eq!(none, []);
    let mut one = [7];
    shuffle_with_seed(&mut one, 42);
    assert_eq!(one, [7]);
}

#[test]
fn shuffling_rearranges() {
    for seed in 0..200 {
        let mut list = (0..20).collect::<Vec<_>>();
        shuffle_with_seed(&mut list, seed);
        assert_eq!(sorted(list), (0..20).collect::<Vec<_>>());
    }
    let mut list = (0..20).collect::<Vec<_>>();
    shuffle_indices(&mut list);
    assert_eq!(sorted(list), (0..20).collect::<Vec<_>>());
}

#[test]
fn the_clock_gives_a_seed() {
    assert_eq!(seed_from_clock(None), 123456789);
    assert_eq!(seed_from_clock(Some(77)), 77);
    assert_eq!(seed_from_clock(Some((1 << 64) + 5)), 5);
}

#[test]
fn the_clock_goes_on() {
    let epoch = std::time::SystemTime::UNIX_EPOCH;
    let before = epoch.elapsed().unwrap().as_nanos() as u64;
    let seed = clock_seed();
    let after = epoch.elapsed().unwrap().as_nanos() as u64;
    assert!(before <= seed && seed <= after);
}

#[test]
fn a_queue_holds_the_other_tracks() {
    let mut queue = vec![5, 5, 5];
    refill_shuffle_queue(&mut queue, &[0, 1, 2, 3], Some(1), 7);
    assert_eq!(queue, vec![0, 2, 3]);
    refill_shuffle_queue(&mut queue, &[0, 1, 2, 3], None, 7);
    assert_eq!(queue, vec![1, 3, 2, 0]);
    regenerate_shuffle_queue(&mut queue, &[0, 1, 2, 3], Some(3));
    assert_eq!(sorted(queue), vec![0, 1, 2]);
}
