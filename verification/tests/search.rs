//! Files and the search among them.
use music_player::search::{fuzzy_score, fuzzy_track_indices};
use music_player::track::{
    audio_files_in, display_name, is_supported_audio_file, known_duration, DirectoryEntry, TrackFile,
    TrackVisual,
};
use music_player::time::PlayTime;
use std::path::Path;

fn file(path: &str) -> TrackFile {
    let path = Path::new(path);
    TrackFile {
        file_name: path.file_name().and_then(|name| name.to_str()).map(String::from),
        extension: path.extension().and_then(|name| name.to_str()).map(String::from),
    }
}

fn files(paths: &[&str]) -> Vec<TrackFile> {
    paths.iter().map(|path| file(path)).collect()
}

/// The score by a search through the bytes of the candidate.
fn score_by_bytes(candidate: &str, query: &str) -> Option<usize> {
    let candidate = candidate.to_ascii_lowercase();
    let mut total = 0;
    let mut before: Option<usize> = None;
    let mut from = 0;
    for wanted in query.to_ascii_lowercase().chars() {
        if wanted.is_whitespace() {
            continue;
        }
        let place = from + candidate[from..].find(wanted)?;
        total += 10;
        if place == 0 {
            total += 8;
        }
        if candidate[..place].ends_with(|c| " -_./".contains(c)) {
            total += 6;
        }
        if before.map(|last| last + 1) == Some(place) {
            total += 4;
        }
        before = Some(place);
        from = place + wanted.len_utf8();
    }
    Some(total)
}

#[test]
fn names_are_shown() {
    assert_eq!(display_name(&file("music/a song.mp3")), "a song.mp3");
    assert_eq!(display_name(&file("..")), "<invalid file name>");
}

#[test]
fn audio_files_are_known_by_their_extension() {
    for path in ["a.aif", "a.aiff", "a.aifc", "a.mp3", "a.wav", "A.MP3", "b.WaV", "x.y.Aiff"] {
        assert!(is_supported_audio_file(&file(path)), "{}", path);
    }
    for path in ["a.flac", "a.ogg", "mp3", "a.mp", "a.mp33", "a.wave", "a.", ".mp3", "a.mp3.txt"] {
        assert!(!is_supported_audio_file(&file(path)), "{}", path);
    }
}

fn entry(name: &str, is_file: bool) -> Option<DirectoryEntry> {
    Some(DirectoryEntry { path: file(name), name: name.as_bytes().to_vec(), is_file })
}

#[test]
fn a_directory_gives_its_audio_files_by_name() {
    let listing = vec![
        entry("b.mp3", true),
        None,
        entry("notes.txt", true),
        entry("folder.mp3", false),
        entry("a.wav", true),
        entry("B.aif", true),
    ];
    assert_eq!(audio_files_in::<String>(Ok(listing)), Ok(vec![5, 4, 0]));
    assert_eq!(audio_files_in::<String>(Ok(Vec::new())), Ok(Vec::new()));
    assert_eq!(audio_files_in::<String>(Ok(vec![None])), Ok(Vec::new()));
}

#[test]
fn a_directory_may_not_be_listed() {
    let error = String::from("no such directory");
    assert_eq!(audio_files_in(Err(error.clone())), Err(error));
}

#[test]
fn audio_files_are_ordered_like_paths() {
    let names = ["z.mp3", "é.mp3", "a b.mp3", "a.mp3", "a-b.mp3", "A.mp3", "10.wav", "9.wav", "🔁.wav", "a.aif"];
    let listing = names.iter().map(|name| entry(name, true)).collect::<Vec<_>>();
    let mut paths = names.iter().map(|name| Path::new("music").join(name)).collect::<Vec<_>>();
    paths.sort();
    let found = audio_files_in::<String>(Ok(listing)).unwrap();
    let found = found.iter().map(|index| Path::new("music").join(names[*index])).collect::<Vec<_>>();
    assert_eq!(found, paths);
}

#[test]
fn names_that_are_the_same_keep_their_order() {
    let listing = vec![entry("b.mp3", true), entry("a.mp3", true), entry("a.mp3", true)];
    assert_eq!(audio_files_in::<String>(Ok(listing)), Ok(vec![1, 2, 0]));
}

#[test]
fn the_length_of_a_track_may_be_known() {
    let length = PlayTime { secs: 3, nanos: 5 };
    let known = TrackVisual { duration: Some(length), spectra: Vec::new() };
    let unknown = TrackVisual { duration: None, spectra: Vec::new() };
    assert_eq!(known_duration(Some(&known)), Some(length));
    assert_eq!(known_duration(Some(&unknown)), None);
    assert_eq!(known_duration(None), None);
}

#[test]
fn each_character_scores() {
    assert_eq!(fuzzy_score("abc", "c"), Some(10));
    assert_eq!(fuzzy_score("abc", "a"), Some(18));
    assert_eq!(fuzzy_score("my song", "s"), Some(16));
    assert_eq!(fuzzy_score("Song.mp3", "song"), Some(60));
    assert_eq!(fuzzy_score("ABBA", "aba"), Some(42));
    assert_eq!(fuzzy_score("-a_b.c/d e", "abcde"), Some(80));
}

#[test]
fn a_candidate_may_not_match() {
    assert_eq!(fuzzy_score("abc", "x"), None);
    assert_eq!(fuzzy_score("abc", "ca"), None);
    assert_eq!(fuzzy_score("a", "aa"), None);
    assert_eq!(fuzzy_score("", "a"), None);
}

#[test]
fn whitespace_is_not_looked_for() {
    assert_eq!(fuzzy_score("abc", ""), Some(0));
    assert_eq!(fuzzy_score("abc", " \t\u{3000}"), Some(0));
    assert_eq!(fuzzy_score("ab", " a b "), Some(32));
}

#[test]
fn adjacent_matches_are_one_byte_apart() {
    assert_eq!(fuzzy_score("ab", "ab"), Some(32));
    assert_eq!(fuzzy_score("aé", "aé"), Some(32));
    assert_eq!(fuzzy_score("éa", "éa"), Some(28));
}

#[test]
fn case_makes_no_difference() {
    assert_eq!(fuzzy_score("Hello World", "HW"), fuzzy_score("hello world", "hw"));
    assert_eq!(fuzzy_score("É", "é"), None);
}

#[test]
fn scores_agree_with_a_search_through_bytes() {
    let names = ["", "a", "Abba - Dancing.mp3", "été_à/la", "🔁🔁 x", "a-a-a", "..//--__  ", "ZZ top"];
    let queries = ["", " ", "a", "ad", "DANCING", "t l", "🔁x", "aaa", "./", "-", "z z", "zt", "tà", "Là"];
    for name in names {
        for query in queries {
            assert_eq!(fuzzy_score(name, query), score_by_bytes(name, query), "{:?} {:?}", name, query);
        }
    }
}

#[test]
fn a_blank_query_lists_everything() {
    let all = files(&["c.mp3", "a.mp3", "b.mp3"]);
    assert_eq!(fuzzy_track_indices(&all, ""), vec![0, 1, 2]);
    assert_eq!(fuzzy_track_indices(&all, "  \n"), vec![0, 1, 2]);
    assert_eq!(fuzzy_track_indices(&[], ""), Vec::<usize>::new());
}

#[test]
fn better_matches_come_first() {
    let all = files(&["xs.mp3", "a s.mp3", "s.wav", "none"]);
    assert_eq!(fuzzy_track_indices(&all, "s"), vec![2, 1, 0]);
}

#[test]
fn equal_matches_come_by_name() {
    let all = files(&["sz", "sB", "sa", "sé"]);
    assert_eq!(fuzzy_track_indices(&all, "S"), vec![1, 2, 0, 3]);
}

#[test]
fn equal_names_keep_their_order() {
    let all = files(&["b/song", "z", "a/song", "c/song"]);
    assert_eq!(fuzzy_track_indices(&all, "song"), vec![0, 2, 3]);
}

#[test]
fn a_search_may_find_nothing() {
    let all = files(&["a.mp3", "b.mp3"]);
    assert_eq!(fuzzy_track_indices(&all, "q"), Vec::<usize>::new());
}

#[test]
fn a_search_lists_each_match_once() {
    let names = (0..60).map(|n| format!("{} track {}.mp3", n % 7, n % 5)).collect::<Vec<_>>();
    let all = names.iter().map(|name| file(name)).collect::<Vec<_>>();
    for query in ["t", "3", "track 2", "13", "mp3"] {
        let mut expected = (0..names.len())
            .filter(|index| score_by_bytes(&names[*index], query).is_some())
            .collect::<Vec<_>>();
        expected.sort_by_key(|index| {
            let score = score_by_bytes(&names[*index], query).unwrap();
            (std::cmp::Reverse(score), names[*index].clone())
        });
        assert_eq!(fuzzy_track_indices(&all, query), expected);
    }
}

#[test]
fn a_file_without_a_name_is_found_by_its_placeholder() {
    let all = files(&["..", "a.mp3"]);
    assert_eq!(fuzzy_track_indices(&all, "<invalid"), vec![0]);
}
