//! The files of the playlist and what is known of them.
use vstd::prelude::*;
use crate::text::{bytes_before, bytes_less, chars_of, lower_chars, lowered, same_text};
use crate::time::PlayTime;

verus! {

/// A file as its path names it: the last component of the path and the extension
/// of that component, each where there is one and it is valid Unicode.
pub struct TrackFile {
    pub file_name: Option<String>,
    pub extension: Option<String>,
}

/// The name under which a file is shown.
pub open spec fn name_of(file: TrackFile) -> Seq<char> {
    match file.file_name {
        Some(name) => name@,
        None => "<invalid file name>"@,
    }
}

/// The names under which files are shown.
pub open spec fn names_of(files: Seq<TrackFile>) -> Seq<Seq<char>> {
    files.map_values(|file: TrackFile| name_of(file))
}

/// The name under which `path` is shown: its last component, or a placeholder.
pub fn display_name(path: &TrackFile) -> (name: String)
    ensures
        name@ == name_of(*path),
{
    match &path.file_name {
        Some(name) => name.as_str().to_owned(),
        None => "<invalid file name>".to_owned(),
    }
}

/// Whether `extension`, in any case of its letters, is that of a file that can be
/// played.
pub open spec fn playable_extension(extension: Seq<char>) -> bool {
    let low = lowered(extension);
    low == "aif"@ || low == "aiff"@ || low == "aifc"@ || low == "mp3"@ || low == "wav"@
}

/// Whether a file can be played, by its extension.
pub open spec fn playable(file: TrackFile) -> bool {
    match file.extension {
        Some(extension) => playable_extension(extension@),
        None => false,
    }
}

/// Whether `path` names an audio file of a supported format.
pub fn is_supported_audio_file(path: &TrackFile) -> (yes: bool)
    ensures
        yes == playable(*path),
{
    match &path.extension {
        Some(extension) => {
            let low = lower_chars(extension.as_str());
            same_text(&low, &chars_of("aif")) || same_text(&low, &chars_of("aiff")) || same_text(
                &low,
                &chars_of("aifc"),
            ) || same_text(&low, &chars_of("mp3")) || same_text(&low, &chars_of("wav"))
        },
        None => false,
    }
}

/// An entry of a directory.
pub struct DirectoryEntry {
    pub path: TrackFile,
    /// The bytes of the last component of its path, by which the entries of a directory are
    /// ordered.
    pub name: Vec<u8>,
    /// Whether it is a regular file.
    pub is_file: bool,
}

/// Whether an entry belongs in the playlist. What could not be read does not.
pub open spec fn belongs(entry: Option<DirectoryEntry>) -> bool {
    match entry {
        Some(entry) => entry.is_file && playable(entry.path),
        None => false,
    }
}

/// The name of the entry at position `i`, as bytes.
pub open spec fn entry_name(entries: Seq<Option<DirectoryEntry>>, i: int) -> Seq<u8> {
    entries[i]->0.name@
}

/// Whether the entry at position `i` stands before the one at `j`: by name, and entries of
/// the same name by their positions.
pub open spec fn stands_before(entries: Seq<Option<DirectoryEntry>>, i: int, j: int) -> bool {
    ||| bytes_less(entry_name(entries, i), entry_name(entries, j))
    ||| entry_name(entries, i) == entry_name(entries, j) && i < j
}

/// Whether `kept` lists, in ascending order of their names, the positions of those of the
/// first `count` entries that belong in the playlist, each once.
pub open spec fn lists_first(
    entries: Seq<Option<DirectoryEntry>>,
    count: int,
    kept: Seq<usize>,
) -> bool {
    &&& forall|a: int, b: int|
        0 <= a < b < kept.len() ==> stands_before(
            entries,
            #[trigger] kept[a] as int,
            #[trigger] kept[b] as int,
        )
    &&& forall|a: int|
        0 <= a < kept.len() ==> #[trigger] kept[a] < count && belongs(entries[kept[a] as int])
    &&& forall|i: int|
        0 <= i < count && belongs(#[trigger] entries[i]) ==> kept.contains(i as usize)
}

/// Whether `kept` lists, in ascending order of their names, the positions of the entries
/// that belong in the playlist, each once.
pub open spec fn lists_playable(entries: Seq<Option<DirectoryEntry>>, kept: Seq<usize>) -> bool {
    lists_first(entries, entries.len() as int, kept)
}

/// The order of entries is transitive.
proof fn lemma_stands_transitive(entries: Seq<Option<DirectoryEntry>>, i: int, j: int, k: int)
    requires
        stands_before(entries, i, j),
        stands_before(entries, j, k),
    ensures
        stands_before(entries, i, k),
{
    let (a, b, c) = (entry_name(entries, i), entry_name(entries, j), entry_name(entries, k));
    if bytes_less(a, b) && bytes_less(b, c) {
        crate::text::lemma_bytes_transitive(a, b, c);
    }
}

/// No entry stands before another that stands before it.
proof fn lemma_stands_asymmetric(entries: Seq<Option<DirectoryEntry>>, i: int, j: int)
    requires
        stands_before(entries, i, j),
    ensures
        !stands_before(entries, j, i),
{
    if stands_before(entries, j, i) {
        lemma_stands_transitive(entries, i, j, i);
        crate::text::lemma_bytes_irreflexive(entry_name(entries, i));
    }
}

/// Inserting the next entry before those that it stands before, and behind the others,
/// gives a list with it.
proof fn lemma_list_insert(
    entries: Seq<Option<DirectoryEntry>>,
    count: int,
    kept: Seq<usize>,
    at: int,
)
    requires
        0 <= count < entries.len(),
        count <= usize::MAX,
        lists_first(entries, count, kept),
        belongs(entries[count]),
        0 <= at <= kept.len(),
        forall|k: int| 0 <= k < at ==> !stands_before(entries, count, #[trigger] kept[k] as int),
        forall|k: int| at <= k < kept.len() ==> stands_before(entries, count, #[trigger] kept[k] as int),
    ensures
        lists_first(entries, count + 1, kept.insert(at, count as usize)),
{
    let next = kept.insert(at, count as usize);
    assert forall|a: int, b: int| 0 <= a < b < next.len() implies stands_before(
        entries,
        #[trigger] next[a] as int,
        #[trigger] next[b] as int,
    ) by {
        let pa = if a < at { a } else { a - 1 };
        let pb = if b < at { b } else { b - 1 };
        if a == at {
            assert(next[b] == kept[pb]);
        } else if b == at {
            assert(next[a] == kept[pa]);
            assert(kept[pa] < count);
            crate::text::lemma_bytes_total(
                entry_name(entries, kept[pa] as int),
                entry_name(entries, count),
            );
        } else {
            assert(next[a] == kept[pa]);
            assert(next[b] == kept[pb]);
        }
    }
    assert forall|a: int| 0 <= a < next.len() implies #[trigger] next[a] < count + 1 && belongs(
        entries[next[a] as int],
    ) by {
        if a != at {
            let pa = if a < at { a } else { a - 1 };
            assert(next[a] == kept[pa]);
        }
    }
    assert forall|i: int|
        0 <= i < count + 1 && belongs(#[trigger] entries[i]) implies next.contains(i as usize) by {
        if i == count {
            assert(next[at] == count as usize);
        } else {
            assert(kept.contains(i as usize));
            let k = choose|k: int| 0 <= k < kept.len() && kept[k] == i as usize;
            if k < at {
                assert(next[k] == i as usize);
            } else {
                assert(next[k + 1] == i as usize);
            }
        }
    }
}

/// Two lists of the same entries agree up to every position of the first.
proof fn lemma_list_prefix(
    entries: Seq<Option<DirectoryEntry>>,
    a: Seq<usize>,
    b: Seq<usize>,
    n: int,
)
    requires
        entries.len() <= usize::MAX,
        lists_playable(entries, a),
        lists_playable(entries, b),
        0 <= n <= a.len(),
    ensures
        n <= b.len(),
        forall|k: int| 0 <= k < n ==> a[k] == b[k],
    decreases n,
{
    if n > 0 {
        let k = n - 1;
        lemma_list_prefix(entries, a, b, k);
        assert(a[k] < entries.len() && belongs(entries[a[k] as int]));
        assert(b.contains(a[k]));
        let m = choose|m: int| 0 <= m < b.len() && b[m] == a[k];
        if m < k {
            assert(a[m] == a[k]);
            lemma_stands_asymmetric(entries, a[m] as int, a[k] as int);
        }
        if b[k] != a[k] {
            assert(b[k] < entries.len() && belongs(entries[b[k] as int]));
            assert(a.contains(b[k]));
            let w = choose|w: int| 0 <= w < a.len() && a[w] == b[k];
            if w < k {
                assert(b[w] == b[k]);
                lemma_stands_asymmetric(entries, b[w] as int, b[k] as int);
            }
            assert(stands_before(entries, b[k] as int, b[m] as int));
            assert(stands_before(entries, a[k] as int, a[w] as int));
            lemma_stands_asymmetric(entries, a[k] as int, b[k] as int);
        }
    }
}

/// A directory has one playlist: two lists of the same entries are the same.
pub proof fn directory_list_unique(
    entries: Seq<Option<DirectoryEntry>>,
    a: Seq<usize>,
    b: Seq<usize>,
)
    requires
        entries.len() <= usize::MAX,
        lists_playable(entries, a),
        lists_playable(entries, b),
    ensures
        a == b,
{
    lemma_list_prefix(entries, a, b, a.len() as int);
    lemma_list_prefix(entries, b, a, b.len() as int);
    assert(a =~= b);
}

/// The names of the tracks of a directory ascend.
pub proof fn directory_list_ascends(
    entries: Seq<Option<DirectoryEntry>>,
    kept: Seq<usize>,
    a: int,
    b: int,
)
    requires
        lists_playable(entries, kept),
        0 <= a <= b < kept.len(),
    ensures
        !bytes_less(entry_name(entries, kept[b] as int), entry_name(entries, kept[a] as int)),
{
    crate::text::lemma_bytes_irreflexive(entry_name(entries, kept[a] as int));
    if a < b {
        lemma_stands_asymmetric(entries, kept[a] as int, kept[b] as int);
        if bytes_less(entry_name(entries, kept[b] as int), entry_name(entries, kept[a] as int)) {
            assert(stands_before(entries, kept[b] as int, kept[a] as int));
        }
    }
}

/// The name of an entry that could be read.
fn name_at(entries: &[Option<DirectoryEntry>], i: usize) -> (name: &[u8])
    requires
        i < entries@.len(),
        entries@[i as int] is Some,
    ensures
        name@ == entry_name(entries@, i as int),
{
    match &entries[i] {
        Some(entry) => entry.name.as_slice(),
        None => &[],
    }
}

/// The place of the entry at position `i` in a list of entries before it.
fn place_for(entries: &[Option<DirectoryEntry>], i: usize, kept: &[usize]) -> (at: usize)
    requires
        i < entries@.len(),
        entries@[i as int] is Some,
        lists_first(entries@, i as int, kept@),
    ensures
        at <= kept@.len(),
        forall|k: int| 0 <= k < at ==> !stands_before(entries@, i as int, #[trigger] kept@[k] as int),
        forall|k: int|
            at <= k < kept@.len() ==> stands_before(entries@, i as int, #[trigger] kept@[k] as int),
{
    let mut low: usize = 0;
    let mut high: usize = kept.len();
    while low < high
        invariant
            i < entries@.len(),
            entries@[i as int] is Some,
            lists_first(entries@, i as int, kept@),
            low <= high <= kept@.len(),
            forall|k: int|
                0 <= k < low ==> !stands_before(entries@, i as int, #[trigger] kept@[k] as int),
            forall|k: int|
                high <= k < kept@.len() ==> stands_before(
                    entries@,
                    i as int,
                    #[trigger] kept@[k] as int,
                ),
        decreases high - low,
    {
        let middle: usize = low + (high - low) / 2;
        let other: usize = kept[middle];
        assert(kept@[middle as int] < i && belongs(entries@[other as int]));
        if bytes_before(name_at(entries, i), name_at(entries, other)) {
            assert forall|k: int| middle <= k < kept@.len() implies stands_before(
                entries@,
                i as int,
                #[trigger] kept@[k] as int,
            ) by {
                if k > middle {
                    lemma_stands_transitive(
                        entries@,
                        i as int,
                        kept@[middle as int] as int,
                        kept@[k] as int,
                    );
                }
            }
            high = middle;
        } else {
            assert forall|k: int| 0 <= k <= middle implies !stands_before(
                entries@,
                i as int,
                #[trigger] kept@[k] as int,
            ) by {
                if k < middle && stands_before(entries@, i as int, kept@[k] as int) {
                    lemma_stands_transitive(
                        entries@,
                        i as int,
                        kept@[k] as int,
                        kept@[middle as int] as int,
                    );
                }
            }
            low = middle + 1;
        }
    }
    low
}

/// The audio files of a directory, as positions in its listing, in ascending order of their
/// names. `listing` holds what was listed, `None` in place of what could not be read; where
/// the directory could not be listed, that is why.
pub fn audio_files_in<E>(listing: Result<Vec<Option<DirectoryEntry>>, E>) -> (audio_files: Result<
    Vec<usize>,
    E,
>)
    ensures
        match listing {
            Ok(entries) => audio_files is Ok && lists_playable(entries@, audio_files->Ok_0@),
            Err(error) => audio_files is Err && audio_files->Err_0 == error,
        },
{
    let entries: Vec<Option<DirectoryEntry>> = match listing {
        Ok(entries) => entries,
        Err(error) => {
            return Err(error);
        },
    };
    let mut kept: Vec<usize> = Vec::new();
    for i in 0..entries.len()
        invariant
            lists_first(entries@, i as int, kept@),
    {
        let keep: bool = match &entries[i] {
            Some(entry) => entry.is_file && is_supported_audio_file(&entry.path),
            None => false,
        };
        assert(keep == belongs(entries@[i as int]));
        if keep {
            let at: usize = place_for(&entries, i, &kept);
            proof {
                lemma_list_insert(entries@, i as int, kept@, at as int);
            }
            kept.insert(at, i);
        }
    }
    Ok(kept)
}

/// What the tags of a file say of its music.
#[derive(Clone, Debug)]
pub struct TrackMetadata {
    pub title: Option<String>,
    pub artist: Option<String>,
    pub album: Option<String>,
}

/// What the meter shows of a track: its length, where it is known, and for each frame
/// the heights of its frequency bands.
pub struct TrackVisual {
    pub duration: Option<PlayTime>,
    pub spectra: Vec<Vec<usize>>,
}

impl TrackVisual {
    /// Whether the length is a proper span.
    pub open spec fn wf(self) -> bool {
        self.duration matches Some(duration) ==> duration.wf()
    }
}

/// The visual that a reference refers to.
pub open spec fn visual_of(visual: Option<&TrackVisual>) -> Option<TrackVisual> {
    match visual {
        Some(visual) => Some(*visual),
        None => None,
    }
}

/// The length of a track, where it is known.
pub open spec fn duration_of(visual: Option<TrackVisual>) -> Option<PlayTime> {
    match visual {
        Some(visual) => visual.duration,
        None => None,
    }
}

/// The length of a track, where it is known.
pub fn known_duration(visual: Option<&TrackVisual>) -> (duration: Option<PlayTime>)
    ensures
        duration == duration_of(visual_of(visual)),
{
    match visual {
        Some(visual) => visual.duration,
        None => None,
    }
}

/// What the tags of the track that plays say, as a value.
pub open spec fn metadata_of(metadata: Option<&TrackMetadata>) -> Option<TrackMetadata> {
    match metadata {
        Some(tags) => Some(*tags),
        None => None,
    }
}

/// A file is shown under its name, or under a placeholder where it has none.
pub proof fn files_are_shown_by_name(file: TrackFile)
    ensures
        file.file_name matches Some(name) ==> name_of(file) == name@,
        file.file_name is None ==> name_of(file) == "<invalid file name>"@,
{
}

/// Files are shown each under its own name.
pub proof fn each_file_has_its_name(files: Seq<TrackFile>)
    ensures
        names_of(files).len() == files.len(),
        forall|i: int| 0 <= i < files.len() ==> #[trigger] names_of(files)[i] == name_of(files[i]),
{
}

/// Files with five extensions can be played, in any case of their letters, and no others.
pub proof fn five_formats_are_playable(file: TrackFile)
    ensures
        playable(file) <==> (file.extension matches Some(extension) && exists|format: Seq<char>|
            seq!["aif"@, "aiff"@, "aifc"@, "mp3"@, "wav"@].contains(format) && lowered(extension@)
                == format),
{
    let formats = seq!["aif"@, "aiff"@, "aifc"@, "mp3"@, "wav"@];
    if let Some(extension) = file.extension {
        let low = lowered(extension@);
        assert(formats[0] == "aif"@ && formats[1] == "aiff"@ && formats[2] == "aifc"@ && formats[3]
            == "mp3"@ && formats[4] == "wav"@);
        if playable(file) {
            let k = if low == "aif"@ {
                0int
            } else if low == "aiff"@ {
                1
            } else if low == "aifc"@ {
                2
            } else if low == "mp3"@ {
                3
            } else {
                4
            };
            assert(formats[k] == low);
            assert(formats.contains(low));
        }
    }
}

/// The tracks of a directory are the regular files that can be played, each once.
pub proof fn directory_list_members(
    entries: Seq<Option<DirectoryEntry>>,
    kept: Seq<usize>,
    i: usize,
)
    requires
        entries.len() <= usize::MAX,
        lists_playable(entries, kept),
    ensures
        kept.no_duplicates(),
        kept.contains(i) <==> i < entries.len() && entries[i as int] is Some
            && entries[i as int]->0.is_file && playable(entries[i as int]->0.path),
{
    assert forall|a: int, b: int| 0 <= a < b < kept.len() implies kept[a] != kept[b] by {
        lemma_stands_asymmetric(entries, kept[a] as int, kept[b] as int);
    }
    if kept.contains(i) {
        let k = choose|k: int| 0 <= k < kept.len() && kept[k] == i;
        assert(kept[k] < entries.len() && belongs(entries[kept[k] as int]));
    }
    if i < entries.len() && belongs(entries[i as int]) {
        assert(kept.contains(i as int as usize));
    }
}

/// Of two tracks of a directory the one whose name comes first is listed first; names that
/// are the same keep their places.
pub proof fn directory_list_is_ordered(
    entries: Seq<Option<DirectoryEntry>>,
    kept: Seq<usize>,
    a: int,
    b: int,
)
    requires
        lists_playable(entries, kept),
        0 <= a < b < kept.len(),
    ensures
        ({
            let earlier = entries[kept[a] as int]->0.name@;
            let later = entries[kept[b] as int]->0.name@;
            bytes_less(earlier, later) || (earlier == later && kept[a] < kept[b])
        }),
{
    assert(stands_before(entries, kept[a] as int, kept[b] as int));
}

/// The length of a track is known if and only if it has a visual that says so.
pub proof fn length_is_that_of_the_visual(visual: Option<&TrackVisual>)
    ensures
        visual is None ==> duration_of(visual_of(visual)) is None,
        visual matches Some(known) ==> duration_of(visual_of(visual)) == known.duration
            && visual_of(visual) == Some(*known),
{
}

/// The tags of a track are those that were handed over.
pub proof fn tags_are_handed_on(metadata: Option<&TrackMetadata>)
    ensures
        metadata is None ==> metadata_of(metadata) is None,
        metadata matches Some(tags) ==> metadata_of(metadata) == Some(*tags),
{
}

} // verus!
