//! Songs and collections of songs, as an `irealb://` URL carries them.
//!
//! After the scheme the URL is percent-escaped text. `===` parts the songs
//! from one another and from the title of the collection, which comes last.
//! Within a song `=` parts the fields: title, composer, an unused field,
//! style, key, transposition, the scrambled chart, playback style, tempo and
//! number of repeats.

use vstd::prelude::*;
use crate::chart::{Music, MusicView};
use crate::error::{DecodeError, FormatError};
use crate::escape::{unescape_chars, unescape_text};
use crate::parse::{music_agrees, music_of, parse_music_chars};
use crate::scramble::{descramble_chars, descramble_text};
use crate::text::{
    from_chars, matches_at, number_of, occurs_at, parse_number, split, split_text, texts,
    to_chars, trim, trimmed,
};

verus! {

/// The marker that a chart begins with, before its scrambled text.
pub const MUSIC_PREFIX: &'static str = "1r34LbKcu7";

/// The scheme that a URL begins with.
pub const SCHEME: &'static str = "irealb://";

/// The number of fields of a song.
pub const FIELDS: usize = 10;

/// One song of a collection.
#[derive(Debug, PartialEq, Eq)]
pub struct Song {
    pub title: String,
    pub composer: String,
    pub style: String,
    pub key: String,
    pub transpose: String,
    pub music: Music,
    pub comp_style: String,
    pub bpm: u32,
    pub repeats: String,
}

/// The mathematical value of a [`Song`].
pub struct SongView {
    pub title: Seq<char>,
    pub composer: Seq<char>,
    pub style: Seq<char>,
    pub key: Seq<char>,
    pub transpose: Seq<char>,
    pub music: MusicView,
    pub comp_style: Seq<char>,
    pub bpm: u32,
    pub repeats: Seq<char>,
}

impl View for Song {
    type V = SongView;

    open spec fn view(&self) -> SongView {
        SongView {
            title: self.title@,
            composer: self.composer@,
            style: self.style@,
            key: self.key@,
            transpose: self.transpose@,
            music: self.music@,
            comp_style: self.comp_style@,
            bpm: self.bpm,
            repeats: self.repeats@,
        }
    }
}

impl Clone for Song {
    fn clone(&self) -> (r: Self)
        ensures
            r@ == self@,
    {
        Song {
            title: self.title.clone(),
            composer: self.composer.clone(),
            style: self.style.clone(),
            key: self.key.clone(),
            transpose: self.transpose.clone(),
            music: self.music.clone(),
            comp_style: self.comp_style.clone(),
            bpm: self.bpm,
            repeats: self.repeats.clone(),
        }
    }
}

/// The views of a sequence of songs, element by element.
pub open spec fn song_views(songs: Seq<Song>) -> Seq<SongView> {
    songs.map_values(|s: Song| s@)
}

/// A collection of songs under one title.
#[derive(Debug, PartialEq, Eq)]
pub struct Collection {
    pub title: String,
    pub songs: Vec<Song>,
}

/// The mathematical value of a [`Collection`].
pub struct CollectionView {
    pub title: Seq<char>,
    pub songs: Seq<SongView>,
}

impl View for Collection {
    type V = CollectionView;

    open spec fn view(&self) -> CollectionView {
        CollectionView { title: self.title@, songs: song_views(self.songs@) }
    }
}

/// The music of the chart `blob`: the chart must begin with the marker, and
/// what follows the marker is descrambled and read.
pub open spec fn decoded_music(blob: Seq<char>) -> Result<MusicView, DecodeError> {
    if occurs_at(blob, 0, MUSIC_PREFIX@) {
        music_of(descramble_text(blob.skip(MUSIC_PREFIX@.len() as int)))
    } else {
        Err(DecodeError::Format(FormatError::MissingMarker))
    }
}

/// The song that the record `record` describes. A record of fewer than ten
/// fields is an error; then an error of the chart comes before an error of
/// the tempo.
pub open spec fn song_of(record: Seq<char>) -> Result<SongView, DecodeError> {
    let fields = split_text(record, "="@);
    if fields.len() < 10 {
        Err(DecodeError::Format(FormatError::MissingField))
    } else {
        match decoded_music(fields[6]) {
            Err(e) => Err(e),
            Ok(music) => match number_of(fields[8]) {
                None => Err(DecodeError::Format(FormatError::InvalidTempo)),
                Some(bpm) => Ok(
                    SongView {
                        title: fields[0],
                        composer: fields[1],
                        style: fields[3],
                        key: fields[4],
                        transpose: fields[5],
                        music,
                        comp_style: fields[7],
                        bpm,
                        repeats: fields[9],
                    },
                ),
            },
        }
    }
}

/// The songs that the records describe, in order, or the error of the first
/// record that has one.
pub open spec fn songs_of(records: Seq<Seq<char>>) -> Result<Seq<SongView>, DecodeError>
    decreases records.len(),
{
    if records.len() == 0 {
        Ok(Seq::empty())
    } else {
        match songs_of(records.drop_last()) {
            Err(e) => Err(e),
            Ok(songs) => match song_of(records.last()) {
                Err(e) => Err(e),
                Ok(song) => Ok(songs.push(song)),
            },
        }
    }
}

/// The collection of the songs `songs` under the title `title`; an error
/// among the songs as it is.
pub open spec fn titled(title: Seq<char>, songs: Result<Seq<SongView>, DecodeError>) -> Result<
    CollectionView,
    DecodeError,
> {
    match songs {
        Err(e) => Err(e),
        Ok(songs) => Ok(CollectionView { title, songs }),
    }
}

/// The collection that the URL `url` carries. White space around the URL is
/// ignored. Where the text has more than one part, the last part is the
/// title and the others are songs; a single part is one song of a collection
/// titled `No Title`.
pub open spec fn collection_of(url: Seq<char>) -> Result<CollectionView, DecodeError> {
    let text = trimmed(url);
    if !occurs_at(text, 0, SCHEME@) {
        Err(DecodeError::Format(FormatError::MissingScheme))
    } else {
        match unescape_text(text.skip(SCHEME@.len() as int)) {
            Err(e) => Err(DecodeError::Format(e)),
            Ok(body) => {
                let parts = split_text(body, "==="@);
                let records = if parts.len() > 1 {
                    parts.drop_last()
                } else {
                    parts
                };
                let title = if parts.len() > 1 {
                    parts.last()
                } else {
                    "No Title"@
                };
                titled(title, songs_of(records))
            },
        }
    }
}

/// Reads the music from the characters of a chart as a song record holds it.
pub fn decode_music_chars(blob: &Vec<char>) -> (r: Result<Music, DecodeError>)
    ensures
        music_agrees(r, decoded_music(blob@)),
{
    let marker = to_chars(MUSIC_PREFIX);
    if !matches_at(blob, 0, &marker) {
        return Err(DecodeError::Format(FormatError::MissingMarker));
    }
    let plain = descramble_chars(blob, marker.len());
    parse_music_chars(&plain)
}

/// Reads the music from a chart as a song record holds it: checks the
/// marker, descrambles what follows it and reads the result.
pub fn decode_music(text: &str) -> (r: Result<Music, DecodeError>)
    ensures
        music_agrees(r, decoded_music(text@)),
{
    let blob = to_chars(text);
    decode_music_chars(&blob)
}

/// Whether `r` is the exact counterpart of the result `m` in the model.
pub open spec fn song_agrees(r: Result<Song, DecodeError>, m: Result<SongView, DecodeError>)
    -> bool {
    match r {
        Ok(song) => m == Ok::<SongView, DecodeError>(song@),
        Err(e) => m == Err::<SongView, DecodeError>(e),
    }
}

/// Reads a song from the characters of its record.
pub fn song_from_chars(record: &Vec<char>) -> (r: Result<Song, DecodeError>)
    ensures
        song_agrees(r, song_of(record@)),
{
    let separator = to_chars("=");
    proof {
        reveal_strlit("=");
    }
    let fields = split(record, &separator);
    if fields.len() < FIELDS {
        return Err(DecodeError::Format(FormatError::MissingField));
    }
    assert(forall|i: int| 0 <= i < fields@.len() ==> texts(fields@)[i] == fields@[i]@);
    let music = match decode_music_chars(&fields[6]) {
        Ok(music) => music,
        Err(e) => {
            return Err(e);
        },
    };
    let bpm = match parse_number(&fields[8]) {
        Some(bpm) => bpm,
        None => {
            return Err(DecodeError::Format(FormatError::InvalidTempo));
        },
    };
    Ok(
        Song {
            title: from_chars(&fields[0]),
            composer: from_chars(&fields[1]),
            style: from_chars(&fields[3]),
            key: from_chars(&fields[4]),
            transpose: from_chars(&fields[5]),
            music,
            comp_style: from_chars(&fields[7]),
            bpm,
            repeats: from_chars(&fields[9]),
        },
    )
}

impl Song {
    /// Reads a song from its record, the fields parted by `=`.
    pub fn from_text(text: &str) -> (r: Result<Song, DecodeError>)
        ensures
            song_agrees(r, song_of(text@)),
    {
        let record = to_chars(text);
        song_from_chars(&record)
    }
}

/// Reads the collection that a URL carries.
pub fn parse_url(text: &str) -> (r: Result<Collection, DecodeError>)
    ensures
        match r {
            Ok(collection) => collection_of(text@) == Ok::<CollectionView, DecodeError>(
                collection@,
            ),
            Err(e) => collection_of(text@) == Err::<CollectionView, DecodeError>(e),
        },
{
    let url = trim(&to_chars(text));
    let scheme = to_chars(SCHEME);
    if !matches_at(&url, 0, &scheme) {
        return Err(DecodeError::Format(FormatError::MissingScheme));
    }
    let body = match unescape_chars(&url, scheme.len()) {
        Ok(body) => body,
        Err(e) => {
            return Err(DecodeError::Format(e));
        },
    };
    let separator = to_chars("===");
    proof {
        reveal_strlit("===");
    }
    let parts = split(&body, &separator);
    let count = if parts.len() > 1 {
        parts.len() - 1
    } else {
        parts.len()
    };
    let ghost records = if parts.len() > 1 {
        texts(parts@).drop_last()
    } else {
        texts(parts@)
    };
    assert(records =~= texts(parts@).take(count as int));
    let ghost title_text = if parts.len() > 1 {
        texts(parts@).last()
    } else {
        "No Title"@
    };
    assert(collection_of(text@) == titled(title_text, songs_of(records)));
    let mut songs: Vec<Song> = Vec::new();
    let mut i: usize = 0;
    assert(song_views(songs@) =~= Seq::<SongView>::empty());
    assert(records.take(0) =~= Seq::<Seq<char>>::empty());
    while i < count
        invariant
            i <= count <= parts.len(),
            records == texts(parts@).take(count as int),
            collection_of(text@) == titled(title_text, songs_of(records)),
            songs_of(records.take(i as int)) == Ok::<Seq<SongView>, DecodeError>(
                song_views(songs@),
            ),
        decreases count - i,
    {
        let ghost before = songs@;
        proof {
            assert(records.take(i + 1).drop_last() =~= records.take(i as int));
            assert(records.take(i + 1).last() == parts@[i as int]@);
        }
        match song_from_chars(&parts[i]) {
            Ok(song) => {
                let ghost sv = song@;
                songs.push(song);
                assert(song_views(songs@) =~= song_views(before).push(sv));
            },
            Err(e) => {
                proof {
                    lemma_songs_error(records, i + 1);
                }
                return Err(e);
            },
        }
        i += 1;
    }
    assert(records.take(count as int) =~= records);
    let title = if parts.len() > 1 {
        assert(texts(parts@).last() == parts@[parts@.len() - 1]@);
        from_chars(&parts[parts.len() - 1])
    } else {
        let title = to_chars("No Title");
        from_chars(&title)
    };
    Ok(Collection { title, songs })
}

/// An error among the first `n` records is the error of all the records.
proof fn lemma_songs_error(records: Seq<Seq<char>>, n: int)
    requires
        0 <= n <= records.len(),
        songs_of(records.take(n)) is Err,
    ensures
        songs_of(records) == songs_of(records.take(n)),
    decreases records.len() - n,
{
    if n < records.len() {
        assert(records.take(n + 1).drop_last() =~= records.take(n));
        lemma_songs_error(records, n + 1);
    } else {
        assert(records.take(n) =~= records);
    }
}

} // verus!
