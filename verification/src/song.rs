use vstd::prelude::*;
use vstd::std_specs::hash::DefaultHasherAdditionalSpecFns;
use vstd::string::StringSliceAdditionalSpecFns;
use vstd::utf8::encode_utf8;
use core::hash::Hasher;
use std::collections::hash_map::DefaultHasher;

verus! {

/// The abstract value of one playable entry: its derived identifier and the
/// characters of its three text fields.
#[verifier::ext_equal]
pub ghost struct SongView {
    pub id: u64,
    pub title: Seq<char>,
    pub artist: Seq<char>,
    pub file_path: Seq<char>,
}

/// The identifier derived from a (title, artist) pair: the standard hasher's
/// digest of the two fields' UTF-8 bytes, fed in that order. A function of
/// the two texts alone, hence deterministic; distinct pairs may collide.
pub open spec fn uid_of(title: Seq<char>, artist: Seq<char>) -> u64 {
    DefaultHasher::spec_finish(seq![encode_utf8(title), encode_utf8(artist)])
}

/// One playable entry: a title, an artist, the path of the audio file, and
/// an identifier derived from (title, artist).
pub struct Song {
    pub id: u64,
    pub title: String,
    pub artist: String,
    pub file_path: String,
}

impl View for Song {
    type V = SongView;

    open spec fn view(&self) -> SongView {
        SongView {
            id: self.id,
            title: self.title@,
            artist: self.artist@,
            file_path: self.file_path@,
        }
    }
}

/// A song whose identifier agrees with its title and artist.
pub open spec fn song_wf(s: SongView) -> bool {
    s.id == uid_of(s.title, s.artist)
}

impl Song {
    /// Derives the identifier for a (title, artist) pair. The result is a
    /// function of the two texts alone, so repeated calls on equal texts
    /// return equal identifiers.
    pub fn generate_uid(title: &str, artist: &str) -> (id: u64)
        ensures
            id == uid_of(title@, artist@),
    {
        let mut hasher = DefaultHasher::new();
        hasher.write(title.as_bytes());
        hasher.write(artist.as_bytes());
        proof {
            assert(hasher@ =~= seq![title.spec_bytes(), artist.spec_bytes()]);
        }
        hasher.finish()
    }

    /// Builds a song from its three text fields, deriving the identifier.
    pub fn new(title: &str, artist: &str, file_path: &str) -> (s: Song)
        ensures
            s@ == (SongView { id: uid_of(title@, artist@), title: title@, artist: artist@, file_path: file_path@ }),
            song_wf(s@),
    {
        Song {
            id: Song::generate_uid(title, artist),
            title: title.to_owned(),
            artist: artist.to_owned(),
            file_path: file_path.to_owned(),
        }
    }

    /// A field-for-field copy with the same abstract value.
    pub fn duplicate(&self) -> (s: Song)
        ensures
            s@ == self@,
    {
        Song {
            id: self.id,
            title: self.title.clone(),
            artist: self.artist.clone(),
            file_path: self.file_path.clone(),
        }
    }
}

/// Extends a playback wait, given in whole seconds, by the one-second safety
/// margin that absorbs decoder duration-estimation error, saturating at the
/// largest representable value.
pub fn margin_adjusted_secs(secs: u64) -> (r: u64)
    ensures
        secs < u64::MAX ==> r == secs + 1,
        secs == u64::MAX ==> r == u64::MAX,
{
    if secs < u64::MAX {
        secs + 1
    } else {
        u64::MAX
    }
}

} // verus!
