use vstd::prelude::*;
use crate::song::{Song, SongView, song_wf, uid_of};
use crate::text::contains_chars;
use crate::text::contains_keyword;

verus! {

/// The registry contents of a sequence of entries, as a mapping from
/// identifier to entry; a later entry with the same identifier wins.
pub open spec fn map_of(s: Seq<SongView>) -> Map<u64, SongView>
    decreases s.len(),
{
    if s.len() == 0 {
        Map::empty()
    } else {
        map_of(s.drop_last()).insert(s.last().id, s.last())
    }
}

/// No two entries of the sequence share an identifier.
pub open spec fn distinct_ids(s: Seq<SongView>) -> bool {
    forall|i: int, j: int| 0 <= i < j < s.len() ==> s[i].id != s[j].id
}

/// An entry matches a search: with a keyword, when the keyword occurs in the
/// title or in the artist; without one, always.
pub open spec fn kw_matches(s: SongView, kw: Option<Seq<char>>) -> bool {
    match kw {
        Some(k) => contains_chars(s.title, k) || contains_chars(s.artist, k),
        None => true,
    }
}

/// The characters of an optional keyword.
pub open spec fn kw_view(keywords: Option<String>) -> Option<Seq<char>> {
    match keywords {
        Some(k) => Some(k@),
        None => None,
    }
}

/// What a search over the contents `m` returns: every element of `rs` is an
/// entry of `m` that matches the keyword, every matching entry of `m` occurs
/// in `rs`, and no identifier occurs twice — so `rs` holds exactly the
/// matching entries, in an unspecified order.
pub open spec fn search_post(m: Map<u64, SongView>, rs: Seq<Song>, kw: Option<Seq<char>>) -> bool {
    &&& forall|j: int| 0 <= j < rs.len() ==> {
        &&& m.contains_key((#[trigger] rs[j])@.id)
        &&& m[rs[j]@.id] == rs[j]@
        &&& kw_matches(rs[j]@, kw)
    }
    &&& forall|uid: u64|
        m.contains_key(uid) && kw_matches(#[trigger] m[uid], kw) ==> exists|j: int|
            0 <= j < rs.len() && (#[trigger] rs[j])@.id == uid
    &&& forall|j1: int, j2: int|
        0 <= j1 < j2 < rs.len() ==> (#[trigger] rs[j1])@.id != (#[trigger] rs[j2])@.id
}

/// Collision transparency: when an entry already sits under the identifier
/// derived from (title, artist), adding a song with that title and artist
/// replaces the entry, and the number of entries does not grow. The
/// contents after such an add are exactly what `add_song` ensures.
pub proof fn lemma_collision_transparency(
    m: Map<u64, SongView>,
    title: Seq<char>,
    artist: Seq<char>,
    file_path: Seq<char>,
)
    requires
        m.dom().finite(),
        m.contains_key(uid_of(title, artist)),
    ensures
        ({
            let id = uid_of(title, artist);
            let m1 = m.insert(id, SongView { id, title, artist, file_path });
            &&& m1.dom().len() == m.dom().len()
            &&& m1[id] == SongView { id, title, artist, file_path }
        }),
{
    let id = uid_of(title, artist);
    let m1 = m.insert(id, SongView { id, title, artist, file_path });
    assert(m1.dom() =~= m.dom());
}

/// Add/remove round trip: adding a song whose (title, artist) pair is not
/// yet registered and then removing the identifier the add returned leaves
/// the registry contents exactly as they were. (With a colliding pair the
/// add overwrites the old entry, which the remove then deletes, so the old
/// contents are not restored; such inputs are excluded here.)
pub proof fn lemma_add_remove_round_trip(
    m: Map<u64, SongView>,
    title: Seq<char>,
    artist: Seq<char>,
    file_path: Seq<char>,
)
    requires
        !m.contains_key(uid_of(title, artist)),
    ensures
        ({
            let id = uid_of(title, artist);
            m.insert(id, SongView { id, title, artist, file_path }).remove(id) == m
        }),
{
    let id = uid_of(title, artist);
    assert(m.insert(id, SongView { id, title, artist, file_path }).remove(id) =~= m);
}

/// An identifier is in the mapping exactly when some entry carries it.
proof fn lemma_map_of_contains(s: Seq<SongView>, uid: u64)
    ensures
        map_of(s).contains_key(uid) <==> exists|i: int| 0 <= i < s.len() && s[i].id == uid,
    decreases s.len(),
{
    if s.len() > 0 {
        lemma_map_of_contains(s.drop_last(), uid);
        if s.last().id == uid {
            assert(s[s.len() - 1].id == uid);
        } else {
            if map_of(s).contains_key(uid) {
                let i = choose|i: int| 0 <= i < s.drop_last().len() && s.drop_last()[i].id == uid;
                assert(s[i].id == uid);
            }
            if exists|i: int| 0 <= i < s.len() && s[i].id == uid {
                let i = choose|i: int| 0 <= i < s.len() && s[i].id == uid;
                assert(s.drop_last()[i].id == uid);
            }
        }
    }
}

/// With distinct identifiers, the mapping sends each entry's identifier to
/// that entry.
proof fn lemma_map_of_index(s: Seq<SongView>, i: int)
    requires
        distinct_ids(s),
        0 <= i < s.len(),
    ensures
        map_of(s).contains_key(s[i].id),
        map_of(s)[s[i].id] == s[i],
    decreases s.len(),
{
    lemma_map_of_contains(s, s[i].id);
    if i < s.len() - 1 {
        assert(distinct_ids(s.drop_last()));
        assert(s.drop_last()[i] == s[i]);
        lemma_map_of_index(s.drop_last(), i);
        assert(s[i].id != s.last().id);
    }
}

/// Appending an entry inserts it into the mapping.
proof fn lemma_map_of_push(s: Seq<SongView>, v: SongView)
    ensures
        map_of(s.push(v)) == map_of(s).insert(v.id, v),
{
    assert(s.push(v).drop_last() =~= s);
    assert(s.push(v).last() == v);
}

/// Overwriting the entry that carries an identifier inserts the new entry
/// into the mapping.
proof fn lemma_map_of_update(s: Seq<SongView>, i: int, v: SongView)
    requires
        distinct_ids(s),
        0 <= i < s.len(),
        v.id == s[i].id,
    ensures
        map_of(s.update(i, v)) == map_of(s).insert(v.id, v),
    decreases s.len(),
{
    let t = s.update(i, v);
    if i == s.len() - 1 {
        assert(t.drop_last() =~= s.drop_last());
        assert(t.last() == v);
        assert(map_of(s).insert(v.id, v) =~= map_of(s.drop_last()).insert(v.id, v));
    } else {
        assert(distinct_ids(s.drop_last()));
        assert(s.drop_last()[i] == s[i]);
        lemma_map_of_update(s.drop_last(), i, v);
        assert(t.drop_last() =~= s.drop_last().update(i, v));
        assert(t.last() == s.last());
        assert(s.last().id != v.id);
        assert(map_of(s.drop_last()).insert(v.id, v).insert(s.last().id, s.last()) =~= map_of(
            s.drop_last(),
        ).insert(s.last().id, s.last()).insert(v.id, v));
    }
}

/// Removing the entry that carries an identifier removes that identifier
/// from the mapping.
proof fn lemma_map_of_remove(s: Seq<SongView>, i: int)
    requires
        distinct_ids(s),
        0 <= i < s.len(),
    ensures
        map_of(s.remove(i)) == map_of(s).remove(s[i].id),
    decreases s.len(),
{
    s.remove_ensures(i);
    let t = s.remove(i);
    if i == s.len() - 1 {
        assert(t =~= s.drop_last());
        lemma_map_of_contains(s.drop_last(), s[i].id);
        assert(forall|k: int|
            0 <= k < s.drop_last().len() ==> s.drop_last()[k] == s[k] && s[k].id != s[i].id);
        assert(map_of(s.drop_last()) =~= map_of(s).remove(s[i].id));
    } else {
        assert(distinct_ids(s.drop_last()));
        assert(s.drop_last()[i] == s[i]);
        lemma_map_of_remove(s.drop_last(), i);
        assert(t.drop_last() =~= s.drop_last().remove(i));
        assert(t.last() == s.last());
        assert(s.last().id != s[i].id);
        assert(map_of(s.drop_last()).remove(s[i].id).insert(s.last().id, s.last()) =~= map_of(
            s.drop_last(),
        ).insert(s.last().id, s.last()).remove(s[i].id));
    }
}

/// The mapping's domain is finite and, with distinct identifiers, exactly as
/// large as the sequence.
proof fn lemma_map_of_len(s: Seq<SongView>)
    requires
        distinct_ids(s),
    ensures
        map_of(s).dom().finite(),
        map_of(s).dom().len() == s.len(),
    decreases s.len(),
{
    if s.len() > 0 {
        assert(distinct_ids(s.drop_last()));
        lemma_map_of_len(s.drop_last());
        lemma_map_of_contains(s.drop_last(), s.last().id);
        assert(forall|k: int|
            0 <= k < s.drop_last().len() ==> s.drop_last()[k] == s[k] && s[k].id != s.last().id);
        assert(!map_of(s.drop_last()).contains_key(s.last().id));
    }
}

/// The in-memory registry of songs, keyed by derived identifier. Its
/// abstract value is a mapping from identifier to entry; the order in which
/// entries are stored or listed is not part of the contract.
pub struct Playlist {
    songs: Vec<Song>,
}

impl View for Playlist {
    type V = Map<u64, SongView>;

    closed spec fn view(&self) -> Map<u64, SongView> {
        map_of(self.entries())
    }
}

impl Playlist {
    /// The stored entries, by position.
    pub closed spec fn entries(&self) -> Seq<SongView> {
        Seq::new(self.songs.len() as nat, |i: int| self.songs[i]@)
    }

    /// Well-formed: identifiers are pairwise distinct and each entry's
    /// identifier agrees with its title and artist.
    pub closed spec fn wf(&self) -> bool {
        &&& distinct_ids(self.entries())
        &&& forall|i: int| 0 <= i < self.entries().len() ==> song_wf(#[trigger] self.entries()[i])
    }

    /// Creates an empty registry.
    pub fn new() -> (p: Playlist)
        ensures
            p.wf(),
            p@ == Map::<u64, SongView>::empty(),
    {
        let p = Playlist { songs: Vec::new() };
        proof {
            assert(p.entries() =~= Seq::<SongView>::empty());
        }
        p
    }

    /// The number of entries currently registered.
    pub fn len(&self) -> (n: usize)
        requires
            self.wf(),
        ensures
            n == self@.dom().len(),
    {
        proof {
            lemma_map_of_len(self.entries());
        }
        self.songs.len()
    }

    /// Every entry of a well-formed registry sits under its own identifier,
    /// which agrees with its title and artist.
    pub proof fn lemma_wf_entries(&self)
        requires
            self.wf(),
        ensures
            self@.dom().finite(),
            forall|uid: u64| self@.contains_key(uid) ==> (#[trigger] self@[uid]).id == uid
                && song_wf(self@[uid]),
    {
        lemma_map_of_len(self.entries());
        assert forall|uid: u64| self@.contains_key(uid) implies (#[trigger] self@[uid]).id == uid
            && song_wf(self@[uid]) by {
            lemma_map_of_contains(self.entries(), uid);
            let i = choose|i: int| 0 <= i < self.entries().len() && self.entries()[i].id == uid;
            lemma_map_of_index(self.entries(), i);
        };
    }

    /// The position of the entry carrying an identifier, if any.
    fn index_of_id(&self, uid: u64) -> (r: Option<usize>)
        ensures
            match r {
                Some(i) => i < self.entries().len() && self.entries()[i as int].id == uid,
                None => forall|k: int| 0 <= k < self.entries().len()
                    ==> (#[trigger] self.entries()[k]).id != uid,
            },
    {
        let n: usize = self.songs.len();
        let mut i: usize = 0;
        while i < n
            invariant
                i <= n,
                n == self.entries().len(),
                forall|k: int| 0 <= k < i ==> (#[trigger] self.entries()[k]).id != uid,
            decreases n - i,
        {
            if self.songs[i].id == uid {
                return Some(i);
            }
            i = i + 1;
        }
        None
    }

    /// Builds a song from the three texts and inserts it, overwriting any
    /// entry already under the same identifier, and returns the identifier.
    pub fn add_song(&mut self, title: &str, artist: &str, file_path: &str) -> (id: u64)
        requires
            old(self).wf(),
        ensures
            final(self).wf(),
            id == uid_of(title@, artist@),
            final(self)@ == old(self)@.insert(
                id,
                SongView { id, title: title@, artist: artist@, file_path: file_path@ },
            ),
    {
        let song = Song::new(title, artist, file_path);
        let ghost v = song@;
        let ghost s0 = self.entries();
        match self.index_of_id(song.id) {
            Some(i) => {
                self.songs.set(i, song);
                proof {
                    assert(self.entries() =~= s0.update(i as int, v));
                    lemma_map_of_update(s0, i as int, v);
                    assert forall|a: int| 0 <= a < self.entries().len() implies song_wf(
                        #[trigger] self.entries()[a],
                    ) by {
                        if a != i {
                            assert(self.entries()[a] == s0[a]);
                        }
                    };
                    assert(distinct_ids(self.entries())) by {
                        assert forall|a: int, b: int|
                            0 <= a < b < self.entries().len() implies self.entries()[a].id
                            != self.entries()[b].id by {
                            assert(s0[a].id == self.entries()[a].id);
                            assert(s0[b].id == self.entries()[b].id);
                        };
                    };
                }
            },
            None => {
                self.songs.push(song);
                proof {
                    assert(self.entries() =~= s0.push(v));
                    lemma_map_of_push(s0, v);
                    assert forall|a: int, b: int|
                        0 <= a < b < self.entries().len() implies self.entries()[a].id
                        != self.entries()[b].id by {
                        if b < s0.len() {
                            assert(s0[a].id != s0[b].id);
                        } else {
                            assert(s0[a].id != uid_of(title@, artist@));
                        }
                    };
                    assert(forall|a: int| 0 <= a < s0.len() ==> self.entries()[a] == s0[a]);
                }
            },
        }
        Song::generate_uid(title, artist)
    }

    /// Deletes the entry under an identifier if one is present; reports
    /// whether a deletion occurred. An absent identifier leaves the registry
    /// unchanged.
    pub fn remove_song(&mut self, uid: u64) -> (found: bool)
        requires
            old(self).wf(),
        ensures
            final(self).wf(),
            found == old(self)@.contains_key(uid),
            final(self)@ == old(self)@.remove(uid),
            !found ==> final(self)@ == old(self)@,
    {
        let ghost s0 = self.entries();
        proof {
            lemma_map_of_contains(s0, uid);
        }
        match self.index_of_id(uid) {
            Some(i) => {
                self.songs.remove(i);
                proof {
                    s0.remove_ensures(i as int);
                    assert(self.entries() =~= s0.remove(i as int));
                    lemma_map_of_remove(s0, i as int);
                    assert forall|a: int, b: int|
                        0 <= a < b < self.entries().len() implies self.entries()[a].id
                        != self.entries()[b].id by {
                        let ra = if a < i { a } else { a + 1 };
                        let rb = if b < i { b } else { b + 1 };
                        assert(self.entries()[a] == s0[ra]);
                        assert(self.entries()[b] == s0[rb]);
                    };
                    assert forall|a: int| 0 <= a < self.entries().len() implies song_wf(
                        #[trigger] self.entries()[a],
                    ) by {
                        let ra = if a < i { a } else { a + 1 };
                        assert(self.entries()[a] == s0[ra]);
                    };
                }
                true
            },
            None => {
                proof {
                    assert(self@ =~= self@.remove(uid));
                }
                false
            },
        }
    }

    /// The entry under an identifier, if one is present.
    pub fn lookup(&self, uid: u64) -> (r: Option<&Song>)
        requires
            self.wf(),
        ensures
            match r {
                Some(s) => self@.contains_key(uid) && s@ == self@[uid],
                None => !self@.contains_key(uid),
            },
    {
        proof {
            lemma_map_of_contains(self.entries(), uid);
        }
        match self.index_of_id(uid) {
            Some(i) => {
                proof {
                    lemma_map_of_index(self.entries(), i as int);
                }
                Some(&self.songs[i])
            },
            None => None,
        }
    }

    /// The data needed to play the entry under an identifier: a copy of the
    /// entry if one is present, and nothing otherwise.
    pub fn play_song(&self, uid: u64) -> (r: Option<Song>)
        requires
            self.wf(),
        ensures
            match r {
                Some(s) => self@.contains_key(uid) && s@ == self@[uid],
                None => !self@.contains_key(uid),
            },
    {
        match self.lookup(uid) {
            Some(song) => Some(song.duplicate()),
            None => None,
        }
    }

    /// Collects the entries that match the search: with a keyword, those in
    /// whose title or artist the keyword occurs; without one, every entry.
    /// Each matching entry appears exactly once; the order is unspecified.
    #[verifier::rlimit(50)]
    pub fn search_song(&self, keywords: Option<String>) -> (results: Vec<Song>)
        requires
            self.wf(),
        ensures
            search_post(self@, results@, kw_view(keywords)),
    {
        let ghost kw = kw_view(keywords);
        let n: usize = self.songs.len();
        let mut results: Vec<Song> = Vec::new();
        let mut i: usize = 0;
        while i < n
            invariant
                self.wf(),
                kw == kw_view(keywords),
                i <= n,
                n == self.entries().len(),
                forall|j: int| 0 <= j < results.len() ==> exists|k: int|
                    0 <= k < i && (#[trigger] results[j])@ == self.entries()[k],
                forall|j: int| 0 <= j < results.len()
                    ==> kw_matches((#[trigger] results[j])@, kw),
                forall|k: int|
                    0 <= k < i && kw_matches(#[trigger] self.entries()[k], kw)
                        ==> exists|j: int|
                        0 <= j < results.len() && (#[trigger] results[j])@.id
                            == self.entries()[k].id,
                forall|j1: int, j2: int| 0 <= j1 < j2 < results.len()
                    ==> (#[trigger] results[j1])@.id != (#[trigger] results[j2])@.id,
            decreases n - i,
        {
            let matched: bool = match &keywords {
                Some(k) => {
                    let in_title = contains_keyword(self.songs[i].title.as_str(), k.as_str());
                    let in_artist = contains_keyword(self.songs[i].artist.as_str(), k.as_str());
                    proof {
                        assert(k@ == keywords->0@);
                        assert(kw == Some(keywords->0@));
                        assert(self.entries()[i as int].title == self.songs[i as int].title@);
                        assert(self.entries()[i as int].artist == self.songs[i as int].artist@);
                    }
                    in_title || in_artist
                },
                None => true,
            };
            proof {
                assert(matched == kw_matches(self.entries()[i as int], kw));
            }
            if matched {
                let ghost r0 = results@;
                proof {
                    assert forall|j: int| 0 <= j < r0.len() implies r0[j]@.id
                        != self.entries()[i as int].id by {
                        let k = choose|k: int| 0 <= k < i && (#[trigger] r0[j])@
                            == self.entries()[k];
                        assert(self.entries()[k].id != self.entries()[i as int].id);
                    };
                }
                results.push(self.songs[i].duplicate());
                proof {
                    assert(forall|j: int| 0 <= j < r0.len() ==> results[j] == r0[j]);
                    assert(results[r0.len() as int]@ == self.entries()[i as int]);
                    assert forall|j: int| 0 <= j < results.len() implies exists|k: int|
                        0 <= k < i + 1 && (#[trigger] results[j])@ == self.entries()[k] by {
                        if j < r0.len() {
                            let k = choose|k: int| 0 <= k < i && (#[trigger] r0[j])@
                                == self.entries()[k];
                            assert(0 <= k < i + 1 && results[j]@ == self.entries()[k]);
                        } else {
                            assert(0 <= i < i + 1 && results[j]@ == self.entries()[i as int]);
                        }
                    };
                    assert forall|k: int|
                        0 <= k < i + 1 && kw_matches(#[trigger] self.entries()[k], kw)
                            implies exists|j: int|
                        0 <= j < results.len() && (#[trigger] results[j])@.id
                            == self.entries()[k].id by {
                        if k < i {
                            let j = choose|j: int|
                                0 <= j < r0.len() && (#[trigger] r0[j])@.id == self.entries()[k].id;
                            assert(results[j]@.id == self.entries()[k].id);
                        } else {
                            let j = r0.len() as int;
                            assert(results[j]@.id == self.entries()[k].id);
                        }
                    };
                }
            } else {
                proof {
                    let ghost r0 = results@;
                    assert forall|j: int| 0 <= j < results.len() implies exists|k: int|
                        0 <= k < i + 1 && (#[trigger] results[j])@ == self.entries()[k] by {
                        let k = choose|k: int| 0 <= k < i && (#[trigger] r0[j])@
                            == self.entries()[k];
                        assert(0 <= k < i + 1 && results[j]@ == self.entries()[k]);
                    };
                }
            }
            i = i + 1;
        }
        proof {
            assert forall|j: int| 0 <= j < results.len() implies {
                &&& self@.contains_key((#[trigger] results[j])@.id)
                &&& self@[results[j]@.id] == results[j]@
            } by {
                let k = choose|k: int| 0 <= k < n && results[j]@ == self.entries()[k];
                lemma_map_of_index(self.entries(), k);
            };
            assert forall|uid: u64|
                self@.contains_key(uid) && kw_matches(#[trigger] self@[uid], kw)
                    implies exists|j: int|
                0 <= j < results.len() && (#[trigger] results[j])@.id == uid by {
                lemma_map_of_contains(self.entries(), uid);
                let k = choose|k: int| 0 <= k < self.entries().len() && self.entries()[k].id == uid;
                lemma_map_of_index(self.entries(), k);
                assert(kw_matches(self.entries()[k], kw));
            };
        }
        results
    }
}

} // verus!
