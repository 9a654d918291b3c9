use vstd::prelude::*;
use vstd::string::StrSliceExecFns;
use crate::playlist::{kw_view, search_post, Playlist};
use crate::song::{Song, SongView, uid_of};
use crate::text::{chars_of, digits_val, is_digits, parse_u64, push_str, str_eq};

verus! {

/// The separators that split a command line into tokens: ASCII whitespace.
pub open spec fn is_space(c: char) -> bool {
    c == ' ' || c == '\t' || c == '\n' || c == '\r'
}

/// Whether a character is a token separator.
pub fn is_space_char(c: char) -> (r: bool)
    ensures
        r == is_space(c),
{
    c == ' ' || c == '\t' || c == '\n' || c == '\r'
}

/// The length of the token that starts the sequence: the longest prefix
/// free of separators.
pub open spec fn token_len(s: Seq<char>) -> nat
    decreases s.len(),
{
    if s.len() == 0 || is_space(s[0]) {
        0
    } else {
        (token_len(s.drop_first()) + 1) as nat
    }
}

/// The tokens of a line: the maximal separator-free runs, in order.
pub open spec fn tokens_of(s: Seq<char>) -> Seq<Seq<char>>
    decreases s.len(),
        via tokens_of_decreases
{
    if s.len() == 0 {
        Seq::empty()
    } else if is_space(s[0]) {
        tokens_of(s.drop_first())
    } else {
        seq![s.take(token_len(s) as int)] + tokens_of(s.skip(token_len(s) as int))
    }
}

/// A token never runs past the end of the sequence.
proof fn lemma_token_len_le(s: Seq<char>)
    ensures
        token_len(s) <= s.len(),
    decreases s.len(),
{
    if s.len() > 0 && !is_space(s[0]) {
        lemma_token_len_le(s.drop_first());
    }
}

#[via_fn]
proof fn tokens_of_decreases(s: Seq<char>) {
    if s.len() > 0 && !is_space(s[0]) {
        assert(token_len(s) == (token_len(s.drop_first()) + 1) as nat);
        lemma_token_len_le(s);
    }
}

/// The characters of each string of a sequence.
pub open spec fn texts_of(v: Seq<String>) -> Seq<Seq<char>> {
    Seq::new(v.len(), |i: int| v[i]@)
}

/// Tokens joined with single spaces.
pub open spec fn joined(ts: Seq<Seq<char>>) -> Seq<char>
    decreases ts.len(),
{
    if ts.len() == 0 {
        Seq::empty()
    } else if ts.len() == 1 {
        ts[0]
    } else {
        joined(ts.drop_last()) + seq![' '] + ts.last()
    }
}

/// Skipping a leading separator leaves the tokens unchanged.
proof fn lemma_tokens_space(s: Seq<char>, i: int)
    requires
        0 <= i < s.len(),
        is_space(s[i]),
    ensures
        tokens_of(s.skip(i)) == tokens_of(s.skip(i + 1)),
{
    assert(s.skip(i)[0] == s[i]);
    assert(s.skip(i).drop_first() =~= s.skip(i + 1));
}

/// A separator-free run up to a separator (or the end) is the first token
/// of the suffix that starts it.
proof fn lemma_token_len_run(s: Seq<char>, start: int, end: int)
    requires
        0 <= start <= end <= s.len(),
        forall|k: int| start <= k < end ==> !is_space(#[trigger] s[k]),
        end == s.len() || is_space(s[end]),
    ensures
        token_len(s.skip(start)) == end - start,
    decreases end - start,
{
    if start < end {
        assert(s.skip(start)[0] == s[start]);
        lemma_token_len_run(s, start + 1, end);
        assert(s.skip(start).drop_first() =~= s.skip(start + 1));
    } else {
        if end < s.len() {
            assert(s.skip(end)[0] == s[end]);
        }
    }
}

/// Reading one maximal separator-free run emits exactly one token.
proof fn lemma_tokens_run(s: Seq<char>, start: int, end: int)
    requires
        0 <= start < end <= s.len(),
        forall|k: int| start <= k < end ==> !is_space(#[trigger] s[k]),
        end == s.len() || is_space(s[end]),
    ensures
        tokens_of(s.skip(start)) == seq![s.subrange(start, end)] + tokens_of(s.skip(end)),
{
    lemma_token_len_run(s, start, end);
    let t = s.skip(start);
    assert(t[0] == s[start]);
    assert(t.take(end - start) =~= s.subrange(start, end));
    assert(t.skip(end - start) =~= s.skip(end));
}

/// Splits a line into its whitespace-separated tokens.
pub fn tokenize(line: &str) -> (tokens: Vec<String>)
    ensures
        texts_of(tokens@) == tokens_of(line@),
{
    let cs: Vec<char> = chars_of(line);
    let n: usize = cs.len();
    let mut tokens: Vec<String> = Vec::new();
    proof {
        assert(line@.skip(0) =~= line@);
        assert(texts_of(tokens@) + tokens_of(line@) =~= tokens_of(line@));
    }
    let mut i: usize = 0;
    while i < n
        invariant
            cs@ == line@,
            n == line@.len(),
            i <= n,
            texts_of(tokens@) + tokens_of(line@.skip(i as int)) == tokens_of(line@),
        decreases n - i,
    {
        if is_space_char(cs[i]) {
            proof {
                lemma_tokens_space(line@, i as int);
            }
            i = i + 1;
        } else {
            let start: usize = i;
            while i < n && !is_space_char(cs[i])
                invariant
                    cs@ == line@,
                    n == line@.len(),
                    start <= i <= n,
                    forall|k: int| start <= k < i ==> !is_space(#[trigger] line@[k]),
                decreases n - i,
            {
                i = i + 1;
            }
            let tok: String = line.substring_char(start, i).to_owned();
            let ghost t0 = tokens@;
            tokens.push(tok);
            proof {
                lemma_tokens_run(line@, start as int, i as int);
                assert(texts_of(tokens@) =~= texts_of(t0).push(
                    line@.subrange(start as int, i as int),
                ));
                assert(texts_of(tokens@) + tokens_of(line@.skip(i as int)) =~= texts_of(t0)
                    + tokens_of(line@.skip(start as int)));
            }
        }
    }
    proof {
        assert(line@.skip(n as int) =~= Seq::<char>::empty());
        assert(texts_of(tokens@) + tokens_of(line@.skip(n as int)) =~= texts_of(tokens@));
    }
    tokens
}

/// Joins the tokens from position `from` on with single spaces.
pub fn join_spaced(tokens: &Vec<String>, from: usize) -> (r: String)
    requires
        from < tokens.len(),
    ensures
        r@ == joined(texts_of(tokens@).skip(from as int)),
{
    let mut r: String = tokens[from].clone();
    proof {
        assert(texts_of(tokens@).subrange(from as int, from + 1).len() == 1);
        assert(texts_of(tokens@).subrange(from as int, from + 1)[0] == tokens[from as int]@);
    }
    let mut k: usize = from + 1;
    while k < tokens.len()
        invariant
            from < k <= tokens.len(),
            r@ == joined(texts_of(tokens@).subrange(from as int, k as int)),
        decreases tokens.len() - k,
    {
        push_str(&mut r, " ");
        push_str(&mut r, tokens[k].as_str());
        proof {
            reveal_strlit(" ");
            assert(" "@ =~= seq![' ']);
            let sub1 = texts_of(tokens@).subrange(from as int, k as int);
            let sub2 = texts_of(tokens@).subrange(from as int, k + 1);
            assert(sub2.drop_last() =~= sub1);
            assert(sub2.last() == tokens[k as int]@);
            assert(sub2.len() >= 2);
        }
        k = k + 1;
    }
    proof {
        assert(texts_of(tokens@).subrange(from as int, tokens.len() as int) =~= texts_of(
            tokens@,
        ).skip(from as int));
    }
    r
}

/// What one command line produced: the report the caller shows, and for a
/// hit on `play` the entry to hand to the playback collaborator.
pub enum Response {
    /// The line held no token.
    NoCommand,
    /// The entries a `search` produced, with the keyword it used, if any.
    Results { keyword: Option<String>, songs: Vec<Song> },
    /// An `add` stored this entry.
    Added { id: u64, title: String, artist: String },
    /// A `remove` deleted the entry under this identifier.
    Removed { id: u64 },
    /// A `remove` or `play` named an identifier with no entry.
    NotFound { id: u64 },
    /// A `play` found its entry: the caller is to play this copy.
    Play { song: Song },
    /// An `add` lacked arguments.
    UsageAdd,
    /// A `remove` lacked its argument.
    UsageRemove,
    /// A `play` lacked its argument.
    UsagePlay,
    /// A `remove` or `play` argument was not an unsigned decimal number in
    /// range.
    InvalidId { arg: String },
    /// The first token named no command.
    Unknown { word: String },
}

/// How a command line acts on registry contents `m0`, leaving `m1` and
/// reporting `r`: the full case analysis of the interpreter, one case per
/// command shape.
pub open spec fn dispatch_post(
    line: Seq<char>,
    m0: Map<u64, SongView>,
    m1: Map<u64, SongView>,
    r: Response,
) -> bool {
    let ts = tokens_of(line);
    if ts.len() == 0 {
        &&& r is NoCommand
        &&& m1 == m0
    } else if ts[0] == "search"@ {
        let kw = if ts.len() == 1 {
            None
        } else {
            Some(joined(ts.skip(1)))
        };
        &&& m1 == m0
        &&& (r matches Response::Results { keyword, songs } && kw_view(keyword) == kw
            && search_post(m0, songs@, kw))
    } else if ts[0] == "add"@ {
        if ts.len() < 4 {
            &&& r is UsageAdd
            &&& m1 == m0
        } else {
            let id = uid_of(ts[1], ts[2]);
            &&& m1 == m0.insert(
                id,
                SongView { id, title: ts[1], artist: ts[2], file_path: ts[3] },
            )
            &&& (r matches Response::Added { id: rid, title, artist } && rid == id && title@
                == ts[1] && artist@ == ts[2])
        }
    } else if ts[0] == "remove"@ {
        if ts.len() < 2 {
            &&& r is UsageRemove
            &&& m1 == m0
        } else if !(is_digits(ts[1]) && digits_val(ts[1]) <= u64::MAX) {
            &&& (r matches Response::InvalidId { arg } && arg@ == ts[1])
            &&& m1 == m0
        } else {
            let id = digits_val(ts[1]) as u64;
            &&& m1 == m0.remove(id)
            &&& if m0.contains_key(id) {
                r matches Response::Removed { id: rid } && rid == id
            } else {
                &&& (r matches Response::NotFound { id: rid } && rid == id)
                &&& m1 == m0
            }
        }
    } else if ts[0] == "play"@ {
        &&& m1 == m0
        &&& if ts.len() < 2 {
            r is UsagePlay
        } else if !(is_digits(ts[1]) && digits_val(ts[1]) <= u64::MAX) {
            r matches Response::InvalidId { arg } && arg@ == ts[1]
        } else {
            let id = digits_val(ts[1]) as u64;
            if m0.contains_key(id) {
                r matches Response::Play { song } && song@ == m0[id]
            } else {
                r matches Response::NotFound { id: rid } && rid == id
            }
        }
    } else {
        &&& (r matches Response::Unknown { word } && word@ == ts[0])
        &&& m1 == m0
    }
}

/// Parses one line and performs its command on the registry, reporting the
/// outcome. Each line is handled on its own; no line changes how a later
/// one is read.
pub fn handle_command(line: &str, playlist: &mut Playlist) -> (r: Response)
    requires
        old(playlist).wf(),
    ensures
        final(playlist).wf(),
        dispatch_post(line@, old(playlist)@, final(playlist)@, r),
{
    let tokens: Vec<String> = tokenize(line);
    let ghost ts = tokens_of(line@);
    proof {
        assert(forall|k: int| 0 <= k < tokens@.len() ==> ts[k] == (#[trigger] tokens@[k])@);
    }
    if tokens.len() == 0 {
        return Response::NoCommand;
    }
    if str_eq(tokens[0].as_str(), "search") {
        let keywords: Option<String> = if tokens.len() > 1 {
            Some(join_spaced(&tokens, 1))
        } else {
            None
        };
        proof {
            if tokens@.len() > 1 {
                assert(texts_of(tokens@).skip(1) =~= ts.skip(1));
            }
        }
        let keyword: Option<String> = match &keywords {
            Some(k) => Some(k.clone()),
            None => None,
        };
        let songs = playlist.search_song(keywords);
        Response::Results { keyword, songs }
    } else if str_eq(tokens[0].as_str(), "add") {
        if tokens.len() < 4 {
            Response::UsageAdd
        } else {
            let id = playlist.add_song(
                tokens[1].as_str(),
                tokens[2].as_str(),
                tokens[3].as_str(),
            );
            Response::Added { id, title: tokens[1].clone(), artist: tokens[2].clone() }
        }
    } else if str_eq(tokens[0].as_str(), "remove") {
        if tokens.len() < 2 {
            Response::UsageRemove
        } else {
            match parse_u64(tokens[1].as_str()) {
                Some(id) => {
                    if playlist.remove_song(id) {
                        Response::Removed { id }
                    } else {
                        Response::NotFound { id }
                    }
                },
                None => Response::InvalidId { arg: tokens[1].clone() },
            }
        }
    } else if str_eq(tokens[0].as_str(), "play") {
        if tokens.len() < 2 {
            Response::UsagePlay
        } else {
            match parse_u64(tokens[1].as_str()) {
                Some(id) => {
                    match playlist.play_song(id) {
                        Some(song) => Response::Play { song },
                        None => Response::NotFound { id },
                    }
                },
                None => Response::InvalidId { arg: tokens[1].clone() },
            }
        }
    } else {
        Response::Unknown { word: tokens[0].clone() }
    }
}

} // verus!
