//! Lossless dictionary compression of event tracks.
//!
//! A song is a list of tracks, each a sequence of events. `crunch` looks for
//! runs of events that repeat, stores each such run once as a pattern, and
//! rewrites every track as a list of pattern numbers. `uncrunch` expands the
//! numbers again.
//!
//! While it works, a track is a list of pieces: chunks of events that no
//! pattern covers yet, and uses of patterns. One step looks at every run of
//! events inside every chunk, counts the places at which the run stands in
//! any chunk without reaching into an earlier place of its own, and works
//! out what would be saved if these places were uses of one pattern. The
//! run that saves most becomes a pattern; of runs that save as much, the
//! one that comes first by track, piece, offset and length. Every chunk is
//! then cut at the places of the run, and chunks without events are
//! dropped. The pieces of a track stay in the order of the track, so that
//! the pattern numbers of a track can be read off in the order of their
//! offsets. When no run is worth a pattern, or the patterns with two for
//! every chunk reach the limit, every chunk that is left becomes a pattern
//! of its own.

use vstd::prelude::*;
use vstd::laws_eq::obeys_concrete_eq;

verus! {

/// The rows of a vector of vectors, as sequences.
pub open spec fn rows<T>(v: Seq<Vec<T>>) -> Seq<Seq<T>> {
    Seq::new(v.len(), |i: int| v[i]@)
}

/// `clone` on `T` hands back a value equal to the one it was called on.
pub open spec fn clones_are_equal<T: Clone>() -> bool {
    forall|a: T, b: T| #[trigger] cloned(a, b) ==> a == b
}

/// The events that a list of pattern numbers stands for: the patterns it
/// names, one after the other.
pub open spec fn expand<T>(dict: Seq<Seq<T>>, indices: Seq<usize>) -> Seq<T>
    decreases indices.len(),
{
    if indices.len() == 0 {
        Seq::empty()
    } else {
        expand(dict, indices.drop_last()) + dict[indices.last() as int]
    }
}

/// Every track of `tracks` expanded over `dict`.
pub open spec fn unfold<T>(dict: Seq<Seq<T>>, tracks: Seq<Seq<usize>>) -> Seq<Seq<T>> {
    Seq::new(tracks.len(), |t: int| expand(dict, tracks[t]))
}

/// Every pattern number in `tracks` names a pattern of a dictionary of
/// `dict_len` patterns.
pub open spec fn indices_in_range(tracks: Seq<Seq<usize>>, dict_len: int) -> bool {
    forall|t: int, j: int|
        0 <= t < tracks.len() && 0 <= j < tracks[t].len() ==> (#[trigger] tracks[t][j]) < dict_len
}

/// Expands every track of `tracks` into the events it stands for.
pub fn uncrunch<T: Clone>(dict: &[Vec<T>], tracks: &[Vec<usize>]) -> (out: Vec<Vec<T>>)
    requires
        clones_are_equal::<T>(),
        indices_in_range(rows(tracks@), dict@.len() as int),
    ensures
        rows(out@) == unfold(rows(dict@), rows(tracks@)),
{
    let mut out: Vec<Vec<T>> = Vec::new();
    let mut t: usize = 0;
    while t < tracks.len()
        invariant
            clones_are_equal::<T>(),
            indices_in_range(rows(tracks@), dict@.len() as int),
            t <= tracks@.len(),
            out@.len() == t,
            forall|i: int| 0 <= i < t ==> (#[trigger] out@[i])@ == expand(rows(dict@), tracks@[i]@),
        decreases tracks@.len() - t,
    {
        let track = &tracks[t];
        let mut row: Vec<T> = Vec::new();
        let mut j: usize = 0;
        while j < track.len()
            invariant
                clones_are_equal::<T>(),
                indices_in_range(rows(tracks@), dict@.len() as int),
                t < tracks@.len(),
                *track == tracks@[t as int],
                j <= track@.len(),
                row@ == expand(rows(dict@), track@.take(j as int)),
            decreases track@.len() - j,
        {
            assert(rows(tracks@)[t as int][j as int] < dict@.len());
            let pat = &dict[track[j]];
            let ghost before = row@;
            let mut e: usize = 0;
            while e < pat.len()
                invariant
                    clones_are_equal::<T>(),
                    e <= pat@.len(),
                    row@ == before + pat@.take(e as int),
                decreases pat@.len() - e,
            {
                let item = pat[e].clone();
                assert(cloned(pat@[e as int], item));
                row.push(item);
                assert(pat@.take(e + 1) == pat@.take(e as int).push(pat@[e as int]));
                e += 1;
            }
            proof {
                assert(pat@.take(pat@.len() as int) == pat@);
                assert(track@.take(j + 1).drop_last() == track@.take(j as int));
                assert(rows(dict@)[track@[j as int] as int] == pat@);
            }
            j += 1;
        }
        proof {
            assert(track@.take(track@.len() as int) == track@);
        }
        out.push(row);
        t += 1;
    }
    proof {
        assert(rows(out@) =~= unfold(rows(dict@), rows(tracks@)));
    }
    out
}


/// One stretch of a track while it is being compressed, as a value of
/// specifications: a chunk of events that no pattern covers yet, or the use
/// of a pattern of the dictionary.
pub enum Piece<T> {
    Chunk(Seq<T>),
    Pattern(usize),
}

/// One stretch of a track while it is being compressed.
pub enum Span<T> {
    Chunk(Vec<T>),
    Pattern(usize),
}

impl<T> View for Span<T> {
    type V = Piece<T>;

    open spec fn view(&self) -> Piece<T> {
        match self {
            Span::Chunk(items) => Piece::Chunk(items@),
            Span::Pattern(index) => Piece::Pattern(*index),
        }
    }
}

/// The pieces that a vector of spans stands for.
pub open spec fn pieces<T>(v: Seq<Span<T>>) -> Seq<Piece<T>> {
    Seq::new(v.len(), |k: int| v[k]@)
}

/// The pieces of every track.
pub open spec fn layout<T>(v: Seq<Vec<Span<T>>>) -> Seq<Seq<Piece<T>>> {
    Seq::new(v.len(), |t: int| pieces(v[t]@))
}

/// `pat` stands in `items` at offset `s`.
pub open spec fn occurs_at<T>(items: Seq<T>, pat: Seq<T>, s: int) -> bool {
    0 <= s && s + pat.len() <= items.len() && items.subrange(s, s + pat.len()) == pat
}

/// `pat` stands in `items` at offset `s`, and no occurrence that starts
/// earlier reaches into it. Of two occurrences that overlap, the one that
/// starts later is dropped.
pub open spec fn survives_at<T>(items: Seq<T>, pat: Seq<T>, s: int) -> bool {
    occurs_at(items, pat, s) && forall|r: int|
        s - pat.len() < r < s ==> !#[trigger] occurs_at(items, pat, r)
}

/// How many occurrences of `pat` survive in `items` at offsets below `n`.
pub open spec fn survivors_upto<T>(items: Seq<T>, pat: Seq<T>, n: int) -> nat
    decreases n,
{
    if n <= 0 {
        0
    } else {
        survivors_upto(items, pat, n - 1) + if survives_at(items, pat, n - 1) {
            1nat
        } else {
            0nat
        }
    }
}

/// How many occurrences of `pat` survive in one piece.
pub open spec fn piece_survivors<T>(p: Piece<T>, pat: Seq<T>) -> nat {
    match p {
        Piece::Chunk(items) => survivors_upto(items, pat, items.len() as int),
        Piece::Pattern(_) => 0,
    }
}

/// How many occurrences of `pat` survive in the chunks of one track.
pub open spec fn track_survivors<T>(ps: Seq<Piece<T>>, pat: Seq<T>) -> nat
    decreases ps.len(),
{
    if ps.len() == 0 {
        0
    } else {
        track_survivors(ps.drop_last(), pat) + piece_survivors(ps.last(), pat)
    }
}

/// How many occurrences of `pat` survive in the chunks of all tracks.
pub open spec fn total_survivors<T>(tracks: Seq<Seq<Piece<T>>>, pat: Seq<T>) -> nat
    decreases tracks.len(),
{
    if tracks.len() == 0 {
        0
    } else {
        total_survivors(tracks.drop_last(), pat) + track_survivors(tracks.last(), pat)
    }
}

/// The number of events in a piece that no pattern covers yet.
pub open spec fn piece_len<T>(p: Piece<T>) -> nat {
    match p {
        Piece::Chunk(items) => items.len(),
        Piece::Pattern(_) => 0,
    }
}

/// The number of events in the chunks of one track.
pub open spec fn track_len<T>(ps: Seq<Piece<T>>) -> nat
    decreases ps.len(),
{
    if ps.len() == 0 {
        0
    } else {
        track_len(ps.drop_last()) + piece_len(ps.last())
    }
}

/// The number of events in the chunks of all tracks.
pub open spec fn total_len<T>(tracks: Seq<Seq<Piece<T>>>) -> nat
    decreases tracks.len(),
{
    if tracks.len() == 0 {
        0
    } else {
        total_len(tracks.drop_last()) + track_len(tracks.last())
    }
}

proof fn lemma_track_len_take<T>(ps: Seq<Piece<T>>, i: int)
    requires
        0 <= i <= ps.len(),
    ensures
        track_len(ps.take(i)) <= track_len(ps),
    decreases ps.len() - i,
{
    if i < ps.len() {
        lemma_track_len_take(ps, i + 1);
        assert(ps.take(i + 1).drop_last() == ps.take(i));
    } else {
        assert(ps.take(i) == ps);
    }
}

proof fn lemma_total_len_take<T>(tracks: Seq<Seq<Piece<T>>>, i: int)
    requires
        0 <= i <= tracks.len(),
    ensures
        total_len(tracks.take(i)) <= total_len(tracks),
    decreases tracks.len() - i,
{
    if i < tracks.len() {
        lemma_total_len_take(tracks, i + 1);
        assert(tracks.take(i + 1).drop_last() == tracks.take(i));
    } else {
        assert(tracks.take(i) == tracks);
    }
}

/// Tells whether the `len` events of `source` from `start` on stand in
/// `items` at offset `s`.
fn occurs<T: PartialEq>(items: &Vec<T>, s: usize, source: &Vec<T>, start: usize, len: usize) -> (r:
    bool)
    requires
        obeys_concrete_eq::<T>(),
        start + len <= source@.len(),
    ensures
        r == occurs_at(items@, source@.subrange(start as int, start + len), s as int),
{
    if len > items.len() || s > items.len() - len {
        return false;
    }
    let ghost pat = source@.subrange(start as int, start + len);
    let ghost window = items@.subrange(s as int, s + len);
    let items_len = items.len();
    let source_len = source.len();
    let mut i: usize = 0;
    while i < len
        invariant
            obeys_concrete_eq::<T>(),
            items_len == items@.len(),
            source_len == source@.len(),
            start + len <= source@.len(),
            s + len <= items@.len(),
            pat == source@.subrange(start as int, start + len),
            window == items@.subrange(s as int, s + len),
            i <= len,
            forall|j: int| 0 <= j < i ==> window[j] == pat[j],
        decreases len - i,
    {
        proof {
            reveal(obeys_concrete_eq);
            assert(window[i as int] == items@[s + i]);
            assert(pat[i as int] == source@[start + i]);
        }
        if !(items[s + i] == source[start + i]) {
            return false;
        }
        i += 1;
    }
    proof {
        assert(window =~= pat);
    }
    true
}

/// How many times `pat` stands in `items` at offsets below `n`.
pub open spec fn matches_upto<T>(items: Seq<T>, pat: Seq<T>, n: int) -> nat
    decreases n,
{
    if n <= 0 {
        0
    } else {
        matches_upto(items, pat, n - 1) + if occurs_at(items, pat, n - 1) {
            1nat
        } else {
            0nat
        }
    }
}

/// How many times `pat` stands in one piece.
pub open spec fn piece_matches<T>(p: Piece<T>, pat: Seq<T>) -> nat {
    match p {
        Piece::Chunk(items) => matches_upto(items, pat, items.len() as int),
        Piece::Pattern(_) => 0,
    }
}

/// How many times `pat` stands in the chunks of one track.
pub open spec fn track_matches<T>(ps: Seq<Piece<T>>, pat: Seq<T>) -> nat
    decreases ps.len(),
{
    if ps.len() == 0 {
        0
    } else {
        track_matches(ps.drop_last(), pat) + piece_matches(ps.last(), pat)
    }
}

/// How many times `pat` stands in the chunks of all tracks.
pub open spec fn total_matches<T>(tracks: Seq<Seq<Piece<T>>>, pat: Seq<T>) -> nat
    decreases tracks.len(),
{
    if tracks.len() == 0 {
        0
    } else {
        total_matches(tracks.drop_last(), pat) + track_matches(tracks.last(), pat)
    }
}

/// A count that stops at 2.
pub open spec fn up_to_two(n: nat) -> nat {
    if n >= 2 {
        2
    } else {
        n
    }
}

/// A run survives no more often than its beginning stands.
proof fn lemma_survivors_of_longer<T>(items: Seq<T>, short: Seq<T>, long: Seq<T>, n: int)
    requires
        short.len() <= long.len(),
        long.take(short.len() as int) == short,
    ensures
        survivors_upto(items, long, n) <= matches_upto(items, short, n),
    decreases n,
{
    if n > 0 {
        lemma_survivors_of_longer(items, short, long, n - 1);
        let s = n - 1;
        if occurs_at(items, long, s) {
            assert(items.subrange(s, s + short.len()) =~= items.subrange(s, s + long.len()).take(
                short.len() as int,
            ));
        }
    }
}

proof fn lemma_track_survivors_of_longer<T>(ps: Seq<Piece<T>>, short: Seq<T>, long: Seq<T>)
    requires
        short.len() <= long.len(),
        long.take(short.len() as int) == short,
    ensures
        track_survivors(ps, long) <= track_matches(ps, short),
    decreases ps.len(),
{
    if ps.len() > 0 {
        lemma_track_survivors_of_longer(ps.drop_last(), short, long);
        match ps.last() {
            Piece::Chunk(items) => {
                lemma_survivors_of_longer(items, short, long, items.len() as int);
            },
            Piece::Pattern(_) => {},
        }
    }
}

proof fn lemma_total_survivors_of_longer<T>(
    tracks: Seq<Seq<Piece<T>>>,
    short: Seq<T>,
    long: Seq<T>,
)
    requires
        short.len() <= long.len(),
        long.take(short.len() as int) == short,
    ensures
        total_survivors(tracks, long) <= total_matches(tracks, short),
    decreases tracks.len(),
{
    if tracks.len() > 0 {
        lemma_total_survivors_of_longer(tracks.drop_last(), short, long);
        lemma_track_survivors_of_longer(tracks.last(), short, long);
    }
}

/// Counts the occurrences of a run of events that survive in one chunk,
/// and up to two of all its occurrences. The run is the `len` events of
/// `source` from `start` on.
fn chunk_survivors<T: PartialEq>(items: &Vec<T>, source: &Vec<T>, start: usize, len: usize) -> (r:
    (usize, usize))
    requires
        obeys_concrete_eq::<T>(),
        1 <= len,
        start + len <= source@.len(),
    ensures
        r.0 == survivors_upto(
            items@,
            source@.subrange(start as int, start + len),
            items@.len() as int,
        ),
        r.0 <= items@.len(),
        r.1 == up_to_two(
            matches_upto(items@, source@.subrange(start as int, start + len), items@.len() as int),
        ),
{
    let ghost pat = source@.subrange(start as int, start + len);
    let mut n: usize = 0;
    let mut seen: usize = 0;
    // the end of the last occurrence seen
    let mut free: usize = 0;
    let mut s: usize = 0;
    while s < items.len()
        invariant
            obeys_concrete_eq::<T>(),
            1 <= len,
            start + len <= source@.len(),
            pat == source@.subrange(start as int, start + len),
            s <= items@.len(),
            n == survivors_upto(items@, pat, s as int),
            n <= s,
            seen == up_to_two(matches_upto(items@, pat, s as int)),
            free <= items@.len(),
            forall|r: int| 0 <= r < s && #[trigger] occurs_at(items@, pat, r) ==> r + len <= free,
            free == 0 || (occurs_at(items@, pat, free - len) && free - len < s),
        decreases items@.len() - s,
    {
        if occurs(items, s, source, start, len) {
            if free <= s {
                assert(survives_at(items@, pat, s as int));
                n += 1;
            } else {
                assert(!survives_at(items@, pat, s as int));
            }
            if seen < 2 {
                seen += 1;
            }
            free = s + len;
        } else {
            assert(!survives_at(items@, pat, s as int));
        }
        s += 1;
    }
    (n, seen)
}

/// Counts the occurrences of a run of events that survive in the chunks of
/// all tracks, and up to two of all its occurrences.
fn count_survivors<T: PartialEq>(
    tracks: &Vec<Vec<Span<T>>>,
    source: &Vec<T>,
    start: usize,
    len: usize,
) -> (r: (usize, usize))
    requires
        obeys_concrete_eq::<T>(),
        total_len(layout(tracks@)) <= usize::MAX,
        1 <= len,
        start + len <= source@.len(),
    ensures
        r.0 == total_survivors(layout(tracks@), source@.subrange(start as int, start + len)),
        r.1 == up_to_two(
            total_matches(layout(tracks@), source@.subrange(start as int, start + len)),
        ),
{
    let ghost pat = source@.subrange(start as int, start + len);
    let ghost all = layout(tracks@);
    let mut n: usize = 0;
    let mut seen: usize = 0;
    let mut t: usize = 0;
    while t < tracks.len()
        invariant
            obeys_concrete_eq::<T>(),
            total_len(all) <= usize::MAX,
            all == layout(tracks@),
            1 <= len,
            start + len <= source@.len(),
            pat == source@.subrange(start as int, start + len),
            t <= tracks@.len(),
            n == total_survivors(all.take(t as int), pat),
            n <= total_len(all.take(t as int)),
            seen == up_to_two(total_matches(all.take(t as int), pat)),
        decreases tracks@.len() - t,
    {
        let track = &tracks[t];
        let ghost ps = pieces(track@);
        let mut m: usize = 0;
        let mut track_seen: usize = 0;
        let mut k: usize = 0;
        proof {
            assert(all.take(t + 1).drop_last() == all.take(t as int));
            assert(all.take(t + 1).last() == ps);
            lemma_total_len_take(all, t + 1);
        }
        while k < track.len()
            invariant
                obeys_concrete_eq::<T>(),
                1 <= len,
                start + len <= source@.len(),
                pat == source@.subrange(start as int, start + len),
                ps == pieces(track@),
                k <= track@.len(),
                m == track_survivors(ps.take(k as int), pat),
                m <= track_len(ps.take(k as int)),
                track_seen == up_to_two(track_matches(ps.take(k as int), pat)),
                n + track_len(ps) <= usize::MAX,
            decreases track@.len() - k,
        {
            proof {
                assert(ps.take(k + 1).drop_last() == ps.take(k as int));
                assert(ps.take(k + 1).last() == track@[k as int]@);
                lemma_track_len_take(ps, k + 1);
            }
            match &track[k] {
                Span::Chunk(items) => {
                    let (c, chunk_seen) = chunk_survivors(items, source, start, len);
                    m += c;
                    track_seen = if track_seen + chunk_seen >= 2 {
                        2
                    } else {
                        track_seen + chunk_seen
                    };
                },
                Span::Pattern(_) => {},
            }
            k += 1;
        }
        proof {
            assert(ps.take(track@.len() as int) == ps);
        }
        n += m;
        seen = if seen + track_seen >= 2 {
            2
        } else {
            seen + track_seen
        };
        t += 1;
    }
    proof {
        assert(all.take(tracks@.len() as int) == all);
    }
    (n, seen)
}

/// A run of events inside a chunk, as a value of specifications: `len`
/// events from offset `start` of piece `piece` of track `track`.
pub struct Candidate {
    pub track: int,
    pub piece: int,
    pub start: int,
    pub len: int,
}

/// A run of events inside a chunk: `length` events from offset `start` of
/// span `piece` of track `track`.
#[derive(Clone, Copy, Debug)]
pub struct PatternMatch {
    pub track: usize,
    pub piece: usize,
    pub start: usize,
    pub length: usize,
}

impl View for PatternMatch {
    type V = Candidate;

    open spec fn view(&self) -> Candidate {
        Candidate {
            track: self.track as int,
            piece: self.piece as int,
            start: self.start as int,
            len: self.length as int,
        }
    }
}

/// `c` names a run of at least one event that lies inside a chunk.
pub open spec fn is_candidate<T>(tracks: Seq<Seq<Piece<T>>>, c: Candidate) -> bool {
    &&& 0 <= c.track < tracks.len()
    &&& 0 <= c.piece < tracks[c.track].len()
    &&& tracks[c.track][c.piece] is Chunk
    &&& 0 <= c.start
    &&& 1 <= c.len
    &&& c.start + c.len <= tracks[c.track][c.piece]->Chunk_0.len()
}

/// The events of the run that `c` names.
pub open spec fn content<T>(tracks: Seq<Seq<Piece<T>>>, c: Candidate) -> Seq<T> {
    tracks[c.track][c.piece]->Chunk_0.subrange(c.start, c.start + c.len)
}

/// The size saved by storing the run of `c` once: each surviving occurrence
/// shrinks to one pattern number, and the pattern costs `overhead`.
pub open spec fn savings<T>(tracks: Seq<Seq<Piece<T>>>, overhead: int, c: Candidate) -> int {
    (c.len - 1) * total_survivors(tracks, content(tracks, c)) - overhead
}

/// The run of `c` is worth a pattern: it survives at two places or more and
/// saves at least one unit.
pub open spec fn qualifies<T>(tracks: Seq<Seq<Piece<T>>>, overhead: int, c: Candidate) -> bool {
    &&& is_candidate(tracks, c)
    &&& total_survivors(tracks, content(tracks, c)) >= 2
    &&& savings(tracks, overhead, c) >= 1
}

/// `a` comes before `b`: by track, then piece, then offset, then length.
pub open spec fn precedes(a: Candidate, b: Candidate) -> bool {
    a.track < b.track || (a.track == b.track && (a.piece < b.piece || (a.piece == b.piece && (
    a.start < b.start || (a.start == b.start && a.len < b.len)))))
}

/// `a` is chosen over `b`: it saves more, or as much and comes first.
pub open spec fn beats<T>(
    tracks: Seq<Seq<Piece<T>>>,
    overhead: int,
    a: Candidate,
    b: Candidate,
) -> bool {
    savings(tracks, overhead, a) > savings(tracks, overhead, b) || (savings(tracks, overhead, a)
        == savings(tracks, overhead, b) && precedes(a, b))
}

/// `c` is the run to turn into the next pattern: it qualifies and is chosen
/// over every other run that does.
pub open spec fn is_best<T>(tracks: Seq<Seq<Piece<T>>>, overhead: int, c: Candidate) -> bool {
    &&& qualifies(tracks, overhead, c)
    &&& forall|d: Candidate| #[trigger]
        qualifies(tracks, overhead, d) ==> d == c || beats(tracks, overhead, c, d)
}

/// No two runs are both the best one.
pub proof fn lemma_best_is_unique<T>(
    tracks: Seq<Seq<Piece<T>>>,
    overhead: int,
    a: Candidate,
    b: Candidate,
)
    requires
        is_best(tracks, overhead, a),
        is_best(tracks, overhead, b),
    ensures
        a == b,
{
}

/// The run that a search has found so far, as a value of specifications.
pub open spec fn found(best: Option<PatternMatch>) -> Option<Candidate> {
    match best {
        Some(m) => Some(m@),
        None => None,
    }
}

/// What the search knows when it has looked at every run before `limit`:
/// `best` is the best of them, and `gain` is what its occurrences save
/// before the pattern's cost is taken off.
pub open spec fn searched<T>(
    tracks: Seq<Seq<Piece<T>>>,
    overhead: int,
    best: Option<Candidate>,
    gain: int,
    limit: Candidate,
) -> bool {
    match best {
        Some(b) => {
            &&& qualifies(tracks, overhead, b)
            &&& precedes(b, limit)
            &&& gain == savings(tracks, overhead, b) + overhead
            &&& forall|d: Candidate| #[trigger]
                qualifies(tracks, overhead, d) && precedes(d, limit) ==> d == b || beats(
                    tracks,
                    overhead,
                    b,
                    d,
                )
        },
        None => forall|d: Candidate| #[trigger]
            qualifies(tracks, overhead, d) ==> !precedes(d, limit),
    }
}

/// Finds the run of events to turn into the next pattern, if any run is
/// worth one.
pub fn crunchy_chunky<T: PartialEq>(tracks: &Vec<Vec<Span<T>>>, dict_overhead: usize) -> (r:
    Option<PatternMatch>)
    requires
        obeys_concrete_eq::<T>(),
        total_len(layout(tracks@)) <= usize::MAX,
    ensures
        match r {
            Some(m) => is_best(layout(tracks@), dict_overhead as int, m@),
            None => forall|d: Candidate| !#[trigger] qualifies(
                layout(tracks@),
                dict_overhead as int,
                d,
            ),
        },
{
    let ghost all = layout(tracks@);
    let ghost overhead = dict_overhead as int;
    let mut best: Option<PatternMatch> = None;
    let mut gain: u128 = 0;
    let mut t: usize = 0;
    while t < tracks.len()
        invariant
            obeys_concrete_eq::<T>(),
            total_len(all) <= usize::MAX,
            all == layout(tracks@),
            overhead == dict_overhead as int,
            t <= tracks@.len(),
            searched(
                all,
                overhead,
                found(best),
                gain as int,
                Candidate { track: t as int, piece: 0, start: 0, len: 0 },
            ),
        decreases tracks@.len() - t,
    {
        let track = &tracks[t];
        let mut k: usize = 0;
        while k < track.len()
            invariant
                obeys_concrete_eq::<T>(),
                total_len(all) <= usize::MAX,
                all == layout(tracks@),
                overhead == dict_overhead as int,
                t < tracks@.len(),
                *track == tracks@[t as int],
                k <= track@.len(),
                searched(
                    all,
                    overhead,
                    found(best),
                    gain as int,
                    Candidate { track: t as int, piece: k as int, start: 0, len: 0 },
                ),
            decreases track@.len() - k,
        {
            assert(all[t as int][k as int] == track@[k as int]@);
            match &track[k] {
                Span::Chunk(items) => {
                    let mut s: usize = 0;
                    while s < items.len()
                        invariant
                            obeys_concrete_eq::<T>(),
                            total_len(all) <= usize::MAX,
                            all == layout(tracks@),
                            overhead == dict_overhead as int,
                            t < tracks@.len(),
                            k < tracks@[t as int]@.len(),
                            all[t as int][k as int] == Piece::Chunk(items@),
                            s <= items@.len(),
                            searched(
                                all,
                                overhead,
                                found(best),
                                gain as int,
                                Candidate {
                                    track: t as int,
                                    piece: k as int,
                                    start: s as int,
                                    len: 0,
                                },
                            ),
                        decreases items@.len() - s,
                    {
                        let most = items.len() - s;
                        // one less than the length of the run
                        let mut more: usize = 0;
                        while more < most
                            invariant
                                obeys_concrete_eq::<T>(),
                                total_len(all) <= usize::MAX,
                                all == layout(tracks@),
                                overhead == dict_overhead as int,
                                t < tracks@.len(),
                                k < tracks@[t as int]@.len(),
                                all[t as int][k as int] == Piece::Chunk(items@),
                                s < items@.len(),
                                most == items@.len() - s,
                                more <= most,
                                searched(
                                    all,
                                    overhead,
                                    found(best),
                                    gain as int,
                                    Candidate {
                                        track: t as int,
                                        piece: k as int,
                                        start: s as int,
                                        len: more + 1,
                                    },
                                ),
                            decreases most - more,
                        {
                            let len = more + 1;
                            let here = PatternMatch { track: t, piece: k, start: s, length: len };
                            let (count, seen) = count_survivors(tracks, items, s, len);
                            assert(content(all, here@) == items@.subrange(s as int, s + len));
                            assert(is_candidate(all, here@));
                            if seen < 2 {
                                // a run that stands once only cannot grow into one
                                // that stands twice
                                proof {
                                    let short = content(all, here@);
                                    assert forall|d: Candidate|
                                        d.track == t && d.piece == k && d.start == s && len
                                            <= d.len implies !#[trigger] qualifies(
                                        all,
                                        overhead,
                                        d,
                                    ) by {
                                        if is_candidate(all, d) {
                                            let long = content(all, d);
                                            assert(long.take(short.len() as int) =~= short);
                                            lemma_total_survivors_of_longer(all, short, long);
                                        }
                                    }
                                }
                                more = most;
                                continue;
                            }
                            assert(more * count <= 0xffff_ffff_ffff_ffff * 0xffff_ffff_ffff_ffff)
                                by (nonlinear_arith)
                                requires
                                    0 <= more <= 0xffff_ffff_ffff_ffff,
                                    0 <= count <= 0xffff_ffff_ffff_ffff,
                            ;
                            let here_gain: u128 = (more as u128) * (count as u128);
                            if count >= 2 && here_gain > dict_overhead as u128 && (best.is_none()
                                || here_gain > gain) {
                                best = Some(here);
                                gain = here_gain;
                            }
                            more += 1;
                        }
                        s += 1;
                    }
                },
                Span::Pattern(_) => {},
            }
            k += 1;
        }
        t += 1;
    }
    best
}


/// The chunk that remains of `items` between two cuts, if it is not empty.
pub open spec fn gap<T>(items: Seq<T>, from: int, to: int) -> Seq<Piece<T>> {
    if from < to {
        seq![Piece::Chunk(items.subrange(from, to))]
    } else {
        Seq::empty()
    }
}

/// The pieces that a chunk falls into when every surviving occurrence of
/// `pat` in it becomes a use of pattern `index`. `s` is the offset that is
/// looked at next, and `cut` the offset up to which pieces are made. Chunks
/// without events are left out.
pub open spec fn split_chunk<T>(items: Seq<T>, pat: Seq<T>, index: usize, s: int, cut: int) -> Seq<
    Piece<T>,
>
    decreases items.len() - s,
{
    if s >= items.len() {
        gap(items, cut, items.len() as int)
    } else if survives_at(items, pat, s) {
        gap(items, cut, s) + seq![Piece::Pattern(index)] + split_chunk(
            items,
            pat,
            index,
            s + 1,
            s + pat.len(),
        )
    } else {
        split_chunk(items, pat, index, s + 1, cut)
    }
}

/// The pieces that one piece falls into.
pub open spec fn split_piece<T>(p: Piece<T>, pat: Seq<T>, index: usize) -> Seq<Piece<T>> {
    match p {
        Piece::Chunk(items) => split_chunk(items, pat, index, 0, 0),
        Piece::Pattern(i) => seq![Piece::Pattern(i)],
    }
}

/// The pieces that a track falls into, in the order of the track.
pub open spec fn split_track<T>(ps: Seq<Piece<T>>, pat: Seq<T>, index: usize) -> Seq<Piece<T>>
    decreases ps.len(),
{
    if ps.len() == 0 {
        Seq::empty()
    } else {
        split_track(ps.drop_last(), pat, index) + split_piece(ps.last(), pat, index)
    }
}

/// Every track split.
pub open spec fn split_all<T>(tracks: Seq<Seq<Piece<T>>>, pat: Seq<T>, index: usize) -> Seq<
    Seq<Piece<T>>,
> {
    Seq::new(tracks.len(), |t: int| split_track(tracks[t], pat, index))
}

/// The state of a compression: the patterns made so far, and every track
/// as pieces.
pub struct Work<T> {
    pub dict: Seq<Seq<T>>,
    pub tracks: Seq<Seq<Piece<T>>>,
}

/// The number of chunks in one track.
pub open spec fn track_chunks<T>(ps: Seq<Piece<T>>) -> nat
    decreases ps.len(),
{
    if ps.len() == 0 {
        0
    } else {
        track_chunks(ps.drop_last()) + if ps.last() is Chunk {
            1nat
        } else {
            0nat
        }
    }
}

/// The number of chunks in all tracks.
pub open spec fn chunk_count<T>(tracks: Seq<Seq<Piece<T>>>) -> nat
    decreases tracks.len(),
{
    if tracks.len() == 0 {
        0
    } else {
        chunk_count(tracks.drop_last()) + track_chunks(tracks.last())
    }
}

/// The state in which compression begins: no pattern, and every track that
/// has events as one chunk.
pub open spec fn initial_work<T>(tracks: Seq<Seq<T>>) -> Work<T> {
    Work {
        dict: Seq::empty(),
        tracks: Seq::new(
            tracks.len(),
            |t: int|
                if tracks[t].len() == 0 {
                    Seq::empty()
                } else {
                    seq![Piece::Chunk(tracks[t])]
                },
        ),
    }
}

/// The state after the run of `c` has become a pattern.
pub open spec fn step<T>(w: Work<T>, c: Candidate) -> Work<T> {
    Work {
        dict: w.dict.push(content(w.tracks, c)),
        tracks: split_all(w.tracks, content(w.tracks, c), w.dict.len() as usize),
    }
}

/// Some run is worth a pattern.
pub open spec fn has_best<T>(tracks: Seq<Seq<Piece<T>>>, overhead: int) -> bool {
    exists|c: Candidate| is_best(tracks, overhead, c)
}

/// The run to turn into the next pattern.
pub open spec fn the_best<T>(tracks: Seq<Seq<Piece<T>>>, overhead: int) -> Candidate {
    choose|c: Candidate| is_best(tracks, overhead, c)
}

/// The state in which pattern making ends. A pattern is made as long as
/// some run is worth one and the patterns, with two for each chunk, stay
/// under `dict_max`.
pub open spec fn crunch_steps<T>(w: Work<T>, dict_max: int, overhead: int) -> Work<T>
    decreases dict_max - w.dict.len(),
{
    if w.dict.len() + 2 * chunk_count(w.tracks) < dict_max && has_best(w.tracks, overhead) {
        crunch_steps(step(w, the_best(w.tracks, overhead)), dict_max, overhead)
    } else {
        w
    }
}

/// One track with every chunk that is left turned into a pattern of its
/// own: the new patterns, and the track as pattern numbers. `base` is the
/// number that the first new pattern gets.
pub open spec fn seal_track<T>(ps: Seq<Piece<T>>, base: int) -> (Seq<Seq<T>>, Seq<usize>)
    decreases ps.len(),
{
    if ps.len() == 0 {
        (Seq::empty(), Seq::empty())
    } else {
        let before = seal_track(ps.drop_last(), base);
        match ps.last() {
            Piece::Chunk(items) => (
                before.0.push(items),
                before.1.push((base + before.0.len()) as usize),
            ),
            Piece::Pattern(i) => (before.0, before.1.push(i)),
        }
    }
}

/// All tracks with every chunk that is left turned into a pattern of its
/// own, track by track: the dictionary, and the tracks as pattern numbers.
pub open spec fn seal<T>(tracks: Seq<Seq<Piece<T>>>, dict: Seq<Seq<T>>) -> (
    Seq<Seq<T>>,
    Seq<Seq<usize>>,
)
    decreases tracks.len(),
{
    if tracks.len() == 0 {
        (dict, Seq::empty())
    } else {
        let before = seal(tracks.drop_last(), dict);
        let last = seal_track(tracks.last(), before.0.len() as int);
        (before.0 + last.0, before.1.push(last.1))
    }
}

/// The dictionary and the tracks that compression gives.
pub open spec fn crunch_result<T>(tracks: Seq<Seq<T>>, dict_max: int, overhead: int) -> (
    Seq<Seq<T>>,
    Seq<Seq<usize>>,
) {
    let w = crunch_steps(initial_work(tracks), dict_max, overhead);
    seal(w.tracks, w.dict)
}

/// The events that a piece stands for.
pub open spec fn piece_items<T>(p: Piece<T>, dict: Seq<Seq<T>>) -> Seq<T> {
    match p {
        Piece::Chunk(items) => items,
        Piece::Pattern(i) => dict[i as int],
    }
}

/// The events that a track of pieces stands for.
pub open spec fn flatten<T>(ps: Seq<Piece<T>>, dict: Seq<Seq<T>>) -> Seq<T>
    decreases ps.len(),
{
    if ps.len() == 0 {
        Seq::empty()
    } else {
        flatten(ps.drop_last(), dict) + piece_items(ps.last(), dict)
    }
}

/// A chunk holds an event, and a use names a pattern that exists.
pub open spec fn piece_ok<T>(p: Piece<T>, dict_len: int) -> bool {
    match p {
        Piece::Chunk(items) => items.len() > 0,
        Piece::Pattern(i) => i < dict_len,
    }
}

/// Every piece of a track is in order.
pub open spec fn track_ok<T>(ps: Seq<Piece<T>>, dict_len: int) -> bool {
    forall|k: int| 0 <= k < ps.len() ==> piece_ok(#[trigger] ps[k], dict_len)
}

/// The state stands for the tracks `input`: each track of pieces
/// expands to the track it came from, and every piece is in order.
pub open spec fn well_formed<T>(w: Work<T>, input: Seq<Seq<T>>) -> bool {
    &&& w.tracks.len() == input.len()
    &&& forall|t: int|
        0 <= t < input.len() ==> flatten(#[trigger] w.tracks[t], w.dict) == input[t]
    &&& forall|t: int|
        0 <= t < w.tracks.len() ==> track_ok(#[trigger] w.tracks[t], w.dict.len() as int)
}

/// The number of events in all tracks.
pub open spec fn total_items<T>(tracks: Seq<Seq<T>>) -> nat
    decreases tracks.len(),
{
    if tracks.len() == 0 {
        0
    } else {
        total_items(tracks.drop_last()) + tracks.last().len()
    }
}

proof fn lemma_flatten_concat<T>(a: Seq<Piece<T>>, b: Seq<Piece<T>>, dict: Seq<Seq<T>>)
    ensures
        flatten(a + b, dict) == flatten(a, dict) + flatten(b, dict),
    decreases b.len(),
{
    if b.len() == 0 {
        assert(a + b == a);
    } else {
        lemma_flatten_concat(a, b.drop_last(), dict);
        assert((a + b).drop_last() == a + b.drop_last());
        assert((a + b).last() == b.last());
    }
}

proof fn lemma_flatten_one<T>(p: Piece<T>, dict: Seq<Seq<T>>)
    ensures
        flatten(seq![p], dict) == piece_items(p, dict),
{
    assert(seq![p].drop_last() == Seq::<Piece<T>>::empty());
    assert(flatten(seq![p].drop_last(), dict) == Seq::<T>::empty());
    assert(seq![p].last() == p);
}

proof fn lemma_flatten_gap<T>(items: Seq<T>, from: int, to: int, dict: Seq<Seq<T>>)
    requires
        0 <= from <= to <= items.len(),
    ensures
        flatten(gap(items, from, to), dict) == items.subrange(from, to),
        track_ok(gap(items, from, to), dict.len() as int),
{
    if from < to {
        lemma_flatten_one(Piece::Chunk(items.subrange(from, to)), dict);
    } else {
        assert(items.subrange(from, to) == Seq::<T>::empty());
    }
}

/// The pieces of a split chunk expand to the rest of the chunk.
proof fn lemma_split_chunk<T>(
    items: Seq<T>,
    pat: Seq<T>,
    index: usize,
    s: int,
    cut: int,
    dict: Seq<Seq<T>>,
)
    requires
        pat.len() >= 1,
        0 <= s,
        0 <= cut <= items.len(),
        index < dict.len(),
        dict[index as int] == pat,
        forall|r: int| s <= r < cut ==> !survives_at(items, pat, r),
    ensures
        flatten(split_chunk(items, pat, index, s, cut), dict) == items.subrange(
            cut,
            items.len() as int,
        ),
        track_ok(split_chunk(items, pat, index, s, cut), dict.len() as int),
    decreases items.len() - s,
{
    let n = items.len() as int;
    if s >= n {
        lemma_flatten_gap(items, cut, n, dict);
    } else if survives_at(items, pat, s) {
        let next = s + pat.len();
        assert(cut <= s);
        assert forall|r: int| s + 1 <= r < next implies !survives_at(items, pat, r) by {
            assert(occurs_at(items, pat, s));
        }
        lemma_split_chunk(items, pat, index, s + 1, next, dict);
        let head = gap(items, cut, s);
        let mid = seq![Piece::<T>::Pattern(index)];
        let rest = split_chunk(items, pat, index, s + 1, next);
        lemma_flatten_gap(items, cut, s, dict);
        lemma_flatten_one(Piece::<T>::Pattern(index), dict);
        lemma_flatten_concat(head, mid, dict);
        lemma_flatten_concat(head + mid, rest, dict);
        assert(items.subrange(cut, s) + items.subrange(s, next) + items.subrange(next, n)
            =~= items.subrange(cut, n));
    } else {
        lemma_split_chunk(items, pat, index, s + 1, cut, dict);
    }
}

/// Pieces that are in order keep what they stand for when the dictionary
/// grows.
proof fn lemma_flatten_grow<T>(ps: Seq<Piece<T>>, dict: Seq<Seq<T>>, more: Seq<Seq<T>>)
    requires
        track_ok(ps, dict.len() as int),
    ensures
        flatten(ps, dict + more) == flatten(ps, dict),
        track_ok(ps, (dict + more).len() as int),
    decreases ps.len(),
{
    if ps.len() > 0 {
        assert forall|k: int| 0 <= k < ps.drop_last().len() implies piece_ok(
            #[trigger] ps.drop_last()[k],
            dict.len() as int,
        ) by {
            assert(ps.drop_last()[k] == ps[k]);
        }
        lemma_flatten_grow(ps.drop_last(), dict, more);
        assert(piece_ok(ps[ps.len() - 1], dict.len() as int));
    }
}

/// A split track stands for what the track stood for.
proof fn lemma_split_track<T>(ps: Seq<Piece<T>>, pat: Seq<T>, index: usize, dict: Seq<Seq<T>>)
    requires
        pat.len() >= 1,
        index == dict.len(),
        track_ok(ps, dict.len() as int),
    ensures
        flatten(split_track(ps, pat, index), dict.push(pat)) == flatten(ps, dict),
        track_ok(split_track(ps, pat, index), dict.push(pat).len() as int),
    decreases ps.len(),
{
    let grown = dict.push(pat);
    if ps.len() > 0 {
        let front = ps.drop_last();
        assert forall|k: int| 0 <= k < front.len() implies piece_ok(
            #[trigger] front[k],
            dict.len() as int,
        ) by {
            assert(front[k] == ps[k]);
        }
        lemma_split_track(front, pat, index, dict);
        assert(piece_ok(ps[ps.len() - 1], dict.len() as int));
        let tail = split_piece(ps.last(), pat, index);
        lemma_flatten_concat(split_track(front, pat, index), tail, grown);
        match ps.last() {
            Piece::Chunk(items) => {
                lemma_split_chunk(items, pat, index, 0, 0, grown);
                assert(items.subrange(0, items.len() as int) == items);
            },
            Piece::Pattern(i) => {
                lemma_flatten_one(Piece::<T>::Pattern(i), grown);
            },
        }
    }
}

/// Making a pattern keeps the state in order.
proof fn lemma_step<T>(w: Work<T>, c: Candidate, input: Seq<Seq<T>>)
    requires
        well_formed(w, input),
        is_candidate(w.tracks, c),
        w.dict.len() <= usize::MAX,
    ensures
        well_formed(step(w, c), input),
{
    let pat = content(w.tracks, c);
    let index = w.dict.len() as usize;
    let next = step(w, c);
    assert forall|t: int| 0 <= t < input.len() implies flatten(
        #[trigger] next.tracks[t],
        next.dict,
    ) == input[t] && track_ok(next.tracks[t], next.dict.len() as int) by {
        lemma_split_track(w.tracks[t], pat, index, w.dict);
    }
}


proof fn lemma_rows_push<T>(v: Seq<Vec<T>>, x: Vec<T>)
    ensures
        rows(v.push(x)) == rows(v).push(x@),
{
    assert(rows(v.push(x)) =~= rows(v).push(x@));
}

proof fn lemma_pieces_push<T>(v: Seq<Span<T>>, x: Span<T>)
    ensures
        pieces(v.push(x)) == pieces(v).push(x@),
{
    assert(pieces(v.push(x)) =~= pieces(v).push(x@));
}

proof fn lemma_layout_push<T>(v: Seq<Vec<Span<T>>>, x: Vec<Span<T>>)
    ensures
        layout(v.push(x)) == layout(v).push(pieces(x@)),
{
    assert(layout(v.push(x)) =~= layout(v).push(pieces(x@)));
}

/// Copies the events of `items` from offset `from` up to offset `to`.
pub(crate) fn copy_range<T: Clone>(items: &Vec<T>, from: usize, to: usize) -> (r: Vec<T>)
    requires
        clones_are_equal::<T>(),
        from <= to <= items@.len(),
    ensures
        r@ == items@.subrange(from as int, to as int),
{
    let mut r: Vec<T> = Vec::new();
    let mut i: usize = from;
    while i < to
        invariant
            clones_are_equal::<T>(),
            from <= i <= to <= items@.len(),
            r@ == items@.subrange(from as int, i as int),
        decreases to - i,
    {
        let item = items[i].clone();
        assert(cloned(items@[i as int], item));
        r.push(item);
        assert(items@.subrange(from as int, i + 1) == items@.subrange(from as int, i as int).push(
            items@[i as int],
        ));
        i += 1;
    }
    r
}

/// Appends to `out` the pieces that the chunk `items` falls into when
/// every surviving occurrence of `pat` becomes a use of pattern `index`.
fn split_chunk_into<T: PartialEq + Clone>(
    out: &mut Vec<Span<T>>,
    items: &Vec<T>,
    pat: &Vec<T>,
    index: usize,
)
    requires
        obeys_concrete_eq::<T>(),
        clones_are_equal::<T>(),
        pat@.len() >= 1,
    ensures
        pieces(final(out)@) == pieces(old(out)@) + split_chunk(items@, pat@, index, 0, 0),
{
    let ghost goal = pieces(out@) + split_chunk(items@, pat@, index, 0, 0);
    let len = pat.len();
    assert(pat@.subrange(0, len as int) == pat@);
    // the offset up to which pieces are made
    let mut cut: usize = 0;
    // the end of the last occurrence seen
    let mut free: usize = 0;
    let mut s: usize = 0;
    while s < items.len()
        invariant
            obeys_concrete_eq::<T>(),
            clones_are_equal::<T>(),
            len == pat@.len(),
            len >= 1,
            pat@.subrange(0, len as int) == pat@,
            s <= items@.len(),
            cut <= items@.len(),
            free <= items@.len(),
            forall|r: int| 0 <= r < s && #[trigger] occurs_at(items@, pat@, r) ==> r + len <= free,
            free == 0 || (occurs_at(items@, pat@, free - len) && free - len < s),
            pieces(out@) + split_chunk(items@, pat@, index, s as int, cut as int) == goal,
        decreases items@.len() - s,
    {
        let ghost before = pieces(out@);
        let ghost rest = split_chunk(items@, pat@, index, s + 1, s + len);
        if occurs(items, s, pat, 0, len) {
            if free <= s {
                assert(survives_at(items@, pat@, s as int));
                if cut < s {
                    let chunk = Span::Chunk(copy_range(items, cut, s));
                    proof {
                        lemma_pieces_push(out@, chunk);
                    }
                    out.push(chunk);
                }
                assert(pieces(out@) == before + gap(items@, cut as int, s as int));
                let used = Span::Pattern(index);
                proof {
                    lemma_pieces_push(out@, used);
                }
                out.push(used);
                assert(pieces(out@) + rest =~= before + (gap(items@, cut as int, s as int)
                    + seq![Piece::Pattern(index)] + rest));
                cut = s + len;
            } else {
                assert(!survives_at(items@, pat@, s as int));
            }
            free = s + len;
        } else {
            assert(!survives_at(items@, pat@, s as int));
        }
        s += 1;
    }
    if cut < items.len() {
        let chunk = Span::Chunk(copy_range(items, cut, items.len()));
        proof {
            lemma_pieces_push(out@, chunk);
        }
        out.push(chunk);
    }
}

/// Splits every chunk of a track at the surviving occurrences of `pat`.
fn split_spans<T: PartialEq + Clone>(track: &Vec<Span<T>>, pat: &Vec<T>, index: usize) -> (out:
    Vec<Span<T>>)
    requires
        obeys_concrete_eq::<T>(),
        clones_are_equal::<T>(),
        pat@.len() >= 1,
    ensures
        pieces(out@) == split_track(pieces(track@), pat@, index),
{
    let ghost ps = pieces(track@);
    let mut out: Vec<Span<T>> = Vec::new();
    let mut k: usize = 0;
    assert(pieces(out@) =~= Seq::<Piece<T>>::empty());
    while k < track.len()
        invariant
            obeys_concrete_eq::<T>(),
            clones_are_equal::<T>(),
            pat@.len() >= 1,
            ps == pieces(track@),
            k <= track@.len(),
            pieces(out@) == split_track(ps.take(k as int), pat@, index),
        decreases track@.len() - k,
    {
        proof {
            assert(ps.take(k + 1).drop_last() == ps.take(k as int));
            assert(ps.take(k + 1).last() == track@[k as int]@);
        }
        match &track[k] {
            Span::Chunk(items) => {
                split_chunk_into(&mut out, items, pat, index);
            },
            Span::Pattern(i) => {
                let used = Span::Pattern(*i);
                proof {
                    lemma_pieces_push(out@, used);
                }
                out.push(used);
            },
        }
        k += 1;
    }
    proof {
        assert(ps.take(track@.len() as int) == ps);
    }
    out
}

/// Splits every chunk of every track at the surviving occurrences of `pat`.
fn split_tracks<T: PartialEq + Clone>(tracks: &Vec<Vec<Span<T>>>, pat: &Vec<T>, index: usize) -> (out:
    Vec<Vec<Span<T>>>)
    requires
        obeys_concrete_eq::<T>(),
        clones_are_equal::<T>(),
        pat@.len() >= 1,
    ensures
        layout(out@) == split_all(layout(tracks@), pat@, index),
{
    let mut out: Vec<Vec<Span<T>>> = Vec::new();
    let mut t: usize = 0;
    while t < tracks.len()
        invariant
            obeys_concrete_eq::<T>(),
            clones_are_equal::<T>(),
            pat@.len() >= 1,
            t <= tracks@.len(),
            out@.len() == t,
            forall|i: int|
                0 <= i < t ==> pieces((#[trigger] out@[i])@) == split_track(
                    pieces(tracks@[i]@),
                    pat@,
                    index,
                ),
        decreases tracks@.len() - t,
    {
        let split = split_spans(&tracks[t], pat, index);
        out.push(split);
        t += 1;
    }
    proof {
        assert(layout(out@) =~= split_all(layout(tracks@), pat@, index));
    }
    out
}

/// Counts the chunks of all tracks.
fn count_chunks<T>(tracks: &Vec<Vec<Span<T>>>) -> (n: u128)
    ensures
        n == chunk_count(layout(tracks@)),
{
    let ghost all = layout(tracks@);
    let mut n: u128 = 0;
    let mut t: usize = 0;
    while t < tracks.len()
        invariant
            all == layout(tracks@),
            t <= tracks@.len(),
            n == chunk_count(all.take(t as int)),
            n <= t * 0x1_0000_0000_0000_0000,
        decreases tracks@.len() - t,
    {
        let track = &tracks[t];
        let ghost ps = pieces(track@);
        let mut m: usize = 0;
        let mut k: usize = 0;
        while k < track.len()
            invariant
                ps == pieces(track@),
                k <= track@.len(),
                m == track_chunks(ps.take(k as int)),
                m <= k,
            decreases track@.len() - k,
        {
            proof {
                assert(ps.take(k + 1).drop_last() == ps.take(k as int));
                assert(ps.take(k + 1).last() == track@[k as int]@);
            }
            match &track[k] {
                Span::Chunk(_) => {
                    m += 1;
                },
                Span::Pattern(_) => {},
            }
            k += 1;
        }
        proof {
            assert(ps.take(track@.len() as int) == ps);
            assert(all.take(t + 1).drop_last() == all.take(t as int));
            assert(all.take(t + 1).last() == ps);
        }
        n += m as u128;
        t += 1;
    }
    proof {
        assert(all.take(tracks@.len() as int) == all);
    }
    n
}


proof fn lemma_track_len_flatten<T>(ps: Seq<Piece<T>>, dict: Seq<Seq<T>>)
    ensures
        track_len(ps) <= flatten(ps, dict).len(),
    decreases ps.len(),
{
    if ps.len() > 0 {
        lemma_track_len_flatten(ps.drop_last(), dict);
    }
}

proof fn lemma_total_len_prefix<T>(w: Work<T>, input: Seq<Seq<T>>, n: int)
    requires
        well_formed(w, input),
        0 <= n <= input.len(),
    ensures
        total_len(w.tracks.take(n)) <= total_items(input.take(n)),
    decreases n,
{
    if n > 0 {
        lemma_total_len_prefix(w, input, n - 1);
        assert(w.tracks.take(n).drop_last() == w.tracks.take(n - 1));
        assert(input.take(n).drop_last() == input.take(n - 1));
        lemma_track_len_flatten(w.tracks[n - 1], w.dict);
    }
}

/// The chunks of a state in order hold no more events than the tracks it
/// stands for.
proof fn lemma_total_len<T>(w: Work<T>, input: Seq<Seq<T>>)
    requires
        well_formed(w, input),
    ensures
        total_len(w.tracks) <= total_items(input),
{
    lemma_total_len_prefix(w, input, input.len() as int);
    assert(w.tracks.take(input.len() as int) == w.tracks);
    assert(input.take(input.len() as int) == input);
}

proof fn lemma_expand_grow<T>(dict: Seq<Seq<T>>, more: Seq<Seq<T>>, indices: Seq<usize>)
    requires
        forall|j: int| 0 <= j < indices.len() ==> (#[trigger] indices[j]) < dict.len(),
    ensures
        expand(dict + more, indices) == expand(dict, indices),
    decreases indices.len(),
{
    if indices.len() > 0 {
        assert forall|j: int| 0 <= j < indices.drop_last().len() implies (
        #[trigger] indices.drop_last()[j]) < dict.len() by {
            assert(indices.drop_last()[j] == indices[j]);
        }
        lemma_expand_grow(dict, more, indices.drop_last());
        assert(indices[indices.len() - 1] < dict.len());
    }
}

proof fn lemma_seal_track_len<T>(ps: Seq<Piece<T>>, base: int)
    ensures
        seal_track(ps, base).0.len() == track_chunks(ps),
        seal_track(ps, base).1.len() == ps.len(),
    decreases ps.len(),
{
    if ps.len() > 0 {
        lemma_seal_track_len(ps.drop_last(), base);
    }
}

/// A sealed track names patterns that exist and expands to what the pieces
/// stood for.
proof fn lemma_seal_track<T>(ps: Seq<Piece<T>>, dict: Seq<Seq<T>>)
    requires
        track_ok(ps, dict.len() as int),
        dict.len() + track_chunks(ps) <= usize::MAX,
    ensures
        forall|j: int|
            0 <= j < ps.len() ==> (#[trigger] seal_track(ps, dict.len() as int).1[j]) < dict.len()
                + track_chunks(ps),
        expand(dict + seal_track(ps, dict.len() as int).0, seal_track(ps, dict.len() as int).1)
            == flatten(ps, dict),
    decreases ps.len(),
{
    let base = dict.len() as int;
    let now = seal_track(ps, base);
    lemma_seal_track_len(ps, base);
    if ps.len() > 0 {
        let front = ps.drop_last();
        let before = seal_track(front, base);
        assert forall|k: int| 0 <= k < front.len() implies piece_ok(
            #[trigger] front[k],
            base,
        ) by {
            assert(front[k] == ps[k]);
        }
        lemma_seal_track(front, dict);
        lemma_seal_track_len(front, base);
        assert(piece_ok(ps[ps.len() - 1], base));
        assert(now.1.drop_last() == before.1);
        match ps.last() {
            Piece::Chunk(items) => {
                assert(dict + now.0 == (dict + before.0) + seq![items]);
                lemma_expand_grow(dict + before.0, seq![items], before.1);
                assert((dict + now.0)[base + before.0.len()] == items);
            },
            Piece::Pattern(i) => {
                assert((dict + now.0)[i as int] == dict[i as int]);
            },
        }
    } else {
        assert(dict + now.0 == dict);
    }
}

/// Sealing keeps the patterns that there are and adds one for each chunk.
proof fn lemma_seal_len<T>(tracks: Seq<Seq<Piece<T>>>, dict: Seq<Seq<T>>)
    ensures
        seal(tracks, dict).0.len() == dict.len() + chunk_count(tracks),
        seal(tracks, dict).0.subrange(0, dict.len() as int) == dict,
        seal(tracks, dict).1.len() == tracks.len(),
    decreases tracks.len(),
{
    if tracks.len() > 0 {
        let front = tracks.drop_last();
        let before = seal(front, dict);
        lemma_seal_len(front, dict);
        lemma_seal_track_len(tracks.last(), before.0.len() as int);
        assert(seal(tracks, dict).0.subrange(0, dict.len() as int) =~= before.0.subrange(
            0,
            dict.len() as int,
        ));
    } else {
        assert(dict.subrange(0, dict.len() as int) == dict);
    }
}

/// Sealed tracks name patterns that exist and expand to what the pieces
/// stood for.
proof fn lemma_seal<T>(tracks: Seq<Seq<Piece<T>>>, dict: Seq<Seq<T>>)
    requires
        forall|t: int| 0 <= t < tracks.len() ==> track_ok(#[trigger] tracks[t], dict.len() as int),
        dict.len() + chunk_count(tracks) <= usize::MAX,
    ensures
        seal(tracks, dict).1.len() == tracks.len(),
        indices_in_range(seal(tracks, dict).1, seal(tracks, dict).0.len() as int),
        forall|t: int|
            0 <= t < tracks.len() ==> expand(seal(tracks, dict).0, #[trigger] seal(tracks, dict).1[t])
                == flatten(tracks[t], dict),
    decreases tracks.len(),
{
    let now = seal(tracks, dict);
    lemma_seal_len(tracks, dict);
    if tracks.len() > 0 {
        let front = tracks.drop_last();
        let before = seal(front, dict);
        let last = seal_track(tracks.last(), before.0.len() as int);
        assert forall|t: int| 0 <= t < front.len() implies track_ok(
            #[trigger] front[t],
            dict.len() as int,
        ) by {
            assert(front[t] == tracks[t]);
        }
        lemma_seal_len(front, dict);
        lemma_seal(front, dict);
        lemma_seal_track_len(tracks.last(), before.0.len() as int);
        assert(track_ok(tracks[tracks.len() - 1], dict.len() as int));
        let more = before.0.subrange(dict.len() as int, before.0.len() as int);
        assert(before.0 == dict + more);
        lemma_flatten_grow(tracks.last(), dict, more);
        lemma_seal_track(tracks.last(), before.0);
        assert forall|t: int| 0 <= t < tracks.len() implies expand(now.0, #[trigger] now.1[t])
            == flatten(tracks[t], dict) by {
            if t < front.len() {
                assert(now.1[t] == before.1[t]);
                assert forall|j: int| 0 <= j < before.1[t].len() implies (
                #[trigger] before.1[t][j]) < before.0.len() by {}
                lemma_expand_grow(before.0, last.0, before.1[t]);
                assert(front[t] == tracks[t]);
            } else {
                assert(now.1[t] == last.1);
            }
        }
        assert forall|t: int, j: int| 0 <= t < now.1.len() && 0 <= j < now.1[t].len() implies (
        #[trigger] now.1[t][j]) < now.0.len() by {
            if t < front.len() {
                assert(now.1[t] == before.1[t]);
                assert(before.1[t][j] < before.0.len());
            } else {
                assert(now.1[t] == last.1);
            }
        }
    }
}


/// Counts the events of all tracks, if the machine can count them.
pub fn count_items<T>(tracks: &Vec<Vec<T>>) -> (r: Option<usize>)
    ensures
        match r {
            Some(n) => n == total_items(rows(tracks@)),
            None => total_items(rows(tracks@)) > usize::MAX,
        },
{
    let ghost all = rows(tracks@);
    let mut n: usize = 0;
    let mut t: usize = 0;
    while t < tracks.len()
        invariant
            all == rows(tracks@),
            t <= tracks@.len(),
            n == total_items(all.take(t as int)),
        decreases tracks@.len() - t,
    {
        proof {
            assert(all.take(t + 1).drop_last() == all.take(t as int));
            assert(all.take(t + 1).last() == tracks@[t as int]@);
        }
        let len = tracks[t].len();
        if len > usize::MAX - n {
            proof {
                lemma_total_items_prefix(all, t + 1);
            }
            return None;
        }
        n += len;
        t += 1;
    }
    proof {
        assert(all.take(tracks@.len() as int) == all);
    }
    Some(n)
}

proof fn lemma_total_items_prefix<T>(tracks: Seq<Seq<T>>, i: int)
    requires
        0 <= i <= tracks.len(),
    ensures
        total_items(tracks.take(i)) <= total_items(tracks),
    decreases tracks.len() - i,
{
    if i < tracks.len() {
        lemma_total_items_prefix(tracks, i + 1);
        assert(tracks.take(i + 1).drop_last() == tracks.take(i));
    } else {
        assert(tracks.take(i) == tracks);
    }
}

/// Turns every chunk that is left into a pattern of its own, track by
/// track, and every track into its pattern numbers.
fn seal_tracks<T: Clone>(work: &Vec<Vec<Span<T>>>, dict: Vec<Vec<T>>) -> (out: (
    Vec<Vec<T>>,
    Vec<Vec<usize>>,
))
    requires
        clones_are_equal::<T>(),
    ensures
        (rows(out.0@), rows(out.1@)) == seal(layout(work@), rows(dict@)),
{
    let ghost all = layout(work@);
    let ghost start = rows(dict@);
    let mut dict = dict;
    let mut usages: Vec<Vec<usize>> = Vec::new();
    let mut t: usize = 0;
    assert(rows(usages@) =~= Seq::<Seq<usize>>::empty());
    while t < work.len()
        invariant
            clones_are_equal::<T>(),
            all == layout(work@),
            t <= work@.len(),
            (rows(dict@), rows(usages@)) == seal(all.take(t as int), start),
        decreases work@.len() - t,
    {
        let track = &work[t];
        let ghost ps = pieces(track@);
        let ghost base_rows = rows(dict@);
        let ghost base = base_rows.len() as int;
        let mut row: Vec<usize> = Vec::new();
        let mut k: usize = 0;
        assert(base_rows + Seq::<Seq<T>>::empty() == base_rows);
        while k < track.len()
            invariant
                clones_are_equal::<T>(),
                ps == pieces(track@),
                base == base_rows.len(),
                k <= track@.len(),
                rows(dict@) == base_rows + seal_track(ps.take(k as int), base).0,
                row@ == seal_track(ps.take(k as int), base).1,
            decreases track@.len() - k,
        {
            proof {
                assert(ps.take(k + 1).drop_last() == ps.take(k as int));
                assert(ps.take(k + 1).last() == track@[k as int]@);
            }
            match &track[k] {
                Span::Chunk(items) => {
                    let index = dict.len();
                    let pattern = copy_range(items, 0, items.len());
                    proof {
                        assert(items@.subrange(0, items@.len() as int) == items@);
                        lemma_rows_push(dict@, pattern);
                        assert((base_rows + seal_track(ps.take(k as int), base).0).push(items@)
                            == base_rows + seal_track(ps.take(k as int), base).0.push(items@));
                    }
                    dict.push(pattern);
                    row.push(index);
                },
                Span::Pattern(i) => {
                    row.push(*i);
                },
            }
            k += 1;
        }
        proof {
            assert(ps.take(track@.len() as int) == ps);
            assert(all.take(t + 1).drop_last() == all.take(t as int));
            assert(all.take(t + 1).last() == ps);
            lemma_rows_push(usages@, row);
        }
        usages.push(row);
        t += 1;
    }
    proof {
        assert(all.take(work@.len() as int) == all);
    }
    (dict, usages)
}

/// Compresses `tracks` into a dictionary of patterns and, for each track,
/// the list of the numbers of the patterns that make it up.
///
/// While some run of events is worth a pattern, and the patterns, with two
/// for each chunk, stay under `dict_max`, the best run becomes a pattern.
/// Then every chunk that is left becomes a pattern of its own. A run is
/// worth a pattern when it survives at two places or more and saves at
/// least one unit, each pattern costing `dict_overhead` units.
pub fn crunch<T: PartialEq + Clone>(tracks: Vec<Vec<T>>, dict_max: usize, dict_overhead: usize) -> (out:
    (Vec<Vec<T>>, Vec<Vec<usize>>))
    requires
        obeys_concrete_eq::<T>(),
        clones_are_equal::<T>(),
        total_items(rows(tracks@)) <= usize::MAX,
    ensures
        (rows(out.0@), rows(out.1@)) == crunch_result(
            rows(tracks@),
            dict_max as int,
            dict_overhead as int,
        ),
        out.1@.len() == tracks@.len(),
        indices_in_range(rows(out.1@), out.0@.len() as int),
        unfold(rows(out.0@), rows(out.1@)) == rows(tracks@),
{
    let ghost input = rows(tracks@);
    let ghost first = initial_work(input);
    let mut work: Vec<Vec<Span<T>>> = Vec::new();
    let mut t: usize = 0;
    assert(layout(work@) =~= first.tracks.take(0));
    while t < tracks.len()
        invariant
            clones_are_equal::<T>(),
            input == rows(tracks@),
            first == initial_work(input),
            t <= tracks@.len(),
            layout(work@) == first.tracks.take(t as int),
        decreases tracks@.len() - t,
    {
        let track = &tracks[t];
        let mut spans: Vec<Span<T>> = Vec::new();
        if track.len() > 0 {
            let whole = copy_range(track, 0, track.len());
            assert(whole@ == track@) by {
                assert(track@.subrange(0, track@.len() as int) == track@);
            }
            spans.push(Span::Chunk(whole));
        }
        proof {
            lemma_layout_push(work@, spans);
            assert(pieces(spans@) =~= first.tracks[t as int]);
            assert(first.tracks.take(t + 1) == first.tracks.take(t as int).push(
                first.tracks[t as int],
            ));
        }
        work.push(spans);
        t += 1;
    }
    let mut dict: Vec<Vec<T>> = Vec::new();
    let mut done = false;
    proof {
        assert(first.tracks.take(tracks@.len() as int) == first.tracks);
        assert(rows(dict@) =~= first.dict);
        assert forall|t: int| 0 <= t < input.len() implies flatten(
            #[trigger] first.tracks[t],
            first.dict,
        ) == input[t] by {
            if input[t].len() > 0 {
                lemma_flatten_one(Piece::Chunk(input[t]), first.dict);
            }
        }
        assert(well_formed(first, input));
    }
    while !done
        invariant
            obeys_concrete_eq::<T>(),
            clones_are_equal::<T>(),
            total_items(input) <= usize::MAX,
            well_formed(Work { dict: rows(dict@), tracks: layout(work@) }, input),
            crunch_steps(
                Work { dict: rows(dict@), tracks: layout(work@) },
                dict_max as int,
                dict_overhead as int,
            ) == crunch_steps(first, dict_max as int, dict_overhead as int),
            done ==> crunch_steps(
                Work { dict: rows(dict@), tracks: layout(work@) },
                dict_max as int,
                dict_overhead as int,
            ) == (Work { dict: rows(dict@), tracks: layout(work@) }),
            !done ==> dict@.len() <= dict_max,
        decreases
                if done {
                    0
                } else {
                    1 + dict_max - dict@.len()
                },
    {
        let ghost w = Work { dict: rows(dict@), tracks: layout(work@) };
        let chunks = count_chunks(&work);
        if chunks < dict_max as u128 && dict.len() as u128 + 2 * chunks < dict_max as u128 {
            proof {
                lemma_total_len(w, input);
            }
            match crunchy_chunky(&work, dict_overhead) {
                Some(m) => {
                    proof {
                        assert(has_best(w.tracks, dict_overhead as int));
                        lemma_best_is_unique(
                            w.tracks,
                            dict_overhead as int,
                            m@,
                            the_best(w.tracks, dict_overhead as int),
                        );
                        lemma_step(w, m@, input);
                        assert(is_candidate(w.tracks, m@));
                        assert(w.tracks[m.track as int][m.piece as int]
                            == work@[m.track as int]@[m.piece as int]@);
                    }
                    let pattern = match &work[m.track][m.piece] {
                        Span::Chunk(items) => {
                            assert(items.len() == items@.len());
                            copy_range(items, m.start, m.start + m.length)
                        },
                        Span::Pattern(_) => {
                            proof {
                                assert(false);
                            }
                            Vec::new()
                        },
                    };
                    assert(pattern@ == content(w.tracks, m@));
                    let index = dict.len();
                    let split = split_tracks(&work, &pattern, index);
                    proof {
                        lemma_rows_push(dict@, pattern);
                    }
                    work = split;
                    dict.push(pattern);
                    assert((Work { dict: rows(dict@), tracks: layout(work@) }) == step(w, m@));
                },
                None => {
                    proof {
                        assert forall|c: Candidate| !is_best(
                            w.tracks,
                            dict_overhead as int,
                            c,
                        ) by {
                            assert(!qualifies(w.tracks, dict_overhead as int, c));
                        }
                    }
                    done = true;
                },
            }
        } else {
            done = true;
        }
    }
    let ghost last = Work { dict: rows(dict@), tracks: layout(work@) };
    let out = seal_tracks(&work, dict);
    proof {
        lemma_seal_len(last.tracks, last.dict);
        assert(rows(out.0@).len() == out.0.len());
        lemma_seal(last.tracks, last.dict);
        assert(unfold(rows(out.0@), rows(out.1@)) =~= input);
    }
    out
}

/// Compression is sound wherever its pattern numbers fit the machine: the
/// tracks that it gives name only patterns of its dictionary, and expand
/// to the tracks that went in.
pub proof fn lemma_crunch_round_trip<T>(tracks: Seq<Seq<T>>, dict_max: int, overhead: int)
    requires
        crunch_result(tracks, dict_max, overhead).0.len() <= usize::MAX,
    ensures
        indices_in_range(
            crunch_result(tracks, dict_max, overhead).1,
            crunch_result(tracks, dict_max, overhead).0.len() as int,
        ),
        unfold(
            crunch_result(tracks, dict_max, overhead).0,
            crunch_result(tracks, dict_max, overhead).1,
        ) == tracks,
{
    let first = initial_work(tracks);
    let last = crunch_steps(first, dict_max, overhead);
    assert forall|t: int| 0 <= t < tracks.len() implies flatten(
        #[trigger] first.tracks[t],
        first.dict,
    ) == tracks[t] by {
        if tracks[t].len() > 0 {
            lemma_flatten_one(Piece::Chunk(tracks[t]), first.dict);
        }
    }
    lemma_seal_len(last.tracks, last.dict);
    lemma_crunch_steps(first, dict_max, overhead, tracks);
    lemma_seal(last.tracks, last.dict);
    assert(unfold(seal(last.tracks, last.dict).0, seal(last.tracks, last.dict).1) =~= tracks);
}

/// Pattern making keeps the state in order, and never drops a pattern.
proof fn lemma_crunch_steps<T>(w: Work<T>, dict_max: int, overhead: int, input: Seq<Seq<T>>)
    requires
        well_formed(w, input),
        crunch_steps(w, dict_max, overhead).dict.len() <= usize::MAX,
    ensures
        well_formed(crunch_steps(w, dict_max, overhead), input),
        w.dict.len() <= crunch_steps(w, dict_max, overhead).dict.len(),
    decreases dict_max - w.dict.len(),
{
    if w.dict.len() + 2 * chunk_count(w.tracks) < dict_max && has_best(w.tracks, overhead) {
        let c = the_best(w.tracks, overhead);
        lemma_crunch_steps_grow(step(w, c), dict_max, overhead);
        lemma_step(w, c, input);
        lemma_crunch_steps(step(w, c), dict_max, overhead, input);
    }
}

proof fn lemma_crunch_steps_grow<T>(w: Work<T>, dict_max: int, overhead: int)
    ensures
        w.dict.len() <= crunch_steps(w, dict_max, overhead).dict.len(),
    decreases dict_max - w.dict.len(),
{
    if w.dict.len() + 2 * chunk_count(w.tracks) < dict_max && has_best(w.tracks, overhead) {
        lemma_crunch_steps_grow(step(w, the_best(w.tracks, overhead)), dict_max, overhead);
    }
}

/// Compression is a function of its input: two runs on the same tracks,
/// with the same limit and the same cost, give the same dictionary and the
/// same tracks.
pub proof fn lemma_crunch_is_deterministic<T>(
    tracks: Seq<Seq<T>>,
    dict_max: int,
    overhead: int,
    first: (Vec<Vec<T>>, Vec<Vec<usize>>),
    second: (Vec<Vec<T>>, Vec<Vec<usize>>),
)
    requires
        (rows(first.0@), rows(first.1@)) == crunch_result(tracks, dict_max, overhead),
        (rows(second.0@), rows(second.1@)) == crunch_result(tracks, dict_max, overhead),
    ensures
        rows(first.0@) == rows(second.0@),
        rows(first.1@) == rows(second.1@),
{
}

} // verus!
