//! The singing queue: who sings next, reordering, and playtime prediction.
use crate::clock::{new_entry_id, now_nanos};
use crate::songs::Song;
use std::collections::HashSet;
use vstd::prelude::*;

verus! {

broadcast use vstd::std_specs::hash::group_hash_axioms;

/// Earliest instant kept in a prediction: 0000-01-01T00:00:00Z, in nanoseconds.
pub const MIN_INSTANT: i128 = -62167219200_000_000_000;

/// Latest instant kept in a prediction: 9999-12-31T23:59:59.999999999Z, in nanoseconds.
pub const MAX_INSTANT: i128 = 253402300799_999_999_999;

/// Breaks of this length or longer are not counted as intermissions (five minutes).
pub const MAX_INTERMISSION: i128 = 300_000_000_000;

/// Nanoseconds in a millisecond.
pub const NANOS_PER_MILLI: i128 = 1_000_000;

/// One queued performance. Instants are nanoseconds since the Unix epoch (UTC).
pub struct PlaylistEntry {
    pub id: u128,
    pub song: i64,
    pub singer: String,
    pub predicted_end: i128,
    pub password: Option<String>,
}

impl PlaylistEntry {
    /// A copy of the entry.
    pub fn duplicate(&self) -> (r: PlaylistEntry)
        ensures
            r == *self,
    {
        let password = match &self.password {
            Some(p) => Some(p.clone()),
            None => None,
        };
        PlaylistEntry {
            id: self.id,
            song: self.song,
            singer: self.singer.clone(),
            predicted_end: self.predicted_end,
            password,
        }
    }
}

/// The persisted part of a playlist: what is playing, what is queued, and the
/// intermission record (total in nanoseconds, and count).
pub struct PlaylistState {
    pub now_playing: Option<PlaylistEntry>,
    pub list: Vec<PlaylistEntry>,
    pub intermission_total: i128,
    pub intermission_count: u64,
}

/// `i` is the first position in `s` whose entry has identifier `id`.
pub open spec fn is_first_index(s: Seq<PlaylistEntry>, id: u128, i: int) -> bool {
    0 <= i < s.len() && s[i].id == id && forall|j: int| 0 <= j < i ==> s[j].id != id
}

/// Some entry of `s` has identifier `id`.
pub open spec fn contains_id(s: Seq<PlaylistEntry>, id: u128) -> bool {
    exists|i: int| 0 <= i < s.len() && s[i].id == id
}

/// No two entries of `s` share an identifier.
pub open spec fn distinct_ids(s: Seq<PlaylistEntry>) -> bool {
    forall|i: int, j: int| 0 <= i < s.len() && 0 <= j < s.len() && i != j ==> s[i].id != s[j].id
}

/// The live entries of a playlist: the one playing, if any, then the queue.
pub open spec fn live_entries(now_playing: Option<PlaylistEntry>, list: Seq<PlaylistEntry>) -> Seq<
    PlaylistEntry,
> {
    match now_playing {
        Some(e) => seq![e] + list,
        None => list,
    }
}

/// `a` and `b` hold the same performances in the same order; only predicted
/// end times may differ.
pub open spec fn same_but_times(a: Seq<PlaylistEntry>, b: Seq<PlaylistEntry>) -> bool {
    a.len() == b.len() && forall|i: int|
        0 <= i < a.len() ==> {
            &&& #[trigger] a[i].id == b[i].id
            &&& a[i].song == b[i].song
            &&& a[i].singer == b[i].singer
            &&& a[i].password == b[i].password
        }
}

/// The queue after moving the entry at `i` to stand right after the entry at `j`.
pub open spec fn moved_after(s: Seq<PlaylistEntry>, i: int, j: int) -> Seq<PlaylistEntry> {
    if i < j {
        s.remove(i).insert(j, s[i])
    } else {
        s.remove(i).insert(j + 1, s[i])
    }
}

/// The queue after exchanging the entries at `i` and `j`.
pub open spec fn swapped(s: Seq<PlaylistEntry>, i: int, j: int) -> Seq<PlaylistEntry> {
    s.update(i, s[j]).update(j, s[i])
}

/// The queue after moving the entry at `i` to the head.
pub open spec fn moved_top(s: Seq<PlaylistEntry>, i: int) -> Seq<PlaylistEntry> {
    s.remove(i).insert(0, s[i])
}

/// `t` clamped to the instants that a prediction may hold.
pub open spec fn clamp_instant(t: int) -> int {
    if t < MIN_INSTANT {
        MIN_INSTANT as int
    } else if t > MAX_INSTANT {
        MAX_INSTANT as int
    } else {
        t
    }
}

/// The end of a song of length `duration` that starts `gap` after `prev`.
pub open spec fn next_end(prev: int, gap: int, duration: int) -> int {
    clamp_instant(clamp_instant(prev + gap) + duration)
}

/// The average intermission: `total / count` rounded toward zero, or zero
/// when nothing has been counted.
pub open spec fn average_intermission(total: int, count: int) -> int {
    if count <= 0 {
        0
    } else if total >= 0 {
        total / count
    } else {
        -((-total) / count)
    }
}

/// The length, in nanoseconds, of song `row` according to the first song in
/// `songs` with that row id, or zero if there is none.
pub open spec fn duration_of(songs: Seq<Song>, row: i64) -> int
    decreases songs.len(),
{
    if songs.len() == 0 {
        0
    } else if songs[0].row_id == row {
        songs[0].duration_ms * NANOS_PER_MILLI
    } else {
        duration_of(songs.drop_first(), row)
    }
}

/// The predicted end of each queued entry. The head ends its song's length
/// after `now` when nothing is playing, or after the playing entry's end plus
/// the average intermission; each later entry ends the average intermission
/// plus its song's length after its predecessor.
pub open spec fn predicted_ends(
    list: Seq<PlaylistEntry>,
    songs: Seq<Song>,
    playing_end: Option<i128>,
    now: int,
    avg: int,
) -> Seq<int>
    decreases list.len(),
{
    if list.len() == 0 {
        Seq::empty()
    } else {
        let before = predicted_ends(list.drop_last(), songs, playing_end, now, avg);
        let duration = duration_of(songs, list.last().song);
        let end = if list.len() == 1 {
            match playing_end {
                None => next_end(now, 0, duration),
                Some(t) => next_end(t as int, avg, duration),
            }
        } else {
            next_end(before.last(), avg, duration)
        };
        before.push(end)
    }
}

proof fn lemma_predicted_ends_len(
    list: Seq<PlaylistEntry>,
    songs: Seq<Song>,
    playing_end: Option<i128>,
    now: int,
    avg: int,
)
    ensures
        predicted_ends(list, songs, playing_end, now, avg).len() == list.len(),
    decreases list.len(),
{
    if list.len() > 0 {
        lemma_predicted_ends_len(list.drop_last(), songs, playing_end, now, avg);
    }
}

/// Whether the break from `old_end` to `now` is counted as an intermission:
/// it is not negative, shorter than five minutes, and the record can hold it.
pub open spec fn counts_as_intermission(old_end: int, now: int, total: int, count: int) -> bool {
    let delta = now - old_end;
    0 <= delta < MAX_INTERMISSION && total + delta <= i128::MAX && count < u64::MAX
}

proof fn lemma_distinct_by_injection(
    a: Seq<PlaylistEntry>,
    b: Seq<PlaylistEntry>,
    f: spec_fn(int) -> int,
)
    requires
        distinct_ids(a),
        forall|k: int| 0 <= k < b.len() ==> 0 <= #[trigger] f(k) < a.len() && b[k].id == a[f(k)].id,
        forall|k1: int, k2: int|
            0 <= k1 < b.len() && 0 <= k2 < b.len() && k1 != k2 ==> #[trigger] f(k1) != #[trigger] f(k2),
    ensures
        distinct_ids(b),
{
    assert forall|k1: int, k2: int|
        0 <= k1 < b.len() && 0 <= k2 < b.len() && k1 != k2 implies b[k1].id != b[k2].id by {
        assert(f(k1) != f(k2));
        assert(b[k1].id == a[f(k1)].id);
        assert(b[k2].id == a[f(k2)].id);
    }
}

/// Rearranging the queue by an injective choice of positions keeps the live
/// identifiers distinct.
proof fn lemma_queue_rearranged(
    np: Option<PlaylistEntry>,
    s: Seq<PlaylistEntry>,
    t: Seq<PlaylistEntry>,
    f: spec_fn(int) -> int,
)
    requires
        distinct_ids(live_entries(np, s)),
        forall|k: int| 0 <= k < t.len() ==> 0 <= #[trigger] f(k) < s.len() && t[k].id == s[f(k)].id,
        forall|k1: int, k2: int|
            0 <= k1 < t.len() && 0 <= k2 < t.len() && k1 != k2 ==> #[trigger] f(k1) != #[trigger] f(k2),
    ensures
        distinct_ids(live_entries(np, t)),
{
    let a = live_entries(np, s);
    let b = live_entries(np, t);
    let o: int = if np is Some { 1 } else { 0 };
    let g = |k: int| if k < o { k } else { f(k - o) + o };
    assert forall|k: int| 0 <= k < b.len() implies 0 <= #[trigger] g(k) < a.len() && b[k].id == a[g(k)].id by {
        if k >= o {
            assert(f(k - o) == f(k - o));
        }
    }
    assert forall|k1: int, k2: int|
        0 <= k1 < b.len() && 0 <= k2 < b.len() && k1 != k2 implies #[trigger] g(k1) != #[trigger] g(k2) by {
        if k1 >= o && k2 >= o {
            assert(f(k1 - o) != f(k2 - o));
        } else if k1 >= o {
            assert(f(k1 - o) >= 0);
        } else if k2 >= o {
            assert(f(k2 - o) >= 0);
        }
    }
    lemma_distinct_by_injection(a, b, g);
}

/// Every entry of the reconciled queue is an entry of the queue, and its
/// identifiers stay distinct.
proof fn lemma_reconciled_entries(s: Seq<PlaylistEntry>, valid: Set<i64>)
    ensures
        forall|k: int|
            0 <= k < reconciled(s, valid).len() ==> exists|i: int|
                0 <= i < s.len() && #[trigger] reconciled(s, valid)[k] == s[i],
        distinct_ids(s) ==> distinct_ids(reconciled(s, valid)),
    decreases s.len(),
{
    reveal(Seq::filter);
    if s.len() > 0 {
        let rest = s.drop_last();
        lemma_reconciled_entries(rest, valid);
        let r = reconciled(rest, valid);
        assert forall|k: int| 0 <= k < r.len() implies exists|i: int|
            0 <= i < s.len() && #[trigger] r[k] == s[i] by {
            let i = choose|i: int| 0 <= i < rest.len() && r[k] == rest[i];
            assert(r[k] == s[i]);
        }
        if distinct_ids(s) {
            assert(distinct_ids(rest)) by {
                assert forall|a: int, b: int|
                    0 <= a < rest.len() && 0 <= b < rest.len() && a != b implies rest[a].id
                    != rest[b].id by {
                    assert(rest[a] == s[a] && rest[b] == s[b]);
                }
            }
            if valid.contains(s.last().song) {
                let t = r.push(s.last());
                assert forall|a: int, b: int|
                    0 <= a < t.len() && 0 <= b < t.len() && a != b implies t[a].id != t[b].id by {
                    if a == r.len() && b < r.len() {
                        let i = choose|i: int| 0 <= i < rest.len() && r[b] == rest[i];
                        assert(rest[i] == s[i]);
                    } else if b == r.len() && a < r.len() {
                        let i = choose|i: int| 0 <= i < rest.len() && r[a] == rest[i];
                        assert(rest[i] == s[i]);
                    }
                }
            }
        }
    }
}

/// Rearranging the queue by a choice of positions keeps every song valid.
proof fn lemma_songs_rearranged(
    valid: Set<i64>,
    s: Seq<PlaylistEntry>,
    t: Seq<PlaylistEntry>,
    f: spec_fn(int) -> int,
)
    requires
        forall|k: int| 0 <= k < t.len() ==> 0 <= #[trigger] f(k) < s.len() && t[k].song == s[f(k)].song,
    ensures
        (forall|i: int| 0 <= i < s.len() ==> valid.contains(#[trigger] s[i].song)) ==> forall|k: int|
            0 <= k < t.len() ==> valid.contains(#[trigger] t[k].song),
{
    if forall|i: int| 0 <= i < s.len() ==> valid.contains(#[trigger] s[i].song) {
        assert forall|k: int| 0 <= k < t.len() implies valid.contains(#[trigger] t[k].song) by {
            assert(t[k].song == s[f(k)].song);
        }
    }
}

/// A shared singing queue over a fixed set of valid songs.
pub struct Playlist {
    valid_songs: HashSet<i64>,
    now_playing: Option<PlaylistEntry>,
    list: Vec<PlaylistEntry>,
    intermission_total: i128,
    intermission_count: u64,
}

impl Playlist {
    /// The row ids of the songs that may be queued.
    pub closed spec fn valid(&self) -> Set<i64> {
        self.valid_songs@
    }

    /// The entry being sung, if any.
    pub closed spec fn playing(&self) -> Option<PlaylistEntry> {
        self.now_playing
    }

    /// The queue, head first.
    pub closed spec fn queue(&self) -> Seq<PlaylistEntry> {
        self.list@
    }

    /// The sum of the counted intermissions, in nanoseconds.
    pub closed spec fn total(&self) -> int {
        self.intermission_total as int
    }

    /// The number of counted intermissions.
    pub closed spec fn count(&self) -> int {
        self.intermission_count as int
    }

    /// Every live entry refers to a valid song.
    pub open spec fn songs_valid(&self) -> bool {
        &&& forall|i: int| 0 <= i < self.queue().len() ==> self.valid().contains(#[trigger] self.queue()[i].song)
        &&& self.playing() matches Some(e) ==> self.valid().contains(e.song)
    }

    /// No two live entries share an identifier.
    pub open spec fn ids_distinct(&self) -> bool {
        distinct_ids(live_entries(self.playing(), self.queue()))
    }

    /// An empty playlist over the given valid songs.
    pub fn new(valid_songs: HashSet<i64>) -> (r: Playlist)
        ensures
            r.valid() == valid_songs@,
            r.playing() is None,
            r.queue() == Seq::<PlaylistEntry>::empty(),
            r.total() == 0,
            r.count() == 0,
    {
        Playlist {
            valid_songs,
            now_playing: None,
            list: Vec::new(),
            intermission_total: 0,
            intermission_count: 0,
        }
    }
}

/// The end of the playing entry, if any.
pub open spec fn playing_end(p: Option<PlaylistEntry>) -> Option<i128> {
    match p {
        Some(e) => Some(e.predicted_end),
        None => None,
    }
}

/// The intermission record after a new song starts at `now`, given the entry
/// that was playing before: `(total, count)`.
pub open spec fn intermission_after(
    previous: Option<PlaylistEntry>,
    now: int,
    total: int,
    count: int,
) -> (int, int) {
    match previous {
        Some(e) => if counts_as_intermission(e.predicted_end as int, now, total, count) {
            (total + (now - e.predicted_end), count + 1)
        } else {
            (total, count)
        },
        None => (total, count),
    }
}

/// `t + d`, clamped to the instants that a prediction may hold.
fn advance(t: i128, d: i128) -> (r: i128)
    ensures
        r == clamp_instant(t + d),
{
    match t.checked_add(d) {
        Some(s) => if s < MIN_INSTANT {
            MIN_INSTANT
        } else if s > MAX_INSTANT {
            MAX_INSTANT
        } else {
            s
        },
        None => if d > 0 {
            MAX_INSTANT
        } else {
            MIN_INSTANT
        },
    }
}

/// The length of song `row` in nanoseconds, by the first matching song.
pub fn song_duration(songs: &Vec<Song>, row: i64) -> (r: i128)
    ensures
        r == duration_of(songs@, row),
{
    let mut j: usize = 0;
    assert(songs@.subrange(0, songs@.len() as int) =~= songs@);
    while j < songs.len()
        invariant
            j <= songs@.len(),
            duration_of(songs@, row) == duration_of(songs@.subrange(j as int, songs@.len() as int), row),
        decreases songs@.len() - j,
    {
        proof {
            let rest = songs@.subrange(j as int, songs@.len() as int);
            assert(rest.drop_first() =~= songs@.subrange(j as int + 1, songs@.len() as int));
        }
        if songs[j].row_id == row {
            return (songs[j].duration_ms as i128) * NANOS_PER_MILLI;
        }
        j = j + 1;
    }
    0
}

impl Playlist {
    /// The first position of `id` in the queue.
    fn find(&self, id: u128) -> (r: Option<usize>)
        ensures
            match r {
                Some(i) => is_first_index(self.queue(), id, i as int),
                None => !contains_id(self.queue(), id),
            },
    {
        let mut i: usize = 0;
        while i < self.list.len()
            invariant
                i <= self.list@.len(),
                forall|j: int| 0 <= j < i ==> self.list@[j].id != id,
            decreases self.list@.len() - i,
        {
            if self.list[i].id == id {
                return Some(i);
            }
            i = i + 1;
        }
        None
    }

    /// The average intermission in nanoseconds.
    pub fn average_intermission(&self) -> (r: i128)
        ensures
            r == average_intermission(self.total(), self.count()),
    {
        let count = self.intermission_count;
        let total = self.intermission_total;
        if count == 0 {
            0
        } else if total >= 0 {
            ((total as u128) / (count as u128)) as i128
        } else {
            let magnitude: u128 = ((-(total + 1)) as u128) + 1;
            assert(magnitude == -total);
            let q: u128 = magnitude / (count as u128);
            assert(q <= magnitude) by (nonlinear_arith)
                requires
                    count >= 1,
                    q == magnitude / (count as u128),
            ;
            if q > (i128::MAX as u128) {
                i128::MIN
            } else {
                -(q as i128)
            }
        }
    }

    /// The row id the entry being sung refers to, if any.
    pub fn now_playing_song(&self) -> (r: Option<i64>)
        ensures
            r == match self.playing() {
                Some(e) => Some(e.song),
                None => None::<i64>,
            },
    {
        match &self.now_playing {
            Some(e) => Some(e.song),
            None => None,
        }
    }

    /// Removes the first entry with identifier `id` from the queue; reports
    /// whether there was one.
    pub fn remove(&mut self, id: u128) -> (r: bool)
        ensures
            r == contains_id(old(self).queue(), id),
            r ==> exists|i: int|
                is_first_index(old(self).queue(), id, i) && final(self).queue() == old(
                    self,
                ).queue().remove(i),
            !r ==> final(self).queue() == old(self).queue(),
            final(self).playing() == old(self).playing(),
            final(self).valid() == old(self).valid(),
            old(self).songs_valid() ==> final(self).songs_valid(),
            old(self).ids_distinct() ==> final(self).ids_distinct(),
            final(self).total() == old(self).total(),
            final(self).count() == old(self).count(),
    {
        match self.find(id) {
            Some(i) => {
                self.list.remove(i);
                proof {
                    let f = |k: int| if k < i { k } else { k + 1 };
                    if old(self).ids_distinct() {
                        lemma_queue_rearranged(self.now_playing, old(self).list@, self.list@, f);
                    }
                    lemma_songs_rearranged(self.valid_songs@, old(self).list@, self.list@, f);
                }
                true
            },
            None => false,
        }
    }

    /// Removes the first entry with identifier `id` if it was queued with
    /// exactly the password `password`; reports whether it was removed.
    pub fn remove_if_password_correct(&mut self, id: u128, password: &String) -> (r: bool)
        ensures
            r == exists|i: int|
                is_first_index(old(self).queue(), id, i) && old(self).queue()[i].password is Some
                    && old(self).queue()[i].password->0@ == password@,
            r ==> exists|i: int|
                is_first_index(old(self).queue(), id, i) && final(self).queue() == old(
                    self,
                ).queue().remove(i),
            !r ==> final(self).queue() == old(self).queue(),
            final(self).playing() == old(self).playing(),
            final(self).valid() == old(self).valid(),
            old(self).songs_valid() ==> final(self).songs_valid(),
            old(self).ids_distinct() ==> final(self).ids_distinct(),
            final(self).total() == old(self).total(),
            final(self).count() == old(self).count(),
    {
        match self.find(id) {
            Some(i) => {
                let matches = match &self.list[i].password {
                    Some(p) => p.eq(password),
                    None => false,
                };
                assert(matches == (old(self).queue()[i as int].password is Some && old(
                    self,
                ).queue()[i as int].password->0@ == password@));
                if matches {
                    self.list.remove(i);
                    assert(is_first_index(old(self).queue(), id, i as int));
                    proof {
                        let f = |k: int| if k < i { k } else { k + 1 };
                        if old(self).ids_distinct() {
                            lemma_queue_rearranged(self.now_playing, old(self).list@, self.list@, f);
                        }
                        lemma_songs_rearranged(self.valid_songs@, old(self).list@, self.list@, f);
                    }
                }
                proof {
                    assert forall|k: int| is_first_index(old(self).queue(), id, k) implies k == i by {
                        if k < i {
                            assert(old(self).queue()[k].id == id);
                        } else if k > i {
                            assert(old(self).queue()[i as int].id == id);
                        }
                    }
                }
                matches
            },
            None => false,
        }
    }

    /// Exchanges the queue positions of `id1` and `id2`. Nothing changes, and
    /// `false` is returned, when the two are equal or either is not queued.
    pub fn swap(&mut self, id1: u128, id2: u128) -> (r: bool)
        ensures
            r == (id1 != id2 && contains_id(old(self).queue(), id1) && contains_id(
                old(self).queue(),
                id2,
            )),
            r ==> exists|i: int, j: int|
                is_first_index(old(self).queue(), id1, i) && is_first_index(
                    old(self).queue(),
                    id2,
                    j,
                ) && final(self).queue() == swapped(old(self).queue(), i, j),
            !r ==> final(self).queue() == old(self).queue(),
            final(self).playing() == old(self).playing(),
            final(self).valid() == old(self).valid(),
            old(self).songs_valid() ==> final(self).songs_valid(),
            old(self).ids_distinct() ==> final(self).ids_distinct(),
            final(self).total() == old(self).total(),
            final(self).count() == old(self).count(),
    {
        if id1 == id2 {
            return false;
        }
        match self.find(id1) {
            Some(i) => match self.find(id2) {
                Some(j) => {
                    let a = self.list[i].duplicate();
                    let b = self.list[j].duplicate();
                    self.list.set(i, b);
                    self.list.set(j, a);
                    proof {
                        let f = |k: int| if k == i { j as int } else if k == j { i as int } else { k };
                        if old(self).ids_distinct() {
                            lemma_queue_rearranged(self.now_playing, old(self).list@, self.list@, f);
                        }
                        lemma_songs_rearranged(self.valid_songs@, old(self).list@, self.list@, f);
                    }
                    assert(is_first_index(old(self).queue(), id1, i as int) && is_first_index(
                        old(self).queue(),
                        id2,
                        j as int,
                    ) && final(self).queue() == swapped(old(self).queue(), i as int, j as int));
                    true
                },
                None => false,
            },
            None => false,
        }
    }

    /// Moves `id` to stand right after `after`. Nothing changes, and `false`
    /// is returned, when the two are equal or either is not queued.
    pub fn move_after(&mut self, id: u128, after: u128) -> (r: bool)
        ensures
            r == (id != after && contains_id(old(self).queue(), id) && contains_id(
                old(self).queue(),
                after,
            )),
            r ==> exists|i: int, j: int|
                is_first_index(old(self).queue(), id, i) && is_first_index(
                    old(self).queue(),
                    after,
                    j,
                ) && final(self).queue() == moved_after(old(self).queue(), i, j),
            r ==> exists|k: int|
                0 <= k && k + 1 < final(self).queue().len() && #[trigger] final(self).queue()[k].id == after
                    && final(self).queue()[k + 1].id == id,
            !r ==> final(self).queue() == old(self).queue(),
            final(self).playing() == old(self).playing(),
            final(self).valid() == old(self).valid(),
            old(self).songs_valid() ==> final(self).songs_valid(),
            old(self).ids_distinct() ==> final(self).ids_distinct(),
            final(self).total() == old(self).total(),
            final(self).count() == old(self).count(),
    {
        if id == after {
            return false;
        }
        match self.find(id) {
            Some(i) => match self.find(after) {
                Some(j) => {
                    let entry = self.list.remove(i);
                    if i < j {
                        self.list.insert(j, entry);
                    } else {
                        self.list.insert(j + 1, entry);
                    }
                    assert(self.list@ =~= moved_after(old(self).list@, i as int, j as int));
                    if i < j {
                        assert(self.queue()[j - 1].id == after && self.queue()[j as int].id == id);
                    } else {
                        assert(self.queue()[j as int].id == after && self.queue()[j + 1].id == id);
                    }
                    proof {
                        if old(self).ids_distinct() {
                            if i < j {
                                let f = |k: int|
                                    if k < i {
                                        k
                                    } else if k < j {
                                        k + 1
                                    } else if k == j {
                                        i as int
                                    } else {
                                        k
                                    };
                                lemma_queue_rearranged(self.now_playing, old(self).list@, self.list@, f);
                                lemma_songs_rearranged(self.valid_songs@, old(self).list@, self.list@, f);
                            } else {
                                let f = |k: int|
                                    if k <= j {
                                        k
                                    } else if k == j + 1 {
                                        i as int
                                    } else if k <= i {
                                        k - 1
                                    } else {
                                        k
                                    };
                                lemma_queue_rearranged(self.now_playing, old(self).list@, self.list@, f);
                                lemma_songs_rearranged(self.valid_songs@, old(self).list@, self.list@, f);
                            }
                        }
                    }
                    assert(is_first_index(old(self).queue(), id, i as int) && is_first_index(
                        old(self).queue(),
                        after,
                        j as int,
                    ));
                    true
                },
                None => false,
            },
            None => false,
        }
    }

    /// Moves `id` to the head of the queue; reports whether it was queued.
    pub fn move_top(&mut self, id: u128) -> (r: bool)
        ensures
            r == contains_id(old(self).queue(), id),
            r ==> exists|i: int|
                is_first_index(old(self).queue(), id, i) && final(self).queue() == moved_top(
                    old(self).queue(),
                    i,
                ),
            !r ==> final(self).queue() == old(self).queue(),
            final(self).playing() == old(self).playing(),
            final(self).valid() == old(self).valid(),
            old(self).songs_valid() ==> final(self).songs_valid(),
            old(self).ids_distinct() ==> final(self).ids_distinct(),
            final(self).total() == old(self).total(),
            final(self).count() == old(self).count(),
    {
        match self.find(id) {
            Some(i) => {
                let entry = self.list.remove(i);
                self.list.insert(0, entry);
                assert(self.list@ =~= moved_top(old(self).list@, i as int));
                proof {
                    let f = |k: int| if k == 0 { i as int } else if k <= i { k - 1 } else { k };
                    if old(self).ids_distinct() {
                        lemma_queue_rearranged(self.now_playing, old(self).list@, self.list@, f);
                    }
                    lemma_songs_rearranged(self.valid_songs@, old(self).list@, self.list@, f);
                }
                assert(is_first_index(old(self).queue(), id, i as int));
                true
            },
            None => false,
        }
    }
}

/// Each entry of `list` ends at the instant that `ends` gives for its position.
pub open spec fn ends_predicted(list: Seq<PlaylistEntry>, ends: Seq<int>) -> bool {
    forall|i: int| 0 <= i < list.len() ==> #[trigger] list[i].predicted_end == ends[i]
}

/// `list` without the entries whose song is not in `valid`.
pub open spec fn reconciled(list: Seq<PlaylistEntry>, valid: Set<i64>) -> Seq<PlaylistEntry> {
    list.filter(|e: PlaylistEntry| valid.contains(e.song))
}

impl Playlist {
    /// Builds a playlist from a persisted state, dropping every entry whose
    /// song is no longer valid (the playing one included).
    pub fn load(state: PlaylistState, valid_songs: HashSet<i64>) -> (r: Playlist)
        ensures
            r.valid() == valid_songs@,
            r.queue() == reconciled(state.list@, valid_songs@),
            r.playing() == match state.now_playing {
                Some(e) => if valid_songs@.contains(e.song) {
                    Some(e)
                } else {
                    None
                },
                None => None,
            },
            r.total() == state.intermission_total,
            r.count() == state.intermission_count,
            r.songs_valid(),
            distinct_ids(live_entries(state.now_playing, state.list@)) ==> r.ids_distinct(),
    {
        let mut kept: Vec<PlaylistEntry> = Vec::new();
        let mut i: usize = 0;
        while i < state.list.len()
            invariant
                i <= state.list@.len(),
                kept@ == reconciled(state.list@.subrange(0, i as int), valid_songs@),
            decreases state.list@.len() - i,
        {
            proof {
                let next = state.list@.subrange(0, i as int + 1);
                assert(next.drop_last() =~= state.list@.subrange(0, i as int));
                reveal(Seq::filter);
            }
            if valid_songs.contains(&state.list[i].song) {
                kept.push(state.list[i].duplicate());
            }
            i = i + 1;
        }
        assert(state.list@.subrange(0, state.list@.len() as int) =~= state.list@);
        proof {
            lemma_reconciled_entries(state.list@, valid_songs@);
            let live = live_entries(state.now_playing, state.list@);
            if distinct_ids(live) {
                assert(distinct_ids(state.list@)) by {
                    if state.now_playing is Some {
                        assert forall|a: int, b: int|
                            0 <= a < state.list@.len() && 0 <= b < state.list@.len() && a != b implies
                            state.list@[a].id != state.list@[b].id by {
                            assert(live[a + 1] == state.list@[a] && live[b + 1] == state.list@[b]);
                        }
                    }
                }
                if state.now_playing is Some {
                    let e = state.now_playing->0;
                    let kept = reconciled(state.list@, valid_songs@);
                    let after = seq![e] + kept;
                    assert forall|a: int, b: int|
                        0 <= a < after.len() && 0 <= b < after.len() && a != b implies after[a].id
                        != after[b].id by {
                        assert(live[0] == e);
                        if a == 0 && b > 0 {
                            let i = choose|i: int| 0 <= i < state.list@.len() && #[trigger] kept[b - 1] == state.list@[i];
                            assert(live[i + 1] == state.list@[i]);
                            assert(after[b] == kept[b - 1]);
                        } else if b == 0 && a > 0 {
                            let i = choose|i: int| 0 <= i < state.list@.len() && #[trigger] kept[a - 1] == state.list@[i];
                            assert(live[i + 1] == state.list@[i]);
                            assert(after[a] == kept[a - 1]);
                        } else {
                            assert(after[a] == kept[a - 1] && after[b] == kept[b - 1]);
                        }
                    }
                }
            }
        }
        let now_playing = match state.now_playing {
            Some(e) => if valid_songs.contains(&e.song) {
                Some(e)
            } else {
                None
            },
            None => None,
        };
        Playlist {
            valid_songs,
            now_playing,
            list: kept,
            intermission_total: state.intermission_total,
            intermission_count: state.intermission_count,
        }
    }

    /// A copy of the persisted part: what is playing, the queue and the
    /// intermission record.
    pub fn state(&self) -> (r: PlaylistState)
        ensures
            r.now_playing == self.playing(),
            r.list@ == self.queue(),
            r.intermission_total == self.total(),
            r.intermission_count == self.count(),
    {
        let mut list: Vec<PlaylistEntry> = Vec::new();
        let mut i: usize = 0;
        while i < self.list.len()
            invariant
                i <= self.list@.len(),
                list@ == self.list@.subrange(0, i as int),
            decreases self.list@.len() - i,
        {
            list.push(self.list[i].duplicate());
            assert(list@ =~= self.list@.subrange(0, i as int + 1));
            i = i + 1;
        }
        assert(list@ =~= self.list@);
        let now_playing = match &self.now_playing {
            Some(e) => Some(e.duplicate()),
            None => None,
        };
        PlaylistState {
            now_playing,
            list,
            intermission_total: self.intermission_total,
            intermission_count: self.intermission_count,
        }
    }

    /// The row ids of the queued songs, head first.
    pub fn queued_songs(&self) -> (r: Vec<i64>)
        ensures
            r@.len() == self.queue().len(),
            forall|i: int| 0 <= i < r@.len() ==> r@[i] == #[trigger] self.queue()[i].song,
    {
        let mut rows: Vec<i64> = Vec::new();
        let mut i: usize = 0;
        while i < self.list.len()
            invariant
                i <= self.list@.len(),
                rows@.len() == i,
                forall|k: int| 0 <= k < i ==> rows@[k] == #[trigger] self.list@[k].song,
            decreases self.list@.len() - i,
        {
            rows.push(self.list[i].song);
            i = i + 1;
        }
        rows
    }

    /// Whether `song` may be queued.
    pub fn is_valid_song(&self, song: i64) -> (r: bool)
        ensures
            r == self.valid().contains(song),
    {
        self.valid_songs.contains(&song)
    }

    /// Appends an entry with identifier `id` for a valid `song`, its predicted
    /// end provisionally `now`; reports whether the song was valid.
    pub fn add_entry(
        &mut self,
        id: u128,
        song: i64,
        singer: String,
        password: Option<String>,
        now: i128,
    ) -> (r: bool)
        ensures
            r == old(self).valid().contains(song),
            r ==> final(self).queue() == old(self).queue().push(
                PlaylistEntry { id, song, singer, predicted_end: now, password },
            ),
            !r ==> final(self).queue() == old(self).queue(),
            final(self).playing() == old(self).playing(),
            final(self).valid() == old(self).valid(),
            old(self).songs_valid() ==> final(self).songs_valid(),
            old(self).ids_distinct() && !contains_id(live_entries(old(self).playing(), old(self).queue()), id)
                ==> final(self).ids_distinct(),
            final(self).total() == old(self).total(),
            final(self).count() == old(self).count(),
    {
        if !self.valid_songs.contains(&song) {
            return false;
        }
        self.list.push(PlaylistEntry { id, song, singer, predicted_end: now, password });
        proof {
            let a = live_entries(old(self).now_playing, old(self).list@);
            let b = live_entries(self.now_playing, self.list@);
            assert(b =~= a.push(self.list@.last()));
            if old(self).ids_distinct() && !contains_id(a, id) {
                assert forall|k1: int, k2: int|
                    0 <= k1 < b.len() && 0 <= k2 < b.len() && k1 != k2 implies b[k1].id != b[k2].id by {
                    if k1 == a.len() {
                        assert(a[k2].id != id);
                    } else if k2 == a.len() {
                        assert(a[k1].id != id);
                    }
                }
            }
        }
        true
    }

    /// Queues a valid `song` under a fresh random identifier, which is
    /// returned; `None`, and nothing changes, when the song is not valid.
    pub fn add(&mut self, song: i64, singer: String, password: Option<String>) -> (r: Option<u128>)
        ensures
            r is Some == old(self).valid().contains(song),
            r matches Some(id) ==> {
                &&& final(self).queue().len() == old(self).queue().len() + 1
                &&& final(self).queue().drop_last() == old(self).queue()
                &&& final(self).queue().last().id == id
                &&& final(self).queue().last().song == song
                &&& final(self).queue().last().singer == singer
                &&& final(self).queue().last().password == password
            },
            r is None ==> final(self).queue() == old(self).queue(),
            final(self).playing() == old(self).playing(),
            final(self).valid() == old(self).valid(),
            old(self).songs_valid() ==> final(self).songs_valid(),
            final(self).total() == old(self).total(),
            final(self).count() == old(self).count(),
    {
        if !self.valid_songs.contains(&song) {
            return None;
        }
        let id = new_entry_id();
        let now = now_nanos();
        self.add_entry(id, song, singer, password, now);
        assert(self.list@.drop_last() =~= old(self).list@);
        Some(id)
    }

    fn record_intermission(&mut self, old_end: i128, now: i128)
        ensures
            (final(self).total(), final(self).count()) == intermission_after(
                Some(PlaylistEntry { predicted_end: old_end, ..arbitrary() }),
                now as int,
                old(self).total(),
                old(self).count(),
            ),
            final(self).queue() == old(self).queue(),
            final(self).playing() == old(self).playing(),
            final(self).valid() == old(self).valid(),
    {
        match now.checked_sub(old_end) {
            Some(delta) => {
                if 0 <= delta && delta < MAX_INTERMISSION && self.intermission_count < u64::MAX {
                    match self.intermission_total.checked_add(delta) {
                        Some(total) => {
                            self.intermission_total = total;
                            self.intermission_count = self.intermission_count + 1;
                        },
                        None => {},
                    }
                }
            },
            None => {},
        }
    }

    /// Makes the first queued entry with identifier `id` the one being sung at
    /// instant `now`, replacing the previous one, whose break before `now` may
    /// count as an intermission; reports whether `id` was queued.
    pub fn play_at(&mut self, id: u128, now: i128) -> (r: bool)
        ensures
            r == contains_id(old(self).queue(), id),
            r ==> exists|i: int|
                is_first_index(old(self).queue(), id, i) && final(self).queue() == old(
                    self,
                ).queue().remove(i) && final(self).playing() == Some(old(self).queue()[i]),
            r ==> (final(self).total(), final(self).count()) == intermission_after(
                old(self).playing(),
                now as int,
                old(self).total(),
                old(self).count(),
            ),
            !r ==> {
                &&& final(self).queue() == old(self).queue()
                &&& final(self).playing() == old(self).playing()
                &&& final(self).total() == old(self).total()
                &&& final(self).count() == old(self).count()
            },
            final(self).valid() == old(self).valid(),
            old(self).songs_valid() ==> final(self).songs_valid(),
            old(self).ids_distinct() ==> final(self).ids_distinct(),
    {
        match self.find(id) {
            Some(i) => {
                let entry = self.list.remove(i);
                let previous_end = match &self.now_playing {
                    Some(e) => Some(e.predicted_end),
                    None => None,
                };
                self.now_playing = Some(entry);
                match previous_end {
                    Some(t) => self.record_intermission(t, now),
                    None => {},
                }
                assert(is_first_index(old(self).queue(), id, i as int));
                proof {
                    if old(self).ids_distinct() {
                        let a = live_entries(old(self).now_playing, old(self).list@);
                        let b = live_entries(self.now_playing, self.list@);
                        let o: int = if old(self).now_playing is Some { 1 } else { 0 };
                        let g = |k: int|
                            if k == 0 {
                                o + i
                            } else if k - 1 < i {
                                o + k - 1
                            } else {
                                o + k
                            };
                        lemma_distinct_by_injection(a, b, g);
                    }
                }
                true
            },
            None => false,
        }
    }

    /// `play_at` at the current instant.
    pub fn play(&mut self, id: u128) -> (r: bool)
        ensures
            r == contains_id(old(self).queue(), id),
            r ==> exists|i: int|
                is_first_index(old(self).queue(), id, i) && final(self).queue() == old(
                    self,
                ).queue().remove(i) && final(self).playing() == Some(old(self).queue()[i]),
            r ==> exists|now: i128|
                (final(self).total(), final(self).count()) == intermission_after(
                    old(self).playing(),
                    now as int,
                    old(self).total(),
                    old(self).count(),
                ),
            !r ==> {
                &&& final(self).queue() == old(self).queue()
                &&& final(self).playing() == old(self).playing()
                &&& final(self).total() == old(self).total()
                &&& final(self).count() == old(self).count()
            },
            final(self).valid() == old(self).valid(),
            old(self).songs_valid() ==> final(self).songs_valid(),
            old(self).ids_distinct() ==> final(self).ids_distinct(),
    {
        let now = now_nanos();
        self.play_at(id, now)
    }

    /// Sets each queued entry's predicted end from the songs' lengths in
    /// `songs`, the average intermission and, for the head, the playing
    /// entry's end or `now`.
    pub fn update_predictions(&mut self, songs: &Vec<Song>, now: i128)
        ensures
            same_but_times(final(self).queue(), old(self).queue()),
            ends_predicted(
                final(self).queue(),
                predicted_ends(
                    old(self).queue(),
                    songs@,
                    playing_end(old(self).playing()),
                    now as int,
                    average_intermission(old(self).total(), old(self).count()),
                ),
            ),
            final(self).playing() == old(self).playing(),
            final(self).valid() == old(self).valid(),
            old(self).songs_valid() ==> final(self).songs_valid(),
            old(self).ids_distinct() ==> final(self).ids_distinct(),
            final(self).total() == old(self).total(),
            final(self).count() == old(self).count(),
    {
        let avg = self.average_intermission();
        let start = match &self.now_playing {
            Some(e) => Some(e.predicted_end),
            None => None,
        };
        let ghost orig = self.list@;
        let ghost ends = predicted_ends(orig, songs@, start, now as int, avg as int);
        let mut prev: i128 = 0;
        let mut i: usize = 0;
        while i < self.list.len()
            invariant
                i <= self.list@.len(),
                same_but_times(self.list@, orig),
                start == playing_end(self.now_playing),
                self.now_playing == old(self).now_playing,
                self.valid_songs@ == old(self).valid_songs@,
                self.intermission_total == old(self).intermission_total,
                self.intermission_count == old(self).intermission_count,
                avg as int == average_intermission(old(self).total(), old(self).count()),
                orig == old(self).list@,
                ends == predicted_ends(orig, songs@, start, now as int, avg as int),
                forall|k: int| 0 <= k < i ==> #[trigger] self.list@[k].predicted_end == predicted_ends(orig.subrange(0, i as int), songs@, start, now as int, avg as int)[k],
                i > 0 ==> prev == predicted_ends(orig.subrange(0, i as int), songs@, start, now as int, avg as int).last(),
            decreases self.list@.len() - i,
        {
            let duration = song_duration(songs, self.list[i].song);
            let end = if i == 0 {
                match start {
                    None => advance(advance(now, 0), duration),
                    Some(t) => advance(advance(t, avg), duration),
                }
            } else {
                advance(advance(prev, avg), duration)
            };
            let ghost before = predicted_ends(orig.subrange(0, i as int), songs@, start, now as int, avg as int);
            proof {
                let next = orig.subrange(0, i as int + 1);
                assert(next.drop_last() =~= orig.subrange(0, i as int));
                assert(next.last() == orig[i as int]);
                assert(self.list@[i as int].id == orig[i as int].id);
                assert(self.list@[i as int].song == orig[i as int].song);
                assert(predicted_ends(next, songs@, start, now as int, avg as int) == before.push(end as int));
            }
            self.list[i].predicted_end = end;
            proof {
                let next = orig.subrange(0, i as int + 1);
                lemma_predicted_ends_len(orig.subrange(0, i as int), songs@, start, now as int, avg as int);
                assert forall|k: int| 0 <= k < i + 1 implies #[trigger] self.list@[k].predicted_end
                    == predicted_ends(next, songs@, start, now as int, avg as int)[k] by {
                    if k < i {
                        assert(before.push(end as int)[k] == before[k]);
                    }
                }
            }
            prev = end;
            i = i + 1;
        }
        proof {
            assert(orig.subrange(0, orig.len() as int) =~= orig);
            let f = |k: int| k;
            assert forall|k: int| 0 <= k < self.list@.len() implies 0 <= #[trigger] f(k) < orig.len()
                && self.list@[k].id == orig[f(k)].id && self.list@[k].song == orig[f(k)].song by {
                assert(self.list@[k].id == orig[k].id);
            }
            if old(self).ids_distinct() {
                lemma_queue_rearranged(self.now_playing, orig, self.list@, f);
            }
            lemma_songs_rearranged(self.valid_songs@, orig, self.list@, f);
        }
    }

    /// `update_predictions` at the current instant.
    pub fn refresh_predictions(&mut self, songs: &Vec<Song>)
        ensures
            same_but_times(final(self).queue(), old(self).queue()),
            exists|now: i128|
                #[trigger] ends_predicted(
                    final(self).queue(),
                    predicted_ends(
                        old(self).queue(),
                        songs@,
                        playing_end(old(self).playing()),
                        now as int,
                        average_intermission(old(self).total(), old(self).count()),
                    ),
                ),
            final(self).playing() == old(self).playing(),
            final(self).valid() == old(self).valid(),
            old(self).songs_valid() ==> final(self).songs_valid(),
            old(self).ids_distinct() ==> final(self).ids_distinct(),
            final(self).total() == old(self).total(),
            final(self).count() == old(self).count(),
    {
        let now = now_nanos();
        self.update_predictions(songs, now);
    }
}

/// Reloading a queue whose songs are all still valid keeps it whole and in order.
pub proof fn lemma_reload_keeps_queue(list: Seq<PlaylistEntry>, valid: Set<i64>)
    requires
        forall|i: int| 0 <= i < list.len() ==> valid.contains(#[trigger] list[i].song),
    ensures
        reconciled(list, valid) == list,
    decreases list.len(),
{
    reveal(Seq::filter);
    if list.len() > 0 {
        let rest = list.drop_last();
        assert forall|i: int| 0 <= i < rest.len() implies valid.contains(#[trigger] rest[i].song) by {
            assert(rest[i] == list[i]);
        }
        lemma_reload_keeps_queue(rest, valid);
        assert(valid.contains(list.last().song));
        assert(rest.push(list.last()) =~= list);
    }
}

/// A playlist reloaded from its own state over the same valid songs is the
/// same playlist: what plays, the queue and the intermission record.
pub proof fn lemma_state_round_trip(p: Playlist, state: PlaylistState, q: Playlist)
    requires
        p.songs_valid(),
        state.now_playing == p.playing(),
        state.list@ == p.queue(),
        state.intermission_total == p.total(),
        state.intermission_count == p.count(),
        q.valid() == p.valid(),
        q.queue() == reconciled(state.list@, p.valid()),
        q.playing() == match state.now_playing {
            Some(e) => if p.valid().contains(e.song) {
                Some(e)
            } else {
                None
            },
            None => None,
        },
        q.total() == state.intermission_total,
        q.count() == state.intermission_count,
    ensures
        q.queue() == p.queue(),
        q.playing() == p.playing(),
        q.total() == p.total(),
        q.count() == p.count(),
{
    lemma_reload_keeps_queue(p.queue(), p.valid());
}

} // verus!
