//! The media players shown in the bar's menu: which players are tracked
//! after a poll of the session bus, how their reported state is taken in,
//! and what their labels and controls show.
use vstd::prelude::*;

use crate::text::{joined, strip_prefix, two_digit, two_digit_string, views, without_prefix};

verus! {

/// Whether a player plays.
#[derive(Clone, Copy, Debug, PartialEq, Eq, Structural)]
pub enum PlaybackStatus {
    Playing,
    Paused,
    Stopped,
}

/// A span of time as a player reports it: whole seconds and the nanoseconds
/// past them.
#[derive(Clone, Copy, Debug, PartialEq, Eq, Structural)]
pub struct TrackTime {
    pub secs: u64,
    /// Below one second.
    pub nanos: u32,
}

/// What a player reports of its current track.
#[derive(Debug)]
pub struct TrackMeta {
    pub title: Option<String>,
    pub artists: Option<Vec<String>>,
    pub art_url: Option<String>,
    pub length: Option<TrackTime>,
}

/// A player that the bar tracks, with the handle `H` by which it is
/// controlled.
pub struct MediaPlayer<H> {
    pub handle: H,
    /// Its unique name on the bus, which tells players apart.
    pub unique_name: String,
    /// Its identity, by which its own watchers report changes.
    pub identity: String,
    pub meta: TrackMeta,
    pub status: PlaybackStatus,
    pub position: TrackTime,
}

/// The players the bar tracks, in the order they were found.
pub struct MediaData<H> {
    pub players: Vec<MediaPlayer<H>>,
}

/// The unique names of players.
pub open spec fn names_of<H>(players: Seq<MediaPlayer<H>>) -> Seq<Seq<char>> {
    players.map_values(|p: MediaPlayer<H>| p.unique_name@)
}

/// The positions `k < n` of `found` that name a player met for the first
/// time: neither one of `existing` nor one found before position `k`.
pub open spec fn new_positions(existing: Seq<Seq<char>>, found: Seq<Seq<char>>, n: nat) -> Seq<
    int,
>
    decreases n,
{
    if n == 0 {
        Seq::empty()
    } else {
        let k = n - 1;
        let rest = new_positions(existing, found, (n - 1) as nat);
        if !existing.contains(found[k]) && !found.take(k).contains(found[k]) {
            rest.push(k)
        } else {
            rest
        }
    }
}

/// A poll keeps a player that was found again, or that was not tracked
/// before the poll.
pub open spec fn kept_after_poll(
    name: Seq<char>,
    found: Seq<Seq<char>>,
    before: Seq<Seq<char>>,
) -> bool {
    found.contains(name) || !before.contains(name)
}

/// The players of `s` that a poll keeps, in order.
pub open spec fn kept_players<H>(
    s: Seq<MediaPlayer<H>>,
    found: Seq<Seq<char>>,
    before: Seq<Seq<char>>,
) -> Seq<MediaPlayer<H>>
    decreases s.len(),
{
    if s.len() == 0 {
        Seq::empty()
    } else {
        let rest = kept_players(s.drop_last(), found, before);
        if kept_after_poll(s.last().unique_name@, found, before) {
            rest.push(s.last())
        } else {
            rest
        }
    }
}

/// Whether `name` is one of `names`.
fn contains_name(names: &Vec<String>, name: &String) -> (r: bool)
    ensures
        r == views(names@).contains(name@),
{
    let n = names.len();
    for i in 0..n
        invariant
            n == names@.len(),
            forall|j: int| 0 <= j < i ==> names@[j]@ != name@,
    {
        if names[i] == *name {
            assert(views(names@)[i as int] == name@);
            return true;
        }
    }
    assert forall|j: int| 0 <= j < views(names@).len() implies views(names@)[j] != name@ by {}
    false
}

/// Whether some player has the unique name `name`.
fn has_player<H>(players: &Vec<MediaPlayer<H>>, name: &String) -> (r: bool)
    ensures
        r == names_of(players@).contains(name@),
{
    let n = players.len();
    for i in 0..n
        invariant
            n == players@.len(),
            forall|j: int| 0 <= j < i ==> players@[j].unique_name@ != name@,
    {
        if players[i].unique_name == *name {
            assert(names_of(players@)[i as int] == name@);
            return true;
        }
    }
    assert forall|j: int| 0 <= j < names_of(players@).len() implies names_of(players@)[j]
        != name@ by {}
    false
}

/// Whether `name` is among the first `k` of `names`.
fn contains_name_before(names: &Vec<String>, k: usize, name: &String) -> (r: bool)
    requires
        k <= names@.len(),
    ensures
        r == views(names@).take(k as int).contains(name@),
{
    for i in 0..k
        invariant
            k <= names@.len(),
            forall|j: int| 0 <= j < i ==> names@[j]@ != name@,
    {
        if names[i] == *name {
            assert(views(names@).take(k as int)[i as int] == name@);
            return true;
        }
    }
    assert forall|j: int| 0 <= j < views(names@).take(k as int).len() implies views(
        names@,
    ).take(k as int)[j] != name@ by {}
    false
}

impl<H> MediaData<H> {
    /// No player tracked yet.
    pub fn new() -> (data: Self)
        ensures
            data.players@.len() == 0,
    {
        MediaData { players: Vec::new() }
    }

    /// The positions of `found` (the unique names of the players on the bus,
    /// in the order they were listed) that name players to start tracking:
    /// those neither tracked yet nor listed earlier.
    pub fn new_players(&self, found: &Vec<String>) -> (positions: Vec<usize>)
        ensures
            positions@.map_values(|k: usize| k as int) == new_positions(
                names_of(self.players@),
                views(found@),
                found@.len(),
            ),
    {
        let mut positions: Vec<usize> = Vec::new();
        let n = found.len();
        for k in 0..n
            invariant
                n == found@.len(),
                positions@.map_values(|k: usize| k as int) == new_positions(
                    names_of(self.players@),
                    views(found@),
                    k as nat,
                ),
        {
            let ghost before = positions@;
            let tracked_already = has_player(&self.players, &found[k]);
            let listed_before = contains_name_before(found, k, &found[k]);
            assert(views(found@)[k as int] == found@[k as int]@);
            if !tracked_already && !listed_before {
                positions.push(k);
                assert(positions@.map_values(|k: usize| k as int) =~= before.map_values(
                    |k: usize| k as int,
                ).push(k as int));
            }
        }
        positions
    }

    /// Ends a poll: the players started for it (`started`, in order) join
    /// the tracked ones, and of all of them those are kept that were found
    /// again (their names are in `found`) or were not tracked before.
    pub fn finish_poll(&mut self, found: &Vec<String>, started: Vec<MediaPlayer<H>>)
        ensures
            final(self).players@ == kept_players(
                old(self).players@ + started@,
                views(found@),
                names_of(old(self).players@),
            ),
    {
        let mut before: Vec<String> = Vec::new();
        let m = self.players.len();
        for i in 0..m
            invariant
                m == self.players@.len(),
                views(before@) == names_of(self.players@).take(i as int),
        {
            let ghost prev = before@;
            before.push(self.players[i].unique_name.clone());
            assert(views(before@) =~= views(prev).push(self.players@[i as int].unique_name@));
            assert(names_of(self.players@).take(i + 1) =~= names_of(self.players@).take(
                i as int,
            ).push(self.players@[i as int].unique_name@));
        }
        assert(names_of(self.players@).take(m as int) =~= names_of(self.players@));
        let ghost old_names = names_of(self.players@);
        let mut all: Vec<MediaPlayer<H>> = Vec::new();
        std::mem::swap(&mut all, &mut self.players);
        let mut started = started;
        all.append(&mut started);
        let ghost s = all@;
        let total_len = all.len();
        let ghost total = all@.len();
        let mut kept: Vec<MediaPlayer<H>> = Vec::new();
        let mut done: usize = 0;
        assert(s.take(0) =~= Seq::<MediaPlayer<H>>::empty());
        while all.len() > 0
            invariant
                total == s.len(),
                total == total_len,
                done + all@.len() == total,
                all@ == s.skip(done as int),
                views(before@) == old_names,
                kept@ == kept_players(s.take(done as int), views(found@), old_names),
            decreases all@.len(),
        {
            let p = all.remove(0);
            assert(s.take(done + 1).drop_last() =~= s.take(done as int));
            assert(s.take(done + 1).last() == p);
            assert(all@ =~= s.skip(done + 1));
            let in_found = contains_name(found, &p.unique_name);
            let was_tracked = contains_name(&before, &p.unique_name);
            if in_found || !was_tracked {
                kept.push(p);
            }
            done = done + 1;
        }
        assert(s.take(total as int) =~= s);
        self.players = kept;
    }
}

/// Every player of `s` that a poll keeps is among the kept ones.
proof fn lemma_kept_contains<H>(
    s: Seq<MediaPlayer<H>>,
    found: Seq<Seq<char>>,
    before: Seq<Seq<char>>,
    i: int,
)
    requires
        0 <= i < s.len(),
        kept_after_poll(s[i].unique_name@, found, before),
    ensures
        kept_players(s, found, before).contains(s[i]),
    decreases s.len(),
{
    let rest = kept_players(s.drop_last(), found, before);
    if i == s.len() - 1 {
        assert(kept_players(s, found, before) == rest.push(s.last()));
        assert(kept_players(s, found, before)[rest.len() as int] == s[i]);
    } else {
        lemma_kept_contains(s.drop_last(), found, before, i);
        let j = choose|j: int| 0 <= j < rest.len() && rest[j] == s[i];
        if kept_after_poll(s.last().unique_name@, found, before) {
            assert(kept_players(s, found, before)[j] == s[i]);
        }
    }
}

/// Every name among the first `n` found is tracked already or named at one
/// of the new positions.
proof fn lemma_found_covered(existing: Seq<Seq<char>>, found: Seq<Seq<char>>, n: nat, k: int)
    requires
        n <= found.len(),
        0 <= k < n,
    ensures
        existing.contains(found[k]) || exists|i: int|
            0 <= i < new_positions(existing, found, n).len() && found[new_positions(
                existing,
                found,
                n,
            )[i]] == found[k],
    decreases n,
{
    let rest = new_positions(existing, found, (n - 1) as nat);
    let m = n - 1;
    if k < m {
        lemma_found_covered(existing, found, (n - 1) as nat, k);
        if !existing.contains(found[k]) {
            let i = choose|i: int| 0 <= i < rest.len() && found[rest[i]] == found[k];
            assert(new_positions(existing, found, n)[i] == rest[i]);
        }
    } else {
        if !existing.contains(found[m]) && !found.take(m).contains(found[m]) {
            assert(new_positions(existing, found, n)[rest.len() as int] == m);
        } else if !existing.contains(found[m]) {
            let k2 = choose|k2: int| 0 <= k2 < m && found.take(m)[k2] == found[m];
            lemma_found_covered(existing, found, (n - 1) as nat, k2);
            let i = choose|i: int| 0 <= i < rest.len() && found[rest[i]] == found[k2];
            assert(new_positions(existing, found, n)[i] == rest[i]);
        }
    }
}

/// When every found name is tracked, no position is new.
proof fn lemma_nothing_new(existing: Seq<Seq<char>>, found: Seq<Seq<char>>, n: nat)
    requires
        n <= found.len(),
        forall|k: int| 0 <= k < found.len() ==> existing.contains(#[trigger] found[k]),
    ensures
        new_positions(existing, found, n) == Seq::<int>::empty(),
    decreases n,
{
    if n > 0 {
        lemma_nothing_new(existing, found, (n - 1) as nat);
        assert(existing.contains(found[n - 1]));
    }
}

/// A poll drops every tracked player it did not find: each player kept was
/// found again or was not tracked before the poll, and the kept players are
/// players of `s`.
pub proof fn law_poll_drops_vanished_players<H>(
    s: Seq<MediaPlayer<H>>,
    found: Seq<Seq<char>>,
    before: Seq<Seq<char>>,
)
    ensures
        forall|q: int|
            0 <= q < kept_players(s, found, before).len() ==> {
                let p = #[trigger] kept_players(s, found, before)[q];
                &&& kept_after_poll(p.unique_name@, found, before)
                &&& s.contains(p)
            },
    decreases s.len(),
{
    if s.len() > 0 {
        law_poll_drops_vanished_players(s.drop_last(), found, before);
        let rest = kept_players(s.drop_last(), found, before);
        assert forall|q: int| 0 <= q < kept_players(s, found, before).len() implies {
            let p = #[trigger] kept_players(s, found, before)[q];
            &&& kept_after_poll(p.unique_name@, found, before)
            &&& s.contains(p)
        } by {
            let p = kept_players(s, found, before)[q];
            if q < rest.len() {
                assert(p == rest[q]);
                let i = choose|i: int| 0 <= i < s.drop_last().len() && s.drop_last()[i] == p;
                assert(s[i] == p);
            } else {
                assert(p == s.last());
                assert(s[s.len() - 1] == p);
            }
        }
    }
}

/// Each new position lies below `n`, names a player neither tracked nor
/// listed earlier, and the positions increase.
pub proof fn law_new_positions_facts(existing: Seq<Seq<char>>, found: Seq<Seq<char>>, n: nat)
    requires
        n <= found.len(),
    ensures
        forall|i: int|
            0 <= i < new_positions(existing, found, n).len() ==> {
                let p = #[trigger] new_positions(existing, found, n)[i];
                &&& 0 <= p < n
                &&& !existing.contains(found[p])
                &&& !found.take(p).contains(found[p])
            },
        forall|i: int, j: int|
            0 <= i < j < new_positions(existing, found, n).len() ==> new_positions(
                existing,
                found,
                n,
            )[i] < new_positions(existing, found, n)[j],
    decreases n,
{
    if n > 0 {
        law_new_positions_facts(existing, found, (n - 1) as nat);
        let rest = new_positions(existing, found, (n - 1) as nat);
        let np = new_positions(existing, found, n);
        assert forall|i: int| 0 <= i < rest.len() implies #[trigger] np[i] == rest[i] by {}
        assert forall|i: int| 0 <= i < np.len() implies {
            let p = #[trigger] np[i];
            &&& 0 <= p < n
            &&& !existing.contains(found[p])
            &&& !found.take(p).contains(found[p])
        } by {
            if i < rest.len() {
                assert(np[i] == rest[i]);
            }
        }
        assert forall|i: int, j: int| 0 <= i < j < np.len() implies np[i] < np[j] by {
            assert(np[i] == rest[i]);
            if j < rest.len() {
                assert(np[j] == rest[j]);
            }
        }
    }
}

/// The players kept by a poll have distinct names when those of `s` are.
proof fn lemma_kept_names_distinct<H>(
    s: Seq<MediaPlayer<H>>,
    found: Seq<Seq<char>>,
    before: Seq<Seq<char>>,
)
    requires
        names_of(s).no_duplicates(),
    ensures
        names_of(kept_players(s, found, before)).no_duplicates(),
    decreases s.len(),
{
    if s.len() > 0 {
        let d = s.drop_last();
        assert(names_of(d).no_duplicates()) by {
            assert forall|i: int, j: int| 0 <= i < d.len() && 0 <= j < d.len() && i != j implies names_of(
                d,
            )[i] != names_of(d)[j] by {
                assert(names_of(d)[i] == names_of(s)[i]);
                assert(names_of(d)[j] == names_of(s)[j]);
            }
        }
        lemma_kept_names_distinct(d, found, before);
        law_poll_drops_vanished_players(d, found, before);
        let rest = kept_players(d, found, before);
        let k = kept_players(s, found, before);
        if kept_after_poll(s.last().unique_name@, found, before) {
            assert forall|i: int, j: int| 0 <= i < k.len() && 0 <= j < k.len() && i != j implies names_of(
                k,
            )[i] != names_of(k)[j] by {
                if i < rest.len() && j < rest.len() {
                    assert(names_of(k)[i] == names_of(rest)[i]);
                    assert(names_of(k)[j] == names_of(rest)[j]);
                } else {
                    let q = if i < rest.len() { i } else { j };
                    let p = rest[q];
                    assert(d.contains(p));
                    let m = choose|m: int| 0 <= m < d.len() && d[m] == p;
                    assert(names_of(s)[m] == p.unique_name@);
                    assert(names_of(s)[s.len() - 1] == s.last().unique_name@);
                    assert(k[q] == p);
                }
            }
        } else {
            assert(k == rest);
        }
    }
}

/// A poll keeps the names of the tracked players distinct: when they were
/// distinct before and the players started are those of the new positions
/// (named as listed there), they are distinct after.
pub proof fn law_poll_keeps_names_distinct<H>(
    before: Seq<MediaPlayer<H>>,
    found: Seq<Seq<char>>,
    started: Seq<MediaPlayer<H>>,
)
    requires
        names_of(before).no_duplicates(),
        started.len() == new_positions(names_of(before), found, found.len()).len(),
        forall|i: int|
            0 <= i < started.len() ==> #[trigger] started[i].unique_name@ == found[new_positions(
                names_of(before),
                found,
                found.len(),
            )[i]],
    ensures
        names_of(kept_players(before + started, found, names_of(before))).no_duplicates(),
{
    let all = before + started;
    let fresh = new_positions(names_of(before), found, found.len());
    law_new_positions_facts(names_of(before), found, found.len());
    assert forall|i: int, j: int| 0 <= i < all.len() && 0 <= j < all.len() && i != j implies names_of(
        all,
    )[i] != names_of(all)[j] by {
        let b = before.len() as int;
        if i < b && j < b {
            assert(names_of(before)[i] == names_of(all)[i]);
            assert(names_of(before)[j] == names_of(all)[j]);
        } else if i >= b && j >= b {
            let (lo, hi) = if i < j { (i - b, j - b) } else { (j - b, i - b) };
            assert(started[lo].unique_name@ == found[fresh[lo]]);
            assert(started[hi].unique_name@ == found[fresh[hi]]);
            let pl = fresh[lo];
            let ph = fresh[hi];
            assert(pl < ph);
            assert(found.take(ph)[pl] == found[pl]);
            assert(all[b + lo] == started[lo]);
            assert(all[b + hi] == started[hi]);
        } else {
            let (o, t) = if i < b { (i, j - b) } else { (j, i - b) };
            assert(started[t].unique_name@ == found[fresh[t]]);
            assert(names_of(before)[o] == before[o].unique_name@);
            assert(all[o] == before[o]);
            assert(all[b + t] == started[t]);
        }
    }
    lemma_kept_names_distinct(all, found, names_of(before));
}

/// A change reported under an identity reaches exactly the first player with
/// that identity: it takes the reported status, track or position, whatever
/// it held before, and keeps everything else; every other player is
/// untouched. Without a player of that identity nothing changes.
pub proof fn law_update_reaches_first_with_identity<H>(
    players: Seq<MediaPlayer<H>>,
    identity: Seq<char>,
    update: PlayerUpdate,
    j: int,
)
    ensures
        players_after_update(players, identity, update).len() == players.len(),
        (0 <= j < players.len() && players[j].identity@ == identity && forall|i: int|
            0 <= i < j ==> #[trigger] players[i].identity@ != identity) ==> {
            let after = players_after_update(players, identity, update);
            &&& after[j].handle == players[j].handle
            &&& after[j].unique_name == players[j].unique_name
            &&& after[j].identity == players[j].identity
            &&& (match update {
                PlayerUpdate::Status(st) => after[j].status == st && after[j].meta
                    == players[j].meta && after[j].position == players[j].position,
                PlayerUpdate::Metadata(m) => after[j].meta == m && after[j].status
                    == players[j].status && after[j].position == players[j].position,
                PlayerUpdate::Position(t) => after[j].position == t && after[j].status
                    == players[j].status && after[j].meta == players[j].meta,
            })
            &&& forall|i: int|
                0 <= i < players.len() && i != j ==> #[trigger] after[i] == players[i]
        },
        (forall|i: int| 0 <= i < players.len() ==> #[trigger] players[i].identity@ != identity)
            ==> players_after_update(players, identity, update) == players,
{
    if 0 <= j < players.len() && players[j].identity@ == identity && forall|i: int|
        0 <= i < j ==> #[trigger] players[i].identity@ != identity {
        assert(is_first_with_identity(players, j, identity));
        let c = choose|c: int| is_first_with_identity(players, c, identity);
        lemma_first_identity_unique(players, c, j, identity);
    }
}

/// The menu shows exactly the players whose track has a known length: a
/// position is shown if and only if the player there has a length, and the
/// shown positions go up.
pub proof fn law_shown_players_have_length<H>(players: Seq<MediaPlayer<H>>, n: nat)
    requires
        n <= players.len(),
    ensures
        forall|k: int|
            0 <= k < n ==> (shown_positions(players, n).contains(k) <==> (
            #[trigger] players[k]).meta.length is Some),
        forall|i: int| 0 <= i < shown_positions(players, n).len() ==> 0 <= #[trigger] shown_positions(players, n)[i] < n,
        forall|i: int, j: int|
            0 <= i < j < shown_positions(players, n).len() ==> shown_positions(players, n)[i]
                < shown_positions(players, n)[j],
    decreases n,
{
    if n > 0 {
        law_shown_players_have_length(players, (n - 1) as nat);
        let rest = shown_positions(players, (n - 1) as nat);
        let sp = shown_positions(players, n);
        assert forall|i: int| 0 <= i < rest.len() implies #[trigger] sp[i] == rest[i] by {}
        assert forall|k: int| 0 <= k < n implies (sp.contains(k) <==> (
        #[trigger] players[k]).meta.length is Some) by {
            if k < n - 1 {
                if rest.contains(k) {
                    let i = choose|i: int| 0 <= i < rest.len() && rest[i] == k;
                    assert(sp[i] == k);
                }
                if sp.contains(k) {
                    let i = choose|i: int| 0 <= i < sp.len() && sp[i] == k;
                    if i < rest.len() {
                        assert(rest[i] == k);
                    }
                }
            } else {
                if players[k].meta.length is Some {
                    assert(sp[rest.len() as int] == k);
                } else {
                    if sp.contains(k) {
                        let i = choose|i: int| 0 <= i < sp.len() && sp[i] == k;
                        assert(rest[i] == k);
                    }
                }
            }
        }
        assert forall|i: int| 0 <= i < sp.len() implies 0 <= #[trigger] sp[i] < n by {
            if i < rest.len() {
                assert(sp[i] == rest[i]);
            }
        }
        assert forall|i: int, j: int| 0 <= i < j < sp.len() implies sp[i] < sp[j] by {
            assert(sp[i] == rest[i]);
            if j < rest.len() {
                assert(sp[j] == rest[j]);
            }
        }
    }
}

/// Every position below `n` that names a player neither tracked nor listed
/// earlier is a new position.
pub proof fn law_new_positions_complete(
    existing: Seq<Seq<char>>,
    found: Seq<Seq<char>>,
    n: nat,
    k: int,
)
    requires
        n <= found.len(),
        0 <= k < n,
        !existing.contains(found[k]),
        !found.take(k).contains(found[k]),
    ensures
        new_positions(existing, found, n).contains(k),
    decreases n,
{
    let rest = new_positions(existing, found, (n - 1) as nat);
    let np = new_positions(existing, found, n);
    if k < n - 1 {
        law_new_positions_complete(existing, found, (n - 1) as nat, k);
        let i = choose|i: int| 0 <= i < rest.len() && rest[i] == k;
        assert(np[i] == rest[i]);
    } else {
        assert(np[rest.len() as int] == k);
    }
}

/// A poll keeps exactly the players of `s` that were found again or were
/// not tracked before, in their order: the kept players are `s` filtered by
/// that test.
pub proof fn law_poll_keeps_filter<H>(
    s: Seq<MediaPlayer<H>>,
    found: Seq<Seq<char>>,
    before: Seq<Seq<char>>,
)
    ensures
        kept_players(s, found, before) == s.filter(
            |p: MediaPlayer<H>| kept_after_poll(p.unique_name@, found, before),
        ),
    decreases s.len(),
{
    reveal(Seq::filter);
    if s.len() > 0 {
        law_poll_keeps_filter(s.drop_last(), found, before);
    }
}

/// A reported change never touches a player's name, so the names of the
/// tracked players stay as they were.
pub proof fn law_update_keeps_names<H>(
    players: Seq<MediaPlayer<H>>,
    identity: Seq<char>,
    update: PlayerUpdate,
)
    ensures
        names_of(players_after_update(players, identity, update)) == names_of(players),
{
    assert(names_of(players_after_update(players, identity, update)) =~= names_of(players));
}

/// A poll tracks every player it found: once the players started for the
/// new positions (named as listed there) have joined, every name that the
/// poll found belongs to a tracked player, so polling again with the same
/// list starts no player.
pub proof fn law_poll_tracks_every_found_player<H>(
    before: Seq<MediaPlayer<H>>,
    found: Seq<Seq<char>>,
    started: Seq<MediaPlayer<H>>,
)
    requires
        started.len() == new_positions(names_of(before), found, found.len()).len(),
        forall|i: int|
            0 <= i < started.len() ==> #[trigger] started[i].unique_name@ == found[new_positions(
                names_of(before),
                found,
                found.len(),
            )[i]],
    ensures
        forall|k: int|
            0 <= k < found.len() ==> names_of(
                kept_players(before + started, found, names_of(before)),
            ).contains(#[trigger] found[k]),
        new_positions(
            names_of(kept_players(before + started, found, names_of(before))),
            found,
            found.len(),
        ) == Seq::<int>::empty(),
{
    let after = kept_players(before + started, found, names_of(before));
    let all = before + started;
    let fresh = new_positions(names_of(before), found, found.len());
    assert forall|k: int| 0 <= k < found.len() implies names_of(after).contains(
        #[trigger] found[k],
    ) by {
        lemma_found_covered(names_of(before), found, found.len(), k);
        let at: int = if names_of(before).contains(found[k]) {
            let j = choose|j: int| 0 <= j < names_of(before).len() && names_of(before)[j]
                == found[k];
            assert(all[j] == before[j]);
            j
        } else {
            let i = choose|i: int| 0 <= i < fresh.len() && found[fresh[i]] == found[k];
            assert(started[i].unique_name@ == found[fresh[i]]);
            assert(all[before.len() + i] == started[i]);
            before.len() + i
        };
        assert(all[at].unique_name@ == found[k]);
        assert(found.contains(found[k]));
        lemma_kept_contains(all, found, names_of(before), at);
        let q = choose|q: int| 0 <= q < after.len() && after[q] == all[at];
        assert(names_of(after)[q] == found[k]);
    }
    lemma_nothing_new(names_of(after), found, found.len());
}

/// A change that a player's watcher reports.
pub enum PlayerUpdate {
    Status(PlaybackStatus),
    Metadata(TrackMeta),
    Position(TrackTime),
}

/// `j` is the first position of `players` whose identity is `identity`.
pub open spec fn is_first_with_identity<H>(
    players: Seq<MediaPlayer<H>>,
    j: int,
    identity: Seq<char>,
) -> bool {
    &&& 0 <= j < players.len()
    &&& players[j].identity@ == identity
    &&& forall|i: int| 0 <= i < j ==> players[i].identity@ != identity
}

/// A player with a reported change taken in.
pub open spec fn with_update<H>(p: MediaPlayer<H>, update: PlayerUpdate) -> MediaPlayer<H> {
    match update {
        PlayerUpdate::Status(status) => MediaPlayer { status, ..p },
        PlayerUpdate::Metadata(meta) => MediaPlayer { meta, ..p },
        PlayerUpdate::Position(position) => MediaPlayer { position, ..p },
    }
}

/// The players after a change reported under `identity`: the first player
/// with that identity takes it in; without one nothing changes.
pub open spec fn players_after_update<H>(
    players: Seq<MediaPlayer<H>>,
    identity: Seq<char>,
    update: PlayerUpdate,
) -> Seq<MediaPlayer<H>> {
    if exists|j: int| is_first_with_identity(players, j, identity) {
        let j = choose|j: int| is_first_with_identity(players, j, identity);
        players.update(j, with_update(players[j], update))
    } else {
        players
    }
}

proof fn lemma_first_identity_unique<H>(
    players: Seq<MediaPlayer<H>>,
    a: int,
    b: int,
    identity: Seq<char>,
)
    requires
        is_first_with_identity(players, a, identity),
        is_first_with_identity(players, b, identity),
    ensures
        a == b,
{
    if a < b {
        assert(players[a].identity@ != identity);
    } else if b < a {
        assert(players[b].identity@ != identity);
    }
}

/// The positions below `n` of players whose track has a known length.
pub open spec fn shown_positions<H>(players: Seq<MediaPlayer<H>>, n: nat) -> Seq<int>
    decreases n,
{
    if n == 0 {
        Seq::empty()
    } else {
        let rest = shown_positions(players, (n - 1) as nat);
        if players[n - 1].meta.length is Some {
            rest.push(n - 1)
        } else {
            rest
        }
    }
}

impl<H> MediaData<H> {
    /// Takes in a change reported under `identity`.
    pub fn update_player(&mut self, identity: &String, update: PlayerUpdate)
        ensures
            final(self).players@ == players_after_update(old(self).players@, identity@, update),
    {
        let n = self.players.len();
        for i in 0..n
            invariant
                n == self.players@.len(),
                self.players@ == old(self).players@,
                forall|j: int| 0 <= j < i ==> self.players@[j].identity@ != identity@,
        {
            if self.players[i].identity == *identity {
                proof {
                    assert(is_first_with_identity(self.players@, i as int, identity@));
                    let c = choose|j: int| is_first_with_identity(self.players@, j, identity@);
                    lemma_first_identity_unique(self.players@, c, i as int, identity@);
                }
                match update {
                    PlayerUpdate::Status(status) => {
                        self.players[i].status = status;
                    },
                    PlayerUpdate::Metadata(meta) => {
                        self.players[i].meta = meta;
                    },
                    PlayerUpdate::Position(position) => {
                        self.players[i].position = position;
                    },
                }
                return ;
            }
        }
    }

}

/// The positions of the players shown in the menu: those whose track has
/// a known length, in order.
pub fn media<H>(data: &MediaData<H>) -> (shown: Vec<usize>)
    ensures
        shown@.map_values(|k: usize| k as int) == shown_positions(
            data.players@,
            data.players@.len(),
        ),
{
    let mut shown: Vec<usize> = Vec::new();
    let n = data.players.len();
    for i in 0..n
        invariant
            n == data.players@.len(),
            shown@.map_values(|k: usize| k as int) == shown_positions(data.players@, i as nat),
    {
        let ghost before = shown@;
        if data.players[i].meta.length.is_some() {
            shown.push(i);
            assert(shown@.map_values(|k: usize| k as int) =~= before.map_values(
                |k: usize| k as int,
            ).push(i as int));
        }
    }
    shown
}

/// The longest span that `chrono::TimeDelta` holds: `i64::MAX`
/// milliseconds, that is this many whole seconds ...
pub const DELTA_MAX_SECS: u64 = 9_223_372_036_854_775;

/// ... and this many nanoseconds past them.
pub const DELTA_MAX_NANOS: u32 = 807_000_000;

/// A span that `chrono::TimeDelta::from_std` accepts.
pub open spec fn fits_time_delta(t: TrackTime) -> bool {
    t.secs < DELTA_MAX_SECS || (t.secs == DELTA_MAX_SECS && t.nanos <= DELTA_MAX_NANOS)
}

/// `chrono::TimeDelta::from_std` on the span `secs` seconds and `nanos`
/// nanoseconds, whose result is read by `TimeDelta::num_seconds`. In the
/// source of chrono 0.4.45, `from_std` fails exactly when the span exceeds
/// `TimeDelta::MAX` (`i64::MAX` milliseconds) and otherwise keeps the
/// seconds and nanoseconds as they are, and `num_seconds` of a span that is
/// not negative is its seconds: this states both.
#[verifier::external_body]
fn time_delta_seconds(secs: u64, nanos: u32) -> (r: Option<i64>)
    requires
        nanos < 1_000_000_000,
    ensures
        r is Some <==> fits_time_delta(TrackTime { secs, nanos }),
        r matches Some(whole) ==> whole == secs,
{
    match chrono::TimeDelta::from_std(std::time::Duration::new(secs, nanos)) {
        Ok(delta) => Some(delta.num_seconds()),
        Err(_) => None,
    }
}

/// A span of whole seconds written as minutes and seconds within the hour,
/// `MM:SS`.
pub open spec fn minutes_seconds(secs: nat) -> Seq<char> {
    two_digit((secs / 60) % 60) + ":"@ + two_digit(secs % 60)
}

/// The label of a span: its minutes and seconds within the hour, when
/// chrono can hold the span.
pub open spec fn time_label_of(t: TrackTime) -> Option<Seq<char>> {
    if fits_time_delta(t) {
        Some(minutes_seconds(t.secs as nat))
    } else {
        None
    }
}

/// The span that chrono holds is at most `i64::MAX` milliseconds: a span
/// fits exactly when its length in nanoseconds is at most that much.
pub proof fn law_fits_time_delta_is_millisecond_range(t: TrackTime)
    requires
        t.nanos < 1_000_000_000,
    ensures
        fits_time_delta(t) <==> t.secs * 1_000_000_000 + t.nanos <= 9_223_372_036_854_775_807
            * 1_000_000,
{
}

/// A time label is five characters: two digits of minutes within the hour,
/// a colon, and two digits of seconds within the minute.
pub proof fn law_minutes_seconds_shape(secs: nat)
    ensures
        minutes_seconds(secs).len() == 5,
        minutes_seconds(secs)[0] == crate::text::digit_char(((secs / 60) % 60) / 10),
        minutes_seconds(secs)[1] == crate::text::digit_char(((secs / 60) % 60) % 10),
        minutes_seconds(secs)[2] == ':',
        minutes_seconds(secs)[3] == crate::text::digit_char((secs % 60) / 10),
        minutes_seconds(secs)[4] == crate::text::digit_char((secs % 60) % 10),
{
    let m = (secs / 60) % 60;
    let s = secs % 60;
    crate::text::law_two_digit_shape(m);
    crate::text::law_two_digit_shape(s);
    reveal_strlit(":");
    let l = minutes_seconds(secs);
    assert(l =~= two_digit(m) + ":"@ + two_digit(s));
    assert(l[2] == ":"@[0]);
}

/// Writes a span as `MM:SS`: its whole minutes and seconds, each modulo 60
/// and padded to two digits; `None` when chrono cannot hold the span.
pub fn time_label(t: TrackTime) -> (label: Option<String>)
    requires
        t.nanos < 1_000_000_000,
    ensures
        label matches Some(l) ==> time_label_of(t) == Some(l@),
        label is None ==> time_label_of(t) is None,
{
    match time_delta_seconds(t.secs, t.nanos) {
        Some(whole) => {
            let minutes = whole / 60;
            let m: u32 = (minutes % 60) as u32;
            let s: u32 = (whole % 60) as u32;
            let mut label = two_digit_string(m);
            label.append(":");
            let seconds = two_digit_string(s);
            label.append(seconds.as_str());
            Some(label)
        },
        None => None,
    }
}

/// The label of the player's position in its track.
pub fn current_time<H>(player: &MediaPlayer<H>) -> (label: Option<String>)
    requires
        player.position.nanos < 1_000_000_000,
    ensures
        label matches Some(l) ==> time_label_of(player.position) == Some(l@),
        label is None ==> time_label_of(player.position) is None,
{
    time_label(player.position)
}

/// The label of the track's length, when it is known.
pub fn length(meta: &TrackMeta) -> (label: Option<String>)
    requires
        meta.length matches Some(t) ==> t.nanos < 1_000_000_000,
    ensures
        label matches Some(l) ==> (meta.length matches Some(t) && time_label_of(t) == Some(
            l@,
        )),
        label is None ==> (meta.length matches Some(t) ==> time_label_of(t) is None),
{
    match meta.length {
        Some(t) => time_label(t),
        None => None,
    }
}

/// Copies a string.
fn copy_str(s: &str) -> (r: String)
    ensures
        r@ == s@,
{
    let mut r = String::new();
    r.append(s);
    r
}

/// The label of the track's title, when it is known.
pub fn title(meta: &TrackMeta) -> (label: Option<String>)
    ensures
        label matches Some(l) ==> (meta.title matches Some(t) && l@ == t@),
        label is None ==> meta.title is None,
{
    match &meta.title {
        Some(t) => Some(copy_str(t.as_str())),
        None => None,
    }
}

/// The label of the track's artists, joined by `", "`, when they are known.
pub fn artists(meta: &TrackMeta) -> (label: Option<String>)
    ensures
        label matches Some(l) ==> (meta.artists matches Some(a) && l@ == joined(
            views(a@),
            ", "@,
        )),
        label is None ==> meta.artists is None,
{
    match &meta.artists {
        Some(a) => Some(crate::text::join(a, ", ")),
        None => None,
    }
}

/// Where the cover art of a track is read from.
#[derive(Debug)]
pub enum ArtSource {
    /// A file, by its path.
    File(String),
    /// Anything else, fetched by its URL.
    Remote(String),
}

/// Where the track's cover art is read from: a `file://` URL names a file by
/// what follows the scheme; any other URL is fetched as it is.
pub fn art(meta: &TrackMeta) -> (source: Option<ArtSource>)
    ensures
        source is None <==> meta.art_url is None,
        source matches Some(ArtSource::File(path)) ==> (meta.art_url matches Some(url)
            && without_prefix(url@, "file://"@) == Some(path@)),
        source matches Some(ArtSource::Remote(r)) ==> (meta.art_url matches Some(url)
            && without_prefix(url@, "file://"@) is None && r@ == url@),
{
    match &meta.art_url {
        Some(url) => match strip_prefix(url.as_str(), "file://") {
            Some(path) => Some(ArtSource::File(copy_str(path))),
            None => Some(ArtSource::Remote(copy_str(url.as_str()))),
        },
        None => None,
    }
}

/// The icon of a control button.
#[derive(Clone, Copy, Debug, PartialEq, Eq, Structural)]
pub enum ControlIcon {
    Play,
    Pause,
}

/// What a click on a control asks of the player.
#[derive(Clone, Copy, Debug, PartialEq, Eq, Structural)]
pub enum PlayerCommand {
    Play,
    Pause,
}

/// The play/pause button: its icon and what a click on it asks.
#[derive(Clone, Copy, Debug, PartialEq, Eq, Structural)]
pub struct PlayPauseButton {
    pub icon: ControlIcon,
    pub command: Option<PlayerCommand>,
}

/// The play/pause button for a player with the given status: a playing
/// player shows a pause button that pauses it, a paused one a play button
/// that plays it, and a stopped one a pause button that does nothing.
pub fn play_pause_button(status: PlaybackStatus) -> (button: PlayPauseButton)
    ensures
        button == (match status {
            PlaybackStatus::Playing => PlayPauseButton {
                icon: ControlIcon::Pause,
                command: Some(PlayerCommand::Pause),
            },
            PlaybackStatus::Paused => PlayPauseButton {
                icon: ControlIcon::Play,
                command: Some(PlayerCommand::Play),
            },
            PlaybackStatus::Stopped => PlayPauseButton { icon: ControlIcon::Pause, command: None },
        }),
{
    match status {
        PlaybackStatus::Playing => PlayPauseButton {
            icon: ControlIcon::Pause,
            command: Some(PlayerCommand::Pause),
        },
        PlaybackStatus::Paused => PlayPauseButton {
            icon: ControlIcon::Play,
            command: Some(PlayerCommand::Play),
        },
        PlaybackStatus::Stopped => PlayPauseButton { icon: ControlIcon::Pause, command: None },
    }
}

/// Whether the previous-track or next-track button is shown, given the
/// player's answer to whether it can go there (`None` when the question
/// failed): only when it answered that it can.
pub fn skip_button_shown(answer: Option<bool>) -> (shown: bool)
    ensures
        shown == (answer == Some(true)),
{
    match answer {
        Some(true) => true,
        _ => false,
    }
}

/// An event that a player's watcher receives from the player.
#[derive(Clone, Copy, Debug, PartialEq, Eq, Structural)]
pub enum PlayerEventKind {
    Paused,
    Playing,
    Stopped,
    PlaybackRateChanged,
    TrackAdded,
    TrackRemoved,
    TrackChanged,
    TrackMetadataChanged,
    TrackListReplaced,
    /// Any other event.
    Other,
}

/// What a watcher reads back from the player and reports after an event.
#[derive(Clone, Copy, Debug, PartialEq, Eq, Structural)]
pub struct WatcherReports {
    /// Report the playback status (before the track).
    pub status: bool,
    /// Report the track's metadata.
    pub metadata: bool,
}

/// What a watcher reports after an event: a change of playback reports the
/// status and then the track; a change of rate, track or track list reports
/// the track; anything else nothing.
pub fn watcher_reports(event: PlayerEventKind) -> (reports: WatcherReports)
    ensures
        reports.status == (event == PlayerEventKind::Paused || event == PlayerEventKind::Playing
            || event == PlayerEventKind::Stopped),
        reports.metadata == (event != PlayerEventKind::Other),
{
    match event {
        PlayerEventKind::Paused | PlayerEventKind::Playing | PlayerEventKind::Stopped => {
            WatcherReports { status: true, metadata: true }
        },
        PlayerEventKind::PlaybackRateChanged
        | PlayerEventKind::TrackAdded
        | PlayerEventKind::TrackRemoved
        | PlayerEventKind::TrackChanged
        | PlayerEventKind::TrackMetadataChanged
        | PlayerEventKind::TrackListReplaced => WatcherReports { status: false, metadata: true },
        PlayerEventKind::Other => WatcherReports { status: false, metadata: false },
    }
}

} // verus!
