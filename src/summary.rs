//! Folding events into per-match summaries.

use std::collections::BTreeMap;

use counter::Counter;
use vstd::prelude::*;

use crate::event::{Event, EventView, WORLD_ID};
use crate::ids::Id;
use vstd::std_specs::btree::increasing_seq;
use vstd::std_specs::cmp::OrdSpec;
use vstd::std_specs::iter::IteratorSpec;

verus! {

broadcast use {vstd::std_specs::btree::group_btree_axioms, vstd::laws_cmp::group_laws_cmp};

/// `counter::Counter`: a `HashMap` from items to their counts, opaque here
/// and read through the tallies below.
#[verifier::external_type_specification]
#[verifier::external_body]
#[verifier::reject_recursive_types(T)]
#[verifier::reject_recursive_types(N)]
pub struct ExCounter<T: std::hash::Hash + Eq, N>(Counter<T, N>);

/// Counts by death cause.
pub type CauseCounts = Map<Seq<char>, u32>;

/// Scores by player.
pub type Scores = Map<Id, i32>;

/// The counts a death-cause counter holds, by cause.
pub uninterp spec fn cause_tally(c: Counter<String, u32>) -> CauseCounts;

/// The scores a scoreboard counter holds, by player.
pub uninterp spec fn score_tally(c: Counter<Id, i32>) -> Scores;

/// Relies on `Counter::new`: the counter starts empty.
#[verifier::external_body]
fn new_cause_counter() -> (r: Counter<String, u32>)
    ensures
        cause_tally(r) == CauseCounts::empty(),
{
    Counter::new()
}

/// Relies on `Counter`'s `Index`: the stored count of `k`, or zero when `k`
/// has none.
#[verifier::external_body]
fn cause_count(c: &Counter<String, u32>, k: &String) -> (r: u32)
    ensures
        cause_tally(*c).contains_key(k@) ==> r == cause_tally(*c)[k@],
        !cause_tally(*c).contains_key(k@) ==> r == 0,
{
    c[k]
}

/// Relies on `Counter`'s `IndexMut`: stores `n` as the count of `k`.
#[verifier::external_body]
fn set_cause_count(c: &mut Counter<String, u32>, k: &String, n: u32)
    ensures
        cause_tally(*final(c)) == cause_tally(*old(c)).insert(k@, n),
{
    c[k] = n;
}

/// Relies on iterating the `HashMap` under a `Counter`: every stored cause
/// once, with its count, in an order the map chooses.
#[verifier::external_body]
fn cause_entries(c: &Counter<String, u32>) -> (r: Vec<(String, u32)>)
    ensures
        r@.len() == cause_tally(*c).len(),
        forall|i: int|
            0 <= i < r@.len() ==> #[trigger] cause_tally(*c).contains_key(r@[i].0@)
                && cause_tally(*c)[r@[i].0@] == r@[i].1,
        forall|i: int, j: int| 0 <= i < j < r@.len() ==> r@[i].0@ != r@[j].0@,
{
    c.iter().map(|(k, n)| (k.clone(), *n)).collect()
}

/// Relies on `Counter::new`: the counter starts empty.
#[verifier::external_body]
fn new_score_counter() -> (r: Counter<Id, i32>)
    ensures
        score_tally(r) == Scores::empty(),
{
    Counter::new()
}

/// Relies on `HashMap::get` under a `Counter`: the stored score of `k`, if
/// any.
#[verifier::external_body]
fn stored_score(c: &Counter<Id, i32>, k: Id) -> (r: Option<i32>)
    ensures
        score_tally(*c).contains_key(k) ==> r == Some(score_tally(*c)[k]),
        !score_tally(*c).contains_key(k) ==> r is None,
{
    c.get(&k).copied()
}

/// Relies on `Counter`'s `IndexMut`: stores `n` as the score of `k`.
#[verifier::external_body]
fn set_score(c: &mut Counter<Id, i32>, k: Id, n: i32)
    ensures
        score_tally(*final(c)) == score_tally(*old(c)).insert(k, n),
{
    c[&k] = n;
}

/// Relies on `HashMap::remove` under a `Counter`: drops the score of `k`.
#[verifier::external_body]
fn remove_score(c: &mut Counter<Id, i32>, k: Id)
    ensures
        score_tally(*final(c)) == score_tally(*old(c)).remove(k),
{
    c.remove(&k);
}

/// A finished match, ready to render: its number, its kill count, the
/// players present at its end in ascending id order, the scores in
/// ascending id order, and the number of deaths by each cause.
///
/// A score is listed for each id that has both a score and a name, under
/// that name. Kills by or of a player who never joined, or who left, count
/// in `total_kills` and `death_causes`; their score has no name and is not
/// listed. A player named by a rename alone has no score and is listed in
/// `players` only.
pub struct MatchSummary {
    pub match_number: u32,
    pub total_kills: u32,
    pub players: Vec<(Id, String)>,
    pub scores: Vec<(Id, String, i32)>,
    pub death_causes: Vec<(String, u32)>,
}

/// What the summary processor knows of the match in progress.
pub struct SummaryView {
    pub match_number: u32,
    pub total_kills: u32,
    pub causes: CauseCounts,
    pub scores: Scores,
    pub names: Map<Id, Seq<char>>,
    pub game_to_show: Option<u32>,
}

/// The state at the start of match `match_number`.
pub open spec fn fresh(match_number: u32, game_to_show: Option<u32>) -> SummaryView {
    SummaryView {
        match_number,
        total_kills: 0,
        causes: CauseCounts::empty(),
        scores: Scores::empty(),
        names: Map::empty(),
        game_to_show,
    }
}

/// The count of `c`, zero when there is none.
pub open spec fn count_of(causes: CauseCounts, c: Seq<char>) -> u32 {
    if causes.contains_key(c) {
        causes[c]
    } else {
        0
    }
}

/// The score of `id`, zero when there is none.
pub open spec fn score_of(scores: Scores, id: Id) -> i32 {
    if scores.contains_key(id) {
        scores[id]
    } else {
        0
    }
}

/// Whether the counters can take `e` without passing their bounds.
pub open spec fn room_for(v: SummaryView, e: EventView) -> bool {
    match e {
        EventView::Kill { killer, victim, death_cause } => {
            &&& v.total_kills < u32::MAX
            &&& count_of(v.causes, death_cause) < u32::MAX
            &&& killer == WORLD_ID ==> score_of(v.scores, victim) > i32::MIN
            &&& killer != WORLD_ID ==> score_of(v.scores, killer) < i32::MAX
        },
        EventView::ResetMatch => v.match_number < u32::MAX,
        _ => true,
    }
}

/// The state after event `e`.
pub open spec fn after_event(v: SummaryView, e: EventView) -> SummaryView {
    match e {
        EventView::Kill { killer, victim, death_cause } => SummaryView {
            total_kills: (v.total_kills + 1) as u32,
            causes: v.causes.insert(death_cause, (count_of(v.causes, death_cause) + 1) as u32),
            scores: if killer == WORLD_ID {
                v.scores.insert(victim, (score_of(v.scores, victim) - 1) as i32)
            } else {
                v.scores.insert(killer, (score_of(v.scores, killer) + 1) as i32)
            },
            ..v
        },
        EventView::ResetMatch => fresh((v.match_number + 1) as u32, v.game_to_show),
        EventView::PlayerJoined { id, name } => SummaryView {
            scores: v.scores.insert(id, 0),
            names: v.names.insert(id, name),
            ..v
        },
        EventView::PlayerLeft { id } => SummaryView {
            scores: v.scores.remove(id),
            names: v.names.remove(id),
            ..v
        },
        EventView::PlayerNameUpdate { id, new_name } => SummaryView {
            names: v.names.insert(id, new_name),
            ..v
        },
    }
}

/// Whether the match of `v` is shown when it ends: match zero (before the
/// first boundary) never is, and with a chosen game only that one is.
pub open spec fn shown(v: SummaryView) -> bool {
    v.match_number != 0 && (v.game_to_show is None || v.game_to_show == Some(v.match_number))
}

/// `players` lists `names` in ascending id order.
pub open spec fn lists_roster(players: Seq<(Id, String)>, names: Map<Id, Seq<char>>) -> bool {
    &&& forall|i: int, j: int| 0 <= i < j < players.len() ==> players[i].0 < players[j].0
    &&& forall|i: int|
        0 <= i < players.len() ==> #[trigger] names.contains_key(players[i].0)
            && names[players[i].0] == players[i].1@
    &&& forall|k: Id|
        #[trigger] names.contains_key(k) ==> exists|i: int|
            0 <= i < players.len() && #[trigger] players[i].0 == k
}

/// `scores_list` holds, in ascending id order, each id that has both a
/// score and a name, with that name and score.
pub open spec fn lists_scores(
    scores_list: Seq<(Id, String, i32)>,
    scores: Scores,
    names: Map<Id, Seq<char>>,
) -> bool {
    &&& forall|i: int, j: int| 0 <= i < j < scores_list.len() ==> scores_list[i].0 < scores_list[j].0
    &&& forall|i: int|
        0 <= i < scores_list.len() ==> {
            &&& #[trigger] scores.contains_key(scores_list[i].0)
            &&& names.contains_key(scores_list[i].0)
            &&& names[scores_list[i].0] == scores_list[i].1@
            &&& scores[scores_list[i].0] == scores_list[i].2
        }
    &&& forall|k: Id|
        #[trigger] scores.contains_key(k) && names.contains_key(k) ==> exists|i: int|
            0 <= i < scores_list.len() && #[trigger] scores_list[i].0 == k
}

/// `causes_list` holds each cause of `causes` once, with its count.
pub open spec fn lists_causes(causes_list: Seq<(String, u32)>, causes: CauseCounts) -> bool {
    &&& causes_list.len() == causes.len()
    &&& forall|i: int|
        0 <= i < causes_list.len() ==> #[trigger] causes.contains_key(causes_list[i].0@)
            && causes[causes_list[i].0@] == causes_list[i].1
    &&& forall|i: int, j: int| 0 <= i < j < causes_list.len() ==> causes_list[i].0@ != causes_list[j].0@
}

/// `s` is the summary of the match in `v`.
pub open spec fn summarizes(s: MatchSummary, v: SummaryView) -> bool {
    &&& s.match_number == v.match_number
    &&& s.total_kills == v.total_kills
    &&& lists_roster(s.players@, v.names)
    &&& lists_scores(s.scores@, v.scores, v.names)
    &&& lists_causes(s.death_causes@, v.causes)
}

/// Builds match summaries from events.
///
/// Counts kills, deaths by cause and scores for the match in progress; at
/// each match boundary it hands back the summary of the match that ended
/// and starts the next one from zero.
pub struct SummaryProcessor {
    match_number: u32,
    total_kills: u32,
    death_cause_count: Counter<String, u32>,
    scoreboard: Counter<Id, i32>,
    player_names: BTreeMap<Id, String>,
    game_to_show: Option<u32>,
}

impl View for SummaryProcessor {
    type V = SummaryView;

    closed spec fn view(&self) -> SummaryView {
        SummaryView {
            match_number: self.match_number,
            total_kills: self.total_kills,
            causes: cause_tally(self.death_cause_count),
            scores: score_tally(self.scoreboard),
            names: self.player_names@.map_values(|s: String| s@),
            game_to_show: self.game_to_show,
        }
    }
}

impl SummaryProcessor {
    fn starting(match_number: u32, game_to_show: Option<u32>) -> (r: Self)
        ensures
            r@ == fresh(match_number, game_to_show),
    {
        let r = SummaryProcessor {
            match_number,
            total_kills: 0,
            death_cause_count: new_cause_counter(),
            scoreboard: new_score_counter(),
            player_names: BTreeMap::new(),
            game_to_show,
        };
        assert(r@.names =~= Map::<Id, Seq<char>>::empty());
        r
    }

    /// A processor before the first match boundary (match zero), showing
    /// only match `game_to_show` when one is given.
    pub fn new(game_to_show: Option<u32>) -> (r: Self)
        ensures
            r@ == fresh(0, game_to_show),
    {
        Self::starting(0, game_to_show)
    }

    /// The summary of the match in progress.
    fn summarize(&self) -> (r: MatchSummary)
        ensures
            summarizes(r, self@),
    {
        let mut players: Vec<(Id, String)> = Vec::new();
        let roster = self.player_names.iter();
        let ghost items = roster.remaining();
        let ghost names = self@.names;
        assert(increasing_seq(items.map_values(|kv: (&Id, &String)| *kv.0)));
        for entry in it: roster
            invariant
                it.seq() == items,
                players@.len() == it.index(),
                forall|j: int| 0 <= j < it.index() ==> #[trigger] players@[j].0 == *it.seq()[j].0,
                forall|j: int| 0 <= j < it.index() ==> #[trigger] players@[j].1 == *it.seq()[j].1,
        {
            let (id, name) = entry;
            players.push((*id, name.clone()));
        }
        proof {
            let keys = items.map_values(|kv: (&Id, &String)| *kv.0);
            assert forall|i: int, j: int| 0 <= i < j < players@.len() implies players@[i].0
                < players@[j].0 by {
                assert(keys[i] == players@[i].0);
                assert(keys[j] == players@[j].0);
                assert(increasing_seq(keys));
                assert(keys[i].cmp_spec(&keys[j]) is Less);
            }
            assert forall|i: int| 0 <= i < players@.len() implies #[trigger] names.contains_key(
                players@[i].0,
            ) && names[players@[i].0] == players@[i].1@ by {
                assert(self.player_names@.contains_key(*items[i].0));
            }
            assert forall|k: Id| #[trigger] names.contains_key(k) implies exists|i: int|
                0 <= i < players@.len() && #[trigger] players@[i].0 == k by {
                assert(self.player_names@.contains_key(k));
                assert(items.contains((&k, &self.player_names@[k])));
                let i = choose|i: int| 0 <= i < items.len() && items[i] == (&k, &self.player_names@[k]);
                assert(players@[i].0 == k);
            }
        }
        assert(lists_roster(players@, names));
        let ghost tally = score_tally(self.scoreboard);
        let mut scores: Vec<(Id, String, i32)> = Vec::new();
        let ghost mut pos: Seq<int> = Seq::empty();
        let mut j: usize = 0;
        while j < players.len()
            invariant
                tally == score_tally(self.scoreboard),
                names == self@.names,
                lists_roster(players@, names),
                j <= players@.len(),
                pos.len() == scores@.len(),
                forall|a: int| 0 <= a < pos.len() ==> 0 <= #[trigger] pos[a] < j,
                forall|a: int, b: int| 0 <= a < b < pos.len() ==> pos[a] < pos[b],
                forall|a: int|
                    0 <= a < pos.len() ==> {
                        &&& #[trigger] scores@[a].0 == players@[pos[a]].0
                        &&& scores@[a].1 == players@[pos[a]].1
                        &&& tally.contains_key(scores@[a].0)
                        &&& tally[scores@[a].0] == scores@[a].2
                    },
                forall|m: int|
                    0 <= m < j && tally.contains_key(#[trigger] players@[m].0) ==> exists|a: int|
                        0 <= a < pos.len() && pos[a] == m,
            decreases players@.len() - j,
        {
            let id = players[j].0;
            match stored_score(&self.scoreboard, id) {
                Some(score) => {
                    let name = players[j].1.clone();
                    scores.push((id, name, score));
                    proof {
                        let old_pos = pos;
                        pos = pos.push(j as int);
                        assert forall|m: int|
                            0 <= m < j + 1 && tally.contains_key(
                                #[trigger] players@[m].0,
                            ) implies exists|a: int| 0 <= a < pos.len() && pos[a] == m by {
                            if m < j {
                                let a = choose|a: int| 0 <= a < old_pos.len() && old_pos[a] == m;
                                assert(pos[a] == m);
                            } else {
                                assert(pos[pos.len() - 1] == m);
                            }
                        }
                    }
                },
                None => {},
            }
            j = j + 1;
        }
        proof {
            assert forall|a: int, b: int| 0 <= a < b < scores@.len() implies scores@[a].0
                < scores@[b].0 by {
                assert(scores@[a].0 == players@[pos[a]].0);
                assert(scores@[b].0 == players@[pos[b]].0);
            }
            assert forall|a: int| 0 <= a < scores@.len() implies {
                &&& #[trigger] tally.contains_key(scores@[a].0)
                &&& names.contains_key(scores@[a].0)
                &&& names[scores@[a].0] == scores@[a].1@
                &&& tally[scores@[a].0] == scores@[a].2
            } by {
                assert(scores@[a].0 == players@[pos[a]].0);
                assert(names.contains_key(players@[pos[a]].0));
            }
            assert forall|k: Id| #[trigger] tally.contains_key(k) && names.contains_key(k) implies exists|
                a: int,
            | 0 <= a < scores@.len() && #[trigger] scores@[a].0 == k by {
                let i = choose|i: int| 0 <= i < players@.len() && #[trigger] players@[i].0 == k;
                let a = choose|a: int| 0 <= a < pos.len() && pos[a] == i;
                assert(scores@[a].0 == players@[pos[a]].0);
            }
        }
        MatchSummary {
            match_number: self.match_number,
            total_kills: self.total_kills,
            players,
            scores,
            death_causes: cause_entries(&self.death_cause_count),
        }
    }
}

impl SummaryProcessor {
    /// Whether the counters can take `event` without passing the bounds of
    /// their integer types.
    pub fn has_room_for(&self, event: &Event) -> (r: bool)
        ensures
            r == room_for(self@, event@),
    {
        match event {
            Event::Kill { killer, victim, death_cause } => {
                if self.total_kills == u32::MAX {
                    return false;
                }
                if cause_count(&self.death_cause_count, death_cause) == u32::MAX {
                    return false;
                }
                if *killer == WORLD_ID {
                    let s = match stored_score(&self.scoreboard, *victim) {
                        Some(s) => s,
                        None => 0,
                    };
                    s > i32::MIN
                } else {
                    let s = match stored_score(&self.scoreboard, *killer) {
                        Some(s) => s,
                        None => 0,
                    };
                    s < i32::MAX
                }
            },
            Event::ResetMatch => self.match_number < u32::MAX,
            _ => true,
        }
    }

    /// Takes one event into the match in progress.
    ///
    /// A kill counts once in the total and once for its cause; it gives the
    /// killer a point, or, when the world killed, takes one from the victim.
    /// A join starts the player at zero under their name, a leave forgets
    /// both, a rename changes the name alone. A match boundary starts the
    /// next match from zero and hands back the summary of the one that
    /// ended, if that one is shown.
    pub fn process(&mut self, event: Event) -> (r: Option<MatchSummary>)
        requires
            room_for(old(self)@, event@),
        ensures
            final(self)@ == after_event(old(self)@, event@),
            event is ResetMatch && shown(old(self)@) ==> (r matches Some(s) && summarizes(
                s,
                old(self)@,
            )),
            !(event is ResetMatch && shown(old(self)@)) ==> r is None,
    {
        match event {
            Event::Kill { killer, victim, death_cause } => {
                self.total_kills = self.total_kills + 1;
                let c = cause_count(&self.death_cause_count, &death_cause);
                set_cause_count(&mut self.death_cause_count, &death_cause, c + 1);
                if killer == WORLD_ID {
                    let s = match stored_score(&self.scoreboard, victim) {
                        Some(s) => s,
                        None => 0,
                    };
                    set_score(&mut self.scoreboard, victim, s - 1);
                } else {
                    let s = match stored_score(&self.scoreboard, killer) {
                        Some(s) => s,
                        None => 0,
                    };
                    set_score(&mut self.scoreboard, killer, s + 1);
                }
                None
            },
            Event::ResetMatch => {
                let ended = self.summary_if_shown();
                *self = Self::starting(self.match_number + 1, self.game_to_show);
                ended
            },
            Event::PlayerJoined { id, name } => {
                set_score(&mut self.scoreboard, id, 0);
                let ghost before = self@.names;
                self.player_names.insert(id, name);
                assert(self@.names =~= before.insert(id, name@));
                None
            },
            Event::PlayerLeft { id } => {
                remove_score(&mut self.scoreboard, id);
                let ghost before = self@.names;
                self.player_names.remove(&id);
                assert(self@.names =~= before.remove(id));
                None
            },
            Event::PlayerNameUpdate { id, new_name } => {
                let ghost before = self@.names;
                self.player_names.insert(id, new_name);
                assert(self@.names =~= before.insert(id, new_name@));
                None
            },
        }
    }

    /// The summary of the match in progress, if it is shown: match zero
    /// never is, and with a chosen game only that one is.
    pub fn output(self) -> (r: Option<MatchSummary>)
        ensures
            shown(self@) ==> (r matches Some(s) && summarizes(s, self@)),
            !shown(self@) ==> r is None,
    {
        self.summary_if_shown()
    }

    fn summary_if_shown(&self) -> (r: Option<MatchSummary>)
        ensures
            shown(self@) ==> (r matches Some(s) && summarizes(s, self@)),
            !shown(self@) ==> r is None,
    {
        let should_skip = self.match_number == 0 || match self.game_to_show {
            Some(game) => self.match_number != game,
            None => false,
        };
        if should_skip {
            None
        } else {
            Some(self.summarize())
        }
    }
}

/// The player whose score a kill changes: the killer, or the victim when
/// the world killed.
pub open spec fn scored_player(killer: Id, victim: Id) -> Id {
    if killer == WORLD_ID {
        victim
    } else {
        killer
    }
}

/// Every kill counts once in the total and once for its cause. A player's
/// kill gives the killer one point; a kill by the world takes one point
/// from the victim and gives nobody anything. No other count or score entry
/// is created or changed, and names stay as they were.
pub proof fn kill_scoring(v: SummaryView, killer: Id, victim: Id, cause: Seq<char>)
    requires
        room_for(v, EventView::Kill { killer, victim, death_cause: cause }),
    ensures
        ({
            let w = after_event(v, EventView::Kill { killer, victim, death_cause: cause });
            let p = scored_player(killer, victim);
            &&& w.total_kills == v.total_kills + 1
            &&& w.causes.contains_key(cause)
            &&& w.causes[cause] == count_of(v.causes, cause) + 1
            &&& forall|c: Seq<char>|
                c != cause ==> (#[trigger] w.causes.contains_key(c) == v.causes.contains_key(c) && (
                v.causes.contains_key(c) ==> w.causes[c] == v.causes[c]))
            &&& killer != WORLD_ID ==> w.scores[killer] == score_of(v.scores, killer) + 1
            &&& killer == WORLD_ID ==> w.scores[victim] == score_of(v.scores, victim) - 1
            &&& w.scores.contains_key(p)
            &&& forall|q: Id|
                q != p ==> (#[trigger] w.scores.contains_key(q) == v.scores.contains_key(q) && (
                v.scores.contains_key(q) ==> w.scores[q] == v.scores[q]))
            &&& w.names == v.names
            &&& w.match_number == v.match_number
        }),
{
}

/// A match boundary starts the next match from zero: the number goes up by
/// one, and there are no kills, causes, scores or players.
pub proof fn boundary_resets(v: SummaryView)
    requires
        room_for(v, EventView::ResetMatch),
    ensures
        ({
            let w = after_event(v, EventView::ResetMatch);
            &&& w.match_number == v.match_number + 1
            &&& w.total_kills == 0
            &&& w.causes.dom().is_empty()
            &&& w.scores.dom().is_empty()
            &&& w.names.dom().is_empty()
            &&& w.game_to_show == v.game_to_show
        }),
{
}

} // verus!
