//! The crawler's decisions: reserving unseen matches out of a shared
//! set, picking the next participant to follow, and flattening a match
//! into one output record.
//!
//! The walk itself — fetching over HTTP, sleeping, writing the record —
//! is driven from outside; everything here is plain computation.

use vstd::prelude::*;

use vstd::hash_set::HashSetWithView;

use crate::match_v4::{MasteryDto, MatchDto, MatchlistDto, ParticipantDto, RuneDto};
use crate::numfmt::{i32_to_string, spec_idecimal};

verus! {

/// The match ids some walker has already claimed.  All walkers share
/// one value of this type (behind a lock) so that no match is recorded
/// twice.
pub struct SeenMatches {
    ids: HashSetWithView<i64>,
}

impl SeenMatches {
    /// The set of claimed match ids.
    pub closed spec fn model(self) -> Set<i64> {
        self.ids@
    }

    /// An empty set: no match claimed yet.
    pub fn new() -> (s: SeenMatches)
        ensures
            s.model() == Set::<i64>::empty(),
    {
        SeenMatches { ids: HashSetWithView::new() }
    }

    /// Whether a match id has been claimed.
    pub fn contains(&self, game_id: i64) -> (r: bool)
        ensures
            r == self.model().contains(game_id),
    {
        self.ids.contains(&game_id)
    }

    /// Claims a match id.
    pub fn insert(&mut self, game_id: i64)
        ensures
            final(self).model() == old(self).model().insert(game_id),
    {
        self.ids.insert(game_id);
    }

    /// How many match ids have been claimed.
    pub fn len(&self) -> (r: usize)
        ensures
            r == self.model().len(),
    {
        self.ids.len()
    }
}

/// Claims the first match of the history that no walker has seen yet:
/// walks the match references in order, skips the ids already claimed,
/// and claims and returns the first unclaimed one.  Returns `None`, and
/// claims nothing, exactly when every match of the history is already
/// claimed.
pub fn reserve_new_match_id(seen: &mut SeenMatches, matchlist: &MatchlistDto) -> (r: Option<i64>)
    ensures
        (r is None) <==> (forall|i: int|
            0 <= i < matchlist.matches@.len() ==> old(seen).model().contains(
                (#[trigger] matchlist.matches@[i]).game_id,
            )),
        (r is None) ==> final(seen).model() == old(seen).model(),
        r matches Some(g) ==> !old(seen).model().contains(g) && final(seen).model() == old(
            seen,
        ).model().insert(g) && (exists|i: int|
            0 <= i < matchlist.matches@.len() && (#[trigger] matchlist.matches@[i]).game_id == g
                && (forall|j: int|
                0 <= j < i ==> old(seen).model().contains(matchlist.matches@[j].game_id))),
{
    let n = matchlist.matches.len();
    let mut i: usize = 0;
    while i < n
        invariant
            i <= n == matchlist.matches@.len(),
            *seen == *old(seen),
            forall|j: int|
                0 <= j < i ==> old(seen).model().contains(
                    (#[trigger] matchlist.matches@[j]).game_id,
                ),
        decreases n - i,
    {
        let g = matchlist.matches[i].game_id;
        if !seen.contains(g) {
            seen.insert(g);
            return Some(g);
        }
        i += 1;
    }
    None
}

/// Relies on `rand::random`: draws one machine word from the thread's
/// generator.  Nothing is promised of the value; every caller must cope
/// with any result.
#[verifier::external_body]
fn random_usize() -> usize {
    rand::random::<usize>()
}

/// The account id of the participant at `pick`, wrapped around the
/// participant list.
pub fn pick_participant_account<'a>(match_dto: &'a MatchDto, pick: usize) -> (r: &'a String)
    requires
        match_dto.participant_identities@.len() > 0,
    ensures
        r == &match_dto.participant_identities@[pick as int % match_dto.participant_identities@.len() as int].player.account_id,
{
    let idx = pick % match_dto.participant_identities.len();
    &match_dto.participant_identities[idx].player.account_id
}

/// The account id of a uniformly chosen participant of the match.  The
/// draw comes from the process's random generator, so only membership is
/// promised: the result is the account id of some participant.
pub fn random_account_id<'a>(match_dto: &'a MatchDto) -> (r: &'a String)
    requires
        match_dto.participant_identities@.len() > 0,
    ensures
        exists|i: int|
            0 <= i < match_dto.participant_identities@.len() && r == &(
            #[trigger] match_dto.participant_identities@[i]).player.account_id,
{
    let pick = random_usize();
    let r = pick_participant_account(match_dto, pick);
    proof {
        let i = pick as int % match_dto.participant_identities@.len() as int;
        assert(0 <= i < match_dto.participant_identities@.len());
        assert(r == &match_dto.participant_identities@[i].player.account_id);
    }
    r
}

/// The views of a list of strings.
pub open spec fn views_of(s: Seq<String>) -> Seq<Seq<char>> {
    s.map_values(|x: String| x@)
}

/// The record fields a participant's masteries contribute: id and rank,
/// in order.
pub open spec fn mastery_items(s: Seq<MasteryDto>) -> Seq<Seq<char>>
    decreases s.len(),
{
    if s.len() == 0 {
        Seq::empty()
    } else {
        mastery_items(s.drop_last()) + seq![
            spec_idecimal(s.last().mastery_id as int),
            spec_idecimal(s.last().rank as int),
        ]
    }
}

/// The record fields a participant's runes contribute: id and rank, in
/// order.
pub open spec fn rune_items(s: Seq<RuneDto>) -> Seq<Seq<char>>
    decreases s.len(),
{
    if s.len() == 0 {
        Seq::empty()
    } else {
        rune_items(s.drop_last()) + seq![
            spec_idecimal(s.last().rune_id as int),
            spec_idecimal(s.last().rank as int),
        ]
    }
}

/// The record fields one participant contributes: champion, the two
/// summoner spells, the masteries, the runes, then tier, lane and role.
pub open spec fn spec_participant_items(p: ParticipantDto) -> Seq<Seq<char>> {
    seq![
        spec_idecimal(p.champion_id as int),
        spec_idecimal(p.spell1_id as int),
        spec_idecimal(p.spell2_id as int),
    ] + mastery_items(p.masteries@) + rune_items(p.runes@) + seq![
        p.highest_achieved_season_tier@,
        p.timeline.lane@,
        p.timeline.role@,
    ]
}

/// The record fields of a whole match: every participant's fields, in
/// participant order.
pub open spec fn spec_match_items(ps: Seq<ParticipantDto>) -> Seq<Seq<char>>
    decreases ps.len(),
{
    if ps.len() == 0 {
        Seq::empty()
    } else {
        spec_match_items(ps.drop_last()) + spec_participant_items(ps.last())
    }
}

/// Fields joined into one comma-separated line.
pub open spec fn spec_join_comma(items: Seq<Seq<char>>) -> Seq<char>
    decreases items.len(),
{
    if items.len() == 0 {
        Seq::empty()
    } else if items.len() == 1 {
        items[0]
    } else {
        spec_join_comma(items.drop_last()) + seq![','] + items.last()
    }
}

proof fn lemma_views_push(s: Seq<String>, x: String)
    ensures
        views_of(s.push(x)) == views_of(s).push(x@),
{
    assert(views_of(s.push(x)) =~= views_of(s).push(x@));
}

/// Appends one participant's record fields.
fn push_participant_items(items: &mut Vec<String>, p: &ParticipantDto)
    ensures
        views_of(final(items)@) == views_of(old(items)@) + spec_participant_items(*p),
{
    let ghost base = items@;
    let champ = i32_to_string(p.champion_id);
    let spell1 = i32_to_string(p.spell1_id);
    let spell2 = i32_to_string(p.spell2_id);
    proof {
        lemma_views_push(base, champ);
        lemma_views_push(base.push(champ), spell1);
        lemma_views_push(base.push(champ).push(spell1), spell2);
    }
    items.push(champ);
    items.push(spell1);
    items.push(spell2);
    proof {
        assert(views_of(items@) =~= views_of(base) + seq![
            spec_idecimal(p.champion_id as int),
            spec_idecimal(p.spell1_id as int),
            spec_idecimal(p.spell2_id as int),
        ]);
    }
    let ghost head = views_of(items@);
    let mut k: usize = 0;
    while k < p.masteries.len()
        invariant
            k <= p.masteries@.len(),
            views_of(items@) == head + mastery_items(p.masteries@.take(k as int)),
        decreases p.masteries@.len() - k,
    {
        let m = p.masteries[k];
        let ghost prev = items@;
        let a = i32_to_string(m.mastery_id);
        let b = i32_to_string(m.rank);
        proof {
            lemma_views_push(prev, a);
            lemma_views_push(prev.push(a), b);
        }
        items.push(a);
        items.push(b);
        proof {
            assert(p.masteries@.take(k + 1).drop_last() =~= p.masteries@.take(k as int));
            assert(p.masteries@.take(k + 1).last() == p.masteries@[k as int]);
            assert(mastery_items(p.masteries@.take(k + 1)) == mastery_items(
                p.masteries@.take(k as int),
            ) + seq![spec_idecimal(m.mastery_id as int), spec_idecimal(m.rank as int)]);
            assert(views_of(items@) =~= head + mastery_items(p.masteries@.take(k + 1)));
        }
        k += 1;
    }
    proof {
        assert(p.masteries@.take(p.masteries@.len() as int) =~= p.masteries@);
    }
    let ghost mid = views_of(items@);
    let mut k2: usize = 0;
    while k2 < p.runes.len()
        invariant
            k2 <= p.runes@.len(),
            views_of(items@) == mid + rune_items(p.runes@.take(k2 as int)),
        decreases p.runes@.len() - k2,
    {
        let rn = p.runes[k2];
        let ghost prev = items@;
        let a = i32_to_string(rn.rune_id);
        let b = i32_to_string(rn.rank);
        proof {
            lemma_views_push(prev, a);
            lemma_views_push(prev.push(a), b);
        }
        items.push(a);
        items.push(b);
        proof {
            assert(p.runes@.take(k2 + 1).drop_last() =~= p.runes@.take(k2 as int));
            assert(p.runes@.take(k2 + 1).last() == p.runes@[k2 as int]);
            assert(rune_items(p.runes@.take(k2 + 1)) == rune_items(p.runes@.take(k2 as int))
                + seq![spec_idecimal(rn.rune_id as int), spec_idecimal(rn.rank as int)]);
            assert(views_of(items@) =~= mid + rune_items(p.runes@.take(k2 + 1)));
        }
        k2 += 1;
    }
    proof {
        assert(p.runes@.take(p.runes@.len() as int) =~= p.runes@);
    }
    let ghost tail_base = items@;
    let tier = p.highest_achieved_season_tier.clone();
    let lane = p.timeline.lane.clone();
    let role = p.timeline.role.clone();
    proof {
        lemma_views_push(tail_base, tier);
        lemma_views_push(tail_base.push(tier), lane);
        lemma_views_push(tail_base.push(tier).push(lane), role);
    }
    items.push(tier);
    items.push(lane);
    items.push(role);
    proof {
        assert(views_of(items@) =~= views_of(old(items)@) + spec_participant_items(*p));
    }
}

/// The record fields of a whole match, as strings.
fn build_line_items(match_dto: &MatchDto) -> (items: Vec<String>)
    ensures
        views_of(items@) == spec_match_items(match_dto.participants@),
{
    let mut items: Vec<String> = Vec::new();
    proof {
        assert(views_of(items@) =~= Seq::<Seq<char>>::empty());
    }
    let mut i: usize = 0;
    while i < match_dto.participants.len()
        invariant
            i <= match_dto.participants@.len(),
            views_of(items@) == spec_match_items(match_dto.participants@.take(i as int)),
        decreases match_dto.participants@.len() - i,
    {
        push_participant_items(&mut items, &match_dto.participants[i]);
        proof {
            assert(match_dto.participants@.take(i + 1).drop_last() =~= match_dto.participants@
                .take(i as int));
            assert(match_dto.participants@.take(i + 1).last() == match_dto.participants@[
                i as int]);
        }
        i += 1;
    }
    proof {
        assert(match_dto.participants@.take(match_dto.participants@.len() as int)
            =~= match_dto.participants@);
    }
    items
}

/// Strings joined with commas.
fn join_comma(items: &Vec<String>) -> (r: String)
    ensures
        r@ == spec_join_comma(views_of(items@)),
{
    let ghost v = views_of(items@);
    if items.len() == 0 {
        return String::new();
    }
    let mut s = items[0].clone();
    proof {
        reveal_strlit(",");
        assert(s@ =~= spec_join_comma(v.take(1)));
    }
    let mut i: usize = 1;
    while i < items.len()
        invariant
            1 <= i <= items@.len(),
            v == views_of(items@),
            s@ == spec_join_comma(v.take(i as int)),
        decreases items@.len() - i,
    {
        s.append(",");
        s.append(items[i].as_str());
        proof {
            reveal_strlit(",");
            assert(","@ =~= seq![',']);
            assert(v.take(i + 1).drop_last() =~= v.take(i as int));
            assert(v.take(i + 1).last() == v[i as int]);
            assert(s@ =~= spec_join_comma(v.take(i + 1)));
        }
        i += 1;
    }
    proof {
        assert(v.take(v.len() as int) =~= v);
    }
    s
}

/// One match flattened into an output record: every participant's
/// fields joined with commas, ended by a newline.
pub fn match_to_line(match_dto: &MatchDto) -> (r: String)
    ensures
        r@ == spec_join_comma(spec_match_items(match_dto.participants@)) + seq!['\n'],
{
    let items = build_line_items(match_dto);
    let mut line = join_comma(&items);
    proof {
        reveal_strlit("\n");
        assert("\n"@ =~= seq!['\n']);
    }
    line.append("\n");
    line
}

} // verus!
