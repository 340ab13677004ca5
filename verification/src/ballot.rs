//! The reward ballot: quorum-based headcount adjudication of a concluded
//! ceremony, and the reward issuance pass built on it.

use vstd::prelude::*;

use crate::{CeremonyPhase, CurrencyIdentifier, MeetupIndexType, Reputation, Trait};
use crate::registry::Ceremonies;
use crate::storage::{
    contains_u64, count_get, count_lookup, lemma_rep_push, members_get, members_lookup, slot_get,
    slot_lookup, CountEntry, MembersEntry, RepEntry, SlotEntry,
};

verus! {

/// How many members of `members` vote exactly `v` in the vote store.
pub open spec fn vcount(
    votes: Seq<SlotEntry>,
    cid: u64,
    ci: u32,
    members: Seq<u64>,
    v: u64,
) -> int
    decreases members.len(),
{
    if members.len() == 0 {
        0
    } else {
        vcount(votes, cid, ci, members.drop_last(), v) + (if slot_lookup(
            votes,
            cid,
            ci,
            members.last(),
        ) == v {
            1int
        } else {
            0int
        })
    }
}

/// The distinct positive headcount values voted by `members`, in order of
/// first encounter.
pub open spec fn cands(votes: Seq<SlotEntry>, cid: u64, ci: u32, members: Seq<u64>) -> Seq<u64>
    decreases members.len(),
{
    if members.len() == 0 {
        Seq::<u64>::empty()
    } else {
        let pre = cands(votes, cid, ci, members.drop_last());
        let v = slot_lookup(votes, cid, ci, members.last());
        if v > 0 && !pre.contains(v) {
            pre.push(v)
        } else {
            pre
        }
    }
}

/// The winning headcount value among `cs`: the one with the most votes,
/// ties broken in favour of the value encountered first.
pub open spec fn best_candidate(
    votes: Seq<SlotEntry>,
    cid: u64,
    ci: u32,
    members: Seq<u64>,
    cs: Seq<u64>,
) -> Option<u64>
    decreases cs.len(),
{
    if cs.len() == 0 {
        None
    } else {
        match best_candidate(votes, cid, ci, members, cs.drop_last()) {
            None => Some(cs.last()),
            Some(b) => {
                if vcount(votes, cid, ci, members, cs.last()) > vcount(votes, cid, ci, members, b) {
                    Some(cs.last())
                } else {
                    Some(b)
                }
            },
        }
    }
}

/// A value's vote count never exceeds the meetup size.
pub proof fn lemma_vcount_le_len(votes: Seq<SlotEntry>, cid: u64, ci: u32, members: Seq<u64>, v: u64)
    ensures
        0 <= vcount(votes, cid, ci, members, v) <= members.len(),
    decreases members.len(),
{
    if members.len() == 0 {
    } else {
        lemma_vcount_le_len(votes, cid, ci, members.drop_last(), v);
    }
}

/// The candidate list holds positive values, each at most once.
pub proof fn lemma_cands_wf(votes: Seq<SlotEntry>, cid: u64, ci: u32, members: Seq<u64>)
    ensures
        forall|t: int|
            0 <= t < cands(votes, cid, ci, members).len() ==> #[trigger] cands(
                votes,
                cid,
                ci,
                members,
            )[t] > 0,
        forall|t1: int, t2: int|
            0 <= t1 < t2 < cands(votes, cid, ci, members).len() ==> cands(votes, cid, ci, members)[t1]
                != cands(votes, cid, ci, members)[t2],
    decreases members.len(),
{
    if members.len() == 0 {
    } else {
        lemma_cands_wf(votes, cid, ci, members.drop_last());
        let pre = cands(votes, cid, ci, members.drop_last());
        let v = slot_lookup(votes, cid, ci, members.last());
        if v > 0 && !pre.contains(v) {
            assert forall|t1: int, t2: int|
                0 <= t1 < t2 < cands(votes, cid, ci, members).len() implies cands(
                votes,
                cid,
                ci,
                members,
            )[t1] != cands(votes, cid, ci, members)[t2] by {
                if t2 == pre.len() {
                    assert(pre[t1] != v) by {
                        if pre[t1] == v {
                            assert(pre.contains(v));
                        }
                    }
                }
            }
        }
    }
}

/// A positive value outside the candidate list received no votes.
pub proof fn lemma_cands_absent(votes: Seq<SlotEntry>, cid: u64, ci: u32, members: Seq<u64>, v: u64)
    ensures
        v > 0 && !cands(votes, cid, ci, members).contains(v) ==> vcount(
            votes,
            cid,
            ci,
            members,
            v,
        ) == 0,
    decreases members.len(),
{
    if members.len() == 0 {
    } else {
        lemma_cands_absent(votes, cid, ci, members.drop_last(), v);
        let pre = cands(votes, cid, ci, members.drop_last());
        let w = slot_lookup(votes, cid, ci, members.last());
        if v > 0 && !cands(votes, cid, ci, members).contains(v) {
            if w == v {
                if pre.contains(v) {
                    assert(cands(votes, cid, ci, members) == pre);
                } else {
                    assert(cands(votes, cid, ci, members)[pre.len() as int] == v);
                }
                assert(cands(votes, cid, ci, members).contains(v));
            } else {
                if pre.contains(v) {
                    let k = choose|k: int| 0 <= k < pre.len() && pre[k] == v;
                    if w > 0 && !pre.contains(w) {
                        assert(cands(votes, cid, ci, members)[k] == v);
                    }
                    assert(cands(votes, cid, ci, members).contains(v));
                }
            }
        }
    }
}

/// The winner, when there is one, is one of the candidates.
pub proof fn lemma_best_in_cands(
    votes: Seq<SlotEntry>,
    cid: u64,
    ci: u32,
    members: Seq<u64>,
    cs: Seq<u64>,
)
    ensures
        best_candidate(votes, cid, ci, members, cs) matches Some(v) ==> cs.contains(v),
    decreases cs.len(),
{
    if cs.len() == 0 {
    } else {
        lemma_best_in_cands(votes, cid, ci, members, cs.drop_last());
        match best_candidate(votes, cid, ci, members, cs) {
            None => {},
            Some(v) => {
                if v == cs.last() {
                    assert(cs[cs.len() - 1] == v);
                } else {
                    assert(cs.drop_last().contains(v));
                    let k = choose|k: int|
                        0 <= k < cs.drop_last().len() && cs.drop_last()[k] == v;
                    assert(cs[k] == v);
                }
                assert(cs.contains(v));
            },
        }
    }
}

/// The ballot outcome of one meetup, over the raw meetup and vote stores:
/// the winning headcount value and its vote count, or None when nobody
/// voted or the winning bucket has fewer than 3 votes.
pub open spec fn ballot_over(
    mreg: Seq<MembersEntry>,
    votes: Seq<SlotEntry>,
    cid: u64,
    cindex: u32,
    meetup_idx: u64,
) -> Option<(u64, u64)> {
    let members = members_lookup(mreg, cid, cindex, meetup_idx);
    let cs = cands(votes, cid, cindex, members);
    match best_candidate(votes, cid, cindex, members, cs) {
        None => None,
        Some(v) => {
            let c = vcount(votes, cid, cindex, members, v);
            if 3 <= c && c <= u64::MAX {
                Some((v, c as u64))
            } else {
                None
            }
        },
    }
}

impl Ceremonies {
    /// The ballot outcome of one meetup of this state.
    pub open spec fn ballot_spec(self, cid: u64, cindex: u32, meetup_idx: u64) -> Option<
        (u64, u64),
    > {
        ballot_over(
            self.meetup_registry@,
            self.meetup_participant_count_vote@,
            cid,
            cindex,
            meetup_idx,
        )
    }
}

/// A successful ballot names a positive winning value whose bucket reached
/// the quorum of 3 votes and whose count is the winner's exact tally.
pub proof fn lemma_ballot_some(c: Ceremonies, cid: u64, cindex: u32, meetup_idx: u64)
    ensures
        c.ballot_spec(cid, cindex, meetup_idx) matches Some(p) ==> ({
            let votes = c.meetup_participant_count_vote@;
            let members = members_lookup(c.meetup_registry@, cid, cindex, meetup_idx);
            &&& p.0 >= 1
            &&& p.1 >= 3
            &&& p.1 == vcount(votes, cid, cindex, members, p.0)
        }),
{
    let votes = c.meetup_participant_count_vote@;
    let members = members_lookup(c.meetup_registry@, cid, cindex, meetup_idx);
    let cs = cands(votes, cid, cindex, members);
    lemma_best_in_cands(votes, cid, cindex, members, cs);
    lemma_cands_wf(votes, cid, cindex, members);
    match c.ballot_spec(cid, cindex, meetup_idx) {
        None => {},
        Some(p) => {
            let k = choose|k: int| 0 <= k < cs.len() && cs[k] == p.0;
            assert(cs[k] > 0);
            lemma_vcount_le_len(votes, cid, cindex, members, p.0);
        },
    }
}

/// Find the first tally pair carrying `val`.
fn find_candidate(v: &Vec<(u64, u64)>, val: u64) -> (r: Option<usize>)
    ensures
        match r {
            Some(j) => j < v@.len() && v@[j as int].0 == val && forall|t: int|
                0 <= t < j ==> v@[t].0 != val,
            None => forall|t: int| 0 <= t < v@.len() ==> v@[t].0 != val,
        },
{
    let mut j: usize = 0;
    while j < v.len()
        invariant
            j <= v@.len(),
            forall|t: int| 0 <= t < j ==> v@[t].0 != val,
        decreases v@.len() - j,
    {
        if v[j].0 == val {
            return Some(j);
        }
        j = j + 1;
    }
    None
}

impl Ceremonies {
    /// Tally the headcount votes of one meetup and return the winning value
    /// with its vote count; None when no positive vote exists or the winning
    /// bucket has fewer than 3 votes. Ties go to the value first encountered
    /// in member order.
    pub fn ballot_meetup_n_votes(
        &self,
        cid: CurrencyIdentifier,
        cindex: u32,
        meetup_idx: MeetupIndexType,
    ) -> (r: Option<(u64, u64)>)
        ensures
            r == self.ballot_spec(cid, cindex, meetup_idx),
    {
        let meetup_participants = members_get(&self.meetup_registry, cid, cindex, meetup_idx);
        let ghost ms = meetup_participants@;
        let ghost votes = self.meetup_participant_count_vote@;
        let mut n_vote_candidates: Vec<(u64, u64)> = Vec::new();
        let mut i: usize = 0;
        while i < meetup_participants.len()
            invariant
                i <= ms.len(),
                meetup_participants@ == ms,
                votes == self.meetup_participant_count_vote@,
                n_vote_candidates@.map_values(|p: (u64, u64)| p.0) == cands(
                    votes,
                    cid,
                    cindex,
                    ms.take(i as int),
                ),
                forall|t: int|
                    0 <= t < n_vote_candidates@.len() ==> (#[trigger] n_vote_candidates@[t]).1
                        == vcount(votes, cid, cindex, ms.take(i as int), n_vote_candidates@[t].0),
                forall|t: int|
                    0 <= t < n_vote_candidates@.len() ==> (#[trigger] n_vote_candidates@[t]).0 > 0,
            decreases ms.len() - i,
        {
            let p_account = meetup_participants[i];
            let this_vote = slot_get(&self.meetup_participant_count_vote, cid, cindex, p_account);
            let ghost prefix = ms.take(i as int);
            let ghost prefix1 = ms.take(i as int + 1);
            proof {
                assert(prefix1.drop_last() =~= prefix);
                assert(prefix1.last() == ms[i as int]);
                lemma_cands_wf(votes, cid, cindex, prefix);
            }
            if this_vote > 0 {
                match find_candidate(&n_vote_candidates, this_vote) {
                    Some(j) => {
                        let pair = n_vote_candidates[j];
                        proof {
                            assert(cands(votes, cid, cindex, prefix)[j as int] == pair.0);
                            assert(cands(votes, cid, cindex, prefix).contains(this_vote));
                            lemma_vcount_le_len(votes, cid, cindex, prefix, pair.0);
                        }
                        let ghost pre_cands = n_vote_candidates@;
                        n_vote_candidates.set(j, (pair.0, pair.1 + 1));
                        proof {
                            assert(n_vote_candidates@.map_values(|p: (u64, u64)| p.0)
                                =~= pre_cands.map_values(|p: (u64, u64)| p.0));
                            assert forall|t: int|
                                0 <= t < n_vote_candidates@.len() implies (
                            #[trigger] n_vote_candidates@[t]).1 == vcount(
                                votes,
                                cid,
                                cindex,
                                prefix1,
                                n_vote_candidates@[t].0,
                            ) by {
                                if t != j {
                                    assert(pre_cands.map_values(|p: (u64, u64)| p.0)[t]
                                        == pre_cands[t].0);
                                    assert(pre_cands.map_values(|p: (u64, u64)| p.0)[j as int]
                                        == this_vote);
                                    assert(pre_cands[t].0 != this_vote);
                                }
                            }
                        }
                    },
                    None => {
                        proof {
                            if cands(votes, cid, cindex, prefix).contains(this_vote) {
                                let k = choose|k: int|
                                    0 <= k < cands(votes, cid, cindex, prefix).len() && cands(
                                        votes,
                                        cid,
                                        cindex,
                                        prefix,
                                    )[k] == this_vote;
                                assert(n_vote_candidates@.map_values(|p: (u64, u64)| p.0)[k]
                                    == n_vote_candidates@[k].0);
                                assert(false);
                            }
                            lemma_cands_absent(votes, cid, cindex, prefix, this_vote);
                        }
                        let ghost pre_cands = n_vote_candidates@;
                        n_vote_candidates.push((this_vote, 1));
                        proof {
                            assert(n_vote_candidates@.map_values(|p: (u64, u64)| p.0)
                                =~= pre_cands.map_values(|p: (u64, u64)| p.0).push(this_vote));
                        }
                    },
                }
            }
            i = i + 1;
        }
        proof {
            assert(ms.take(ms.len() as int) =~= ms);
        }
        if n_vote_candidates.len() == 0 {
            return None;
        }
        let ghost cs = cands(votes, cid, cindex, ms);
        let first = n_vote_candidates[0];
        let mut best_v: u64 = first.0;
        let mut best_c: u64 = first.1;
        let mut j: usize = 1;
        proof {
            assert(cs.take(1).drop_last() =~= Seq::<u64>::empty());
            assert(best_candidate(votes, cid, cindex, ms, cs.take(1).drop_last()) is None);
            assert(cs.take(1).last() == cs[0]);
            assert(n_vote_candidates@.map_values(|p: (u64, u64)| p.0)[0]
                == n_vote_candidates@[0].0);
            assert(best_candidate(votes, cid, cindex, ms, cs.take(1)) == Some(cs[0]));
        }
        while j < n_vote_candidates.len()
            invariant
                1 <= j <= n_vote_candidates@.len(),
                votes == self.meetup_participant_count_vote@,
                n_vote_candidates@.map_values(|p: (u64, u64)| p.0) == cs,
                cs == cands(votes, cid, cindex, ms),
                forall|t: int|
                    0 <= t < n_vote_candidates@.len() ==> (#[trigger] n_vote_candidates@[t]).1
                        == vcount(votes, cid, cindex, ms, n_vote_candidates@[t].0),
                best_candidate(votes, cid, cindex, ms, cs.take(j as int)) == Some(best_v),
                best_c == vcount(votes, cid, cindex, ms, best_v),
            decreases n_vote_candidates@.len() - j,
        {
            proof {
                assert(cs.take(j as int + 1).drop_last() =~= cs.take(j as int));
                assert(cs.take(j as int + 1).last() == cs[j as int]);
                assert(n_vote_candidates@.map_values(|p: (u64, u64)| p.0)[j as int]
                    == n_vote_candidates@[j as int].0);
            }
            let pair = n_vote_candidates[j];
            if pair.1 > best_c {
                best_v = pair.0;
                best_c = pair.1;
            }
            j = j + 1;
        }
        proof {
            assert(cs.take(cs.len() as int) =~= cs);
        }
        if best_c < 3 {
            return None;
        }
        Some((best_v, best_c))
    }
}

/// How many of the witnesses `ws` list `member` back in their own stored
/// attestation bundle.
pub open spec fn reciprocity(
    areg: Seq<MembersEntry>,
    aidx: Seq<SlotEntry>,
    cid: u64,
    ci: u32,
    member: u64,
    ws: Seq<u64>,
) -> int
    decreases ws.len(),
{
    if ws.len() == 0 {
        0
    } else {
        reciprocity(areg, aidx, cid, ci, member, ws.drop_last()) + (if members_lookup(
            areg,
            cid,
            ci,
            slot_lookup(aidx, cid, ci, ws.last()),
        ).contains(member) {
            1int
        } else {
            0int
        })
    }
}

/// Whether `a` passes every pre-ledger check of the reward pass for meetup
/// `m`, over the raw stores: the meetup has a winning headcount value `v`
/// with quorum, `a` voted exactly `v`, `a`'s bundle holds at least `v - 1`
/// witnesses, and at least `v - 1` of them list `a` back.
pub open spec fn passes_over(
    mreg: Seq<MembersEntry>,
    votes: Seq<SlotEntry>,
    areg: Seq<MembersEntry>,
    aidx: Seq<SlotEntry>,
    cid: u64,
    ci: u32,
    m: u64,
    a: u64,
) -> bool {
    let bundle = members_lookup(areg, cid, ci, slot_lookup(aidx, cid, ci, a));
    match ballot_over(mreg, votes, cid, ci, m) {
        None => false,
        Some(p) => {
            &&& slot_lookup(votes, cid, ci, a) == p.0
            &&& bundle.len() >= 1
            &&& bundle.len() >= p.0 - 1
            &&& reciprocity(areg, aidx, cid, ci, a, bundle) >= p.0 - 1
        },
    }
}

/// The issuance requests one meetup produces: one `(community, account,
/// reward)` triple per member occurrence that passes the checks, in roster
/// order.
pub open spec fn meetup_requests(
    mreg: Seq<MembersEntry>,
    votes: Seq<SlotEntry>,
    areg: Seq<MembersEntry>,
    aidx: Seq<SlotEntry>,
    cid: u64,
    ci: u32,
    m: u64,
    members: Seq<u64>,
    reward: u64,
) -> Seq<(u64, u64, u64)>
    decreases members.len(),
{
    if members.len() == 0 {
        Seq::<(u64, u64, u64)>::empty()
    } else {
        let pre = meetup_requests(mreg, votes, areg, aidx, cid, ci, m, members.drop_last(), reward);
        if passes_over(mreg, votes, areg, aidx, cid, ci, m, members.last()) {
            pre.push((cid, members.last(), reward))
        } else {
            pre
        }
    }
}

/// A meetup without a successful ballot produces no requests.
pub proof fn lemma_requests_none(
    mreg: Seq<MembersEntry>,
    votes: Seq<SlotEntry>,
    areg: Seq<MembersEntry>,
    aidx: Seq<SlotEntry>,
    cid: u64,
    ci: u32,
    m: u64,
    members: Seq<u64>,
    reward: u64,
)
    requires
        ballot_over(mreg, votes, cid, ci, m) is None,
    ensures
        meetup_requests(mreg, votes, areg, aidx, cid, ci, m, members, reward) == Seq::<
            (u64, u64, u64),
        >::empty(),
    decreases members.len(),
{
    if members.len() == 0 {
    } else {
        lemma_requests_none(mreg, votes, areg, aidx, cid, ci, m, members.drop_last(), reward);
    }
}

/// A meetup requests an issuance for an account exactly when the account
/// sits in its roster and passes every pre-ledger check.
pub proof fn lemma_meetup_requests_iff(
    mreg: Seq<MembersEntry>,
    votes: Seq<SlotEntry>,
    areg: Seq<MembersEntry>,
    aidx: Seq<SlotEntry>,
    cid: u64,
    ci: u32,
    m: u64,
    members: Seq<u64>,
    reward: u64,
    a: u64,
)
    ensures
        meetup_requests(mreg, votes, areg, aidx, cid, ci, m, members, reward).contains(
            (cid, a, reward),
        ) <==> (members.contains(a) && passes_over(mreg, votes, areg, aidx, cid, ci, m, a)),
    decreases members.len(),
{
    if members.len() == 0 {
    } else {
        lemma_meetup_requests_iff(
            mreg,
            votes,
            areg,
            aidx,
            cid,
            ci,
            m,
            members.drop_last(),
            reward,
            a,
        );
        let pre = meetup_requests(mreg, votes, areg, aidx, cid, ci, m, members.drop_last(), reward);
        let full = meetup_requests(mreg, votes, areg, aidx, cid, ci, m, members, reward);
        if members.contains(a) && passes_over(mreg, votes, areg, aidx, cid, ci, m, a) {
            if members.last() == a {
                assert(full[full.len() - 1] == (cid, a, reward));
                assert(full.contains((cid, a, reward)));
            } else {
                let w = choose|w: int| 0 <= w < members.len() && members[w] == a;
                assert(members.drop_last()[w] == a);
                assert(members.drop_last().contains(a));
                let k = choose|k: int| 0 <= k < pre.len() && pre[k] == (cid, a, reward);
                assert(full[k] == (cid, a, reward));
                assert(full.contains((cid, a, reward)));
            }
        }
        if full.contains((cid, a, reward)) {
            let k = choose|k: int| 0 <= k < full.len() && full[k] == (cid, a, reward);
            if k < pre.len() {
                assert(pre[k] == (cid, a, reward));
                assert(pre.contains((cid, a, reward)));
                let w = choose|w: int|
                    0 <= w < members.drop_last().len() && members.drop_last()[w] == a;
                assert(members[w] == a);
                assert(members.contains(a));
            } else {
                assert(passes_over(mreg, votes, areg, aidx, cid, ci, m, members.last()));
                assert(members.last() == a);
                assert(members[members.len() - 1] == a);
                assert(members.contains(a));
            }
        }
    }
}

/// The issuance requests of meetups 1 through `upto` of one community, in
/// meetup order.
pub open spec fn community_requests(
    mreg: Seq<MembersEntry>,
    votes: Seq<SlotEntry>,
    areg: Seq<MembersEntry>,
    aidx: Seq<SlotEntry>,
    cid: u64,
    ci: u32,
    upto: int,
    reward: u64,
) -> Seq<(u64, u64, u64)>
    decreases upto,
{
    if upto <= 0 {
        Seq::<(u64, u64, u64)>::empty()
    } else {
        community_requests(mreg, votes, areg, aidx, cid, ci, upto - 1, reward) + meetup_requests(
            mreg,
            votes,
            areg,
            aidx,
            cid,
            ci,
            upto as u64,
            members_lookup(mreg, cid, ci, upto as u64),
            reward,
        )
    }
}

/// The issuance requests of one full reward pass over `cids`, in community
/// order.
pub open spec fn all_requests(
    mcounts: Seq<CountEntry>,
    mreg: Seq<MembersEntry>,
    votes: Seq<SlotEntry>,
    areg: Seq<MembersEntry>,
    aidx: Seq<SlotEntry>,
    cids: Seq<u64>,
    ci: u32,
    reward: u64,
) -> Seq<(u64, u64, u64)>
    decreases cids.len(),
{
    if cids.len() == 0 {
        Seq::<(u64, u64, u64)>::empty()
    } else {
        all_requests(mcounts, mreg, votes, areg, aidx, cids.drop_last(), ci, reward)
            + community_requests(
            mreg,
            votes,
            areg,
            aidx,
            cids.last(),
            ci,
            count_lookup(mcounts, cids.last(), ci) as int,
            reward,
        )
    }
}

/// Whether `log` records, at or after position `from`, an accepted issuance
/// of `amount` to `a` in community `c`.
pub open spec fn paid_since(
    log: Seq<(u64, u64, u64, bool)>,
    from: int,
    c: u64,
    a: u64,
    amount: u64,
) -> bool {
    exists|i: int| from <= i < log.len() && (#[trigger] log[i]) == (c, a, amount, true)
}

impl Ceremonies {
    /// The issuance requests a reward pass over `cids` makes from this
    /// state.
    pub open spec fn all_requests_spec(self, cids: Seq<u64>, ci: u32, reward: u64) -> Seq<
        (u64, u64, u64),
    > {
        all_requests(
            self.meetup_count@,
            self.meetup_registry@,
            self.meetup_participant_count_vote@,
            self.attestation_registry@,
            self.attestation_index@,
            cids,
            ci,
            reward,
        )
    }

    /// Whether `a` passes every pre-ledger check of this state's reward
    /// pass for meetup `m`.
    pub open spec fn passes_reward_checks(self, cid: u64, ci: u32, m: u64, a: u64) -> bool {
        passes_over(
            self.meetup_registry@,
            self.meetup_participant_count_vote@,
            self.attestation_registry@,
            self.attestation_index@,
            cid,
            ci,
            m,
            a,
        )
    }

    /// Whether `a` passes the reward ballot of meetup `m` they sit in.
    pub open spec fn meetup_reward_eligible(self, cid: u64, ci: u32, m: u64, a: u64) -> bool {
        &&& 1 <= m <= count_lookup(self.meetup_count@, cid, ci)
        &&& members_lookup(self.meetup_registry@, cid, ci, m).contains(a)
        &&& self.passes_reward_checks(cid, ci, m, a)
    }

    /// Whether `a` may be rewarded for ceremony `ci` of community `cid` when
    /// the ballot runs at ceremony index `cindex_now` over communities `cids`.
    pub open spec fn eligible(
        self,
        cids: Seq<u64>,
        cindex_now: u32,
        cid: u64,
        ci: u32,
        a: u64,
    ) -> bool {
        &&& cids.contains(cid)
        &&& cindex_now >= 1
        &&& ci == cindex_now - 1
        &&& exists|m: u64| #[trigger] self.meetup_reward_eligible(cid, ci, m, a)
    }

    /// All stores except the reputation map agree with `base`.
    pub open spec fn same_but_reputation(self, base: Ceremonies) -> bool {
        &&& self.participant_registry == base.participant_registry
        &&& self.participant_index == base.participant_index
        &&& self.participant_count == base.participant_count
        &&& self.meetup_registry == base.meetup_registry
        &&& self.meetup_index == base.meetup_index
        &&& self.meetup_count == base.meetup_count
        &&& self.attestation_registry == base.attestation_registry
        &&& self.attestation_index == base.attestation_index
        &&& self.attestation_count == base.attestation_count
        &&& self.meetup_participant_count_vote == base.meetup_participant_count_vote
        &&& self.ceremony_reward == base.ceremony_reward
        &&& self.location_tolerance == base.location_tolerance
        &&& self.time_tolerance == base.time_tolerance
    }

    /// Every reputation that differs from `base` was promoted to
    /// VerifiedUnlinked, and only for an account that passed the ballot.
    pub open spec fn rewards_only(
        self,
        base: Ceremonies,
        cids: Seq<u64>,
        cindex_now: u32,
    ) -> bool {
        forall|c: u64, ci: u32, a: u64|
            #[trigger] self.rep_of(c, ci, a) != base.rep_of(c, ci, a) ==> (self.rep_of(c, ci, a)
                == Reputation::VerifiedUnlinked && base.eligible(cids, cindex_now, c, ci, a))
    }

    /// Adjudicate the previous ceremony: for every community and meetup, run
    /// the headcount ballot; request `issue(community, member, reward)` from
    /// the ledger for exactly the members whose vote matches the winning
    /// value and whose attestations are mutually corroborated, in
    /// deterministic order; promote a member's reputation to
    /// VerifiedUnlinked exactly when the ledger accepted their issuance.
    /// Ineligible meetups and members are skipped, never aborting the pass.
    /// Outside the REGISTERING phase, or at ceremony index 0, nothing
    /// happens at all.
    #[verifier::rlimit(100)]
    pub fn issue_rewards<E: Trait>(&mut self, ext: &mut E)
        ensures
            final(self).same_but_reputation(*old(self)),
            final(self).rewards_only(
                *old(self),
                old(ext).communities_spec(),
                old(ext).ceremony_index_spec(),
            ),
            old(ext).phase_spec() != CeremonyPhase::Registering ==> *final(self) == *old(self)
                && *final(ext) == *old(ext),
            old(ext).ceremony_index_spec() == 0 ==> *final(self) == *old(self) && *final(ext)
                == *old(ext),
            old(ext).phase_spec() == CeremonyPhase::Registering && old(ext).ceremony_index_spec()
                >= 1 ==> ({
                let ci_prev = (old(ext).ceremony_index_spec() - 1) as u32;
                let reqs = old(self).all_requests_spec(
                    old(ext).communities_spec(),
                    ci_prev,
                    old(self).ceremony_reward,
                );
                let log0 = old(ext).issued_log();
                let log1 = final(ext).issued_log();
                &&& log1.len() == log0.len() + reqs.len()
                &&& forall|i: int| 0 <= i < log0.len() ==> #[trigger] log1[i] == log0[i]
                &&& forall|i: int|
                    0 <= i < reqs.len() ==> ((#[trigger] log1[log0.len() + i]).0,
                    log1[log0.len() + i].1, log1[log0.len() + i].2) == reqs[i]
                &&& forall|c: u64, ci2: u32, a: u64|
                    #[trigger] final(self).rep_of(c, ci2, a) == (if ci2 == ci_prev && paid_since(
                        log1,
                        log0.len() as int,
                        c,
                        a,
                        old(self).ceremony_reward,
                    ) {
                        Reputation::VerifiedUnlinked
                    } else {
                        old(self).rep_of(c, ci2, a)
                    })
            }),
    {
        if ext.current_phase() != CeremonyPhase::Registering {
            return;
        }
        let cindex_now = ext.current_ceremony_index();
        if cindex_now == 0 {
            return;
        }
        let cindex = cindex_now - 1;
        let cids = ext.currency_identifiers();
        let reward = self.ceremony_reward;
        let ghost log0 = ext.issued_log();
        let ghost mcv = self.meetup_count@;
        let ghost mrv = self.meetup_registry@;
        let ghost vv = self.meetup_participant_count_vote@;
        let ghost arv = self.attestation_registry@;
        let ghost aiv = self.attestation_index@;
        let mut c_i: usize = 0;
        while c_i < cids.len()
            invariant
                c_i <= cids@.len(),
                cids@ == old(ext).communities_spec(),
                cindex_now == old(ext).ceremony_index_spec(),
                cindex_now >= 1,
                cindex == cindex_now - 1,
                reward == old(self).ceremony_reward,
                log0 == old(ext).issued_log(),
                mcv == self.meetup_count@,
                mrv == self.meetup_registry@,
                vv == self.meetup_participant_count_vote@,
                arv == self.attestation_registry@,
                aiv == self.attestation_index@,
                self.same_but_reputation(*old(self)),
                self.rewards_only(*old(self), cids@, cindex_now),
                ext.issued_log().len() == log0.len() + all_requests(
                    mcv,
                    mrv,
                    vv,
                    arv,
                    aiv,
                    cids@.take(c_i as int),
                    cindex,
                    reward,
                ).len(),
                forall|i: int| 0 <= i < log0.len() ==> #[trigger] ext.issued_log()[i] == log0[i],
                forall|i: int|
                    0 <= i < all_requests(
                        mcv,
                        mrv,
                        vv,
                        arv,
                        aiv,
                        cids@.take(c_i as int),
                        cindex,
                        reward,
                    ).len() ==> ((#[trigger] ext.issued_log()[log0.len() + i]).0,
                    ext.issued_log()[log0.len() + i].1, ext.issued_log()[log0.len() + i].2)
                    == all_requests(
                        mcv,
                        mrv,
                        vv,
                        arv,
                        aiv,
                        cids@.take(c_i as int),
                        cindex,
                        reward,
                    )[i],
                forall|c: u64, ci2: u32, a: u64|
                    #[trigger] self.rep_of(c, ci2, a) == (if ci2 == cindex && paid_since(
                        ext.issued_log(),
                        log0.len() as int,
                        c,
                        a,
                        reward,
                    ) {
                        Reputation::VerifiedUnlinked
                    } else {
                        old(self).rep_of(c, ci2, a)
                    }),
            decreases cids@.len() - c_i,
        {
            let cid = cids[c_i];
            proof {
                assert(cids@[c_i as int] == cid);
            }
            let ghost reqs_before = all_requests(
                mcv,
                mrv,
                vv,
                arv,
                aiv,
                cids@.take(c_i as int),
                cindex,
                reward,
            );
            let meetup_count = count_get(&self.meetup_count, cid, cindex);
            proof {
                assert(reqs_before + community_requests(mrv, vv, arv, aiv, cid, cindex, 0, reward)
                    =~= reqs_before);
            }
            let mut mm: u64 = 0;
            while mm < meetup_count
                invariant
                    mm <= meetup_count,
                    meetup_count == count_lookup(mcv, cid, cindex),
                    cids@ == old(ext).communities_spec(),
                    cids@.contains(cid),
                    cindex_now == old(ext).ceremony_index_spec(),
                    cindex_now >= 1,
                    cindex == cindex_now - 1,
                    reward == old(self).ceremony_reward,
                    log0 == old(ext).issued_log(),
                    mcv == self.meetup_count@,
                    mrv == self.meetup_registry@,
                    vv == self.meetup_participant_count_vote@,
                    arv == self.attestation_registry@,
                    aiv == self.attestation_index@,
                    self.same_but_reputation(*old(self)),
                    self.rewards_only(*old(self), cids@, cindex_now),
                    reqs_before == all_requests(
                        mcv,
                        mrv,
                        vv,
                        arv,
                        aiv,
                        cids@.take(c_i as int),
                        cindex,
                        reward,
                    ),
                    ext.issued_log().len() == log0.len() + reqs_before.len() + community_requests(
                        mrv,
                        vv,
                        arv,
                        aiv,
                        cid,
                        cindex,
                        mm as int,
                        reward,
                    ).len(),
                    forall|i: int|
                        0 <= i < log0.len() ==> #[trigger] ext.issued_log()[i] == log0[i],
                    forall|i: int|
                        0 <= i < reqs_before.len() + community_requests(
                            mrv,
                            vv,
                            arv,
                            aiv,
                            cid,
                            cindex,
                            mm as int,
                            reward,
                        ).len() ==> ((#[trigger] ext.issued_log()[log0.len() + i]).0,
                        ext.issued_log()[log0.len() + i].1, ext.issued_log()[log0.len() + i].2)
                        == (reqs_before + community_requests(
                            mrv,
                            vv,
                            arv,
                            aiv,
                            cid,
                            cindex,
                            mm as int,
                            reward,
                        ))[i],
                    forall|c: u64, ci2: u32, a: u64|
                        #[trigger] self.rep_of(c, ci2, a) == (if ci2 == cindex && paid_since(
                            ext.issued_log(),
                            log0.len() as int,
                            c,
                            a,
                            reward,
                        ) {
                            Reputation::VerifiedUnlinked
                        } else {
                            old(self).rep_of(c, ci2, a)
                        }),
                decreases meetup_count - mm,
            {
                let m = mm + 1;
                // First, evaluate the votes on how many participants showed
                // up.
                let bal = self.ballot_meetup_n_votes(cid, cindex, m);
                let ghost cr_pre = community_requests(
                    mrv,
                    vv,
                    arv,
                    aiv,
                    cid,
                    cindex,
                    mm as int,
                    reward,
                );
                let meetup_participants = members_get(&self.meetup_registry, cid, cindex, m);
                let ghost members = meetup_participants@;
                proof {
                    assert(bal == ballot_over(mrv, vv, cid, cindex, m));
                    assert(members == members_lookup(mrv, cid, cindex, m));
                }
                if let Some(winner) = bal {
                    let n_confirmed = winner.0;
                    proof {
                        lemma_ballot_some(*self, cid, cindex, m);
                        assert(members.take(0) =~= Seq::<u64>::empty());
                        assert(reqs_before + cr_pre + meetup_requests(
                            mrv,
                            vv,
                            arv,
                            aiv,
                            cid,
                            cindex,
                            m,
                            members.take(0),
                            reward,
                        ) =~= reqs_before + cr_pre);
                    }
                    let threshold = n_confirmed - 1;
                    let mut pi: usize = 0;
                    while pi < meetup_participants.len()
                        invariant
                            pi <= members.len(),
                            meetup_participants@ == members,
                            members == members_lookup(mrv, cid, cindex, m),
                            Some(winner) == ballot_over(mrv, vv, cid, cindex, m),
                            n_confirmed == winner.0,
                            n_confirmed >= 1,
                            threshold == n_confirmed - 1,
                            m == mm + 1,
                            mm < meetup_count,
                            meetup_count == count_lookup(mcv, cid, cindex),
                            cids@ == old(ext).communities_spec(),
                            cids@.contains(cid),
                            cindex_now == old(ext).ceremony_index_spec(),
                            cindex_now >= 1,
                            cindex == cindex_now - 1,
                            reward == old(self).ceremony_reward,
                            log0 == old(ext).issued_log(),
                            mcv == self.meetup_count@,
                            mrv == self.meetup_registry@,
                            vv == self.meetup_participant_count_vote@,
                            arv == self.attestation_registry@,
                            aiv == self.attestation_index@,
                            self.same_but_reputation(*old(self)),
                            self.rewards_only(*old(self), cids@, cindex_now),
                            reqs_before == all_requests(
                                mcv,
                                mrv,
                                vv,
                                arv,
                                aiv,
                                cids@.take(c_i as int),
                                cindex,
                                reward,
                            ),
                            cr_pre == community_requests(
                                mrv,
                                vv,
                                arv,
                                aiv,
                                cid,
                                cindex,
                                mm as int,
                                reward,
                            ),
                            ext.issued_log().len() == log0.len() + reqs_before.len()
                                + cr_pre.len() + meetup_requests(
                                mrv,
                                vv,
                                arv,
                                aiv,
                                cid,
                                cindex,
                                m,
                                members.take(pi as int),
                                reward,
                            ).len(),
                            forall|i: int|
                                0 <= i < log0.len() ==> #[trigger] ext.issued_log()[i] == log0[i],
                            forall|i: int|
                                0 <= i < reqs_before.len() + cr_pre.len() + meetup_requests(
                                    mrv,
                                    vv,
                                    arv,
                                    aiv,
                                    cid,
                                    cindex,
                                    m,
                                    members.take(pi as int),
                                    reward,
                                ).len() ==> ((#[trigger] ext.issued_log()[log0.len() + i]).0,
                                ext.issued_log()[log0.len() + i].1,
                                ext.issued_log()[log0.len() + i].2) == (reqs_before + cr_pre
                                + meetup_requests(
                                    mrv,
                                    vv,
                                    arv,
                                    aiv,
                                    cid,
                                    cindex,
                                    m,
                                    members.take(pi as int),
                                    reward,
                                ))[i],
                            forall|c: u64, ci2: u32, a: u64|
                                #[trigger] self.rep_of(c, ci2, a) == (if ci2 == cindex
                                    && paid_since(
                                    ext.issued_log(),
                                    log0.len() as int,
                                    c,
                                    a,
                                    reward,
                                ) {
                                    Reputation::VerifiedUnlinked
                                } else {
                                    old(self).rep_of(c, ci2, a)
                                }),
                        decreases members.len() - pi,
                    {
                        proof {
                            assert(members.take(pi as int + 1).drop_last() =~= members.take(
                                pi as int,
                            ));
                            assert(members.take(pi as int + 1).last() == members[pi as int]);
                        }
                        let p_acc = meetup_participants[pi];
                        let vote = slot_get(
                            &self.meetup_participant_count_vote,
                            cid,
                            cindex,
                            p_acc,
                        );
                        let widx = slot_get(&self.attestation_index, cid, cindex, p_acc);
                        let attestations = members_get(
                            &self.attestation_registry,
                            cid,
                            cindex,
                            widx,
                        );
                        let ghost bundle = attestations@;
                        let mut is_contributor: bool = vote == n_confirmed && attestations.len()
                            > 0 && attestations.len() as u64 >= threshold;
                        if is_contributor {
                            let mut has_attested: u64 = 0;
                            let mut wi: usize = 0;
                            while wi < attestations.len()
                                invariant
                                    wi <= bundle.len(),
                                    attestations@ == bundle,
                                    has_attested <= wi,
                                    arv == self.attestation_registry@,
                                    aiv == self.attestation_index@,
                                    has_attested == reciprocity(
                                        arv,
                                        aiv,
                                        cid,
                                        cindex,
                                        p_acc,
                                        bundle.take(wi as int),
                                    ),
                                decreases bundle.len() - wi,
                            {
                                proof {
                                    assert(bundle.take(wi as int + 1).drop_last() =~= bundle.take(
                                        wi as int,
                                    ));
                                    assert(bundle.take(wi as int + 1).last() == bundle[wi as int]);
                                }
                                let w_acc = attestations[wi];
                                let w_widx = slot_get(&self.attestation_index, cid, cindex, w_acc);
                                let w_atts = members_get(
                                    &self.attestation_registry,
                                    cid,
                                    cindex,
                                    w_widx,
                                );
                                if contains_u64(&w_atts, p_acc) {
                                    has_attested = has_attested + 1;
                                }
                                wi = wi + 1;
                            }
                            proof {
                                assert(bundle.take(bundle.len() as int) =~= bundle);
                            }
                            if has_attested < threshold {
                                is_contributor = false;
                            }
                        }
                        proof {
                            assert(is_contributor == passes_over(
                                mrv,
                                vv,
                                arv,
                                aiv,
                                cid,
                                cindex,
                                m,
                                p_acc,
                            ));
                        }
                        if is_contributor {
                            // The member merits the reward: request the
                            // issuance from the ledger.
                            let ghost prev_log = ext.issued_log();
                            let ghost built = reqs_before + cr_pre + meetup_requests(
                                mrv,
                                vv,
                                arv,
                                aiv,
                                cid,
                                cindex,
                                m,
                                members.take(pi as int),
                                reward,
                            );
                            let accepted = ext.issue(cid, p_acc, reward);
                            proof {
                                assert(ext.issued_log() == prev_log.push(
                                    (cid, p_acc, reward, accepted),
                                ));
                                assert(ext.issued_log()[prev_log.len() as int] == (
                                    cid,
                                    p_acc,
                                    reward,
                                    accepted,
                                ));
                                assert forall|i: int|
                                    0 <= i < prev_log.len() implies #[trigger] ext.issued_log()[i]
                                    == prev_log[i] by {}
                            }
                            if accepted {
                                // The ledger accepted: promote the member's
                                // reputation.
                                let ghost prev = *self;
                                let ghost pre_reps = self.participant_reputation@;
                                proof {
                                    assert(members[pi as int] == p_acc);
                                    assert(prev.meetup_reward_eligible(cid, cindex, m, p_acc));
                                    assert(old(self).meetup_reward_eligible(cid, cindex, m, p_acc));
                                    assert(old(self).eligible(cids@, cindex_now, cid, cindex, p_acc));
                                }
                                let entry = RepEntry {
                                    cid,
                                    cindex,
                                    account: p_acc,
                                    rep: Reputation::VerifiedUnlinked,
                                };
                                self.participant_reputation.push(entry);
                                proof {
                                    lemma_rep_push(pre_reps, entry);
                                    assert forall|c: u64, ci2: u32, a: u64|
                                        #[trigger] self.rep_of(c, ci2, a) != old(self).rep_of(
                                        c,
                                        ci2,
                                        a,
                                    ) implies (self.rep_of(c, ci2, a)
                                        == Reputation::VerifiedUnlinked && old(self).eligible(
                                        cids@,
                                        cindex_now,
                                        c,
                                        ci2,
                                        a,
                                    )) by {
                                        if !(c == cid && ci2 == cindex && a == p_acc) {
                                            assert(self.rep_of(c, ci2, a) == prev.rep_of(
                                                c,
                                                ci2,
                                                a,
                                            ));
                                        }
                                    }
                                    assert forall|c: u64, ci2: u32, a: u64|
                                        #[trigger] self.rep_of(c, ci2, a) == (if ci2 == cindex
                                            && paid_since(
                                            ext.issued_log(),
                                            log0.len() as int,
                                            c,
                                            a,
                                            reward,
                                        ) {
                                            Reputation::VerifiedUnlinked
                                        } else {
                                            old(self).rep_of(c, ci2, a)
                                        }) by {
                                        if c == cid && ci2 == cindex && a == p_acc {
                                            assert(ext.issued_log()[prev_log.len() as int] == (
                                                cid,
                                                p_acc,
                                                reward,
                                                true,
                                            ));
                                            assert(paid_since(
                                                ext.issued_log(),
                                                log0.len() as int,
                                                cid,
                                                p_acc,
                                                reward,
                                            ));
                                        } else {
                                            assert(self.rep_of(c, ci2, a) == prev.rep_of(
                                                c,
                                                ci2,
                                                a,
                                            ));
                                            if ci2 == cindex {
                                                if paid_since(
                                                    ext.issued_log(),
                                                    log0.len() as int,
                                                    c,
                                                    a,
                                                    reward,
                                                ) && !paid_since(
                                                    prev_log,
                                                    log0.len() as int,
                                                    c,
                                                    a,
                                                    reward,
                                                ) {
                                                    let i = choose|i: int|
                                                        log0.len() <= i < ext.issued_log().len()
                                                            && (#[trigger] ext.issued_log()[i])
                                                            == (c, a, reward, true);
                                                    assert(i == prev_log.len());
                                                    assert(false);
                                                }
                                                if paid_since(
                                                    prev_log,
                                                    log0.len() as int,
                                                    c,
                                                    a,
                                                    reward,
                                                ) {
                                                    let i = choose|i: int|
                                                        log0.len() <= i < prev_log.len() && (
                                                        #[trigger] prev_log[i]) == (
                                                        c,
                                                        a,
                                                        reward,
                                                        true,
                                                        );
                                                    assert(ext.issued_log()[i] == (
                                                        c,
                                                        a,
                                                        reward,
                                                        true,
                                                    ));
                                                    assert(paid_since(
                                                        ext.issued_log(),
                                                        log0.len() as int,
                                                        c,
                                                        a,
                                                        reward,
                                                    ));
                                                }
                                            }
                                        }
                                    }
                                }
                            } else {
                                proof {
                                    // A rejected request changes no payment
                                    // record and no reputation.
                                    assert forall|c: u64, ci2: u32, a: u64|
                                        #[trigger] self.rep_of(c, ci2, a) == (if ci2 == cindex
                                            && paid_since(
                                            ext.issued_log(),
                                            log0.len() as int,
                                            c,
                                            a,
                                            reward,
                                        ) {
                                            Reputation::VerifiedUnlinked
                                        } else {
                                            old(self).rep_of(c, ci2, a)
                                        }) by {
                                        if ci2 == cindex {
                                            if paid_since(
                                                ext.issued_log(),
                                                log0.len() as int,
                                                c,
                                                a,
                                                reward,
                                            ) && !paid_since(
                                                prev_log,
                                                log0.len() as int,
                                                c,
                                                a,
                                                reward,
                                            ) {
                                                let i = choose|i: int|
                                                    log0.len() <= i < ext.issued_log().len() && (
                                                    #[trigger] ext.issued_log()[i]) == (
                                                    c,
                                                    a,
                                                    reward,
                                                    true,
                                                    );
                                                assert(i == prev_log.len());
                                                assert(false);
                                            }
                                            if paid_since(
                                                prev_log,
                                                log0.len() as int,
                                                c,
                                                a,
                                                reward,
                                            ) {
                                                let i = choose|i: int|
                                                    log0.len() <= i < prev_log.len() && (
                                                    #[trigger] prev_log[i]) == (c, a, reward, true);
                                                assert(ext.issued_log()[i] == (c, a, reward, true));
                                                assert(paid_since(
                                                    ext.issued_log(),
                                                    log0.len() as int,
                                                    c,
                                                    a,
                                                    reward,
                                                ));
                                            }
                                        }
                                    }
                                }
                            }
                            proof {
                                assert(meetup_requests(
                                    mrv,
                                    vv,
                                    arv,
                                    aiv,
                                    cid,
                                    cindex,
                                    m,
                                    members.take(pi as int + 1),
                                    reward,
                                ) == meetup_requests(
                                    mrv,
                                    vv,
                                    arv,
                                    aiv,
                                    cid,
                                    cindex,
                                    m,
                                    members.take(pi as int),
                                    reward,
                                ).push((cid, p_acc, reward)));
                                assert(reqs_before + cr_pre + meetup_requests(
                                    mrv,
                                    vv,
                                    arv,
                                    aiv,
                                    cid,
                                    cindex,
                                    m,
                                    members.take(pi as int + 1),
                                    reward,
                                ) =~= built.push((cid, p_acc, reward)));
                                assert forall|i: int|
                                    0 <= i < built.len() + 1 implies ((
                                #[trigger] ext.issued_log()[log0.len() + i]).0,
                                ext.issued_log()[log0.len() + i].1,
                                ext.issued_log()[log0.len() + i].2) == built.push(
                                    (cid, p_acc, reward),
                                )[i] by {
                                    if i < built.len() {
                                        assert(ext.issued_log()[log0.len() + i] == prev_log[log0.len()
                                            + i]);
                                    } else {
                                        assert(log0.len() + i == prev_log.len());
                                    }
                                }
                            }
                        } else {
                            proof {
                                assert(meetup_requests(
                                    mrv,
                                    vv,
                                    arv,
                                    aiv,
                                    cid,
                                    cindex,
                                    m,
                                    members.take(pi as int + 1),
                                    reward,
                                ) == meetup_requests(
                                    mrv,
                                    vv,
                                    arv,
                                    aiv,
                                    cid,
                                    cindex,
                                    m,
                                    members.take(pi as int),
                                    reward,
                                ));
                            }
                        }
                        pi = pi + 1;
                    }
                    proof {
                        assert(members.take(members.len() as int) =~= members);
                        assert(community_requests(
                            mrv,
                            vv,
                            arv,
                            aiv,
                            cid,
                            cindex,
                            mm as int + 1,
                            reward,
                        ) == cr_pre + meetup_requests(
                            mrv,
                            vv,
                            arv,
                            aiv,
                            cid,
                            cindex,
                            m,
                            members,
                            reward,
                        ));
                        assert(reqs_before + cr_pre + meetup_requests(
                            mrv,
                            vv,
                            arv,
                            aiv,
                            cid,
                            cindex,
                            m,
                            members,
                            reward,
                        ) =~= reqs_before + community_requests(
                            mrv,
                            vv,
                            arv,
                            aiv,
                            cid,
                            cindex,
                            mm as int + 1,
                            reward,
                        ));
                    }
                } else {
                    proof {
                        lemma_requests_none(mrv, vv, arv, aiv, cid, cindex, m, members, reward);
                        assert(community_requests(
                            mrv,
                            vv,
                            arv,
                            aiv,
                            cid,
                            cindex,
                            mm as int + 1,
                            reward,
                        ) =~= cr_pre);
                    }
                }
                mm = mm + 1;
            }
            proof {
                assert(cids@.take(c_i as int + 1).drop_last() =~= cids@.take(c_i as int));
                assert(cids@.take(c_i as int + 1).last() == cid);
                assert(all_requests(
                    mcv,
                    mrv,
                    vv,
                    arv,
                    aiv,
                    cids@.take(c_i as int + 1),
                    cindex,
                    reward,
                ) == reqs_before + community_requests(
                    mrv,
                    vv,
                    arv,
                    aiv,
                    cid,
                    cindex,
                    count_lookup(mcv, cid, cindex) as int,
                    reward,
                ));
            }
            c_i = c_i + 1;
        }
        proof {
            assert(cids@.take(cids@.len() as int) =~= cids@);
        }
    }
}

} // verus!
