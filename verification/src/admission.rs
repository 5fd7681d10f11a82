//! The request admission layer: the pre-send check over the three
//! affected endpoints, and the fold of each response's status code back
//! into the endpoint table.
//!
//! Every call touches an ordered triple of endpoints — region, service,
//! method — and the admission check is global across the three tiers: a
//! cooled-down region blocks all its methods, a cooled-down method only
//! blocks itself.

use vstd::prelude::*;

use crate::datetime::{parse_rfc2822_millis, rfc2822_millis};
use crate::endpoint::{
    pairs_by_window, spec_millis_of_seconds, spec_ok_step, spec_pre_query_step,
    spec_rebuilt_buckets, spec_status_429_step, CooldownState, Endpoint, RateLimitBucket,
    Status, DEFAULT_COOLDOWN_MILLIS,
};
use crate::endpoint_id::Id;
use crate::errors::Error;
use crate::headers::{parse_rate_limit_header, spec_parse_header};
use crate::table::EndpointTable;

verus! {

/// The ordered triple of endpoints one call touches.
#[derive(Debug, PartialEq, Eq, Structural, Clone, Copy)]
pub struct AffectedIds {
    /// The region endpoint.
    pub region: Id,
    /// The service endpoint within the region.
    pub service: Id,
    /// The method endpoint within the service.
    pub method: Id,
}

impl AffectedIds {
    /// Each id lies in its own tier, which keeps the three pairwise
    /// distinct.
    pub open spec fn spec_wf(self) -> bool {
        &&& self.region.spec_is_region()
        &&& self.service.spec_is_service()
        &&& self.method.spec_is_method()
    }
}

/// The status of the endpoint an id refers to, with lazy creation read
/// off: an id the table does not hold yet stands for a fresh `Unknown`
/// endpoint.
pub open spec fn ep_status_in(m: Map<Id, Endpoint>, id: Id) -> Status {
    if m.dom().contains(id) {
        m[id].spec_status()
    } else {
        Status::Unknown
    }
}

/// The bucket table of the endpoint an id refers to (empty when the
/// endpoint does not exist yet).
pub open spec fn ep_buckets_in(m: Map<Id, Endpoint>, id: Id) -> Seq<RateLimitBucket> {
    if m.dom().contains(id) {
        m[id].bucket_seq()
    } else {
        Seq::empty()
    }
}

/// The last-update timestamp of the endpoint an id refers to (the epoch
/// when the endpoint does not exist yet).
pub open spec fn ep_last_in(m: Map<Id, Endpoint>, id: Id) -> i64 {
    if m.dom().contains(id) {
        m[id].spec_last_update()
    } else {
        0
    }
}

/// The status an endpoint shows right after the pre-send check at
/// `now_millis`.
pub open spec fn pre_status(m: Map<Id, Endpoint>, id: Id, now_millis: u64) -> Status {
    spec_pre_query_step(ep_status_in(m, id), now_millis)
}

/// Whether the endpoint admits a query after the pre-send check: every
/// status but a live cooldown does.
pub open spec fn spec_admissible(m: Map<Id, Endpoint>, id: Id, now_millis: u64) -> bool {
    !(pre_status(m, id, now_millis) is Cooldown)
}

/// The entry for `id` in `post` is the entry of `pre` taken through the
/// pre-send check (created as `Unknown` first if absent).
pub open spec fn processed_entry(
    pre: Map<Id, Endpoint>,
    post: Map<Id, Endpoint>,
    id: Id,
    now_millis: u64,
) -> bool {
    &&& post.dom().contains(id)
    &&& post[id].spec_status() == pre_status(pre, id, now_millis)
    &&& post[id].bucket_seq() == ep_buckets_in(pre, id)
    &&& post[id].spec_last_update() == ep_last_in(pre, id)
}

/// `post` is `pre` with exactly the region endpoint taken through the
/// pre-send check.
pub open spec fn prepared_region(
    pre: Map<Id, Endpoint>,
    post: Map<Id, Endpoint>,
    ids: AffectedIds,
    now_millis: u64,
) -> bool {
    &&& post.dom() =~= pre.dom().insert(ids.region)
    &&& forall|k: Id| #[trigger] pre.dom().contains(k) && k != ids.region ==> post[k] == pre[k]
    &&& processed_entry(pre, post, ids.region, now_millis)
}

/// `post` is `pre` with the region and service endpoints taken through
/// the pre-send check, in that order.
pub open spec fn prepared_region_service(
    pre: Map<Id, Endpoint>,
    post: Map<Id, Endpoint>,
    ids: AffectedIds,
    now_millis: u64,
) -> bool {
    &&& post.dom() =~= pre.dom().insert(ids.region).insert(ids.service)
    &&& forall|k: Id| #[trigger]
        pre.dom().contains(k) && k != ids.region && k != ids.service ==> post[k] == pre[k]
    &&& processed_entry(pre, post, ids.region, now_millis)
    &&& processed_entry(pre, post, ids.service, now_millis)
}

/// `post` is `pre` with all three affected endpoints taken through the
/// pre-send check, in order.
pub open spec fn prepared_all(
    pre: Map<Id, Endpoint>,
    post: Map<Id, Endpoint>,
    ids: AffectedIds,
    now_millis: u64,
) -> bool {
    &&& post.dom() =~= pre.dom().insert(ids.region).insert(ids.service).insert(ids.method)
    &&& forall|k: Id| #[trigger]
        pre.dom().contains(k) && k != ids.region && k != ids.service && k != ids.method
            ==> post[k] == pre[k]
    &&& processed_entry(pre, post, ids.region, now_millis)
    &&& processed_entry(pre, post, ids.service, now_millis)
    &&& processed_entry(pre, post, ids.method, now_millis)
}

/// Takes one endpoint through the pre-send check, creating it as
/// `Unknown` if absent, and reports whether it admits the query.
fn process_one(table: &mut EndpointTable, id: Id, now_millis: u64) -> (r: Result<(), Error>)
    requires
        old(table).spec_wf(),
    ensures
        final(table).spec_wf(),
        final(table).model().dom() =~= old(table).model().dom().insert(id),
        forall|k: Id| #[trigger]
            old(table).model().dom().contains(k) && k != id ==> final(table).model()[k] == old(
                table,
            ).model()[k],
        processed_entry(old(table).model(), final(table).model(), id, now_millis),
        (r is Ok) <==> spec_admissible(old(table).model(), id, now_millis),
        (r is Err) ==> (pre_status(old(table).model(), id, now_millis) matches Status::Cooldown(cd)
            && r == Result::<(), Error>::Err(
            Error::EndpointNotReady {
                status: Status::Cooldown(cd),
                remaining_millis: cd.spec_time_left(now_millis),
            },
        )),
{
    let mut ep = match table.take(id) {
        Some(e) => e,
        None => Endpoint::new(),
    };
    ep.update_status_pre_query(now_millis);
    let check = ep.error_for_status(now_millis);
    table.put(id, ep);
    check
}

/// The pre-send admission check over the three affected endpoints, in
/// order region, service, method: each is created if absent and taken
/// through the pre-send check; the first endpoint still on cooldown stops
/// the walk and its refusal (with the cooldown time remaining) is
/// returned, leaving the endpoints after it untouched.  The call may go
/// out exactly when every affected endpoint admits it.
pub fn prepare_to_query(table: &mut EndpointTable, ids: &AffectedIds, now_millis: u64) -> (r:
    Result<(), Error>)
    requires
        old(table).spec_wf(),
        ids.spec_wf(),
    ensures
        final(table).spec_wf(),
        (r is Ok) <==> (spec_admissible(old(table).model(), ids.region, now_millis)
            && spec_admissible(old(table).model(), ids.service, now_millis) && spec_admissible(
            old(table).model(),
            ids.method,
            now_millis,
        )),
        (r is Ok) ==> prepared_all(old(table).model(), final(table).model(), *ids, now_millis),
        !spec_admissible(old(table).model(), ids.region, now_millis) ==> prepared_region(
            old(table).model(),
            final(table).model(),
            *ids,
            now_millis,
        ) && (pre_status(old(table).model(), ids.region, now_millis) matches Status::Cooldown(cd)
            && r == Result::<(), Error>::Err(
            Error::EndpointNotReady {
                status: Status::Cooldown(cd),
                remaining_millis: cd.spec_time_left(now_millis),
            },
        )),
        spec_admissible(old(table).model(), ids.region, now_millis) && !spec_admissible(
            old(table).model(),
            ids.service,
            now_millis,
        ) ==> prepared_region_service(old(table).model(), final(table).model(), *ids, now_millis)
            && (pre_status(old(table).model(), ids.service, now_millis) matches Status::Cooldown(
            cd,
        ) && r == Result::<(), Error>::Err(
            Error::EndpointNotReady {
                status: Status::Cooldown(cd),
                remaining_millis: cd.spec_time_left(now_millis),
            },
        )),
        spec_admissible(old(table).model(), ids.region, now_millis) && spec_admissible(
            old(table).model(),
            ids.service,
            now_millis,
        ) && !spec_admissible(old(table).model(), ids.method, now_millis) ==> prepared_all(
            old(table).model(),
            final(table).model(),
            *ids,
            now_millis,
        ) && (pre_status(old(table).model(), ids.method, now_millis) matches Status::Cooldown(cd)
            && r == Result::<(), Error>::Err(
            Error::EndpointNotReady {
                status: Status::Cooldown(cd),
                remaining_millis: cd.spec_time_left(now_millis),
            },
        )),
{
    let ghost m0 = table.model();
    let r1 = process_one(table, ids.region, now_millis);
    let ghost m1 = table.model();
    if let Err(e) = r1 {
        return Err(e);
    }
    let r2 = process_one(table, ids.service, now_millis);
    let ghost m2 = table.model();
    proof {
        assert(ids.region != ids.service && ids.region != ids.method && ids.service
            != ids.method);
        assert(ep_status_in(m1, ids.service) == ep_status_in(m0, ids.service));
        assert(ep_buckets_in(m1, ids.service) == ep_buckets_in(m0, ids.service));
        assert(ep_last_in(m1, ids.service) == ep_last_in(m0, ids.service));
        assert(m1.dom().contains(ids.region));
        assert(m2[ids.region] == m1[ids.region]);
        assert forall|k: Id| #[trigger]
            m0.dom().contains(k) && k != ids.region && k != ids.service implies m2[k]
            == m0[k] by {
            assert(m1.dom().contains(k));
        }
    }
    if let Err(e) = r2 {
        return Err(e);
    }
    let r3 = process_one(table, ids.method, now_millis);
    let ghost m3 = table.model();
    proof {
        assert(ep_status_in(m2, ids.method) == ep_status_in(m0, ids.method));
        assert(ep_buckets_in(m2, ids.method) == ep_buckets_in(m0, ids.method));
        assert(ep_last_in(m2, ids.method) == ep_last_in(m0, ids.method));
        assert(m2.dom().contains(ids.region));
        assert(m2.dom().contains(ids.service));
        assert(m3[ids.region] == m2[ids.region]);
        assert(m3[ids.service] == m2[ids.service]);
        assert forall|k: Id| #[trigger]
            m0.dom().contains(k) && k != ids.region && k != ids.service && k != ids.method
            implies m3[k] == m0[k] by {
            assert(m1.dom().contains(k));
            assert(m2.dom().contains(k));
        }
    }
    if let Err(e) = r3 {
        return Err(e);
    }
    Ok(())
}

/// The entry for `id` in `post` is the entry of `pre` with a 200
/// response folded into its status.
pub open spec fn ok_processed(
    pre: Map<Id, Endpoint>,
    post: Map<Id, Endpoint>,
    id: Id,
    now_millis: u64,
) -> bool {
    &&& post.dom().contains(id)
    &&& post[id].spec_status() == spec_ok_step(pre[id], now_millis)
    &&& post[id].bucket_seq() == pre[id].bucket_seq()
    &&& post[id].spec_last_update() == pre[id].spec_last_update()
}

/// Which of the three affected endpoints the 429 policy forces onto
/// cooldown: walking region, service, method in order, the first one
/// with bucket data wins, and a later one replaces it only with strictly
/// smaller headroom.  `None` when no affected endpoint has bucket data.
/// The result pairs the position in the walk (0, 1, 2) with the winning
/// `(headroom, window)` pair.
pub open spec fn spec_429_winner(
    ml_region: Option<(u64, u64)>,
    ml_service: Option<(u64, u64)>,
    ml_method: Option<(u64, u64)>,
) -> Option<(int, (u64, u64))> {
    let w0: Option<(int, (u64, u64))> = match ml_region {
        Some(p) => Some((0int, p)),
        None => None,
    };
    let w1: Option<(int, (u64, u64))> = match ml_service {
        Some(p) => match w0 {
            Some(q) => if p.0 < q.1.0 {
                Some((1int, p))
            } else {
                Some(q)
            },
            None => Some((1int, p)),
        },
        None => w0,
    };
    match ml_method {
        Some(p) => match w1 {
            Some(q) => if p.0 < q.1.0 {
                Some((2int, p))
            } else {
                Some(q)
            },
            None => Some((2int, p)),
        },
        None => w1,
    }
}

/// The statuses of the affected triple after the full 429 policy: every
/// endpoint first takes the plain 429 step (a probe doubles its
/// cooldown); if that left none of them on cooldown, the endpoint most
/// likely responsible is forced onto cooldown for its tightest window,
/// and when none has bucket data at all, every endpoint is forced onto
/// the default stopgap cooldown.
pub open spec fn spec_429_statuses(
    statuses: (Status, Status, Status),
    most_likely: (Option<(u64, u64)>, Option<(u64, u64)>, Option<(u64, u64)>),
    now_millis: u64,
) -> (Status, Status, Status) {
    let s0 = spec_status_429_step(statuses.0, now_millis);
    let s1 = spec_status_429_step(statuses.1, now_millis);
    let s2 = spec_status_429_step(statuses.2, now_millis);
    if s0 is Cooldown || s1 is Cooldown || s2 is Cooldown {
        (s0, s1, s2)
    } else {
        match spec_429_winner(most_likely.0, most_likely.1, most_likely.2) {
            Some(pick) => {
                let forced = Status::Cooldown(
                    CooldownState {
                        start_millis: now_millis,
                        duration_millis: spec_millis_of_seconds(pick.1.1),
                    },
                );
                (
                    if pick.0 == 0 {
                        forced
                    } else {
                        s0
                    },
                    if pick.0 == 1 {
                        forced
                    } else {
                        s1
                    },
                    if pick.0 == 2 {
                        forced
                    } else {
                        s2
                    },
                )
            },
            None => {
                let forced = Status::Cooldown(
                    CooldownState {
                        start_millis: now_millis,
                        duration_millis: DEFAULT_COOLDOWN_MILLIS,
                    },
                );
                (forced, forced, forced)
            },
        }
    }
}

/// Takes the endpoint for `id` through the plain 429 step.
fn step_429_one(table: &mut EndpointTable, id: Id, now_millis: u64)
    requires
        old(table).spec_wf(),
        old(table).model().dom().contains(id),
    ensures
        final(table).spec_wf(),
        final(table).model().dom() =~= old(table).model().dom(),
        forall|k: Id| #[trigger]
            old(table).model().dom().contains(k) && k != id ==> final(table).model()[k] == old(
                table,
            ).model()[k],
        final(table).model()[id].spec_status() == spec_status_429_step(
            old(table).model()[id].spec_status(),
            now_millis,
        ),
        final(table).model()[id].bucket_seq() == old(table).model()[id].bucket_seq(),
        final(table).model()[id].spec_last_update() == old(table).model()[id].spec_last_update(),
{
    let mut ep = match table.take(id) {
        Some(e) => e,
        None => Endpoint::new(),
    };
    ep.update_status_400(now_millis);
    table.put(id, ep);
}

/// Folds a 200 response into the status of the endpoint for `id`.
fn ok_one(table: &mut EndpointTable, id: Id, now_millis: u64)
    requires
        old(table).spec_wf(),
        old(table).model().dom().contains(id),
    ensures
        final(table).spec_wf(),
        final(table).model().dom() =~= old(table).model().dom(),
        forall|k: Id| #[trigger]
            old(table).model().dom().contains(k) && k != id ==> final(table).model()[k] == old(
                table,
            ).model()[k],
        ok_processed(old(table).model(), final(table).model(), id, now_millis),
{
    let mut ep = match table.take(id) {
        Some(e) => e,
        None => Endpoint::new(),
    };
    ep.update_status_200(now_millis);
    table.put(id, ep);
}

/// Forces the endpoint for `id` onto cooldown.
fn force_one(table: &mut EndpointTable, id: Id, duration_millis: u64, now_millis: u64)
    requires
        old(table).spec_wf(),
        old(table).model().dom().contains(id),
    ensures
        final(table).spec_wf(),
        final(table).model().dom() =~= old(table).model().dom(),
        forall|k: Id| #[trigger]
            old(table).model().dom().contains(k) && k != id ==> final(table).model()[k] == old(
                table,
            ).model()[k],
        final(table).model()[id].spec_status() == Status::Cooldown(
            CooldownState { start_millis: now_millis, duration_millis },
        ),
        final(table).model()[id].bucket_seq() == old(table).model()[id].bucket_seq(),
        final(table).model()[id].spec_last_update() == old(table).model()[id].spec_last_update(),
{
    let mut ep = match table.take(id) {
        Some(e) => e,
        None => Endpoint::new(),
    };
    ep.force_cd(duration_millis, now_millis);
    table.put(id, ep);
}

/// Folds a response's status code into the statuses of the three
/// affected endpoints.  A 200 takes every endpoint through the ok step
/// (proactive cooldown on a full bucket).  A 429 takes every endpoint
/// through the 429 step, and if none ended up on cooldown, forces a
/// cooldown on the endpoint most likely responsible — or, when no bucket
/// data exists anywhere, the default stopgap cooldown on all three.
/// Any other code changes nothing.
pub fn handle_status_transitions(
    table: &mut EndpointTable,
    ids: &AffectedIds,
    status_code: u16,
    now_millis: u64,
)
    requires
        old(table).spec_wf(),
        ids.spec_wf(),
        old(table).model().dom().contains(ids.region),
        old(table).model().dom().contains(ids.service),
        old(table).model().dom().contains(ids.method),
    ensures
        final(table).spec_wf(),
        final(table).model().dom() =~= old(table).model().dom(),
        forall|k: Id| #[trigger]
            old(table).model().dom().contains(k) && k != ids.region && k != ids.service && k
                != ids.method ==> final(table).model()[k] == old(table).model()[k],
        final(table).model()[ids.region].bucket_seq() == old(table).model()[ids.region].bucket_seq(),
        final(table).model()[ids.service].bucket_seq() == old(table).model()[ids.service].bucket_seq(),
        final(table).model()[ids.method].bucket_seq() == old(table).model()[ids.method].bucket_seq(),
        final(table).model()[ids.region].spec_last_update() == old(table).model()[ids.region].spec_last_update(),
        final(table).model()[ids.service].spec_last_update() == old(table).model()[ids.service].spec_last_update(),
        final(table).model()[ids.method].spec_last_update() == old(table).model()[ids.method].spec_last_update(),
        status_code == 200 ==> ok_processed(
            old(table).model(),
            final(table).model(),
            ids.region,
            now_millis,
        ) && ok_processed(old(table).model(), final(table).model(), ids.service, now_millis)
            && ok_processed(old(table).model(), final(table).model(), ids.method, now_millis),
        status_code == 429 ==> (
        final(table).model()[ids.region].spec_status(),
        final(table).model()[ids.service].spec_status(),
        final(table).model()[ids.method].spec_status(),
        ) == spec_429_statuses(
            (
                old(table).model()[ids.region].spec_status(),
                old(table).model()[ids.service].spec_status(),
                old(table).model()[ids.method].spec_status(),
            ),
            (
                old(table).model()[ids.region].spec_most_likely(),
                old(table).model()[ids.service].spec_most_likely(),
                old(table).model()[ids.method].spec_most_likely(),
            ),
            now_millis,
        ),
        status_code != 200 && status_code != 429 ==> final(table).model() == old(table).model(),
{
    let ghost m0 = table.model();
    proof {
        assert(ids.region != ids.service && ids.region != ids.method && ids.service
            != ids.method);
    }
    if status_code == 200 {
        ok_one(table, ids.region, now_millis);
        let ghost m1 = table.model();
        ok_one(table, ids.service, now_millis);
        let ghost m2 = table.model();
        proof {
            assert(m1.dom().contains(ids.service));
            assert(m1[ids.service] == m0[ids.service]);
            assert(m2[ids.region] == m1[ids.region]);
        }
        ok_one(table, ids.method, now_millis);
        let ghost m3 = table.model();
        proof {
            assert(m2.dom().contains(ids.method));
            assert(m2[ids.method] == m0[ids.method]);
            assert(m3[ids.region] == m2[ids.region]);
            assert(m3[ids.service] == m2[ids.service]);
            assert forall|k: Id| #[trigger]
                m0.dom().contains(k) && k != ids.region && k != ids.service && k != ids.method
                implies m3[k] == m0[k] by {
                assert(m1.dom().contains(k));
                assert(m2.dom().contains(k));
            }
        }
    } else if status_code == 429 {
        step_429_one(table, ids.region, now_millis);
        let ghost m1 = table.model();
        step_429_one(table, ids.service, now_millis);
        let ghost m2 = table.model();
        proof {
            assert(m1.dom().contains(ids.service));
            assert(m1[ids.service] == m0[ids.service]);
            assert(m2[ids.region] == m1[ids.region]);
        }
        step_429_one(table, ids.method, now_millis);
        let ghost ma = table.model();
        proof {
            assert(m2.dom().contains(ids.method));
            assert(m2[ids.method] == m0[ids.method]);
            assert(ma[ids.region] == m2[ids.region]);
            assert(ma[ids.service] == m2[ids.service]);
            assert forall|k: Id| #[trigger]
                m0.dom().contains(k) && k != ids.region && k != ids.service && k != ids.method
                implies ma[k] == m0[k] by {
                assert(m1.dom().contains(k));
                assert(m2.dom().contains(k));
            }
        }
        let st_r = match table.get(ids.region) {
            Some(e) => e.status(),
            None => {
                proof {
                    assert(false);
                }
                Status::Normal
            },
        };
        let st_s = match table.get(ids.service) {
            Some(e) => e.status(),
            None => {
                proof {
                    assert(false);
                }
                Status::Normal
            },
        };
        let st_m = match table.get(ids.method) {
            Some(e) => e.status(),
            None => {
                proof {
                    assert(false);
                }
                Status::Normal
            },
        };
        let already_cd = match (st_r, st_s, st_m) {
            (Status::Cooldown(_), _, _) => true,
            (_, Status::Cooldown(_), _) => true,
            (_, _, Status::Cooldown(_)) => true,
            _ => false,
        };
        if !already_cd {
            proof {
                table.lemma_wf_model();
            }
            let ml_r = match table.get(ids.region) {
                Some(e) => e.most_likely_cd(),
                None => {
                    proof {
                        assert(false);
                    }
                    None
                },
            };
            let ml_s = match table.get(ids.service) {
                Some(e) => e.most_likely_cd(),
                None => {
                    proof {
                        assert(false);
                    }
                    None
                },
            };
            let ml_m = match table.get(ids.method) {
                Some(e) => e.most_likely_cd(),
                None => {
                    proof {
                        assert(false);
                    }
                    None
                },
            };
            proof {
                assert(ml_r == m0[ids.region].spec_most_likely());
                assert(ml_s == m0[ids.service].spec_most_likely());
                assert(ml_m == m0[ids.method].spec_most_likely());
            }
            let mut best: Option<(u64, u64)> = None;
            let mut which: usize = 3;
            match ml_r {
                Some(p) => {
                    best = Some(p);
                    which = 0;
                },
                None => {},
            }
            match ml_s {
                Some(p) => {
                    let better = match best {
                        None => true,
                        Some(q) => p.0 < q.0,
                    };
                    if better {
                        best = Some(p);
                        which = 1;
                    }
                },
                None => {},
            }
            match ml_m {
                Some(p) => {
                    let better = match best {
                        None => true,
                        Some(q) => p.0 < q.0,
                    };
                    if better {
                        best = Some(p);
                        which = 2;
                    }
                },
                None => {},
            }
            proof {
                assert(match spec_429_winner(ml_r, ml_s, ml_m) {
                    None => which == 3 && best is None,
                    Some(pick) => which == pick.0 && best == Some(pick.1),
                });
            }
            match best {
                Some(p) => {
                    let id = if which == 0 {
                        ids.region
                    } else if which == 1 {
                        ids.service
                    } else {
                        ids.method
                    };
                    force_one(table, id, crate::endpoint::millis_of_seconds(p.1), now_millis);
                    proof {
                        assert(table.model()[ids.region].spec_status() == (if which == 0 {
                            Status::Cooldown(
                                CooldownState {
                                    start_millis: now_millis,
                                    duration_millis: spec_millis_of_seconds(p.1),
                                },
                            )
                        } else {
                            ma[ids.region].spec_status()
                        }));
                    }
                },
                None => {
                    force_one(table, ids.region, DEFAULT_COOLDOWN_MILLIS, now_millis);
                    let ghost mf1 = table.model();
                    force_one(table, ids.service, DEFAULT_COOLDOWN_MILLIS, now_millis);
                    let ghost mf2 = table.model();
                    proof {
                        assert(mf1.dom().contains(ids.service));
                        assert(mf2[ids.region] == mf1[ids.region]);
                    }
                    force_one(table, ids.method, DEFAULT_COOLDOWN_MILLIS, now_millis);
                    proof {
                        assert(mf2.dom().contains(ids.method));
                        assert(table.model()[ids.region] == mf2[ids.region]);
                        assert(table.model()[ids.service] == mf2[ids.service]);
                    }
                },
            }
            proof {
                assert forall|k: Id| #[trigger]
                    m0.dom().contains(k) && k != ids.region && k != ids.service && k
                        != ids.method implies table.model()[k] == m0[k] by {
                    assert(ma.dom().contains(k));
                }
            }
        }
    }
}

/// The rate-limit headers of one response, as plain strings; the caller
/// that owns the HTTP response extracts them and hands them over.
/// Absent headers stay `None`.
#[derive(Debug)]
pub struct ResponseHeaders {
    /// The `Date` header, an RFC 2822 date.
    pub date: Option<String>,
    /// The application-wide limit header (region tier).
    pub app_limit: Option<String>,
    /// The application-wide count header (region tier).
    pub app_count: Option<String>,
    /// The method-scoped limit header.
    pub method_limit: Option<String>,
    /// The method-scoped count header.
    pub method_count: Option<String>,
}

/// The observation timestamp a response carries: its `Date` header as
/// epoch milliseconds, when present and well-formed.
pub open spec fn spec_date_millis(h: ResponseHeaders) -> Option<i64> {
    match h.date {
        Some(d) => rfc2822_millis(d@),
        None => None,
    }
}

/// The pairs an optional header parses to.
pub open spec fn spec_header_pairs(h: Option<String>) -> Option<Seq<(u64, u64)>> {
    match h {
        Some(s) => spec_parse_header(s@),
        None => None,
    }
}

/// Whether a parsed limit/count pairing can be folded into a bucket
/// table: windows positive, every counted window advertised, every count
/// within its limit.
pub open spec fn spec_buckets_valid(limits: Seq<(u64, u64)>, counts: Seq<(u64, u64)>) -> bool {
    &&& forall|i: int| 0 <= i < limits.len() ==> (#[trigger] limits[i]).1 > 0
    &&& forall|i: int|
        0 <= i < counts.len() ==> pairs_by_window(limits).dom().contains(
            (#[trigger] counts[i]).1,
        )
    &&& forall|i: int|
        0 <= i < counts.len() ==> (#[trigger] counts[i]).0 <= pairs_by_window(limits)[
            counts[i].1
        ]
}

/// Whether one tier can be folded in without error: either the
/// observation is not newer than what the endpoint already has (and is
/// skipped), or both headers are present, parse, and are consistent.
pub open spec fn spec_tier_ready(
    pre: Map<Id, Endpoint>,
    id: Id,
    date_millis: i64,
    limit_h: Option<String>,
    count_h: Option<String>,
) -> bool {
    !(date_millis > pre[id].spec_last_update()) || (spec_header_pairs(limit_h) matches Some(l)
        && spec_header_pairs(count_h) matches Some(c) && spec_buckets_valid(l, c))
}

/// The entry for `id` in `post` is the entry of `pre` with the
/// observation folded in: rebuilt buckets and a new last-update
/// timestamp when the observation is newer, untouched otherwise.
pub open spec fn spec_tier_cached(
    pre: Map<Id, Endpoint>,
    post: Map<Id, Endpoint>,
    id: Id,
    date_millis: i64,
    limit_h: Option<String>,
    count_h: Option<String>,
) -> bool {
    if date_millis > pre[id].spec_last_update() {
        &&& post.dom().contains(id)
        &&& post[id].bmap() == spec_rebuilt_buckets(
            spec_header_pairs(limit_h)->0,
            spec_header_pairs(count_h)->0,
            date_millis,
        )
        &&& post[id].spec_last_update() == date_millis
        &&& post[id].spec_status() == pre[id].spec_status()
    } else {
        post.dom().contains(id) && post[id] == pre[id]
    }
}

/// The last limit advertised for a window, scanning the pairs in order.
fn find_limit_value(limits: &Vec<(u64, u64)>, window: u64) -> (r: Option<u64>)
    ensures
        r == (if pairs_by_window(limits@).dom().contains(window) {
            Some(pairs_by_window(limits@)[window])
        } else {
            Option::<u64>::None
        }),
{
    let mut r: Option<u64> = None;
    let mut i: usize = 0;
    while i < limits.len()
        invariant
            i <= limits@.len(),
            r == (if pairs_by_window(limits@.take(i as int)).dom().contains(window) {
                Some(pairs_by_window(limits@.take(i as int))[window])
            } else {
                Option::<u64>::None
            }),
        decreases limits@.len() - i,
    {
        let p = limits[i];
        proof {
            assert(limits@.take(i + 1).drop_last() =~= limits@.take(i as int));
            assert(limits@.take(i + 1).last() == limits@[i as int]);
        }
        if p.1 == window {
            r = Some(p.0);
        }
        i += 1;
    }
    proof {
        assert(limits@.take(limits@.len() as int) =~= limits@);
    }
    r
}

/// Checks that a parsed limit/count pairing can be folded into a bucket
/// table.
fn check_buckets_valid(limits: &Vec<(u64, u64)>, counts: &Vec<(u64, u64)>) -> (r: bool)
    ensures
        r == spec_buckets_valid(limits@, counts@),
{
    let mut i: usize = 0;
    while i < limits.len()
        invariant
            i <= limits@.len(),
            forall|j: int| 0 <= j < i ==> (#[trigger] limits@[j]).1 > 0,
        decreases limits@.len() - i,
    {
        if limits[i].1 == 0 {
            return false;
        }
        i += 1;
    }
    let mut k: usize = 0;
    while k < counts.len()
        invariant
            k <= counts@.len(),
            forall|j: int| 0 <= j < limits@.len() ==> (#[trigger] limits@[j]).1 > 0,
            forall|j: int|
                0 <= j < k ==> pairs_by_window(limits@).dom().contains(
                    (#[trigger] counts@[j]).1,
                ) && counts@[j].0 <= pairs_by_window(limits@)[counts@[j].1],
        decreases counts@.len() - k,
    {
        let c = counts[k];
        match find_limit_value(limits, c.1) {
            Some(maxv) => {
                if c.0 > maxv {
                    return false;
                }
            },
            None => {
                return false;
            },
        }
        k += 1;
    }
    true
}

/// Folds one tier's headers into its endpoint: skipped when the
/// observation is stale, an error when a needed header is missing,
/// malformed or inconsistent.
fn cache_tier(
    table: &mut EndpointTable,
    id: Id,
    limit_h: &Option<String>,
    count_h: &Option<String>,
    date_millis: i64,
) -> (r: Result<(), Error>)
    requires
        old(table).spec_wf(),
        old(table).model().dom().contains(id),
    ensures
        final(table).spec_wf(),
        final(table).model().dom() =~= old(table).model().dom(),
        forall|k: Id| #[trigger]
            old(table).model().dom().contains(k) && k != id ==> final(table).model()[k] == old(
                table,
            ).model()[k],
        (r is Ok) <==> spec_tier_ready(old(table).model(), id, date_millis, *limit_h, *count_h),
        (r is Ok) ==> spec_tier_cached(
            old(table).model(),
            final(table).model(),
            id,
            date_millis,
            *limit_h,
            *count_h,
        ),
        (r is Err) ==> r == Result::<(), Error>::Err(Error::HeaderParse) && final(table).model()
            == old(table).model(),
{
    let need = match table.get(id) {
        Some(e) => date_millis > e.last_update_time(),
        None => {
            proof {
                assert(false);
            }
            false
        },
    };
    if !need {
        return Ok(());
    }
    let lim_s = match limit_h {
        Some(s) => s,
        None => {
            return Err(Error::HeaderParse);
        },
    };
    let cnt_s = match count_h {
        Some(s) => s,
        None => {
            return Err(Error::HeaderParse);
        },
    };
    let limits = match parse_rate_limit_header(lim_s.as_str()) {
        Ok(v) => v,
        Err(_) => {
            return Err(Error::HeaderParse);
        },
    };
    let counts = match parse_rate_limit_header(cnt_s.as_str()) {
        Ok(v) => v,
        Err(_) => {
            return Err(Error::HeaderParse);
        },
    };
    if !check_buckets_valid(&limits, &counts) {
        return Err(Error::HeaderParse);
    }
    let mut ep = match table.take(id) {
        Some(e) => e,
        None => {
            proof {
                assert(false);
            }
            Endpoint::new()
        },
    };
    ep.update_buckets(&limits, &counts, date_millis);
    table.put(id, ep);
    Ok(())
}

/// Folds a 200 response's rate-limit headers into the affected
/// endpoints.  The region tier reads the application-wide headers, the
/// method tier the method-scoped ones; the service tier has no headers
/// of its own and is never touched.  A tier whose observation is not
/// newer than what it already has is skipped; a stale response therefore
/// changes nothing even when its headers are absent or malformed.
pub fn cache_rate_limits(
    table: &mut EndpointTable,
    ids: &AffectedIds,
    headers: &ResponseHeaders,
) -> (r: Result<(), Error>)
    requires
        old(table).spec_wf(),
        ids.spec_wf(),
        old(table).model().dom().contains(ids.region),
        old(table).model().dom().contains(ids.method),
    ensures
        final(table).spec_wf(),
        final(table).model().dom() =~= old(table).model().dom(),
        forall|k: Id| #[trigger]
            old(table).model().dom().contains(k) && k != ids.region && k != ids.method
                ==> final(table).model()[k] == old(table).model()[k],
        (r is Ok) <==> (spec_date_millis(*headers) is Some && spec_tier_ready(
            old(table).model(),
            ids.region,
            spec_date_millis(*headers)->0,
            headers.app_limit,
            headers.app_count,
        ) && spec_tier_ready(
            old(table).model(),
            ids.method,
            spec_date_millis(*headers)->0,
            headers.method_limit,
            headers.method_count,
        )),
        (r is Ok) ==> (spec_date_millis(*headers) is Some && spec_tier_cached(
            old(table).model(),
            final(table).model(),
            ids.region,
            spec_date_millis(*headers)->0,
            headers.app_limit,
            headers.app_count,
        ) && spec_tier_cached(
            old(table).model(),
            final(table).model(),
            ids.method,
            spec_date_millis(*headers)->0,
            headers.method_limit,
            headers.method_count,
        )),
        (r is Err) ==> r == Result::<(), Error>::Err(Error::HeaderParse),
        (spec_date_millis(*headers) is None) ==> final(table).model() == old(table).model(),
        (spec_date_millis(*headers) is Some && !spec_tier_ready(
            old(table).model(),
            ids.region,
            spec_date_millis(*headers)->0,
            headers.app_limit,
            headers.app_count,
        )) ==> final(table).model() == old(table).model(),
        (spec_date_millis(*headers) is Some && spec_tier_ready(
            old(table).model(),
            ids.region,
            spec_date_millis(*headers)->0,
            headers.app_limit,
            headers.app_count,
        ) && !spec_tier_ready(
            old(table).model(),
            ids.method,
            spec_date_millis(*headers)->0,
            headers.method_limit,
            headers.method_count,
        )) ==> spec_tier_cached(
            old(table).model(),
            final(table).model(),
            ids.region,
            spec_date_millis(*headers)->0,
            headers.app_limit,
            headers.app_count,
        ) && final(table).model()[ids.method] == old(table).model()[ids.method],
    {
    let ghost m0 = table.model();
    proof {
        assert(ids.region != ids.service && ids.region != ids.method && ids.service
            != ids.method);
    }
    let date_millis = match &headers.date {
        Some(d) => {
            match parse_rfc2822_millis(d.as_str()) {
                Some(t) => t,
                None => {
                    return Err(Error::HeaderParse);
                },
            }
        },
        None => {
            return Err(Error::HeaderParse);
        },
    };
    let r1 = cache_tier(table, ids.region, &headers.app_limit, &headers.app_count, date_millis);
    let ghost m1 = table.model();
    if let Err(e) = r1 {
        return Err(e);
    }
    proof {
        assert(m1.dom().contains(ids.method));
        assert(m1[ids.method] == m0[ids.method]);
    }
    let r2 = cache_tier(
        table,
        ids.method,
        &headers.method_limit,
        &headers.method_count,
        date_millis,
    );
    let ghost m2 = table.model();
    if let Err(e) = r2 {
        proof {
            assert(m2 == m1);
            assert(m2[ids.region] == m1[ids.region]);
        }
        return Err(e);
    }
    proof {
        assert(m1.dom().contains(ids.region));
        assert(m2[ids.region] == m1[ids.region]);
        assert forall|k: Id| #[trigger]
            m0.dom().contains(k) && k != ids.region && k != ids.method implies m2[k]
            == m0[k] by {
            assert(m1.dom().contains(k));
        }
    }
    Ok(())
}

/// The cooldown time an endpoint status still has to run at
/// `now_millis`; zero for anything but a cooldown.
pub open spec fn spec_remaining(status: Status, now_millis: u64) -> u64 {
    match status {
        Status::Cooldown(cd) => cd.spec_time_left(now_millis),
        _ => 0,
    }
}

/// The largest of three durations.
pub open spec fn spec_max3(a: u64, b: u64, c: u64) -> u64 {
    if a >= b && a >= c {
        a
    } else if b >= c {
        b
    } else {
        c
    }
}

/// `mid` is `pre` with a fresh 200 observation's headers folded into the
/// region and method endpoints.
pub open spec fn spec_cached_all(
    pre: Map<Id, Endpoint>,
    mid: Map<Id, Endpoint>,
    ids: AffectedIds,
    h: ResponseHeaders,
) -> bool {
    &&& spec_date_millis(h) is Some
    &&& mid.dom() =~= pre.dom()
    &&& forall|k: Id| #[trigger]
        pre.dom().contains(k) && k != ids.region && k != ids.method ==> mid[k] == pre[k]
    &&& spec_tier_cached(pre, mid, ids.region, spec_date_millis(h)->0, h.app_limit, h.app_count)
    &&& spec_tier_cached(
        pre,
        mid,
        ids.method,
        spec_date_millis(h)->0,
        h.method_limit,
        h.method_count,
    )
}

/// `post` is `mid` with a 200 folded into the statuses of all three
/// affected endpoints.
pub open spec fn spec_ok_stepped_all(
    mid: Map<Id, Endpoint>,
    post: Map<Id, Endpoint>,
    ids: AffectedIds,
    now_millis: u64,
) -> bool {
    &&& ok_processed(mid, post, ids.region, now_millis)
    &&& ok_processed(mid, post, ids.service, now_millis)
    &&& ok_processed(mid, post, ids.method, now_millis)
}

/// The cooldown time the status of `st` still has to run at
/// `now_millis`; zero for anything but a cooldown.
fn status_remaining(st: Status, now_millis: u64) -> (r: u64)
    ensures
        r == spec_remaining(st, now_millis),
{
    match st {
        Status::Cooldown(cd) => {
            match cd.time_left(now_millis) {
                Some(t) => t,
                None => 0,
            }
        },
        _ => 0,
    }
}

/// Folds one response into the endpoint table and produces the call's
/// outcome.  On a 200 the rate-limit headers are cached first (a header
/// problem surfaces as `HeaderParse` and leaves the statuses alone),
/// then every affected endpoint takes the ok step.  On a 429 the
/// backoff policy runs and the error carries the longest cooldown now
/// remaining across the affected endpoints.  Any 2xx yields `Ok`; any
/// other code leaves the table untouched and yields `HttpStatus`.
pub fn handle_response(
    table: &mut EndpointTable,
    ids: &AffectedIds,
    status_code: u16,
    headers: &ResponseHeaders,
    now_millis: u64,
) -> (r: Result<(), Error>)
    requires
        old(table).spec_wf(),
        ids.spec_wf(),
        old(table).model().dom().contains(ids.region),
        old(table).model().dom().contains(ids.service),
        old(table).model().dom().contains(ids.method),
    ensures
        final(table).spec_wf(),
        final(table).model().dom() =~= old(table).model().dom(),
        forall|k: Id| #[trigger]
            old(table).model().dom().contains(k) && k != ids.region && k != ids.service && k
                != ids.method ==> final(table).model()[k] == old(table).model()[k],
        status_code == 200 ==> ((r is Ok) <==> (spec_date_millis(*headers) is Some
            && spec_tier_ready(
            old(table).model(),
            ids.region,
            spec_date_millis(*headers)->0,
            headers.app_limit,
            headers.app_count,
        ) && spec_tier_ready(
            old(table).model(),
            ids.method,
            spec_date_millis(*headers)->0,
            headers.method_limit,
            headers.method_count,
        ))),
        status_code == 200 && (r is Ok) ==> exists|mid: Map<Id, Endpoint>|
            spec_cached_all(old(table).model(), mid, *ids, *headers) && #[trigger]
            spec_ok_stepped_all(mid, final(table).model(), *ids, now_millis),
        status_code == 200 && (r is Err) ==> r == Result::<(), Error>::Err(Error::HeaderParse)
            && final(table).model()[ids.region].spec_status()
                == old(table).model()[ids.region].spec_status()
            && final(table).model()[ids.service] == old(table).model()[ids.service]
            && final(table).model()[ids.method].spec_status()
                == old(table).model()[ids.method].spec_status(),
        status_code == 429 ==> (
        final(table).model()[ids.region].spec_status(),
        final(table).model()[ids.service].spec_status(),
        final(table).model()[ids.method].spec_status(),
        ) == spec_429_statuses(
            (
                old(table).model()[ids.region].spec_status(),
                old(table).model()[ids.service].spec_status(),
                old(table).model()[ids.method].spec_status(),
            ),
            (
                old(table).model()[ids.region].spec_most_likely(),
                old(table).model()[ids.service].spec_most_likely(),
                old(table).model()[ids.method].spec_most_likely(),
            ),
            now_millis,
        ) && r == Result::<(), Error>::Err(
            Error::TooManyRequests {
                retry_after_millis: spec_max3(
                    spec_remaining(final(table).model()[ids.region].spec_status(), now_millis),
                    spec_remaining(final(table).model()[ids.service].spec_status(), now_millis),
                    spec_remaining(final(table).model()[ids.method].spec_status(), now_millis),
                ),
            },
        ),
        status_code != 200 && 200 <= status_code < 300 ==> final(table).model() == old(
            table,
        ).model() && r == Result::<(), Error>::Ok(()),
        !(200 <= status_code < 300) && status_code != 429 ==> final(table).model() == old(
            table,
        ).model() && r == Result::<(), Error>::Err(Error::HttpStatus(status_code)),
{
    let ghost m0 = table.model();
    proof {
        assert(ids.region != ids.service && ids.region != ids.method && ids.service
            != ids.method);
    }
    if status_code == 200 {
        let c = cache_rate_limits(table, ids, headers);
        if let Err(e) = c {
            return Err(e);
        }
    }
    let ghost mid = table.model();
    handle_status_transitions(table, ids, status_code, now_millis);
    let ghost m2 = table.model();
    proof {
        assert forall|k: Id| #[trigger]
            m0.dom().contains(k) && k != ids.region && k != ids.service && k != ids.method
            implies m2[k] == m0[k] by {
            assert(mid.dom().contains(k));
        }
    }
    if 200 <= status_code && status_code < 300 {
        proof {
            if status_code == 200 {
                assert(spec_cached_all(m0, mid, *ids, *headers));
                assert(spec_ok_stepped_all(mid, m2, *ids, now_millis));
            }
        }
        Ok(())
    } else if status_code == 429 {
        let st_r = match table.get(ids.region) {
            Some(e) => e.status(),
            None => {
                proof {
                    assert(false);
                }
                Status::Normal
            },
        };
        let st_s = match table.get(ids.service) {
            Some(e) => e.status(),
            None => {
                proof {
                    assert(false);
                }
                Status::Normal
            },
        };
        let st_m = match table.get(ids.method) {
            Some(e) => e.status(),
            None => {
                proof {
                    assert(false);
                }
                Status::Normal
            },
        };
        let rem_r = status_remaining(st_r, now_millis);
        let rem_s = status_remaining(st_s, now_millis);
        let rem_m = status_remaining(st_m, now_millis);
        let mut hint = rem_r;
        if rem_s > hint {
            hint = rem_s;
        }
        if rem_m > hint {
            hint = rem_m;
        }
        Err(Error::TooManyRequests { retry_after_millis: hint })
    } else {
        Err(Error::HttpStatus(status_code))
    }
}

} // verus!
