//! The Query service's rules: which gamer-id lists it accepts and in which
//! order it answers with the profiles it found.

use crate::ids::{checked_id_list, positive_unique};
use crate::player::PlayerProfile;
use crate::status::{Status, StatusCode};
use std::collections::HashMap;
use vstd::prelude::*;

verus! {

broadcast use vstd::std_specs::hash::group_hash_axioms;

/// The most gamer ids one request may name.
pub const MAX_GAMER_IDS: usize = 100;

/// The most Query requests served at once.
pub const MAX_INFLIGHT_REQUESTS: usize = 1_024;

/// The gamer ids of a request, when there are 1 to `MAX_GAMER_IDS` of them,
/// all positive and none twice.
pub fn valid_gamer_ids(gamer_ids: Vec<i64>) -> (r: Option<Vec<i64>>)
    ensures
        positive_unique(gamer_ids@, MAX_GAMER_IDS as int) ==> r == Some(gamer_ids),
        !positive_unique(gamer_ids@, MAX_GAMER_IDS as int) ==> r is None,
{
    checked_id_list(gamer_ids, MAX_GAMER_IDS)
}

/// The profile found for each player id: the last stored player with that id
/// and a profile wins.
pub open spec fn found_profiles(players: Seq<(i64, Option<PlayerProfile>)>) -> Map<
    i64,
    PlayerProfile,
>
    decreases players.len(),
{
    if players.len() == 0 {
        Map::empty()
    } else {
        let rest = found_profiles(players.drop_last());
        match players.last().1 {
            Some(p) => rest.insert(players.last().0, p),
            None => rest,
        }
    }
}

/// The profiles of the requested ids that were found, in request order.
pub open spec fn answered_profiles(ids: Seq<i64>, found: Map<i64, PlayerProfile>) -> Seq<
    PlayerProfile,
>
    decreases ids.len(),
{
    if ids.len() == 0 {
        Seq::empty()
    } else {
        let rest = answered_profiles(ids.drop_last(), found);
        if found.contains_key(ids.last()) {
            rest.push(found[ids.last()])
        } else {
            rest
        }
    }
}

/// Answers a gamer-info request from the stored players that were loaded for
/// it: the profile of each requested id that has one, in request order.
pub fn profiles_in_request_order(
    gamer_ids: &Vec<i64>,
    players: Vec<(i64, Option<PlayerProfile>)>,
) -> (r: Vec<PlayerProfile>)
    requires
        gamer_ids@.no_duplicates(),
    ensures
        r@ == answered_profiles(gamer_ids@, found_profiles(players@)),
{
    let ghost all = players@;
    let mut loaded: HashMap<i64, PlayerProfile> = HashMap::new();
    let mut rest = players;
    let mut stack: Vec<(i64, Option<PlayerProfile>)> = Vec::new();
    while rest.len() > 0
        invariant
            all == rest@ + stack@.reverse(),
        decreases rest.len(),
    {
        let ghost before = rest@;
        let entry = rest.pop().unwrap();
        proof {
            assert(before =~= rest@.push(entry));
        }
        let ghost st = stack@;
        stack.push(entry);
        proof {
            assert(stack@.reverse() =~= seq![entry] + st.reverse());
            assert(all =~= rest@ + stack@.reverse());
        }
    }
    proof {
        assert(all =~= stack@.reverse());
    }
    let ghost mut k: int = 0;
    while stack.len() > 0
        invariant
            0 <= k <= all.len(),
            stack@.reverse() == all.skip(k),
            loaded@ == found_profiles(all.take(k)),
        decreases stack.len(),
    {
        let ghost before = stack@;
        let entry = stack.pop().unwrap();
        proof {
            assert(before =~= stack@.push(entry));
            assert(before.reverse() =~= seq![entry] + stack@.reverse());
            assert(all.skip(k)[0] == entry);
            assert(all.skip(k + 1) =~= all.skip(k).drop_first());
            assert(all.take(k + 1).drop_last() =~= all.take(k));
            assert(all.take(k + 1).last() == all[k]);
        }
        let (gid, profile) = entry;
        match profile {
            Some(p) => {
                loaded.insert(gid, p);
            },
            None => {},
        }
        proof {
            k = k + 1;
        }
    }
    proof {
        assert(all.take(all.len() as int) =~= all);
    }
    let mut out: Vec<PlayerProfile> = Vec::new();
    let mut i: usize = 0;
    let ghost found = found_profiles(all);
    while i < gamer_ids.len()
        invariant
            i <= gamer_ids@.len(),
            gamer_ids@.no_duplicates(),
            forall|g: i64| #[trigger]
                loaded@.contains_key(g) ==> found.contains_key(g) && loaded@[g] == found[g],
            forall|g: i64|
                #[trigger] found.contains_key(g) && !gamer_ids@.take(i as int).contains(g)
                    ==> loaded@.contains_key(g),
            out@ == answered_profiles(gamer_ids@.take(i as int), found),
        decreases gamer_ids.len() - i,
    {
        let gid = gamer_ids[i];
        proof {
            assert(gamer_ids@.take(i + 1).drop_last() =~= gamer_ids@.take(i as int));
            assert(gamer_ids@.take(i + 1).last() == gid);
            assert(!gamer_ids@.take(i as int).contains(gid)) by {
                if gamer_ids@.take(i as int).contains(gid) {
                    let j = choose|j: int| 0 <= j < i && gamer_ids@.take(i as int)[j] == gid;
                    assert(gamer_ids@[j] == gamer_ids@[i as int]);
                }
            }
        }
        match loaded.remove(&gid) {
            Some(p) => {
                out.push(p);
            },
            None => {},
        }
        proof {
            assert forall|g: i64|
                #[trigger] found.contains_key(g) && !gamer_ids@.take(i + 1).contains(g)
                    implies loaded@.contains_key(g) by {
                assert(gamer_ids@.take(i + 1)[i as int] == gid);
                if gamer_ids@.take(i as int).contains(g) {
                    let j = choose|j: int| 0 <= j < i && gamer_ids@.take(i as int)[j] == g;
                    assert(gamer_ids@.take(i + 1)[j] == g);
                }
            }
        }
        i = i + 1;
    }
    proof {
        assert(gamer_ids@.take(gamer_ids@.len() as int) =~= gamer_ids@);
    }
    out
}


/// Why loading the requested players failed.
#[derive(Clone, Copy, Debug, PartialEq, Eq, Structural)]
pub enum LoadFailure {
    /// The store could not be read.
    Load,
    /// A stored player could not be decoded.
    Decode,
}

/// The answer to a gamer-info request.
#[derive(Debug)]
pub struct GamerInfoAnswer {
    pub status: Status,
    pub players: Vec<PlayerProfile>,
}

/// Answers a gamer-info request once its players were loaded (or not):
/// the profiles in request order, or the failure.
pub fn gamer_info_answer(
    gamer_ids: &Vec<i64>,
    loaded: Result<Vec<(i64, Option<PlayerProfile>)>, LoadFailure>,
) -> (r: GamerInfoAnswer)
    requires
        gamer_ids@.no_duplicates(),
    ensures
        match loaded {
            Ok(players) => r.status.code == StatusCode::Success && r.players@ == answered_profiles(
                gamer_ids@,
                found_profiles(players@),
            ),
            Err(LoadFailure::Load) => r.status.code == StatusCode::Internal && r.status.message@
                == "player load failed"@ && r.players@.len() == 0,
            Err(LoadFailure::Decode) => r.status.code == StatusCode::Internal && r.status.message@
                == "player decode failed"@ && r.players@.len() == 0,
        },
{
    match loaded {
        Ok(players) => GamerInfoAnswer {
            status: Status::ok(),
            players: profiles_in_request_order(gamer_ids, players),
        },
        Err(LoadFailure::Load) => GamerInfoAnswer {
            status: Status::error(StatusCode::Internal, "player load failed"),
            players: Vec::new(),
        },
        Err(LoadFailure::Decode) => GamerInfoAnswer {
            status: Status::error(StatusCode::Internal, "player decode failed"),
            players: Vec::new(),
        },
    }
}

/// The answer to a gamer-info request whose ids are not a valid list.
pub fn invalid_gamer_ids() -> (r: GamerInfoAnswer)
    ensures
        r.status.code == StatusCode::InvalidArgument,
        r.status.message@ == "invalid gamer ids"@,
        r.players@.len() == 0,
{
    GamerInfoAnswer { status: Status::error(StatusCode::InvalidArgument, "invalid gamer ids"), players: Vec::new() }
}

} // verus!
