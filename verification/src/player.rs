//! A Logic player: its inventory rules, its session binding, the dirty flag
//! that tells the runtime it must be saved, and the Logic-login flow.

use crate::persistence::LogicState;
use crate::runtime::{Completed, LogicCallError, RejectReason};
use crate::status::{Status, StatusCode};
use std::collections::HashMap;
use vstd::prelude::*;
use vstd::std_specs::iter::IteratorSpec;
use vstd::string::StringExecFns;

verus! {

broadcast use vstd::std_specs::hash::group_hash_axioms;

/// An item stack: its id, its count, and the change a request made to it.
#[derive(Clone, Copy, Debug, PartialEq, Eq, Structural)]
pub struct Item {
    pub item_id: i32,
    pub count: i64,
    pub change: i64,
}

pub open spec fn in_i64(x: int) -> bool {
    i64::MIN <= x <= i64::MAX
}

/// A request item names a real item and a positive count.
pub open spec fn valid_item(i: Item) -> bool {
    i.item_id > 0 && i.count > 0
}

/// An item request is non-empty and every item in it is valid.
pub open spec fn valid_items(s: Seq<Item>) -> bool {
    s.len() > 0 && forall|i: int| 0 <= i < s.len() ==> valid_item(#[trigger] s[i])
}

/// The first position of `id` among the ids of `a`, or -1.
pub open spec fn position(a: Seq<(i32, int)>, id: i32) -> int
    decreases a.len(),
{
    if a.len() == 0 {
        -1
    } else {
        let p = position(a.drop_last(), id);
        if p >= 0 {
            p
        } else if a.last().0 == id {
            a.len() - 1
        } else {
            -1
        }
    }
}

/// The distinct item ids of a request in order of first appearance, each
/// with the sum of its counts.
pub open spec fn aggregate(s: Seq<Item>) -> Seq<(i32, int)>
    decreases s.len(),
{
    if s.len() == 0 {
        Seq::empty()
    } else {
        let a = aggregate(s.drop_last());
        let it = s.last();
        let p = position(a, it.item_id);
        if p >= 0 {
            a.update(p, (it.item_id, a[p].1 + it.count))
        } else {
            a.push((it.item_id, it.count as int))
        }
    }
}

/// Every running total of the aggregation fits an `i64`.
pub open spec fn totals_fit(s: Seq<Item>) -> bool
    decreases s.len(),
{
    if s.len() == 0 {
        true
    } else {
        &&& totals_fit(s.drop_last())
        &&& forall|j: int| 0 <= j < aggregate(s).len() ==> in_i64(#[trigger] aggregate(s)[j].1)
    }
}

pub open spec fn distinct_ids(a: Seq<(i32, int)>) -> bool {
    forall|i: int, j: int| 0 <= i < j < a.len() ==> #[trigger] a[i].0 != #[trigger] a[j].0
}

proof fn lemma_position(a: Seq<(i32, int)>, id: i32)
    ensures
        -1 <= position(a, id) < a.len(),
        position(a, id) >= 0 ==> a[position(a, id)].0 == id,
        position(a, id) < 0 ==> forall|i: int| 0 <= i < a.len() ==> #[trigger] a[i].0 != id,
        position(a, id) >= 0 ==> forall|i: int| 0 <= i < position(a, id) ==> #[trigger] a[i].0 != id,
    decreases a.len(),
{
    if a.len() > 0 {
        lemma_position(a.drop_last(), id);
        let p = position(a.drop_last(), id);
        if p >= 0 {
            assert(a.drop_last()[p] == a[p]);
            assert forall|i: int| 0 <= i < p implies #[trigger] a[i].0 != id by {
                assert(a.drop_last()[i] == a[i]);
            }
        } else {
            assert forall|i: int| 0 <= i < a.len() - 1 implies #[trigger] a[i].0 != id by {
                assert(a.drop_last()[i] == a[i]);
            }
        }
    }
}

proof fn lemma_aggregate(s: Seq<Item>)
    requires
        forall|i: int| 0 <= i < s.len() ==> valid_item(#[trigger] s[i]),
    ensures
        distinct_ids(aggregate(s)),
        forall|j: int| 0 <= j < aggregate(s).len() ==> #[trigger] aggregate(s)[j].1 >= 1,
        forall|j: int| 0 <= j < aggregate(s).len() ==> #[trigger] aggregate(s)[j].0 >= 1,
    decreases s.len(),
{
    if s.len() > 0 {
        assert forall|i: int| 0 <= i < s.drop_last().len() implies valid_item(#[trigger] s.drop_last()[i]) by {
            assert(s.drop_last()[i] == s[i]);
        }
        lemma_aggregate(s.drop_last());
        let a = aggregate(s.drop_last());
        lemma_position(a, s.last().item_id);
        assert(valid_item(s[s.len() - 1]));
    }
}

proof fn lemma_totals_fit_prefix(s: Seq<Item>, i: int)
    requires
        totals_fit(s),
        0 <= i <= s.len(),
    ensures
        totals_fit(s.take(i)),
    decreases s.len() - i,
{
    if i < s.len() {
        lemma_totals_fit_prefix(s, i + 1);
        assert(s.take(i + 1).drop_last() =~= s.take(i));
    } else {
        assert(s.take(i) =~= s);
    }
}

/// Sums the counts of a request by item id, keeping the order in which the
/// ids first appear.
pub fn aggregate_items(items: &Vec<Item>) -> (r: Vec<(i32, i64)>)
    requires
        totals_fit(items@),
    ensures
        r@.map_values(|p: (i32, i64)| (p.0, p.1 as int)) == aggregate(items@),
{
    let mut agg: Vec<(i32, i64)> = Vec::new();
    let mut i: usize = 0;
    while i < items.len()
        invariant
            i <= items@.len(),
            totals_fit(items@),
            agg@.map_values(|p: (i32, i64)| (p.0, p.1 as int)) == aggregate(items@.take(i as int)),
        decreases items.len() - i,
    {
        let ghost a = aggregate(items@.take(i as int));
        let item = items[i];
        proof {
            lemma_totals_fit_prefix(items@, i + 1);
            assert(items@.take(i + 1).drop_last() =~= items@.take(i as int));
            assert(items@.take(i + 1).last() == item);
            lemma_position(a, item.item_id);
        }
        let mut p: usize = 0;
        while p < agg.len() && agg[p].0 != item.item_id
            invariant
                p <= agg@.len(),
                agg@.len() == a.len(),
                agg@.map_values(|q: (i32, i64)| (q.0, q.1 as int)) == a,
                forall|j: int| 0 <= j < p ==> #[trigger] a[j].0 != item.item_id,
            decreases agg.len() - p,
        {
            p = p + 1;
        }
        let ghost before = agg@;
        if p < agg.len() {
            proof {
                assert(a[p as int].0 == item.item_id);
                assert(position(a, item.item_id) == p);
                let t = aggregate(items@.take(i + 1));
                assert(t[p as int].1 == a[p as int].1 + item.count);
                assert(in_i64(t[p as int].1));
            }
            let total = agg[p].1 + item.count;
            agg.set(p, (item.item_id, total));
            proof {
                assert(agg@.map_values(|q: (i32, i64)| (q.0, q.1 as int)) =~= a.update(
                    p as int,
                    (item.item_id, a[p as int].1 + item.count),
                ));
            }
        } else {
            proof {
                assert(position(a, item.item_id) < 0);
            }
            agg.push((item.item_id, item.count));
            proof {
                assert(agg@.map_values(|q: (i32, i64)| (q.0, q.1 as int)) =~= a.push(
                    (item.item_id, item.count as int),
                ));
            }
        }
        i = i + 1;
    }
    proof {
        assert(items@.take(items@.len() as int) =~= items@);
    }
    agg
}

/// Whether every running total of summing a request's counts by item id
/// fits an `i64`: what the item requests need before they may run.
pub fn item_totals_fit(items: &Vec<Item>) -> (r: bool)
    ensures
        r == totals_fit(items@),
{
    let mut agg: Vec<(i32, i64)> = Vec::new();
    let mut i: usize = 0;
    proof {
        assert(items@.take(0) =~= Seq::<Item>::empty());
    }
    while i < items.len()
        invariant
            i <= items@.len(),
            totals_fit(items@.take(i as int)),
            agg@.map_values(|p: (i32, i64)| (p.0, p.1 as int)) == aggregate(items@.take(i as int)),
        decreases items.len() - i,
    {
        let ghost a = aggregate(items@.take(i as int));
        let item = items[i];
        let ghost t = aggregate(items@.take(i + 1));
        proof {
            assert(items@.take(i + 1).drop_last() =~= items@.take(i as int));
            assert(items@.take(i + 1).last() == item);
            lemma_position(a, item.item_id);
        }
        let mut p: usize = 0;
        while p < agg.len() && agg[p].0 != item.item_id
            invariant
                p <= agg@.len(),
                agg@.len() == a.len(),
                agg@.map_values(|q: (i32, i64)| (q.0, q.1 as int)) == a,
                forall|j: int| 0 <= j < p ==> #[trigger] a[j].0 != item.item_id,
            decreases agg.len() - p,
        {
            p = p + 1;
        }
        if p < agg.len() {
            proof {
                assert(a[p as int].0 == item.item_id);
                assert(position(a, item.item_id) == p);
                assert(t == a.update(p as int, (item.item_id, a[p as int].1 + item.count)));
            }
            match agg[p].1.checked_add(item.count) {
                Some(total) => {
                    agg.set(p, (item.item_id, total));
                    proof {
                        assert(agg@.map_values(|q: (i32, i64)| (q.0, q.1 as int)) =~= t);
                        assert forall|j: int| 0 <= j < t.len() implies in_i64(#[trigger] t[j].1) by {
                            assert(t[j] == agg@.map_values(|q: (i32, i64)| (q.0, q.1 as int))[j]);
                        }
                    }
                },
                None => {
                    proof {
                        assert(!in_i64(t[p as int].1));
                        assert(!totals_fit(items@.take(i + 1)));
                        if totals_fit(items@) {
                            lemma_totals_fit_prefix(items@, i + 1);
                        }
                    }
                    return false;
                },
            }
        } else {
            proof {
                assert(position(a, item.item_id) < 0);
            }
            agg.push((item.item_id, item.count));
            proof {
                assert(agg@.map_values(|q: (i32, i64)| (q.0, q.1 as int)) =~= t);
                assert forall|j: int| 0 <= j < t.len() implies in_i64(#[trigger] t[j].1) by {
                    assert(t[j] == agg@.map_values(|q: (i32, i64)| (q.0, q.1 as int))[j]);
                }
            }
        }
        i = i + 1;
    }
    proof {
        assert(items@.take(items@.len() as int) =~= items@);
    }
    true
}


// ---------------------------------------------------------------------------
// The player state
// ---------------------------------------------------------------------------

/// A player's binding to a Gate: that Gate's id and the session id.
#[derive(Clone, Copy, Debug, PartialEq, Eq, Structural)]
pub struct PlayerSession {
    pub gate_id: i32,
    pub session_id: i64,
}

/// The public profile of a player.
#[derive(Debug)]
pub struct PlayerProfile {
    pub gid: i64,
    pub name: String,
    pub level: i32,
    pub icon: i32,
    pub exp: i64,
}

impl Clone for PlayerProfile {
    fn clone(&self) -> (r: Self)
        ensures
            r == *self,
    {
        PlayerProfile {
            gid: self.gid,
            name: self.name.clone(),
            level: self.level,
            icon: self.icon,
            exp: self.exp,
        }
    }
}

/// What is stored of a player: its id, its profile and its item counts.
#[derive(Debug)]
pub struct PlayerData {
    pub gid: i64,
    pub profile: Option<PlayerProfile>,
    pub items: HashMap<i32, i64>,
}

/// A resident player: its stored data, the session it is bound to, and
/// whether it has changes that were not saved.
#[derive(Debug)]
pub struct PlayerState {
    pub data: PlayerData,
    pub session: Option<PlayerSession>,
    pub dirty: bool,
}

impl LogicState for PlayerState {
    fn is_dirty(&self) -> (r: bool)
        ensures
            r == self.dirty,
    {
        self.dirty
    }
}

/// The count a player holds of an item: what the map says, 0 when absent.
pub open spec fn held(m: Map<i32, i64>, id: i32) -> int {
    if m.contains_key(id) {
        m[id] as int
    } else {
        0
    }
}

/// Everything of a player but its items is the same in both states.
pub open spec fn same_but_items(a: PlayerState, b: PlayerState) -> bool {
    &&& a.session == b.session
    &&& a.data.gid == b.data.gid
    &&& a.data.profile == b.data.profile
}

/// Nothing observable of the player changed.
pub open spec fn unchanged(a: PlayerState, b: PlayerState) -> bool {
    &&& same_but_items(a, b)
    &&& a.data.items@ == b.data.items@
    &&& a.dirty == b.dirty
}

fn held_count(items: &HashMap<i32, i64>, id: i32) -> (r: i64)
    ensures
        r == held(items@, id),
{
    match items.get(&id) {
        Some(c) => *c,
        None => 0,
    }
}

pub(crate) fn clone_profile(p: &Option<PlayerProfile>) -> (r: Option<PlayerProfile>)
    ensures
        r == *p,
{
    match p {
        Some(profile) => Some(profile.clone()),
        None => None,
    }
}

/// The answer to a use-item request.
#[derive(Debug)]
pub struct UseItemResponse {
    pub status: Status,
    pub item: Option<Item>,
}

/// The answer to an add-items or remove-items request.
#[derive(Debug)]
pub struct ItemsResponse {
    pub status: Status,
    pub items: Vec<Item>,
}

/// The answer to a check-items request.
#[derive(Debug)]
pub struct CheckItemsResponse {
    pub status: Status,
    pub enough: bool,
}

/// The answer to a player-info request.
#[derive(Debug)]
pub struct PlayerInfoResponse {
    pub status: Status,
    pub player: Option<PlayerProfile>,
    pub items: Vec<Item>,
}

/// The answer to a Logic login, before the handler fills in the ids.
#[derive(Debug)]
pub struct LogicLoginResponse {
    pub status: Status,
    pub logic_id: i32,
    pub old_gate_id: i32,
    pub old_player_session: i64,
    pub player: Option<PlayerProfile>,
    pub items: Vec<Item>,
}

/// A login: whether the player had no session before, and the answer.
#[derive(Debug)]
pub struct LoginResult {
    pub became_online: bool,
    pub response: LogicLoginResponse,
}

impl PlayerState {
    /// A freshly loaded player: no session, nothing to save.
    pub fn new(data: PlayerData) -> (r: Self)
        ensures
            r.data == data,
            r.session is None,
            !r.dirty,
    {
        PlayerState { data, session: None, dirty: false }
    }

    /// Binds the player to a Gate session, replacing any earlier binding.
    pub fn login(&mut self, gate_id: i32, session_id: i64) -> (r: LoginResult)
        ensures
            r.became_online == old(self).session is None,
            final(self).session == Some(PlayerSession { gate_id, session_id }),
            final(self).data == old(self).data,
            final(self).dirty == old(self).dirty,
            r.response.status.code == StatusCode::Success,
            r.response.logic_id == 0,
            r.response.old_gate_id == 0,
            r.response.old_player_session == 0,
            r.response.player == old(self).data.profile,
            sorted_view(r.response.items@, old(self).data.items@),
    {
        let became_online = self.session.is_none();
        self.session = Some(PlayerSession { gate_id, session_id });
        let items = self.items();
        LoginResult {
            became_online,
            response: LogicLoginResponse {
                status: Status::ok(),
                logic_id: 0,
                old_gate_id: 0,
                old_player_session: 0,
                player: clone_profile(&self.data.profile),
                items,
            },
        }
    }

    /// Unbinds the player if, and only if, it is bound to exactly this Gate
    /// session; answers whether it was.
    pub fn disconnect(&mut self, gate_id: i32, session_id: i64) -> (r: bool)
        ensures
            r == (old(self).session == Some(PlayerSession { gate_id, session_id })),
            final(self).session == (if r { None } else { old(self).session }),
            final(self).data == old(self).data,
            final(self).dirty == old(self).dirty,
    {
        let matches = match self.session {
            Some(current) => current.gate_id == gate_id && current.session_id == session_id,
            None => false,
        };
        if matches {
            self.session = None;
        }
        matches
    }

    /// The player's profile and items.
    pub fn player_info(&self) -> (r: PlayerInfoResponse)
        ensures
            r.status.code == StatusCode::Success,
            r.player == self.data.profile,
            sorted_view(r.items@, self.data.items@),
    {
        PlayerInfoResponse {
            status: Status::ok(),
            player: clone_profile(&self.data.profile),
            items: self.items(),
        }
    }

    /// Uses `count` of one item: refused unless the request names a real
    /// item and a positive count, and unless the player holds enough.
    pub fn use_item(&mut self, item_id: i32, count: i64) -> (r: UseItemResponse)
        ensures
            !(item_id > 0 && count > 0) ==> {
                &&& r.status.code == StatusCode::InvalidArgument
                &&& r.status.message@ == "invalid item request"@
                &&& r.item is None
                &&& unchanged(*final(self), *old(self))
            },
            item_id > 0 && count > 0 && held(old(self).data.items@, item_id) < count ==> {
                &&& r.status.code == StatusCode::InsufficientItems
                &&& r.status.message@ == "insufficient items"@
                &&& r.item == Some(
                    Item {
                        item_id,
                        count: held(old(self).data.items@, item_id) as i64,
                        change: 0,
                    },
                )
                &&& unchanged(*final(self), *old(self))
            },
            item_id > 0 && count > 0 && held(old(self).data.items@, item_id) >= count ==> {
                let remaining = held(old(self).data.items@, item_id) - count;
                &&& r.status.code == StatusCode::Success
                &&& r.item == Some(
                    Item { item_id, count: remaining as i64, change: (-count) as i64 },
                )
                &&& final(self).data.items@ == (if remaining == 0 {
                    old(self).data.items@.remove(item_id)
                } else {
                    old(self).data.items@.insert(item_id, remaining as i64)
                })
                &&& final(self).dirty
                &&& same_but_items(*final(self), *old(self))
            },
    {
        if item_id <= 0 || count <= 0 {
            return UseItemResponse {
                status: Status::error(StatusCode::InvalidArgument, "invalid item request"),
                item: None,
            };
        }
        let current = held_count(&self.data.items, item_id);
        if current < count {
            return UseItemResponse {
                status: Status::error(StatusCode::InsufficientItems, "insufficient items"),
                item: Some(Item { item_id, count: current, change: 0 }),
            };
        }
        let remaining = current - count;
        if remaining == 0 {
            self.data.items.remove(&item_id);
        } else {
            self.data.items.insert(item_id, remaining);
        }
        self.dirty = true;
        UseItemResponse {
            status: Status::ok(),
            item: Some(Item { item_id, count: remaining, change: -count }),
        }
    }
}


/// The item list of a player: one entry per item id the map holds, in
/// increasing id order, with the count held and no change.
pub open spec fn sorted_view(s: Seq<Item>, m: Map<i32, i64>) -> bool {
    &&& forall|i: int, j: int| 0 <= i < j < s.len() ==> s[i].item_id < s[j].item_id
    &&& forall|i: int|
        0 <= i < s.len() ==> {
            &&& m.contains_key(#[trigger] s[i].item_id)
            &&& s[i].count == m[s[i].item_id]
            &&& s[i].change == 0
        }
    &&& forall|id: i32|
        #[trigger] m.contains_key(id) ==> exists|i: int| 0 <= i < s.len() && s[i].item_id == id
}

/// Some entry of `s` has the item id `id`.
pub open spec fn covers(s: Seq<Item>, id: i32) -> bool {
    exists|i: int| 0 <= i < s.len() && s[i].item_id == id
}

impl PlayerState {
    /// The items the player holds, sorted by item id.
    pub fn items(&self) -> (r: Vec<Item>)
        ensures
            sorted_view(r@, self.data.items@),
    {
        let ghost m = self.data.items@;
        let ghost all = vstd::std_specs::hash::spec_keys_iter(&self.data.items).remaining().unref();
        proof {
            vstd::std_specs::hash::axiom_spec_keys_iter(&self.data.items);
        }
        let mut out: Vec<Item> = Vec::new();
        for k in it: self.data.items.keys()
            invariant
                it.seq().unref() == all,
                all.to_set() == m.dom(),
                all.no_duplicates(),
                m == self.data.items@,
                forall|i: int, j: int| 0 <= i < j < out@.len() ==> out@[i].item_id < out@[j].item_id,
                forall|i: int|
                    0 <= i < out@.len() ==> {
                        &&& m.contains_key(#[trigger] out@[i].item_id)
                        &&& out@[i].count == m[out@[i].item_id]
                        &&& out@[i].change == 0
                        &&& all.take(it.index()).contains(out@[i].item_id)
                    },
                forall|j: int|
                    0 <= j < it.index() ==> #[trigger] covers(out@, all[j]),
        {
            let key = *k;
            let ghost idx = it.index();
            proof {
                assert(all[idx] == key);
                assert(all.to_set().contains(key));
                assert forall|i: int| 0 <= i < out@.len() implies #[trigger] out@[i].item_id != key by {
                    let t = out@[i].item_id;
                    assert(all.take(idx).contains(t));
                    let jj = choose|jj: int| 0 <= jj < idx && all.take(idx)[jj] == t;
                    assert(all[jj] == t);
                }
            }
            let count = held_count(&self.data.items, key);
            let mut p: usize = 0;
            while p < out.len() && out[p].item_id < key
                invariant
                    p <= out@.len(),
                    forall|i: int| 0 <= i < p ==> #[trigger] out@[i].item_id < key,
                decreases out.len() - p,
            {
                p = p + 1;
            }
            let ghost before = out@;
            let item = Item { item_id: key, count, change: 0 };
            out.insert(p, item);
            proof {
                assert(out@ == before.insert(p as int, item));
                assert forall|i: int| 0 <= i < before.len() implies before[i].item_id != key by {
                    assert(before[i] == before[i]);
                }
                if p < before.len() {
                    assert(before[p as int].item_id > key);
                }
                assert(all.take(idx + 1) =~= all.take(idx).push(key));
                assert forall|i: int, j: int| 0 <= i < j < out@.len() implies out@[i].item_id
                    < out@[j].item_id by {
                    if j < p {
                    } else if j == p {
                        assert(out@[i] == before[i]);
                    } else if i < p {
                        assert(out@[j] == before[j - 1]);
                        assert(before[p as int].item_id > key);
                        if i < j - 1 {
                            assert(before[i].item_id < before[j - 1].item_id);
                        }
                    } else if i == p {
                        assert(out@[j] == before[j - 1]);
                        if p < j - 1 {
                            assert(before[p as int].item_id < before[j - 1].item_id);
                        }
                    } else {
                        assert(out@[i] == before[i - 1]);
                        assert(out@[j] == before[j - 1]);
                    }
                }
                assert forall|i: int| 0 <= i < out@.len() implies {
                    &&& m.contains_key(#[trigger] out@[i].item_id)
                    &&& out@[i].count == m[out@[i].item_id]
                    &&& out@[i].change == 0
                    &&& all.take(idx + 1).contains(out@[i].item_id)
                } by {
                    if i < p {
                        assert(out@[i] == before[i]);
                        assert(all.take(idx).contains(before[i].item_id));
                    } else if i == p {
                        assert(all.take(idx + 1)[idx] == key);
                    } else {
                        assert(out@[i] == before[i - 1]);
                        assert(all.take(idx).contains(before[i - 1].item_id));
                    }
                }
                assert forall|j: int| 0 <= j < idx + 1 implies #[trigger] covers(out@, all[j]) by {
                    if j == idx {
                        assert(out@[p as int].item_id == all[j]);
                    } else {
                        assert(covers(before, all[j]));
                        let i0 = choose|i0: int| 0 <= i0 < before.len() && before[i0].item_id == all[j];
                        if i0 < p {
                            assert(out@[i0] == before[i0]);
                        } else {
                            assert(out@[i0 + 1] == before[i0]);
                        }
                    }
                }
            }
        }
        proof {
            assert forall|id: i32| #[trigger] m.contains_key(id) implies exists|i: int|
                0 <= i < out@.len() && out@[i].item_id == id by {
                assert(all.to_set().contains(id));
                let j = choose|j: int| 0 <= j < all.len() && all[j] == id;
                assert(covers(out@, all[j]));
            }
        }
        out
    }
}


// ---------------------------------------------------------------------------
// Item requests over several items
// ---------------------------------------------------------------------------

/// The count of the `j`-th aggregated item once its amount is added.
pub open spec fn sum_at(m: Map<i32, i64>, agg: Seq<(i32, int)>, j: int) -> int {
    held(m, agg[j].0) + agg[j].1
}

/// The `j`-th addition keeps its item count inside `i64`.
pub open spec fn fits_at(m: Map<i32, i64>, agg: Seq<(i32, int)>, j: int) -> bool {
    in_i64(sum_at(m, agg, j))
}

/// The player holds at least the `j`-th aggregated amount.
pub open spec fn enough_at(m: Map<i32, i64>, agg: Seq<(i32, int)>, j: int) -> bool {
    held(m, agg[j].0) >= agg[j].1
}

/// `m` once the first `k` aggregated amounts were added, in order.
pub open spec fn added(m: Map<i32, i64>, agg: Seq<(i32, int)>, k: int) -> Map<i32, i64>
    decreases k,
{
    if k <= 0 {
        m
    } else {
        added(m, agg, k - 1).insert(agg[k - 1].0, sum_at(m, agg, k - 1) as i64)
    }
}

/// `m` once the first `k` aggregated amounts were taken away, in order; an
/// item whose count reaches zero leaves the map.
pub open spec fn removed(m: Map<i32, i64>, agg: Seq<(i32, int)>, k: int) -> Map<i32, i64>
    decreases k,
{
    if k <= 0 {
        m
    } else {
        let rest = held(m, agg[k - 1].0) - agg[k - 1].1;
        if rest == 0 {
            removed(m, agg, k - 1).remove(agg[k - 1].0)
        } else {
            removed(m, agg, k - 1).insert(agg[k - 1].0, rest as i64)
        }
    }
}

/// The items an accepted add-items request answers with.
pub open spec fn added_items(m: Map<i32, i64>, agg: Seq<(i32, int)>) -> Seq<Item> {
    Seq::new(
        agg.len(),
        |j: int| Item { item_id: agg[j].0, count: sum_at(m, agg, j) as i64, change: agg[j].1 as i64 },
    )
}

/// The items an accepted remove-items request answers with.
pub open spec fn removed_items(m: Map<i32, i64>, agg: Seq<(i32, int)>) -> Seq<Item> {
    Seq::new(
        agg.len(),
        |j: int|
            Item {
                item_id: agg[j].0,
                count: (held(m, agg[j].0) - agg[j].1) as i64,
                change: (-agg[j].1) as i64,
            },
    )
}

proof fn lemma_added_other(m: Map<i32, i64>, agg: Seq<(i32, int)>, k: int, id: i32)
    requires
        0 <= k <= agg.len(),
        forall|j: int| 0 <= j < k ==> #[trigger] agg[j].0 != id,
    ensures
        held(added(m, agg, k), id) == held(m, id),
    decreases k,
{
    if k > 0 {
        lemma_added_other(m, agg, k - 1, id);
    }
}

proof fn lemma_removed_other(m: Map<i32, i64>, agg: Seq<(i32, int)>, k: int, id: i32)
    requires
        0 <= k <= agg.len(),
        forall|j: int| 0 <= j < k ==> #[trigger] agg[j].0 != id,
    ensures
        held(removed(m, agg, k), id) == held(m, id),
    decreases k,
{
    if k > 0 {
        lemma_removed_other(m, agg, k - 1, id);
    }
}

/// Whether every item of a request is valid, and the request is not empty.
pub fn valid_item_request(items: &Vec<Item>) -> (r: bool)
    ensures
        r == valid_items(items@),
{
    if items.len() == 0 {
        return false;
    }
    let mut i: usize = 0;
    while i < items.len()
        invariant
            i <= items@.len(),
            forall|j: int| 0 <= j < i ==> valid_item(#[trigger] items@[j]),
        decreases items.len() - i,
    {
        if items[i].item_id <= 0 || items[i].count <= 0 {
            assert(!valid_item(items@[i as int]));
            return false;
        }
        i = i + 1;
    }
    true
}

impl PlayerState {
    /// Adds several items at once. The counts are first summed by item id;
    /// then each sum is added in the order in which its id first appears.
    /// An addition that would leave `i64` stops the request with a conflict;
    /// the additions made before it stay.
    pub fn add_items(&mut self, items: Vec<Item>) -> (r: ItemsResponse)
        requires
            valid_items(items@) ==> totals_fit(items@),
        ensures
            !valid_items(items@) ==> {
                &&& r.status.code == StatusCode::InvalidArgument
                &&& r.status.message@ == "invalid add-items request"@
                &&& r.items@.len() == 0
                &&& unchanged(*final(self), *old(self))
            },
            valid_items(items@) ==> ({
                let m = old(self).data.items@;
                let agg = aggregate(items@);
                if forall|j: int| 0 <= j < agg.len() ==> #[trigger] fits_at(m, agg, j) {
                    &&& r.status.code == StatusCode::Success
                    &&& r.items@ == added_items(m, agg)
                    &&& final(self).data.items@ == added(m, agg, agg.len() as int)
                    &&& final(self).dirty
                    &&& same_but_items(*final(self), *old(self))
                } else {
                    &&& r.status.code == StatusCode::Conflict
                    &&& r.status.message@ == "item count overflow"@
                    &&& r.items@.len() == 0
                    &&& exists|k: int|
                        0 <= k < agg.len() && !fits_at(m, agg, k) && (forall|j: int|
                            0 <= j < k ==> #[trigger] fits_at(m, agg, j))
                            && final(self).data.items@ == added(m, agg, k)
                    &&& final(self).dirty == old(self).dirty
                    &&& same_but_items(*final(self), *old(self))
                }
            }),
    {
        if !valid_item_request(&items) {
            return ItemsResponse {
                status: Status::error(StatusCode::InvalidArgument, "invalid add-items request"),
                items: Vec::new(),
            };
        }
        let changes = aggregate_items(&items);
        let ghost agg = aggregate(items@);
        let ghost m = self.data.items@;
        proof {
            lemma_aggregate(items@);
            assert(changes@.len() == agg.len());
        }
        let mut result: Vec<Item> = Vec::new();
        let mut k: usize = 0;
        while k < changes.len()
            invariant
                k <= changes@.len(),
                changes@.len() == agg.len(),
                changes@.map_values(|p: (i32, i64)| (p.0, p.1 as int)) == agg,
                distinct_ids(agg),
                forall|j: int| 0 <= j < agg.len() ==> #[trigger] agg[j].1 >= 1,
                forall|j: int| 0 <= j < k ==> #[trigger] fits_at(m, agg, j),
                valid_items(items@),
                agg == aggregate(items@),
                self.data.items@ == added(m, agg, k as int),
                result@ == added_items(m, agg).take(k as int),
                same_but_items(*self, *old(self)),
                self.dirty == old(self).dirty,
                m == old(self).data.items@,
            decreases changes.len() - k,
        {
            let (item_id, amount) = changes[k];
            proof {
                assert(changes@.map_values(|p: (i32, i64)| (p.0, p.1 as int))[k as int] == agg[k as int]);
                assert forall|j: int| 0 <= j < k implies #[trigger] agg[j].0 != item_id by {
                    assert(agg[j].0 != agg[k as int].0);
                }
                lemma_added_other(m, agg, k as int, item_id);
            }
            let current = held_count(&self.data.items, item_id);
            match current.checked_add(amount) {
                Some(next) => {
                    self.data.items.insert(item_id, next);
                    result.push(Item { item_id, count: next, change: amount });
                    proof {
                        assert(added_items(m, agg).take(k + 1) =~= added_items(m, agg).take(
                            k as int,
                        ).push(Item { item_id, count: next, change: amount }));
                    }
                },
                None => {
                    proof {
                        assert(!fits_at(m, agg, k as int));
                        assert(!(forall|j: int| 0 <= j < agg.len() ==> #[trigger] fits_at(m, agg, j)));
                    }
                    return ItemsResponse {
                        status: Status::error(StatusCode::Conflict, "item count overflow"),
                        items: Vec::new(),
                    };
                },
            }
            k = k + 1;
        }
        self.dirty = true;
        proof {
            assert(added_items(m, agg).take(agg.len() as int) =~= added_items(m, agg));
        }
        ItemsResponse { status: Status::ok(), items: result }
    }

    /// Takes several items away at once, or none of them: the counts are
    /// first summed by item id, and the request is refused unless the player
    /// holds every sum.
    pub fn remove_items(&mut self, items: Vec<Item>) -> (r: ItemsResponse)
        requires
            valid_items(items@) ==> totals_fit(items@),
        ensures
            !valid_items(items@) ==> {
                &&& r.status.code == StatusCode::InvalidArgument
                &&& r.status.message@ == "invalid remove-items request"@
                &&& r.items@.len() == 0
                &&& unchanged(*final(self), *old(self))
            },
            valid_items(items@) ==> ({
                let m = old(self).data.items@;
                let agg = aggregate(items@);
                if forall|j: int| 0 <= j < agg.len() ==> #[trigger] enough_at(m, agg, j) {
                    &&& r.status.code == StatusCode::Success
                    &&& r.items@ == removed_items(m, agg)
                    &&& final(self).data.items@ == removed(m, agg, agg.len() as int)
                    &&& final(self).dirty
                    &&& same_but_items(*final(self), *old(self))
                } else {
                    &&& r.status.code == StatusCode::InsufficientItems
                    &&& r.status.message@ == "insufficient items"@
                    &&& r.items@.len() == 0
                    &&& unchanged(*final(self), *old(self))
                }
            }),
    {
        if !valid_item_request(&items) {
            return ItemsResponse {
                status: Status::error(StatusCode::InvalidArgument, "invalid remove-items request"),
                items: Vec::new(),
            };
        }
        let changes = aggregate_items(&items);
        let ghost agg = aggregate(items@);
        let ghost m = self.data.items@;
        proof {
            lemma_aggregate(items@);
        }
        if !self.holds_all(&changes, Ghost(agg)) {
            return ItemsResponse {
                status: Status::error(StatusCode::InsufficientItems, "insufficient items"),
                items: Vec::new(),
            };
        }
        let mut result: Vec<Item> = Vec::new();
        let mut k: usize = 0;
        while k < changes.len()
            invariant
                k <= changes@.len(),
                changes@.len() == agg.len(),
                changes@.map_values(|p: (i32, i64)| (p.0, p.1 as int)) == agg,
                distinct_ids(agg),
                forall|j: int| 0 <= j < agg.len() ==> #[trigger] agg[j].1 >= 1,
                forall|j: int| 0 <= j < agg.len() ==> #[trigger] enough_at(m, agg, j),
                self.data.items@ == removed(m, agg, k as int),
                result@ == removed_items(m, agg).take(k as int),
                same_but_items(*self, *old(self)),
                self.dirty == old(self).dirty,
                m == old(self).data.items@,
            decreases changes.len() - k,
        {
            let (item_id, amount) = changes[k];
            proof {
                assert(changes@.map_values(|p: (i32, i64)| (p.0, p.1 as int))[k as int] == agg[k as int]);
                assert forall|j: int| 0 <= j < k implies #[trigger] agg[j].0 != item_id by {
                    assert(agg[j].0 != agg[k as int].0);
                }
                lemma_removed_other(m, agg, k as int, item_id);
                assert(enough_at(m, agg, k as int));
            }
            let remaining = held_count(&self.data.items, item_id) - amount;
            if remaining == 0 {
                self.data.items.remove(&item_id);
            } else {
                self.data.items.insert(item_id, remaining);
            }
            result.push(Item { item_id, count: remaining, change: -amount });
            proof {
                assert(removed_items(m, agg).take(k + 1) =~= removed_items(m, agg).take(
                    k as int,
                ).push(Item { item_id, count: remaining, change: (-amount) as i64 }));
            }
            k = k + 1;
        }
        self.dirty = true;
        proof {
            assert(removed_items(m, agg).take(agg.len() as int) =~= removed_items(m, agg));
        }
        ItemsResponse { status: Status::ok(), items: result }
    }

    fn holds_all(&self, changes: &Vec<(i32, i64)>, Ghost(agg): Ghost<Seq<(i32, int)>>) -> (r: bool)
        requires
            changes@.map_values(|p: (i32, i64)| (p.0, p.1 as int)) == agg,
        ensures
            r == forall|j: int| 0 <= j < agg.len() ==> #[trigger] enough_at(self.data.items@, agg, j),
    {
        let ghost m = self.data.items@;
        let mut k: usize = 0;
        while k < changes.len()
            invariant
                k <= changes@.len(),
                changes@.map_values(|p: (i32, i64)| (p.0, p.1 as int)) == agg,
                m == self.data.items@,
                forall|j: int| 0 <= j < k ==> #[trigger] enough_at(m, agg, j),
            decreases changes.len() - k,
        {
            let (item_id, amount) = changes[k];
            proof {
                assert(changes@.map_values(|p: (i32, i64)| (p.0, p.1 as int))[k as int] == agg[k as int]);
            }
            if held_count(&self.data.items, item_id) < amount {
                assert(!enough_at(m, agg, k as int));
                return false;
            }
            k = k + 1;
        }
        true
    }

    /// Whether the player holds every item of a request, counts summed by
    /// item id; nothing changes.
    pub fn check_items(&self, items: Vec<Item>) -> (r: CheckItemsResponse)
        requires
            valid_items(items@) ==> totals_fit(items@),
        ensures
            !valid_items(items@) ==> {
                &&& r.status.code == StatusCode::InvalidArgument
                &&& r.status.message@ == "invalid check-items request"@
                &&& !r.enough
            },
            valid_items(items@) ==> {
                &&& r.status.code == StatusCode::Success
                &&& r.enough == forall|j: int|
                    0 <= j < aggregate(items@).len() ==> #[trigger] enough_at(
                        self.data.items@,
                        aggregate(items@),
                        j,
                    )
            },
    {
        if !valid_item_request(&items) {
            return CheckItemsResponse {
                status: Status::error(StatusCode::InvalidArgument, "invalid check-items request"),
                enough: false,
            };
        }
        let changes = aggregate_items(&items);
        let enough = self.holds_all(&changes, Ghost(aggregate(items@)));
        CheckItemsResponse { status: Status::ok(), enough }
    }
}


// ---------------------------------------------------------------------------
// New players, loaded players and request routing
// ---------------------------------------------------------------------------

pub open spec fn digit_char(d: int) -> char {
    (('0' as int) + d) as char
}

/// The decimal digits of a natural number, most significant first.
pub open spec fn digits(n: nat) -> Seq<char>
    decreases n,
{
    if n < 10 {
        seq![digit_char(n as int)]
    } else {
        digits(n / 10).push(digit_char((n % 10) as int))
    }
}

/// An integer written in decimal, with a leading '-' when negative.
pub open spec fn decimal(n: int) -> Seq<char> {
    if n < 0 {
        seq!['-'] + digits((-n) as nat)
    } else {
        digits(n as nat)
    }
}

/// One decimal digit as a one-character string.
fn digit_str(d: u64) -> (r: &'static str)
    requires
        d < 10,
    ensures
        r@ == seq![digit_char(d as int)],
{
    if d == 0 {
        proof { reveal_strlit("0"); }
        "0"
    } else if d == 1 {
        proof { reveal_strlit("1"); }
        "1"
    } else if d == 2 {
        proof { reveal_strlit("2"); }
        "2"
    } else if d == 3 {
        proof { reveal_strlit("3"); }
        "3"
    } else if d == 4 {
        proof { reveal_strlit("4"); }
        "4"
    } else if d == 5 {
        proof { reveal_strlit("5"); }
        "5"
    } else if d == 6 {
        proof { reveal_strlit("6"); }
        "6"
    } else if d == 7 {
        proof { reveal_strlit("7"); }
        "7"
    } else if d == 8 {
        proof { reveal_strlit("8"); }
        "8"
    } else {
        proof { reveal_strlit("9"); }
        "9"
    }
}

/// Appends `n` written in decimal.
fn push_digits(out: &mut String, n: u64)
    ensures
        final(out)@ == old(out)@ + digits(n as nat),
    decreases n,
{
    let ghost before = out@;
    if n >= 10 {
        push_digits(out, n / 10);
    }
    let ghost mid = out@;
    out.append(digit_str(n % 10));
    proof {
        if n >= 10 {
            assert(out@ =~= before + digits((n / 10) as nat).push(digit_char((n % 10) as int)));
        } else {
            assert(out@ =~= before + seq![digit_char(n as int)]);
        }
    }
}

/// The name a new player gets: "Player" and its id in decimal, with a
/// leading '-' when negative.
pub(crate) fn default_name(gid: i64) -> (r: String)
    ensures
        r@ == "Player"@ + decimal(gid as int),
{
    let mut name = String::from_str("Player");
    if gid < 0 {
        name.append("-");
        let magnitude: u64 = if gid == i64::MIN {
            9_223_372_036_854_775_808u64
        } else {
            (-gid) as u64
        };
        push_digits(&mut name, magnitude);
        proof {
            reveal_strlit("-");
            assert(name@ =~= "Player"@ + decimal(gid as int));
        }
    } else {
        push_digits(&mut name, gid as u64);
    }
    name
}

/// The profile a new player starts with.
pub open spec fn is_default_profile(p: PlayerProfile, gid: i64) -> bool {
    &&& p.gid == gid
    &&& p.name@ == "Player"@ + decimal(gid as int)
    &&& p.level == 1
    &&& p.icon == 0
    &&& p.exp == 0
}

fn default_profile(gid: i64) -> (r: PlayerProfile)
    ensures
        is_default_profile(r, gid),
{
    PlayerProfile { gid, name: default_name(gid), level: 1, icon: 0, exp: 0 }
}

/// The data of a player that was never stored: the default profile and no
/// items.
pub fn default_player(gid: i64) -> (r: PlayerData)
    ensures
        r.gid == gid,
        r.profile matches Some(p) && is_default_profile(p, gid),
        r.items@ == Map::<i32, i64>::empty(),
{
    PlayerData { gid, profile: Some(default_profile(gid)), items: HashMap::new() }
}

/// Makes loaded data agree with the id it was loaded under: the data and its
/// profile carry `gid`, and a missing profile becomes the default one.
pub fn normalize_player(gid: i64, data: &mut PlayerData)
    ensures
        final(data).gid == gid,
        final(data).items@ == old(data).items@,
        final(data).profile matches Some(p) && match old(data).profile {
            Some(q) => p == (PlayerProfile { gid, ..q }),
            None => is_default_profile(p, gid),
        },
{
    data.gid = gid;
    let profile = match data.profile.take() {
        Some(p) => PlayerProfile { gid, ..p },
        None => default_profile(gid),
    };
    data.profile = Some(profile);
}

/// One less player online, never below zero.
pub fn decrement_online(current: i32) -> (r: i32)
    requires
        current > i32::MIN,
    ensures
        r == (if current - 1 > 0 { current - 1 } else { 0 }),
{
    let next = current - 1;
    if next > 0 {
        next
    } else {
        0
    }
}

/// The KiB a request holds while it waits: its encoded length rounded up
/// to whole KiB, at least one.
pub fn retained_kib(encoded_len: usize) -> (r: usize)
    ensures
        r == (if encoded_len == 0 { 1 } else { (encoded_len + 1023) / 1024 }),
{
    let whole = encoded_len / 1024;
    let r = if encoded_len % 1024 != 0 {
        whole + 1
    } else {
        whole
    };
    if r == 0 {
        1
    } else {
        r
    }
}

/// The player id a routed request carries, when the route names a player
/// and a session.
pub fn valid_context_gid(head_gid: u64, head_player_session: u64) -> (r: Option<i64>)
    ensures
        r == (if 0 < head_gid <= i64::MAX && head_player_session > 0 {
            Some(head_gid as i64)
        } else {
            None::<i64>
        }),
{
    if head_gid == 0 || head_gid > 9223372036854775807u64 || head_player_session == 0 {
        None
    } else {
        Some(head_gid as i64)
    }
}

/// An item request addressed to `gid` is accepted from a route that names
/// no player or names the same one.
pub fn valid_item_route(gid: i64, head_gid: u64) -> (r: bool)
    ensures
        r == (gid > 0 && (head_gid == 0 || head_gid == gid)),
{
    gid > 0 && (head_gid == 0 || head_gid == gid as u64)
}

/// A disconnect notification names a player, a Gate and a session.
pub fn valid_disconnect(gid: i64, gate_id: i32, player_session: i64) -> (r: bool)
    ensures
        r == (gid > 0 && gate_id > 0 && player_session > 0),
{
    gid > 0 && gate_id > 0 && player_session > 0
}

/// A Logic login names a player, a Gate and a session, and its route agrees
/// with it.
pub fn valid_logic_login(
    gid: i64,
    gate_id: i32,
    player_session: i64,
    head_gid: u64,
    head_player_session: u64,
) -> (r: bool)
    ensures
        r == (gid > 0 && gate_id > 0 && player_session > 0 && head_gid == gid
            && head_player_session == player_session),
{
    gid > 0 && gate_id > 0 && player_session > 0 && head_gid == gid as u64 && head_player_session
        == player_session as u64
}

/// The earlier session that a fresh (not resumed) login replaces and that
/// must be kicked: one bound elsewhere than the new one.
pub fn session_to_kick(
    previous: Option<PlayerSession>,
    reconnect: bool,
    gate_id: i32,
    session_id: i64,
) -> (r: Option<PlayerSession>)
    ensures
        r == (match previous {
            Some(o) if !reconnect && (o.gate_id != gate_id || o.session_id != session_id) => Some(o),
            _ => None::<PlayerSession>,
        }),
{
    match previous {
        Some(o) => {
            if !reconnect && (o.gate_id != gate_id || o.session_id != session_id) {
                Some(o)
            } else {
                None
            }
        },
        None => None,
    }
}

/// Completes a login answer with this Logic's id and the session the
/// player had before, if any.
pub fn finish_login(result: &mut LoginResult, previous: Option<PlayerSession>, logic_id: i32)
    ensures
        final(result).became_online == old(result).became_online,
        final(result).response.logic_id == logic_id,
        final(result).response.old_gate_id == (match previous {
            Some(o) => o.gate_id,
            None => old(result).response.old_gate_id,
        }),
        final(result).response.old_player_session == (match previous {
            Some(o) => o.session_id,
            None => old(result).response.old_player_session,
        }),
        final(result).response.status == old(result).response.status,
        final(result).response.player == old(result).response.player,
        final(result).response.items == old(result).response.items,
{
    if let Some(o) = previous {
        result.response.old_gate_id = o.gate_id;
        result.response.old_player_session = o.session_id;
    }
    result.response.logic_id = logic_id;
}

// ---------------------------------------------------------------------------
// Runtime outcomes as statuses
// ---------------------------------------------------------------------------

/// The status a refused Logic call is answered with.
pub fn reject_status(reason: RejectReason) -> (r: Status)
    ensures
        r.code == StatusCode::Overloaded,
        r.message@ == (match reason {
            RejectReason::Calls => "Logic call capacity exhausted"@,
            RejectReason::KiB => "Logic retained bytes exhausted"@,
            RejectReason::Gid => "Logic player mailbox exhausted"@,
            RejectReason::Draining => "Logic is draining"@,
        }),
{
    let message = match reason {
        RejectReason::Calls => "Logic call capacity exhausted",
        RejectReason::KiB => "Logic retained bytes exhausted",
        RejectReason::Gid => "Logic player mailbox exhausted",
        RejectReason::Draining => "Logic is draining",
    };
    Status::error(StatusCode::Overloaded, message)
}

/// The code a failed Logic call is answered with.
pub open spec fn call_error_code<E>(error: LogicCallError<E>) -> StatusCode {
    match error {
        LogicCallError::DirtyCapacity => StatusCode::Overloaded,
        LogicCallError::RuntimeStopped => StatusCode::TemporarilyUnavailable,
        _ => StatusCode::Internal,
    }
}

/// The message a failed Logic call is answered with; `cause` is the text of
/// the storage error it carries, if any.
pub open spec fn call_error_message<E>(error: LogicCallError<E>, cause: Seq<char>) -> Seq<char> {
    match error {
        LogicCallError::DirtyCapacity => "Logic dirty-player capacity exhausted"@,
        LogicCallError::RuntimeStopped => "Logic stopped"@,
        LogicCallError::Load(_) => "logic player load failed: "@ + cause,
        LogicCallError::Preload(_) => "logic player preload failed: "@ + cause,
        LogicCallError::Persistence(_) => "logic player persistence failed: "@ + cause,
    }
}

/// The status a failed Logic call is answered with; `cause` is the text of
/// the storage error it carries, if any.
pub fn call_status<E>(error: &LogicCallError<E>, cause: &str) -> (r: Status)
    ensures
        r.code == call_error_code(*error),
        r.message@ == call_error_message(*error, cause@),
{
    match error {
        LogicCallError::DirtyCapacity => Status::error(
            StatusCode::Overloaded,
            "Logic dirty-player capacity exhausted",
        ),
        LogicCallError::RuntimeStopped => Status::error(
            StatusCode::TemporarilyUnavailable,
            "Logic stopped",
        ),
        LogicCallError::Load(_) => Status {
            code: StatusCode::Internal,
            message: String::from_str("logic player load failed: ").concat(cause),
        },
        LogicCallError::Preload(_) => Status {
            code: StatusCode::Internal,
            message: String::from_str("logic player preload failed: ").concat(cause),
        },
        LogicCallError::Persistence(_) => Status {
            code: StatusCode::Internal,
            message: String::from_str("logic player persistence failed: ").concat(cause),
        },
    }
}

/// What a handler answers once its Logic call settled: the value, unless
/// the call failed or the save after it failed. `cause` is the text of the
/// storage error the outcome carries, if any.
pub fn settle_call<R, E>(outcome: Result<Completed<R, E>, LogicCallError<E>>, cause: &str) -> (r:
    Result<R, Status>)
    ensures
        match outcome {
            Ok(done) => match done.persistence {
                Ok(_) => r == Ok::<R, Status>(done.value),
                Err(_) => r matches Err(s) && s.code == StatusCode::Internal && s.message@
                    == cause@,
            },
            Err(e) => r matches Err(s) && s.code == call_error_code(e) && s.message@
                == call_error_message(e, cause@),
        },
{
    match outcome {
        Ok(done) => match done.persistence {
            Ok(_) => Ok(done.value),
            Err(_) => Err(Status::error(StatusCode::Internal, cause)),
        },
        Err(e) => Err(call_status(&e, cause)),
    }
}


proof fn lemma_added_at(m: Map<i32, i64>, agg: Seq<(i32, int)>, k: int, j: int)
    requires
        0 <= j < k <= agg.len(),
        distinct_ids(agg),
        forall|i: int| 0 <= i < agg.len() ==> #[trigger] fits_at(m, agg, i),
    ensures
        held(added(m, agg, k), agg[j].0) == sum_at(m, agg, j),
    decreases k,
{
    assert(fits_at(m, agg, j));
    if j < k - 1 {
        lemma_added_at(m, agg, k - 1, j);
        assert(agg[k - 1].0 != agg[j].0);
    }
}

proof fn lemma_added_keys(m: Map<i32, i64>, agg: Seq<(i32, int)>, k: int, id: i32)
    requires
        0 <= k <= agg.len(),
    ensures
        added(m, agg, k).contains_key(id) <==> (m.contains_key(id) || exists|j: int|
            0 <= j < k && agg[j].0 == id),
    decreases k,
{
    if k > 0 {
        lemma_added_keys(m, agg, k - 1, id);
        if exists|j: int| 0 <= j < k && agg[j].0 == id {
            let j = choose|j: int| 0 <= j < k && agg[j].0 == id;
            if j < k - 1 {
                assert(exists|i: int| 0 <= i < k - 1 && agg[i].0 == id);
            }
        }
        if exists|j: int| 0 <= j < k - 1 && agg[j].0 == id {
            let j = choose|j: int| 0 <= j < k - 1 && agg[j].0 == id;
            assert(0 <= j < k && agg[j].0 == id);
        }
    }
}

proof fn lemma_removed_agrees(
    m: Map<i32, i64>,
    base: Map<i32, i64>,
    agg: Seq<(i32, int)>,
    k: int,
    id: i32,
)
    requires
        0 <= k <= agg.len(),
        distinct_ids(agg),
        forall|j: int|
            0 <= j < agg.len() ==> held(base, #[trigger] agg[j].0) - agg[j].1 == held(m, agg[j].0),
        forall|j: int|
            0 <= j < agg.len() && m.contains_key(#[trigger] agg[j].0) ==> m[agg[j].0] != 0,
    ensures
        (exists|j: int| 0 <= j < k && agg[j].0 == id) ==> (removed(base, agg, k).contains_key(id)
            == m.contains_key(id) && (m.contains_key(id) ==> removed(base, agg, k)[id] == m[id])),
        !(exists|j: int| 0 <= j < k && agg[j].0 == id) ==> (removed(base, agg, k).contains_key(id)
            == base.contains_key(id) && (base.contains_key(id) ==> removed(base, agg, k)[id]
            == base[id])),
    decreases k,
{
    if k > 0 {
        lemma_removed_agrees(m, base, agg, k - 1, id);
        let last = agg[k - 1].0;
        if id == last {
            assert(held(base, agg[k - 1].0) - agg[k - 1].1 == held(m, agg[k - 1].0));
            if m.contains_key(id) {
                assert(m[agg[k - 1].0] != 0);
            }
        } else {
            if exists|j: int| 0 <= j < k && agg[j].0 == id {
                let j = choose|j: int| 0 <= j < k && agg[j].0 == id;
                assert(j != k - 1);
                assert(exists|i: int| 0 <= i < k - 1 && agg[i].0 == id);
            }
            if exists|j: int| 0 <= j < k - 1 && agg[j].0 == id {
                let j = choose|j: int| 0 <= j < k - 1 && agg[j].0 == id;
                assert(0 <= j < k && agg[j].0 == id);
            }
        }
    }
}

/// Removing the items that an accepted add-items request added gives the
/// player back the inventory it had: each count returns to what it was, and
/// an item that was absent is absent again. This holds when every item the
/// request names was absent or held a positive count (an explicit zero entry
/// would leave the map instead, and a negative one could not be removed).
pub proof fn law_remove_undoes_add(m: Map<i32, i64>, items: Seq<Item>)
    requires
        valid_items(items),
        totals_fit(items),
        forall|j: int|
            0 <= j < aggregate(items).len() ==> #[trigger] fits_at(m, aggregate(items), j),
        forall|j: int|
            0 <= j < aggregate(items).len() && m.contains_key(#[trigger] aggregate(items)[j].0)
                ==> m[aggregate(items)[j].0] > 0,
    ensures
        ({
            let agg = aggregate(items);
            let grown = added(m, agg, agg.len() as int);
            &&& forall|j: int| 0 <= j < agg.len() ==> #[trigger] enough_at(grown, agg, j)
            &&& removed(grown, agg, agg.len() as int) == m
        }),
{
    let agg = aggregate(items);
    let n = agg.len() as int;
    lemma_aggregate(items);
    let grown = added(m, agg, n);
    assert forall|j: int| 0 <= j < agg.len() implies held(grown, #[trigger] agg[j].0) - agg[j].1
        == held(m, agg[j].0) by {
        lemma_added_at(m, agg, n, j);
    }
    assert forall|j: int| 0 <= j < agg.len() implies #[trigger] enough_at(grown, agg, j) by {
        lemma_added_at(m, agg, n, j);
        if m.contains_key(agg[j].0) {
        }
    }
    assert forall|id: i32| #[trigger] removed(grown, agg, n).contains_key(id) == m.contains_key(id)
        && (m.contains_key(id) ==> removed(grown, agg, n)[id] == m[id]) by {
        lemma_removed_agrees(m, grown, agg, n, id);
        lemma_added_keys(m, agg, n, id);
        if !(exists|j: int| 0 <= j < n && agg[j].0 == id) {
            lemma_added_other(m, agg, n, id);
            assert forall|j: int| 0 <= j < n implies #[trigger] agg[j].0 != id by {}
            if m.contains_key(id) {
                assert(grown.contains_key(id));
            }
        }
    }
    assert(removed(grown, agg, n) =~= m);
}


// ---------------------------------------------------------------------------
// A Logic login, step by step
// ---------------------------------------------------------------------------

/// Where a Logic login stands.
#[derive(Clone, Copy, Debug, PartialEq, Eq, Structural)]
pub enum LogicLoginStage {
    Running,
    SavingOwner,
    Disconnecting,
    Done,
}

/// What the outside work of a Logic login gave back.
pub enum LogicLoginEvent {
    /// The login ran in the player's runtime (its result, with the logic
    /// id and replaced session filled in), or the status it failed with.
    LoginRan(Result<LoginResult, Status>),
    /// Whether this Logic was recorded as the player's owner.
    OwnerSaved(bool),
    /// Whether undoing the login found the session still bound.
    Disconnected(bool),
}

/// The next thing a Logic login needs done.
#[derive(Debug)]
pub enum LogicLoginAction {
    /// Run the login in the player's runtime, kicking a replaced session
    /// first.
    RunLogin,
    /// Count the player online when it just came online, then record this
    /// Logic as the player's owner.
    SaveOwner { count_online: bool },
    /// Undo the login: disconnect this session in the player's runtime.
    Disconnect,
    /// Answer; one player fewer is online when `uncount_online` holds.
    Answer { response: LogicLoginResponse, uncount_online: bool },
}

/// A Logic login in progress.
#[derive(Debug)]
pub struct LogicLoginFlow {
    pub gid: i64,
    pub gate_id: i32,
    pub player_session: i64,
    pub reconnect: bool,
    pub stage: LogicLoginStage,
    pub response: Option<LogicLoginResponse>,
}

/// The action answers with this code and message and nothing else.
pub open spec fn login_fails(a: LogicLoginAction, code: StatusCode, message: Seq<char>, uncount: bool) -> bool {
    a matches LogicLoginAction::Answer { response, uncount_online } && response.status.code == code
        && response.status.message@ == message && response.player is None
        && response.items@.len() == 0 && response.logic_id == 0 && uncount_online == uncount
}

fn login_error(status: Status, uncount_online: bool) -> (r: LogicLoginAction)
    ensures
        login_fails(r, status.code, status.message@, uncount_online),
{
    LogicLoginAction::Answer {
        response: LogicLoginResponse {
            status,
            logic_id: 0,
            old_gate_id: 0,
            old_player_session: 0,
            player: None,
            items: Vec::new(),
        },
        uncount_online,
    }
}

impl LogicLoginFlow {
    /// Starts a Logic login from a Gate: a request whose ids are not
    /// positive or disagree with its route is refused; otherwise the login
    /// runs in the player's runtime.
    pub fn begin(
        gid: i64,
        gate_id: i32,
        player_session: i64,
        reconnect: bool,
        head_gid: u64,
        head_player_session: u64,
    ) -> (r: (LogicLoginFlow, LogicLoginAction))
        ensures
            r.0.gid == gid && r.0.gate_id == gate_id && r.0.player_session == player_session
                && r.0.reconnect == reconnect,
            ({
                let ok = gid > 0 && gate_id > 0 && player_session > 0 && head_gid == gid
                    && head_player_session == player_session;
                &&& ok ==> r.0.stage == LogicLoginStage::Running && r.1 is RunLogin
                &&& !ok ==> r.0.stage == LogicLoginStage::Done && login_fails(
                    r.1,
                    StatusCode::InvalidArgument,
                    "invalid Logic login"@,
                    false,
                )
            }),
    {
        let ok = valid_logic_login(gid, gate_id, player_session, head_gid, head_player_session);
        let flow = LogicLoginFlow {
            gid,
            gate_id,
            player_session,
            reconnect,
            stage: if ok {
                LogicLoginStage::Running
            } else {
                LogicLoginStage::Done
            },
            response: None,
        };
        if ok {
            (flow, LogicLoginAction::RunLogin)
        } else {
            (flow, login_error(Status::error(StatusCode::InvalidArgument, "invalid Logic login"), false))
        }
    }

    /// Takes the result of the outside work an unfinished login waited for
    /// and answers what to do next. An event that does not answer the
    /// pending work changes nothing and the pending action is asked again.
    pub fn step(&mut self, event: LogicLoginEvent) -> (r: LogicLoginAction)
        requires
            old(self).stage != LogicLoginStage::Done,
            old(self).stage == LogicLoginStage::SavingOwner ==> old(self).response is Some,
        ensures
            final(self).gid == old(self).gid,
            final(self).gate_id == old(self).gate_id,
            final(self).player_session == old(self).player_session,
            final(self).reconnect == old(self).reconnect,
            ({
                let s = *old(self);
                let t = *final(self);
                match (s.stage, event) {
                    (LogicLoginStage::Running, LogicLoginEvent::LoginRan(ran)) => match ran {
                        Ok(result) => t.stage == LogicLoginStage::SavingOwner && t.response == Some(
                            result.response,
                        ) && r == LogicLoginAction::SaveOwner { count_online: result.became_online },
                        Err(status) => t.stage == LogicLoginStage::Done && login_fails(
                            r,
                            status.code,
                            status.message@,
                            false,
                        ),
                    },
                    (LogicLoginStage::SavingOwner, LogicLoginEvent::OwnerSaved(saved)) => if saved {
                        t.stage == LogicLoginStage::Done && r == LogicLoginAction::Answer {
                            response: s.response->Some_0,
                            uncount_online: false,
                        }
                    } else {
                        t.stage == LogicLoginStage::Disconnecting && r is Disconnect
                    },
                    (LogicLoginStage::Disconnecting, LogicLoginEvent::Disconnected(matched)) => t.stage
                        == LogicLoginStage::Done && login_fails(
                        r,
                        StatusCode::Internal,
                        "Logic owner save failed"@,
                        matched,
                    ),
                    _ => t.stage == s.stage && t.response == s.response && match s.stage {
                        LogicLoginStage::Running => r is RunLogin,
                        LogicLoginStage::Disconnecting => r is Disconnect,
                        _ => r is SaveOwner,
                    },
                }
            }),
    {
        let stage = self.stage;
        match (stage, event) {
            (LogicLoginStage::Running, LogicLoginEvent::LoginRan(ran)) => match ran {
                Ok(result) => {
                    let count_online = result.became_online;
                    self.response = Some(result.response);
                    self.stage = LogicLoginStage::SavingOwner;
                    LogicLoginAction::SaveOwner { count_online }
                },
                Err(status) => {
                    self.stage = LogicLoginStage::Done;
                    login_error(status, false)
                },
            },
            (LogicLoginStage::SavingOwner, LogicLoginEvent::OwnerSaved(saved)) => {
                if saved {
                    self.stage = LogicLoginStage::Done;
                    match self.response.take() {
                        Some(response) => LogicLoginAction::Answer { response, uncount_online: false },
                        None => LogicLoginAction::Disconnect,
                    }
                } else {
                    self.stage = LogicLoginStage::Disconnecting;
                    LogicLoginAction::Disconnect
                }
            },
            (LogicLoginStage::Disconnecting, LogicLoginEvent::Disconnected(matched)) => {
                self.stage = LogicLoginStage::Done;
                login_error(Status::error(StatusCode::Internal, "Logic owner save failed"), matched)
            },
            (LogicLoginStage::Running, _) => LogicLoginAction::RunLogin,
            (LogicLoginStage::Disconnecting, _) => LogicLoginAction::Disconnect,
            (_, _) => LogicLoginAction::SaveOwner { count_online: false },
        }
    }
}

} // verus!
