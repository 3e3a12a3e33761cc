//! The mail rules of the Public service: which mail-id lists a request may
//! carry, what listing, reading, deleting, claiming and sending do to a
//! player's mailbox, and the claim flow.

use crate::ids::{checked_id_list, positive_unique};
use crate::player::{valid_item, Item};
use crate::status::{Status, StatusCode};
use vstd::prelude::*;

verus! {

/// A mail that was read.
pub const MAIL_READ: i32 = 1;

/// A mail whose attachments were claimed.
pub const MAIL_CLAIMED: i32 = 2;

/// How long a mail lives when it is sent without an end time: 30 days.
pub const DEFAULT_MAIL_LIFETIME: i64 = 30 * 24 * 60 * 60;

/// The most mail ids one request may name.
pub const MAX_REQUEST_MAILS: usize = 100;

/// The most mails a player keeps; the oldest ids go first.
pub const MAX_MAILS_PER_PLAYER: usize = 200;

/// The longest mail title, in bytes.
pub const MAX_TITLE_BYTES: usize = 128;

/// The longest mail content, in bytes.
pub const MAX_CONTENT_BYTES: usize = 4096;

/// One mail of a player's mailbox.
#[derive(Debug)]
pub struct Mail {
    pub mail_id: i64,
    pub title: String,
    pub content: String,
    pub attachments: Vec<Item>,
    pub state: i32,
    pub send_time: i64,
    pub end_time: i64,
}

/// A player's mailbox.
#[derive(Debug)]
pub struct MailData {
    pub mails: Vec<Mail>,
}

fn copy_items(items: &Vec<Item>) -> (r: Vec<Item>)
    ensures
        r@ == items@,
{
    let mut out: Vec<Item> = Vec::new();
    let mut i: usize = 0;
    while i < items.len()
        invariant
            i <= items@.len(),
            out@ == items@.take(i as int),
        decreases items.len() - i,
    {
        out.push(items[i]);
        proof {
            assert(items@.take(i + 1) =~= items@.take(i as int).push(items@[i as int]));
        }
        i = i + 1;
    }
    proof {
        assert(items@.take(items@.len() as int) =~= items@);
    }
    out
}

/// A mail as plain values.
pub struct MailView {
    pub mail_id: i64,
    pub title: Seq<char>,
    pub content: Seq<char>,
    pub attachments: Seq<Item>,
    pub state: i32,
    pub send_time: i64,
    pub end_time: i64,
}

impl View for Mail {
    type V = MailView;

    open spec fn view(&self) -> MailView {
        MailView {
            mail_id: self.mail_id,
            title: self.title@,
            content: self.content@,
            attachments: self.attachments@,
            state: self.state,
            send_time: self.send_time,
            end_time: self.end_time,
        }
    }
}

/// The mails of a sequence, each as plain values.
pub open spec fn mail_views(s: Seq<Mail>) -> Seq<MailView> {
    s.map_values(|m: Mail| m@)
}

impl Clone for Mail {
    fn clone(&self) -> (r: Self)
        ensures
            r@ == self@,
    {
        Mail {
            mail_id: self.mail_id,
            title: self.title.clone(),
            content: self.content.clone(),
            attachments: copy_items(&self.attachments),
            state: self.state,
            send_time: self.send_time,
            end_time: self.end_time,
        }
    }
}

// ---------------------------------------------------------------------------
// Mail-id lists
// ---------------------------------------------------------------------------

/// A list of mail ids a request may carry: 1 to `MAX_REQUEST_MAILS` ids, all
/// positive, none twice.
pub open spec fn valid_mail_id_list(ids: Seq<i64>) -> bool {
    positive_unique(ids, MAX_REQUEST_MAILS as int)
}

/// The mail ids of a request, when they form a valid list.
pub fn valid_mail_ids(mail_ids: Vec<i64>) -> (r: Option<Vec<i64>>)
    ensures
        valid_mail_id_list(mail_ids@) ==> r == Some(mail_ids),
        !valid_mail_id_list(mail_ids@) ==> r is None,
{
    checked_id_list(mail_ids, MAX_REQUEST_MAILS)
}

fn contains_id(ids: &Vec<i64>, id: i64) -> (r: bool)
    ensures
        r == ids@.contains(id),
{
    let mut i: usize = 0;
    while i < ids.len()
        invariant
            i <= ids@.len(),
            forall|k: int| 0 <= k < i ==> #[trigger] ids@[k] != id,
        decreases ids.len() - i,
    {
        if ids[i] == id {
            proof {
                assert(ids@[i as int] == id);
            }
            return true;
        }
        i = i + 1;
    }
    false
}

// ---------------------------------------------------------------------------
// Claiming
// ---------------------------------------------------------------------------

/// A mail has an end time and it has passed.
pub open spec fn expired(m: Mail, now: i64) -> bool {
    m.end_time != 0 && m.end_time <= now
}

/// A mail whose attachments may still be claimed.
pub open spec fn claimable(m: Mail, now: i64) -> bool {
    !expired(m, now) && m.state < MAIL_CLAIMED
}

/// The index of the first mail with this id, or -1.
pub open spec fn find_mail(mails: Seq<Mail>, id: i64) -> int
    decreases mails.len(),
{
    if mails.len() == 0 {
        -1
    } else {
        let p = find_mail(mails.drop_last(), id);
        if p >= 0 {
            p
        } else if mails.last().mail_id == id {
            mails.len() - 1
        } else {
            -1
        }
    }
}

proof fn lemma_find_mail(mails: Seq<Mail>, id: i64)
    ensures
        -1 <= find_mail(mails, id) < mails.len(),
        find_mail(mails, id) >= 0 ==> mails[find_mail(mails, id)].mail_id == id,
        forall|i: int|
            0 <= i < mails.len() && (find_mail(mails, id) < 0 || i < find_mail(mails, id))
                ==> #[trigger] mails[i].mail_id != id,
    decreases mails.len(),
{
    if mails.len() > 0 {
        let d = mails.drop_last();
        lemma_find_mail(d, id);
        let f = find_mail(mails, id);
        assert forall|i: int|
            0 <= i < mails.len() && (f < 0 || i < f) implies #[trigger] mails[i].mail_id != id by {
            if i < mails.len() - 1 {
                assert(d[i] == mails[i]);
            }
        }
        if find_mail(d, id) >= 0 {
            assert(d[find_mail(d, id)] == mails[find_mail(d, id)]);
        }
    }
}

/// The refusal, if any, for one mail id of a claim.
pub open spec fn check_claim(mails: Seq<Mail>, id: i64, now: i64) -> Option<StatusCode> {
    let p = find_mail(mails, id);
    if p < 0 {
        Some(StatusCode::NotFound)
    } else if !claimable(mails[p], now) {
        Some(StatusCode::Conflict)
    } else {
        None
    }
}

/// Why a claim of these mail ids is refused, checking the ids in order: the
/// first id with no mail, or whose mail cannot be claimed.
pub open spec fn claim_failure(mails: Seq<Mail>, ids: Seq<i64>, now: i64) -> Option<StatusCode>
    decreases ids.len(),
{
    if ids.len() == 0 {
        None
    } else {
        match claim_failure(mails, ids.drop_last(), now) {
            Some(c) => Some(c),
            None => check_claim(mails, ids.last(), now),
        }
    }
}

/// The attachments a claim of these ids grants: those of the first mail of
/// each id, in the order of the ids.
pub open spec fn claimed_attachments(mails: Seq<Mail>, ids: Seq<i64>) -> Seq<Item>
    decreases ids.len(),
{
    if ids.len() == 0 {
        Seq::empty()
    } else {
        claimed_attachments(mails, ids.drop_last()) + mails[find_mail(
            mails,
            ids.last(),
        )].attachments@
    }
}

/// The mailbox once every mail named by `ids` is marked claimed.
pub open spec fn marked_claimed(mails: Seq<Mail>, ids: Seq<i64>) -> Seq<Mail> {
    mails.map_values(
        |m: Mail|
            if ids.contains(m.mail_id) {
                Mail { state: MAIL_CLAIMED, ..m }
            } else {
                m
            },
    )
}

/// The message a refused claim is answered with.
pub open spec fn claim_failure_message(c: StatusCode) -> Seq<char> {
    if c == StatusCode::NotFound {
        "mail not found"@
    } else {
        "mail cannot be claimed"@
    }
}

fn find_mail_index(mails: &Vec<Mail>, id: i64) -> (r: Option<usize>)
    ensures
        find_mail(mails@, id) < 0 ==> r is None,
        find_mail(mails@, id) >= 0 ==> (r matches Some(i) && i as int == find_mail(mails@, id)),
{
    proof {
        lemma_find_mail(mails@, id);
    }
    let mut i: usize = 0;
    while i < mails.len()
        invariant
            i <= mails@.len(),
            -1 <= find_mail(mails@, id) < mails@.len(),
            find_mail(mails@, id) >= 0 ==> mails@[find_mail(mails@, id)].mail_id == id,
            forall|k: int|
                0 <= k < mails@.len() && (find_mail(mails@, id) < 0 || k < find_mail(mails@, id))
                    ==> #[trigger] mails@[k].mail_id != id,
            find_mail(mails@, id) < 0 || i <= find_mail(mails@, id),
        decreases mails.len() - i,
    {
        if mails[i].mail_id == id {
            return Some(i);
        }
        i = i + 1;
    }
    None
}

/// Claims the attachments of the mails named by `mail_ids` at time `now`.
/// Every id is checked before anything changes: the first id with no mail
/// answers "not found", the first whose mail expired or was claimed answers
/// a conflict, and the mailbox stays as it was. Otherwise every mail with a
/// named id is marked claimed and their attachments are returned; the flag
/// says whether the mailbox changed.
pub fn claim_mails(data: &mut MailData, mail_ids: &Vec<i64>, now: i64) -> (r: (
    Result<Vec<Item>, Status>,
    bool,
))
    ensures
        match claim_failure(old(data).mails@, mail_ids@, now) {
            Some(c) => {
                &&& r.0 matches Err(s) && s.code == c && s.message@ == claim_failure_message(c)
                &&& !r.1
                &&& final(data).mails@ == old(data).mails@
            },
            None => {
                &&& r.0 matches Ok(items) && items@ == claimed_attachments(
                    old(data).mails@,
                    mail_ids@,
                )
                &&& r.1
                &&& final(data).mails@ == marked_claimed(old(data).mails@, mail_ids@)
            },
        },
{
    let ghost mails = data.mails@;
    let mut attachments: Vec<Item> = Vec::new();
    let mut k: usize = 0;
    while k < mail_ids.len()
        invariant
            k <= mail_ids@.len(),
            data.mails@ == mails,
            mails == old(data).mails@,
            claim_failure(mails, mail_ids@.take(k as int), now) is None,
            attachments@ == claimed_attachments(mails, mail_ids@.take(k as int)),
        decreases mail_ids.len() - k,
    {
        let id = mail_ids[k];
        let ghost next = mail_ids@.take(k + 1);
        proof {
            assert(next.drop_last() =~= mail_ids@.take(k as int));
            assert(next.last() == id);
            assert(claim_failure(mails, next, now) == check_claim(mails, id, now));
            assert(claimed_attachments(mails, next) == claimed_attachments(
                mails,
                mail_ids@.take(k as int),
            ) + mails[find_mail(mails, id)].attachments@);
            lemma_find_mail(mails, id);
        }
        match find_mail_index(&data.mails, id) {
            None => {
                proof {
                    lemma_failure_prefix(mails, mail_ids@, now, k as int + 1);
                }
                return (Err(Status::error(StatusCode::NotFound, "mail not found")), false);
            },
            Some(p) => {
                let m = &data.mails[p];
                if (m.end_time != 0 && m.end_time <= now) || m.state >= MAIL_CLAIMED {
                    proof {
                        lemma_failure_prefix(mails, mail_ids@, now, k as int + 1);
                    }
                    return (
                        Err(Status::error(StatusCode::Conflict, "mail cannot be claimed")),
                        false,
                    );
                }
                let extra = copy_items(&m.attachments);
                let mut j: usize = 0;
                let ghost base = attachments@;
                while j < extra.len()
                    invariant
                        j <= extra@.len(),
                        attachments@ == base + extra@.take(j as int),
                    decreases extra.len() - j,
                {
                    attachments.push(extra[j]);
                    proof {
                        assert(extra@.take(j + 1) =~= extra@.take(j as int).push(extra@[j as int]));
                        assert(base + extra@.take(j + 1) =~= (base + extra@.take(j as int)).push(
                            extra@[j as int],
                        ));
                    }
                    j = j + 1;
                }
                proof {
                    assert(extra@.take(extra@.len() as int) =~= extra@);
                    assert(claimable(mails[p as int], now));
                    assert(claim_failure(mails, next, now) is None);
                }
            },
        }
        k = k + 1;
    }
    proof {
        assert(mail_ids@.take(mail_ids@.len() as int) =~= mail_ids@);
    }
    let mut i: usize = 0;
    while i < data.mails.len()
        invariant
            i <= data.mails@.len(),
            data.mails@.len() == mails.len(),
            forall|j: int|
                0 <= j < data.mails@.len() ==> #[trigger] data.mails@[j] == (if j < i {
                    marked_claimed(mails, mail_ids@)[j]
                } else {
                    mails[j]
                }),
        decreases data.mails.len() - i,
    {
        if contains_id(mail_ids, data.mails[i].mail_id) {
            data.mails[i].state = MAIL_CLAIMED;
        }
        i = i + 1;
    }
    proof {
        assert(data.mails@ =~= marked_claimed(mails, mail_ids@));
    }
    (Ok(attachments), true)
}

proof fn lemma_failure_prefix(mails: Seq<Mail>, ids: Seq<i64>, now: i64, k: int)
    requires
        0 <= k <= ids.len(),
        claim_failure(mails, ids.take(k), now) is Some,
    ensures
        claim_failure(mails, ids, now) == claim_failure(mails, ids.take(k), now),
    decreases ids.len() - k,
{
    if k < ids.len() {
        assert(ids.take(k + 1).drop_last() =~= ids.take(k));
        lemma_failure_prefix(mails, ids, now, k + 1);
    } else {
        assert(ids.take(k) =~= ids);
    }
}


// ---------------------------------------------------------------------------
// Reading and deleting
// ---------------------------------------------------------------------------

/// A read request turns this mail from unread to read.
pub open spec fn newly_read(m: Mail, ids: Seq<i64>) -> bool {
    ids.contains(m.mail_id) && m.state < MAIL_READ
}

/// The ids of the mails a read request turns to read, in mailbox order.
pub open spec fn read_ids(mails: Seq<Mail>, ids: Seq<i64>) -> Seq<i64>
    decreases mails.len(),
{
    if mails.len() == 0 {
        Seq::empty()
    } else {
        let rest = read_ids(mails.drop_last(), ids);
        if newly_read(mails.last(), ids) {
            rest.push(mails.last().mail_id)
        } else {
            rest
        }
    }
}

/// The mailbox once a read request marked its unread mails read.
pub open spec fn marked_read(mails: Seq<Mail>, ids: Seq<i64>) -> Seq<Mail> {
    mails.map_values(
        |m: Mail|
            if newly_read(m, ids) {
                Mail { state: MAIL_READ, ..m }
            } else {
                m
            },
    )
}

/// Marks read every unread mail named by `mail_ids`; answers the ids it
/// changed, in mailbox order, and whether the mailbox changed.
pub fn mark_read(data: &mut MailData, mail_ids: &Vec<i64>) -> (r: (Vec<i64>, bool))
    ensures
        final(data).mails@ == marked_read(old(data).mails@, mail_ids@),
        r.0@ == read_ids(old(data).mails@, mail_ids@),
        r.1 == (r.0@.len() > 0),
{
    let ghost mails = data.mails@;
    let mut changed: Vec<i64> = Vec::new();
    let mut i: usize = 0;
    while i < data.mails.len()
        invariant
            i <= data.mails@.len(),
            data.mails@.len() == mails.len(),
            forall|j: int|
                0 <= j < data.mails@.len() ==> #[trigger] data.mails@[j] == (if j < i {
                    marked_read(mails, mail_ids@)[j]
                } else {
                    mails[j]
                }),
            changed@ == read_ids(mails.take(i as int), mail_ids@),
        decreases data.mails.len() - i,
    {
        proof {
            assert(mails.take(i + 1).drop_last() =~= mails.take(i as int));
            assert(mails.take(i + 1).last() == mails[i as int]);
        }
        if data.mails[i].state < MAIL_READ && contains_id(mail_ids, data.mails[i].mail_id) {
            changed.push(data.mails[i].mail_id);
            data.mails[i].state = MAIL_READ;
        }
        i = i + 1;
    }
    proof {
        assert(data.mails@ =~= marked_read(mails, mail_ids@));
        assert(mails.take(mails.len() as int) =~= mails);
    }
    let dirty = changed.len() > 0;
    (changed, dirty)
}

/// The mails a delete request keeps, in mailbox order.
pub open spec fn kept_mails(mails: Seq<Mail>, ids: Seq<i64>) -> Seq<MailView>
    decreases mails.len(),
{
    if mails.len() == 0 {
        Seq::empty()
    } else {
        let rest = kept_mails(mails.drop_last(), ids);
        if ids.contains(mails.last().mail_id) {
            rest
        } else {
            rest.push(mails.last()@)
        }
    }
}

/// The ids of the mails a delete request removes, in mailbox order.
pub open spec fn deleted_ids(mails: Seq<Mail>, ids: Seq<i64>) -> Seq<i64>
    decreases mails.len(),
{
    if mails.len() == 0 {
        Seq::empty()
    } else {
        let rest = deleted_ids(mails.drop_last(), ids);
        if ids.contains(mails.last().mail_id) {
            rest.push(mails.last().mail_id)
        } else {
            rest
        }
    }
}

/// Deletes every mail named by `mail_ids`; answers the ids it removed, in
/// mailbox order, and whether the mailbox changed.
pub fn delete_mails(data: &mut MailData, mail_ids: &Vec<i64>) -> (r: (Vec<i64>, bool))
    ensures
        mail_views(final(data).mails@) == kept_mails(old(data).mails@, mail_ids@),
        r.0@ == deleted_ids(old(data).mails@, mail_ids@),
        r.1 == (r.0@.len() > 0),
{
    let ghost mails = data.mails@;
    let mut kept: Vec<Mail> = Vec::new();
    let mut removed: Vec<i64> = Vec::new();
    let mut i: usize = 0;
    while i < data.mails.len()
        invariant
            i <= data.mails@.len(),
            data.mails@ == mails,
            mail_views(kept@) == kept_mails(mails.take(i as int), mail_ids@),
            removed@ == deleted_ids(mails.take(i as int), mail_ids@),
        decreases data.mails.len() - i,
    {
        proof {
            assert(mails.take(i + 1).drop_last() =~= mails.take(i as int));
            assert(mails.take(i + 1).last() == mails[i as int]);
        }
        if contains_id(mail_ids, data.mails[i].mail_id) {
            removed.push(data.mails[i].mail_id);
        } else {
            let copy = data.mails[i].clone();
            let ghost before = kept@;
            kept.push(copy);
            proof {
                assert(mail_views(kept@) =~= mail_views(before).push(copy@));
            }
        }
        i = i + 1;
    }
    proof {
        assert(mails.take(mails.len() as int) =~= mails);
    }
    data.mails = kept;
    let dirty = removed.len() > 0;
    (removed, dirty)
}

// ---------------------------------------------------------------------------
// Listing and sending
// ---------------------------------------------------------------------------

/// A mail that has not expired at `now`.
pub open spec fn visible(m: MailView, now: i64) -> bool {
    m.end_time == 0 || m.end_time > now
}

/// The mails that have not expired, in mailbox order.
pub open spec fn visible_mails(mails: Seq<Mail>, now: i64) -> Seq<MailView>
    decreases mails.len(),
{
    if mails.len() == 0 {
        Seq::empty()
    } else {
        let rest = visible_mails(mails.drop_last(), now);
        if visible(mails.last()@, now) {
            rest.push(mails.last()@)
        } else {
            rest
        }
    }
}

/// Mails in increasing mail-id order (equal ids in any order).
pub open spec fn sorted_by_id(s: Seq<MailView>) -> bool {
    forall|i: int, j: int| 0 <= i <= j < s.len() ==> s[i].mail_id <= s[j].mail_id
}

/// Where a mail with this id goes in a sorted list: after every smaller or
/// equal id.
fn insertion_point(sorted: &Vec<Mail>, mail_id: i64) -> (p: usize)
    requires
        sorted_by_id(mail_views(sorted@)),
    ensures
        p <= sorted@.len(),
        forall|i: int| 0 <= i < p ==> #[trigger] sorted@[i].mail_id <= mail_id,
        forall|i: int| p <= i < sorted@.len() ==> #[trigger] sorted@[i].mail_id > mail_id,
{
    let mut p: usize = 0;
    while p < sorted.len() && sorted[p].mail_id <= mail_id
        invariant
            p <= sorted@.len(),
            sorted_by_id(mail_views(sorted@)),
            forall|i: int| 0 <= i < p ==> #[trigger] sorted@[i].mail_id <= mail_id,
        decreases sorted.len() - p,
    {
        p = p + 1;
    }
    proof {
        assert forall|i: int| p <= i < sorted@.len() implies #[trigger] sorted@[i].mail_id
            > mail_id by {
            assert(mail_views(sorted@)[p as int].mail_id <= mail_views(sorted@)[i].mail_id);
        }
    }
    p
}

proof fn lemma_sorted_insert(s: Seq<Mail>, p: int, m: Mail)
    requires
        sorted_by_id(mail_views(s)),
        0 <= p <= s.len(),
        forall|i: int| 0 <= i < p ==> #[trigger] s[i].mail_id <= m.mail_id,
        forall|i: int| p <= i < s.len() ==> #[trigger] s[i].mail_id > m.mail_id,
    ensures
        sorted_by_id(mail_views(s.insert(p, m))),
        mail_views(s.insert(p, m)) == mail_views(s).insert(p, m@),
{
    let t = s.insert(p, m);
    assert(mail_views(t) =~= mail_views(s).insert(p, m@));
    assert forall|i: int, j: int| 0 <= i <= j < t.len() implies mail_views(t)[i].mail_id
        <= mail_views(t)[j].mail_id by {
        assert(mail_views(t)[i].mail_id == t[i].mail_id);
        assert(mail_views(t)[j].mail_id == t[j].mail_id);
        if i < p && j < p {
            assert(mail_views(s)[i].mail_id <= mail_views(s)[j].mail_id);
        } else if i > p && j > p {
            assert(mail_views(s)[i - 1].mail_id <= mail_views(s)[j - 1].mail_id);
        } else if i < p && j > p {
            assert(s[i].mail_id <= m.mail_id);
            assert(s[j - 1].mail_id > m.mail_id);
        }
    }
}

/// The mails of the mailbox that have not expired at `now`, in increasing
/// mail-id order.
pub fn list_mails(data: &MailData, now: i64) -> (r: Vec<Mail>)
    ensures
        sorted_by_id(mail_views(r@)),
        mail_views(r@).to_multiset() == visible_mails(data.mails@, now).to_multiset(),
{
    broadcast use vstd::seq_lib::group_to_multiset_ensures;

    let ghost mails = data.mails@;
    let mut out: Vec<Mail> = Vec::new();
    let mut i: usize = 0;
    while i < data.mails.len()
        invariant
            i <= data.mails@.len(),
            data.mails@ == mails,
            sorted_by_id(mail_views(out@)),
            mail_views(out@).to_multiset() == visible_mails(mails.take(i as int), now).to_multiset(),
        decreases data.mails.len() - i,
    {
        proof {
            assert(mails.take(i + 1).drop_last() =~= mails.take(i as int));
            assert(mails.take(i + 1).last() == mails[i as int]);
        }
        let m = &data.mails[i];
        if m.end_time == 0 || m.end_time > now {
            let copy = m.clone();
            let p = insertion_point(&out, copy.mail_id);
            let ghost before = out@;
            out.insert(p, copy);
            proof {
                lemma_sorted_insert(before, p as int, copy);
                vstd::seq_lib::to_multiset_insert(mail_views(before), p as int, copy@);
                vstd::seq_lib::to_multiset_build(visible_mails(mails.take(i as int), now), copy@);
            }
        }
        i = i + 1;
    }
    proof {
        assert(mails.take(mails.len() as int) =~= mails);
    }
    out
}

/// The same mails in increasing mail-id order.
fn sort_mails(v: Vec<Mail>) -> (r: Vec<Mail>)
    ensures
        sorted_by_id(mail_views(r@)),
        r@.to_multiset() == v@.to_multiset(),
{
    broadcast use vstd::seq_lib::group_to_multiset_ensures;

    let ghost all = v@;
    let mut rest = v;
    let mut out: Vec<Mail> = Vec::new();
    while rest.len() > 0
        invariant
            sorted_by_id(mail_views(out@)),
            out@.to_multiset().add(rest@.to_multiset()) == all.to_multiset(),
        decreases rest.len(),
    {
        let ghost before_rest = rest@;
        let m = rest.pop().unwrap();
        proof {
            assert(before_rest =~= rest@.push(m));
        }
        let p = insertion_point(&out, m.mail_id);
        let ghost before = out@;
        let ghost mm = m;
        out.insert(p, m);
        proof {
            lemma_sorted_insert(before, p as int, mm);
            vstd::seq_lib::to_multiset_insert(before, p as int, mm);
            vstd::seq_lib::to_multiset_build(rest@, mm);
            assert(out@.to_multiset().add(rest@.to_multiset()) =~= before.to_multiset().add(
                before_rest.to_multiset(),
            ));
        }
    }
    proof {
        assert(rest@.to_multiset() =~= vstd::multiset::Multiset::empty());
        assert(out@.to_multiset().add(rest@.to_multiset()) =~= out@.to_multiset());
    }
    out
}

/// The route of a request names a player and a session, both as positive
/// `i64`s; the player's id.
pub fn player_gid(head_gid: u64, head_player_session: u64) -> (r: Option<i64>)
    ensures
        r == player_gid_spec(head_gid, head_player_session),
{
    if head_gid == 0 || head_gid > 9223372036854775807u64 || head_player_session == 0
        || head_player_session > 9223372036854775807u64 {
        None
    } else {
        Some(head_gid as i64)
    }
}

/// A mail a sender may send: a non-empty title of at most
/// `MAX_TITLE_BYTES` bytes, content of at most `MAX_CONTENT_BYTES` bytes, and
/// valid attachments.
pub open spec fn sendable(m: Mail) -> bool {
    &&& m.title@.len() > 0
    &&& vstd::utf8::encode_utf8(m.title@).len() as usize <= MAX_TITLE_BYTES
    &&& vstd::utf8::encode_utf8(m.content@).len() as usize <= MAX_CONTENT_BYTES
    &&& forall|i: int| 0 <= i < m.attachments@.len() ==> valid_item(#[trigger] m.attachments@[i])
}

/// Why a send-mail request is refused before the mailbox is touched, if it
/// is: no mail, or a target or mail that is not valid.
pub fn send_mail_rejection(gid: i64, mail: &Option<Mail>) -> (r: Option<Status>)
    ensures
        mail is None ==> (r matches Some(s) && s.code == StatusCode::InvalidArgument
            && s.message@ == "mail is required"@),
        mail matches Some(m) && (gid <= 0 || !sendable(*m)) ==> (r matches Some(s) && s.code
            == StatusCode::InvalidArgument && s.message@ == "invalid mail request"@),
        mail matches Some(m) && gid > 0 && sendable(*m) ==> r is None,
{
    match mail {
        None => Some(Status::error(StatusCode::InvalidArgument, "mail is required")),
        Some(m) => {
            let mut attachments_ok = true;
            let mut i: usize = 0;
            while i < m.attachments.len()
                invariant
                    i <= m.attachments@.len(),
                    attachments_ok == forall|k: int|
                        0 <= k < i ==> valid_item(#[trigger] m.attachments@[k]),
                decreases m.attachments.len() - i,
            {
                let item = m.attachments[i];
                if item.item_id <= 0 || item.count <= 0 {
                    attachments_ok = false;
                }
                i = i + 1;
            }
            let title = m.title.as_str();
            let content = m.content.as_str();
            if gid <= 0 || title.is_empty() || title.len() > MAX_TITLE_BYTES || content.len()
                > MAX_CONTENT_BYTES || !attachments_ok {
                Some(Status::error(StatusCode::InvalidArgument, "invalid mail request"))
            } else {
                None
            }
        },
    }
}

/// The send time a mail is stored with: its own, or `now` when it has none.
pub open spec fn stored_send_time(m: Mail, now: i64) -> int {
    if m.send_time == 0 {
        now as int
    } else {
        m.send_time as int
    }
}

/// The end time a mail is stored with: its own, or the default lifetime
/// after its send time when it has none.
pub open spec fn stored_end_time(m: Mail, now: i64) -> int {
    if m.end_time == 0 {
        stored_send_time(m, now) + DEFAULT_MAIL_LIFETIME
    } else {
        m.end_time as int
    }
}

/// Stores a new mail in the mailbox at time `now` under `mail_id`. A mail
/// that ends no later than `now` is refused and nothing changes. Otherwise
/// it is stored unread, the mailbox is sorted by mail id, and when it holds
/// more than `MAX_MAILS_PER_PLAYER` mails the lowest ids are dropped. The
/// stored mail is returned with the flag that the mailbox changed.
pub fn store_mail(data: &mut MailData, message: Mail, mail_id: i64, now: i64) -> (r: (
    Result<Mail, Status>,
    bool,
))
    requires
        message.end_time == 0 ==> stored_send_time(message, now) + DEFAULT_MAIL_LIFETIME
            <= i64::MAX,
    ensures
        stored_end_time(message, now) <= now ==> {
            &&& r.0 matches Err(s) && s.code == StatusCode::InvalidArgument && s.message@
                == "mail is already expired"@
            &&& !r.1
            &&& final(data).mails@ == old(data).mails@
        },
        stored_end_time(message, now) > now ==> {
            let stored = Mail {
                mail_id,
                state: 0,
                send_time: stored_send_time(message, now) as i64,
                end_time: stored_end_time(message, now) as i64,
                ..message
            };
            &&& r.0 matches Ok(m) && m@ == stored@
            &&& r.1
            &&& sorted_by_id(mail_views(final(data).mails@))
            &&& exists|all: Seq<Mail>|
                {
                    &&& all.to_multiset() == old(data).mails@.push(stored).to_multiset()
                    &&& sorted_by_id(mail_views(all))
                    &&& final(data).mails@ == (if all.len() > MAX_MAILS_PER_PLAYER {
                        all.skip(all.len() - MAX_MAILS_PER_PLAYER)
                    } else {
                        all
                    })
                }
        },
{
    let mut message = message;
    message.mail_id = mail_id;
    if message.send_time == 0 {
        message.send_time = now;
    }
    if message.end_time == 0 {
        message.end_time = message.send_time + DEFAULT_MAIL_LIFETIME;
    }
    if message.end_time <= now {
        return (Err(Status::error(StatusCode::InvalidArgument, "mail is already expired")), false);
    }
    message.state = 0;
    let answer = message.clone();
    let mut mails = Vec::new();
    std::mem::swap(&mut mails, &mut data.mails);
    let ghost pushed = mails@.push(message);
    mails.push(message);
    let mut all = sort_mails(mails);
    let ghost sorted = all@;
    if all.len() > MAX_MAILS_PER_PLAYER {
        let remove = all.len() - MAX_MAILS_PER_PLAYER;
        let tail = all.split_off(remove);
        proof {
            assert(tail@ =~= sorted.skip(remove as int));
            assert forall|i: int, j: int| 0 <= i <= j < tail@.len() implies mail_views(tail@)[i].mail_id
                <= mail_views(tail@)[j].mail_id by {
                assert(mail_views(tail@)[i].mail_id == mail_views(sorted)[i + remove].mail_id);
                assert(mail_views(tail@)[j].mail_id == mail_views(sorted)[j + remove].mail_id);
            }
        }
        all = tail;
    }
    data.mails = all;
    (Ok(answer), true)
}


// ---------------------------------------------------------------------------
// Laws of the mailbox
// ---------------------------------------------------------------------------

proof fn lemma_find_after_claim(mails: Seq<Mail>, ids: Seq<i64>, id: i64)
    ensures
        find_mail(marked_claimed(mails, ids), id) == find_mail(mails, id),
    decreases mails.len(),
{
    if mails.len() > 0 {
        assert(marked_claimed(mails, ids).drop_last() =~= marked_claimed(mails.drop_last(), ids));
        lemma_find_after_claim(mails.drop_last(), ids, id);
    }
}

proof fn lemma_no_failure_means_found(mails: Seq<Mail>, qs: Seq<i64>, now: i64, j: int)
    requires
        claim_failure(mails, qs, now) is None,
        0 <= j < qs.len(),
    ensures
        check_claim(mails, qs[j], now) is None,
    decreases qs.len(),
{
    if j < qs.len() - 1 {
        lemma_no_failure_means_found(mails, qs.drop_last(), now, j);
    }
}

proof fn lemma_claimed_ids_conflict(mails: Seq<Mail>, ids: Seq<i64>, qs: Seq<i64>, now: i64)
    requires
        qs.len() > 0,
        forall|j: int| 0 <= j < qs.len() ==> ids.contains(#[trigger] qs[j]),
        forall|j: int| 0 <= j < qs.len() ==> find_mail(mails, #[trigger] qs[j]) >= 0,
    ensures
        claim_failure(marked_claimed(mails, ids), qs, now) == Some(StatusCode::Conflict),
    decreases qs.len(),
{
    let q = qs.last();
    assert(qs[qs.len() - 1] == q);
    lemma_find_after_claim(mails, ids, q);
    lemma_find_mail(mails, q);
    let p = find_mail(mails, q);
    assert(marked_claimed(mails, ids)[p].state == MAIL_CLAIMED);
    if qs.len() > 1 {
        let d = qs.drop_last();
        assert forall|j: int| 0 <= j < d.len() implies ids.contains(#[trigger] d[j]) by {
            assert(d[j] == qs[j]);
        }
        assert forall|j: int| 0 <= j < d.len() implies find_mail(mails, #[trigger] d[j]) >= 0 by {
            assert(d[j] == qs[j]);
        }
        lemma_claimed_ids_conflict(mails, ids, d, now);
    }
}

/// Every requested mail that exists, has not expired and was not claimed
/// yet (whether it was read or not) may be claimed: such a claim is refused
/// for no id.
pub proof fn law_unexpired_unclaimed_mails_are_claimable(mails: Seq<Mail>, ids: Seq<i64>, now: i64)
    requires
        forall|j: int|
            0 <= j < ids.len() ==> exists|i: int|
                0 <= i < mails.len() && #[trigger] mails[i].mail_id == #[trigger] ids[j],
        forall|i: int|
            0 <= i < mails.len() && ids.contains(#[trigger] mails[i].mail_id) ==> (mails[i].end_time
                == 0 || mails[i].end_time > now) && mails[i].state < MAIL_CLAIMED,
    ensures
        claim_failure(mails, ids, now) is None,
    decreases ids.len(),
{
    if ids.len() > 0 {
        let rest = ids.drop_last();
        assert forall|j: int|
            0 <= j < rest.len() implies exists|i: int|
                0 <= i < mails.len() && #[trigger] mails[i].mail_id == #[trigger] rest[j] by {
            assert(rest[j] == ids[j]);
        }
        assert forall|i: int|
            0 <= i < mails.len() && rest.contains(#[trigger] mails[i].mail_id) implies (
            mails[i].end_time == 0 || mails[i].end_time > now) && mails[i].state < MAIL_CLAIMED by {
            let j = choose|j: int| 0 <= j < rest.len() && rest[j] == mails[i].mail_id;
            assert(ids[j] == rest[j]);
        }
        law_unexpired_unclaimed_mails_are_claimable(mails, rest, now);
        let id = ids.last();
        lemma_find_mail(mails, id);
        let w = choose|i: int| 0 <= i < mails.len() && #[trigger] mails[i].mail_id == ids[ids.len() - 1];
        assert(mails[w].mail_id == id);
        let p = find_mail(mails, id);
        assert(p >= 0);
        assert(ids[ids.len() - 1] == id);
        assert(ids.contains(mails[p].mail_id));
    }
}

/// A claim that names a mail which expired or was already claimed is
/// refused, whatever else it names.
pub proof fn law_expired_or_claimed_mails_are_refused(mails: Seq<Mail>, ids: Seq<i64>, now: i64, i: int)
    requires
        0 <= i < mails.len(),
        ids.contains(mails[i].mail_id),
        forall|k: int| 0 <= k < i ==> #[trigger] mails[k].mail_id != mails[i].mail_id,
        (mails[i].end_time != 0 && mails[i].end_time <= now) || mails[i].state >= MAIL_CLAIMED,
    ensures
        claim_failure(mails, ids, now) is Some,
    decreases ids.len(),
{
    let id = mails[i].mail_id;
    let rest = ids.drop_last();
    if claim_failure(mails, rest, now) is None {
        if rest.contains(id) {
            law_expired_or_claimed_mails_are_refused(mails, rest, now, i);
        } else {
            let j = choose|j: int| 0 <= j < ids.len() && ids[j] == id;
            if j < ids.len() - 1 {
                assert(rest[j] == id);
            }
            assert(ids.last() == id);
            lemma_find_mail(mails, id);
            let p = find_mail(mails, id);
            assert(p == i);
        }
    }
}

/// Reading never lowers a mail's state: a claimed mail stays claimed. After
/// a read every requested mail is at least read, every other mail is
/// untouched, and a mail that was already read or claimed is untouched; the
/// ids reported are requested ids of mails that were unread.
pub proof fn law_read_never_lowers_state(mails: Seq<Mail>, ids: Seq<i64>)
    ensures
        marked_read(mails, ids).len() == mails.len(),
        forall|i: int| 0 <= i < mails.len() ==> #[trigger] marked_read(mails, ids)[i].state >= mails[i].state,
        forall|i: int|
            0 <= i < mails.len() && ids.contains(mails[i].mail_id) ==> #[trigger] marked_read(
                mails,
                ids,
            )[i].state >= MAIL_READ,
        forall|i: int|
            0 <= i < mails.len() && (!ids.contains(mails[i].mail_id) || mails[i].state >= MAIL_READ)
                ==> #[trigger] marked_read(mails, ids)[i] == mails[i],
        forall|k: int|
            0 <= k < read_ids(mails, ids).len() ==> ids.contains(#[trigger] read_ids(mails, ids)[k])
                && exists|i: int|
                0 <= i < mails.len() && mails[i].mail_id == read_ids(mails, ids)[k] && mails[i].state
                    < MAIL_READ,
    decreases mails.len(),
{
    if mails.len() > 0 {
        let d = mails.drop_last();
        law_read_never_lowers_state(d, ids);
        let r = read_ids(mails, ids);
        let rd = read_ids(d, ids);
        assert forall|k: int| 0 <= k < r.len() implies ids.contains(#[trigger] r[k]) && exists|i: int|
            0 <= i < mails.len() && mails[i].mail_id == r[k] && mails[i].state < MAIL_READ by {
            if k < rd.len() {
                assert(r[k] == rd[k]);
                let i = choose|i: int| 0 <= i < d.len() && d[i].mail_id == rd[k] && d[i].state < MAIL_READ;
                assert(mails[i] == d[i]);
            } else {
                assert(r[k] == mails.last().mail_id);
                assert(mails[mails.len() - 1] == mails.last());
            }
        }
    }
}

/// Mails are claimed once: after a claim of some ids was accepted, claiming
/// the same ids again is refused as a conflict.
pub proof fn law_claim_only_once(mails: Seq<Mail>, ids: Seq<i64>, now: i64)
    requires
        ids.len() > 0,
        claim_failure(mails, ids, now) is None,
    ensures
        claim_failure(marked_claimed(mails, ids), ids, now) == Some(StatusCode::Conflict),
{
    assert forall|j: int| 0 <= j < ids.len() implies ids.contains(#[trigger] ids[j]) by {}
    assert forall|j: int| 0 <= j < ids.len() implies find_mail(mails, #[trigger] ids[j]) >= 0 by {
        lemma_no_failure_means_found(mails, ids, now, j);
    }
    lemma_claimed_ids_conflict(mails, ids, ids, now);
}

proof fn lemma_nothing_to_read(s: Seq<Mail>, ids: Seq<i64>)
    requires
        forall|i: int| 0 <= i < s.len() ==> !newly_read(#[trigger] s[i], ids),
    ensures
        read_ids(s, ids).len() == 0,
    decreases s.len(),
{
    if s.len() > 0 {
        assert(!newly_read(s[s.len() - 1], ids));
        assert forall|i: int| 0 <= i < s.len() - 1 implies !newly_read(
            #[trigger] s.drop_last()[i],
            ids,
        ) by {
            assert(s.drop_last()[i] == s[i]);
        }
        lemma_nothing_to_read(s.drop_last(), ids);
    }
}

/// Reading is idempotent: reading the same ids again changes no mail and
/// reports no id.
pub proof fn law_read_is_idempotent(mails: Seq<Mail>, ids: Seq<i64>)
    ensures
        marked_read(marked_read(mails, ids), ids) == marked_read(mails, ids),
        read_ids(marked_read(mails, ids), ids).len() == 0,
{
    let once = marked_read(mails, ids);
    assert(marked_read(once, ids) =~= once);
    lemma_nothing_to_read(once, ids);
}

/// A delete leaves no mail with a requested id, and reports only requested
/// ids.
pub proof fn law_deleted_mails_are_gone(mails: Seq<Mail>, ids: Seq<i64>)
    ensures
        forall|i: int|
            0 <= i < kept_mails(mails, ids).len() ==> !ids.contains(
                #[trigger] kept_mails(mails, ids)[i].mail_id,
            ),
        forall|i: int|
            0 <= i < deleted_ids(mails, ids).len() ==> ids.contains(
                #[trigger] deleted_ids(mails, ids)[i],
            ),
    decreases mails.len(),
{
    if mails.len() > 0 {
        law_deleted_mails_are_gone(mails.drop_last(), ids);
        let k = kept_mails(mails.drop_last(), ids);
        let d = deleted_ids(mails.drop_last(), ids);
        assert forall|i: int| 0 <= i < kept_mails(mails, ids).len() implies !ids.contains(
            #[trigger] kept_mails(mails, ids)[i].mail_id,
        ) by {
            if i < k.len() {
                assert(kept_mails(mails, ids)[i] == k[i]);
            }
        }
        assert forall|i: int| 0 <= i < deleted_ids(mails, ids).len() implies ids.contains(
            #[trigger] deleted_ids(mails, ids)[i],
        ) by {
            if i < d.len() {
                assert(deleted_ids(mails, ids)[i] == d[i]);
            }
        }
    }
}


// ---------------------------------------------------------------------------
// A claim request, step by step
// ---------------------------------------------------------------------------

/// Where a claim request stands.
#[derive(Clone, Copy, Debug, PartialEq, Eq, Structural)]
pub enum ClaimStage {
    Claiming,
    LoadingOnline,
    Granting,
    Done,
}

/// What the outside work of a claim request gave back.
pub enum ClaimEvent {
    /// What claiming in the player's mailbox gave: the attachments, or the
    /// refusal; `Err` when the player's data could not be had.
    Claimed(Result<Result<Vec<Item>, Status>, ()>),
    /// The Logic that owns the player, from its online record (`Ok(None)`:
    /// no record; `Err`: the load failed).
    OnlineLoaded(Result<Option<i32>, ()>),
    /// The Logic's answer to the grant: its status, if any, and the items
    /// it reports; `None` when the call failed.
    Granted(Option<(Option<Status>, Vec<Item>)>),
}

/// The answer to a claim request.
#[derive(Debug)]
pub struct ClaimAnswer {
    pub status: Status,
    pub mail_ids: Vec<i64>,
    pub items: Vec<Item>,
}

/// The next thing a claim request needs done.
#[derive(Debug)]
pub enum ClaimAction {
    /// Claim these mails in the player's mailbox (with `claim_mails`).
    Claim,
    /// Load the player's online record.
    LoadOnline,
    /// Grant the claimed attachments at this Logic.
    Grant { logic_id: i32 },
    Answer(ClaimAnswer),
}

/// A claim request in progress.
#[derive(Debug)]
pub struct ClaimFlow {
    pub gid: i64,
    pub mail_ids: Vec<i64>,
    pub attachments: Vec<Item>,
    pub logic_id: i32,
    pub stage: ClaimStage,
}

/// The action answers with this code and message, and nothing else.
pub open spec fn claim_fails(a: ClaimAction, code: StatusCode, message: Seq<char>) -> bool {
    a matches ClaimAction::Answer(x) && x.status.code == code && x.status.message@ == message
        && x.mail_ids@.len() == 0 && x.items@.len() == 0
}

fn claim_error(code: StatusCode, message: &str) -> (r: ClaimAction)
    ensures
        claim_fails(r, code, message@),
{
    ClaimAction::Answer(
        ClaimAnswer { status: Status::error(code, message), mail_ids: Vec::new(), items: Vec::new() },
    )
}

fn copy_ids(ids: &Vec<i64>) -> (r: Vec<i64>)
    ensures
        r@ == ids@,
{
    let mut out: Vec<i64> = Vec::new();
    let mut i: usize = 0;
    while i < ids.len()
        invariant
            i <= ids@.len(),
            out@ == ids@.take(i as int),
        decreases ids.len() - i,
    {
        out.push(ids[i]);
        proof {
            assert(ids@.take(i + 1) =~= ids@.take(i as int).push(ids@[i as int]));
        }
        i = i + 1;
    }
    proof {
        assert(ids@.take(ids@.len() as int) =~= ids@);
    }
    out
}

impl ClaimFlow {
    /// Starts a claim: the route must name a player and a session, and the
    /// mail ids must form a valid list; then the mails are claimed.
    pub fn begin(head_gid: u64, head_player_session: u64, mail_ids: Vec<i64>) -> (r: (
        ClaimFlow,
        ClaimAction,
    ))
        ensures
            player_gid_spec(head_gid, head_player_session) is None ==> r.0.stage == ClaimStage::Done
                && claim_fails(r.1, StatusCode::InvalidArgument, "missing player route"@),
            player_gid_spec(head_gid, head_player_session) is Some && !valid_mail_id_list(mail_ids@)
                ==> r.0.stage == ClaimStage::Done && claim_fails(
                r.1,
                StatusCode::InvalidArgument,
                "invalid mail ids"@,
            ),
            player_gid_spec(head_gid, head_player_session) is Some && valid_mail_id_list(mail_ids@)
                ==> r.0.stage == ClaimStage::Claiming && player_gid_spec(head_gid, head_player_session)
                == Some(r.0.gid) && r.0.mail_ids@ == mail_ids@ && r.1 is Claim,
    {
        let empty = ClaimFlow {
            gid: 0,
            mail_ids: Vec::new(),
            attachments: Vec::new(),
            logic_id: 0,
            stage: ClaimStage::Done,
        };
        let gid = match player_gid(head_gid, head_player_session) {
            Some(g) => g,
            None => {
                return (empty, claim_error(StatusCode::InvalidArgument, "missing player route"));
            },
        };
        match valid_mail_ids(mail_ids) {
            Some(ids) => (
                ClaimFlow {
                    gid,
                    mail_ids: ids,
                    attachments: Vec::new(),
                    logic_id: 0,
                    stage: ClaimStage::Claiming,
                },
                ClaimAction::Claim,
            ),
            None => (empty, claim_error(StatusCode::InvalidArgument, "invalid mail ids")),
        }
    }

    /// Takes the result of the outside work an unfinished claim waited for
    /// and answers what to do next. An event that does not answer the
    /// pending work changes nothing and the pending action is asked again.
    pub fn step(&mut self, event: ClaimEvent) -> (r: ClaimAction)
        requires
            old(self).stage != ClaimStage::Done,
        ensures
            final(self).gid == old(self).gid,
            final(self).mail_ids@ == old(self).mail_ids@,
            ({
                let s = *old(self);
                let t = *final(self);
                match (s.stage, event) {
                    (ClaimStage::Claiming, ClaimEvent::Claimed(c)) => match c {
                        Err(_) => t.stage == ClaimStage::Done && claim_fails(
                            r,
                            StatusCode::Internal,
                            "Public player data unavailable"@,
                        ),
                        Ok(Err(status)) => t.stage == ClaimStage::Done && (r matches ClaimAction::Answer(
                            x,
                        ) && x.status.code == status.code && x.status.message@ == status.message@
                            && x.items@.len() == 0),
                        Ok(Ok(items)) => if items@.len() == 0 {
                            t.stage == ClaimStage::Done && (r matches ClaimAction::Answer(x)
                                && x.status.code == StatusCode::Success && x.mail_ids@
                                == s.mail_ids@ && x.items@.len() == 0)
                        } else {
                            t.stage == ClaimStage::LoadingOnline && t.attachments@ == items@
                                && r is LoadOnline
                        },
                    },
                    (ClaimStage::LoadingOnline, ClaimEvent::OnlineLoaded(o)) => match o {
                        Ok(Some(logic_id)) if logic_id > 0 => t.stage == ClaimStage::Granting
                            && t.attachments@ == s.attachments@ && t.logic_id == logic_id && r
                            == ClaimAction::Grant { logic_id },
                        Ok(_) => t.stage == ClaimStage::Done && claim_fails(
                            r,
                            StatusCode::TemporarilyUnavailable,
                            "Logic ownership unavailable"@,
                        ),
                        Err(_) => t.stage == ClaimStage::Done && claim_fails(
                            r,
                            StatusCode::Internal,
                            "online state load failed"@,
                        ),
                    },
                    (ClaimStage::Granting, ClaimEvent::Granted(g)) => t.stage == ClaimStage::Done
                        && match g {
                        None => claim_fails(
                            r,
                            StatusCode::TemporarilyUnavailable,
                            "item grant failed"@,
                        ),
                        Some((None, _)) => claim_fails(
                            r,
                            StatusCode::Internal,
                            "Logic item response has no status"@,
                        ),
                        Some((Some(status), items)) => if status.code == StatusCode::Success {
                            r matches ClaimAction::Answer(x) && x.status.code == StatusCode::Success
                                && x.mail_ids@ == s.mail_ids@ && x.items@ == items@
                        } else {
                            r matches ClaimAction::Answer(x) && x.status.code == status.code
                                && x.status.message@ == status.message@ && x.items@.len() == 0
                        },
                    },
                    _ => t.stage == s.stage && t.attachments@ == s.attachments@ && t.logic_id
                        == s.logic_id && match s.stage {
                        ClaimStage::Claiming => r is Claim,
                        ClaimStage::LoadingOnline => r is LoadOnline,
                        _ => r == ClaimAction::Grant { logic_id: s.logic_id },
                    },
                }
            }),
    {
        let stage = self.stage;
        match (stage, event) {
            (ClaimStage::Claiming, ClaimEvent::Claimed(c)) => match c {
                Err(_) => {
                    self.stage = ClaimStage::Done;
                    claim_error(StatusCode::Internal, "Public player data unavailable")
                },
                Ok(Err(status)) => {
                    self.stage = ClaimStage::Done;
                    ClaimAction::Answer(ClaimAnswer { status, mail_ids: Vec::new(), items: Vec::new() })
                },
                Ok(Ok(items)) => {
                    if items.len() == 0 {
                        self.stage = ClaimStage::Done;
                        ClaimAction::Answer(
                            ClaimAnswer {
                                status: Status::ok(),
                                mail_ids: copy_ids(&self.mail_ids),
                                items: Vec::new(),
                            },
                        )
                    } else {
                        self.attachments = items;
                        self.stage = ClaimStage::LoadingOnline;
                        ClaimAction::LoadOnline
                    }
                },
            },
            (ClaimStage::LoadingOnline, ClaimEvent::OnlineLoaded(o)) => match o {
                Ok(Some(logic_id)) if logic_id > 0 => {
                    self.logic_id = logic_id;
                    self.stage = ClaimStage::Granting;
                    ClaimAction::Grant { logic_id }
                },
                Ok(_) => {
                    self.stage = ClaimStage::Done;
                    claim_error(StatusCode::TemporarilyUnavailable, "Logic ownership unavailable")
                },
                Err(_) => {
                    self.stage = ClaimStage::Done;
                    claim_error(StatusCode::Internal, "online state load failed")
                },
            },
            (ClaimStage::Granting, ClaimEvent::Granted(g)) => {
                self.stage = ClaimStage::Done;
                match g {
                    None => claim_error(StatusCode::TemporarilyUnavailable, "item grant failed"),
                    Some((None, _)) => claim_error(
                        StatusCode::Internal,
                        "Logic item response has no status",
                    ),
                    Some((Some(status), items)) => {
                        if status.is_ok() {
                            ClaimAction::Answer(
                                ClaimAnswer { status, mail_ids: copy_ids(&self.mail_ids), items },
                            )
                        } else {
                            ClaimAction::Answer(
                                ClaimAnswer { status, mail_ids: Vec::new(), items: Vec::new() },
                            )
                        }
                    },
                }
            },
            (ClaimStage::Claiming, _) => ClaimAction::Claim,
            (ClaimStage::LoadingOnline, _) => ClaimAction::LoadOnline,
            (ClaimStage::Granting, _) | (ClaimStage::Done, _) => ClaimAction::Grant {
                logic_id: self.logic_id,
            },
        }
    }
}

/// The player id a route names, when it names a player and a session, both
/// as positive `i64`s.
pub open spec fn player_gid_spec(head_gid: u64, head_player_session: u64) -> Option<i64> {
    if 0 < head_gid <= i64::MAX && 0 < head_player_session <= i64::MAX {
        Some(head_gid as i64)
    } else {
        None
    }
}


// ---------------------------------------------------------------------------
// Sending
// ---------------------------------------------------------------------------

/// What storing a sent mail comes to: the stored mail, the refusal, or the
/// status when the player's data could not be had.
pub fn send_outcome(stored: Result<Result<Mail, Status>, ()>) -> (r: Result<Mail, Status>)
    ensures
        match stored {
            Ok(Ok(m)) => r == Ok::<Mail, Status>(m),
            Ok(Err(s)) => r matches Err(x) && x.code == s.code && x.message@ == s.message@,
            Err(_) => r matches Err(x) && x.code == StatusCode::Internal && x.message@
                == "Public player data unavailable"@,
        },
{
    match stored {
        Ok(Ok(m)) => Ok(m),
        Ok(Err(s)) => Err(s),
        Err(_) => Err(Status::error(StatusCode::Internal, "Public player data unavailable")),
    }
}

/// Which gateway to notify: the one named by the online entry, provided its
/// id and session id are both positive.
pub fn push_target(online: Option<(i32, i64)>) -> (r: Option<i32>)
    ensures
        r == (match online {
            Some((gate_id, session)) if gate_id > 0 && session > 0 => Some(gate_id),
            _ => None::<i32>,
        }),
{
    match online {
        Some((gate_id, session)) => {
            if gate_id > 0 && session > 0 {
                Some(gate_id)
            } else {
                None
            }
        },
        None => None,
    }
}

} // verus!
