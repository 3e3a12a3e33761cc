use xkk_server::mail::{
    push_target, send_outcome,
    claim_mails, delete_mails, list_mails, mark_read, player_gid, send_mail_rejection,
    store_mail, valid_mail_ids, Mail, MailData, DEFAULT_MAIL_LIFETIME, MAIL_CLAIMED, MAIL_READ,
    MAX_MAILS_PER_PLAYER, MAX_REQUEST_MAILS,
};
use xkk_server::mail::{ClaimAction, ClaimEvent, ClaimFlow};
use xkk_server::player::Item;
use xkk_server::status::Status;
use xkk_server::players::{
    PLAYER_CACHE_CAPACITY, PLAYER_CACHE_SHARDS, PLAYER_CACHE_SLIDING, PLAYER_CACHE_TTL_SECS,
    PLAYER_SAVE_BATCH_SIZE,
};
use xkk_server::status::StatusCode;

const NOW: i64 = 1_700_000_000;

fn mail(mail_id: i64) -> Mail {
    Mail {
        mail_id,
        title: "t".to_string(),
        content: String::new(),
        attachments: Vec::new(),
        state: 0,
        send_time: 0,
        end_time: 0,
    }
}

fn ids(data: &MailData) -> Vec<i64> {
    data.mails.iter().map(|m| m.mail_id).collect()
}

#[test]
fn mail_ids_must_be_positive_unique_and_bounded() {
    assert!(valid_mail_ids(vec![1, 2]).is_some());
    assert!(valid_mail_ids(vec![]).is_none());
    assert!(valid_mail_ids(vec![1, 1]).is_none());
    assert!(valid_mail_ids(vec![0]).is_none());
    assert!(valid_mail_ids(vec![1; MAX_REQUEST_MAILS + 1]).is_none());
}

#[test]
fn claim_validates_every_mail_before_mutating() {
    let mut data = MailData {
        mails: vec![
            Mail { attachments: vec![Item { item_id: 7, count: 2, change: 0 }], ..mail(1) },
            Mail { state: MAIL_CLAIMED, ..mail(2) },
        ],
    };

    let (result, changed) = claim_mails(&mut data, &vec![1, 2], NOW);

    assert!(result.is_err());
    assert!(!changed);
    assert_eq!(data.mails[0].state, 0);
}

#[test]
fn claim_grants_attachments_once() {
    let mut data = MailData {
        mails: vec![
            Mail { attachments: vec![Item { item_id: 7, count: 2, change: 0 }], ..mail(1) },
            Mail { attachments: vec![Item { item_id: 8, count: 1, change: 0 }], ..mail(2) },
        ],
    };
    let (result, changed) = claim_mails(&mut data, &vec![2, 1], NOW);
    assert!(changed);
    let items = result.unwrap();
    assert_eq!(items.iter().map(|i| i.item_id).collect::<Vec<_>>(), vec![8, 7]);
    assert!(data.mails.iter().all(|m| m.state == MAIL_CLAIMED));
    let (again, changed) = claim_mails(&mut data, &vec![2, 1], NOW);
    assert_eq!(again.unwrap_err().code, StatusCode::Conflict);
    assert!(!changed);
}

#[test]
fn claim_refuses_missing_and_expired_mails() {
    let mut data = MailData { mails: vec![Mail { end_time: NOW, ..mail(1) }, mail(2)] };
    let (missing, _) = claim_mails(&mut data, &vec![3, 1], NOW);
    let status = missing.unwrap_err();
    assert_eq!(status.code, StatusCode::NotFound);
    assert_eq!(status.message, "mail not found");
    let (expired, _) = claim_mails(&mut data, &vec![1, 3], NOW);
    let status = expired.unwrap_err();
    assert_eq!(status.code, StatusCode::Conflict);
    assert_eq!(status.message, "mail cannot be claimed");
}

#[test]
fn reading_twice_changes_nothing_more() {
    let mut data = MailData { mails: vec![mail(1), Mail { state: MAIL_READ, ..mail(2) }, mail(3)] };
    let (changed, dirty) = mark_read(&mut data, &vec![3, 2, 1]);
    assert_eq!(changed, vec![1, 3]);
    assert!(dirty);
    let (changed, dirty) = mark_read(&mut data, &vec![3, 2, 1]);
    assert!(changed.is_empty());
    assert!(!dirty);
}

#[test]
fn delete_removes_only_the_named_mails() {
    let mut data = MailData { mails: vec![mail(1), mail(2), mail(3)] };
    let (removed, dirty) = delete_mails(&mut data, &vec![3, 1, 9]);
    assert_eq!(removed, vec![1, 3]);
    assert!(dirty);
    assert_eq!(ids(&data), vec![2]);
    let (removed, dirty) = delete_mails(&mut data, &vec![9]);
    assert!(removed.is_empty());
    assert!(!dirty);
}

#[test]
fn listing_hides_expired_mails_and_sorts_by_id() {
    let data = MailData {
        mails: vec![mail(5), Mail { end_time: NOW, ..mail(4) }, Mail { end_time: NOW + 1, ..mail(2) }],
    };
    let listed = list_mails(&data, NOW);
    assert_eq!(listed.iter().map(|m| m.mail_id).collect::<Vec<_>>(), vec![2, 5]);
}

#[test]
fn stored_mails_get_times_and_the_lowest_ids_are_dropped() {
    let mut data = MailData { mails: (1..=MAX_MAILS_PER_PLAYER as i64).map(|id| mail(id * 10)).collect() };
    let (stored, dirty) = store_mail(&mut data, mail(0), 15, NOW);
    let stored = stored.unwrap();
    assert!(dirty);
    assert_eq!(stored.mail_id, 15);
    assert_eq!(stored.send_time, NOW);
    assert_eq!(stored.end_time, NOW + DEFAULT_MAIL_LIFETIME);
    assert_eq!(data.mails.len(), MAX_MAILS_PER_PLAYER);
    assert_eq!(data.mails[0].mail_id, 15);
    assert_eq!(data.mails[1].mail_id, 20);
}

#[test]
fn expired_mail_is_not_stored() {
    let mut data = MailData { mails: vec![mail(1)] };
    let (stored, dirty) = store_mail(&mut data, Mail { end_time: NOW, ..mail(0) }, 2, NOW);
    let status = stored.unwrap_err();
    assert_eq!(status.code, StatusCode::InvalidArgument);
    assert_eq!(status.message, "mail is already expired");
    assert!(!dirty);
    assert_eq!(ids(&data), vec![1]);
}

#[test]
fn send_mail_requests_are_checked() {
    assert_eq!(send_mail_rejection(1, &None).unwrap().message, "mail is required");
    assert!(send_mail_rejection(1, &Some(mail(0))).is_none());
    assert!(send_mail_rejection(0, &Some(mail(0))).is_some());
    let untitled = Mail { title: String::new(), ..mail(0) };
    assert_eq!(send_mail_rejection(1, &Some(untitled)).unwrap().message, "invalid mail request");
    let long = Mail { title: "\u{e9}".repeat(65), ..mail(0) };
    assert!(send_mail_rejection(1, &Some(long)).is_some());
    let bad_item = Mail { attachments: vec![Item { item_id: 1, count: 0, change: 0 }], ..mail(0) };
    assert!(send_mail_rejection(1, &Some(bad_item)).is_some());
}

#[test]
fn mail_routes_need_positive_ids() {
    assert_eq!(player_gid(5, 6), Some(5));
    assert_eq!(player_gid(5, 0), None);
    assert_eq!(player_gid(5, u64::MAX), None);
}

#[test]
fn cache_contract_is_large_sliding_and_batched() {
    assert_eq!(PLAYER_CACHE_CAPACITY, 500_000);
    assert_eq!(
        std::time::Duration::from_secs(PLAYER_CACHE_TTL_SECS),
        std::time::Duration::from_secs(24 * 60 * 60)
    );
    assert!(PLAYER_CACHE_SLIDING);
    assert_eq!(PLAYER_CACHE_SHARDS, 128);
    assert_eq!(PLAYER_SAVE_BATCH_SIZE, 1_000);
}

#[test]
fn a_claim_grants_its_attachments_at_the_owning_logic() {
    let (mut flow, action) = ClaimFlow::begin(7, 1, vec![1, 2]);
    assert!(matches!(action, ClaimAction::Claim));
    let items = vec![Item { item_id: 5, count: 1, change: 0 }];
    assert!(matches!(flow.step(ClaimEvent::Claimed(Ok(Ok(items.clone())))), ClaimAction::LoadOnline));
    assert!(matches!(flow.step(ClaimEvent::OnlineLoaded(Ok(Some(3)))), ClaimAction::Grant { logic_id: 3 }));
    let granted = vec![Item { item_id: 5, count: 4, change: 1 }];
    match flow.step(ClaimEvent::Granted(Some((Some(Status::ok()), granted.clone())))) {
        ClaimAction::Answer(answer) => {
            assert_eq!(answer.status.code, StatusCode::Success);
            assert_eq!(answer.mail_ids, vec![1, 2]);
            assert_eq!(answer.items, granted);
        }
        other => panic!("unexpected action {other:?}"),
    }
}

#[test]
fn a_claim_without_attachments_or_owner_ends_early() {
    let (mut empty, _) = ClaimFlow::begin(7, 1, vec![1]);
    match empty.step(ClaimEvent::Claimed(Ok(Ok(Vec::new())))) {
        ClaimAction::Answer(answer) => {
            assert_eq!(answer.status.code, StatusCode::Success);
            assert_eq!(answer.mail_ids, vec![1]);
        }
        other => panic!("unexpected action {other:?}"),
    }
    let (mut orphan, _) = ClaimFlow::begin(7, 1, vec![1]);
    orphan.step(ClaimEvent::Claimed(Ok(Ok(vec![Item { item_id: 5, count: 1, change: 0 }]))));
    match orphan.step(ClaimEvent::OnlineLoaded(Ok(Some(0)))) {
        ClaimAction::Answer(answer) => assert_eq!(answer.status.message, "Logic ownership unavailable"),
        other => panic!("unexpected action {other:?}"),
    }
    let (_, missing) = ClaimFlow::begin(0, 1, vec![1]);
    match missing {
        ClaimAction::Answer(answer) => assert_eq!(answer.status.message, "missing player route"),
        other => panic!("unexpected action {other:?}"),
    }
    let (_, invalid) = ClaimFlow::begin(7, 1, vec![1, 1]);
    match invalid {
        ClaimAction::Answer(answer) => assert_eq!(answer.status.message, "invalid mail ids"),
        other => panic!("unexpected action {other:?}"),
    }
}

#[test]
fn send_outcome_passes_results_through_and_maps_missing_data() {
    let stored = send_outcome(Ok(Ok(mail(5)))).unwrap();
    assert_eq!(stored.mail_id, 5);
    let refused = send_outcome(Ok(Err(Status::error(StatusCode::InvalidArgument, "bad"))));
    let err = refused.unwrap_err();
    assert_eq!(err.code, StatusCode::InvalidArgument);
    assert_eq!(err.message, "bad");
    let missing = send_outcome(Err(())).unwrap_err();
    assert_eq!(missing.code, StatusCode::Internal);
    assert_eq!(missing.message, "Public player data unavailable");
}

#[test]
fn push_target_needs_a_gate_and_a_session() {
    assert_eq!(push_target(Some((3, 77))), Some(3));
    assert_eq!(push_target(Some((0, 77))), None);
    assert_eq!(push_target(Some((3, 0))), None);
    assert_eq!(push_target(None), None);
}
