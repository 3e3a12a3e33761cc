use xkk_server::player::PlayerProfile;
use xkk_server::query::{
    gamer_info_answer, invalid_gamer_ids, profiles_in_request_order, valid_gamer_ids,
    LoadFailure, MAX_GAMER_IDS,
};
use xkk_server::status::StatusCode;

fn profile(gid: i64, name: &str) -> PlayerProfile {
    PlayerProfile { gid, name: name.to_string(), level: 1, icon: 0, exp: 0 }
}

#[test]
fn gamer_ids_are_positive_unique_and_bounded() {
    assert_eq!(valid_gamer_ids(vec![2, 1]), Some(vec![2, 1]));
    assert!(valid_gamer_ids(Vec::new()).is_none());
    assert!(valid_gamer_ids(vec![1, 1]).is_none());
    assert!(valid_gamer_ids(vec![0]).is_none());
    assert!(valid_gamer_ids(vec![1; MAX_GAMER_IDS + 1]).is_none());
}

#[test]
fn profiles_follow_the_request_order() {
    let players = vec![
        (1, Some(profile(1, "one"))),
        (3, None),
        (2, Some(profile(2, "two"))),
        (1, Some(profile(1, "uno"))),
    ];
    let found = profiles_in_request_order(&vec![2, 3, 1, 4], players);
    let names: Vec<&str> = found.iter().map(|p| p.name.as_str()).collect();
    assert_eq!(names, vec!["two", "uno"]);
}

#[test]
fn gamer_info_answer_orders_found_profiles() {
    let loaded = Ok(vec![(1, Some(profile(1, "one"))), (2, Some(profile(2, "two")))]);
    let answer = gamer_info_answer(&vec![2, 1, 9], loaded);
    assert_eq!(answer.status.code, StatusCode::Success);
    let names: Vec<&str> = answer.players.iter().map(|p| p.name.as_str()).collect();
    assert_eq!(names, vec!["two", "one"]);
}

#[test]
fn gamer_info_answer_reports_each_load_failure() {
    let load = gamer_info_answer(&vec![1], Err(LoadFailure::Load));
    assert_eq!(load.status.code, StatusCode::Internal);
    assert_eq!(load.status.message, "player load failed");
    assert!(load.players.is_empty());
    let decode = gamer_info_answer(&vec![1], Err(LoadFailure::Decode));
    assert_eq!(decode.status.code, StatusCode::Internal);
    assert_eq!(decode.status.message, "player decode failed");
    assert!(decode.players.is_empty());
}

#[test]
fn invalid_gamer_ids_is_an_invalid_argument() {
    let answer = invalid_gamer_ids();
    assert_eq!(answer.status.code, StatusCode::InvalidArgument);
    assert_eq!(answer.status.message, "invalid gamer ids");
    assert!(answer.players.is_empty());
}
