use std::sync::{Arc, Mutex};
use xkk_server::persistence::SavePlayer;

#[test]
fn a_save_handle_reads_and_changes_the_shared_player() {
    let state = Arc::new(Mutex::new(5i64));
    let player = SavePlayer::new(7, state.clone());
    assert_eq!(player.gid(), 7);
    assert_eq!(player.with(|p| *p * 2), Some(10));
    assert_eq!(player.with_mut(|p| { *p = 6; *p }), Some(6));
    assert_eq!(*state.lock().unwrap(), 6);
}

#[test]
fn a_busy_lock_is_not_waited_for() {
    let state = Arc::new(Mutex::new(1i64));
    let outer = SavePlayer::new(7, state.clone());
    let inner = SavePlayer::new(7, state);
    assert_eq!(outer.with(|_| inner.with(|p| *p)), Some(None));
    assert_eq!(outer.with_mut(|_| inner.with_mut(|p| *p)), Some(None));
}
