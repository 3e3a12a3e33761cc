//! What the Logic runtime needs from the players it serves and from the
//! storage that loads and saves them.

use std::sync::Arc;
use std::sync::Mutex;
use vstd::prelude::*;

verus! {

/// A player state the runtime can hold: it knows whether it has changes that
/// were not saved yet.
pub trait LogicState {
    fn is_dirty(&self) -> bool;
}

#[verifier::external_type_specification]
#[verifier::external_body]
#[verifier::reject_recursive_types(T)]
pub struct ExMutex<T: ?Sized>(Mutex<T>);

/// Runs `f` once on the value behind the lock, holding the lock meanwhile,
/// when the lock can be taken at once.
///
/// Calls `Mutex::try_lock`, which never blocks: it answers `None` when the
/// lock is held, by another thread or by this one, or was poisoned by a
/// panicking holder, and `f` does not run. What the value behind the lock
/// is, is not stated: a result is one that `f` may give for some value.
#[verifier::external_body]
fn locked_read<P, R, F: FnOnce(&P) -> R>(state: &Mutex<P>, f: F) -> (r: Option<R>)
    requires
        forall|p: &P| #[trigger] f.requires((p,)),
    ensures
        r matches Some(x) ==> exists|p: &P| #[trigger] f.ensures((p,), x),
{
    match state.try_lock() {
        Ok(guard) => Some(f(&guard)),
        Err(_) => None,
    }
}

/// Runs `f` once on the value behind the lock, which it may change, holding
/// the lock meanwhile, when the lock can be taken at once; the change stays
/// behind the lock.
///
/// Calls `Mutex::try_lock`, which never blocks: it answers `None` when the
/// lock is held, by another thread or by this one, or was poisoned by a
/// panicking holder, and `f` does not run. What the value behind the lock
/// is, before or after, is not stated: a result is one that `f` may give for
/// some value.
#[verifier::external_body]
fn locked_write<P, R, F: FnOnce(&mut P) -> R>(state: &Mutex<P>, f: F) -> (r: Option<R>)
    requires
        forall|p: &mut P| #[trigger] f.requires((p,)),
    ensures
        r matches Some(x) ==> exists|p: &mut P| #[trigger] f.ensures((p,), x),
{
    match state.try_lock() {
        Ok(mut guard) => Some(f(&mut guard)),
        Err(_) => None,
    }
}

/// A player handed to a saver: its id and shared access to its state.
#[verifier::reject_recursive_types(P)]
pub struct SavePlayer<P> {
    gid: i64,
    state: Arc<Mutex<P>>,
}

impl<P> SavePlayer<P> {
    pub fn new(gid: i64, state: Arc<Mutex<P>>) -> (r: Self)
        ensures
            r.gid() == gid,
    {
        SavePlayer { gid, state }
    }

    pub closed spec fn spec_gid(&self) -> i64 {
        self.gid
    }

    #[verifier::when_used_as_spec(spec_gid)]
    pub fn gid(&self) -> (r: i64)
        ensures
            r == self.spec_gid(),
    {
        self.gid
    }

    /// Runs `f` once on the player, holding its lock, when the lock is free;
    /// `None` (and `f` does not run) when the lock is held, by any thread, or
    /// poisoned. Which player value `f` sees is not stated: the player lives
    /// behind a shared lock that this library does not model.
    pub fn with<R, F: FnOnce(&P) -> R>(&self, f: F) -> (r: Option<R>)
        requires
            forall|p: &P| #[trigger] f.requires((p,)),
        ensures
            r matches Some(x) ==> exists|p: &P| #[trigger] f.ensures((p,), x),
    {
        locked_read(&*self.state, f)
    }

    /// Runs `f` once on the player, which it may change, holding its lock,
    /// when the lock is free; the change stays behind the shared lock. `None`
    /// (and `f` does not run) when the lock is held, by any thread, or
    /// poisoned. Which value `f` sees, and what the lock holds afterwards, is
    /// not stated (see [`SavePlayer::with`]).
    pub fn with_mut<R, F: FnOnce(&mut P) -> R>(&self, f: F) -> (r: Option<R>)
        requires
            forall|p: &mut P| #[trigger] f.requires((p,)),
        ensures
            r matches Some(x) ==> exists|p: &mut P| #[trigger] f.ensures((p,), x),
    {
        locked_write(&*self.state, f)
    }
}

/// How the runtime loads players and saves them: one by one, and, when a
/// batch saver is given, several at once.
pub struct Persistence<L, S, B> {
    pub loader: L,
    pub saver: S,
    pub batch_saver: Option<B>,
}

impl<L, S, B> Persistence<L, S, B> {
    /// Storage with a loader and a single-player saver, and no batch saver.
    pub fn new(loader: L, saver: S) -> (r: Self)
        ensures
            r.loader == loader,
            r.saver == saver,
            r.batch_saver is None,
    {
        Persistence { loader, saver, batch_saver: None }
    }

    /// The same storage, with a batch saver.
    pub fn with_batch_saver<B2>(self, saver: B2) -> (r: Persistence<L, S, B2>)
        ensures
            r.loader == self.loader,
            r.saver == self.saver,
            r.batch_saver == Some(saver),
    {
        Persistence { loader: self.loader, saver: self.saver, batch_saver: Some(saver) }
    }
}

} // verus!
