//! Following the configuration file.
//!
//! The caller subscribes to changes of the configuration file and reports
//! each one to a `WatchFetcher`, which says what to do about it: read the
//! file again and run a pass, empty the store, or nothing.

use crate::encryption::EncryptionMethod;
use crate::error::FetchError;
use crate::fetcher::{
    compatible, open_value, stored_value, Fetcher, NotifyMethod, ResponseMethod,
};
use crate::package::Mode;
use crate::store::{StoreOp, Write};
use crate::traits::{Entry, EntryValue};
use vstd::prelude::*;

verus! {

/// What happened to the configuration file.
#[derive(Debug, Copy, Clone, PartialEq, Eq, Structural)]
pub enum WatchEvent {
    /// It was written to.
    Modify,
    /// It was removed.
    Remove,
    /// Anything else.
    Other,
}

/// What the subscription to changes delivers.
#[derive(Debug, Copy, Clone, PartialEq, Eq, Structural)]
pub enum WatchSignal {
    /// Something happened to the configuration file.
    Event(WatchEvent),
    /// The subscription reports an error.
    Error,
    /// The subscription has ended.
    Closed,
}

/// What to do about a signal.
#[derive(Debug, Copy, Clone, PartialEq, Eq, Structural)]
pub enum WatchAction {
    /// Read the configuration again, hand the entries to `reload`, and run
    /// a pass with a task for each entry.
    Refetch,
    /// Empty the store.
    Clear,
    /// Nothing.
    Ignore,
    /// Log the error and go on.
    Report,
    /// Stop following the file.
    Stop,
}

/// Whether changes are being followed.
#[derive(Debug, Copy, Clone, PartialEq, Eq, Structural)]
pub enum WatchState {
    /// Changes are not followed.
    Idle,
    /// Changes are followed.
    Watching,
}

/// What a change of the configuration file leads to: a modification leads
/// to a new pass, a removal empties the store, anything else is passed
/// over.
pub open spec fn action_for(event: WatchEvent) -> WatchAction {
    match event {
        WatchEvent::Modify => WatchAction::Refetch,
        WatchEvent::Remove => WatchAction::Clear,
        WatchEvent::Other => WatchAction::Ignore,
    }
}

/// The state after a signal, and what to do about the signal. While the
/// file is followed, an event leads to the action for it and an error is
/// reported, and the file is followed on; only the end of the subscription
/// ends the following. While the file is not followed, signals are passed
/// over.
pub open spec fn step(state: WatchState, signal: WatchSignal) -> (WatchState, WatchAction) {
    match state {
        WatchState::Idle => (WatchState::Idle, WatchAction::Ignore),
        WatchState::Watching => match signal {
            WatchSignal::Event(event) => (WatchState::Watching, action_for(event)),
            WatchSignal::Error => (WatchState::Watching, WatchAction::Report),
            WatchSignal::Closed => (WatchState::Idle, WatchAction::Stop),
        },
    }
}

/// A coordinator that follows its configuration file.
#[derive(Debug, Clone)]
pub struct WatchFetcher<E: Entry> {
    fetcher: Fetcher<E>,
    state: WatchState,
}

impl<E: Entry> WatchFetcher<E> {
    /// The coordinator that runs the passes.
    pub closed spec fn fetcher_of(&self) -> Fetcher<E> {
        self.fetcher
    }

    /// Whether changes are being followed.
    pub closed spec fn state_of(&self) -> WatchState {
        self.state
    }

    /// A coordinator for `entries` that does not follow its configuration
    /// file yet.
    pub fn new(entries: Vec<E>, config_type: Mode) -> (out: Self)
        ensures
            out.state_of() == WatchState::Idle,
            out.fetcher_of().entries_of() == entries@,
            out.fetcher_of().config_type_of() == config_type,
            out.fetcher_of().response_method_of() == ResponseMethod::Bytes,
            out.fetcher_of().notify_method_of() == NotifyMethod::Log,
            out.fetcher_of().cipher_of() is None,
    {
        WatchFetcher { fetcher: Fetcher::new(entries, config_type), state: WatchState::Idle }
    }

    /// The coordinator that runs the passes.
    pub fn fetcher(&self) -> (out: &Fetcher<E>)
        ensures
            *out == self.fetcher_of(),
    {
        &self.fetcher
    }

    /// Whether changes are being followed.
    pub fn state(&self) -> (out: WatchState)
        ensures
            out == self.state_of(),
    {
        self.state
    }

    /// Sets the cipher that records are sealed with from now on.
    pub fn set_encryption_method(&mut self, encryption_method: EncryptionMethod)
        ensures
            final(self).state_of() == old(self).state_of(),
            final(self).fetcher_of().cipher_of() == Some(encryption_method),
            final(self).fetcher_of().entries_of() == old(self).fetcher_of().entries_of(),
            final(self).fetcher_of().config_type_of() == old(self).fetcher_of().config_type_of(),
            final(self).fetcher_of().response_method_of() == old(
                self,
            ).fetcher_of().response_method_of(),
            final(self).fetcher_of().notify_method_of() == old(self).fetcher_of().notify_method_of(),
    {
        self.fetcher.set_encryption_method(encryption_method);
    }

    /// Sets how bodies are read.
    pub fn set_response_method(&mut self, response_method: ResponseMethod)
        ensures
            final(self).state_of() == old(self).state_of(),
            final(self).fetcher_of().response_method_of() == response_method,
            final(self).fetcher_of().entries_of() == old(self).fetcher_of().entries_of(),
            final(self).fetcher_of().config_type_of() == old(self).fetcher_of().config_type_of(),
            final(self).fetcher_of().notify_method_of() == old(self).fetcher_of().notify_method_of(),
            final(self).fetcher_of().cipher_of() == old(self).fetcher_of().cipher_of(),
    {
        self.fetcher.set_response_method(response_method);
    }

    /// Sets how the user is told of progress. A progress bar can only be
    /// asked for once bodies are read in pieces.
    pub fn set_notify_method(&mut self, notify_method: NotifyMethod)
        requires
            compatible(old(self).fetcher_of().response_method_of(), notify_method),
        ensures
            final(self).state_of() == old(self).state_of(),
            final(self).fetcher_of().notify_method_of() == notify_method,
            final(self).fetcher_of().entries_of() == old(self).fetcher_of().entries_of(),
            final(self).fetcher_of().config_type_of() == old(self).fetcher_of().config_type_of(),
            final(self).fetcher_of().response_method_of() == old(
                self,
            ).fetcher_of().response_method_of(),
            final(self).fetcher_of().cipher_of() == old(self).fetcher_of().cipher_of(),
    {
        self.fetcher.set_notify_method(notify_method);
    }

    /// Starts to follow the configuration file. From here on progress is
    /// logged.
    pub fn watching(&mut self)
        ensures
            final(self).state_of() == WatchState::Watching,
            final(self).fetcher_of().notify_method_of() == NotifyMethod::Log,
            final(self).fetcher_of().entries_of() == old(self).fetcher_of().entries_of(),
            final(self).fetcher_of().config_type_of() == old(self).fetcher_of().config_type_of(),
            final(self).fetcher_of().response_method_of() == old(
                self,
            ).fetcher_of().response_method_of(),
            final(self).fetcher_of().cipher_of() == old(self).fetcher_of().cipher_of(),
    {
        self.fetcher.set_notify_method(NotifyMethod::Log);
        self.state = WatchState::Watching;
    }

    /// What to do about a change of the configuration file. The file is
    /// followed on, whatever happened to it.
    pub fn handle_event(&self, event: WatchEvent) -> (action: WatchAction)
        ensures
            action == action_for(event),
    {
        match event {
            WatchEvent::Modify => WatchAction::Refetch,
            WatchEvent::Remove => WatchAction::Clear,
            WatchEvent::Other => WatchAction::Ignore,
        }
    }

    /// Takes the next signal of the subscription and says what to do about
    /// it.
    pub fn next(&mut self, signal: WatchSignal) -> (action: WatchAction)
        ensures
            (final(self).state_of(), action) == step(old(self).state_of(), signal),
            final(self).fetcher_of() == old(self).fetcher_of(),
    {
        match self.state {
            WatchState::Idle => WatchAction::Ignore,
            WatchState::Watching => match signal {
                WatchSignal::Event(event) => self.handle_event(event),
                WatchSignal::Error => WatchAction::Report,
                WatchSignal::Closed => {
                    self.state = WatchState::Idle;
                    WatchAction::Stop
                },
            },
        }
    }

    /// Takes the entries that the configuration file holds now.
    pub fn reload(&mut self, entries: Vec<E>)
        ensures
            final(self).state_of() == old(self).state_of(),
            final(self).fetcher_of().entries_of() == entries@,
            final(self).fetcher_of().config_type_of() == old(self).fetcher_of().config_type_of(),
            final(self).fetcher_of().response_method_of() == old(
                self,
            ).fetcher_of().response_method_of(),
            final(self).fetcher_of().notify_method_of() == old(self).fetcher_of().notify_method_of(),
            final(self).fetcher_of().cipher_of() == old(self).fetcher_of().cipher_of(),
    {
        self.fetcher.set_entries(entries);
    }

    /// The operation that empties the store.
    pub fn clear(&self) -> (op: StoreOp)
        ensures
            op@ == Write::Clear,
    {
        StoreOp::Clear
    }

    /// The values of the store, when `stored` is what the store holds, in
    /// the order given. Each record is opened under its own key. The first
    /// record that cannot be read fails the call.
    pub fn get_all<V: EntryValue>(&self, stored: &Vec<(Vec<u8>, Vec<u8>)>) -> (out: Result<
        Vec<V>,
        FetchError,
    >)
        ensures
            out matches Ok(list) ==> list@.len() == stored@.len() && forall|i: int|
                0 <= i < stored@.len() ==> stored_value::<V>(
                    self.fetcher_of().cipher_of(),
                    stored@[i].0@,
                    stored@[i].1@,
                ) == Ok::<V::V, FetchError>(#[trigger] list@[i]@),
            out matches Err(e) ==> exists|i: int|
                0 <= i < stored@.len() && #[trigger] stored_value::<V>(
                    self.fetcher_of().cipher_of(),
                    stored@[i].0@,
                    stored@[i].1@,
                ) == Err::<V::V, FetchError>(e) && forall|j: int|
                    0 <= j < i ==> (#[trigger] stored_value::<V>(
                        self.fetcher_of().cipher_of(),
                        stored@[j].0@,
                        stored@[j].1@,
                    )) is Ok,
    {
        let cipher = self.fetcher.encryption_method();
        let mut list: Vec<V> = Vec::new();
        let mut i: usize = 0;
        while i < stored.len()
            invariant
                i <= stored@.len(),
                list@.len() == i,
                cipher == self.fetcher_of().cipher_of(),
                forall|j: int|
                    0 <= j < i ==> (#[trigger] stored_value::<V>(
                        cipher,
                        stored@[j].0@,
                        stored@[j].1@,
                    )) is Ok,
                forall|j: int|
                    0 <= j < i ==> stored_value::<V>(cipher, stored@[j].0@, stored@[j].1@) == Ok::<
                        V::V,
                        FetchError,
                    >(#[trigger] list@[j]@),
            decreases stored@.len() - i,
        {
            match open_value::<V>(&cipher, stored[i].0.as_slice(), stored[i].1.as_slice()) {
                Ok(value) => {
                    list.push(value);
                },
                Err(e) => {
                    assert(stored_value::<V>(cipher, stored@[i as int].0@, stored@[i as int].1@)
                        == Err::<V::V, FetchError>(e));
                    return Err(e);
                },
            }
            i = i + 1;
        }
        Ok(list)
    }
}

} // verus!
