//! The retry and online/offline bookkeeping that every device reader runs
//! through on each poll: open the handle when there is none, initialise the
//! device when it needs it, run the exchange, retry up to `MAX_RETRIES`
//! times, and report the transitions between online and offline once each.
//!
//! The reader performs each action and reports what happened; the link
//! decides what comes next.

use vstd::prelude::*;
use crate::config::MAX_RETRIES;

verus! {

/// What the reader is to do next.
#[derive(Clone, Copy, Debug, PartialEq, Eq)]
pub enum LinkAction {
    /// Open the device handle. When `backoff`, wait `RETRY_DELAY_MS` first.
    Open { backoff: bool },
    /// Send the device its initialisation command. When `backoff`, wait first.
    Initialize { backoff: bool },
    /// Run one exchange on the open handle. When `backoff`, wait first.
    Exchange { backoff: bool },
    /// The poll succeeded; `came_online` when the device was offline before.
    Deliver { came_online: bool },
    /// Every attempt failed; `went_offline` when the device was online before.
    GiveUp { went_offline: bool },
}

/// What happened when the reader performed an action.
#[derive(Clone, Copy, Debug, PartialEq, Eq)]
pub enum LinkEvent {
    Opened,
    OpenFailed,
    Initialized,
    InitFailed,
    /// The exchange failed; `reconnect` when the handle is unusable and must
    /// be dropped.
    ExchangeFailed { reconnect: bool },
    ExchangeSucceeded,
}

/// Connection and health state of one device.
pub struct Link {
    needs_init: bool,
    connected: bool,
    initialized: bool,
    online: bool,
    attempt: u32,
}

/// The first action of an attempt in the given state.
pub open spec fn first_action(connected: bool, must_init: bool, backoff: bool) -> LinkAction {
    if !connected {
        LinkAction::Open { backoff }
    } else if must_init {
        LinkAction::Initialize { backoff }
    } else {
        LinkAction::Exchange { backoff }
    }
}

impl Link {
    #[verifier::type_invariant]
    spec fn attempts_bounded(&self) -> bool {
        self.attempt < MAX_RETRIES
    }

    /// Whether the device must be initialised after each (re)open.
    pub closed spec fn spec_needs_init(&self) -> bool {
        self.needs_init
    }

    /// Whether the reader holds an open handle.
    pub closed spec fn spec_connected(&self) -> bool {
        self.connected
    }

    /// Whether the device has been initialised since the handle was opened.
    pub closed spec fn spec_initialized(&self) -> bool {
        self.initialized
    }

    /// Whether the last poll succeeded.
    pub closed spec fn spec_online(&self) -> bool {
        self.online
    }

    /// Zero-based number of the current attempt.
    pub closed spec fn spec_attempt(&self) -> nat {
        self.attempt as nat
    }

    /// Whether the next exchange needs an initialisation before it.
    pub open spec fn must_init(&self) -> bool {
        self.spec_needs_init() && !self.spec_initialized()
    }

    /// A link that has not been opened yet and counts as offline.
    pub fn new(needs_init: bool) -> (l: Self)
        ensures
            l.spec_needs_init() == needs_init,
            !l.spec_connected(),
            !l.spec_initialized(),
            !l.spec_online(),
            l.spec_attempt() == 0,
    {
        Link { needs_init, connected: false, initialized: false, online: false, attempt: 0 }
    }

    /// Whether the device answered the last poll.
    pub fn is_online(&self) -> (o: bool)
        ensures
            o == self.spec_online(),
    {
        self.online
    }

    /// One-based number of the current attempt, for the log.
    pub fn attempt_number(&self) -> (n: u32)
        ensures
            n == self.spec_attempt() + 1,
    {
        proof {
            use_type_invariant(self);
        }
        self.attempt + 1
    }

    /// Begins a poll: the first action of the first attempt.
    pub fn start(&mut self) -> (a: LinkAction)
        ensures
            final(self).spec_attempt() == 0,
            final(self).spec_needs_init() == old(self).spec_needs_init(),
            final(self).spec_connected() == old(self).spec_connected(),
            final(self).spec_initialized() == old(self).spec_initialized(),
            final(self).spec_online() == old(self).spec_online(),
            a == first_action(final(self).spec_connected(), final(self).must_init(), false),
    {
        self.attempt = 0;
        self.first(false)
    }

    fn first(&self, backoff: bool) -> (a: LinkAction)
        ensures
            a == first_action(self.spec_connected(), self.must_init(), backoff),
    {
        if !self.connected {
            LinkAction::Open { backoff }
        } else if self.needs_init && !self.initialized {
            LinkAction::Initialize { backoff }
        } else {
            LinkAction::Exchange { backoff }
        }
    }

    /// Ends the current attempt as failed: starts the next one, or gives up
    /// after `MAX_RETRIES` attempts.
    fn fail_attempt(&mut self) -> (a: LinkAction)
        ensures
            final(self).spec_needs_init() == old(self).spec_needs_init(),
            final(self).spec_connected() == old(self).spec_connected(),
            final(self).spec_initialized() == old(self).spec_initialized(),
            old(self).spec_attempt() + 1 >= MAX_RETRIES ==> {
                &&& a == LinkAction::GiveUp { went_offline: old(self).spec_online() }
                &&& !final(self).spec_online()
                &&& final(self).spec_attempt() == old(self).spec_attempt()
            },
            old(self).spec_attempt() + 1 < MAX_RETRIES ==> {
                &&& final(self).spec_attempt() == old(self).spec_attempt() + 1
                &&& final(self).spec_online() == old(self).spec_online()
                &&& a == first_action(final(self).spec_connected(), final(self).must_init(), true)
            },
    {
        proof {
            use_type_invariant(&*self);
        }
        if self.attempt + 1 >= MAX_RETRIES {
            let went_offline = self.online;
            self.online = false;
            LinkAction::GiveUp { went_offline }
        } else {
            self.attempt = self.attempt + 1;
            self.first(true)
        }
    }

    /// The next action after `event`, within a poll started by `start`.
    pub fn next(&mut self, event: LinkEvent) -> (a: LinkAction)
        ensures
            final(self).spec_needs_init() == old(self).spec_needs_init(),
            final(self).spec_attempt() < MAX_RETRIES,
            match event {
                LinkEvent::Opened => {
                    &&& final(self).spec_connected()
                    &&& !final(self).spec_initialized()
                    &&& final(self).spec_online() == old(self).spec_online()
                    &&& final(self).spec_attempt() == old(self).spec_attempt()
                    &&& a == first_action(true, final(self).must_init(), false)
                },
                LinkEvent::Initialized => {
                    &&& final(self).spec_connected() == old(self).spec_connected()
                    &&& final(self).spec_initialized()
                    &&& final(self).spec_online() == old(self).spec_online()
                    &&& final(self).spec_attempt() == old(self).spec_attempt()
                    &&& a == LinkAction::Exchange { backoff: false }
                },
                LinkEvent::ExchangeSucceeded => {
                    &&& final(self).spec_connected() == old(self).spec_connected()
                    &&& final(self).spec_initialized() == old(self).spec_initialized()
                    &&& final(self).spec_online()
                    &&& final(self).spec_attempt() == old(self).spec_attempt()
                    &&& a == LinkAction::Deliver { came_online: !old(self).spec_online() }
                },
                _ => {
                    // A failed attempt. The handle is dropped after a failed
                    // init, and after a failed exchange that asks for it.
                    let dropped = match event {
                        LinkEvent::InitFailed => true,
                        LinkEvent::ExchangeFailed { reconnect } => reconnect,
                        _ => false,
                    };
                    &&& final(self).spec_connected() == (old(self).spec_connected() && !dropped)
                    &&& final(self).spec_initialized() == (old(self).spec_initialized()
                        && !dropped)
                    &&& old(self).spec_attempt() + 1 >= MAX_RETRIES ==> {
                        &&& a == LinkAction::GiveUp { went_offline: old(self).spec_online() }
                        &&& !final(self).spec_online()
                    }
                    &&& old(self).spec_attempt() + 1 < MAX_RETRIES ==> {
                        &&& final(self).spec_attempt() == old(self).spec_attempt() + 1
                        &&& final(self).spec_online() == old(self).spec_online()
                        &&& a == first_action(
                            final(self).spec_connected(),
                            final(self).must_init(),
                            true,
                        )
                    }
                },
            },
    {
        proof {
            use_type_invariant(&*self);
        }
        match event {
            LinkEvent::Opened => {
                self.connected = true;
                self.initialized = false;
                self.first(false)
            },
            LinkEvent::Initialized => {
                self.initialized = true;
                LinkAction::Exchange { backoff: false }
            },
            LinkEvent::ExchangeSucceeded => {
                let came_online = !self.online;
                self.online = true;
                LinkAction::Deliver { came_online }
            },
            LinkEvent::OpenFailed => self.fail_attempt(),
            LinkEvent::InitFailed => {
                self.connected = false;
                self.initialized = false;
                self.fail_attempt()
            },
            LinkEvent::ExchangeFailed { reconnect } => {
                if reconnect {
                    self.connected = false;
                    self.initialized = false;
                }
                self.fail_attempt()
            },
        }
    }
}

} // verus!
