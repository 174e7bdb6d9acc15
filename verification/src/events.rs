//! The small decisions of the dashboard's event and message handlers: who a
//! message is for, what a sync request changes, what the timer does.
use vstd::prelude::*;
use crate::dashboard::{App, owns, same_but_agents};
use crate::text::{chars_of, decimal, decimal_chars, equal_chars, parse_u32, u32_parse};

verus! {

/// Whether a message's `target_client_id` argument names client `client_id`.
pub fn addressed_to(target_client_id: Option<&str>, client_id: u16) -> (r: bool)
    ensures
        r == match target_client_id {
            Some(t) => t@ == decimal(client_id as nat),
            None => false,
        },
{
    match target_client_id {
        Some(t) => equal_chars(&chars_of(t), &decimal_chars(client_id as u64)),
        None => false,
    }
}

impl App {
    /// Takes the status source named by a show-dashboard request, where its
    /// `status_source` argument reads as a plugin id; returns it.
    pub fn take_status_source(&mut self, status_source: Option<&str>) -> (r: Option<u32>)
        ensures
            r == match status_source {
                Some(s) => u32_parse(s@),
                None => None,
            },
            final(self).status_source == match r {
                Some(id) => Some(id),
                None => old(self).status_source,
            },
            same_but_agents(App { status_source: final(self).status_source, ..*old(self) }, *final(self)),
            final(self).agents == old(self).agents,
    {
        let parsed = match status_source {
            Some(s) => parse_u32(s),
            None => None,
        };
        match parsed {
            Some(id) => {
                self.status_source = Some(id);
            },
            None => {},
        }
        parsed
    }

    /// A sync request from `source` (a plugin, where it came from one): the
    /// status owner takes the sender as an observer that has not yet had the
    /// current snapshot, and answers (true); others ignore it (false).
    pub fn accept_sync_request(&mut self, source: Option<u32>) -> (r: bool)
        ensures
            r == owns(*old(self)),
            (r && source is Some) ==> final(self).status_observers@ == old(self).status_observers@.insert(
                source->0,
            ) && final(self).published_peers@ == old(self).published_peers@.remove(source->0),
            !(r && source is Some) ==> final(self).status_observers == old(self).status_observers
                && final(self).published_peers == old(self).published_peers,
            same_but_agents(
                App {
                    status_observers: final(self).status_observers,
                    published_peers: final(self).published_peers,
                    ..*old(self)
                },
                *final(self),
            ),
            final(self).agents == old(self).agents,
    {
        if !self.owns_status() {
            return false;
        }
        match source {
            Some(id) => {
                self.status_observers.insert(id);
                self.published_peers.remove(id);
            },
            None => {},
        }
        true
    }

    /// Whether the session is still to be looked up: no status source or no
    /// plugin URL is known yet.
    pub fn needs_session(&self) -> (r: bool)
        ensures
            r == (self.status_source is None || self.plugin_url is None),
    {
        self.status_source.is_none() || self.plugin_url.is_none()
    }

    /// On a timer: takes the pending session lookup, if one was due.
    pub fn take_bootstrap(&mut self) -> (r: bool)
        ensures
            r == old(self).bootstrap_pending,
            !final(self).bootstrap_pending,
            same_but_agents(App { bootstrap_pending: false, ..*old(self) }, *final(self)),
            final(self).agents == old(self).agents,
    {
        let due = self.bootstrap_pending;
        self.bootstrap_pending = false;
        due
    }

    /// After a session lookup: where the session is still unknown, another
    /// lookup is due (true: start the timer again).
    pub fn retry_bootstrap(&mut self) -> (r: bool)
        ensures
            r == (old(self).status_source is None || old(self).plugin_url is None),
            final(self).bootstrap_pending == (r || old(self).bootstrap_pending),
            same_but_agents(App { bootstrap_pending: final(self).bootstrap_pending, ..*old(self) }, *final(self)),
            final(self).agents == old(self).agents,
    {
        let again = self.needs_session();
        if again {
            self.bootstrap_pending = true;
        }
        again
    }

    /// On a timer: takes the pending checkpoint, if one was due (true: save
    /// the agents now).
    pub fn take_checkpoint(&mut self) -> (r: bool)
        ensures
            r == old(self).checkpoint_pending,
            !final(self).checkpoint_pending,
            same_but_agents(App { checkpoint_pending: false, ..*old(self) }, *final(self)),
            final(self).agents == old(self).agents,
    {
        let due = self.checkpoint_pending;
        self.checkpoint_pending = false;
        due
    }

    /// Whether an event or message that changed something redraws the
    /// dashboard: only while it is shown.
    pub fn redraws(&self, changed: bool) -> (r: bool)
        ensures
            r == (changed && self.dashboard_visible),
    {
        changed && self.dashboard_visible
    }
}

} // verus!
