use vstd::prelude::*;

use crate::auth::{AuthGate, ServerConfig};
use crate::bus::EventBus;
use crate::relay::accept_inbound;
use crate::store::MessageStore;
use crate::types::{mview, MessageView, ReceivedMessage};

verus! {

/// Everything the node's request handlers share: the message store, the
/// event bus, the configuration, and the token issuer. Built once per
/// start and handed to the router — no process-wide state.
pub struct AppState {
    pub store: MessageStore,
    pub bus: EventBus,
    pub config: ServerConfig,
    pub auth: AuthGate,
}

impl AppState {
    pub open spec fn wf(self) -> bool {
        self.store.wf() && self.bus.wf() && self.config.wf()
    }

    pub fn new(config: ServerConfig) -> (r: AppState)
        requires
            config.wf(),
        ensures
            r.wf(),
            r.store.log_view().len() == 0,
            r.bus.events_view().len() == 0,
            r.config == config,
            r.auth.tokens@.len() == 0,
    {
        AppState {
            store: MessageStore::new(),
            bus: EventBus::new(),
            config,
            auth: AuthGate::new(),
        }
    }

    /// The one append step both relay paths share: the message goes
    /// into the store's log (and working set) and out on the event bus,
    /// in the same order for both. Returns the stored row's id.
    pub fn record_message(&mut self, message: ReceivedMessage) -> (id: u64)
        requires
            old(self).wf(),
            old(self).store.next_id < u64::MAX,
        ensures
            final(self).wf(),
            id == old(self).store.next_id,
            final(self).store.log_view() == old(self).store.log_view().push(mview(message)),
            final(self).bus.events_view() == old(self).bus.events_view().push(mview(message)),
            final(self).config == old(self).config,
            final(self).auth == old(self).auth,
    {
        let copy = message.duplicate();
        let id = self.store.save_message(message);
        self.bus.publish(copy);
        id
    }

    /// The receive path: an inbound message is normalized to this
    /// node's frame of reference — `is_self` recomputed against the
    /// local address — then stored and published.
    pub fn receive_message(&mut self, payload: ReceivedMessage, local_ip: &str) -> (id: u64)
        requires
            old(self).wf(),
            old(self).store.next_id < u64::MAX,
        ensures
            final(self).wf(),
            id == old(self).store.next_id,
            final(self).store.log_view() == old(self).store.log_view().push(
                MessageView { is_self: mview(payload).from == local_ip@, ..mview(payload) },
            ),
            final(self).bus.events_view() == old(self).bus.events_view().push(
                MessageView { is_self: mview(payload).from == local_ip@, ..mview(payload) },
            ),
            final(self).config == old(self).config,
            final(self).auth == old(self).auth,
    {
        let normalized = accept_inbound(payload, local_ip);
        proof {
            assert(mview(normalized) =~= (MessageView {
                is_self: mview(payload).from == local_ip@,
                ..mview(payload)
            }));
        }
        self.record_message(normalized)
    }
}

} // verus!
