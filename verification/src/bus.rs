//! The artifact cache and event bus stubs: intentionally inert in-process
//! placeholders. The cache answers every read with a miss and accepts
//! writes without keeping them; the bus accepts publishes and hands out
//! subscriptions that never yield. Event delivery is best-effort relative
//! to storage by design, so a no-op bus is a legal bus.

use vstd::prelude::*;

verus! {

/// The inert artifact cache: every read is a miss, every write and purge
/// succeeds without effect.
pub struct InMemoryCache;

impl InMemoryCache {
    /// Every lookup is a cache miss, never an error.
    pub fn get(&self, tenant: u128, key: &str) -> (r: Result<Option<String>, ()>)
        ensures
            r == Ok::<Option<String>, ()>(None),
    {
        let _ = tenant;
        let _ = key;
        Ok(None)
    }

    /// Accept a value and drop it: this placeholder path never fails.
    pub fn set(&self, tenant: u128, key: &str, value: &str, ttl_sec: u64) -> (r: Result<(), ()>)
        ensures
            r is Ok,
    {
        let _ = (tenant, ttl_sec);
        let _ = (key, value);
        Ok(())
    }

    /// Nothing is cached, so there is nothing to purge; never an error.
    pub fn purge(&self, tenant: u128, key: &str) -> (r: Result<(), ()>)
        ensures
            r is Ok,
    {
        let _ = tenant;
        let _ = key;
        Ok(())
    }
}

impl Default for InMemoryCache {
    /// The inert cache; it holds no state.
    fn default() -> (r: Self)
        ensures
            r == (InMemoryCache {  }),
    {
        InMemoryCache {  }
    }
}

/// A subscription on the inert bus: it never yields a message.
pub struct BusSubscription;

impl BusSubscription {
    /// No message is ever pending on the inert bus.
    pub fn try_next(&mut self) -> (r: Result<Option<String>, ()>)
        ensures
            r == Ok::<Option<String>, ()>(None),
    {
        Ok(None)
    }
}

/// The inert event bus: publishes are accepted and dropped. Event delivery
/// is best-effort relative to storage, so dropping is within contract.
pub struct InMemoryBus;

impl InMemoryBus {
    /// Accept a payload for a topic and drop it; never an error.
    pub fn publish(&self, topic: &str, payload: &str) -> (r: Result<(), ()>)
        ensures
            r is Ok,
    {
        let _ = (topic, payload);
        Ok(())
    }

    /// A subscription that will never yield a message.
    pub fn subscribe(&self, topic: &str) -> (r: Result<BusSubscription, ()>)
        ensures
            r is Ok,
    {
        let _ = topic;
        Ok(BusSubscription)
    }
}

impl Default for InMemoryBus {
    /// The inert bus; it holds no state.
    fn default() -> (r: Self)
        ensures
            r == (InMemoryBus {  }),
    {
        InMemoryBus {  }
    }
}

} // verus!
