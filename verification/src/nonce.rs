//! Per-sender monotonic nonce allocation.
//!
//! Counters live in a concurrent map so that distinct senders do not contend;
//! the map is reached only through the trusted wrappers below, and all
//! allocation logic on top of them is verified.

use vstd::prelude::*;

verus! {

#[verifier::external_type_specification]
#[verifier::external_body]
#[verifier::reject_recursive_types(K)]
#[verifier::reject_recursive_types(V)]
#[verifier::reject_recursive_types(S)]
pub struct ExDashMap<K, V, S>(dashmap::DashMap<K, V, S>);

/// The sender-to-counter association held by a `DashMap`, keyed by the
/// sender's 20 address bytes.
pub uninterp spec fn dash_contents(t: dashmap::DashMap<[u8; 20], u64>) -> Map<Seq<u8>, u64>;

/// Relies on dashmap::DashMap::get: returns the value stored under the key,
/// or nothing when the key is absent.
#[verifier::external_body]
fn dash_get(t: &dashmap::DashMap<[u8; 20], u64>, key: &[u8; 20]) -> (r: Option<u64>)
    ensures
        r == (if dash_contents(*t).contains_key(key@) {
            Some(dash_contents(*t)[key@])
        } else {
            None::<u64>
        }),
{
    match t.get(key) {
        Some(entry) => Some(*entry),
        None => None,
    }
}

/// Relies on dashmap::DashMap::insert: stores the value under the key,
/// replacing any earlier entry for the same key.
#[verifier::external_body]
fn dash_insert(t: &mut dashmap::DashMap<[u8; 20], u64>, key: [u8; 20], value: u64)
    ensures
        dash_contents(*final(t)) == dash_contents(*old(t)).insert(key@, value),
{
    t.insert(key, value);
}

/// The empty counter table.
pub open spec fn no_counters() -> Map<Seq<u8>, u64> {
    Map::empty()
}

/// The counter a map holds for a sender: the stored value, or zero for a
/// sender never seen.
pub open spec fn counter_in(m: Map<Seq<u8>, u64>, address: Seq<u8>) -> u64 {
    if m.contains_key(address) {
        m[address]
    } else {
        0
    }
}

/// The counter value after one allocation bump; the counter wraps at the
/// 64-bit boundary.
pub open spec fn bumped(n: u64) -> u64 {
    if n == u64::MAX {
        0
    } else {
        (n + 1) as u64
    }
}

/// A mapping from 20-byte sender to a monotonically nondecreasing 64-bit
/// counter. `next_nonce` hands out the current counter and bumps it.
pub struct NonceManager {
    table: dashmap::DashMap<[u8; 20], u64>,
}

impl View for NonceManager {
    type V = Map<Seq<u8>, u64>;

    /// The per-sender counters the allocator currently holds.
    closed spec fn view(&self) -> Map<Seq<u8>, u64> {
        dash_contents(self.table)
    }
}

impl NonceManager {
    /// The counter for one sender, zero when the sender is unseen.
    pub open spec fn counter_of(&self, address: Seq<u8>) -> u64 {
        counter_in(self@, address)
    }

    /// Relies on dashmap::DashMap::new: a freshly created map holds no
    /// entries.
    #[verifier::external_body]
    pub fn new() -> (r: NonceManager)
        ensures
            r@ == no_counters(),
    {
        NonceManager { table: dashmap::DashMap::new() }
    }

    /// Returns the sender's current counter and bumps it: an unseen sender
    /// receives 0 and is left at 1.
    pub fn next_nonce(&mut self, address: &[u8; 20]) -> (nonce: u64)
        ensures
            nonce == old(self).counter_of(address@),
            final(self)@ == old(self)@.insert(address@, bumped(nonce)),
    {
        let cur: u64 = match dash_get(&self.table, address) {
            Some(v) => v,
            None => 0,
        };
        let next = cur.wrapping_add(1);
        dash_insert(&mut self.table, *address, next);
        cur
    }

    /// Reads the sender's counter without changing it.
    pub fn peek_nonce(&self, address: &[u8; 20]) -> (nonce: u64)
        ensures
            nonce == self.counter_of(address@),
    {
        match dash_get(&self.table, address) {
            Some(v) => v,
            None => 0,
        }
    }

    /// Forces the sender's counter to an externally supplied absolute value,
    /// as on startup sync or after drift feedback from the network.
    pub fn update_nonce(&mut self, address: [u8; 20], new_nonce: u64)
        ensures
            final(self)@ == old(self)@.insert(address@, new_nonce),
    {
        dash_insert(&mut self.table, address, new_nonce);
    }
}

/// The counters and handed-out nonces after a run of `k` successive
/// `next_nonce` allocations for one sender, starting from map `m`.
pub open spec fn nonce_run(m: Map<Seq<u8>, u64>, address: Seq<u8>, k: nat) -> (Map<
    Seq<u8>,
    u64,
>, Seq<u64>)
    decreases k,
{
    if k == 0 {
        (m, Seq::empty())
    } else {
        let (m1, vs) = nonce_run(m, address, (k - 1) as nat);
        let cur = counter_in(m1, address);
        (m1.insert(address, bumped(cur)), vs.push(cur))
    }
}

/// Nonce monotonicity: as long as the counter does not wrap, a run of `k`
/// successive allocations for one sender yields the consecutive nonces
/// `start, start + 1, ..., start + k - 1` — pairwise distinct — and leaves
/// the counter at `start + k`.
pub proof fn lemma_nonce_monotonicity(m: Map<Seq<u8>, u64>, address: Seq<u8>, k: nat)
    requires
        counter_in(m, address) + k <= u64::MAX,
    ensures
        nonce_run(m, address, k).1.len() == k,
        forall|i: int|
            0 <= i < k ==> nonce_run(m, address, k).1[i] == counter_in(m, address) + i,
        counter_in(nonce_run(m, address, k).0, address) == counter_in(m, address) + k,
        forall|i: int, j: int|
            0 <= i < j < k ==> nonce_run(m, address, k).1[i] != nonce_run(m, address, k).1[j],
    decreases k,
{
    if k > 0 {
        lemma_nonce_monotonicity(m, address, (k - 1) as nat);
    }
}

} // verus!
