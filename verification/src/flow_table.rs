//! What is known of the host names of TCP connections.
//!
//! The table keeps, for each connection, the host name that was read or how often
//! reading failed. It is a bounded cache with an idle timeout: an entry may be
//! dropped at any time, and a dropped one is simply read again.

use vstd::prelude::*;

use crate::net::IpAddr;
use crate::text::text_view;

verus! {

/// How many connections the table keeps unless told otherwise.
pub const DEFAULT_FLOW_TABLE_CAPACITY: u64 = 65_536;

/// How long an unused entry is kept unless told otherwise, in seconds.
pub const DEFAULT_TTI_SECONDS: u64 = 300;

/// The longest idle timeout, in seconds: a thousand years of 365 days.
pub const MAX_TTI_SECONDS: u64 = 31_536_000_000;

/// How often a host name is looked for in one connection.
pub const MAX_NO_DOMAIN_PARSE_ATTEMPTS: u8 = 3;

/// The endpoints of a TCP connection.
#[derive(Clone, Copy, Debug, PartialEq, Eq, Hash, Structural)]
pub struct FlowKey {
    pub local_ip: IpAddr,
    pub local_port: u16,
    pub peer_ip: IpAddr,
    pub peer_port: u16,
}

/// What is known of the host name of a connection.
#[derive(Debug, PartialEq, Eq)]
pub enum FlowEntry {
    /// The host name.
    Resolved(String),
    /// No host name was found in so many attempts.
    NoDomain { attempts: u8 },
}

/// What is known of the host name of a connection, as a mathematical value.
pub ghost enum FlowKnowledge {
    Resolved(Seq<char>),
    NoDomain { attempts: u8 },
}

impl View for FlowEntry {
    type V = FlowKnowledge;

    open spec fn view(&self) -> FlowKnowledge {
        match *self {
            FlowEntry::Resolved(domain) => FlowKnowledge::Resolved(domain@),
            FlowEntry::NoDomain { attempts } => FlowKnowledge::NoDomain { attempts },
        }
    }
}

/// The cache that backs a flow table: an address is kept as its version and
/// number, an entry as the host name or else the number of attempts.
#[verifier::external_type_specification]
#[verifier::external_body]
#[verifier::reject_recursive_types(K)]
#[verifier::reject_recursive_types(V)]
#[verifier::reject_recursive_types(S)]
pub struct ExCache<K, V, S>(moka::sync::Cache<K, V, S>);

/// What was last written to a cache under each key.
pub uninterp spec fn last_written(
    cache: moka::sync::Cache<(u8, u128, u16, u8, u128, u16), (Option<String>, u8)>,
) -> Map<(u8, u128, u16, u8, u128, u16), (Option<Seq<char>>, u8)>;

/// What was written to a new cache.
pub open spec fn nothing_written() -> Map<
    (u8, u128, u16, u8, u128, u16),
    (Option<Seq<char>>, u8),
> {
    Map::empty()
}

/// The most entries that a cache was made to keep.
pub uninterp spec fn max_capacity(
    cache: moka::sync::Cache<(u8, u128, u16, u8, u128, u16), (Option<String>, u8)>,
) -> u64;

/// The idle timeout that a cache was made with, in seconds and nanoseconds.
pub uninterp spec fn time_to_idle(
    cache: moka::sync::Cache<(u8, u128, u16, u8, u128, u16), (Option<String>, u8)>,
) -> (u64, u32);

/// Makes a cache with `moka::sync::Cache::builder`. The cache holds nothing at
/// first. Building panics on a timeout of more than a thousand years.
#[verifier::external_body]
fn build_cache(capacity: u64, tti_seconds: u64, tti_nanos: u32) -> (cache: moka::sync::Cache<
    (u8, u128, u16, u8, u128, u16),
    (Option<String>, u8),
>)
    requires
        tti_seconds < MAX_TTI_SECONDS || (tti_seconds == MAX_TTI_SECONDS && tti_nanos == 0),
        tti_nanos < 1_000_000_000,
    ensures
        last_written(cache) == nothing_written(),
        max_capacity(cache) == capacity,
        time_to_idle(cache) == (tti_seconds, tti_nanos),
{
    moka::sync::Cache::builder()
        .max_capacity(capacity)
        .time_to_idle(std::time::Duration::new(tti_seconds, tti_nanos))
        .build()
}

/// Reads a cache with `moka::sync::Cache::get`. What it returns is what was last
/// written under the key. It may return nothing at any time, since entries expire
/// and are evicted; when it does is not said.
#[verifier::external_body]
fn cache_get(
    cache: &moka::sync::Cache<(u8, u128, u16, u8, u128, u16), (Option<String>, u8)>,
    key: &(u8, u128, u16, u8, u128, u16),
) -> (value: Option<(Option<String>, u8)>)
    ensures
        value matches Some(value) ==> last_written(*cache).contains_key(*key) && last_written(
            *cache,
        )[*key] == (text_view(value.0), value.1),
{
    cache.get(key)
}

/// Writes to a cache with `moka::sync::Cache::insert`. The limits stay as they are.
#[verifier::external_body]
fn cache_insert(
    cache: &mut moka::sync::Cache<(u8, u128, u16, u8, u128, u16), (Option<String>, u8)>,
    key: (u8, u128, u16, u8, u128, u16),
    value: (Option<String>, u8),
)
    ensures
        last_written(*final(cache)) == last_written(*old(cache)).insert(
            key,
            (text_view(value.0), value.1),
        ),
        max_capacity(*final(cache)) == max_capacity(*old(cache)),
        time_to_idle(*final(cache)) == time_to_idle(*old(cache)),
{
    cache.insert(key, value)
}

/// Lets a cache do its upkeep with `moka::sync::Cache::run_pending_tasks`.
#[verifier::external_body]
fn cache_upkeep(
    cache: &moka::sync::Cache<(u8, u128, u16, u8, u128, u16), (Option<String>, u8)>,
) {
    cache.run_pending_tasks()
}

/// About how many entries a cache holds, by `moka::sync::Cache::entry_count`. An entry
/// counts from when upkeep admits it until upkeep removes it, and a key has one such entry
/// at most; so there are no more than keys that were written. The number lags behind what
/// is written and removed; by how much is not said.
#[verifier::external_body]
fn cache_entry_count(
    cache: &moka::sync::Cache<(u8, u128, u16, u8, u128, u16), (Option<String>, u8)>,
) -> (count: u64)
    ensures
        last_written(*cache).dom().finite() ==> count <= last_written(*cache).dom().len(),
{
    cache.entry_count()
}

/// An address as its version and number.
pub open spec fn address_parts(ip: IpAddr) -> (u8, u128) {
    match ip {
        IpAddr::V4(value) => (4, value as u128),
        IpAddr::V6(value) => (6, value),
    }
}

/// The cache's key for a connection.
pub open spec fn cache_key(key: FlowKey) -> (u8, u128, u16, u8, u128, u16) {
    let local = address_parts(key.local_ip);
    let peer = address_parts(key.peer_ip);
    (local.0, local.1, key.local_port, peer.0, peer.1, key.peer_port)
}

/// What a cached value says.
pub open spec fn knowledge(value: (Option<Seq<char>>, u8)) -> FlowKnowledge {
    match value.0 {
        Some(domain) => FlowKnowledge::Resolved(domain),
        None => FlowKnowledge::NoDomain { attempts: value.1 },
    }
}

fn split_address(ip: IpAddr) -> (parts: (u8, u128))
    ensures
        parts == address_parts(ip),
{
    match ip {
        IpAddr::V4(value) => (4, value as u128),
        IpAddr::V6(value) => (6, value),
    }
}

fn key_in_cache(key: &FlowKey) -> (parts: (u8, u128, u16, u8, u128, u16))
    ensures
        parts == cache_key(*key),
{
    let local = split_address(key.local_ip);
    let peer = split_address(key.peer_ip);
    (local.0, local.1, key.local_port, peer.0, peer.1, key.peer_port)
}

/// Different connections have different keys in the cache.
proof fn lemma_cache_key_injective(left: FlowKey, right: FlowKey)
    requires
        cache_key(left) == cache_key(right),
    ensures
        left == right,
{
}

/// Whether some connection has this key in the cache.
pub open spec fn is_cache_key(parts: (u8, u128, u16, u8, u128, u16)) -> bool {
    exists|key: FlowKey| #[trigger] cache_key(key) == parts
}

/// What the cache says of a connection, as an entry.
pub fn entry_of(value: Option<(Option<String>, u8)>) -> (entry: Option<FlowEntry>)
    ensures
        match value {
            Some((domain, attempts)) => entry matches Some(entry) && entry@ == knowledge(
                (text_view(domain), attempts),
            ),
            None => entry is None,
        },
{
    match value {
        Some((Some(domain), _)) => Some(FlowEntry::Resolved(domain)),
        Some((None, attempts)) => Some(FlowEntry::NoDomain { attempts }),
        None => None,
    }
}

/// The number of attempts after one more, up to the most that are made.
pub open spec fn one_more(attempts: u8) -> u8 {
    if attempts < MAX_NO_DOMAIN_PARSE_ATTEMPTS {
        (attempts + 1) as u8
    } else {
        MAX_NO_DOMAIN_PARSE_ATTEMPTS
    }
}

/// Whether one more attempt for a connection was noted.
pub open spec fn attempt_noted(
    before: Map<FlowKey, FlowKnowledge>,
    key: FlowKey,
    after: Map<FlowKey, FlowKnowledge>,
) -> bool {
    &&& before.contains_key(key)
    &&& before[key] matches FlowKnowledge::NoDomain { attempts }
    &&& after == before.insert(key, FlowKnowledge::NoDomain { attempts: one_more(attempts) })
}

/// What is known of the host names of connections.
pub struct FlowTable {
    cache: moka::sync::Cache<(u8, u128, u16, u8, u128, u16), (Option<String>, u8)>,
}

impl View for FlowTable {
    type V = Map<FlowKey, FlowKnowledge>;

    /// What was last learned of each connection. The table forgets entries, but it
    /// never says anything else.
    closed spec fn view(&self) -> Map<FlowKey, FlowKnowledge> {
        let written = last_written(self.cache);
        Map::new(
            |key: FlowKey| written.contains_key(cache_key(key)),
            |key: FlowKey| knowledge(written[cache_key(key)]),
        )
    }
}

impl FlowTable {
    /// The most entries that the table was made to keep.
    pub closed spec fn capacity(self) -> u64 {
        max_capacity(self.cache)
    }

    /// The idle timeout that the table was made with, in seconds and nanoseconds.
    pub closed spec fn idle_timeout(self) -> (u64, u32) {
        time_to_idle(self.cache)
    }

    /// Only connections were written to the table.
    pub closed spec fn wf(self) -> bool {
        let written = last_written(self.cache);
        &&& written.dom().finite()
        &&& forall|parts: (u8, u128, u16, u8, u128, u16)| #[trigger]
            written.contains_key(parts) ==> is_cache_key(parts)
    }

    /// The most entries and the idle timeout are the same.
    pub open spec fn same_limits(self, other: Self) -> bool {
        &&& self.capacity() == other.capacity()
        &&& self.idle_timeout() == other.idle_timeout()
    }

    /// Whether this is the same table some time later: with the same limits, and in order if
    /// it was.
    pub open spec fn continues(self, before: Self) -> bool {
        self.same_limits(before) && (before.wf() ==> self.wf())
    }

    /// As many keys were written as there are connections in the view.
    proof fn lemma_one_key_for_each(self)
        requires
            self.wf(),
        ensures
            self@.dom().finite(),
            self@.dom().len() == last_written(self.cache).dom().len(),
    {
        let written = last_written(self.cache).dom();
        let key_of = |parts: (u8, u128, u16, u8, u128, u16)|
            choose|key: FlowKey| #[trigger] cache_key(key) == parts;
        assert forall|left: (u8, u128, u16, u8, u128, u16), right: (
            u8,
            u128,
            u16,
            u8,
            u128,
            u16,
        )| #![trigger key_of(left), key_of(right)]
            written.contains(left) && written.contains(right) && key_of(left) == key_of(
                right,
            ) implies left == right by {
            assert(is_cache_key(left) && is_cache_key(right));
            assert(cache_key(key_of(left)) == left);
            assert(cache_key(key_of(right)) == right);
        }
        assert forall|key: FlowKey| #[trigger]
            self@.dom().contains(key) == written.map(key_of).contains(key) by {
            if self@.dom().contains(key) {
                let parts = cache_key(key);
                assert(cache_key(key_of(parts)) == parts);
                lemma_cache_key_injective(key_of(parts), key);
                assert(written.contains(parts));
            }
            if written.map(key_of).contains(key) {
                let parts = choose|parts: (u8, u128, u16, u8, u128, u16)|
                    written.contains(parts) && key_of(parts) == key;
                assert(is_cache_key(parts));
                assert(cache_key(key_of(parts)) == parts);
            }
        }
        assert(written.map(key_of) =~= self@.dom());
        vstd::set_lib::lemma_map_size(written, self@.dom(), key_of);
    }

    /// An empty table with the usual limits.
    pub fn new() -> (table: Self)
        ensures
            table.wf(),
            table@ == Map::<FlowKey, FlowKnowledge>::empty(),
            table.capacity() == DEFAULT_FLOW_TABLE_CAPACITY,
            table.idle_timeout() == (DEFAULT_TTI_SECONDS, 0u32),
    {
        Self::with_capacity(DEFAULT_FLOW_TABLE_CAPACITY)
    }

    /// An empty table with the usual idle timeout.
    pub fn with_capacity(capacity: u64) -> (table: Self)
        ensures
            table.wf(),
            table@ == Map::<FlowKey, FlowKnowledge>::empty(),
            table.capacity() == capacity,
            table.idle_timeout() == (DEFAULT_TTI_SECONDS, 0u32),
    {
        Self::with_capacity_and_tti(capacity, DEFAULT_TTI_SECONDS, 0)
    }

    /// An empty table with its limits.
    pub fn with_capacity_and_tti(capacity: u64, tti_seconds: u64, tti_nanos: u32) -> (table: Self)
        requires
            tti_seconds < MAX_TTI_SECONDS || (tti_seconds == MAX_TTI_SECONDS && tti_nanos == 0),
            tti_nanos < 1_000_000_000,
        ensures
            table.wf(),
            table@ == Map::<FlowKey, FlowKnowledge>::empty(),
            table.capacity() == capacity,
            table.idle_timeout() == (tti_seconds, tti_nanos),
    {
        let table = FlowTable { cache: build_cache(capacity, tti_seconds, tti_nanos) };
        assert(table@ =~= Map::<FlowKey, FlowKnowledge>::empty());
        table
    }

    /// What the table still knows of a connection.
    pub fn lookup(&self, key: &FlowKey) -> (entry: Option<FlowEntry>)
        ensures
            entry matches Some(entry) ==> self@.contains_key(*key) && self@[*key] == entry@,
    {
        entry_of(cache_get(&self.cache, &key_in_cache(key)))
    }

    fn write(&mut self, key: FlowKey, domain: Option<String>, attempts: u8)
        ensures
            final(self)@ == old(self)@.insert(key, knowledge((text_view(domain), attempts))),
            final(self).continues(*old(self)),
    {
        cache_insert(&mut self.cache, key_in_cache(&key), (domain, attempts));
        proof {
            assert(is_cache_key(cache_key(key)));
            assert forall|other: FlowKey| #[trigger]
                self@.contains_key(other) == old(self)@.insert(
                    key,
                    knowledge((text_view(domain), attempts)),
                ).contains_key(other) by {
                if cache_key(other) == cache_key(key) {
                    lemma_cache_key_injective(other, key);
                }
            }
            assert forall|other: FlowKey| #[trigger] self@.contains_key(other) implies self@[other]
                == old(self)@.insert(key, knowledge((text_view(domain), attempts)))[other] by {
                if cache_key(other) == cache_key(key) {
                    lemma_cache_key_injective(other, key);
                }
            }
            assert(self@ =~= old(self)@.insert(key, knowledge((text_view(domain), attempts))));
        }
    }

    /// Notes the host name of a connection.
    pub fn insert_resolved(&mut self, key: FlowKey, domain: String)
        ensures
            final(self)@ == old(self)@.insert(key, FlowKnowledge::Resolved(domain@)),
            final(self).continues(*old(self)),
    {
        self.write(key, Some(domain), 0);
    }

    /// Notes a first attempt that found no host name.
    pub fn insert_no_domain(&mut self, key: FlowKey)
        ensures
            final(self)@ == old(self)@.insert(key, FlowKnowledge::NoDomain { attempts: 1 }),
            final(self).continues(*old(self)),
    {
        self.write(key, None, 1);
    }

    /// Notes one more attempt that found no host name, if the table still knows
    /// of the earlier ones.
    pub fn record_no_domain_attempt(&mut self, key: FlowKey)
        ensures
            final(self).continues(*old(self)),
            final(self)@ == old(self)@ || attempt_noted(old(self)@, key, final(self)@),
            old(self)@.contains_key(key) && old(self)@[key] is Resolved ==> final(self)@ == old(
                self,
            )@,
    {
        let entry = self.lookup(&key);
        self.note_attempt(key, entry);
    }

    /// Notes one more attempt that found no host name, given what the table still
    /// knows of the connection. Only earlier attempts count up.
    pub fn note_attempt(&mut self, key: FlowKey, entry: Option<FlowEntry>)
        ensures
            final(self).continues(*old(self)),
            final(self)@ == match entry {
                Some(FlowEntry::NoDomain { attempts }) => old(self)@.insert(
                    key,
                    FlowKnowledge::NoDomain { attempts: one_more(attempts) },
                ),
                _ => old(self)@,
            },
    {
        if let Some(FlowEntry::NoDomain { attempts }) = entry {
            let next: u8 = if attempts < MAX_NO_DOMAIN_PARSE_ATTEMPTS {
                attempts + 1
            } else {
                MAX_NO_DOMAIN_PARSE_ATTEMPTS
            };
            self.write(key, None, next);
        }
    }

    /// Drops what has expired.
    pub fn run_pending_tasks(&self) {
        cache_upkeep(&self.cache)
    }

    /// About how many connections the table knows of: no more than it ever learned of.
    pub fn entry_count(&self) -> (count: u64)
        requires
            self.wf(),
        ensures
            self@.dom().finite(),
            count <= self@.dom().len(),
    {
        proof {
            self.lemma_one_key_for_each();
        }
        cache_entry_count(&self.cache)
    }
}

impl Default for FlowTable {
    fn default() -> (table: Self)
        ensures
            table.wf(),
            table@ == Map::<FlowKey, FlowKnowledge>::empty(),
            table.capacity() == DEFAULT_FLOW_TABLE_CAPACITY,
            table.idle_timeout() == (DEFAULT_TTI_SECONDS, 0u32),
    {
        Self::new()
    }
}

} // verus!
