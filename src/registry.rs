use vstd::prelude::*;

use chashmap::CHashMap;

verus! {

#[verifier::external_type_specification]
#[verifier::external_body]
#[verifier::reject_recursive_types(K)]
#[verifier::reject_recursive_types(V)]
pub struct ExCHashMap<K, V>(CHashMap<K, V>);

/// The port map that holds the registry's entries.
pub type PortMap = CHashMap<u16, u8>;

/// The entries that a port map holds, key to value.
pub uninterp spec fn port_map_entries(m: PortMap) -> Map<u16, u8>;

/// Relies on `CHashMap::new`: a new map holds no entry.
#[verifier::external_body]
fn port_map_new() -> (r: PortMap)
    ensures
        port_map_entries(r).dom().is_empty(),
{
    CHashMap::new()
}

/// Relies on `CHashMap::contains_key`: whether the map holds an entry for the key.
#[verifier::external_body]
fn port_map_contains(m: &PortMap, key: u16) -> (r: bool)
    ensures
        r == port_map_entries(*m).contains_key(key),
{
    m.contains_key(&key)
}

/// Relies on `CHashMap::insert`: the entry for the key is set to the value,
/// and the value it replaced, if any, is returned.
#[verifier::external_body]
fn port_map_insert(m: &mut PortMap, key: u16, val: u8) -> (r: Option<u8>)
    ensures
        port_map_entries(*final(m)) == port_map_entries(*old(m)).insert(key, val),
        r == (if port_map_entries(*old(m)).contains_key(key) {
            Some(port_map_entries(*old(m))[key])
        } else {
            None::<u8>
        }),
{
    m.insert(key, val)
}

/// The value stored for every port in the registry; only membership matters.
pub const PRESENCE_MARKER: u8 = 1;

/// The set of remote TCP ports that have connected. Entries are only ever
/// added, each holding `PRESENCE_MARKER`.
pub struct PortRegistry {
    ports: PortMap,
}

impl View for PortRegistry {
    type V = Set<u16>;

    closed spec fn view(&self) -> Set<u16> {
        port_map_entries(self.ports).dom()
    }
}

impl PortRegistry {
    /// Every entry holds the presence marker.
    pub closed spec fn wf(&self) -> bool {
        forall|p: u16| #[trigger] port_map_entries(self.ports).contains_key(p)
            ==> port_map_entries(self.ports)[p] == PRESENCE_MARKER
    }

    /// An empty registry.
    pub fn new() -> (r: PortRegistry)
        ensures
            r.wf(),
            r@ == Set::<u16>::empty(),
    {
        let r = PortRegistry { ports: port_map_new() };
        assert(r@ =~= Set::<u16>::empty());
        r
    }

    /// Whether `port` has been recorded.
    pub fn contains(&self, port: u16) -> (r: bool)
        ensures
            r == self@.contains(port),
    {
        port_map_contains(&self.ports, port)
    }

    /// Records `port`, whether or not it was there already. This is the
    /// unconditional second step of a check-then-insert; it is not atomic
    /// with a preceding `contains`.
    pub fn insert(&mut self, port: u16)
        requires
            old(self).wf(),
        ensures
            final(self).wf(),
            final(self)@ == old(self)@.insert(port),
    {
        let _ = port_map_insert(&mut self.ports, port, PRESENCE_MARKER);
        assert(self@ =~= old(self)@.insert(port));
    }

    /// Checks whether `port` was seen before and, only if it was not, records
    /// it. Returns whether it had been seen.
    pub fn observe(&mut self, port: u16) -> (seen_before: bool)
        requires
            old(self).wf(),
        ensures
            final(self).wf(),
            seen_before == old(self)@.contains(port),
            final(self)@ == old(self)@.insert(port),
    {
        if self.contains(port) {
            assert(self@.insert(port) =~= self@);
            true
        } else {
            self.insert(port);
            false
        }
    }
}

/// The ports seen by two checks made one after the other, when the first
/// check-then-insert has not yet inserted as the second checks.
pub open spec fn interleaved_checks(ports: Set<u16>, port: u16) -> (bool, bool) {
    (ports.contains(port), ports.contains(port))
}

/// The ports seen by two checks when the first check-then-insert has
/// inserted before the second checks.
pub open spec fn serial_checks(ports: Set<u16>, port: u16) -> (bool, bool) {
    (ports.contains(port), ports.insert(port).contains(port))
}

/// Check-then-insert is not atomic: two sequences for a new port that both
/// check before either inserts both find the port absent and both insert it,
/// where run one after the other only the first would. Either way the
/// registry ends holding the port, as after one insertion.
pub proof fn lemma_check_then_insert_race(ports: Set<u16>, port: u16)
    requires
        !ports.contains(port),
    ensures
        interleaved_checks(ports, port) == (false, false),
        serial_checks(ports, port) == (false, true),
        ports.insert(port).insert(port) == ports.insert(port),
{
    assert(ports.insert(port).insert(port) =~= ports.insert(port));
}

} // verus!
