use vstd::prelude::*;
use crate::device::{Device, DeviceView};
use crate::error::Error;
use crate::mac::{canonical_mac, valid_mac_address};
use crate::snapshot::{parse_devices, parse_snapshot, views};

verus! {

/// The registry of discovered devices. Discovery runs at most once with
/// success; until then the registry holds nothing.
pub struct Network {
    devices: Vec<Device>,
    network_extern: String,
    discovered: bool,
}

/// The mathematical value of a `Network`.
pub struct NetworkView {
    /// The discovered devices, in the order of the table's lines.
    pub devices: Seq<DeviceView>,
    /// The raw text that discovery parsed; empty before discovery.
    pub snapshot: Seq<char>,
    /// Whether discovery has succeeded.
    pub discovered: bool,
}

impl View for Network {
    type V = NetworkView;

    closed spec fn view(&self) -> NetworkView {
        NetworkView {
            devices: views(self.devices@),
            snapshot: self.network_extern@,
            discovered: self.discovered,
        }
    }
}

/// The fetched raw text, seen as characters.
pub open spec fn fetched_view(fetched: Result<String, Error>) -> Result<Seq<char>, Error> {
    match fetched {
        Ok(raw) => Ok(raw@),
        Err(e) => Err(e),
    }
}

/// What discovery yields from what the discovery source handed back.
pub open spec fn discovery_outcome(fetched: Result<Seq<char>, Error>) -> Result<Seq<DeviceView>, Error> {
    match fetched {
        Ok(raw) => parse_snapshot(raw),
        Err(e) => Err(e),
    }
}

/// One discovery step from `old` to `new` on the text that was fetched:
/// nothing happens once discovered; otherwise a success commits the devices,
/// the raw text and the discovered state together, and a failure changes
/// nothing and reports `err`.
pub open spec fn discovery_step(
    old: NetworkView,
    fetched: Result<Seq<char>, Error>,
    new: NetworkView,
    err: Option<Error>,
) -> bool {
    if old.discovered {
        new == old && err is None
    } else {
        match discovery_outcome(fetched) {
            Ok(ds) => err is None && new == (NetworkView {
                devices: ds,
                snapshot: fetched->Ok_0,
                discovered: true,
            }),
            Err(e) => new == old && err == Some(e),
        }
    }
}

/// `discovery_step`, where the source is asked only if discovery has not yet
/// succeeded, and may hand back anything that its contract allows.
pub open spec fn discovered_via<F: FnOnce() -> Result<String, Error>>(
    fetch: F,
    old: NetworkView,
    new: NetworkView,
    err: Option<Error>,
) -> bool {
    if old.discovered {
        new == old && err is None
    } else {
        exists|f: Result<String, Error>| #[trigger] fetch.ensures((), f) && discovery_step(old, fetched_view(f), new, err)
    }
}

/// The error of a result, if it is one.
pub open spec fn error_of<T>(r: Result<T, Error>) -> Option<Error> {
    match r {
        Ok(_) => None,
        Err(e) => Some(e),
    }
}

/// The views of the devices that a call handed back.
pub open spec fn devices_result(r: Result<Vec<Device>, Error>) -> Result<Seq<DeviceView>, Error> {
    match r {
        Ok(v) => Ok(views(v@)),
        Err(e) => Err(e),
    }
}

/// What a call of `get_all_devices_in_network` does: a discovery step, then
/// on success every device held after it.
pub open spec fn enumerated<F: FnOnce() -> Result<String, Error>>(
    fetch: F,
    old: NetworkView,
    new: NetworkView,
    r: Result<Seq<DeviceView>, Error>,
) -> bool {
    discovered_via(fetch, old, new, error_of(r)) && (r is Ok ==> r->Ok_0 == new.devices)
}

/// The first device, in order, that satisfies `p`.
pub open spec fn first_where(ds: Seq<DeviceView>, p: spec_fn(DeviceView) -> bool) -> Option<DeviceView>
    decreases ds.len(),
{
    if ds.len() == 0 {
        None
    } else {
        match first_where(ds.drop_last(), p) {
            Some(d) => Some(d),
            None => if p(ds.last()) {
                Some(ds.last())
            } else {
                None
            },
        }
    }
}

/// A stored device answers to the canonical hardware address `key` when its
/// own hardware address has that canonical form.
pub open spec fn has_mac(key: Seq<char>) -> spec_fn(DeviceView) -> bool {
    |d: DeviceView| canonical_mac(d.mac_address) == Some(key)
}

/// A stored device answers to `ip` when its address is that very text.
pub open spec fn has_ip(ip: Seq<char>) -> spec_fn(DeviceView) -> bool {
    |d: DeviceView| d.ip == ip
}

/// What a lookup returns for the device that was found, if any.
pub open spec fn lookup_result(found: Option<DeviceView>, r: Result<Device, Error>) -> bool {
    match found {
        Some(d) => r is Ok && r->Ok_0@ == d,
        None => r == Err::<Device, Error>(Error::NotFindDevice),
    }
}

impl Network {
    /// Before discovery nothing is held; after it, the devices are exactly
    /// what the raw text parses to.
    pub open spec fn wf(&self) -> bool {
        if self@.discovered {
            parse_snapshot(self@.snapshot) == Ok::<Seq<DeviceView>, Error>(self@.devices)
        } else {
            self@.devices.len() == 0 && self@.snapshot.len() == 0
        }
    }

    /// An empty registry on which discovery has not run.
    pub fn new() -> (r: Network)
        ensures
            r.wf(),
            !r@.discovered,
            r@.devices.len() == 0,
            r@.snapshot.len() == 0,
    {
        Network { devices: Vec::new(), network_extern: String::new(), discovered: false }
    }

    /// Whether discovery has succeeded.
    pub fn is_discovered(&self) -> (r: bool)
        ensures
            r == self@.discovered,
    {
        self.discovered
    }

    /// The raw text that discovery parsed.
    pub fn raw_snapshot(&self) -> (r: &String)
        ensures
            r@ == self@.snapshot,
    {
        &self.network_extern
    }

    /// Runs discovery on the text that the discovery source handed back (or
    /// its failure), unless discovery has already succeeded. The devices are
    /// committed only when every line parses.
    pub fn map_all_device_in_network(&mut self, fetched: Result<String, Error>) -> (r: Result<(), Error>)
        requires
            old(self).wf(),
        ensures
            final(self).wf(),
            discovery_step(old(self)@, fetched_view(fetched), final(self)@, error_of(r)),
    {
        if self.discovered {
            return Ok(());
        }
        let raw = match fetched {
            Ok(raw) => raw,
            Err(e) => return Err(e),
        };
        let devices = parse_devices(raw.as_str())?;
        self.devices = devices;
        self.network_extern = raw;
        self.discovered = true;
        Ok(())
    }

    /// Asks the discovery source, once, if discovery has not yet succeeded.
    fn ensure_discovered<F: FnOnce() -> Result<String, Error>>(&mut self, fetch: F) -> (r: Result<(), Error>)
        requires
            old(self).wf(),
            fetch.requires(()),
        ensures
            final(self).wf(),
            discovered_via(fetch, old(self)@, final(self)@, error_of(r)),
            r is Ok <==> final(self)@.discovered,
    {
        if self.discovered {
            return Ok(());
        }
        let fetched = fetch();
        self.map_all_device_in_network(fetched)
    }

    /// A copy of the discovered devices, in order.
    fn copy_devices(&self) -> (r: Vec<Device>)
        ensures
            views(r@) == self@.devices,
    {
        let mut out: Vec<Device> = Vec::new();
        let mut i: usize = 0;
        while i < self.devices.len()
            invariant
                i <= self.devices@.len(),
                views(out@) == views(self.devices@).take(i as int),
            decreases self.devices@.len() - i,
        {
            let ghost before = out@;
            out.push(self.devices[i].duplicate());
            proof {
                assert(views(out@) =~= views(before).push(self.devices@[i as int]@));
                assert(views(self.devices@).take(i as int + 1) =~= views(self.devices@).take(i as int).push(
                    self.devices@[i as int]@,
                ));
            }
            i = i + 1;
        }
        proof {
            assert(views(self.devices@).take(i as int) =~= views(self.devices@));
        }
        out
    }

    /// All devices on the network, in the order of the table's lines.
    /// Discovery runs first if it has not yet succeeded.
    pub fn get_all_devices_in_network<F: FnOnce() -> Result<String, Error>>(&mut self, fetch: F) -> (r: Result<Vec<Device>, Error>)
        requires
            old(self).wf(),
            fetch.requires(()),
        ensures
            final(self).wf(),
            enumerated(fetch, old(self)@, final(self)@, devices_result(r)),
    {
        self.ensure_discovered(fetch)?;
        Ok(self.copy_devices())
    }

    /// The first discovered device whose hardware address has the same
    /// canonical form as `mac_address`. An address that is not six
    /// hexadecimal octets is refused before discovery.
    pub fn find_device_with_mac_address<F: FnOnce() -> Result<String, Error>>(
        &mut self,
        mac_address: String,
        fetch: F,
    ) -> (r: Result<Device, Error>)
        requires
            old(self).wf(),
            fetch.requires(()),
        ensures
            final(self).wf(),
            match canonical_mac(mac_address@) {
                None => r == Err::<Device, Error>(Error::InvalidMACAddress) && final(self)@ == old(self)@,
                Some(key) => exists|err: Option<Error>|
                    discovered_via(fetch, old(self)@, final(self)@, err) && match err {
                        Some(e) => r == Err::<Device, Error>(e),
                        None => lookup_result(first_where(final(self)@.devices, has_mac(key)), r),
                    },
            },
    {
        let key = valid_mac_address(mac_address.as_str())?;
        let found = self.ensure_discovered(fetch);
        let ghost err = error_of(found);
        match found {
            Ok(()) => {
                let r = self.scan_mac(&key);
                assert(discovered_via(fetch, old(self)@, self@, err));
                r
            },
            Err(e) => {
                assert(discovered_via(fetch, old(self)@, self@, err));
                Err(e)
            },
        }
    }

    fn scan_mac(&self, key: &String) -> (r: Result<Device, Error>)
        ensures
            lookup_result(first_where(self@.devices, has_mac(key@)), r),
    {
        let mut i: usize = 0;
        while i < self.devices.len()
            invariant
                i <= self.devices@.len(),
                first_where(views(self.devices@).take(i as int), has_mac(key@)) is None,
            decreases self.devices@.len() - i,
        {
            proof {
                assert(views(self.devices@).take(i as int + 1).drop_last() =~= views(self.devices@).take(i as int));
            }
            let device = &self.devices[i];
            match valid_mac_address(device.mac_address.as_str()) {
                Ok(m) => {
                    if m == *key {
                        proof {
                            lemma_first_where_prefix(views(self.devices@), has_mac(key@), i as int + 1);
                        }
                        return Ok(device.duplicate());
                    }
                },
                Err(_) => {},
            }
            i = i + 1;
        }
        proof {
            assert(views(self.devices@).take(i as int) =~= views(self.devices@));
        }
        Err(Error::NotFindDevice)
    }

    /// The first discovered device whose address is the text `ip`, which the
    /// caller has already put in canonical form.
    pub fn find_device_with_ip<F: FnOnce() -> Result<String, Error>>(&mut self, ip: String, fetch: F) -> (r: Result<Device, Error>)
        requires
            old(self).wf(),
            fetch.requires(()),
        ensures
            final(self).wf(),
            exists|err: Option<Error>|
                discovered_via(fetch, old(self)@, final(self)@, err) && match err {
                    Some(e) => r == Err::<Device, Error>(e),
                    None => lookup_result(first_where(final(self)@.devices, has_ip(ip@)), r),
                },
    {
        let found = self.ensure_discovered(fetch);
        let ghost err = error_of(found);
        match found {
            Ok(()) => {
                let r = self.scan_ip(&ip);
                assert(discovered_via(fetch, old(self)@, self@, err));
                r
            },
            Err(e) => {
                assert(discovered_via(fetch, old(self)@, self@, err));
                Err(e)
            },
        }
    }

    fn scan_ip(&self, ip: &String) -> (r: Result<Device, Error>)
        ensures
            lookup_result(first_where(self@.devices, has_ip(ip@)), r),
    {
        let mut i: usize = 0;
        while i < self.devices.len()
            invariant
                i <= self.devices@.len(),
                first_where(views(self.devices@).take(i as int), has_ip(ip@)) is None,
            decreases self.devices@.len() - i,
        {
            proof {
                assert(views(self.devices@).take(i as int + 1).drop_last() =~= views(self.devices@).take(i as int));
            }
            let device = &self.devices[i];
            if device.ip == *ip {
                proof {
                    lemma_first_where_prefix(views(self.devices@), has_ip(ip@), i as int + 1);
                }
                return Ok(device.duplicate());
            }
            i = i + 1;
        }
        proof {
            assert(views(self.devices@).take(i as int) =~= views(self.devices@));
        }
        Err(Error::NotFindDevice)
    }
}

/// Once a prefix holds a device that satisfies `p`, the first such device of
/// the whole sequence is the prefix's.
proof fn lemma_first_where_prefix(ds: Seq<DeviceView>, p: spec_fn(DeviceView) -> bool, k: int)
    requires
        0 <= k <= ds.len(),
        first_where(ds.take(k), p) is Some,
    ensures
        first_where(ds, p) == first_where(ds.take(k), p),
    decreases ds.len(),
{
    if ds.len() == k {
        assert(ds.take(k) =~= ds);
    } else {
        assert(ds.drop_last().take(k) =~= ds.take(k));
        lemma_first_where_prefix(ds.drop_last(), p, k);
    }
}

/// Two calls of `get_all_devices_in_network` in a row, the first of which
/// succeeded: the second asks no discovery source, changes nothing and hands
/// back the same devices.
pub proof fn lemma_enumerate_idempotent<F1: FnOnce() -> Result<String, Error>, F2: FnOnce() -> Result<String, Error>>(
    first: F1,
    second: F2,
    n0: NetworkView,
    n1: NetworkView,
    n2: NetworkView,
    r1: Result<Seq<DeviceView>, Error>,
    r2: Result<Seq<DeviceView>, Error>,
)
    requires
        enumerated(first, n0, n1, r1),
        enumerated(second, n1, n2, r2),
        r1 is Ok,
    ensures
        n1.discovered,
        n2 == n1,
        r2 == r1,
{
    if !n0.discovered {
        let f = choose|f: Result<String, Error>| #[trigger] first.ensures((), f) && discovery_step(n0, fetched_view(f), n1, error_of(r1));
        assert(discovery_step(n0, fetched_view(f), n1, error_of(r1)));
    }
}

/// A lookup finds nothing when no device satisfies the condition, and what it
/// finds is a device of the sequence that satisfies it.
pub proof fn lemma_first_where_sound(ds: Seq<DeviceView>, p: spec_fn(DeviceView) -> bool)
    ensures
        (forall|i: int| 0 <= i < ds.len() ==> !p(#[trigger] ds[i])) ==> first_where(ds, p) is None,
        first_where(ds, p) is Some ==> p(first_where(ds, p)->Some_0) && ds.contains(first_where(ds, p)->Some_0),
    decreases ds.len(),
{
    if ds.len() > 0 {
        lemma_first_where_sound(ds.drop_last(), p);
        if forall|i: int| 0 <= i < ds.len() ==> !p(#[trigger] ds[i]) {
            assert forall|i: int| 0 <= i < ds.drop_last().len() implies !p(#[trigger] ds.drop_last()[i]) by {
                assert(ds.drop_last()[i] == ds[i]);
            }
            assert(!p(ds[ds.len() - 1]));
        }
        if first_where(ds, p) is Some {
            match first_where(ds.drop_last(), p) {
                Some(d) => {
                    let j = choose|j: int| 0 <= j < ds.drop_last().len() && ds.drop_last()[j] == d;
                    assert(ds[j] == d);
                },
                None => {
                    assert(ds[ds.len() - 1] == ds.last());
                },
            }
        }
    }
}

} // verus!
