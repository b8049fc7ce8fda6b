//! Network devices and the registry of named interfaces.
use vstd::prelude::*;
use vstd::string::StrSliceExecFns;
use vstd::string::StringExecFns;

use crate::bootargs::equals_at;

pub mod socket;

verus! {

/// A MAC address.
pub type MacAddress = [u8; 6];

/// A network device, implemented by drivers.
pub trait NetDevice {
    fn mac_address(&self) -> MacAddress;

    /// The maximum transmission unit.
    fn mtu(&self) -> usize;

    /// Sends one Ethernet frame.
    fn transmit(&mut self, frame: &[u8]) -> Result<(), NetError>;

    /// Receives one Ethernet frame into `buffer`; `WouldBlock` when none waits.
    fn receive(&mut self, buffer: &mut [u8]) -> Result<usize, NetError>;

    /// Whether a frame waits to be received.
    fn poll_receive(&mut self) -> bool;
}

#[derive(Clone, Copy, Debug, PartialEq, Eq, Structural)]
pub enum NetError {
    /// No data for now.
    WouldBlock,
    /// The device is gone.
    Disconnected,
    IoError,
    /// A buffer is too small.
    NoBuffer,
}

/// A registered interface: its name and its device handle.
pub struct RegisteredInterface<D> {
    pub name: String,
    pub device: D,
}

/// The registered interfaces, in registration order.
pub struct InterfaceRegistry<D> {
    interfaces: Vec<RegisteredInterface<D>>,
}

impl<D: Copy> InterfaceRegistry<D> {
    /// The (name, device) pairs, in registration order.
    pub closed spec fn spec_entries(&self) -> Seq<(Seq<char>, D)> {
        self.interfaces@.map_values(|entry: RegisteredInterface<D>| (entry.name@, entry.device))
    }

    pub fn new() -> (registry: Self)
        ensures
            registry.spec_entries() == Seq::<(Seq<char>, D)>::empty(),
    {
        InterfaceRegistry { interfaces: Vec::new() }
    }
}

/// Registers `device` under `name`, after the interfaces already there.
pub fn register_interface<D: Copy>(registry: &mut InterfaceRegistry<D>, name: &str, device: D) -> (result: Result<(), NetError>)
    ensures
        result is Ok,
        final(registry).spec_entries() == old(registry).spec_entries().push((name@, device)),
{
    let stored_name = String::from_str(name);
    let ghost before = registry.interfaces@;
    registry.interfaces.push(RegisteredInterface { name: stored_name, device });
    proof {
        assert(registry.spec_entries() =~= old(registry).spec_entries().push((name@, device)));
    }
    Ok(())
}

/// A copy of every registered interface, in registration order.
pub fn registered_interfaces<D: Copy>(registry: &InterfaceRegistry<D>) -> (interfaces: Vec<RegisteredInterface<D>>)
    ensures
        interfaces@.map_values(|entry: RegisteredInterface<D>| (entry.name@, entry.device)) == registry.spec_entries(),
{
    let mut result: Vec<RegisteredInterface<D>> = Vec::new();
    let mut i: usize = 0;
    while i < registry.interfaces.len()
        invariant
            i <= registry.interfaces@.len(),
            result@.len() == i,
            forall|k: int| 0 <= k < i ==> (#[trigger] result@[k]).name@ == registry.interfaces@[k].name@
                && result@[k].device == registry.interfaces@[k].device,
        decreases registry.interfaces@.len() - i,
    {
        let entry = &registry.interfaces[i];
        result.push(RegisteredInterface { name: entry.name.clone(), device: entry.device });
        i = i + 1;
    }
    proof {
        assert(result@.map_values(|entry: RegisteredInterface<D>| (entry.name@, entry.device)) =~= registry.spec_entries());
    }
    result
}

/// The device of the first interface named `name`.
pub fn find_interface<D: Copy>(registry: &InterfaceRegistry<D>, name: &str) -> (device: Option<D>)
    ensures
        device is None <==> forall|k: int| 0 <= k < registry.spec_entries().len() ==> (#[trigger] registry.spec_entries()[k]).0 != name@,
        device matches Some(found) ==> exists|k: int| 0 <= k < registry.spec_entries().len()
            && registry.spec_entries()[k] == (name@, found)
            && forall|j: int| 0 <= j < k ==> (#[trigger] registry.spec_entries()[j]).0 != name@,
{
    let mut i: usize = 0;
    while i < registry.interfaces.len()
        invariant
            i <= registry.interfaces@.len(),
            forall|k: int| 0 <= k < i ==> (#[trigger] registry.spec_entries()[k]).0 != name@,
        decreases registry.interfaces@.len() - i,
    {
        let entry_name = registry.interfaces[i].name.as_str();
        let length = entry_name.unicode_len();
        let same = equals_at(entry_name, 0, length, name);
        proof {
            assert(entry_name@.subrange(0, length as int) =~= entry_name@);
            assert(registry.spec_entries()[i as int].0 == entry_name@);
        }
        if same {
            return Some(registry.interfaces[i].device);
        }
        i = i + 1;
    }
    None
}

} // verus!
