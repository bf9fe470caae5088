//! User-defined named device groups: an ordered set of device ids under a
//! unique generated identifier. Adding a present member or removing an
//! absent one is rejected, so a group built through these operations never
//! holds duplicates.

use vstd::prelude::*;
use vstd::string::*;

use crate::errors::MatahoError;
use crate::strutil::str_eq;

verus! {

/// Mathematical model of one group.
pub ghost struct GroupView {
    pub id: Seq<char>,
    pub name: Seq<char>,
    pub devices: Seq<Seq<char>>,
}

/// Relies on uuid's `Uuid::new_v4` and its `Display` form: a fresh random
/// version-4 identifier; nothing is promised of its text.
#[verifier::external_body]
fn fresh_group_id() -> (r: String) {
    uuid::Uuid::new_v4().to_string()
}

/// A durable named group of device ids.
pub struct DeviceGroup {
    id: String,
    name: String,
    devices: Vec<String>,
}

impl View for DeviceGroup {
    type V = GroupView;

    closed spec fn view(&self) -> GroupView {
        GroupView { id: self.id@, name: self.name@, devices: self.devices.deep_view() }
    }
}

impl DeepView for DeviceGroup {
    type V = GroupView;

    open spec fn deep_view(&self) -> GroupView {
        self.view()
    }
}

/// Keeps exactly the entries that differ from the device id.
pub open spec fn not_id_pred(device_id: Seq<char>) -> spec_fn(Seq<char>) -> bool {
    |d: Seq<char>| d != device_id
}

/// A group has a member when some entry equals the device id exactly.
pub open spec fn has_member(g: GroupView, device_id: Seq<char>) -> bool {
    exists|i: int| 0 <= i < g.devices.len() && g.devices[i] == device_id
}

impl DeviceGroup {
    /// A new empty group under a freshly generated identifier.
    pub fn new(name: &str) -> (g: DeviceGroup)
        ensures
            g@.name == name@,
            g@.devices == Seq::<Seq<char>>::empty(),
    {
        let g = DeviceGroup {
            id: fresh_group_id(),
            name: String::from_str(name),
            devices: Vec::new(),
        };
        proof {
            assert(g@.devices =~= Seq::<Seq<char>>::empty());
        }
        g
    }

    /// A group rebuilt from its stored parts.
    pub fn from_parts(id: String, name: String, devices: Vec<String>) -> (g: DeviceGroup)
        ensures
            g@ == (GroupView { id: id@, name: name@, devices: devices.deep_view() }),
    {
        DeviceGroup { id, name, devices }
    }

    pub fn id(&self) -> (r: &str)
        ensures
            r@ == self@.id,
    {
        self.id.as_str()
    }

    pub fn name(&self) -> (r: &str)
        ensures
            r@ == self@.name,
    {
        self.name.as_str()
    }

    pub fn devices(&self) -> (r: &Vec<String>)
        ensures
            r.deep_view() == self@.devices,
    {
        &self.devices
    }

    /// Whether the device id is already a member.
    pub fn has_device(&self, device_id: &str) -> (r: bool)
        ensures
            r == has_member(self@, device_id@),
    {
        let n = self.devices.len();
        let mut i: usize = 0;
        while i < n
            invariant
                0 <= i <= n,
                n == self@.devices.len(),
                self.devices.deep_view() == self@.devices,
                forall|j: int| 0 <= j < i ==> self@.devices[j] != device_id@,
            decreases n - i,
        {
            if str_eq(self.devices[i].as_str(), device_id) {
                proof {
                    assert(self@.devices[i as int] == device_id@);
                }
                return true;
            }
            i += 1;
        }
        false
    }

    /// Appends the device id, unless it is already a member: then the call
    /// is rejected and the group is left as it was.
    pub fn add_device(&mut self, device_id: &str) -> (r: Result<(), MatahoError>)
        ensures
            has_member(old(self)@, device_id@) ==> (r matches Err(e) && e
                == MatahoError::AlreadyMember && final(self)@ == old(self)@),
            !has_member(old(self)@, device_id@) ==> r is Ok && final(self)@
                == (GroupView {
                devices: old(self)@.devices.push(device_id@),
                ..old(self)@
            }),
    {
        if self.has_device(device_id) {
            return Err(MatahoError::AlreadyMember);
        }
        self.devices.push(String::from_str(device_id));
        proof {
            assert(self@.devices =~= old(self)@.devices.push(device_id@));
        }
        Ok(())
    }

    /// Removes every entry equal to the device id, keeping the order of
    /// the rest; rejected when the id is not a member.
    pub fn remove_device(&mut self, device_id: &str) -> (r: Result<(), MatahoError>)
        ensures
            !has_member(old(self)@, device_id@) ==> (r matches Err(e) && e
                == MatahoError::NotMember && final(self)@ == old(self)@),
            has_member(old(self)@, device_id@) ==> r is Ok && final(self)@
                == (GroupView {
                devices: old(self)@.devices.filter(not_id_pred(device_id@)),
                ..old(self)@
            }),
    {
        if !self.has_device(device_id) {
            return Err(MatahoError::NotMember);
        }
        let n = self.devices.len();
        let mut kept: Vec<String> = Vec::new();
        let mut i: usize = 0;
        proof {
            assert(self@.devices.take(0).filter(not_id_pred(device_id@))
                =~= Seq::<Seq<char>>::empty());
            assert(kept.deep_view() =~= Seq::<Seq<char>>::empty());
        }
        while i < n
            invariant
                0 <= i <= n,
                n == self@.devices.len(),
                self.devices.deep_view() == self@.devices,
                kept.deep_view() == self@.devices.take(i as int).filter(
                    not_id_pred(device_id@),
                ),
            decreases n - i,
        {
            proof {
                crate::strutil::lemma_filter_push(
                    self@.devices.take(i as int),
                    not_id_pred(device_id@),
                    self@.devices[i as int],
                );
                assert(self@.devices.take(i as int).push(self@.devices[i as int])
                    =~= self@.devices.take(i + 1));
            }
            if !str_eq(self.devices[i].as_str(), device_id) {
                kept.push(self.devices[i].clone());
                proof {
                    assert(kept.deep_view() =~= self@.devices.take(i + 1).filter(
                        not_id_pred(device_id@),
                    ));
                }
            }
            i += 1;
        }
        proof {
            assert(self@.devices.take(n as int) =~= self@.devices);
        }
        self.devices = kept;
        Ok(())
    }
}

} // verus!
