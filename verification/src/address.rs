use vstd::prelude::*;

verus! {

/// Where a device of an account is reached: the account's name and the
/// device's id.
#[derive(Debug, PartialEq, Eq)]
pub struct ProtocolAddress {
    pub name: String,
    pub device_id: u32,
}

impl ProtocolAddress {
    /// The address of the device `device_id` of the account `name`.
    pub fn new(name: String, device_id: u32) -> (out: ProtocolAddress)
        ensures
            out.name == name,
            out.device_id == device_id,
    {
        ProtocolAddress { name, device_id }
    }

    /// The account's name.
    pub fn name(&self) -> (out: &String)
        ensures
            *out == self.name,
    {
        &self.name
    }

    /// The device's id.
    pub fn device_id(&self) -> (out: u32)
        ensures
            out == self.device_id,
    {
        self.device_id
    }
}

/// What names one sender's key in one group: the group and the sender's
/// address.
#[derive(Debug, PartialEq, Eq)]
pub struct SenderKeyName {
    pub group_id: String,
    pub sender: ProtocolAddress,
}

impl SenderKeyName {
    /// The name of the key of the sender at `sender_name` and
    /// `sender_device_id` in the group `group_id`.
    pub fn new(group_id: String, sender_name: String, sender_device_id: u32) -> (out: SenderKeyName)
        ensures
            out.group_id == group_id,
            out.sender.name == sender_name,
            out.sender.device_id == sender_device_id,
    {
        SenderKeyName { group_id, sender: ProtocolAddress::new(sender_name, sender_device_id) }
    }

    /// The group.
    pub fn group_id(&self) -> (out: &String)
        ensures
            *out == self.group_id,
    {
        &self.group_id
    }

    /// The sender's account name.
    pub fn sender_name(&self) -> (out: &String)
        ensures
            *out == self.sender.name,
    {
        &self.sender.name
    }

    /// The sender's device id.
    pub fn sender_device_id(&self) -> (out: u32)
        ensures
            out == self.sender.device_id,
    {
        self.sender.device_id
    }
}

} // verus!
