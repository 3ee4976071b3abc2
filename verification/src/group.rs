use vstd::prelude::*;

verus! {

/// The cryptographic protocol a group or task runs.
#[derive(Clone, Copy, PartialEq, Eq, Structural, Debug)]
pub enum ProtocolType {
    Gg18,
    Musig2,
}

/// The kind of key material a group holds.
#[derive(Clone, Copy, PartialEq, Eq, Structural, Debug)]
pub enum KeyType {
    SignPdf,
    SignChallenge,
}

impl ProtocolType {
    /// Whether this protocol can produce a key of the given type.
    pub open spec fn spec_check_key_type(self, key_type: KeyType) -> bool {
        match self {
            ProtocolType::Gg18 => key_type == KeyType::SignPdf,
            ProtocolType::Musig2 => key_type == KeyType::SignChallenge,
        }
    }

    pub fn check_key_type(&self, key_type: KeyType) -> (r: bool)
        ensures
            r == self.spec_check_key_type(key_type),
    {
        match self {
            ProtocolType::Gg18 => key_type == KeyType::SignPdf,
            ProtocolType::Musig2 => key_type == KeyType::SignChallenge,
        }
    }
}

/// The identifier of a group: the member identifiers concatenated in
/// member-list order.  The order is the candidate list's, with repeats
/// dropped, so one request order always forms one identifier; the same
/// member set presented in another order forms a distinct group.
pub open spec fn group_identifier_of(devices: Seq<Seq<u8>>) -> Seq<u8>
    decreases devices.len(),
{
    if devices.len() == 0 {
        Seq::empty()
    } else {
        group_identifier_of(devices.drop_last()) + devices.last()
    }
}

/// An established threshold group: immutable after creation.
pub struct Group {
    identifier: Vec<u8>,
    devices: Vec<Vec<u8>>,
    threshold: u32,
    protocol: ProtocolType,
    key_type: KeyType,
}

impl Group {
    /// The member identifiers, in creation order.
    pub closed spec fn spec_devices(self) -> Seq<Seq<u8>> {
        self.devices@.map_values(|d: Vec<u8>| d@)
    }

    pub closed spec fn spec_identifier(self) -> Seq<u8> {
        self.identifier@
    }

    pub closed spec fn spec_threshold(self) -> u32 {
        self.threshold
    }

    pub closed spec fn spec_protocol(self) -> ProtocolType {
        self.protocol
    }

    pub closed spec fn spec_key_type(self) -> KeyType {
        self.key_type
    }

    /// A well-formed group's identifier is the concatenation of its
    /// member identifiers, and its threshold does not exceed its size.
    pub closed spec fn wf(self) -> bool {
        &&& self.identifier@ == group_identifier_of(self.spec_devices())
        &&& self.threshold <= self.devices@.len()
        &&& crate::ids_distinct(self.spec_devices())
        &&& self.devices@.len() <= 0xffff_ffff
    }

    /// True when the device identifier is one of the members.
    pub open spec fn spec_contains(self, device: Seq<u8>) -> bool {
        exists|i: int| 0 <= i < self.spec_devices().len() && self.spec_devices()[i] == device
    }

    /// What well-formedness guarantees of a group's parts.
    pub proof fn lemma_wf(self)
        requires
            self.wf(),
        ensures
            crate::ids_distinct(self.spec_devices()),
            self.spec_devices().len() <= 0xffff_ffff,
            self.spec_threshold() <= self.spec_devices().len(),
            self.spec_identifier() == group_identifier_of(self.spec_devices()),
    {
    }

    pub fn new(
        identifier: Vec<u8>,
        devices: Vec<Vec<u8>>,
        threshold: u32,
        protocol: ProtocolType,
        key_type: KeyType,
    ) -> (g: Group)
        requires
            identifier@ == group_identifier_of(devices@.map_values(|d: Vec<u8>| d@)),
            threshold <= devices@.len(),
            crate::ids_distinct(devices@.map_values(|d: Vec<u8>| d@)),
            devices@.len() <= 0xffff_ffff,
        ensures
            g.spec_identifier() == identifier@,
            g.spec_devices() == devices@.map_values(|d: Vec<u8>| d@),
            g.spec_threshold() == threshold,
            g.spec_protocol() == protocol,
            g.spec_key_type() == key_type,
            g.wf(),
    {
        Group { identifier, devices, threshold, protocol, key_type }
    }

    pub fn identifier(&self) -> (r: &Vec<u8>)
        ensures
            r@ == self.spec_identifier(),
    {
        &self.identifier
    }

    pub fn devices(&self) -> (r: &Vec<Vec<u8>>)
        ensures
            r@.map_values(|d: Vec<u8>| d@) == self.spec_devices(),
    {
        &self.devices
    }

    pub fn threshold(&self) -> (r: u32)
        ensures
            r == self.spec_threshold(),
    {
        self.threshold
    }

    pub fn protocol(&self) -> (r: ProtocolType)
        ensures
            r == self.spec_protocol(),
    {
        self.protocol
    }

    pub fn key_type(&self) -> (r: KeyType)
        ensures
            r == self.spec_key_type(),
    {
        self.key_type
    }

    pub fn contains(&self, device: &Vec<u8>) -> (r: bool)
        ensures
            r == self.spec_contains(device@),
    {
        let mut i: usize = 0;
        while i < self.devices.len()
            invariant
                i <= self.devices@.len(),
                forall|j: int| 0 <= j < i ==> self.spec_devices()[j] != device@,
            decreases self.devices@.len() - i,
        {
            if &self.devices[i] == device {
                assert(self.spec_devices()[i as int] == device@);
                return true;
            }
            i += 1;
        }
        false
    }
}

impl Clone for Group {
    fn clone(&self) -> (r: Group)
        ensures
            r.spec_identifier() == self.spec_identifier(),
            r.spec_devices() == self.spec_devices(),
            r.spec_threshold() == self.spec_threshold(),
            r.spec_protocol() == self.spec_protocol(),
            r.spec_key_type() == self.spec_key_type(),
            r.wf() == self.wf(),
    {
        Group {
            identifier: crate::clone_bytes(&self.identifier),
            devices: crate::clone_ids(&self.devices),
            threshold: self.threshold,
            protocol: self.protocol,
            key_type: self.key_type,
        }
    }
}

} // verus!
