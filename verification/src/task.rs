use vstd::prelude::*;
use crate::communicator::Communicator;
use crate::group::{Group, KeyType, ProtocolType};
use crate::protocol::{Gg18Group, Musig2Sign};

verus! {

/// An error a task reports to its caller.
#[derive(Clone, Copy, PartialEq, Eq, Structural, Debug)]
pub enum TaskError {
    /// The device is not a participant of the task.
    UnknownDevice,
    /// The task's protocol has committed a result and cannot restart.
    AlreadyFinished,
    /// No task is stored under the identifier.
    UnknownTask,
}

/// The opaque result a finished task carries.
pub enum TaskResult {
    GroupEstablished(Group),
    Signed(Vec<u8>),
}

/// The projected status of a task: never stored, always recomputed.
pub enum TaskStatus {
    /// The devices whose contribution is outstanding this round.
    Waiting(Vec<Vec<u8>>),
    Finished(TaskResult),
    /// The identifier of the device that rejected participation.
    Failed(Vec<u8>),
}

/// Concatenates the identifiers in list order.
fn build_identifier(devices: &Vec<Vec<u8>>) -> (r: Vec<u8>)
    ensures
        r@ == crate::group::group_identifier_of(crate::ids_view(devices@)),
{
    let mut r: Vec<u8> = Vec::new();
    let mut i: usize = 0;
    while i < devices.len()
        invariant
            i <= devices@.len(),
            r@ == crate::group::group_identifier_of(crate::ids_view(devices@).take(i as int)),
        decreases devices@.len() - i,
    {
        let mut k: usize = 0;
        let ghost head = r@;
        while k < devices[i].len()
            invariant
                i < devices@.len(),
                k <= devices@[i as int]@.len(),
                r@ == head + devices@[i as int]@.subrange(0, k as int),
            decreases devices@[i as int]@.len() - k,
        {
            r.push(devices[i][k]);
            k += 1;
            proof {
                assert(r@ =~= head + devices@[i as int]@.subrange(0, k as int));
            }
        }
        i += 1;
        proof {
            let ids = crate::ids_view(devices@);
            assert(ids.take(i as int).drop_last() =~= ids.take(i as int - 1));
            assert(devices@[i as int - 1]@.subrange(0, devices@[i as int - 1]@.len() as int)
                =~= ids.take(i as int).last());
            assert(r@ =~= crate::group::group_identifier_of(ids.take(i as int)));
        }
    }
    proof {
        assert(crate::ids_view(devices@).take(devices@.len() as int) =~= crate::ids_view(
            devices@,
        ));
    }
    r
}

/// A group-formation task: drives a one-round key-establishment run
/// over its candidate devices and, on completion, synthesizes the
/// Group.
pub struct GroupTask {
    name: Vec<u8>,
    devices: Vec<Vec<u8>>,
    threshold: u32,
    protocol_type: ProtocolType,
    key_type: KeyType,
    protocol: Gg18Group,
    communicator: Communicator,
    result: Option<Group>,
    failure: Option<Vec<u8>>,
    acks: Vec<bool>,
    decisions: Vec<Option<bool>>,
}

impl GroupTask {
    pub closed spec fn spec_device_ids(self) -> Seq<Seq<u8>> {
        crate::ids_view(self.devices@)
    }

    pub closed spec fn spec_threshold(self) -> u32 {
        self.threshold
    }

    pub closed spec fn spec_name(self) -> Seq<u8> {
        self.name@
    }

    pub closed spec fn spec_protocol_type(self) -> ProtocolType {
        self.protocol_type
    }

    pub closed spec fn spec_key_type(self) -> KeyType {
        self.key_type
    }

    pub closed spec fn spec_finished(self) -> bool {
        self.result.is_some()
    }

    pub closed spec fn spec_failed(self) -> bool {
        self.failure.is_some()
    }

    /// The identifier of the rejecting device, once one has rejected.
    pub closed spec fn spec_failure_reason(self) -> Seq<u8> {
        self.failure.unwrap()@
    }

    pub closed spec fn spec_result(self) -> Option<Group> {
        self.result
    }

    pub closed spec fn spec_acks(self) -> Seq<bool> {
        self.acks@
    }

    pub closed spec fn spec_decisions(self) -> Seq<Option<bool>> {
        self.decisions@
    }

    pub closed spec fn spec_round(self) -> u16 {
        self.protocol.spec_round()
    }

    pub closed spec fn spec_last_round(self) -> u16 {
        self.protocol.spec_last_round()
    }

    pub open spec fn spec_participant(self, device: Seq<u8>) -> bool {
        crate::ids_contain(self.spec_device_ids(), device)
    }

    /// Every participant but `device` has posted this round.
    pub open spec fn others_contributed(self, device: Seq<u8>) -> bool {
        forall|d: Seq<u8>| #![auto]
            self.spec_participant(d) && d != device ==> self.spec_contributed(d)
    }

    /// The ordinal of a participant in the device list.
    pub closed spec fn spec_ordinal(self, device: Seq<u8>) -> int {
        self.communicator.spec_ordinal(device).unwrap()
    }

    pub closed spec fn spec_acknowledged(self, device: Seq<u8>) -> bool {
        self.spec_participant(device) && self.acks@[self.spec_ordinal(device)]
    }

    /// Whether the device has posted its contribution to the current
    /// round.
    pub closed spec fn spec_contributed(self, device: Seq<u8>) -> bool {
        self.spec_participant(device) && self.communicator.spec_incoming(
            self.spec_ordinal(device),
        ).is_some()
    }

    pub closed spec fn spec_pending(self) -> Seq<Seq<u8>> {
        self.communicator.spec_pending()
    }

    pub closed spec fn wf(self) -> bool {
        &&& self.communicator.wf()
        &&& self.communicator.spec_devices() == crate::ids_view(self.devices@)
        &&& crate::ids_distinct(crate::ids_view(self.devices@))
        &&& self.devices@.len() <= 0xffff_ffff
        &&& self.threshold <= self.devices@.len()
        &&& self.acks@.len() == self.devices@.len()
        &&& self.decisions@.len() == self.devices@.len()
        &&& self.communicator.spec_active().len() == self.devices@.len()
        &&& forall|i: int|
            0 <= i < self.communicator.spec_active().len()
                ==> self.communicator.spec_active()[i] == i
        &&& 1 <= self.protocol.spec_round()
        &&& self.protocol.spec_round() <= self.protocol.spec_last_round() + 1
        &&& (self.result.is_some() <==> self.protocol.spec_round()
            == self.protocol.spec_last_round() + 1)
        &&& (self.result.is_none() && self.communicator.spec_active().len() > 0
            ==> !self.communicator.spec_all_contributed())
        &&& (match self.result {
            Some(g) => {
                &&& g.wf()
                &&& g.spec_devices() == crate::ids_view(self.devices@)
                &&& g.spec_threshold() == self.threshold
                &&& g.spec_protocol() == self.protocol_type
                &&& g.spec_key_type() == self.key_type
            },
            None => true,
        })
        &&& !(self.result.is_some() && self.failure.is_some())
        &&& (match self.failure {
            Some(d) => crate::ids_contain(crate::ids_view(self.devices@), d@),
            None => true,
        })
    }

    /// A device stands in the Waiting projection's pending list exactly
    /// when it participates and has not posted this round.
    pub proof fn lemma_pending(self, d: Seq<u8>)
        requires
            self.wf(),
        ensures
            crate::ids_contain(self.spec_pending(), d) <==> (self.spec_participant(d)
                && !self.spec_contributed(d)),
    {
        let c = self.communicator;
        let n = c.spec_devices().len() as int;
        c.lemma_pending_membership(n, d);
        if self.spec_participant(d) {
            let ord = c.spec_ordinal(d).unwrap();
            assert(c.spec_devices()[ord] == d);
            assert(c.spec_active()[ord] == ord);
            assert(c.spec_is_active(ord));
        }
        if crate::ids_contain(self.spec_pending(), d) {
            let k = choose|k: int|
                0 <= k < n && c.spec_devices()[k] == d && c.spec_is_active(k) && c.spec_incoming(
                    k,
                ).is_none();
            assert(crate::ids_contain(c.spec_devices(), d));
            crate::lemma_distinct_unique(c.spec_devices(), k, c.spec_ordinal(d).unwrap());
        }
    }

    /// Builds the task and opens its protocol run: every candidate is a
    /// participant and is handed the announcement payload.
    pub fn new(
        name: Vec<u8>,
        devices: &Vec<Vec<u8>>,
        threshold: u32,
        protocol_type: ProtocolType,
        key_type: KeyType,
    ) -> (t: GroupTask)
        requires
            crate::ids_distinct(crate::ids_view(devices@)),
            threshold <= devices@.len(),
            devices@.len() <= 0xffff_ffff,
        ensures
            t.wf(),
            t.spec_device_ids() == crate::ids_view(devices@),
            t.spec_threshold() == threshold,
            t.spec_protocol_type() == protocol_type,
            t.spec_key_type() == key_type,
            t.spec_name() == name@,
            !t.spec_finished(),
            !t.spec_failed(),
            t.spec_round() == 1,
            t.spec_acks().len() == devices@.len(),
            forall|i: int| 0 <= i < t.spec_acks().len() ==> !t.spec_acks()[i],
            forall|i: int| 0 <= i < t.spec_decisions().len() ==> t.spec_decisions()[i].is_none(),
            forall|d: Seq<u8>| !t.spec_contributed(d),
            t.spec_pending() == t.spec_device_ids(),
            forall|k: int|
                0 <= k < devices@.len() ==> t.spec_work(crate::ids_view(devices@)[k]) == Some(
                    crate::protocol::group_init_payload(
                        k as u32,
                        devices@.len() as u32,
                        threshold,
                    ),
                ),
    {
        let device_list = crate::clone_ids(devices);
        let n = device_list.len();
        let mut communicator = Communicator::new(device_list, threshold);
        let mut protocol = Gg18Group::new(n as u32, threshold);
        let empty: Vec<u8> = Vec::new();
        protocol.initialize(&mut communicator, &empty);
        proof {
            if communicator.spec_active().len() > 0 {
                assert(!communicator.spec_all_contributed()) by {
                    assert(communicator.spec_active()[0] == 0);
                    assert(communicator.spec_incoming(
                        communicator.spec_active()[0] as int,
                    ).is_none());
                }
            }
        }
        proof {
            communicator.lemma_pending_initial(communicator.spec_devices().len() as int);
            assert(communicator.spec_devices().take(communicator.spec_devices().len() as int)
                =~= communicator.spec_devices());
        }
        let mut acks: Vec<bool> = Vec::new();
        let mut decisions: Vec<Option<bool>> = Vec::new();
        let mut i: usize = 0;
        while i < n
            invariant
                i <= n,
                acks@.len() == i,
                decisions@.len() == i,
                forall|j: int| 0 <= j < i ==> !acks@[j],
                forall|j: int| 0 <= j < i ==> decisions@[j].is_none(),
            decreases n - i,
        {
            acks.push(false);
            decisions.push(None);
            i += 1;
        }
        proof {
            assert forall|k: int|
                0 <= k < devices@.len() implies communicator.spec_outgoing(
                communicator.spec_ordinal(crate::ids_view(devices@)[k]).unwrap(),
            ) == Some(
                crate::protocol::group_init_payload(k as u32, devices@.len() as u32, threshold),
            ) by {
                let d = crate::ids_view(devices@)[k];
                assert(communicator.spec_devices()[k] == d);
                assert(crate::ids_contain(communicator.spec_devices(), d));
                crate::lemma_distinct_unique(
                    communicator.spec_devices(),
                    communicator.spec_ordinal(d).unwrap(),
                    k,
                );
            }
        }
        GroupTask {
            name,
            devices: crate::clone_ids(devices),
            threshold,
            protocol_type,
            key_type,
            protocol,
            communicator,
            result: None,
            failure: None,
            acks,
            decisions,
        }
    }

    pub fn has_device(&self, device: &Vec<u8>) -> (r: bool)
        ensures
            r == self.spec_participant(device@),
    {
        crate::ids_member(&self.devices, device)
    }

    pub fn get_devices(&self) -> (r: &Vec<Vec<u8>>)
        ensures
            crate::ids_view(r@) == self.spec_device_ids(),
    {
        &self.devices
    }

    pub fn get_threshold(&self) -> (r: u32)
        ensures
            r == self.spec_threshold(),
    {
        self.threshold
    }

    pub fn get_result(&self) -> (r: Option<Group>)
        requires
            self.wf(),
        ensures
            match r {
                Some(g) => {
                    &&& self.spec_finished()
                    &&& g.wf()
                    &&& g.spec_devices() == self.spec_device_ids()
                    &&& g.spec_threshold() == self.spec_threshold()
                },
                None => !self.spec_finished(),
            },
    {
        match &self.result {
            Some(g) => Some(g.clone()),
            None => None,
        }
    }

    /// Forwards a participant's round contribution; when the round is
    /// thereby complete the protocol advances or, on its last round,
    /// finalizes, committing the established Group.  Reports whether the
    /// task's visible state changed.
    pub fn update(&mut self, device: &Vec<u8>, data: Vec<u8>) -> (r: Result<bool, TaskError>)
        requires
            old(self).wf(),
        ensures
            final(self).wf(),
            final(self).spec_device_ids() == old(self).spec_device_ids(),
            final(self).spec_threshold() == old(self).spec_threshold(),
            final(self).spec_name() == old(self).spec_name(),
            final(self).spec_acks() == old(self).spec_acks(),
            final(self).spec_decisions() == old(self).spec_decisions(),
            final(self).spec_failed() == old(self).spec_failed(),
            r == Err::<bool, TaskError>(TaskError::UnknownDevice) <==> !old(self).spec_participant(device@),
            r is Err ==> *final(self) == *old(self) && r == Err::<bool, TaskError>(
                TaskError::UnknownDevice,
            ),
            old(self).spec_finished() ==> final(self).spec_finished() && final(self).spec_result()
                == old(self).spec_result(),
            (old(self).spec_finished() || old(self).spec_failed()) ==> *final(self) == *old(self)
                && (r is Err || r == Ok::<bool, TaskError>(false)),
            r == Ok::<bool, TaskError>(true) <==> (old(self).spec_participant(device@) && !old(self).spec_finished() && !old(self).spec_failed() && !old(self).spec_contributed(device@)),
            r == Ok::<bool, TaskError>(false) ==> *final(self) == *old(self),
            final(self).spec_round() == old(self).spec_round() || final(self).spec_round()
                == old(self).spec_round() + 1,
            final(self).spec_round() == old(self).spec_round() + 1 ==> (r == Ok::<
                bool,
                TaskError,
            >(true) && !old(self).spec_contributed(device@) && old(self).others_contributed(
                device@,
            )),
            (r == Ok::<bool, TaskError>(true) && old(self).others_contributed(device@) && old(self).spec_round() < old(self).spec_last_round()) ==> final(self).spec_round() == old(self).spec_round() + 1,
            (r == Ok::<bool, TaskError>(true) && !old(self).others_contributed(device@)) ==> final(self).spec_round() == old(self).spec_round(),
            final(self).spec_round() == old(self).spec_round() + 1 && !final(self).spec_finished()
                ==> forall|d: Seq<u8>| !final(self).spec_contributed(d),
            final(self).spec_round() == old(self).spec_round() ==> forall|d: Seq<u8>|
                d != device@ ==> final(self).spec_contributed(d) == old(self).spec_contributed(d),
            final(self).spec_finished() && !old(self).spec_finished() ==> {
                &&& old(self).spec_round() == old(self).spec_last_round()
                &&& !old(self).spec_contributed(device@)
                &&& old(self).others_contributed(device@)
            },
            (old(self).spec_participant(device@) && !old(self).spec_finished() && !old(self).spec_failed() && !old(self).spec_contributed(device@) && old(self).spec_round()
                == old(self).spec_last_round() && old(self).others_contributed(device@)) ==> final(self).spec_finished(),
            final(self).spec_finished() && !old(self).spec_finished() ==> r == Ok::<
                bool,
                TaskError,
            >(true),
            r == Ok::<bool, TaskError>(true) && !final(self).spec_finished() && final(self).spec_round() == old(self).spec_round() ==> final(self).spec_contributed(device@),
            final(self).spec_finished() && !old(self).spec_finished() ==> {
                &&& final(self).spec_result().is_some()
                &&& final(self).spec_result().unwrap().spec_devices() == old(self).spec_device_ids()
                &&& final(self).spec_result().unwrap().spec_threshold() == old(self).spec_threshold()
            },
    {
        if !self.has_device(device) {
            return Err(TaskError::UnknownDevice);
        }
        if self.result.is_some() || self.failure.is_some() {
            return Ok(false);
        }
        proof {
            let ord = self.communicator.spec_ordinal(device@).unwrap();
            assert(self.communicator.spec_active()[ord] == ord);
            assert(self.communicator.spec_is_active(ord));
        }
        let changed = self.communicator.receive(device, data);
        if !changed {
            proof {
                assert(old(self).spec_contributed(device@));
            }
            return Ok(false);
        }
        let all = self.communicator.all_contributed();
        proof {
            let ord = old(self).communicator.spec_ordinal(device@).unwrap();
            assert(old(self).communicator.spec_devices()[ord] == device@);
            assert(self.communicator.spec_incoming(ord).is_some());
            if !all {
                let k = choose|k: int|
                    0 <= k < self.communicator.spec_active().len()
                        && !self.communicator.spec_incoming(
                        self.communicator.spec_active()[k] as int,
                    ).is_some();
                assert(self.communicator.spec_active()[k] == k);
                assert(k != ord);
                let dk = old(self).communicator.spec_devices()[k];
                if dk == device@ {
                    crate::lemma_distinct_unique(old(self).communicator.spec_devices(), k, ord);
                }
                assert(old(self).spec_participant(dk));
                let k2 = choose|j: int|
                    0 <= j < old(self).communicator.spec_devices().len() && old(self).communicator.spec_devices()[j] == dk;
                crate::lemma_distinct_unique(old(self).communicator.spec_devices(), k2, k);
                assert(!old(self).spec_contributed(dk));
                assert(!old(self).others_contributed(device@));
                assert forall|d: Seq<u8>|
                    d != device@ implies self.spec_contributed(d) == old(self).spec_contributed(
                    d,
                ) by {
                    if old(self).spec_participant(d) {
                        let e = choose|j: int|
                            0 <= j < old(self).communicator.spec_devices().len() && old(self).communicator.spec_devices()[j] == d;
                        crate::lemma_distinct_unique(
                            old(self).communicator.spec_devices(),
                            e,
                            old(self).communicator.spec_ordinal(d).unwrap(),
                        );
                        if e == ord {
                            crate::lemma_distinct_unique(
                                old(self).communicator.spec_devices(),
                                e,
                                ord,
                            );
                        }
                        assert(self.communicator.spec_incoming(e) == old(self).communicator.spec_incoming(e));
                    }
                }
            } else {
                assert forall|d: Seq<u8>|
                    old(self).spec_participant(d) && d != device@ implies old(self).spec_contributed(d) by {
                    let e = choose|j: int|
                        0 <= j < old(self).communicator.spec_devices().len() && old(self).communicator.spec_devices()[j] == d;
                    assert(self.communicator.spec_active()[e] == e);
                    assert(self.communicator.spec_incoming(
                        self.communicator.spec_active()[e] as int,
                    ).is_some());
                    if e == ord {
                        crate::lemma_distinct_unique(
                            old(self).communicator.spec_devices(),
                            e,
                            ord,
                        );
                    }
                    assert(old(self).communicator.spec_incoming(e).is_some());
                }
                assert(old(self).others_contributed(device@));
            }
        }
        if all {
            if self.protocol.round() < self.protocol.last_round() {
                self.protocol.advance(&mut self.communicator);
                proof {
                    if self.communicator.spec_active().len() > 0 {
                        assert(!self.communicator.spec_all_contributed()) by {
                            assert(self.communicator.spec_incoming(
                                self.communicator.spec_active()[0] as int,
                            ).is_none());
                        }
                    }
                    assert forall|d: Seq<u8>| !self.spec_contributed(d) by {
                        if self.spec_participant(d) {
                            let e = self.communicator.spec_ordinal(d).unwrap();
                            assert(self.communicator.spec_incoming(e).is_none());
                        }
                    }
                }
            } else {
                proof {
                    let ord = self.communicator.spec_ordinal(device@).unwrap();
                    assert(self.communicator.spec_active()[ord] == ord);
                }
                let out = self.protocol.finalize(&mut self.communicator);
                match out {
                    Some(_) => {
                        let identifier = build_identifier(&self.devices);
                        let members = crate::clone_ids(&self.devices);
                        let group = Group::new(
                            identifier,
                            members,
                            self.threshold,
                            self.protocol_type,
                            self.key_type,
                        );
                        self.result = Some(group);
                    },
                    None => {
                        proof {
                            assert(false);
                        }
                    },
                }
            }
        }
        Ok(true)
    }

    /// Records a participant's consent vote; a rejection fails the task.
    /// Reports whether anything changed.
    pub fn decide(&mut self, device: &Vec<u8>, accept: bool) -> (r: bool)
        requires
            old(self).wf(),
        ensures
            final(self).wf(),
            final(self).spec_device_ids() == old(self).spec_device_ids(),
            final(self).spec_threshold() == old(self).spec_threshold(),
            final(self).spec_acks() == old(self).spec_acks(),
            final(self).spec_finished() == old(self).spec_finished(),
            final(self).spec_result() == old(self).spec_result(),
            final(self).spec_name() == old(self).spec_name(),
            final(self).spec_round() == old(self).spec_round(),
            final(self).spec_pending() == old(self).spec_pending(),
            forall|d: Seq<u8>| final(self).spec_contributed(d) == old(self).spec_contributed(d),
            forall|d: Seq<u8>| final(self).spec_work(d) == old(self).spec_work(d),
            r == (old(self).spec_participant(device@) && !old(self).spec_finished() && !old(self).spec_failed() && old(self).spec_decisions()[old(self).spec_ordinal(
                device@,
            )].is_none()),
            !r ==> *final(self) == *old(self),
            r ==> final(self).spec_decisions() == old(self).spec_decisions().update(
                old(self).spec_ordinal(device@),
                Some(accept),
            ),
            r && !accept ==> final(self).spec_failed() && final(self).spec_failure_reason()
                == device@,
            r && accept ==> final(self).spec_failed() == old(self).spec_failed(),
    {
        let ord = match self.ordinal_of(device) {
            Some(ord) => ord,
            None => {
                return false;
            },
        };
        if self.result.is_some() || self.failure.is_some() {
            return false;
        }
        if self.decisions[ord].is_some() {
            return false;
        }
        self.decisions.set(ord, Some(accept));
        if !accept {
            self.failure = Some(crate::clone_bytes(device));
            proof {
                assert(crate::ids_contain(crate::ids_view(self.devices@), device@));
            }
        }
        true
    }

    /// Looks a participant's ordinal up.
    fn ordinal_of(&self, device: &Vec<u8>) -> (r: Option<usize>)
        requires
            self.wf(),
        ensures
            match r {
                Some(d) => self.spec_participant(device@) && d == self.spec_ordinal(device@) && d
                    < self.spec_device_ids().len(),
                None => !self.spec_participant(device@),
            },
    {
        self.communicator.ordinal_of(device)
    }

    /// Marks that the device has observed the task's terminal status.
    pub fn acknowledge(&mut self, device: &Vec<u8>)
        requires
            old(self).wf(),
        ensures
            final(self).wf(),
            final(self).spec_device_ids() == old(self).spec_device_ids(),
            final(self).spec_threshold() == old(self).spec_threshold(),
            final(self).spec_finished() == old(self).spec_finished(),
            final(self).spec_failed() == old(self).spec_failed(),
            final(self).spec_result() == old(self).spec_result(),
            final(self).spec_decisions() == old(self).spec_decisions(),
            final(self).spec_name() == old(self).spec_name(),
            final(self).spec_round() == old(self).spec_round(),
            final(self).spec_pending() == old(self).spec_pending(),
            forall|d: Seq<u8>| final(self).spec_contributed(d) == old(self).spec_contributed(d),
            forall|d: Seq<u8>| final(self).spec_work(d) == old(self).spec_work(d),
            (old(self).spec_failed() ==> final(self).spec_failure_reason() == old(self).spec_failure_reason()),
            old(self).spec_participant(device@) ==> final(self).spec_acks() == old(self).spec_acks().update(old(self).spec_ordinal(device@), true),
            !old(self).spec_participant(device@) ==> *final(self) == *old(self),
            old(self).spec_participant(device@) ==> final(self).spec_acknowledged(device@),
            forall|d: Seq<u8>|
                d != device@ ==> final(self).spec_acknowledged(d) == old(self).spec_acknowledged(d),
    {
        proof {
            let devs = self.communicator.spec_devices();
            if self.spec_participant(device@) {
                let ord = self.communicator.spec_ordinal(device@).unwrap();
                assert(devs[ord] == device@);
                assert forall|d: Seq<u8>|
                    d != device@ && self.spec_participant(d) implies self.spec_ordinal(d)
                    != ord by {
                    let e = choose|j: int| 0 <= j < devs.len() && devs[j] == d;
                    if self.spec_ordinal(d) == ord {
                        crate::lemma_distinct_unique(devs, self.spec_ordinal(d), ord);
                    }
                }
            }
        }
        let ord = match self.ordinal_of(device) {
            Some(ord) => ord,
            None => {
                return ;
            },
        };
        self.acks.set(ord, true);
    }

    pub fn device_acknowledged(&self, device: &Vec<u8>) -> (r: bool)
        requires
            self.wf(),
        ensures
            r == self.spec_acknowledged(device@),
    {
        match self.ordinal_of(device) {
            Some(ord) => self.acks[ord],
            None => false,
        }
    }

    /// Resets the round state for a fresh attempt; refused once the
    /// protocol has committed its result, and a no-op after a rejection.
    pub fn restart(&mut self) -> (r: Result<bool, TaskError>)
        requires
            old(self).wf(),
        ensures
            final(self).wf(),
            final(self).spec_device_ids() == old(self).spec_device_ids(),
            final(self).spec_threshold() == old(self).spec_threshold(),
            final(self).spec_acks() == old(self).spec_acks(),
            final(self).spec_decisions() == old(self).spec_decisions(),
            final(self).spec_failed() == old(self).spec_failed(),
            final(self).spec_finished() == old(self).spec_finished(),
            final(self).spec_name() == old(self).spec_name(),
            r == Err::<bool, TaskError>(TaskError::AlreadyFinished) <==> old(self).spec_finished(),
            r is Err ==> *final(self) == *old(self),
            r == Ok::<bool, TaskError>(false) <==> (!old(self).spec_finished() && old(self).spec_failed()),
            r == Ok::<bool, TaskError>(false) ==> *final(self) == *old(self),
            r == Ok::<bool, TaskError>(true) <==> (!old(self).spec_finished() && !old(self).spec_failed()),
            r == Ok::<bool, TaskError>(true) ==> final(self).spec_round() == 1 && final(self).spec_pending() == final(self).spec_device_ids() && forall|d: Seq<u8>| !final(self).spec_contributed(d),
    {
        if self.result.is_some() {
            return Err(TaskError::AlreadyFinished);
        }
        if self.failure.is_some() {
            return Ok(false);
        }
        let n = self.devices.len();
        let device_list = crate::clone_ids(&self.devices);
        proof {
            assert(crate::ids_view(device_list@).len() == crate::ids_view(self.devices@).len());
            assert(device_list@.len() == self.devices@.len());
        }
        let mut communicator = Communicator::new(device_list, self.threshold);
        let mut protocol = Gg18Group::new(n as u32, self.threshold);
        let empty: Vec<u8> = Vec::new();
        protocol.initialize(&mut communicator, &empty);
        proof {
            if communicator.spec_active().len() > 0 {
                assert(!communicator.spec_all_contributed()) by {
                    assert(communicator.spec_active()[0] == 0);
                    assert(communicator.spec_incoming(
                        communicator.spec_active()[0] as int,
                    ).is_none());
                }
            }
        }
        proof {
            communicator.lemma_pending_initial(communicator.spec_devices().len() as int);
            assert(communicator.spec_devices().take(communicator.spec_devices().len() as int)
                =~= communicator.spec_devices());
        }
        self.communicator = communicator;
        self.protocol = protocol;
        Ok(true)
    }

    /// The payload the relay currently holds for the device.
    pub closed spec fn spec_work(self, device: Seq<u8>) -> Option<Seq<u8>> {
        self.communicator.spec_outgoing(self.spec_ordinal(device))
    }

    /// The payload currently awaiting the device, if any.
    pub fn get_work(&self, device: &Vec<u8>) -> (r: Option<Vec<u8>>)
        requires
            self.wf(),
        ensures
            (self.spec_finished() || self.spec_failed() || !self.spec_participant(device@)) ==> r
                is None,
            (!self.spec_finished() && !self.spec_failed() && self.spec_participant(device@))
                ==> (match r {
                Some(m) => Some(m@) == self.spec_work(device@),
                None => self.spec_work(device@).is_none(),
            }),
    {
        if self.result.is_some() || self.failure.is_some() {
            return None;
        }
        self.communicator.get_work(device)
    }

    /// The projected status: failed, finished with the established
    /// Group, or waiting on the devices still owing a contribution.
    pub fn get_status(&self) -> (r: TaskStatus)
        requires
            self.wf(),
        ensures
            match r {
                TaskStatus::Failed(reason) => self.spec_failed() && reason@
                    == self.spec_failure_reason(),
                TaskStatus::Finished(TaskResult::GroupEstablished(g)) => {
                    &&& self.spec_finished()
                    &&& !self.spec_failed()
                    &&& g.wf()
                    &&& g.spec_devices() == self.spec_device_ids()
                    &&& g.spec_threshold() == self.spec_threshold()
                },
                TaskStatus::Finished(TaskResult::Signed(_)) => false,
                TaskStatus::Waiting(pending) => {
                    &&& !self.spec_finished()
                    &&& !self.spec_failed()
                    &&& crate::ids_view(pending@) == self.spec_pending()
                },
            },
    {
        if let Some(reason) = &self.failure {
            return TaskStatus::Failed(crate::clone_bytes(reason));
        }
        if let Some(g) = &self.result {
            return TaskStatus::Finished(TaskResult::GroupEstablished(g.clone()));
        }
        TaskStatus::Waiting(self.communicator.pending_devices())
    }
}

/// A signing task: drives a signing protocol run over the members of an
/// established group; on completion it carries the opaque signature.
pub struct SignTask {
    group: Group,
    name: Vec<u8>,
    data: Vec<u8>,
    protocol: Musig2Sign,
    communicator: Communicator,
    result: Option<Vec<u8>>,
    failure: Option<Vec<u8>>,
    acks: Vec<bool>,
    decisions: Vec<Option<bool>>,
}

impl SignTask {
    pub closed spec fn spec_device_ids(self) -> Seq<Seq<u8>> {
        self.group.spec_devices()
    }

    pub closed spec fn spec_group(self) -> Group {
        self.group
    }

    pub closed spec fn spec_name(self) -> Seq<u8> {
        self.name@
    }

    pub closed spec fn spec_data(self) -> Seq<u8> {
        self.data@
    }

    pub closed spec fn spec_finished(self) -> bool {
        self.result.is_some()
    }

    pub closed spec fn spec_failed(self) -> bool {
        self.failure.is_some()
    }

    /// The identifier of the rejecting device, once one has rejected.
    pub closed spec fn spec_failure_reason(self) -> Seq<u8> {
        self.failure.unwrap()@
    }

    /// The opaque signature, once the protocol has committed it.
    pub closed spec fn spec_result(self) -> Option<Seq<u8>> {
        match self.result {
            Some(s) => Some(s@),
            None => None,
        }
    }

    pub closed spec fn spec_acks(self) -> Seq<bool> {
        self.acks@
    }

    pub closed spec fn spec_decisions(self) -> Seq<Option<bool>> {
        self.decisions@
    }

    pub closed spec fn spec_round(self) -> u16 {
        self.protocol.spec_round()
    }

    pub closed spec fn spec_last_round(self) -> u16 {
        self.protocol.spec_last_round()
    }

    pub open spec fn spec_participant(self, device: Seq<u8>) -> bool {
        crate::ids_contain(self.spec_device_ids(), device)
    }

    /// Every participant but `device` has posted this round.
    pub open spec fn others_contributed(self, device: Seq<u8>) -> bool {
        forall|d: Seq<u8>| #![auto]
            self.spec_participant(d) && d != device ==> self.spec_contributed(d)
    }

    /// The ordinal of a participant in the group's member list.
    pub closed spec fn spec_ordinal(self, device: Seq<u8>) -> int {
        self.communicator.spec_ordinal(device).unwrap()
    }

    pub closed spec fn spec_acknowledged(self, device: Seq<u8>) -> bool {
        self.spec_participant(device) && self.acks@[self.spec_ordinal(device)]
    }

    /// Whether the device has posted its contribution to the current
    /// round.
    pub closed spec fn spec_contributed(self, device: Seq<u8>) -> bool {
        self.spec_participant(device) && self.communicator.spec_incoming(
            self.spec_ordinal(device),
        ).is_some()
    }

    pub closed spec fn spec_pending(self) -> Seq<Seq<u8>> {
        self.communicator.spec_pending()
    }

    pub closed spec fn wf(self) -> bool {
        &&& self.group.wf()
        &&& self.communicator.wf()
        &&& self.communicator.spec_devices() == self.group.spec_devices()
        &&& self.acks@.len() == self.group.spec_devices().len()
        &&& self.decisions@.len() == self.group.spec_devices().len()
        &&& self.communicator.spec_active().len() == self.group.spec_devices().len()
        &&& forall|i: int|
            0 <= i < self.communicator.spec_active().len()
                ==> self.communicator.spec_active()[i] == i
        &&& 1 <= self.protocol.spec_round()
        &&& self.protocol.spec_round() <= self.protocol.spec_last_round() + 1
        &&& (self.result.is_some() <==> self.protocol.spec_round()
            == self.protocol.spec_last_round() + 1)
        &&& (self.result.is_none() && self.communicator.spec_active().len() > 0
            ==> !self.communicator.spec_all_contributed())
        &&& !(self.result.is_some() && self.failure.is_some())
        &&& (match self.failure {
            Some(d) => crate::ids_contain(self.group.spec_devices(), d@),
            None => true,
        })
    }

    /// A device stands in the Waiting projection's pending list exactly
    /// when it participates and has not posted this round.
    pub proof fn lemma_pending(self, d: Seq<u8>)
        requires
            self.wf(),
        ensures
            crate::ids_contain(self.spec_pending(), d) <==> (self.spec_participant(d)
                && !self.spec_contributed(d)),
    {
        self.group.lemma_wf();
        let c = self.communicator;
        let n = c.spec_devices().len() as int;
        c.lemma_pending_membership(n, d);
        if self.spec_participant(d) {
            let ord = c.spec_ordinal(d).unwrap();
            assert(c.spec_devices()[ord] == d);
            assert(c.spec_active()[ord] == ord);
            assert(c.spec_is_active(ord));
        }
        if crate::ids_contain(self.spec_pending(), d) {
            let k = choose|k: int|
                0 <= k < n && c.spec_devices()[k] == d && c.spec_is_active(k) && c.spec_incoming(
                    k,
                ).is_none();
            assert(crate::ids_contain(c.spec_devices(), d));
            crate::lemma_distinct_unique(c.spec_devices(), k, c.spec_ordinal(d).unwrap());
        }
    }

    /// Builds the task over the group's members and opens its signing
    /// run: every member is handed the announcement payload carrying the
    /// data to be signed.
    pub fn new(group: &Group, name: Vec<u8>, data: Vec<u8>) -> (t: SignTask)
        requires
            group.wf(),
        ensures
            t.wf(),
            t.spec_device_ids() == group.spec_devices(),
            t.spec_group().spec_identifier() == group.spec_identifier(),
            t.spec_group().spec_threshold() == group.spec_threshold(),
            t.spec_name() == name@,
            t.spec_data() == data@,
            !t.spec_finished(),
            !t.spec_failed(),
            t.spec_round() == 1,
            t.spec_acks().len() == group.spec_devices().len(),
            forall|i: int| 0 <= i < t.spec_acks().len() ==> !t.spec_acks()[i],
            forall|i: int| 0 <= i < t.spec_decisions().len() ==> t.spec_decisions()[i].is_none(),
            forall|d: Seq<u8>| !t.spec_contributed(d),
            t.spec_pending() == t.spec_device_ids(),
    {
        let members = group.devices();
        let device_list = crate::clone_ids(members);
        let n = device_list.len();
        proof {
            group.lemma_wf();
            assert(crate::ids_view(device_list@).len() == group.spec_devices().len());
        }
        let mut communicator = Communicator::new(device_list, group.threshold());
        let mut protocol = Musig2Sign::new();
        protocol.initialize(&mut communicator, &data);
        proof {
            if communicator.spec_active().len() > 0 {
                assert(!communicator.spec_all_contributed()) by {
                    assert(communicator.spec_active()[0] == 0);
                    assert(communicator.spec_incoming(
                        communicator.spec_active()[0] as int,
                    ).is_none());
                }
            }
        }
        proof {
            communicator.lemma_pending_initial(communicator.spec_devices().len() as int);
            assert(communicator.spec_devices().take(communicator.spec_devices().len() as int)
                =~= communicator.spec_devices());
        }
        let mut acks: Vec<bool> = Vec::new();
        let mut decisions: Vec<Option<bool>> = Vec::new();
        let mut i: usize = 0;
        while i < n
            invariant
                i <= n,
                acks@.len() == i,
                decisions@.len() == i,
                forall|j: int| 0 <= j < i ==> !acks@[j],
                forall|j: int| 0 <= j < i ==> decisions@[j].is_none(),
            decreases n - i,
        {
            acks.push(false);
            decisions.push(None);
            i += 1;
        }
        SignTask {
            group: group.clone(),
            name,
            data,
            protocol,
            communicator,
            result: None,
            failure: None,
            acks,
            decisions,
        }
    }

    pub fn has_device(&self, device: &Vec<u8>) -> (r: bool)
        requires
            self.wf(),
        ensures
            r == self.spec_participant(device@),
    {
        self.group.contains(device)
    }

    pub fn get_devices(&self) -> (r: &Vec<Vec<u8>>)
        ensures
            crate::ids_view(r@) == self.spec_device_ids(),
    {
        self.group.devices()
    }

    pub fn get_data(&self) -> (r: &Vec<u8>)
        ensures
            r@ == self.spec_data(),
    {
        &self.data
    }

    pub fn get_result(&self) -> (r: Option<Vec<u8>>)
        ensures
            match r {
                Some(s) => Some(s@) == self.spec_result(),
                None => !self.spec_finished(),
            },
    {
        match &self.result {
            Some(s) => Some(crate::clone_bytes(s)),
            None => None,
        }
    }

    /// Forwards a participant's round contribution; when the round is
    /// thereby complete the protocol advances or, on its last round,
    /// finalizes, committing the signature.  Reports whether the task's
    /// visible state changed.
    pub fn update(&mut self, device: &Vec<u8>, data: Vec<u8>) -> (r: Result<bool, TaskError>)
        requires
            old(self).wf(),
        ensures
            final(self).wf(),
            final(self).spec_device_ids() == old(self).spec_device_ids(),
            final(self).spec_group() == old(self).spec_group(),
            final(self).spec_name() == old(self).spec_name(),
            final(self).spec_data() == old(self).spec_data(),
            final(self).spec_acks() == old(self).spec_acks(),
            final(self).spec_decisions() == old(self).spec_decisions(),
            final(self).spec_failed() == old(self).spec_failed(),
            r == Err::<bool, TaskError>(TaskError::UnknownDevice) <==> !old(self).spec_participant(device@),
            r is Err ==> *final(self) == *old(self) && r == Err::<bool, TaskError>(
                TaskError::UnknownDevice,
            ),
            old(self).spec_finished() ==> final(self).spec_finished() && final(self).spec_result()
                == old(self).spec_result(),
            (old(self).spec_finished() || old(self).spec_failed()) ==> *final(self) == *old(self)
                && (r is Err || r == Ok::<bool, TaskError>(false)),
            r == Ok::<bool, TaskError>(true) <==> (old(self).spec_participant(device@) && !old(self).spec_finished() && !old(self).spec_failed() && !old(self).spec_contributed(device@)),
            r == Ok::<bool, TaskError>(false) ==> *final(self) == *old(self),
            final(self).spec_round() == old(self).spec_round() || final(self).spec_round()
                == old(self).spec_round() + 1,
            final(self).spec_round() == old(self).spec_round() + 1 ==> (r == Ok::<
                bool,
                TaskError,
            >(true) && !old(self).spec_contributed(device@) && old(self).others_contributed(
                device@,
            )),
            (r == Ok::<bool, TaskError>(true) && old(self).others_contributed(device@) && old(self).spec_round() < old(self).spec_last_round()) ==> final(self).spec_round() == old(self).spec_round() + 1,
            (r == Ok::<bool, TaskError>(true) && !old(self).others_contributed(device@)) ==> final(self).spec_round() == old(self).spec_round(),
            final(self).spec_round() == old(self).spec_round() + 1 && !final(self).spec_finished()
                ==> forall|d: Seq<u8>| !final(self).spec_contributed(d),
            final(self).spec_round() == old(self).spec_round() ==> forall|d: Seq<u8>|
                d != device@ ==> final(self).spec_contributed(d) == old(self).spec_contributed(d),
            final(self).spec_finished() && !old(self).spec_finished() ==> {
                &&& old(self).spec_round() == old(self).spec_last_round()
                &&& !old(self).spec_contributed(device@)
                &&& old(self).others_contributed(device@)
            },
            (old(self).spec_participant(device@) && !old(self).spec_finished() && !old(self).spec_failed() && !old(self).spec_contributed(device@) && old(self).spec_round()
                == old(self).spec_last_round() && old(self).others_contributed(device@)) ==> final(self).spec_finished(),
            final(self).spec_finished() && !old(self).spec_finished() ==> r == Ok::<
                bool,
                TaskError,
            >(true),
            r == Ok::<bool, TaskError>(true) && !old(self).spec_contributed(device@) && !final(self).spec_finished() && final(self).spec_round() == old(self).spec_round() ==> final(self).spec_contributed(device@),
    {
        if !self.has_device(device) {
            return Err(TaskError::UnknownDevice);
        }
        if self.result.is_some() || self.failure.is_some() {
            return Ok(false);
        }
        proof {
            let ord = self.communicator.spec_ordinal(device@).unwrap();
            assert(self.communicator.spec_active()[ord] == ord);
            assert(self.communicator.spec_is_active(ord));
        }
        let changed = self.communicator.receive(device, data);
        if !changed {
            proof {
                assert(old(self).spec_contributed(device@));
            }
            return Ok(false);
        }
        let all = self.communicator.all_contributed();
        proof {
            old(self).group.lemma_wf();
            let ord = old(self).communicator.spec_ordinal(device@).unwrap();
            assert(old(self).communicator.spec_devices()[ord] == device@);
            assert(self.communicator.spec_incoming(ord).is_some());
            if !all {
                let k = choose|k: int|
                    0 <= k < self.communicator.spec_active().len()
                        && !self.communicator.spec_incoming(
                        self.communicator.spec_active()[k] as int,
                    ).is_some();
                assert(self.communicator.spec_active()[k] == k);
                assert(k != ord);
                let dk = old(self).communicator.spec_devices()[k];
                if dk == device@ {
                    crate::lemma_distinct_unique(old(self).communicator.spec_devices(), k, ord);
                }
                assert(old(self).spec_participant(dk));
                let k2 = choose|j: int|
                    0 <= j < old(self).communicator.spec_devices().len() && old(self).communicator.spec_devices()[j] == dk;
                crate::lemma_distinct_unique(old(self).communicator.spec_devices(), k2, k);
                assert(!old(self).spec_contributed(dk));
                assert(!old(self).others_contributed(device@));
                assert forall|d: Seq<u8>|
                    d != device@ implies self.spec_contributed(d) == old(self).spec_contributed(
                    d,
                ) by {
                    if old(self).spec_participant(d) {
                        let e = choose|j: int|
                            0 <= j < old(self).communicator.spec_devices().len() && old(self).communicator.spec_devices()[j] == d;
                        crate::lemma_distinct_unique(
                            old(self).communicator.spec_devices(),
                            e,
                            old(self).communicator.spec_ordinal(d).unwrap(),
                        );
                        if e == ord {
                            crate::lemma_distinct_unique(
                                old(self).communicator.spec_devices(),
                                e,
                                ord,
                            );
                        }
                        assert(self.communicator.spec_incoming(e) == old(self).communicator.spec_incoming(e));
                    }
                }
            } else {
                assert forall|d: Seq<u8>|
                    old(self).spec_participant(d) && d != device@ implies old(self).spec_contributed(d) by {
                    let e = choose|j: int|
                        0 <= j < old(self).communicator.spec_devices().len() && old(self).communicator.spec_devices()[j] == d;
                    assert(self.communicator.spec_active()[e] == e);
                    assert(self.communicator.spec_incoming(
                        self.communicator.spec_active()[e] as int,
                    ).is_some());
                    if e == ord {
                        crate::lemma_distinct_unique(
                            old(self).communicator.spec_devices(),
                            e,
                            ord,
                        );
                    }
                    assert(old(self).communicator.spec_incoming(e).is_some());
                }
                assert(old(self).others_contributed(device@));
            }
        }
        if all {
            if self.protocol.round() < self.protocol.last_round() {
                self.protocol.advance(&mut self.communicator);
                proof {
                    if self.communicator.spec_active().len() > 0 {
                        assert(!self.communicator.spec_all_contributed()) by {
                            assert(self.communicator.spec_incoming(
                                self.communicator.spec_active()[0] as int,
                            ).is_none());
                        }
                    }
                    assert forall|d: Seq<u8>| !self.spec_contributed(d) by {
                        if self.spec_participant(d) {
                            let e = self.communicator.spec_ordinal(d).unwrap();
                            assert(self.communicator.spec_incoming(e).is_none());
                        }
                    }
                }
            } else {
                proof {
                    let ord = self.communicator.spec_ordinal(device@).unwrap();
                    assert(self.communicator.spec_active()[ord] == ord);
                }
                let out = self.protocol.finalize(&mut self.communicator);
                match out {
                    Some(signature) => {
                        self.result = Some(signature);
                    },
                    None => {
                        proof {
                            assert(false);
                        }
                    },
                }
            }
        }
        Ok(true)
    }

    /// Records a participant's consent vote; a rejection fails the task.
    /// Reports whether anything changed.
    pub fn decide(&mut self, device: &Vec<u8>, accept: bool) -> (r: bool)
        requires
            old(self).wf(),
        ensures
            final(self).wf(),
            final(self).spec_device_ids() == old(self).spec_device_ids(),
            final(self).spec_group() == old(self).spec_group(),
            final(self).spec_acks() == old(self).spec_acks(),
            final(self).spec_finished() == old(self).spec_finished(),
            final(self).spec_result() == old(self).spec_result(),
            final(self).spec_name() == old(self).spec_name(),
            final(self).spec_data() == old(self).spec_data(),
            final(self).spec_round() == old(self).spec_round(),
            final(self).spec_pending() == old(self).spec_pending(),
            forall|d: Seq<u8>| final(self).spec_contributed(d) == old(self).spec_contributed(d),
            r == (old(self).spec_participant(device@) && !old(self).spec_finished() && !old(self).spec_failed() && old(self).spec_decisions()[old(self).spec_ordinal(
                device@,
            )].is_none()),
            !r ==> *final(self) == *old(self),
            r ==> final(self).spec_decisions() == old(self).spec_decisions().update(
                old(self).spec_ordinal(device@),
                Some(accept),
            ),
            r && !accept ==> final(self).spec_failed() && final(self).spec_failure_reason()
                == device@,
            r && accept ==> final(self).spec_failed() == old(self).spec_failed(),
    {
        let ord = match self.communicator.ordinal_of(device) {
            Some(ord) => ord,
            None => {
                return false;
            },
        };
        if self.result.is_some() || self.failure.is_some() {
            return false;
        }
        if self.decisions[ord].is_some() {
            return false;
        }
        self.decisions.set(ord, Some(accept));
        if !accept {
            self.failure = Some(crate::clone_bytes(device));
        }
        true
    }

    /// Marks that the device has observed the task's terminal status.
    pub fn acknowledge(&mut self, device: &Vec<u8>)
        requires
            old(self).wf(),
        ensures
            final(self).wf(),
            final(self).spec_device_ids() == old(self).spec_device_ids(),
            final(self).spec_group() == old(self).spec_group(),
            final(self).spec_finished() == old(self).spec_finished(),
            final(self).spec_failed() == old(self).spec_failed(),
            final(self).spec_result() == old(self).spec_result(),
            final(self).spec_decisions() == old(self).spec_decisions(),
            final(self).spec_name() == old(self).spec_name(),
            final(self).spec_data() == old(self).spec_data(),
            final(self).spec_round() == old(self).spec_round(),
            final(self).spec_pending() == old(self).spec_pending(),
            forall|d: Seq<u8>| final(self).spec_contributed(d) == old(self).spec_contributed(d),
            (old(self).spec_failed() ==> final(self).spec_failure_reason() == old(self).spec_failure_reason()),
            old(self).spec_participant(device@) ==> final(self).spec_acks() == old(self).spec_acks().update(old(self).spec_ordinal(device@), true),
            !old(self).spec_participant(device@) ==> *final(self) == *old(self),
            old(self).spec_participant(device@) ==> final(self).spec_acknowledged(device@),
            forall|d: Seq<u8>|
                d != device@ ==> final(self).spec_acknowledged(d) == old(self).spec_acknowledged(d),
    {
        proof {
            let devs = self.communicator.spec_devices();
            if self.spec_participant(device@) {
                let ord = self.communicator.spec_ordinal(device@).unwrap();
                assert(devs[ord] == device@);
                assert forall|d: Seq<u8>|
                    d != device@ && self.spec_participant(d) implies self.spec_ordinal(d)
                    != ord by {
                    let e = choose|j: int| 0 <= j < devs.len() && devs[j] == d;
                    if self.spec_ordinal(d) == ord {
                        crate::lemma_distinct_unique(devs, self.spec_ordinal(d), ord);
                    }
                }
            }
        }
        let ord = match self.communicator.ordinal_of(device) {
            Some(ord) => ord,
            None => {
                return ;
            },
        };
        self.acks.set(ord, true);
    }

    pub fn device_acknowledged(&self, device: &Vec<u8>) -> (r: bool)
        requires
            self.wf(),
        ensures
            r == self.spec_acknowledged(device@),
    {
        match self.communicator.ordinal_of(device) {
            Some(ord) => self.acks[ord],
            None => false,
        }
    }

    /// Resets the round state for a fresh attempt; refused once the
    /// protocol has committed its signature, and a no-op after a
    /// rejection.
    pub fn restart(&mut self) -> (r: Result<bool, TaskError>)
        requires
            old(self).wf(),
        ensures
            final(self).wf(),
            final(self).spec_device_ids() == old(self).spec_device_ids(),
            final(self).spec_group() == old(self).spec_group(),
            final(self).spec_data() == old(self).spec_data(),
            final(self).spec_acks() == old(self).spec_acks(),
            final(self).spec_decisions() == old(self).spec_decisions(),
            final(self).spec_failed() == old(self).spec_failed(),
            final(self).spec_finished() == old(self).spec_finished(),
            final(self).spec_name() == old(self).spec_name(),
            r == Err::<bool, TaskError>(TaskError::AlreadyFinished) <==> old(self).spec_finished(),
            r is Err ==> *final(self) == *old(self),
            r == Ok::<bool, TaskError>(false) <==> (!old(self).spec_finished() && old(self).spec_failed()),
            r == Ok::<bool, TaskError>(false) ==> *final(self) == *old(self),
            r == Ok::<bool, TaskError>(true) <==> (!old(self).spec_finished() && !old(self).spec_failed()),
            r == Ok::<bool, TaskError>(true) ==> final(self).spec_round() == 1 && final(self).spec_pending() == final(self).spec_device_ids() && forall|d: Seq<u8>| !final(self).spec_contributed(d),
    {
        if self.result.is_some() {
            return Err(TaskError::AlreadyFinished);
        }
        if self.failure.is_some() {
            return Ok(false);
        }
        let members = self.group.devices();
        let device_list = crate::clone_ids(members);
        proof {
            self.group.lemma_wf();
            assert(crate::ids_view(device_list@).len() == self.group.spec_devices().len());
        }
        let mut communicator = Communicator::new(device_list, self.group.threshold());
        let mut protocol = Musig2Sign::new();
        protocol.initialize(&mut communicator, &self.data);
        proof {
            if communicator.spec_active().len() > 0 {
                assert(!communicator.spec_all_contributed()) by {
                    assert(communicator.spec_active()[0] == 0);
                    assert(communicator.spec_incoming(
                        communicator.spec_active()[0] as int,
                    ).is_none());
                }
            }
        }
        proof {
            communicator.lemma_pending_initial(communicator.spec_devices().len() as int);
            assert(communicator.spec_devices().take(communicator.spec_devices().len() as int)
                =~= communicator.spec_devices());
        }
        self.communicator = communicator;
        self.protocol = protocol;
        Ok(true)
    }

    /// The data to process, handed out only once the device has posted
    /// its contribution to the current round.
    pub fn get_work(&self, device: &Vec<u8>) -> (r: Option<Vec<u8>>)
        requires
            self.wf(),
        ensures
            r is Some <==> (!self.spec_finished() && !self.spec_failed() && self.spec_contributed(
                device@,
            )),
            r is Some ==> r.unwrap()@ == self.spec_data(),
    {
        if self.result.is_some() || self.failure.is_some() {
            return None;
        }
        if self.communicator.has_contributed(device) {
            Some(crate::clone_bytes(&self.data))
        } else {
            None
        }
    }

    /// The projected status: failed, finished with the signature, or
    /// waiting on the devices still owing a contribution.
    pub fn get_status(&self) -> (r: TaskStatus)
        requires
            self.wf(),
        ensures
            match r {
                TaskStatus::Failed(reason) => self.spec_failed() && reason@
                    == self.spec_failure_reason(),
                TaskStatus::Finished(TaskResult::Signed(s)) => {
                    &&& self.spec_finished()
                    &&& !self.spec_failed()
                    &&& Some(s@) == self.spec_result()
                },
                TaskStatus::Finished(TaskResult::GroupEstablished(_)) => false,
                TaskStatus::Waiting(pending) => {
                    &&& !self.spec_finished()
                    &&& !self.spec_failed()
                    &&& crate::ids_view(pending@) == self.spec_pending()
                },
            },
    {
        if let Some(reason) = &self.failure {
            return TaskStatus::Failed(crate::clone_bytes(reason));
        }
        if let Some(s) = &self.result {
            return TaskStatus::Finished(TaskResult::Signed(crate::clone_bytes(s)));
        }
        TaskStatus::Waiting(self.communicator.pending_devices())
    }
}


/// A task of either kind, as the orchestrator stores it.
pub enum Task {
    Group(GroupTask),
    Sign(SignTask),
}

impl Task {
    pub open spec fn wf(self) -> bool {
        match self {
            Task::Group(t) => t.wf(),
            Task::Sign(t) => t.wf(),
        }
    }

    pub open spec fn spec_device_ids(self) -> Seq<Seq<u8>> {
        match self {
            Task::Group(t) => t.spec_device_ids(),
            Task::Sign(t) => t.spec_device_ids(),
        }
    }

    pub open spec fn spec_finished(self) -> bool {
        match self {
            Task::Group(t) => t.spec_finished(),
            Task::Sign(t) => t.spec_finished(),
        }
    }

    pub open spec fn spec_failed(self) -> bool {
        match self {
            Task::Group(t) => t.spec_failed(),
            Task::Sign(t) => t.spec_failed(),
        }
    }

    pub open spec fn spec_failure_reason(self) -> Seq<u8> {
        match self {
            Task::Group(t) => t.spec_failure_reason(),
            Task::Sign(t) => t.spec_failure_reason(),
        }
    }

    pub open spec fn spec_name(self) -> Seq<u8> {
        match self {
            Task::Group(t) => t.spec_name(),
            Task::Sign(t) => t.spec_name(),
        }
    }

    pub open spec fn spec_round(self) -> u16 {
        match self {
            Task::Group(t) => t.spec_round(),
            Task::Sign(t) => t.spec_round(),
        }
    }

    pub open spec fn spec_last_round(self) -> u16 {
        match self {
            Task::Group(t) => t.spec_last_round(),
            Task::Sign(t) => t.spec_last_round(),
        }
    }

    pub open spec fn spec_participant(self, device: Seq<u8>) -> bool {
        crate::ids_contain(self.spec_device_ids(), device)
    }

    pub open spec fn spec_ordinal(self, device: Seq<u8>) -> int {
        match self {
            Task::Group(t) => t.spec_ordinal(device),
            Task::Sign(t) => t.spec_ordinal(device),
        }
    }

    pub open spec fn spec_acknowledged(self, device: Seq<u8>) -> bool {
        match self {
            Task::Group(t) => t.spec_acknowledged(device),
            Task::Sign(t) => t.spec_acknowledged(device),
        }
    }

    pub open spec fn spec_acks(self) -> Seq<bool> {
        match self {
            Task::Group(t) => t.spec_acks(),
            Task::Sign(t) => t.spec_acks(),
        }
    }

    pub open spec fn spec_decisions(self) -> Seq<Option<bool>> {
        match self {
            Task::Group(t) => t.spec_decisions(),
            Task::Sign(t) => t.spec_decisions(),
        }
    }

    /// Whether the device has yet to cast its consent vote.
    pub open spec fn spec_undecided(self, device: Seq<u8>) -> bool {
        self.spec_decisions()[self.spec_ordinal(device)].is_none()
    }

    pub open spec fn spec_contributed(self, device: Seq<u8>) -> bool {
        match self {
            Task::Group(t) => t.spec_contributed(device),
            Task::Sign(t) => t.spec_contributed(device),
        }
    }

    /// Every participant but `device` has posted this round.
    pub open spec fn others_contributed(self, device: Seq<u8>) -> bool {
        match self {
            Task::Group(t) => t.others_contributed(device),
            Task::Sign(t) => t.others_contributed(device),
        }
    }

    pub open spec fn spec_pending(self) -> Seq<Seq<u8>> {
        match self {
            Task::Group(t) => t.spec_pending(),
            Task::Sign(t) => t.spec_pending(),
        }
    }

    /// The payload `get_work` owes the device: for a group-formation
    /// task the relay's current payload; for a signing task the data to
    /// sign, once the device has posted this round.
    pub open spec fn spec_work_for(self, device: Seq<u8>) -> Option<Seq<u8>> {
        match self {
            Task::Group(t) => if t.spec_finished() || t.spec_failed() || !t.spec_participant(
                device,
            ) {
                None
            } else {
                t.spec_work(device)
            },
            Task::Sign(t) => if !t.spec_finished() && !t.spec_failed() && t.spec_contributed(
                device,
            ) {
                Some(t.spec_data())
            } else {
                None
            },
        }
    }

    pub fn has_device(&self, device: &Vec<u8>) -> (r: bool)
        requires
            self.wf(),
        ensures
            r == self.spec_participant(device@),
    {
        match self {
            Task::Group(t) => t.has_device(device),
            Task::Sign(t) => t.has_device(device),
        }
    }

    pub fn get_devices(&self) -> (r: &Vec<Vec<u8>>)
        ensures
            crate::ids_view(r@) == self.spec_device_ids(),
    {
        match self {
            Task::Group(t) => t.get_devices(),
            Task::Sign(t) => t.get_devices(),
        }
    }

    pub fn is_finished(&self) -> (r: bool)
        requires
            self.wf(),
        ensures
            r == self.spec_finished(),
    {
        match self {
            Task::Group(t) => t.get_result().is_some(),
            Task::Sign(t) => t.get_result().is_some(),
        }
    }

    /// The established group, when a finished group-formation task
    /// carries one.
    pub fn group_result(&self) -> (r: Option<Group>)
        requires
            self.wf(),
        ensures
            match r {
                Some(g) => {
                    &&& self.spec_finished()
                    &&& self matches Task::Group(_)
                    &&& g.wf()
                    &&& g.spec_devices() == self.spec_device_ids()
                    &&& g.spec_threshold() == self.spec_threshold_of()
                },
                None => !(self.spec_finished() && self matches Task::Group(_)),
            },
    {
        match self {
            Task::Group(t) => t.get_result(),
            Task::Sign(_) => None,
        }
    }

    /// The committed signature, once a signing task has finished.
    pub open spec fn spec_signature_of(self) -> Option<Seq<u8>> {
        match self {
            Task::Group(_) => None,
            Task::Sign(t) => t.spec_result(),
        }
    }

    /// The threshold the task runs under: its own for a group-formation
    /// task, the group's for a signing task.
    pub open spec fn spec_threshold_of(self) -> u32 {
        match self {
            Task::Group(t) => t.spec_threshold(),
            Task::Sign(t) => t.spec_group().spec_threshold(),
        }
    }

    /// The member set of the group a finished group-formation task
    /// established.
    pub open spec fn group_devices_of_result(self) -> Seq<Seq<u8>> {
        match self {
            Task::Group(t) => t.spec_result().unwrap().spec_devices(),
            Task::Sign(_) => Seq::empty(),
        }
    }

    /// Forwards a participant's round contribution to the task.
    pub fn update(&mut self, device: &Vec<u8>, data: Vec<u8>) -> (r: Result<bool, TaskError>)
        requires
            old(self).wf(),
        ensures
            final(self).wf(),
            final(self).spec_device_ids() == old(self).spec_device_ids(),
            final(self).spec_name() == old(self).spec_name(),
            final(self).spec_acks() == old(self).spec_acks(),
            final(self).spec_decisions() == old(self).spec_decisions(),
            final(self).spec_failed() == old(self).spec_failed(),
            final(self).spec_threshold_of() == old(self).spec_threshold_of(),
            (*final(self)) matches Task::Group(_) <==> (*old(self)) matches Task::Group(_),
            r == Err::<bool, TaskError>(TaskError::UnknownDevice) <==> !old(self).spec_participant(device@),
            r is Err ==> *final(self) == *old(self) && r == Err::<bool, TaskError>(
                TaskError::UnknownDevice,
            ),
            r == Ok::<bool, TaskError>(false) ==> *final(self) == *old(self),
            old(self).spec_finished() ==> *final(self) == *old(self),
            old(self).spec_failed() ==> *final(self) == *old(self),
            r == Ok::<bool, TaskError>(true) <==> (old(self).spec_participant(device@) && !old(self).spec_finished() && !old(self).spec_failed() && !old(self).spec_contributed(device@)),
            r == Ok::<bool, TaskError>(true) && !final(self).spec_finished() && final(self).spec_round() == old(self).spec_round() ==> final(self).spec_contributed(device@),
            final(self).spec_finished() && !old(self).spec_finished() ==> r == Ok::<
                bool,
                TaskError,
            >(true),
            final(self).spec_round() == old(self).spec_round() || final(self).spec_round()
                == old(self).spec_round() + 1,
            final(self).spec_round() == old(self).spec_round() + 1 ==> (r == Ok::<
                bool,
                TaskError,
            >(true) && !old(self).spec_contributed(device@) && old(self).others_contributed(
                device@,
            )),
            (r == Ok::<bool, TaskError>(true) && old(self).others_contributed(device@) && old(self).spec_round() < old(self).spec_last_round()) ==> final(self).spec_round() == old(self).spec_round() + 1,
            (r == Ok::<bool, TaskError>(true) && !old(self).others_contributed(device@)) ==> final(self).spec_round() == old(self).spec_round(),
            final(self).spec_round() == old(self).spec_round() + 1 && !final(self).spec_finished()
                ==> forall|d: Seq<u8>| !final(self).spec_contributed(d),
            final(self).spec_round() == old(self).spec_round() ==> forall|d: Seq<u8>|
                d != device@ ==> final(self).spec_contributed(d) == old(self).spec_contributed(d),
            final(self).spec_finished() && !old(self).spec_finished() ==> {
                &&& old(self).spec_round() == old(self).spec_last_round()
                &&& !old(self).spec_contributed(device@)
                &&& old(self).others_contributed(device@)
            },
            (old(self).spec_participant(device@) && !old(self).spec_finished() && !old(self).spec_failed() && !old(self).spec_contributed(device@) && old(self).spec_round()
                == old(self).spec_last_round() && old(self).others_contributed(device@)) ==> final(self).spec_finished(),
            (final(self).spec_finished() && !old(self).spec_finished() && (*old(self)) matches Task::Group(_)) ==> final(self).group_devices_of_result() == old(self).spec_device_ids(),
    {
        match self {
            Task::Group(t) => t.update(device, data),
            Task::Sign(t) => t.update(device, data),
        }
    }

    /// Records a participant's consent vote.
    pub fn decide(&mut self, device: &Vec<u8>, decision: bool) -> (r: bool)
        requires
            old(self).wf(),
        ensures
            final(self).wf(),
            final(self).spec_device_ids() == old(self).spec_device_ids(),
            final(self).spec_name() == old(self).spec_name(),
            final(self).spec_finished() == old(self).spec_finished(),
            final(self).spec_acks() == old(self).spec_acks(),
            final(self).spec_round() == old(self).spec_round(),
            final(self).spec_pending() == old(self).spec_pending(),
            final(self).spec_signature_of() == old(self).spec_signature_of(),
            final(self).group_devices_of_result() == old(self).group_devices_of_result(),
            forall|d: Seq<u8>| final(self).spec_contributed(d) == old(self).spec_contributed(d),
            (*final(self)) matches Task::Group(_) <==> (*old(self)) matches Task::Group(_),
            r == (old(self).spec_participant(device@) && !old(self).spec_finished() && !old(self).spec_failed() && old(self).spec_undecided(device@)),
            !r ==> *final(self) == *old(self),
            r ==> final(self).spec_decisions() == old(self).spec_decisions().update(
                old(self).spec_ordinal(device@),
                Some(decision),
            ),
            r && !decision ==> final(self).spec_failed() && final(self).spec_failure_reason()
                == device@,
            r && decision ==> final(self).spec_failed() == old(self).spec_failed(),
    {
        match self {
            Task::Group(t) => t.decide(device, decision),
            Task::Sign(t) => t.decide(device, decision),
        }
    }

    /// Marks that the device has observed the task's terminal status;
    /// nothing but the acknowledgement record changes.
    pub fn acknowledge(&mut self, device: &Vec<u8>)
        requires
            old(self).wf(),
        ensures
            final(self).wf(),
            final(self).spec_device_ids() == old(self).spec_device_ids(),
            final(self).spec_name() == old(self).spec_name(),
            final(self).spec_finished() == old(self).spec_finished(),
            final(self).spec_failed() == old(self).spec_failed(),
            (old(self).spec_failed() ==> final(self).spec_failure_reason() == old(self).spec_failure_reason()),
            final(self).spec_decisions() == old(self).spec_decisions(),
            final(self).spec_round() == old(self).spec_round(),
            final(self).spec_pending() == old(self).spec_pending(),
            final(self).spec_signature_of() == old(self).spec_signature_of(),
            forall|d: Seq<u8>| final(self).spec_contributed(d) == old(self).spec_contributed(d),
            forall|d: Seq<u8>| final(self).spec_work_for(d) == old(self).spec_work_for(d),
            (*final(self)) matches Task::Group(_) <==> (*old(self)) matches Task::Group(_),
            final(self).group_devices_of_result() == old(self).group_devices_of_result(),
            forall|d: Seq<u8>|
                d != device@ ==> final(self).spec_acknowledged(d) == old(self).spec_acknowledged(d),
            old(self).spec_participant(device@) ==> final(self).spec_acks() == old(self).spec_acks().update(old(self).spec_ordinal(device@), true),
            !old(self).spec_participant(device@) ==> *final(self) == *old(self),
            old(self).spec_participant(device@) ==> final(self).spec_acknowledged(device@),
    {
        match self {
            Task::Group(t) => t.acknowledge(device),
            Task::Sign(t) => t.acknowledge(device),
        }
    }

    pub fn device_acknowledged(&self, device: &Vec<u8>) -> (r: bool)
        requires
            self.wf(),
        ensures
            r == self.spec_acknowledged(device@),
    {
        match self {
            Task::Group(t) => t.device_acknowledged(device),
            Task::Sign(t) => t.device_acknowledged(device),
        }
    }

    /// A device stands in the Waiting projection's pending list exactly
    /// when it participates and has not posted this round.
    pub proof fn lemma_pending(self, d: Seq<u8>)
        requires
            self.wf(),
        ensures
            crate::ids_contain(self.spec_pending(), d) <==> (self.spec_participant(d)
                && !self.spec_contributed(d)),
    {
        match self {
            Task::Group(t) => t.lemma_pending(d),
            Task::Sign(t) => t.lemma_pending(d),
        }
    }

    /// Resets the round state for a fresh attempt.
    pub fn restart(&mut self) -> (r: Result<bool, TaskError>)
        requires
            old(self).wf(),
        ensures
            final(self).wf(),
            final(self).spec_device_ids() == old(self).spec_device_ids(),
            final(self).spec_name() == old(self).spec_name(),
            final(self).spec_finished() == old(self).spec_finished(),
            final(self).spec_failed() == old(self).spec_failed(),
            final(self).spec_acks() == old(self).spec_acks(),
            final(self).spec_decisions() == old(self).spec_decisions(),
            final(self).spec_signature_of() == old(self).spec_signature_of(),
            final(self).group_devices_of_result() == old(self).group_devices_of_result(),
            (*final(self)) matches Task::Group(_) <==> (*old(self)) matches Task::Group(_),
            r == Err::<bool, TaskError>(TaskError::AlreadyFinished) <==> old(self).spec_finished(),
            r is Err ==> *final(self) == *old(self),
            r == Ok::<bool, TaskError>(false) <==> (!old(self).spec_finished() && old(self).spec_failed()),
            r == Ok::<bool, TaskError>(false) ==> *final(self) == *old(self),
            r == Ok::<bool, TaskError>(true) <==> (!old(self).spec_finished() && !old(self).spec_failed()),
            r == Ok::<bool, TaskError>(true) ==> final(self).spec_round() == 1 && final(self).spec_pending() == final(self).spec_device_ids() && forall|d: Seq<u8>| !final(self).spec_contributed(d),
    {
        match self {
            Task::Group(t) => t.restart(),
            Task::Sign(t) => t.restart(),
        }
    }

    /// The payload currently awaiting the device, if any.
    pub fn get_work(&self, device: &Vec<u8>) -> (r: Option<Vec<u8>>)
        requires
            self.wf(),
        ensures
            match r {
                Some(m) => Some(m@) == self.spec_work_for(device@),
                None => self.spec_work_for(device@) is None,
            },
    {
        match self {
            Task::Group(t) => t.get_work(device),
            Task::Sign(t) => t.get_work(device),
        }
    }

    /// The projected status of the task.
    pub fn get_status(&self) -> (r: TaskStatus)
        requires
            self.wf(),
        ensures
            r matches TaskStatus::Failed(_) <==> self.spec_failed(),
            r matches TaskStatus::Finished(_) <==> (self.spec_finished() && !self.spec_failed()),
            r matches TaskStatus::Waiting(_) <==> (!self.spec_finished() && !self.spec_failed()),
            status_matches(*self, r),
            match r {
                TaskStatus::Failed(reason) => reason@ == self.spec_failure_reason(),
                TaskStatus::Finished(TaskResult::GroupEstablished(g)) => {
                    &&& self matches Task::Group(_)
                    &&& g.wf()
                    &&& g.spec_devices() == self.spec_device_ids()
                },
                TaskStatus::Finished(TaskResult::Signed(_)) => self matches Task::Sign(_),
                TaskStatus::Waiting(pending) => crate::ids_view(pending@) == self.spec_pending(),
            },
    {
        match self {
            Task::Group(t) => t.get_status(),
            Task::Sign(t) => t.get_status(),
        }
    }
}

/// How a projected status reflects the task it was computed from.
pub open spec fn status_matches(task: Task, status: TaskStatus) -> bool {
    match status {
        TaskStatus::Failed(reason) => task.spec_failed() && reason@ == task.spec_failure_reason(),
        TaskStatus::Finished(TaskResult::GroupEstablished(g)) => {
            &&& task.spec_finished()
            &&& !task.spec_failed()
            &&& task matches Task::Group(_)
            &&& g.wf()
            &&& g.spec_devices() == task.spec_device_ids()
        },
        TaskStatus::Finished(TaskResult::Signed(_)) => task.spec_finished() && !task.spec_failed()
            && task matches Task::Sign(_),
        TaskStatus::Waiting(pending) => !task.spec_finished() && !task.spec_failed()
            && crate::ids_view(pending@) == task.spec_pending(),
    }
}

/// Acknowledging a device twice leaves the same acknowledgement record
/// as acknowledging it once: the update of the flag sequence is
/// idempotent.
pub proof fn lemma_acknowledge_idempotent(acks: Seq<bool>, ord: int)
    requires
        0 <= ord < acks.len(),
    ensures
        acks.update(ord, true).update(ord, true) == acks.update(ord, true),
{
    assert(acks.update(ord, true).update(ord, true) =~= acks.update(ord, true));
}

/// Acknowledging a device that is already acknowledged changes nothing.
pub proof fn lemma_acknowledge_stable(acks: Seq<bool>, ord: int)
    requires
        0 <= ord < acks.len(),
        acks[ord],
    ensures
        acks.update(ord, true) == acks,
{
    assert(acks.update(ord, true) =~= acks);
}


} // verus!
