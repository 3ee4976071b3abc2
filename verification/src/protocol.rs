use vstd::prelude::*;
use crate::communicator::Communicator;
use crate::group::ProtocolType;

verus! {

/// A 32-bit value in big-endian byte order.
pub open spec fn be32(x: u32) -> Seq<u8> {
    seq![
        ((x / 0x1000000) % 0x100) as u8,
        ((x / 0x10000) % 0x100) as u8,
        ((x / 0x100) % 0x100) as u8,
        (x % 0x100) as u8,
    ]
}

/// The round-zero payload announcing a key-establishment run to the
/// device with the given ordinal index: a protocol tag, the device's
/// index, the participant count and the threshold.
pub open spec fn group_init_payload(index: u32, parties: u32, threshold: u32) -> Seq<u8> {
    seq![1u8] + be32(index) + be32(parties) + be32(threshold)
}

/// The round-zero payload announcing a signing run: a protocol tag, the
/// device's index, the number of participant indices, the indices, and
/// the data to be signed.
pub open spec fn sign_init_payload(indices: Seq<u32>, index: u32, data: Seq<u8>) -> Seq<u8> {
    seq![2u8] + be32(index) + be32(indices.len() as u32) + flat_be32(indices) + data
}

pub open spec fn flat_be32(xs: Seq<u32>) -> Seq<u8>
    decreases xs.len(),
{
    if xs.len() == 0 {
        Seq::empty()
    } else {
        flat_be32(xs.drop_last()) + be32(xs.last())
    }
}

/// Appends a 32-bit value in big-endian order.
fn push_be32(out: &mut Vec<u8>, x: u32)
    ensures
        final(out)@ == old(out)@ + be32(x),
{
    out.push(((x / 0x1000000) % 0x100) as u8);
    out.push(((x / 0x10000) % 0x100) as u8);
    out.push(((x / 0x100) % 0x100) as u8);
    out.push((x % 0x100) as u8);
    proof {
        assert(out@ =~= old(out)@ + be32(x));
    }
}

/// Builds the round-zero payload of a key-establishment run.
fn build_group_init(index: u32, parties: u32, threshold: u32) -> (r: Vec<u8>)
    ensures
        r@ == group_init_payload(index, parties, threshold),
{
    let mut r: Vec<u8> = Vec::new();
    r.push(1u8);
    push_be32(&mut r, index);
    push_be32(&mut r, parties);
    push_be32(&mut r, threshold);
    proof {
        assert(r@ =~= group_init_payload(index, parties, threshold));
    }
    r
}

/// Builds the round-zero payload of a signing run.
fn build_sign_init(indices: &Vec<u32>, index: u32, data: &Vec<u8>) -> (r: Vec<u8>)
    requires
        indices@.len() <= 0xffff_ffff,
    ensures
        r@ == sign_init_payload(indices@, index, data@),
{
    let mut r: Vec<u8> = Vec::new();
    r.push(2u8);
    push_be32(&mut r, index);
    push_be32(&mut r, indices.len() as u32);
    let mut i: usize = 0;
    while i < indices.len()
        invariant
            i <= indices@.len(),
            r@ == seq![2u8] + be32(index) + be32(indices@.len() as u32) + flat_be32(
                indices@.take(i as int),
            ),
        decreases indices@.len() - i,
    {
        push_be32(&mut r, indices[i]);
        i += 1;
        proof {
            assert(indices@.take(i as int).drop_last() =~= indices@.take(i as int - 1));
            assert(r@ =~= seq![2u8] + be32(index) + be32(indices@.len() as u32) + flat_be32(
                indices@.take(i as int),
            ));
        }
    }
    proof {
        assert(indices@.take(indices@.len() as int) =~= indices@);
    }
    let mut k: usize = 0;
    let ghost head = r@;
    while k < data.len()
        invariant
            k <= data@.len(),
            r@ == head + data@.subrange(0, k as int),
        decreases data@.len() - k,
    {
        r.push(data[k]);
        k += 1;
        proof {
            assert(r@ =~= head + data@.subrange(0, k as int));
        }
    }
    proof {
        assert(r@ =~= sign_init_payload(indices@, index, data@));
    }
    r
}

/// The key-establishment round machine: one broadcast round, one relay
/// round, then finalization.
pub struct Musig2Group {
    parties: u32,
    threshold: u32,
    round: u16,
}

/// The signing round machine: one broadcast round, two relay rounds,
/// then finalization.
pub struct Musig2Sign {
    round: u16,
}

impl Musig2Group {
    pub closed spec fn spec_round(self) -> u16 {
        self.round
    }

    pub closed spec fn spec_parties(self) -> u32 {
        self.parties
    }

    pub closed spec fn spec_threshold(self) -> u32 {
        self.threshold
    }

    pub open spec fn spec_last_round(self) -> u16 {
        2
    }

    pub fn new(parties: u32, threshold: u32) -> (p: Musig2Group)
        ensures
            p.spec_round() == 0,
            p.spec_parties() == parties,
            p.spec_threshold() == threshold,
    {
        Musig2Group { parties, threshold, round: 0 }
    }

    pub fn round(&self) -> (r: u16)
        ensures
            r == self.spec_round(),
    {
        self.round
    }

    pub fn last_round(&self) -> (r: u16)
        ensures
            r == self.spec_last_round(),
    {
        2
    }

    pub fn get_type(&self) -> (r: ProtocolType)
        ensures
            r == ProtocolType::Musig2,
    {
        ProtocolType::Musig2
    }

    /// Opens the run: selects the quorum, hands every active device its
    /// announcement payload, and moves to round one.
    #[verifier::rlimit(60)]
    pub fn initialize(&mut self, communicator: &mut Communicator, _data: &Vec<u8>)
        requires
            old(self).spec_round() == 0,
            old(communicator).wf(),
        ensures
            final(self).spec_round() == 1,
            final(self).spec_parties() == old(self).spec_parties(),
            final(self).spec_threshold() == old(self).spec_threshold(),
            final(communicator).wf(),
            final(communicator).spec_devices() == old(communicator).spec_devices(),
            final(communicator).spec_threshold() == old(communicator).spec_threshold(),
            final(communicator).spec_active().len() == old(communicator).spec_devices().len(),
            forall|i: int|
                0 <= i < final(communicator).spec_active().len() ==> final(communicator).spec_active()[i] == i,
            forall|d: int|
                0 <= d < final(communicator).spec_devices().len() ==> final(communicator).spec_incoming(d).is_none(),
            forall|i: int|
                0 <= i < final(communicator).spec_active().len() ==> final(communicator).spec_outgoing(i) == Some(
                    group_init_payload(i as u32, old(self).spec_parties(), old(self).spec_threshold()),
                ),
    {
        communicator.set_active_devices();
        let n = communicator.active_count();
        let mut payloads: Vec<Vec<u8>> = Vec::new();
        let mut i: usize = 0;
        while i < n
            invariant
                i <= n,
                n <= 0xffff_ffff,
                payloads@.len() == i,
                forall|j: int|
                    0 <= j < i ==> payloads@[j]@ == group_init_payload(
                        j as u32,
                        self.parties,
                        self.threshold,
                    ),
                self.parties == old(self).parties,
                self.threshold == old(self).threshold,
            decreases n - i,
        {
            payloads.push(build_group_init(i as u32, self.parties, self.threshold));
            i += 1;
        }
        let ghost pl = payloads@;
        communicator.send_all(payloads);
        self.round = 1;
        proof {
            assert forall|k: int|
                0 <= k < communicator.spec_active().len() implies communicator.spec_outgoing(k)
                == Some(
                group_init_payload(k as u32, old(self).spec_parties(), old(self).spec_threshold()),
            ) by {
                assert(communicator.spec_active()[k] == k);
                assert(communicator.spec_outgoing(communicator.spec_active()[k] as int) == Some(
                    pl[k]@,
                ));
            }
        }
    }

    /// Exchanges the just-completed round's messages and advances.
    pub fn advance(&mut self, communicator: &mut Communicator)
        requires
            0 < old(self).spec_round() < old(self).spec_last_round(),
            old(communicator).wf(),
            old(communicator).spec_all_contributed(),
        ensures
            final(self).spec_round() == old(self).spec_round() + 1,
            final(self).spec_parties() == old(self).spec_parties(),
            final(self).spec_threshold() == old(self).spec_threshold(),
            final(communicator).wf(),
            final(communicator).spec_devices() == old(communicator).spec_devices(),
            final(communicator).spec_threshold() == old(communicator).spec_threshold(),
            final(communicator).spec_active() == old(communicator).spec_active(),
            forall|d: int|
                0 <= d < final(communicator).spec_devices().len() ==> final(communicator).spec_incoming(d).is_none(),
            forall|i: int|
                0 <= i < old(communicator).spec_active().len() ==> final(communicator).spec_outgoing(old(communicator).spec_active()[i] as int) == Some(
                    old(communicator).spec_relay_for(i),
                ),
    {
        communicator.relay();
        self.round = self.round + 1;
    }

    /// Closes the run once the last round's contributions are all in and
    /// returns the accumulated output.
    pub fn finalize(&mut self, communicator: &mut Communicator) -> (r: Option<Vec<u8>>)
        requires
            old(self).spec_round() == old(self).spec_last_round(),
            old(communicator).wf(),
        ensures
            final(self).spec_round() == old(self).spec_round() + 1,
            final(self).spec_parties() == old(self).spec_parties(),
            final(self).spec_threshold() == old(self).spec_threshold(),
            *final(communicator) == *old(communicator),
            match r {
                Some(m) => {
                    &&& old(communicator).spec_all_contributed()
                    &&& old(communicator).spec_active().len() > 0
                    &&& Some(m@) == old(communicator).spec_incoming(
                        old(communicator).spec_active()[0] as int,
                    )
                },
                None => !old(communicator).spec_all_contributed() || old(communicator).spec_active().len() == 0,
            },
    {
        self.round = self.round + 1;
        communicator.get_final_message()
    }
}

/// The one-round key-establishment machine the orchestrator runs for
/// a Gg18 group-formation request: the broadcast opens round one, and
/// the round's contributions finalize the run.
pub struct Gg18Group {
    parties: u32,
    threshold: u32,
    round: u16,
}

impl Gg18Group {
    pub closed spec fn spec_round(self) -> u16 {
        self.round
    }

    pub closed spec fn spec_parties(self) -> u32 {
        self.parties
    }

    pub closed spec fn spec_threshold(self) -> u32 {
        self.threshold
    }

    pub open spec fn spec_last_round(self) -> u16 {
        1
    }

    pub fn new(parties: u32, threshold: u32) -> (p: Gg18Group)
        ensures
            p.spec_round() == 0,
            p.spec_parties() == parties,
            p.spec_threshold() == threshold,
    {
        Gg18Group { parties, threshold, round: 0 }
    }

    pub fn round(&self) -> (r: u16)
        ensures
            r == self.spec_round(),
    {
        self.round
    }

    pub fn last_round(&self) -> (r: u16)
        ensures
            r == self.spec_last_round(),
    {
        1
    }

    pub fn get_type(&self) -> (r: ProtocolType)
        ensures
            r == ProtocolType::Gg18,
    {
        ProtocolType::Gg18
    }

    /// Opens the run: selects the quorum, hands every active device its
    /// announcement payload, and moves to round one.
    #[verifier::rlimit(60)]
    pub fn initialize(&mut self, communicator: &mut Communicator, _data: &Vec<u8>)
        requires
            old(self).spec_round() == 0,
            old(communicator).wf(),
        ensures
            final(self).spec_round() == 1,
            final(self).spec_parties() == old(self).spec_parties(),
            final(self).spec_threshold() == old(self).spec_threshold(),
            final(communicator).wf(),
            final(communicator).spec_devices() == old(communicator).spec_devices(),
            final(communicator).spec_threshold() == old(communicator).spec_threshold(),
            final(communicator).spec_active().len() == old(communicator).spec_devices().len(),
            forall|i: int|
                0 <= i < final(communicator).spec_active().len() ==> final(communicator).spec_active()[i] == i,
            forall|d: int|
                0 <= d < final(communicator).spec_devices().len() ==> final(communicator).spec_incoming(d).is_none(),
            forall|i: int|
                0 <= i < final(communicator).spec_active().len() ==> final(communicator).spec_outgoing(i) == Some(
                    group_init_payload(i as u32, old(self).spec_parties(), old(self).spec_threshold()),
                ),
    {
        communicator.set_active_devices();
        let n = communicator.active_count();
        let mut payloads: Vec<Vec<u8>> = Vec::new();
        let mut i: usize = 0;
        while i < n
            invariant
                i <= n,
                n <= 0xffff_ffff,
                payloads@.len() == i,
                forall|j: int|
                    0 <= j < i ==> payloads@[j]@ == group_init_payload(
                        j as u32,
                        self.parties,
                        self.threshold,
                    ),
                self.parties == old(self).parties,
                self.threshold == old(self).threshold,
            decreases n - i,
        {
            payloads.push(build_group_init(i as u32, self.parties, self.threshold));
            i += 1;
        }
        let ghost pl = payloads@;
        communicator.send_all(payloads);
        self.round = 1;
        proof {
            assert forall|k: int|
                0 <= k < communicator.spec_active().len() implies communicator.spec_outgoing(k)
                == Some(
                group_init_payload(k as u32, old(self).spec_parties(), old(self).spec_threshold()),
            ) by {
                assert(communicator.spec_active()[k] == k);
                assert(communicator.spec_outgoing(communicator.spec_active()[k] as int) == Some(
                    pl[k]@,
                ));
            }
        }
    }

    /// Exchanges the just-completed round's messages and advances; a
    /// one-round run has no such window.
    pub fn advance(&mut self, communicator: &mut Communicator)
        requires
            0 < old(self).spec_round() < old(self).spec_last_round(),
            old(communicator).wf(),
            old(communicator).spec_all_contributed(),
        ensures
            final(self).spec_round() == old(self).spec_round() + 1,
            final(self).spec_parties() == old(self).spec_parties(),
            final(self).spec_threshold() == old(self).spec_threshold(),
            final(communicator).wf(),
            final(communicator).spec_devices() == old(communicator).spec_devices(),
            final(communicator).spec_threshold() == old(communicator).spec_threshold(),
            final(communicator).spec_active() == old(communicator).spec_active(),
            forall|d: int|
                0 <= d < final(communicator).spec_devices().len() ==> final(communicator).spec_incoming(d).is_none(),
    {
        communicator.relay();
        self.round = self.round + 1;
    }

    /// Closes the run once the round's contributions are all in and
    /// returns the accumulated output.
    pub fn finalize(&mut self, communicator: &mut Communicator) -> (r: Option<Vec<u8>>)
        requires
            old(self).spec_round() == old(self).spec_last_round(),
            old(communicator).wf(),
        ensures
            final(self).spec_round() == old(self).spec_round() + 1,
            final(self).spec_parties() == old(self).spec_parties(),
            final(self).spec_threshold() == old(self).spec_threshold(),
            *final(communicator) == *old(communicator),
            match r {
                Some(m) => {
                    &&& old(communicator).spec_all_contributed()
                    &&& old(communicator).spec_active().len() > 0
                    &&& Some(m@) == old(communicator).spec_incoming(
                        old(communicator).spec_active()[0] as int,
                    )
                },
                None => !old(communicator).spec_all_contributed() || old(communicator).spec_active().len() == 0,
            },
    {
        self.round = self.round + 1;
        communicator.get_final_message()
    }
}

impl Musig2Sign {
    pub closed spec fn spec_round(self) -> u16 {
        self.round
    }

    pub open spec fn spec_last_round(self) -> u16 {
        3
    }

    pub fn new() -> (p: Musig2Sign)
        ensures
            p.spec_round() == 0,
    {
        Musig2Sign { round: 0 }
    }

    pub fn round(&self) -> (r: u16)
        ensures
            r == self.spec_round(),
    {
        self.round
    }

    pub fn last_round(&self) -> (r: u16)
        ensures
            r == self.spec_last_round(),
    {
        3
    }

    pub fn get_type(&self) -> (r: ProtocolType)
        ensures
            r == ProtocolType::Musig2,
    {
        ProtocolType::Musig2
    }

    /// Opens the run: selects the quorum and hands every active device
    /// its announcement payload, carrying the data to be signed.
    pub fn initialize(&mut self, communicator: &mut Communicator, data: &Vec<u8>)
        requires
            old(self).spec_round() == 0,
            old(communicator).wf(),
        ensures
            final(self).spec_round() == 1,
            final(communicator).wf(),
            final(communicator).spec_devices() == old(communicator).spec_devices(),
            final(communicator).spec_threshold() == old(communicator).spec_threshold(),
            final(communicator).spec_active().len() == old(communicator).spec_devices().len(),
            forall|i: int|
                0 <= i < final(communicator).spec_active().len() ==> final(communicator).spec_active()[i] == i,
            forall|d: int|
                0 <= d < final(communicator).spec_devices().len() ==> final(communicator).spec_incoming(d).is_none(),
            forall|i: int|
                0 <= i < final(communicator).spec_active().len() ==> final(communicator).spec_outgoing(i) == Some(
                    sign_init_payload(
                        final(communicator).spec_active(),
                        i as u32,
                        data@,
                    ),
                ),
    {
        communicator.set_active_devices();
        let indices = communicator.get_protocol_indices();
        let n = communicator.active_count();
        let mut payloads: Vec<Vec<u8>> = Vec::new();
        let mut i: usize = 0;
        while i < n
            invariant
                i <= n,
                n <= 0xffff_ffff,
                n == indices@.len(),
                payloads@.len() == i,
                forall|j: int|
                    0 <= j < i ==> payloads@[j]@ == sign_init_payload(
                        indices@,
                        j as u32,
                        data@,
                    ),
            decreases n - i,
        {
            payloads.push(build_sign_init(&indices, i as u32, data));
            i += 1;
        }
        let ghost pl = payloads@;
        communicator.send_all(payloads);
        self.round = 1;
        proof {
            assert(indices@ == communicator.spec_active());
            assert forall|k: int|
                0 <= k < communicator.spec_active().len() implies communicator.spec_outgoing(k)
                == Some(sign_init_payload(communicator.spec_active(), k as u32, data@)) by {
                assert(communicator.spec_active()[k] == k);
                assert(communicator.spec_outgoing(communicator.spec_active()[k] as int) == Some(
                    pl[k]@,
                ));
            }
        }
    }

    /// Exchanges the just-completed round's messages and advances.
    pub fn advance(&mut self, communicator: &mut Communicator)
        requires
            0 < old(self).spec_round() < old(self).spec_last_round(),
            old(communicator).wf(),
            old(communicator).spec_all_contributed(),
        ensures
            final(self).spec_round() == old(self).spec_round() + 1,
            final(communicator).wf(),
            final(communicator).spec_devices() == old(communicator).spec_devices(),
            final(communicator).spec_threshold() == old(communicator).spec_threshold(),
            final(communicator).spec_active() == old(communicator).spec_active(),
            forall|d: int|
                0 <= d < final(communicator).spec_devices().len() ==> final(communicator).spec_incoming(d).is_none(),
            forall|i: int|
                0 <= i < old(communicator).spec_active().len() ==> final(communicator).spec_outgoing(old(communicator).spec_active()[i] as int) == Some(
                    old(communicator).spec_relay_for(i),
                ),
    {
        communicator.relay();
        self.round = self.round + 1;
    }

    /// Closes the run once the last round's contributions are all in and
    /// returns the accumulated output.
    pub fn finalize(&mut self, communicator: &mut Communicator) -> (r: Option<Vec<u8>>)
        requires
            old(self).spec_round() == old(self).spec_last_round(),
            old(communicator).wf(),
        ensures
            final(self).spec_round() == old(self).spec_round() + 1,
            *final(communicator) == *old(communicator),
            match r {
                Some(m) => {
                    &&& old(communicator).spec_all_contributed()
                    &&& old(communicator).spec_active().len() > 0
                    &&& Some(m@) == old(communicator).spec_incoming(
                        old(communicator).spec_active()[0] as int,
                    )
                },
                None => !old(communicator).spec_all_contributed() || old(communicator).spec_active().len() == 0,
            },
    {
        self.round = self.round + 1;
        communicator.get_final_message()
    }
}

} // verus!
