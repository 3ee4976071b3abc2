use vstd::prelude::*;

verus! {

/// One relayed message as a receiver sees it: a four-byte big-endian
/// length followed by the message bytes.
pub open spec fn frame_one(msg: Seq<u8>) -> Seq<u8> {
    seq![
        ((msg.len() / 0x1000000) % 0x100) as u8,
        ((msg.len() / 0x10000) % 0x100) as u8,
        ((msg.len() / 0x100) % 0x100) as u8,
        (msg.len() % 0x100) as u8,
    ] + msg
}

/// The frames of a list of messages, concatenated in order.
pub open spec fn frame_all(msgs: Seq<Seq<u8>>) -> Seq<u8>
    decreases msgs.len(),
{
    if msgs.len() == 0 {
        Seq::empty()
    } else {
        frame_all(msgs.drop_last()) + frame_one(msgs.last())
    }
}

/// The per-round message relay of one task: the participant
/// identifiers, the quorum selected to run the protocol, the message
/// each active device has posted for the current round, and the payload
/// awaiting each device.
pub struct Communicator {
    device_ids: Vec<Vec<u8>>,
    threshold: u32,
    active: Vec<u32>,
    outgoing: Vec<Option<Vec<u8>>>,
    incoming: Vec<Option<Vec<u8>>>,
}

impl Communicator {
    pub closed spec fn spec_devices(self) -> Seq<Seq<u8>> {
        crate::ids_view(self.device_ids@)
    }

    pub closed spec fn spec_threshold(self) -> u32 {
        self.threshold
    }

    pub closed spec fn spec_active(self) -> Seq<u32> {
        self.active@
    }

    /// The message ordinal `d` posted for the current round, if any.
    pub closed spec fn spec_incoming(self, d: int) -> Option<Seq<u8>> {
        match self.incoming@[d] {
            Some(m) => Some(m@),
            None => None,
        }
    }

    /// The payload awaiting ordinal `d`, if any.
    pub closed spec fn spec_outgoing(self, d: int) -> Option<Seq<u8>> {
        match self.outgoing@[d] {
            Some(m) => Some(m@),
            None => None,
        }
    }

    pub closed spec fn wf(self) -> bool {
        &&& crate::ids_distinct(self.spec_devices())
        &&& self.threshold <= self.device_ids@.len()
        &&& self.device_ids@.len() <= 0xffff_ffff
        &&& self.outgoing@.len() == self.device_ids@.len()
        &&& self.incoming@.len() == self.device_ids@.len()
        &&& forall|i: int|
            0 <= i < self.active@.len() ==> (self.active@[i] as int) < self.device_ids@.len()
        &&& forall|i: int, j: int|
            0 <= i < j < self.active@.len() ==> (self.active@[i] as int) < (self.active@[j] as int)
    }

    /// The ordinal of `device` among the participants, if it is one.
    pub open spec fn spec_ordinal(self, device: Seq<u8>) -> Option<int> {
        if crate::ids_contain(self.spec_devices(), device) {
            Some(
                choose|i: int|
                    0 <= i < self.spec_devices().len() && self.spec_devices()[i] == device,
            )
        } else {
            None
        }
    }

    pub open spec fn spec_is_active(self, d: int) -> bool {
        exists|i: int| 0 <= i < self.spec_active().len() && self.spec_active()[i] == d
    }

    /// Every active device has posted its message for the current round.
    pub open spec fn spec_all_contributed(self) -> bool {
        forall|i: int|
            0 <= i < self.spec_active().len() ==> self.spec_incoming(
                self.spec_active()[i] as int,
            ).is_some()
    }

    /// The participants that are active and have not yet posted this
    /// round, among the first `n` ordinals, in participant order.
    pub open spec fn pending_upto(self, n: int) -> Seq<Seq<u8>>
        decreases n,
    {
        if n <= 0 {
            Seq::empty()
        } else if self.spec_is_active(n - 1) && self.spec_incoming(n - 1).is_none() {
            self.pending_upto(n - 1).push(self.spec_devices()[n - 1])
        } else {
            self.pending_upto(n - 1)
        }
    }

    /// The devices whose contribution is still outstanding this round.
    pub open spec fn spec_pending(self) -> Seq<Seq<u8>> {
        self.pending_upto(self.spec_devices().len() as int)
    }

    /// A device stands in the pending list exactly when it is active
    /// and has not posted this round.
    pub proof fn lemma_pending_membership(self, n: int, d: Seq<u8>)
        requires
            self.wf(),
            0 <= n <= self.spec_devices().len(),
        ensures
            crate::ids_contain(self.pending_upto(n), d) <==> exists|k: int|
                0 <= k < n && self.spec_devices()[k] == d && self.spec_is_active(k)
                    && self.spec_incoming(k).is_none(),
        decreases n,
    {
        if n > 0 {
            self.lemma_pending_membership(n - 1, d);
            let prev = self.pending_upto(n - 1);
            let cur = self.pending_upto(n);
            if crate::ids_contain(cur, d) {
                let m = choose|m: int| 0 <= m < cur.len() && cur[m] == d;
                if self.spec_is_active(n - 1) && self.spec_incoming(n - 1).is_none() {
                    if m < prev.len() {
                        assert(prev[m] == d);
                    } else {
                        assert(self.spec_devices()[n - 1] == d);
                    }
                } else {
                    assert(prev[m] == d);
                }
            }
            if exists|k: int|
                0 <= k < n && self.spec_devices()[k] == d && self.spec_is_active(k)
                    && self.spec_incoming(k).is_none() {
                let k = choose|k: int|
                    0 <= k < n && self.spec_devices()[k] == d && self.spec_is_active(k)
                        && self.spec_incoming(k).is_none();
                if k < n - 1 {
                    assert(crate::ids_contain(prev, d));
                    let m = choose|m: int| 0 <= m < prev.len() && prev[m] == d;
                    assert(cur[m] == d);
                } else {
                    assert(cur[cur.len() - 1] == d);
                }
            }
        }
    }

    /// Before anything is posted, with the full quorum selected, the
    /// pending list is the participant list itself.
    pub proof fn lemma_pending_initial(self, n: int)
        requires
            self.wf(),
            0 <= n <= self.spec_devices().len(),
            self.spec_active().len() == self.spec_devices().len(),
            forall|i: int| 0 <= i < self.spec_active().len() ==> self.spec_active()[i] == i,
            forall|k: int|
                0 <= k < self.spec_devices().len() ==> self.spec_incoming(k).is_none(),
        ensures
            self.pending_upto(n) == self.spec_devices().take(n),
        decreases n,
    {
        if n > 0 {
            self.lemma_pending_initial(n - 1);
            assert(self.spec_active()[n - 1] == n - 1);
            assert(self.spec_is_active(n - 1));
            assert(self.spec_devices().take(n).drop_last() =~= self.spec_devices().take(n - 1));
            assert(self.pending_upto(n) =~= self.spec_devices().take(n));
        }
    }

    pub fn new(device_ids: Vec<Vec<u8>>, threshold: u32) -> (c: Communicator)
        requires
            crate::ids_distinct(crate::ids_view(device_ids@)),
            threshold <= device_ids@.len(),
            device_ids@.len() <= 0xffff_ffff,
        ensures
            c.wf(),
            c.spec_devices() == crate::ids_view(device_ids@),
            c.spec_threshold() == threshold,
            c.spec_active().len() == 0,
            forall|d: int| 0 <= d < device_ids@.len() ==> c.spec_incoming(d).is_none(),
            forall|d: int| 0 <= d < device_ids@.len() ==> c.spec_outgoing(d).is_none(),
    {
        let n = device_ids.len();
        let mut outgoing: Vec<Option<Vec<u8>>> = Vec::new();
        let mut incoming: Vec<Option<Vec<u8>>> = Vec::new();
        let mut i: usize = 0;
        while i < n
            invariant
                i <= n,
                outgoing@.len() == i,
                incoming@.len() == i,
                forall|d: int| 0 <= d < i ==> outgoing@[d].is_none(),
                forall|d: int| 0 <= d < i ==> incoming@[d].is_none(),
            decreases n - i,
        {
            outgoing.push(None);
            incoming.push(None);
            i += 1;
        }
        Communicator { device_ids, threshold, active: Vec::new(), outgoing, incoming }
    }

    /// Looks a participant's ordinal up by its identifier.
    pub fn ordinal_of(&self, device: &Vec<u8>) -> (r: Option<usize>)
        requires
            self.wf(),
        ensures
            match r {
                Some(d) => self.spec_ordinal(device@) == Some(d as int) && d
                    < self.spec_devices().len(),
                None => self.spec_ordinal(device@).is_none(),
            },
    {
        let mut i: usize = 0;
        while i < self.device_ids.len()
            invariant
                self.wf(),
                i <= self.device_ids@.len(),
                forall|j: int| 0 <= j < i ==> self.spec_devices()[j] != device@,
            decreases self.device_ids@.len() - i,
        {
            if crate::bytes_eq(&self.device_ids[i], device) {
                proof {
                    assert(self.spec_devices()[i as int] == device@);
                    let k = choose|k: int|
                        0 <= k < self.spec_devices().len() && self.spec_devices()[k] == device@;
                    crate::lemma_distinct_unique(self.spec_devices(), k, i as int);
                }
                return Some(i);
            }
            i += 1;
        }
        None
    }

    /// Fixes the quorum for the protocol run: every registered
    /// participant, in participant order.
    pub fn set_active_devices(&mut self)
        requires
            old(self).wf(),
        ensures
            final(self).wf(),
            final(self).spec_devices() == old(self).spec_devices(),
            final(self).spec_threshold() == old(self).spec_threshold(),
            final(self).spec_active().len() == old(self).spec_devices().len(),
            final(self).spec_active().len() <= 0xffff_ffff,
            forall|i: int|
                0 <= i < final(self).spec_active().len() ==> final(self).spec_active()[i] == i,
            forall|d: int|
                0 <= d < old(self).spec_devices().len() ==> final(self).spec_incoming(d) == old(self).spec_incoming(d),
            forall|d: int|
                0 <= d < old(self).spec_devices().len() ==> final(self).spec_outgoing(d) == old(self).spec_outgoing(d),
    {
        let n = self.device_ids.len();
        let mut active: Vec<u32> = Vec::new();
        let mut i: usize = 0;
        while i < n
            invariant
                i <= n,
                n <= 0xffff_ffff,
                active@.len() == i,
                forall|j: int| 0 <= j < i ==> active@[j] == j,
            decreases n - i,
        {
            active.push(i as u32);
            i += 1;
        }
        self.active = active;
    }

    /// The stable ordinal numbering of the active devices.
    pub fn get_protocol_indices(&self) -> (r: Vec<u32>)
        ensures
            r@ == self.spec_active(),
    {
        let mut r: Vec<u32> = Vec::new();
        let mut i: usize = 0;
        while i < self.active.len()
            invariant
                i <= self.active@.len(),
                r@ == self.active@.subrange(0, i as int),
            decreases self.active@.len() - i,
        {
            r.push(self.active[i]);
            i += 1;
            proof {
                assert(r@ =~= self.active@.subrange(0, i as int));
            }
        }
        proof {
            assert(r@ =~= self.active@);
        }
        r
    }

    pub fn active_count(&self) -> (r: usize)
        ensures
            r == self.spec_active().len(),
    {
        self.active.len()
    }

    /// Delivers one payload to each active device, opening a new round:
    /// every posted message is cleared.
    pub fn send_all(&mut self, payloads: Vec<Vec<u8>>)
        requires
            old(self).wf(),
            payloads@.len() == old(self).spec_active().len(),
        ensures
            final(self).wf(),
            final(self).spec_devices() == old(self).spec_devices(),
            final(self).spec_threshold() == old(self).spec_threshold(),
            final(self).spec_active() == old(self).spec_active(),
            forall|d: int|
                0 <= d < final(self).spec_devices().len() ==> final(self).spec_incoming(
                    d,
                ).is_none(),
            forall|i: int|
                0 <= i < old(self).spec_active().len() ==> final(self).spec_outgoing(
                    old(self).spec_active()[i] as int,
                ) == Some(payloads@[i]@),
            forall|d: int|
                0 <= d < final(self).spec_devices().len() && !old(self).spec_is_active(d) ==> final(self).spec_outgoing(d) == old(self).spec_outgoing(d),
    {
        let n = self.device_ids.len();
        let mut d: usize = 0;
        while d < n
            invariant
                d <= n,
                n == self.device_ids@.len(),
                self.incoming@.len() == n,
                self.outgoing@.len() == n,
                self.device_ids@ == old(self).device_ids@,
                self.threshold == old(self).threshold,
                self.active@ == old(self).active@,
                self.outgoing@ == old(self).outgoing@,
                forall|j: int| 0 <= j < d ==> self.incoming@[j].is_none(),
                forall|j: int| d <= j < n ==> self.incoming@[j] == old(self).incoming@[j],
            decreases n - d,
        {
            self.incoming.set(d, None);
            d += 1;
        }
        let mut i: usize = 0;
        while i < self.active.len()
            invariant
                old(self).wf(),
                i <= self.active@.len(),
                payloads@.len() == self.active@.len(),
                self.device_ids@ == old(self).device_ids@,
                self.threshold == old(self).threshold,
                self.active@ == old(self).active@,
                self.incoming@.len() == self.device_ids@.len(),
                self.outgoing@.len() == self.device_ids@.len(),
                forall|j: int| 0 <= j < self.incoming@.len() ==> self.incoming@[j].is_none(),
                forall|j: int|
                    0 <= j < i ==> self.spec_outgoing(self.active@[j] as int) == Some(
                        payloads@[j]@,
                    ),
                forall|e: int|
                    0 <= e < self.device_ids@.len() && !old(self).spec_is_active(e) ==> self
                        .spec_outgoing(e) == old(self).spec_outgoing(e),
            decreases self.active@.len() - i,
        {
            let ord = self.active[i] as usize;
            let p = crate::clone_bytes(&payloads[i]);
            proof {
                assert(old(self).spec_active()[i as int] == ord as u32);
                assert(old(self).spec_is_active(ord as int));
                assert(forall|j: int, k: int|
                    0 <= j < k < self.active@.len() ==> self.active@[j] != self.active@[k]);
            }
            self.outgoing.set(ord, Some(p));
            i += 1;
        }
    }

    /// Records the message `device` posts for the current round; reports
    /// whether it was newly recorded.  Only an active participant may
    /// post, and a repeated post changes nothing.
    pub fn receive(&mut self, device: &Vec<u8>, data: Vec<u8>) -> (r: bool)
        requires
            old(self).wf(),
        ensures
            final(self).wf(),
            final(self).spec_devices() == old(self).spec_devices(),
            final(self).spec_threshold() == old(self).spec_threshold(),
            final(self).spec_active() == old(self).spec_active(),
            forall|d: int|
                0 <= d < old(self).spec_devices().len() ==> final(self).spec_outgoing(d) == old(self).spec_outgoing(d),
            r == (match old(self).spec_ordinal(device@) {
                Some(d) => old(self).spec_is_active(d) && old(self).spec_incoming(d).is_none(),
                None => false,
            }),
            r ==> final(self).spec_incoming(old(self).spec_ordinal(device@).unwrap()) == Some(
                data@,
            ) && forall|e: int|
                0 <= e < old(self).spec_devices().len() && e != old(self).spec_ordinal(
                    device@,
                ).unwrap() ==> final(self).spec_incoming(e) == old(self).spec_incoming(e),
            !r ==> *final(self) == *old(self),
    {
        let ord = match self.ordinal_of(device) {
            Some(ord) => ord,
            None => {
                return false;
            },
        };
        let mut act = false;
        let mut j: usize = 0;
        while j < self.active.len()
            invariant
                j <= self.spec_active().len(),
                act == exists|k: int| 0 <= k < j && self.spec_active()[k] as int == ord as int,
            decreases self.spec_active().len() - j,
        {
            if self.active[j] as usize == ord {
                proof {
                    assert(self.spec_active()[j as int] as int == ord as int);
                }
                act = true;
            }
            j += 1;
        }
        if !act {
            proof {
                assert(!self.spec_is_active(ord as int));
            }
            return false;
        }
        proof {
            assert(self.spec_is_active(ord as int));
        }
        if self.incoming[ord].is_some() {
            return false;
        }
        self.incoming.set(ord, Some(data));
        true
    }

    pub fn all_contributed(&self) -> (r: bool)
        requires
            self.wf(),
        ensures
            r == self.spec_all_contributed(),
    {
        let mut i: usize = 0;
        while i < self.active.len()
            invariant
                self.wf(),
                i <= self.active@.len(),
                forall|j: int| 0 <= j < i ==> self.spec_incoming(self.active@[j] as int).is_some(),
            decreases self.active@.len() - i,
        {
            if self.incoming[self.active[i] as usize].is_none() {
                return false;
            }
            i += 1;
        }
        true
    }

    /// The messages the active devices posted this round, in active
    /// order; meaningful only when all of them have contributed.
    pub open spec fn spec_round_messages(self) -> Seq<Seq<u8>> {
        Seq::new(
            self.spec_active().len(),
            |i: int|
                match self.spec_incoming(self.spec_active()[i] as int) {
                    Some(m) => m,
                    None => Seq::empty(),
                },
        )
    }

    /// The relay output for the receiver at active position `i`: every
    /// other active device's message, framed, in active order.
    pub open spec fn spec_relay_for(self, i: int) -> Seq<u8> {
        frame_all(self.spec_round_messages().remove(i))
    }

    /// Appends the frame of one message.
    fn append_framed(out: &mut Vec<u8>, msg: &Vec<u8>)
        ensures
            final(out)@ == old(out)@ + frame_one(msg@),
    {
        let len = msg.len();
        out.push(((len / 0x1000000) % 0x100) as u8);
        out.push(((len / 0x10000) % 0x100) as u8);
        out.push(((len / 0x100) % 0x100) as u8);
        out.push((len % 0x100) as u8);
        let ghost head = out@;
        let mut k: usize = 0;
        while k < msg.len()
            invariant
                k <= msg@.len(),
                out@ == head + msg@.subrange(0, k as int),
            decreases msg@.len() - k,
        {
            out.push(msg[k]);
            k += 1;
            proof {
                assert(out@ =~= head + msg@.subrange(0, k as int));
            }
        }
        proof {
            assert(out@ =~= old(out)@ + frame_one(msg@));
        }
    }

    /// The framed messages of every active device but the one at active
    /// position `skip`.
    fn frame_round_except(&self, skip: usize) -> (r: Vec<u8>)
        requires
            self.wf(),
            self.spec_all_contributed(),
            skip < self.spec_active().len(),
        ensures
            r@ == self.spec_relay_for(skip as int),
    {
        let ghost msgs = self.spec_round_messages().remove(skip as int);
        let mut r: Vec<u8> = Vec::new();
        let mut i: usize = 0;
        let mut taken: usize = 0;
        while i < self.active.len()
            invariant
                self.wf(),
                self.spec_all_contributed(),
                skip < self.spec_active().len(),
                i <= self.active@.len(),
                msgs == self.spec_round_messages().remove(skip as int),
                taken == if i <= skip {
                    i as int
                } else {
                    i - 1
                },
                r@ == frame_all(msgs.take(taken as int)),
            decreases self.active@.len() - i,
        {
            if i != skip {
                let ord = self.active[i] as usize;
                proof {
                    assert(self.spec_incoming(self.active@[i as int] as int).is_some());
                }
                let msg = match &self.incoming[ord] {
                    Some(msg) => msg,
                    None => unreached(),
                };
                proof {
                    assert(self.spec_round_messages()[i as int] == msg@);
                    if i < skip {
                        assert(msgs[taken as int] == self.spec_round_messages()[i as int]);
                    } else {
                        assert(msgs[taken as int] == self.spec_round_messages()[i as int]);
                    }
                }
                Self::append_framed(&mut r, msg);
                taken += 1;
                proof {
                    assert(msgs.take(taken as int).drop_last() =~= msgs.take(taken as int - 1));
                    assert(msgs.take(taken as int).last() == msg@);
                    assert(r@ =~= frame_all(msgs.take(taken as int)));
                }
            }
            i += 1;
        }
        proof {
            assert(msgs.take(taken as int) =~= msgs);
        }
        r
    }

    /// Exchanges the round's messages: every active device is handed the
    /// framed messages of all its peers, and a new round opens.
    pub fn relay(&mut self)
        requires
            old(self).wf(),
            old(self).spec_all_contributed(),
        ensures
            final(self).wf(),
            final(self).spec_devices() == old(self).spec_devices(),
            final(self).spec_threshold() == old(self).spec_threshold(),
            final(self).spec_active() == old(self).spec_active(),
            forall|d: int|
                0 <= d < final(self).spec_devices().len() ==> final(self).spec_incoming(
                    d,
                ).is_none(),
            forall|i: int|
                0 <= i < old(self).spec_active().len() ==> final(self).spec_outgoing(
                    old(self).spec_active()[i] as int,
                ) == Some(old(self).spec_relay_for(i)),
            forall|d: int|
                0 <= d < final(self).spec_devices().len() && !old(self).spec_is_active(d) ==> final(self).spec_outgoing(d) == old(self).spec_outgoing(d),
    {
        let m = self.active.len();
        let mut payloads: Vec<Vec<u8>> = Vec::new();
        let mut i: usize = 0;
        while i < m
            invariant
                self.wf(),
                self.spec_all_contributed(),
                m == self.active@.len(),
                i <= m,
                payloads@.len() == i,
                forall|j: int| 0 <= j < i ==> payloads@[j]@ == self.spec_relay_for(j),
            decreases m - i,
        {
            let p = self.frame_round_except(i);
            payloads.push(p);
            i += 1;
        }
        self.send_all(payloads);
    }

    /// The accumulated final output: available only when every active
    /// device has contributed in the last round; the first active
    /// device's message stands for the aggregate.
    pub fn get_final_message(&self) -> (r: Option<Vec<u8>>)
        requires
            self.wf(),
        ensures
            match r {
                Some(m) => {
                    &&& self.spec_all_contributed()
                    &&& self.spec_active().len() > 0
                    &&& Some(m@) == self.spec_incoming(self.spec_active()[0] as int)
                },
                None => !self.spec_all_contributed() || self.spec_active().len() == 0,
            },
    {
        if self.active.len() == 0 {
            return None;
        }
        if !self.all_contributed() {
            return None;
        }
        let ord = self.active[0] as usize;
        proof {
            assert(self.spec_incoming(self.active@[0] as int).is_some());
        }
        match &self.incoming[ord] {
            Some(m) => Some(crate::clone_bytes(m)),
            None => unreached(),
        }
    }

    /// The payload currently awaiting `device`, if it is a participant.
    pub fn get_work(&self, device: &Vec<u8>) -> (r: Option<Vec<u8>>)
        requires
            self.wf(),
        ensures
            match self.spec_ordinal(device@) {
                Some(d) => (match r {
                    Some(m) => Some(m@) == self.spec_outgoing(d),
                    None => self.spec_outgoing(d).is_none(),
                }),
                None => r.is_none(),
            },
    {
        match self.ordinal_of(device) {
            Some(ord) => match &self.outgoing[ord] {
                Some(m) => Some(crate::clone_bytes(m)),
                None => None,
            },
            None => None,
        }
    }

    /// Whether `device` has posted its message for the current round.
    pub fn has_contributed(&self, device: &Vec<u8>) -> (r: bool)
        requires
            self.wf(),
        ensures
            r == (match self.spec_ordinal(device@) {
                Some(d) => self.spec_incoming(d).is_some(),
                None => false,
            }),
    {
        match self.ordinal_of(device) {
            Some(ord) => self.incoming[ord].is_some(),
            None => false,
        }
    }

    /// The devices whose contribution is still outstanding this round.
    pub fn pending_devices(&self) -> (r: Vec<Vec<u8>>)
        requires
            self.wf(),
        ensures
            crate::ids_view(r@) == self.spec_pending(),
    {
        let mut r: Vec<Vec<u8>> = Vec::new();
        let n = self.device_ids.len();
        let mut i: usize = 0;
        while i < n
            invariant
                self.wf(),
                n == self.device_ids@.len(),
                i <= n,
                crate::ids_view(r@) == self.pending_upto(i as int),
            decreases n - i,
        {
            let mut act = false;
            let mut j: usize = 0;
            while j < self.active.len()
                invariant
                    i < n,
                    n <= 0xffff_ffff,
                    j <= self.spec_active().len(),
                    act == exists|k: int| 0 <= k < j && self.spec_active()[k] as int == i as int,
                decreases self.spec_active().len() - j,
            {
                if self.active[j] as usize == i {
                    proof {
                        assert(self.spec_active()[j as int] as int == i as int);
                    }
                    act = true;
                }
                j += 1;
            }
            proof {
                assert(act == self.spec_is_active(i as int));
            }
            if act && self.incoming[i].is_none() {
                r.push(crate::clone_bytes(&self.device_ids[i]));
                proof {
                    assert(crate::ids_view(r@) =~= self.pending_upto(i + 1));
                }
            } else {
                proof {
                    assert(crate::ids_view(r@) =~= self.pending_upto(i + 1));
                }
            }
            i += 1;
        }
        r
    }
}

} // verus!
