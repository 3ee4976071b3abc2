use vstd::prelude::*;
use crate::device::Device;
use crate::group::{Group, KeyType, ProtocolType};
use crate::notify::{MessageState, Subscriber, TaskMessage};
use crate::task::{GroupTask, SignTask, Task, TaskError, TaskStatus};

verus! {

/// A name for the data a signing task carries, handed over as UTF-8
/// encoded text, is acceptable when it is at most 256 bytes long and
/// holds no control character (the characters of U+0000..U+001F,
/// U+007F and U+0080..U+009F, read off their UTF-8 encoding).
pub open spec fn valid_sign_name(s: Seq<u8>) -> bool {
    s.len() <= 256 && crate::no_ctrl(s)
}

/// The largest data size a signing request may carry, in bytes.
pub open spec fn max_sign_data() -> int {
    (8 * 1024 * 1024) as int
}

fn check_sign_name(name: &Vec<u8>) -> (r: bool)
    ensures
        r == valid_sign_name(name@),
{
    if name.len() > 256 {
        return false;
    }
    crate::check_no_ctrl(name)
}

/// One stored task with its never-reused identifier.
pub struct TaskEntry {
    pub id: u128,
    pub task: Task,
}

/// Hands out a mutable borrow of one entry.
fn entry_mut(tasks: &mut Vec<TaskEntry>, i: usize) -> (e: &mut TaskEntry)
    requires
        i < old(tasks).len(),
    ensures
        *e == old(tasks)@[i as int],
        final(tasks)@ == old(tasks)@.update(i as int, *final(e)),
{
    &mut tasks[i]
}

/// Relies on uuid's Uuid::new_v4, a random identifier: nothing is
/// promised of the value.  The call aborts if the operating system's
/// randomness source fails, an environmental fault no input can cause.
#[verifier::external_body]
fn fresh_task_id() -> (r: u128) {
    uuid::Uuid::new_v4().as_u128()
}

/// The orchestrator: the single owner of devices, groups, tasks and
/// push subscribers.  Every mutation passes through it.
pub struct State {
    devices: Vec<Device>,
    groups: Vec<Group>,
    tasks: Vec<TaskEntry>,
    subscribers: Vec<Subscriber>,
}

impl State {
    pub closed spec fn spec_devices(self) -> Seq<Device> {
        self.devices@
    }

    /// The registered device identifiers, in registration order.
    pub open spec fn spec_device_ids(self) -> Seq<Seq<u8>> {
        self.spec_devices().map_values(|d: Device| d.identifier@)
    }

    pub closed spec fn spec_groups(self) -> Seq<Group> {
        self.groups@
    }

    pub open spec fn spec_group_ids(self) -> Seq<Seq<u8>> {
        self.spec_groups().map_values(|g: Group| g.spec_identifier())
    }

    pub closed spec fn spec_tasks(self) -> Seq<TaskEntry> {
        self.tasks@
    }

    pub open spec fn spec_task_ids(self) -> Seq<u128> {
        self.spec_tasks().map_values(|e: TaskEntry| e.id)
    }

    pub closed spec fn spec_subscribers(self) -> Seq<Subscriber> {
        self.subscribers@
    }

    pub open spec fn spec_subscriber_ids(self) -> Seq<Seq<u8>> {
        self.spec_subscribers().map_values(|s: Subscriber| s.device_id@)
    }

    pub open spec fn spec_has_subscriber(self, device: Seq<u8>) -> bool {
        crate::ids_contain(self.spec_subscriber_ids(), device)
    }

    pub open spec fn spec_device_index_of(self, id: Seq<u8>) -> Option<int> {
        if crate::ids_contain(self.spec_device_ids(), id) {
            Some(
                choose|i: int|
                    0 <= i < self.spec_device_ids().len() && self.spec_device_ids()[i] == id,
            )
        } else {
            None
        }
    }

    pub open spec fn spec_task_index_of(self, id: u128) -> Option<int> {
        if exists|i: int| 0 <= i < self.spec_tasks().len() && self.spec_tasks()[i].id == id {
            Some(choose|i: int| 0 <= i < self.spec_tasks().len() && self.spec_tasks()[i].id == id)
        } else {
            None
        }
    }

    pub open spec fn wf(self) -> bool {
        &&& crate::ids_distinct(self.spec_device_ids())
        &&& forall|i: int| 0 <= i < self.spec_devices().len() ==> self.spec_devices()[i].wf()
        &&& crate::ids_distinct(self.spec_group_ids())
        &&& forall|i: int| 0 <= i < self.spec_groups().len() ==> self.spec_groups()[i].wf()
        &&& forall|i: int, j: int|
            0 <= i < j < self.spec_tasks().len() ==> self.spec_tasks()[i].id
                != self.spec_tasks()[j].id
        &&& forall|i: int| 0 <= i < self.spec_tasks().len() ==> self.spec_tasks()[i].task.wf()
        &&& crate::ids_distinct(self.spec_subscriber_ids())
    }

    pub fn new() -> (s: State)
        ensures
            s.wf(),
            s.spec_devices().len() == 0,
            s.spec_groups().len() == 0,
            s.spec_tasks().len() == 0,
            s.spec_subscribers().len() == 0,
    {
        State { devices: Vec::new(), groups: Vec::new(), tasks: Vec::new(), subscribers: Vec::new() }
    }

    fn device_index_of(&self, identifier: &Vec<u8>) -> (r: Option<usize>)
        ensures
            match r {
                Some(i) => i < self.spec_device_ids().len() && self.spec_device_ids()[i as int]
                    == identifier@,
                None => !crate::ids_contain(self.spec_device_ids(), identifier@),
            },
    {
        let mut i: usize = 0;
        while i < self.devices.len()
            invariant
                i <= self.spec_devices().len(),
                forall|j: int| 0 <= j < i ==> self.spec_device_ids()[j] != identifier@,
            decreases self.spec_devices().len() - i,
        {
            if crate::bytes_eq(&self.devices[i].identifier, identifier) {
                proof {
                    assert(self.spec_device_ids()[i as int] == identifier@);
                }
                return Some(i);
            }
            i += 1;
        }
        None
    }

    /// Registers a device.  Rejected, with nothing changed, when the
    /// name fails validation or the identifier is already registered.
    pub fn add_device(&mut self, identifier: &Vec<u8>, name: &Vec<u8>) -> (r: bool)
        requires
            old(self).wf(),
        ensures
            final(self).wf(),
            r == (crate::valid_name(name@) && !crate::ids_contain(
                old(self).spec_device_ids(),
                identifier@,
            )),
            !r ==> *final(self) == *old(self),
            r ==> final(self).spec_device_ids() == old(self).spec_device_ids().push(identifier@),
            r ==> final(self).spec_devices().drop_last() == old(self).spec_devices() && final(self).spec_devices().last().identifier@ == identifier@ && final(self).spec_devices().last().name@ == name@ && !final(self).spec_devices().last().active,
            final(self).spec_groups() == old(self).spec_groups(),
            final(self).spec_tasks() == old(self).spec_tasks(),
            final(self).spec_subscribers() == old(self).spec_subscribers(),
    {
        if !crate::check_name(name) {
            return false;
        }
        if self.device_index_of(identifier).is_some() {
            return false;
        }
        let device = Device::new(crate::clone_bytes(identifier), crate::clone_bytes(name));
        self.devices.push(device);
        proof {
            assert(self.spec_device_ids() =~= old(self).spec_device_ids().push(identifier@));
        }
        true
    }

    /// Marks a device as recently active; reports whether it is known.
    /// Nothing but that device's liveness flag changes.
    pub fn device_activated(&mut self, device_id: &Vec<u8>) -> (r: bool)
        requires
            old(self).wf(),
        ensures
            final(self).wf(),
            r == crate::ids_contain(old(self).spec_device_ids(), device_id@),
            final(self).spec_device_ids() == old(self).spec_device_ids(),
            final(self).spec_groups() == old(self).spec_groups(),
            final(self).spec_tasks() == old(self).spec_tasks(),
            final(self).spec_subscribers() == old(self).spec_subscribers(),
            !r ==> *final(self) == *old(self),
            r ==> (match old(self).spec_device_index_of(device_id@) {
                Some(i) => {
                    &&& final(self).spec_devices().len() == old(self).spec_devices().len()
                    &&& (forall|j: int|
                        0 <= j < old(self).spec_devices().len() && j != i ==> final(self).spec_devices()[j] == old(self).spec_devices()[j])
                    &&& final(self).spec_devices()[i].identifier@ == device_id@
                    &&& final(self).spec_devices()[i].name@ == old(self).spec_devices()[i].name@
                    &&& final(self).spec_devices()[i].active
                },
                None => false,
            }),
    {
        let i = match self.device_index_of(device_id) {
            Some(i) => i,
            None => {
                return false;
            },
        };
        proof {
            let k = choose|k: int|
                0 <= k < self.spec_device_ids().len() && self.spec_device_ids()[k] == device_id@;
            crate::lemma_distinct_unique(self.spec_device_ids(), k, i as int);
            assert(self.spec_device_index_of(device_id@) == Some(i as int));
        }
        let d = &mut self.devices[i];
        d.activated();
        proof {
            assert(self.spec_device_ids() =~= old(self).spec_device_ids());
            assert(self.spec_devices()[i as int].identifier@ == device_id@);
        }
        true
    }

    pub fn get_devices(&self) -> (r: &Vec<Device>)
        ensures
            r@ == self.spec_devices(),
    {
        &self.devices
    }

    pub fn get_groups(&self) -> (r: &Vec<Group>)
        ensures
            r@ == self.spec_groups(),
    {
        &self.groups
    }

    pub fn get_tasks(&self) -> (r: &Vec<TaskEntry>)
        ensures
            r@ == self.spec_tasks(),
    {
        &self.tasks
    }

    pub fn get_subscribers(&self) -> (r: &Vec<Subscriber>)
        ensures
            r@ == self.spec_subscribers(),
    {
        &self.subscribers
    }

    fn task_index_of(&self, id: u128) -> (r: Option<usize>)
        requires
            self.wf(),
        ensures
            match r {
                Some(i) => i < self.spec_tasks().len() && self.spec_tasks()[i as int].id == id
                    && self.spec_task_index_of(id) == Some(i as int),
                None => self.spec_task_index_of(id).is_none(),
            },
    {
        let mut i: usize = 0;
        while i < self.tasks.len()
            invariant
                self.wf(),
                i <= self.spec_tasks().len(),
                forall|j: int| 0 <= j < i ==> self.spec_tasks()[j].id != id,
            decreases self.spec_tasks().len() - i,
        {
            if self.tasks[i].id == id {
                proof {
                    let k = choose|k: int|
                        0 <= k < self.spec_tasks().len() && self.spec_tasks()[k].id == id;
                    if k < (i as int) {
                        assert(self.spec_tasks()[k].id != id);
                    }
                    if (i as int) < k {
                        assert(self.spec_tasks()[i as int].id != self.spec_tasks()[k].id);
                    }
                }
                return Some(i);
            }
            i += 1;
        }
        None
    }

    pub fn get_task(&self, id: u128) -> (r: Option<&Task>)
        requires
            self.wf(),
        ensures
            match r {
                Some(t) => exists|i: int|
                    0 <= i < self.spec_tasks().len() && self.spec_tasks()[i].id == id && *t
                        == self.spec_tasks()[i].task,
                None => self.spec_task_index_of(id).is_none(),
            },
    {
        match self.task_index_of(id) {
            Some(i) => {
                proof {
                    assert(self.spec_tasks()[i as int].id == id);
                }
                Some(&self.tasks[i].task)
            },
            None => None,
        }
    }

    /// The payload a device should currently process for a task.
    pub fn get_work(&self, id: u128, device: &Vec<u8>) -> (r: Option<Vec<u8>>)
        requires
            self.wf(),
        ensures
            match self.spec_task_index_of(id) {
                Some(i) => (match r {
                    Some(m) => Some(m@) == self.spec_tasks()[i].task.spec_work_for(device@),
                    None => self.spec_tasks()[i].task.spec_work_for(device@) is None,
                }),
                None => r is None,
            },
    {
        match self.task_index_of(id) {
            Some(i) => self.tasks[i].task.get_work(device),
            None => None,
        }
    }

    /// Stores a task under a fresh random identifier; rejected only if
    /// the identifier collides with one already stored.
    fn add_task(&mut self, task: Task) -> (r: Option<u128>)
        requires
            old(self).wf(),
            task.wf(),
        ensures
            final(self).wf(),
            final(self).spec_devices() == old(self).spec_devices(),
            final(self).spec_groups() == old(self).spec_groups(),
            final(self).spec_subscribers() == old(self).spec_subscribers(),
            old(self).spec_tasks().len() == 0 ==> r is Some,
            match r {
                Some(id) => final(self).spec_tasks() == old(self).spec_tasks().push(
                    TaskEntry { id, task },
                ) && !crate::seq_contains_id(old(self).spec_task_ids(), id),
                None => *final(self) == *old(self),
            },
    {
        let id = fresh_task_id();
        if self.task_index_of(id).is_some() {
            return None;
        }
        self.tasks.push(TaskEntry { id, task });
        proof {
            assert forall|k: int|
                0 <= k < old(self).spec_task_ids().len() implies old(self).spec_task_ids()[k]
                != id by {
                assert(old(self).spec_tasks()[k].id != id);
            }
        }
        Some(id)
    }

    /// Validates and creates a group-formation task over the given
    /// candidate devices, then notifies their subscribers.  Rejected,
    /// with no task stored, when the name is invalid, a device is not
    /// registered, the device list (after dropping repeats) is too
    /// large, or the threshold exceeds the candidate count.  The task
    /// runs the one-round establishment machine; the requested protocol
    /// and key type stamp the resulting group.
    pub fn add_group_task(
        &mut self,
        name: &Vec<u8>,
        devices: &Vec<Vec<u8>>,
        threshold: u32,
        protocol: ProtocolType,
        key_type: KeyType,
    ) -> (r: Option<u128>)
        requires
            old(self).wf(),
        ensures
            final(self).wf(),
            final(self).spec_devices() == old(self).spec_devices(),
            final(self).spec_groups() == old(self).spec_groups(),
            r is None ==> *final(self) == *old(self),
            !crate::valid_name(name@) ==> r is None,
            (exists|k: int|
                0 <= k < devices@.len() && !crate::ids_contain(
                    old(self).spec_device_ids(),
                    devices@[k]@,
                )) ==> r is None,
            threshold > crate::dedup_ids(crate::ids_view(devices@)).len() ==> r is None,
            (crate::valid_name(name@) && (forall|k: int|
                0 <= k < devices@.len() ==> crate::ids_contain(
                    old(self).spec_device_ids(),
                    devices@[k]@,
                )) && threshold <= crate::dedup_ids(crate::ids_view(devices@)).len()
                && crate::dedup_ids(crate::ids_view(devices@)).len() <= 0xffff_ffff && old(self).spec_tasks().len() == 0) ==> r is Some,
            forall|d: Seq<u8>|
                final(self).spec_has_subscriber(d) ==> old(self).spec_has_subscriber(d),
            forall|d: Seq<u8>|
                old(self).spec_has_subscriber(d) && !crate::ids_contain(
                    crate::dedup_ids(crate::ids_view(devices@)),
                    d,
                ) ==> final(self).spec_has_subscriber(d),
            r matches Some(id) ==> {
                &&& crate::valid_name(name@)
                &&& (forall|k: int|
                    0 <= k < devices@.len() ==> crate::ids_contain(
                        old(self).spec_device_ids(),
                        devices@[k]@,
                    ))
                &&& threshold <= crate::dedup_ids(crate::ids_view(devices@)).len()
                &&& !crate::seq_contains_id(old(self).spec_task_ids(), id)
                &&& final(self).spec_tasks().len() == old(self).spec_tasks().len() + 1
                &&& (forall|j: int|
                    0 <= j < old(self).spec_tasks().len() ==> final(self).spec_tasks()[j] == old(self).spec_tasks()[j])
                &&& final(self).spec_tasks().last().id == id
                &&& final(self).spec_tasks().last().task matches Task::Group(_)
                &&& final(self).spec_tasks().last().task.spec_device_ids() == crate::dedup_ids(
                    crate::ids_view(devices@),
                )
                &&& final(self).spec_tasks().last().task.spec_threshold_of() == threshold
                &&& final(self).spec_tasks().last().task.spec_name() == name@
                &&& !final(self).spec_tasks().last().task.spec_finished()
                &&& !final(self).spec_tasks().last().task.spec_failed()
                &&& final(self).spec_tasks().last().task.spec_round() == 1
                &&& (forall|d: Seq<u8>|
                    !final(self).spec_tasks().last().task.spec_contributed(d))
            },
    {
        if !crate::check_name(name) {
            return None;
        }
        let mut unique: Vec<Vec<u8>> = Vec::new();
        let mut i: usize = 0;
        while i < devices.len()
            invariant
                old(self).wf(),
                i <= devices@.len(),
                crate::ids_distinct(crate::ids_view(unique@)),
                crate::ids_view(unique@) == crate::dedup_ids(
                    crate::ids_view(devices@).take(i as int),
                ),
                forall|k: int|
                    0 <= k < i ==> crate::ids_contain(
                        old(self).spec_device_ids(),
                        devices@[k]@,
                    ),
            decreases devices@.len() - i,
        {
            if self.device_index_of(&devices[i]).is_none() {
                return None;
            }
            proof {
                let prefix = crate::ids_view(devices@).take(i as int);
                let prefix1 = crate::ids_view(devices@).take(i as int + 1);
                assert(prefix1.drop_last() =~= prefix);
                assert(prefix1.last() == devices@[i as int]@);
                crate::lemma_dedup_membership(prefix, devices@[i as int]@);
            }
            if !crate::ids_member(&unique, &devices[i]) {
                let ghost pre = unique@;
                unique.push(crate::clone_bytes(&devices[i]));
                proof {
                    assert(crate::ids_view(unique@) =~= crate::ids_view(pre).push(
                        devices@[i as int]@,
                    ));
                    assert(crate::ids_view(unique@) =~= crate::dedup_ids(
                        crate::ids_view(devices@).take(i as int + 1),
                    ));
                }
            } else {
                proof {
                    assert(crate::ids_view(unique@) =~= crate::dedup_ids(
                        crate::ids_view(devices@).take(i as int + 1),
                    ));
                }
            }
            i += 1;
        }
        proof {
            assert(crate::ids_view(devices@).take(devices@.len() as int) =~= crate::ids_view(
                devices@,
            ));
        }
        if unique.len() > 0xffff_ffff {
            return None;
        }
        if (threshold as usize) > unique.len() {
            return None;
        }
        let task = GroupTask::new(
            crate::clone_bytes(name),
            &unique,
            threshold,
            protocol,
            key_type,
        );
        let id = match self.add_task(Task::Group(task)) {
            Some(id) => id,
            None => {
                return None;
            },
        };
        let n = self.tasks.len();
        self.send_updates(n - 1);
        Some(id)
    }

    /// Validates and creates a signing task under an established group,
    /// then notifies the members' subscribers.  Rejected, with no task
    /// stored, when the data is oversized, the name is invalid, or the
    /// group is unknown.
    pub fn add_sign_task(&mut self, group: &Vec<u8>, name: &Vec<u8>, data: &Vec<u8>) -> (r: Option<
        u128,
    >)
        requires
            old(self).wf(),
        ensures
            final(self).wf(),
            final(self).spec_devices() == old(self).spec_devices(),
            final(self).spec_groups() == old(self).spec_groups(),
            r is None ==> *final(self) == *old(self),
            (data@.len() > max_sign_data() || !valid_sign_name(name@) || !crate::ids_contain(
                old(self).spec_group_ids(),
                group@,
            )) ==> r is None,
            (data@.len() <= max_sign_data() && valid_sign_name(name@) && crate::ids_contain(
                old(self).spec_group_ids(),
                group@,
            ) && old(self).spec_tasks().len() == 0) ==> r is Some,
            forall|d: Seq<u8>|
                final(self).spec_has_subscriber(d) ==> old(self).spec_has_subscriber(d),
            r matches Some(id) ==> {
                &&& data@.len() <= max_sign_data()
                &&& valid_sign_name(name@)
                &&& !crate::seq_contains_id(old(self).spec_task_ids(), id)
                &&& final(self).spec_tasks().len() == old(self).spec_tasks().len() + 1
                &&& (forall|j: int|
                    0 <= j < old(self).spec_tasks().len() ==> final(self).spec_tasks()[j] == old(self).spec_tasks()[j])
                &&& final(self).spec_tasks().last().id == id
                &&& (final(self).spec_tasks().last().task matches Task::Sign(t) && t.spec_data()
                    == data@)
                &&& final(self).spec_tasks().last().task.spec_name() == name@
                &&& (exists|j: int|
                    0 <= j < old(self).spec_groups().len() && old(self).spec_groups()[j].spec_identifier() == group@ && final(self).spec_tasks().last().task.spec_device_ids()
                        == old(self).spec_groups()[j].spec_devices() && final(self).spec_tasks().last().task.spec_threshold_of() == old(self).spec_groups()[j].spec_threshold())
                &&& !final(self).spec_tasks().last().task.spec_finished()
                &&& !final(self).spec_tasks().last().task.spec_failed()
                &&& final(self).spec_tasks().last().task.spec_round() == 1
                &&& (forall|d: Seq<u8>|
                    !final(self).spec_tasks().last().task.spec_contributed(d))
                &&& (forall|d: Seq<u8>|
                    old(self).spec_has_subscriber(d) && !crate::ids_contain(
                        final(self).spec_tasks().last().task.spec_device_ids(),
                        d,
                    ) ==> final(self).spec_has_subscriber(d))
            },
    {
        if data.len() > 8 * 1024 * 1024 {
            return None;
        }
        if !check_sign_name(name) {
            return None;
        }
        let mut gi: usize = 0;
        let n_groups = self.groups.len();
        let mut found = false;
        let mut idx: usize = 0;
        while gi < n_groups
            invariant
                old(self).wf(),
                n_groups == self.spec_groups().len(),
                gi <= n_groups,
                !found ==> forall|j: int| 0 <= j < gi ==> self.spec_group_ids()[j] != group@,
                found ==> idx < gi && self.spec_group_ids()[idx as int] == group@,
            decreases n_groups - gi,
        {
            if !found && crate::bytes_eq(self.groups[gi].identifier(), group) {
                found = true;
                idx = gi;
                proof {
                    assert(self.spec_group_ids()[gi as int] == group@);
                }
            }
            gi += 1;
        }
        if !found {
            proof {
                assert(!crate::ids_contain(self.spec_group_ids(), group@));
            }
            return None;
        }
        let task = SignTask::new(
            &self.groups[idx],
            crate::clone_bytes(name),
            crate::clone_bytes(data),
        );
        let id = match self.add_task(Task::Sign(task)) {
            Some(id) => id,
            None => {
                return None;
            },
        };
        let n = self.tasks.len();
        self.send_updates(n - 1);
        proof {
            assert(crate::ids_contain(old(self).spec_group_ids(), group@));
        }
        Some(id)
    }

    /// Forwards a device's round contribution to a task.  On the one
    /// transition of a group-formation task to Finished, and only then,
    /// the established group is inserted, unless its identifier is
    /// already present; the group store is never otherwise touched.
    pub fn update_task(&mut self, id: u128, device: &Vec<u8>, data: Vec<u8>) -> (r: Result<
        bool,
        TaskError,
    >)
        requires
            old(self).wf(),
        ensures
            final(self).wf(),
            final(self).spec_devices() == old(self).spec_devices(),
            final(self).spec_task_ids() == old(self).spec_task_ids(),
            old(self).spec_task_index_of(id).is_none() <==> r == Err::<bool, TaskError>(
                TaskError::UnknownTask,
            ),
            r == Err::<bool, TaskError>(TaskError::UnknownTask) ==> *final(self) == *old(self),
            r is Err ==> final(self).spec_groups() == old(self).spec_groups(),
            match old(self).spec_task_index_of(id) {
                Some(i) => {
                    let before = old(self).spec_tasks()[i].task;
                    let after = final(self).spec_tasks()[i].task;
                    &&& (forall|j: int|
                        0 <= j < old(self).spec_tasks().len() && j != i ==> final(self).spec_tasks()[j] == old(self).spec_tasks()[j])
                    &&& (r == Err::<bool, TaskError>(TaskError::UnknownDevice)
                        <==> !before.spec_participant(device@))
                    &&& (before.spec_participant(device@) ==> r is Ok)
                    &&& (r is Err ==> after == before && final(self).spec_subscribers() == old(self).spec_subscribers())
                    &&& (r == Ok::<bool, TaskError>(false) ==> after == before)
                    &&& (r == Ok::<bool, TaskError>(true) <==> (before.spec_participant(device@)
                        && !before.spec_finished() && !before.spec_failed()
                        && !before.spec_contributed(device@)))
                    &&& after.spec_name() == before.spec_name()
                    &&& after.spec_acks() == before.spec_acks()
                    &&& after.spec_decisions() == before.spec_decisions()
                    &&& after.spec_failed() == before.spec_failed()
                    &&& after.spec_device_ids() == before.spec_device_ids()
                    &&& (before.spec_finished() ==> after == before && final(self).spec_groups()
                        == old(self).spec_groups())
                    &&& (before.spec_failed() ==> after == before && final(self).spec_groups()
                        == old(self).spec_groups())
                    &&& (r == Ok::<bool, TaskError>(true) && !after.spec_finished()
                        && after.spec_round() == before.spec_round()
                        ==> after.spec_contributed(device@))
                    &&& (after.spec_round() == before.spec_round() || after.spec_round()
                        == before.spec_round() + 1)
                    &&& (after.spec_round() == before.spec_round() + 1 ==> (r == Ok::<
                        bool,
                        TaskError,
                    >(true) && !before.spec_contributed(device@) && before.others_contributed(
                        device@,
                    )))
                    &&& ((r == Ok::<bool, TaskError>(true) && before.others_contributed(device@)
                        && before.spec_round() < before.spec_last_round()) ==> after.spec_round()
                        == before.spec_round() + 1)
                    &&& ((r == Ok::<bool, TaskError>(true) && !before.others_contributed(device@))
                        ==> after.spec_round() == before.spec_round())
                    &&& (after.spec_round() == before.spec_round() + 1 && !after.spec_finished()
                        ==> forall|d: Seq<u8>| !after.spec_contributed(d))
                    &&& (after.spec_round() == before.spec_round() ==> forall|d: Seq<u8>|
                        d != device@ ==> after.spec_contributed(d) == before.spec_contributed(d))
                    &&& (after.spec_finished() && !before.spec_finished() ==> {
                        &&& before.spec_round() == before.spec_last_round()
                        &&& !before.spec_contributed(device@)
                        &&& before.others_contributed(device@)
                    })
                    &&& ((before.spec_participant(device@) && !before.spec_finished()
                        && !before.spec_failed() && !before.spec_contributed(device@)
                        && before.spec_round() == before.spec_last_round()
                        && before.others_contributed(device@)) ==> after.spec_finished())
                    &&& ((after.spec_finished() && !before.spec_finished() && (
                    before matches Task::Group(_)) && !crate::ids_contain(
                        old(self).spec_group_ids(),
                        crate::group::group_identifier_of(before.spec_device_ids()),
                    )) ==> {
                        &&& final(self).spec_groups().len() == old(self).spec_groups().len() + 1
                        &&& (forall|j: int|
                            0 <= j < old(self).spec_groups().len() ==> final(self).spec_groups()[j]
                                == old(self).spec_groups()[j])
                        &&& final(self).spec_groups().last().spec_devices()
                            == before.spec_device_ids()
                        &&& final(self).spec_groups().last().spec_threshold()
                            == before.spec_threshold_of()
                    })
                    &&& ((after.spec_finished() && !before.spec_finished() && (
                    before matches Task::Group(_)) && crate::ids_contain(
                        old(self).spec_group_ids(),
                        crate::group::group_identifier_of(before.spec_device_ids()),
                    )) ==> final(self).spec_groups() == old(self).spec_groups())
                    &&& (!(after.spec_finished() && !before.spec_finished() && (
                    before matches Task::Group(_))) ==> final(self).spec_groups() == old(self).spec_groups())
                    &&& (forall|d: Seq<u8>|
                        final(self).spec_has_subscriber(d) ==> old(self).spec_has_subscriber(d))
                    &&& (forall|d: Seq<u8>|
                        old(self).spec_has_subscriber(d) && !crate::ids_contain(
                            before.spec_device_ids(),
                            d,
                        ) ==> final(self).spec_has_subscriber(d))
                },
                None => final(self).spec_groups() == old(self).spec_groups(),
            },
    {
        let i = match self.task_index_of(id) {
            Some(i) => i,
            None => {
                return Err(TaskError::UnknownTask);
            },
        };
        let entry = entry_mut(&mut self.tasks, i);
        let prev_finished = entry.task.is_finished();
        let result = entry.task.update(device, data);
        let now_finished = entry.task.is_finished();
        if !prev_finished && now_finished {
            if let Some(g) = entry.task.group_result() {
                proof {
                    g.lemma_wf();
                }
                let gid = g.identifier();
                proof {
                    assert(gid@ == crate::group::group_identifier_of(g.spec_devices()));
                    assert(g.spec_devices() == old(self).spec_tasks()[i as int].task.spec_device_ids());
                    assert(gid@ == crate::group::group_identifier_of(
                        old(self).spec_tasks()[i as int].task.spec_device_ids(),
                    ));
                }
                let mut exists_already = false;
                let mut gi: usize = 0;
                let n_groups = self.groups.len();
                while gi < n_groups
                    invariant
                        n_groups == self.spec_groups().len(),
                        gi <= n_groups,
                        exists_already == exists|j: int|
                            0 <= j < gi && self.spec_group_ids()[j] == gid@,
                    decreases n_groups - gi,
                {
                    if crate::bytes_eq(self.groups[gi].identifier(), gid) {
                        proof {
                            assert(self.spec_group_ids()[gi as int] == gid@);
                        }
                        exists_already = true;
                    }
                    gi += 1;
                }
                proof {
                    if exists_already {
                        let j = choose|j: int|
                            0 <= j < self.spec_groups().len() && self.spec_group_ids()[j] == gid@;
                        assert(crate::ids_contain(old(self).spec_group_ids(), gid@));
                    }
                }
                if !exists_already {
                    proof {
                        assert forall|j: int|
                            0 <= j < self.spec_group_ids().len() implies self.spec_group_ids()[j]
                            != gid@ by {
                            assert(self.spec_group_ids()[j] == self.spec_groups()[j].spec_identifier());
                        }
                    }
                    let ghost gidv = gid@;
                    let ghost gv = g;
                    let ghost pre_groups = self.spec_groups();
                    let ghost pre_ids = self.spec_group_ids();
                    proof {
                        assert(forall|j: int| 0 <= j < pre_ids.len() ==> pre_ids[j] != gidv);
                        assert(crate::ids_distinct(pre_ids));
                    }
                    self.groups.push(g);
                    proof {
                        assert(self.spec_group_ids() =~= pre_ids.push(gidv));
                        assert forall|a: int|
                            0 <= a < self.spec_groups().len() implies #[trigger] self.spec_groups()[a].wf() by {
                            if a < pre_groups.len() {
                                assert(self.spec_groups()[a] == pre_groups[a]);
                            } else {
                                assert(self.spec_groups()[a] == gv);
                            }
                        }
                        assert forall|a: int, b: int|
                            0 <= a < b < self.spec_group_ids().len() implies self.spec_group_ids()[a]
                            != self.spec_group_ids()[b] by {
                            assert(self.spec_group_ids()[a] == pre_ids.push(gidv)[a]);
                            assert(self.spec_group_ids()[b] == pre_ids.push(gidv)[b]);
                            if b < pre_ids.len() {
                                assert(pre_ids[a] != pre_ids[b]);
                            } else {
                                assert(pre_ids[a] != gidv);
                            }
                        }
                        assert(crate::ids_distinct(self.spec_group_ids()));
                    }
                }
            }
        }
        proof {
            assert forall|a: int|
                0 <= a < self.spec_tasks().len() implies #[trigger] self.spec_tasks()[a].id == old(self).spec_tasks()[a].id by {
                if a != i as int {
                    assert(self.spec_tasks()[a] == old(self).spec_tasks()[a]);
                }
            }
            assert(self.spec_task_ids() =~= old(self).spec_task_ids());
            assert(self.wf());
        }
        if let Ok(true) = result {
            self.send_updates(i);
        }
        result
    }

    /// Records a device's consent decision on a task; notifies
    /// subscribers when it changed anything.
    pub fn decide_task(&mut self, id: u128, device: &Vec<u8>, decision: bool) -> (r: bool)
        requires
            old(self).wf(),
        ensures
            final(self).wf(),
            final(self).spec_devices() == old(self).spec_devices(),
            final(self).spec_groups() == old(self).spec_groups(),
            final(self).spec_task_ids() == old(self).spec_task_ids(),
            old(self).spec_task_index_of(id).is_none() ==> !r && *final(self) == *old(self),
            !r ==> final(self).spec_tasks() == old(self).spec_tasks() && final(self).spec_subscribers() == old(self).spec_subscribers(),
            match old(self).spec_task_index_of(id) {
                Some(i) => {
                    let before = old(self).spec_tasks()[i].task;
                    let after = final(self).spec_tasks()[i].task;
                    &&& (forall|j: int|
                        0 <= j < old(self).spec_tasks().len() && j != i ==> final(self).spec_tasks()[j] == old(self).spec_tasks()[j])
                    &&& r == (before.spec_participant(device@) && !before.spec_finished()
                        && !before.spec_failed() && before.spec_undecided(device@))
                    &&& after.spec_finished() == before.spec_finished()
                    &&& after.spec_acks() == before.spec_acks()
                    &&& after.spec_name() == before.spec_name()
                    &&& after.spec_device_ids() == before.spec_device_ids()
                    &&& after.spec_round() == before.spec_round()
                    &&& after.spec_pending() == before.spec_pending()
                    &&& after.spec_signature_of() == before.spec_signature_of()
                    &&& (forall|d: Seq<u8>|
                        after.spec_contributed(d) == before.spec_contributed(d))
                    &&& (r ==> after.spec_decisions() == before.spec_decisions().update(
                        before.spec_ordinal(device@),
                        Some(decision),
                    ))
                    &&& (r && !decision ==> after.spec_failed() && after.spec_failure_reason()
                        == device@)
                    &&& (r && decision ==> after.spec_failed() == before.spec_failed())
                    &&& (forall|d: Seq<u8>|
                        final(self).spec_has_subscriber(d) ==> old(self).spec_has_subscriber(d))
                    &&& (forall|d: Seq<u8>|
                        old(self).spec_has_subscriber(d) && !crate::ids_contain(
                            before.spec_device_ids(),
                            d,
                        ) ==> final(self).spec_has_subscriber(d))
                },
                None => !r,
            },
    {
        let i = match self.task_index_of(id) {
            Some(i) => i,
            None => {
                return false;
            },
        };
        let entry = entry_mut(&mut self.tasks, i);
        let changed = entry.task.decide(device, decision);
        if changed {
            self.send_updates(i);
        }
        proof {
            assert(self.spec_task_ids() =~= old(self).spec_task_ids());
        }
        changed
    }

    /// Marks that a device has observed a task's terminal status; a
    /// no-op for an unknown task or device.
    pub fn acknowledge_task(&mut self, id: u128, device: &Vec<u8>)
        requires
            old(self).wf(),
        ensures
            final(self).wf(),
            final(self).spec_devices() == old(self).spec_devices(),
            final(self).spec_groups() == old(self).spec_groups(),
            final(self).spec_task_ids() == old(self).spec_task_ids(),
            final(self).spec_subscribers() == old(self).spec_subscribers(),
            old(self).spec_task_index_of(id).is_none() ==> *final(self) == *old(self),
            match old(self).spec_task_index_of(id) {
                Some(i) => {
                    let before = old(self).spec_tasks()[i].task;
                    let after = final(self).spec_tasks()[i].task;
                    &&& (forall|j: int|
                        0 <= j < old(self).spec_tasks().len() && j != i ==> final(self).spec_tasks()[j] == old(self).spec_tasks()[j])
                    &&& (before.spec_participant(device@) ==> after.spec_acks()
                        == before.spec_acks().update(before.spec_ordinal(device@), true)
                        && after.spec_acknowledged(device@))
                    &&& (!before.spec_participant(device@) ==> after == before)
                    &&& after.spec_device_ids() == before.spec_device_ids()
                    &&& after.spec_name() == before.spec_name()
                    &&& after.spec_finished() == before.spec_finished()
                    &&& after.spec_failed() == before.spec_failed()
                    &&& after.spec_decisions() == before.spec_decisions()
                    &&& after.spec_round() == before.spec_round()
                    &&& after.spec_pending() == before.spec_pending()
                    &&& (forall|d: Seq<u8>|
                        after.spec_contributed(d) == before.spec_contributed(d))
                    &&& (forall|d: Seq<u8>| after.spec_work_for(d) == before.spec_work_for(d))
                    &&& after.group_devices_of_result() == before.group_devices_of_result()
                    &&& after.spec_signature_of() == before.spec_signature_of()
                    &&& (forall|d: Seq<u8>|
                        d != device@ ==> after.spec_acknowledged(d) == before.spec_acknowledged(
                            d,
                        ))
                },
                None => true,
            },
    {
        let i = match self.task_index_of(id) {
            Some(i) => i,
            None => {
                return ;
            },
        };
        let entry = entry_mut(&mut self.tasks, i);
        entry.task.acknowledge(device);
        proof {
            assert(self.spec_task_ids() =~= old(self).spec_task_ids());
        }
    }

    /// Resets a stalled task for a fresh attempt; reports whether a
    /// restart happened.
    pub fn restart_task(&mut self, id: u128) -> (r: bool)
        requires
            old(self).wf(),
        ensures
            final(self).wf(),
            final(self).spec_devices() == old(self).spec_devices(),
            final(self).spec_groups() == old(self).spec_groups(),
            final(self).spec_subscribers() == old(self).spec_subscribers(),
            final(self).spec_task_ids() == old(self).spec_task_ids(),
            old(self).spec_task_index_of(id).is_none() ==> !r && *final(self) == *old(self),
            !r ==> final(self).spec_tasks() == old(self).spec_tasks(),
            match old(self).spec_task_index_of(id) {
                Some(i) => {
                    let before = old(self).spec_tasks()[i].task;
                    let after = final(self).spec_tasks()[i].task;
                    &&& (forall|j: int|
                        0 <= j < old(self).spec_tasks().len() && j != i ==> final(self).spec_tasks()[j] == old(self).spec_tasks()[j])
                    &&& r == (!before.spec_finished() && !before.spec_failed())
                    &&& after.spec_device_ids() == before.spec_device_ids()
                    &&& after.spec_name() == before.spec_name()
                    &&& after.spec_acks() == before.spec_acks()
                    &&& after.spec_decisions() == before.spec_decisions()
                    &&& after.spec_finished() == before.spec_finished()
                    &&& after.spec_failed() == before.spec_failed()
                    &&& after.group_devices_of_result() == before.group_devices_of_result()
                    &&& after.spec_signature_of() == before.spec_signature_of()
                    &&& (r ==> after.spec_round() == 1 && after.spec_pending()
                        == after.spec_device_ids() && forall|d: Seq<u8>|
                        !after.spec_contributed(d))
                },
                None => !r,
            },
    {
        let i = match self.task_index_of(id) {
            Some(i) => i,
            None => {
                return false;
            },
        };
        let entry = entry_mut(&mut self.tasks, i);
        let r = match entry.task.restart() {
            Ok(b) => b,
            Err(_) => false,
        };
        proof {
            assert(self.spec_task_ids() =~= old(self).spec_task_ids());
        }
        r
    }

    /// One row of the pending listing is accounted for by a stored
    /// task that still concerns the device.
    pub open spec fn tasks_row_ok(self, device: Seq<u8>, p: (u128, TaskStatus)) -> bool {
        exists|j: int|
            0 <= j < self.spec_tasks().len() && self.spec_tasks()[j].id == p.0
                && self.spec_task_pending_for(device, j) && crate::task::status_matches(
                self.spec_tasks()[j].task,
                p.1,
            )
    }

    /// One returned group is a stored group, field for field.
    pub open spec fn group_row_ok(self, g: Group) -> bool {
        exists|j: int|
            0 <= j < self.spec_groups().len() && g.spec_identifier()
                == self.spec_groups()[j].spec_identifier() && g.spec_devices()
                == self.spec_groups()[j].spec_devices() && g.spec_threshold()
                == self.spec_groups()[j].spec_threshold() && g.spec_protocol()
                == self.spec_groups()[j].spec_protocol() && g.spec_key_type()
                == self.spec_groups()[j].spec_key_type()
    }

    /// A task still concerns a device when the device participates and
    /// has not yet acknowledged a Finished outcome.
    pub open spec fn spec_task_pending_for(self, device: Seq<u8>, i: int) -> bool {
        &&& self.spec_tasks()[i].task.spec_participant(device)
        &&& !(self.spec_tasks()[i].task.spec_finished()
            && self.spec_tasks()[i].task.spec_acknowledged(device))
    }

    /// The identifiers of the tasks among the first `n` stored that
    /// still concern the device, in storage order.
    pub open spec fn device_tasks_upto(self, device: Seq<u8>, n: int) -> Seq<u128>
        decreases n,
    {
        if n <= 0 {
            Seq::empty()
        } else if self.spec_task_pending_for(device, n - 1) {
            self.device_tasks_upto(device, n - 1).push(self.spec_tasks()[n - 1].id)
        } else {
            self.device_tasks_upto(device, n - 1)
        }
    }

    /// The tasks a device should still attend to: every task it
    /// participates in that is not yet both finished and acknowledged
    /// by it, with each task's current status.
    pub fn get_device_tasks(&self, device: &Vec<u8>) -> (r: Vec<(u128, TaskStatus)>)
        requires
            self.wf(),
        ensures
            r@.map_values(|p: (u128, TaskStatus)| p.0) == self.device_tasks_upto(
                device@,
                self.spec_tasks().len() as int,
            ),
            forall|k: int| 0 <= k < r@.len() ==> self.tasks_row_ok(device@, #[trigger] r@[k]),
    {
        let mut r: Vec<(u128, TaskStatus)> = Vec::new();
        let mut i: usize = 0;
        let n = self.tasks.len();
        while i < n
            invariant
                self.wf(),
                n == self.spec_tasks().len(),
                i <= n,
                r@.map_values(|p: (u128, TaskStatus)| p.0) == self.device_tasks_upto(
                    device@,
                    i as int,
                ),
                forall|k: int| 0 <= k < r@.len() ==> self.tasks_row_ok(device@, #[trigger] r@[k]),
            decreases n - i,
        {
            let entry = &self.tasks[i];
            if entry.task.has_device(device) && !(entry.task.is_finished()
                && entry.task.device_acknowledged(device)) {
                let status = entry.task.get_status();
                let ghost pre = r@;
                r.push((entry.id, status));
                proof {
                    assert(r@.map_values(|p: (u128, TaskStatus)| p.0)
                        =~= self.device_tasks_upto(device@, i + 1));
                    assert forall|k: int|
                        0 <= k < r@.len() implies self.tasks_row_ok(device@, #[trigger] r@[k]) by {
                        if k < pre.len() {
                            assert(r@[k] == pre[k]);
                            assert(self.tasks_row_ok(device@, pre[k]));
                        } else {
                            assert(self.spec_tasks()[i as int].id == r@[k].0
                                && self.spec_task_pending_for(device@, i as int)
                                && crate::task::status_matches(
                                self.spec_tasks()[i as int].task,
                                r@[k].1,
                            ));
                            assert(self.tasks_row_ok(device@, r@[k]));
                        }
                    }
                }
            } else {
                proof {
                    assert(r@.map_values(|p: (u128, TaskStatus)| p.0)
                        =~= self.device_tasks_upto(device@, i + 1));
                }
            }
            i += 1;
        }
        r
    }

    /// Every member of the pending list stands for a stored task that
    /// still concerns the device.
    pub proof fn lemma_device_tasks_members(self, device: Seq<u8>, n: int, x: u128)
        requires
            0 <= n <= self.spec_tasks().len(),
            crate::seq_contains_id(self.device_tasks_upto(device, n), x),
        ensures
            exists|j: int|
                0 <= j < n && self.spec_tasks()[j].id == x && self.spec_task_pending_for(
                    device,
                    j,
                ),
        decreases n,
    {
        if n > 0 {
            let upto = self.device_tasks_upto(device, n);
            let prev = self.device_tasks_upto(device, n - 1);
            if self.spec_task_pending_for(device, n - 1) && upto.last() == x {
                assert(self.spec_tasks()[n - 1].id == x);
            } else {
                let k = choose|k: int| 0 <= k < upto.len() && upto[k] == x;
                assert(prev[k] == x);
                self.lemma_device_tasks_members(device, n - 1, x);
            }
        }
    }

    /// A finished task that the device has acknowledged no longer
    /// appears in the device's pending-task listing.
    pub proof fn lemma_acknowledged_task_not_listed(self, device: Seq<u8>, i: int)
        requires
            self.wf(),
            0 <= i < self.spec_tasks().len(),
            self.spec_tasks()[i].task.spec_finished(),
            self.spec_tasks()[i].task.spec_acknowledged(device),
        ensures
            !crate::seq_contains_id(
                self.device_tasks_upto(device, self.spec_tasks().len() as int),
                self.spec_tasks()[i].id,
            ),
    {
        let x = self.spec_tasks()[i].id;
        let n = self.spec_tasks().len() as int;
        if crate::seq_contains_id(self.device_tasks_upto(device, n), x) {
            self.lemma_device_tasks_members(device, n, x);
            let j = choose|j: int|
                0 <= j < n && self.spec_tasks()[j].id == x && self.spec_task_pending_for(
                    device,
                    j,
                );
            if j < i {
                assert(self.spec_tasks()[j].id != self.spec_tasks()[i].id);
            }
            if i < j {
                assert(self.spec_tasks()[i].id != self.spec_tasks()[j].id);
            }
            assert(j == i);
            assert(false);
        }
    }

    /// The group identifiers among the first `n` stored whose member
    /// set includes the device, in storage order.
    pub open spec fn device_groups_upto(self, device: Seq<u8>, n: int) -> Seq<Seq<u8>>
        decreases n,
    {
        if n <= 0 {
            Seq::empty()
        } else if self.spec_groups()[n - 1].spec_contains(device) {
            self.device_groups_upto(device, n - 1).push(
                self.spec_groups()[n - 1].spec_identifier(),
            )
        } else {
            self.device_groups_upto(device, n - 1)
        }
    }

    /// The groups a device is a member of.
    pub fn get_device_groups(&self, device: &Vec<u8>) -> (r: Vec<Group>)
        requires
            self.wf(),
        ensures
            r@.map_values(|g: Group| g.spec_identifier()) == self.device_groups_upto(
                device@,
                self.spec_groups().len() as int,
            ),
            forall|k: int| 0 <= k < r@.len() ==> r@[k].wf() && r@[k].spec_contains(device@),
            forall|k: int| 0 <= k < r@.len() ==> self.group_row_ok(#[trigger] r@[k]),
    {
        let mut r: Vec<Group> = Vec::new();
        let mut i: usize = 0;
        let n = self.groups.len();
        while i < n
            invariant
                self.wf(),
                n == self.spec_groups().len(),
                i <= n,
                r@.map_values(|g: Group| g.spec_identifier()) == self.device_groups_upto(
                    device@,
                    i as int,
                ),
                forall|k: int| 0 <= k < r@.len() ==> r@[k].wf() && r@[k].spec_contains(device@),
                forall|k: int| 0 <= k < r@.len() ==> self.group_row_ok(#[trigger] r@[k]),
            decreases n - i,
        {
            if self.groups[i].contains(device) {
                let ghost pre = r@;
                r.push(self.groups[i].clone());
                proof {
                    assert(r@.map_values(|g: Group| g.spec_identifier())
                        =~= self.device_groups_upto(device@, i + 1));
                    assert forall|k: int|
                        0 <= k < r@.len() implies self.group_row_ok(#[trigger] r@[k]) by {
                        if k < pre.len() {
                            assert(r@[k] == pre[k]);
                            assert(self.group_row_ok(pre[k]));
                        } else {
                            assert(r@[k].spec_identifier()
                                == self.spec_groups()[i as int].spec_identifier()
                                && r@[k].spec_devices()
                                == self.spec_groups()[i as int].spec_devices()
                                && r@[k].spec_threshold()
                                == self.spec_groups()[i as int].spec_threshold()
                                && r@[k].spec_protocol()
                                == self.spec_groups()[i as int].spec_protocol()
                                && r@[k].spec_key_type()
                                == self.spec_groups()[i as int].spec_key_type());
                            assert(self.group_row_ok(r@[k]));
                        }
                    }
                }
            } else {
                proof {
                    assert(r@.map_values(|g: Group| g.spec_identifier())
                        =~= self.device_groups_upto(device@, i + 1));
                }
            }
            i += 1;
        }
        r
    }

    /// Opens a push channel for a device; an existing subscription of
    /// the same device is replaced.
    pub fn add_subscriber(
        &mut self,
        device_id: Vec<u8>,
        tx: tokio::sync::mpsc::Sender<TaskMessage>,
    )
        requires
            old(self).wf(),
        ensures
            final(self).wf(),
            final(self).spec_devices() == old(self).spec_devices(),
            final(self).spec_groups() == old(self).spec_groups(),
            final(self).spec_tasks() == old(self).spec_tasks(),
            final(self).spec_has_subscriber(device_id@),
            forall|d: Seq<u8>|
                d != device_id@ ==> final(self).spec_has_subscriber(d) == old(self).spec_has_subscriber(d),
    {
        self.remove_subscriber(&device_id);
        proof {
            assert(!crate::ids_contain(self.spec_subscriber_ids(), device_id@));
        }
        let ghost mid = *self;
        let ghost did = device_id@;
        self.subscribers.push(Subscriber { device_id, sender: tx });
        proof {
            assert(self.spec_subscriber_ids() =~= mid.spec_subscriber_ids().push(did));
            assert(self.spec_subscriber_ids().last() == did);
            assert forall|d: Seq<u8>|
                d != did implies self.spec_has_subscriber(d) == mid.spec_has_subscriber(d) by {
                let fids = self.spec_subscriber_ids();
                let midids = mid.spec_subscriber_ids();
                if crate::ids_contain(fids, d) {
                    let j = choose|j: int| 0 <= j < fids.len() && fids[j] == d;
                    assert(j < midids.len());
                    assert(midids[j] == d);
                }
                if crate::ids_contain(midids, d) {
                    let j = choose|j: int| 0 <= j < midids.len() && midids[j] == d;
                    assert(fids[j] == d);
                }
            }
        }
    }

    /// Closes a device's push channel, if one is open.
    pub fn remove_subscriber(&mut self, device_id: &Vec<u8>)
        requires
            old(self).wf(),
        ensures
            final(self).wf(),
            final(self).spec_devices() == old(self).spec_devices(),
            final(self).spec_groups() == old(self).spec_groups(),
            final(self).spec_tasks() == old(self).spec_tasks(),
            !final(self).spec_has_subscriber(device_id@),
            forall|d: Seq<u8>|
                d != device_id@ ==> final(self).spec_has_subscriber(d) == old(self).spec_has_subscriber(d),
    {
        let mut i: usize = 0;
        let n = self.subscribers.len();
        while i < n
            invariant
                self.wf(),
                self.spec_devices() == old(self).spec_devices(),
                self.spec_groups() == old(self).spec_groups(),
                self.spec_tasks() == old(self).spec_tasks(),
                self.spec_subscribers() == old(self).spec_subscribers(),
                n == self.spec_subscribers().len(),
                i <= n,
                forall|j: int| 0 <= j < i ==> self.spec_subscriber_ids()[j] != device_id@,
            decreases n - i,
        {
            if crate::bytes_eq(&self.subscribers[i].device_id, device_id) {
                proof {
                    assert(self.spec_subscriber_ids()[i as int] == device_id@);
                }
                let ghost pre = *self;
                self.subscribers.remove(i);
                proof {
                    assert(self.spec_subscriber_ids() =~= pre.spec_subscriber_ids().remove(
                        i as int,
                    ));
                    assert forall|d: Seq<u8>| #[trigger]
                        crate::ids_contain(self.spec_subscriber_ids(), d)
                            == (d != device_id@ && crate::ids_contain(
                            pre.spec_subscriber_ids(),
                            d,
                        )) by {
                        let ids = pre.spec_subscriber_ids();
                        let cut = ids.remove(i as int);
                        if crate::ids_contain(cut, d) {
                            let j = choose|j: int| 0 <= j < cut.len() && cut[j] == d;
                            if j < (i as int) {
                                assert(ids[j] == d);
                                if d == device_id@ {
                                    crate::lemma_distinct_unique(ids, j, i as int);
                                }
                            } else {
                                assert(ids[j + 1] == d);
                                if d == device_id@ {
                                    crate::lemma_distinct_unique(ids, j + 1, i as int);
                                }
                            }
                        }
                        if d != device_id@ && crate::ids_contain(ids, d) {
                            let j = choose|j: int| 0 <= j < ids.len() && ids[j] == d;
                            if j < (i as int) {
                                assert(cut[j] == d);
                            } else {
                                assert(j != i as int);
                                assert(cut[j - 1] == d);
                            }
                        }
                    }
                }
                return ;
            }
            i += 1;
        }
        proof {
            assert(!crate::ids_contain(self.spec_subscriber_ids(), device_id@));
        }
    }

    /// Builds the projection of a task pushed to one device.
    fn task_message(id: u128, task: &Task, device: &Vec<u8>) -> (m: TaskMessage)
        requires
            task.wf(),
        ensures
            m.task_id == id,
            m.state == MessageState::Failed <==> task.spec_failed(),
            m.state == MessageState::Finished <==> task.spec_finished() && !task.spec_failed(),
            match m.work {
                Some(w) => Some(w@) == task.spec_work_for(device@),
                None => task.spec_work_for(device@) is None,
            },
    {
        let state = match task.get_status() {
            TaskStatus::Waiting(_) => MessageState::Waiting,
            TaskStatus::Finished(_) => MessageState::Finished,
            TaskStatus::Failed(_) => MessageState::Failed,
        };
        let work = task.get_work(device);
        TaskMessage { task_id: id, state, work }
    }

    /// Pushes the task's fresh projection to every subscribed
    /// participant, without blocking: a subscriber whose channel is
    /// full or closed is dropped and receives no further pushes, and
    /// only the task's own participants can be dropped.
    fn send_updates(&mut self, task_index: usize)
        requires
            old(self).wf(),
            task_index < old(self).spec_tasks().len(),
        ensures
            final(self).wf(),
            final(self).spec_devices() == old(self).spec_devices(),
            final(self).spec_groups() == old(self).spec_groups(),
            final(self).spec_tasks() == old(self).spec_tasks(),
            forall|d: Seq<u8>|
                final(self).spec_has_subscriber(d) ==> old(self).spec_has_subscriber(d),
            forall|d: Seq<u8>|
                old(self).spec_has_subscriber(d) && !crate::ids_contain(
                    old(self).spec_tasks()[task_index as int].task.spec_device_ids(),
                    d,
                ) ==> final(self).spec_has_subscriber(d),
    {
        let mut failed: Vec<Vec<u8>> = Vec::new();
        let devices = self.tasks[task_index].task.get_devices();
        let ghost devs = old(self).spec_tasks()[task_index as int].task.spec_device_ids();
        let task_id = self.tasks[task_index].id;
        let mut i: usize = 0;
        let n = devices.len();
        while i < n
            invariant
                self.wf(),
                task_index < self.spec_tasks().len(),
                n == devices@.len(),
                devs == crate::ids_view(devices@),
                i <= n,
                forall|k: int| 0 <= k < failed@.len() ==> crate::ids_contain(devs, failed@[k]@),
            decreases n - i,
        {
            let device = &devices[i];
            let mut si: usize = 0;
            let m = self.subscribers.len();
            let mut hit = false;
            let mut hit_at: usize = 0;
            while si < m
                invariant
                    m == self.spec_subscribers().len(),
                    si <= m,
                    hit ==> hit_at < m,
                decreases m - si,
            {
                if !hit && crate::bytes_eq(&self.subscribers[si].device_id, device) {
                    hit = true;
                    hit_at = si;
                }
                si += 1;
            }
            if hit {
                let msg = Self::task_message(
                    task_id,
                    &self.tasks[task_index].task,
                    device,
                );
                let ok = crate::notify::try_send_update(&self.subscribers[hit_at].sender, msg);
                if !ok {
                    failed.push(crate::clone_bytes(device));
                    proof {
                        assert(devs[i as int] == devices@[i as int]@);
                        assert(crate::ids_contain(devs, devices@[i as int]@));
                    }
                }
            }
            i += 1;
        }
        let mut k: usize = 0;
        let nf = failed.len();
        while k < nf
            invariant
                self.wf(),
                self.spec_devices() == old(self).spec_devices(),
                self.spec_groups() == old(self).spec_groups(),
                self.spec_tasks() == old(self).spec_tasks(),
                nf == failed@.len(),
                k <= nf,
                forall|j: int| 0 <= j < failed@.len() ==> crate::ids_contain(devs, failed@[j]@),
                forall|d: Seq<u8>|
                    self.spec_has_subscriber(d) ==> old(self).spec_has_subscriber(d),
                forall|d: Seq<u8>|
                    old(self).spec_has_subscriber(d) && !crate::ids_contain(devs, d) ==> self.spec_has_subscriber(d),
            decreases nf - k,
        {
            self.remove_subscriber(&failed[k]);
            k += 1;
        }
    }
}

} // verus!
