use mpcoord::communicator::Communicator;
use mpcoord::group::{KeyType, ProtocolType};
use mpcoord::protocol::{Musig2Group, Musig2Sign};
use mpcoord::state::State;
use mpcoord::task::{GroupTask, SignTask, Task, TaskError, TaskResult, TaskStatus};

fn id(b: &[u8]) -> Vec<u8> {
    b.to_vec()
}

fn name(s: &str) -> Vec<u8> {
    s.as_bytes().to_vec()
}

fn register_three(state: &mut State) -> (Vec<u8>, Vec<u8>, Vec<u8>) {
    let (d1, d2, d3) = (id(b"\x01\x01"), id(b"\x02\x02"), id(b"\x03\x03"));
    assert!(state.add_device(&d1, &name("alpha")));
    assert!(state.add_device(&d2, &name("beta")));
    assert!(state.add_device(&d3, &name("gamma")));
    (d1, d2, d3)
}

/// Drives a stored group-formation task to completion: every device
/// posts once per round until the task is finished.
fn drive_to_finish(state: &mut State, task_id: u128, devices: &[Vec<u8>]) {
    for _round in 0..8 {
        let finished = match state.get_task(task_id) {
            Some(t) => matches!(t.get_status(), TaskStatus::Finished(_)),
            None => panic!("task lost"),
        };
        if finished {
            return;
        }
        for d in devices {
            state.update_task(task_id, d, vec![0xaa]).unwrap();
        }
    }
    panic!("task did not finish");
}

#[test]
fn duplicate_registration_rejected_and_registry_unchanged() {
    let mut state = State::new();
    let d1 = id(b"\x10");
    assert!(state.add_device(&d1, &name("first")));
    assert_eq!(state.get_devices().len(), 1);
    assert!(!state.add_device(&d1, &name("second")));
    assert_eq!(state.get_devices().len(), 1);
    assert_eq!(state.get_devices()[0].name, name("first"));
}

#[test]
fn invalid_names_rejected() {
    let mut state = State::new();
    assert!(!state.add_device(&id(b"\x11"), &name("has.dot")));
    assert!(!state.add_device(&id(b"\x11"), &name("has\x07bell")));
    let long: Vec<u8> = vec![b'a'; 65];
    assert!(!state.add_device(&id(b"\x11"), &long));
    let just_fits: Vec<u8> = vec![b'a'; 64];
    assert!(state.add_device(&id(b"\x11"), &just_fits));
}

#[test]
fn name_validation_counts_characters_not_bytes() {
    let mut state = State::new();
    // 33 Cyrillic characters: 66 bytes, but within the 64-character rule.
    let cyrillic: String = std::iter::repeat('\u{0436}').take(33).collect();
    assert_eq!(cyrillic.len(), 66);
    assert!(state.add_device(&id(b"\x21"), &cyrillic.as_bytes().to_vec()));
    // 65 characters of the same kind go over the limit.
    let too_many: String = std::iter::repeat('\u{0436}').take(65).collect();
    assert!(!state.add_device(&id(b"\x22"), &too_many.as_bytes().to_vec()));
}

#[test]
fn name_validation_rejects_unicode_control_characters() {
    let mut state = State::new();
    // U+0085 (next line) is a control character encoded as C2 85.
    let with_nel = format!("ab{}cd", '\u{0085}');
    assert!(!state.add_device(&id(b"\x23"), &with_nel.as_bytes().to_vec()));
    // A non-control two-byte character passes.
    let with_umlaut = format!("gr{}n", '\u{00fc}');
    assert!(state.add_device(&id(b"\x23"), &with_umlaut.as_bytes().to_vec()));
    // The signing-request name check rejects the same control character.
    let (d1, d2, d3) = register_three(&mut state);
    let devices = vec![d1.clone(), d2.clone(), d3.clone()];
    let gtask = state
        .add_group_task(&name("team"), &devices, 2, ProtocolType::Gg18, KeyType::SignPdf)
        .unwrap();
    drive_to_finish(&mut state, gtask, &devices);
    let gid = state.get_groups()[0].identifier().clone();
    assert!(state
        .add_sign_task(&gid, &with_nel.as_bytes().to_vec(), &name("d"))
        .is_none());
}

#[test]
fn scenario_group_formation_two_of_three() {
    let mut state = State::new();
    let (d1, d2, d3) = register_three(&mut state);
    let task_id = state
        .add_group_task(
            &name("team"),
            &vec![d1.clone(), d2.clone(), d3.clone()],
            2,
            ProtocolType::Gg18,
            KeyType::SignPdf,
        )
        .expect("task should be created");
    // Each device initially awaits its announcement payload: tag 1,
    // then index, participant count and threshold, big-endian.
    assert_eq!(
        state.get_work(task_id, &d1),
        Some(vec![1, 0, 0, 0, 0, 0, 0, 0, 3, 0, 0, 0, 2])
    );
    assert_eq!(
        state.get_work(task_id, &d2),
        Some(vec![1, 0, 0, 0, 1, 0, 0, 0, 3, 0, 0, 0, 2])
    );
    // Each device posts its round-one payload; the third post finishes
    // the task.
    assert_eq!(state.update_task(task_id, &d1, vec![1]), Ok(true));
    assert_eq!(state.update_task(task_id, &d2, vec![2]), Ok(true));
    let mid = state.get_task(task_id).unwrap().get_status();
    assert_eq!(status_tag(&mid), "waiting");
    match mid {
        TaskStatus::Waiting(pending) => assert_eq!(pending, vec![d3.clone()]),
        _ => unreachable!(),
    }
    assert_eq!(state.update_task(task_id, &d3, vec![3]), Ok(true));
    let done = state.get_task(task_id).unwrap().get_status();
    assert_eq!(status_tag(&done), "finished");
    assert_eq!(state.get_groups().len(), 1);
    let group = &state.get_groups()[0];
    assert_eq!(group.threshold(), 2);
    let members = group.devices().clone();
    assert_eq!(members, vec![d1.clone(), d2.clone(), d3.clone()]);
    let mut expected_id = Vec::new();
    expected_id.extend_from_slice(&d1);
    expected_id.extend_from_slice(&d2);
    expected_id.extend_from_slice(&d3);
    assert_eq!(group.identifier().clone(), expected_id);
}

#[test]
fn group_established_exactly_once() {
    let mut state = State::new();
    let (d1, d2, d3) = register_three(&mut state);
    let devices = vec![d1.clone(), d2.clone(), d3.clone()];
    let task_id = state
        .add_group_task(&name("team"), &devices, 2, ProtocolType::Gg18, KeyType::SignPdf)
        .unwrap();
    drive_to_finish(&mut state, task_id, &devices);
    assert_eq!(state.get_groups().len(), 1);
    // Further updates on the finished task change nothing.
    assert_eq!(state.update_task(task_id, &d1, vec![1]), Ok(false));
    assert_eq!(state.get_groups().len(), 1);
    match state.get_task(task_id).unwrap().get_status() {
        TaskStatus::Finished(TaskResult::GroupEstablished(g)) => {
            assert_eq!(g.threshold(), 2);
        }
        other => panic!("unexpected status {:?}", status_tag(&other)),
    }
}

fn status_tag(s: &TaskStatus) -> &'static str {
    match s {
        TaskStatus::Waiting(_) => "waiting",
        TaskStatus::Finished(_) => "finished",
        TaskStatus::Failed(_) => "failed",
    }
}

#[test]
fn group_task_rejections() {
    let mut state = State::new();
    let (d1, d2, _d3) = register_three(&mut state);
    // Unknown device in the candidate list.
    assert!(state
        .add_group_task(
            &name("team"),
            &vec![d1.clone(), id(b"\x77")],
            1,
            ProtocolType::Gg18,
            KeyType::SignPdf,
        )
        .is_none());
    // Threshold above the candidate count.
    assert!(state
        .add_group_task(
            &name("team"),
            &vec![d1.clone(), d2.clone()],
            3,
            ProtocolType::Gg18,
            KeyType::SignPdf,
        )
        .is_none());
    // Invalid group name.
    assert!(state
        .add_group_task(
            &name("bad!"),
            &vec![d1.clone()],
            1,
            ProtocolType::Gg18,
            KeyType::SignPdf,
        )
        .is_none());
    assert_eq!(state.get_tasks().len(), 0);
}

#[test]
fn scenario_signing_waits_for_all_active() {
    let mut state = State::new();
    let (d1, d2, d3) = register_three(&mut state);
    let devices = vec![d1.clone(), d2.clone(), d3.clone()];
    let gtask = state
        .add_group_task(&name("team"), &devices, 2, ProtocolType::Gg18, KeyType::SignPdf)
        .unwrap();
    drive_to_finish(&mut state, gtask, &devices);
    let gid = state.get_groups()[0].identifier().clone();

    let stask = state
        .add_sign_task(&gid, &name("hello-req"), &name("hello"))
        .expect("sign task should be created");
    // All three members were selected active: with only two posting,
    // the task stays Waiting through every round.
    for _ in 0..3 {
        assert_eq!(state.update_task(stask, &d1, vec![1]), Ok(true));
        assert_eq!(state.update_task(stask, &d2, vec![2]), Ok(true));
        let status = state.get_task(stask).unwrap().get_status();
        assert_eq!(status_tag(&status), "waiting");
        // A repeated post in the same round changes nothing.
        assert_eq!(state.update_task(stask, &d1, vec![1]), Ok(false));
        assert_eq!(state.update_task(stask, &d3, vec![3]), Ok(true));
    }
    // Three posting rounds and the signing task finishes.
    let status = state.get_task(stask).unwrap().get_status();
    assert_eq!(status_tag(&status), "finished");
    match status {
        TaskStatus::Finished(TaskResult::Signed(_)) => {}
        _ => panic!("expected a signature"),
    }
}

#[test]
fn scenario_unknown_device_update_rejected() {
    let mut state = State::new();
    let (d1, d2, d3) = register_three(&mut state);
    let devices = vec![d1.clone(), d2.clone(), d3.clone()];
    let task_id = state
        .add_group_task(&name("team"), &devices, 2, ProtocolType::Gg18, KeyType::SignPdf)
        .unwrap();
    let before = status_tag(&state.get_task(task_id).unwrap().get_status());
    let outsider = id(b"\x99");
    assert_eq!(
        state.update_task(task_id, &outsider, vec![5]),
        Err(TaskError::UnknownDevice)
    );
    let after = status_tag(&state.get_task(task_id).unwrap().get_status());
    assert_eq!(before, after);
    assert_eq!(before, "waiting");
}

#[test]
fn unknown_task_update_rejected() {
    let mut state = State::new();
    let (d1, _d2, _d3) = register_three(&mut state);
    assert_eq!(
        state.update_task(42, &d1, vec![1]),
        Err(TaskError::UnknownTask)
    );
}

#[test]
fn acknowledgement_is_idempotent() {
    let mut state = State::new();
    let (d1, d2, d3) = register_three(&mut state);
    let devices = vec![d1.clone(), d2.clone(), d3.clone()];
    let task_id = state
        .add_group_task(&name("team"), &devices, 2, ProtocolType::Gg18, KeyType::SignPdf)
        .unwrap();
    drive_to_finish(&mut state, task_id, &devices);
    assert_eq!(state.get_device_tasks(&d1).len(), 1);
    state.acknowledge_task(task_id, &d1);
    assert_eq!(state.get_device_tasks(&d1).len(), 0);
    state.acknowledge_task(task_id, &d1);
    assert_eq!(state.get_device_tasks(&d1).len(), 0);
    // Another device's listing is unaffected.
    assert_eq!(state.get_device_tasks(&d2).len(), 1);
}

#[test]
fn scenario_full_subscriber_channel_dropped() {
    let mut state = State::new();
    let (d1, d2, d3) = register_three(&mut state);
    let devices = vec![d1.clone(), d2.clone(), d3.clone()];
    let task_id = state
        .add_group_task(&name("team"), &devices, 2, ProtocolType::Gg18, KeyType::SignPdf)
        .unwrap();
    let (tx, _rx) = tokio::sync::mpsc::channel(1);
    // Fill the bounded channel before subscribing.
    tx.try_send(mpcoord::notify::TaskMessage {
        task_id: 0,
        state: mpcoord::notify::MessageState::Waiting,
        work: None,
    })
    .unwrap();
    state.add_subscriber(d1.clone(), tx);
    assert_eq!(state.get_subscribers().len(), 1);
    // The triggering update completes, and the stuck subscriber is gone.
    assert_eq!(state.update_task(task_id, &d1, vec![1]), Ok(true));
    assert_eq!(state.get_subscribers().len(), 0);
}

#[test]
fn subscriber_receives_updates() {
    let mut state = State::new();
    let (d1, d2, d3) = register_three(&mut state);
    let devices = vec![d1.clone(), d2.clone(), d3.clone()];
    let (tx, mut rx) = tokio::sync::mpsc::channel(16);
    state.add_subscriber(d1.clone(), tx);
    let task_id = state
        .add_group_task(&name("team"), &devices, 2, ProtocolType::Gg18, KeyType::SignPdf)
        .unwrap();
    let msg = rx.try_recv().expect("a push should have been sent");
    assert_eq!(msg.task_id, task_id);
    assert_eq!(msg.state, mpcoord::notify::MessageState::Waiting);
    state.remove_subscriber(&d1);
    assert_eq!(state.get_subscribers().len(), 0);
}

#[test]
fn protocol_rounds_increase_by_one() {
    let mut comm = Communicator::new(vec![id(b"\x01"), id(b"\x02")], 2);
    let mut proto = Musig2Group::new(2, 2);
    assert_eq!(proto.round(), 0);
    assert_eq!(proto.last_round(), 2);
    proto.initialize(&mut comm, &Vec::new());
    assert_eq!(proto.round(), 1);
    comm.receive(&id(b"\x01"), vec![1]);
    comm.receive(&id(b"\x02"), vec![2]);
    proto.advance(&mut comm);
    assert_eq!(proto.round(), 2);
    comm.receive(&id(b"\x01"), vec![3]);
    comm.receive(&id(b"\x02"), vec![4]);
    let out = proto.finalize(&mut comm);
    assert_eq!(proto.round(), 3);
    assert_eq!(out, Some(vec![3]));
    assert_eq!(proto.get_type(), ProtocolType::Musig2);
}

#[test]
fn sign_protocol_round_window() {
    let mut comm = Communicator::new(vec![id(b"\x01")], 1);
    let mut proto = Musig2Sign::new();
    assert_eq!(proto.last_round(), 3);
    proto.initialize(&mut comm, &name("data"));
    assert_eq!(proto.round(), 1);
    for expected in 2..=3 {
        comm.receive(&id(b"\x01"), vec![expected as u8]);
        proto.advance(&mut comm);
        assert_eq!(proto.round(), expected);
    }
    comm.receive(&id(b"\x01"), vec![9]);
    let out = proto.finalize(&mut comm);
    assert_eq!(out, Some(vec![9]));
    assert_eq!(proto.round(), 4);
}

#[test]
fn group_init_payload_bytes() {
    let mut comm = Communicator::new(vec![id(b"\x01"), id(b"\x02")], 2);
    let mut proto = Musig2Group::new(2, 1);
    proto.initialize(&mut comm, &Vec::new());
    let work = comm.get_work(&id(b"\x02")).expect("init payload expected");
    // Tag 1, index 1, parties 2, threshold 1, all big-endian.
    assert_eq!(work, vec![1, 0, 0, 0, 1, 0, 0, 0, 2, 0, 0, 0, 1]);
}

#[test]
fn relay_frames_peer_messages() {
    let mut comm = Communicator::new(vec![id(b"\x01"), id(b"\x02")], 2);
    let mut proto = Musig2Group::new(2, 2);
    proto.initialize(&mut comm, &Vec::new());
    comm.receive(&id(b"\x01"), vec![0x0a, 0x0b]);
    comm.receive(&id(b"\x02"), vec![0x0c]);
    proto.advance(&mut comm);
    // Each device now holds the framed message of its one peer.
    let w1 = comm.get_work(&id(b"\x01")).unwrap();
    assert_eq!(w1, vec![0, 0, 0, 1, 0x0c]);
    let w2 = comm.get_work(&id(b"\x02")).unwrap();
    assert_eq!(w2, vec![0, 0, 0, 2, 0x0a, 0x0b]);
}

#[test]
fn sign_task_work_follows_contribution() {
    let mut state = State::new();
    let (d1, d2, d3) = register_three(&mut state);
    let devices = vec![d1.clone(), d2.clone(), d3.clone()];
    let gtask = state
        .add_group_task(&name("team"), &devices, 2, ProtocolType::Gg18, KeyType::SignPdf)
        .unwrap();
    drive_to_finish(&mut state, gtask, &devices);
    let group = state.get_groups()[0].clone();
    let mut task = SignTask::new(&group, name("req"), name("hello"));
    // Work appears only after the device posts its round contribution.
    assert_eq!(task.get_work(&d1), None);
    task.update(&d1, vec![1]).unwrap();
    assert_eq!(task.get_work(&d1), Some(name("hello")));
    assert_eq!(task.get_work(&d2), None);
    // A non-participant never sees work.
    assert_eq!(task.get_work(&id(b"\x99")), None);
}

#[test]
fn decide_rejection_fails_task() {
    let mut state = State::new();
    let (d1, d2, d3) = register_three(&mut state);
    let devices = vec![d1.clone(), d2.clone(), d3.clone()];
    let task_id = state
        .add_group_task(&name("team"), &devices, 2, ProtocolType::Gg18, KeyType::SignPdf)
        .unwrap();
    assert!(state.decide_task(task_id, &d2, false));
    match state.get_task(task_id).unwrap().get_status() {
        TaskStatus::Failed(reason) => assert_eq!(reason, d2),
        _ => panic!("expected failure"),
    }
    // A second decision by the same device changes nothing.
    assert!(!state.decide_task(task_id, &d2, true));
    // Updates on a failed task report no change.
    assert_eq!(state.update_task(task_id, &d1, vec![1]), Ok(false));
}

#[test]
fn restart_resets_round_state() {
    let mut state = State::new();
    let (d1, d2, d3) = register_three(&mut state);
    let devices = vec![d1.clone(), d2.clone(), d3.clone()];
    let task_id = state
        .add_group_task(&name("team"), &devices, 2, ProtocolType::Gg18, KeyType::SignPdf)
        .unwrap();
    assert_eq!(state.update_task(task_id, &d1, vec![1]), Ok(true));
    assert!(state.restart_task(task_id));
    // After the restart the same device's post counts as new again.
    assert_eq!(state.update_task(task_id, &d1, vec![1]), Ok(true));
    drive_to_finish(&mut state, task_id, &devices);
    // A finished task is never restartable.
    assert!(!state.restart_task(task_id));
    let mut direct = GroupTask::new(name("x"), &vec![d1.clone()], 1, ProtocolType::Gg18, KeyType::SignPdf);
    direct.update(&d1, vec![1]).unwrap();
    direct.update(&d1, vec![2]).unwrap();
    assert_eq!(direct.restart(), Err(TaskError::AlreadyFinished));
}

#[test]
fn sign_task_rejections() {
    let mut state = State::new();
    let (d1, d2, d3) = register_three(&mut state);
    let devices = vec![d1.clone(), d2.clone(), d3.clone()];
    let gtask = state
        .add_group_task(&name("team"), &devices, 2, ProtocolType::Gg18, KeyType::SignPdf)
        .unwrap();
    drive_to_finish(&mut state, gtask, &devices);
    let gid = state.get_groups()[0].identifier().clone();
    // Unknown group.
    assert!(state.add_sign_task(&id(b"\x55"), &name("n"), &name("d")).is_none());
    // Oversized data.
    let big = vec![0u8; 8 * 1024 * 1024 + 1];
    assert!(state.add_sign_task(&gid, &name("n"), &big).is_none());
    // Control character in the name.
    assert!(state.add_sign_task(&gid, &name("a\x01b"), &name("d")).is_none());
    // Data of exactly the largest allowed size passes.
    let at_limit = vec![0u8; 8 * 1024 * 1024];
    assert!(state.add_sign_task(&gid, &name("n"), &at_limit).is_some());
    // A valid request passes.
    assert!(state.add_sign_task(&gid, &name("n"), &name("d")).is_some());
}

#[test]
fn device_activation() {
    let mut state = State::new();
    let (d1, _d2, _d3) = register_three(&mut state);
    assert!(!state.get_devices()[0].active);
    assert!(state.device_activated(&d1));
    assert!(state.get_devices()[0].active);
    assert!(!state.device_activated(&id(b"\x42")));
}

#[test]
fn device_groups_membership() {
    let mut state = State::new();
    let (d1, d2, d3) = register_three(&mut state);
    let devices = vec![d1.clone(), d2.clone()];
    let gtask = state
        .add_group_task(&name("pair"), &devices, 2, ProtocolType::Gg18, KeyType::SignPdf)
        .unwrap();
    drive_to_finish(&mut state, gtask, &devices);
    assert_eq!(state.get_device_groups(&d1).len(), 1);
    assert_eq!(state.get_device_groups(&d3).len(), 0);
}

#[test]
fn key_type_support_table() {
    assert!(ProtocolType::Gg18.check_key_type(KeyType::SignPdf));
    assert!(!ProtocolType::Gg18.check_key_type(KeyType::SignChallenge));
    assert!(ProtocolType::Musig2.check_key_type(KeyType::SignChallenge));
    assert!(!ProtocolType::Musig2.check_key_type(KeyType::SignPdf));
}

#[test]
fn duplicate_candidates_are_collapsed() {
    let mut state = State::new();
    let (d1, d2, _d3) = register_three(&mut state);
    let task_id = state
        .add_group_task(
            &name("team"),
            &vec![d1.clone(), d2.clone(), d1.clone()],
            2,
            ProtocolType::Gg18,
            KeyType::SignPdf,
        )
        .unwrap();
    let task = state.get_task(task_id).unwrap();
    match task {
        Task::Group(_) | Task::Sign(_) => {}
    }
    assert_eq!(task.get_devices().len(), 2);
}

#[test]
fn empty_candidate_list_task_waits_forever() {
    let mut state = State::new();
    let task_id = state
        .add_group_task(&name("void"), &Vec::new(), 0, ProtocolType::Gg18, KeyType::SignPdf)
        .expect("an empty candidate list is not rejected");
    match state.get_task(task_id).unwrap().get_status() {
        TaskStatus::Waiting(pending) => assert!(pending.is_empty()),
        _ => panic!("expected waiting"),
    }
    assert_eq!(
        state.update_task(task_id, &id(b"\x01"), vec![1]),
        Err(TaskError::UnknownDevice)
    );
    assert_eq!(state.get_groups().len(), 0);
}
