use vstd::prelude::*;

verus! {

/// The kind of a task's projected status, as pushed to subscribers.
#[derive(Clone, Copy, PartialEq, Eq, Structural, Debug)]
pub enum MessageState {
    Waiting,
    Finished,
    Failed,
}

/// The projection of one task pushed to one subscribed device.
pub struct TaskMessage {
    pub task_id: u128,
    pub state: MessageState,
    pub work: Option<Vec<u8>>,
}

#[verifier::external_type_specification]
#[verifier::external_body]
#[verifier::reject_recursive_types(T)]
pub struct ExSender<T>(tokio::sync::mpsc::Sender<T>);

/// Relies on tokio's Sender::try_send: a non-blocking enqueue into a
/// bounded channel that fails when the channel is full or closed.
/// Whether it succeeds depends on the channel's state, so nothing is
/// promised of the outcome.
#[verifier::external_body]
pub fn try_send_update(tx: &tokio::sync::mpsc::Sender<TaskMessage>, msg: TaskMessage) -> (r: bool)
{
    tx.try_send(msg).is_ok()
}

/// One subscribed device: its identifier and its push channel.
pub struct Subscriber {
    pub device_id: Vec<u8>,
    pub sender: tokio::sync::mpsc::Sender<TaskMessage>,
}

} // verus!
