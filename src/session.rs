//! The decisions of a relay session: which directional task to cancel when one ends.
use vstd::prelude::*;

verus! {

/// One of the two directional tasks of a session.
#[derive(Clone, Copy, Debug, PartialEq, Eq, Hash, Structural)]
pub enum TaskType {
    /// Client to upstream.
    WriteTask,
    /// Upstream to client.
    ReadTask,
}

impl TaskType {
    /// The task that copies the other direction.
    pub fn sibling(self) -> (r: TaskType)
        ensures
            r == (if self == TaskType::WriteTask {
                TaskType::ReadTask
            } else {
                TaskType::WriteTask
            }),
    {
        match self {
            TaskType::WriteTask => TaskType::ReadTask,
            TaskType::ReadTask => TaskType::WriteTask,
        }
    }
}

/// Once `task` has ended, the task to cancel: its sibling where it failed, none otherwise.
pub fn on_task_end(task: TaskType, failed: bool) -> (r: Option<TaskType>)
    ensures
        failed ==> r == Some(if task == TaskType::WriteTask {
            TaskType::ReadTask
        } else {
            TaskType::WriteTask
        }),
        !failed ==> r is None,
{
    if failed {
        Some(task.sibling())
    } else {
        None
    }
}

} // verus!
