//! The media library's records and the decisions of the cloud export worker.
//! The records themselves are kept in SQLite, outside this crate.
use vstd::prelude::*;

verus! {

/// A cloud export task as stored: what to export, where to, and how far it got.
pub struct CloudExportTask {
    pub id: i64,
    pub provider: String,
    pub resource_id: String,
    pub source_type: String,
    pub source_locator: String,
    pub status: String,
    pub error_message: Option<String>,
    pub created_at: String,
    pub updated_at: String,
}

/// The row to mark as being exported once the oldest queued task was looked
/// up: that task's, if there was one.
pub fn claim_target(next: &Option<CloudExportTask>) -> (r: Option<i64>)
    ensures
        match next {
            Some(task) => r == Some(task.id),
            None => r is None,
        },
{
    match next {
        Some(task) => Some(task.id),
        None => None,
    }
}

/// What the cloud export worker does after trying to claim a task.
pub enum WorkerAction {
    /// Work on task `id` for `delay_secs` seconds, then set its status to `status`.
    Finish { id: i64, status: String, delay_secs: u64 },
    /// Wait `delay_secs` seconds before trying again.
    Wait { delay_secs: u64 },
}

/// The worker's next action: a claimed task is finished after a second; with
/// nothing to do, or after a failure, the worker waits five seconds.
pub fn worker_action(claimed: &Result<Option<CloudExportTask>, String>) -> (r: WorkerAction)
    ensures
        match claimed {
            Ok(Some(task)) => r matches WorkerAction::Finish { id, status, delay_secs } && id
                == task.id && status@ == "done"@ && delay_secs == 1,
            _ => r matches WorkerAction::Wait { delay_secs } && delay_secs == 5,
        },
{
    match claimed {
        Ok(Some(task)) => WorkerAction::Finish {
            id: task.id,
            status: String::from_str("done"),
            delay_secs: 1,
        },
        _ => WorkerAction::Wait { delay_secs: 5 },
    }
}

} // verus!
