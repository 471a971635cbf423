//! The transfer queue: which tasks are saved when the app quits with work
//! pending, and how each is written down.

use vstd::prelude::*;
use crate::format::{format_size, format_size_spec};
use crate::text::{decimal, push_str, string_from};

verus! {

/// State of a transfer task.
#[derive(Debug, Clone, Copy, PartialEq, Eq, Structural)]
pub enum TransferState {
    Queued,
    Running,
    Waiting,
    Paused,
    Completed,
    Failed,
    Cancelled,
}

impl TransferState {
    /// Not yet finished: queued, running, waiting for the network, or paused.
    pub open spec fn active(self) -> bool {
        match self {
            TransferState::Queued | TransferState::Running | TransferState::Waiting
            | TransferState::Paused => true,
            TransferState::Completed | TransferState::Failed | TransferState::Cancelled => false,
        }
    }

    /// Whether the task still has work to do.
    pub fn is_active(&self) -> (b: bool)
        ensures
            b == self.active(),
    {
        match self {
            TransferState::Queued | TransferState::Running | TransferState::Waiting
            | TransferState::Paused => true,
            _ => false,
        }
    }

    /// Whether the task has ended (completed, failed or cancelled).
    pub fn is_finished(&self) -> (b: bool)
        ensures
            b == !self.active(),
    {
        !self.is_active()
    }
}

/// Direction and endpoints of a transfer (local paths as text).
#[derive(Debug, Clone, PartialEq, Eq)]
pub enum TransferKind {
    Download { account_id: String, bucket: String, key: String, dest: String },
    Upload { account_id: String, bucket: String, key: String, source: String },
}

/// One task of the transfer queue.
#[derive(Debug, Clone, PartialEq, Eq)]
pub struct TransferTask {
    pub id: u64,
    pub kind: TransferKind,
    pub display_name: String,
    pub state: TransferState,
    pub bytes_done: u64,
    pub bytes_total: Option<u64>,
    pub error: Option<String>,
    pub enqueued_at_millis: u64,
}

/// A queued transfer as it is saved across restarts.
#[derive(Debug, Clone, PartialEq, Eq)]
pub struct PersistedTransfer {
    pub kind: String,
    pub account_id: String,
    pub bucket: String,
    pub object_key: String,
    pub dest: String,
    pub display_name: String,
    pub state: String,
    pub region: Option<String>,
    pub enqueued_at_millis: i64,
}

/// The text of an optional string.
pub open spec fn opt_text(s: Option<String>) -> Option<Seq<char>> {
    match s {
        Some(t) => Some(t@),
        None => None,
    }
}

/// A saved transfer as plain values: kind, account, bucket, key, local path,
/// display name, state, region and enqueue time.
pub type PersistedRow = (
    Seq<char>,
    Seq<char>,
    Seq<char>,
    Seq<char>,
    Seq<char>,
    Seq<char>,
    Seq<char>,
    Option<Seq<char>>,
    int,
);

impl View for PersistedTransfer {
    type V = PersistedRow;

    open spec fn view(&self) -> PersistedRow {
        (
            self.kind@,
            self.account_id@,
            self.bucket@,
            self.object_key@,
            self.dest@,
            self.display_name@,
            self.state@,
            opt_text(self.region),
            self.enqueued_at_millis as int,
        )
    }
}

/// How an active task is saved: its endpoints, `paused` if the user paused
/// it and `queued` otherwise (running and waiting tasks resume on the next
/// start), the bucket's region when one is known, and its enqueue time as a
/// signed number.
pub open spec fn persisted_row(t: TransferTask, region: Option<Seq<char>>) -> PersistedRow {
    let state = if t.state == TransferState::Paused {
        "paused"@
    } else {
        "queued"@
    };
    let enqueued = (t.enqueued_at_millis as i64) as int;
    match t.kind {
        TransferKind::Download { account_id, bucket, key, dest } => (
            "download"@,
            account_id@,
            bucket@,
            key@,
            dest@,
            t.display_name@,
            state,
            region,
            enqueued,
        ),
        TransferKind::Upload { account_id, bucket, key, source } => (
            "upload"@,
            account_id@,
            bucket@,
            key@,
            source@,
            t.display_name@,
            state,
            region,
            enqueued,
        ),
    }
}

/// The rows saved for `tasks`, where `regions[i]` is the known region of
/// the bucket of `tasks[i]`: finished tasks are dropped, the order is kept.
pub open spec fn persisted_rows(tasks: Seq<TransferTask>, regions: Seq<Option<Seq<char>>>) -> Seq<PersistedRow>
    decreases tasks.len(),
{
    if tasks.len() == 0 {
        Seq::empty()
    } else {
        let rest = persisted_rows(tasks.drop_last(), regions.drop_last());
        if tasks.last().state.active() {
            rest.push(persisted_row(tasks.last(), regions.last()))
        } else {
            rest
        }
    }
}

/// The saved form of one active task.
fn persist_task(t: &TransferTask, region: &Option<String>) -> (r: PersistedTransfer)
    ensures
        r@ == persisted_row(*t, opt_text(*region)),
{
    let state = if t.state == TransferState::Paused {
        string_from("paused")
    } else {
        string_from("queued")
    };
    let region = match region {
        Some(s) => Some(string_from(s.as_str())),
        None => None,
    };
    let enqueued: i64 = t.enqueued_at_millis as i64;
    match &t.kind {
        TransferKind::Download { account_id, bucket, key, dest } => PersistedTransfer {
            kind: string_from("download"),
            account_id: string_from(account_id.as_str()),
            bucket: string_from(bucket.as_str()),
            object_key: string_from(key.as_str()),
            dest: string_from(dest.as_str()),
            display_name: string_from(t.display_name.as_str()),
            state,
            region,
            enqueued_at_millis: enqueued,
        },
        TransferKind::Upload { account_id, bucket, key, source } => PersistedTransfer {
            kind: string_from("upload"),
            account_id: string_from(account_id.as_str()),
            bucket: string_from(bucket.as_str()),
            object_key: string_from(key.as_str()),
            dest: string_from(source.as_str()),
            display_name: string_from(t.display_name.as_str()),
            state,
            region,
            enqueued_at_millis: enqueued,
        },
    }
}

/// The views of saved transfers.
pub open spec fn persisted_views(v: Seq<PersistedTransfer>) -> Seq<PersistedRow> {
    v.map_values(|p: PersistedTransfer| p@)
}

/// The rows to save when quitting with transfers pending: every active task
/// in queue order, with `regions[i]` the cached region of the bucket of
/// `tasks[i]`.
pub fn persistable_from_snapshot(tasks: &[TransferTask], regions: &[Option<String>]) -> (r: Vec<PersistedTransfer>)
    requires
        regions@.len() == tasks@.len(),
    ensures
        persisted_views(r@) == persisted_rows(tasks@, regions@.map_values(|o: Option<String>| opt_text(o))),
{
    let ghost rv = regions@.map_values(|o: Option<String>| opt_text(o));
    let mut out: Vec<PersistedTransfer> = Vec::new();
    let mut i: usize = 0;
    while i < tasks.len()
        invariant
            0 <= i <= tasks@.len(),
            regions@.len() == tasks@.len(),
            rv == regions@.map_values(|o: Option<String>| opt_text(o)),
            persisted_views(out@) == persisted_rows(tasks@.take(i as int), rv.take(i as int)),
        decreases tasks.len() - i,
    {
        let ghost before = out@;
        proof {
            assert(tasks@.take(i + 1).drop_last() =~= tasks@.take(i as int));
            assert(rv.take(i + 1).drop_last() =~= rv.take(i as int));
            assert(tasks@.take(i + 1).last() == tasks@[i as int]);
            assert(rv.take(i + 1).last() == rv[i as int]);
        }
        if tasks[i].state.is_active() {
            let row = persist_task(&tasks[i], &regions[i]);
            out.push(row);
            proof {
                assert(out@ == before.push(row));
                assert(persisted_views(out@) =~= persisted_views(before).push(row@));
            }
        }
        i += 1;
    }
    proof {
        assert(tasks@.take(tasks@.len() as int) =~= tasks@);
        assert(rv.take(rv.len() as int) =~= rv);
    }
    out
}

/// The byte count of a task row: done of total when the total is known.
pub open spec fn bytes_label_of(done: nat, total: Option<u64>) -> Seq<char> {
    match total {
        Some(t) => format_size_spec(done) + " / "@ + format_size_spec(t as nat),
        None => format_size_spec(done),
    }
}

/// The byte count shown on a task row.
pub fn transfer_bytes_label(done: u64, total: Option<u64>) -> (r: String)
    ensures
        r@ == bytes_label_of(done as nat, total),
{
    let mut out = format_size(done);
    match total {
        Some(t) => {
            push_str(&mut out, " / ");
            push_str(&mut out, format_size(t).as_str());
        },
        None => {},
    }
    out
}

/// The button a task row offers.
#[derive(Debug, Clone, Copy, PartialEq, Eq, Structural)]
pub enum TransferRowAction {
    /// Cancel a task that is still active.
    Cancel,
    /// Resume a failed task.
    Retry,
}

/// The button of a task row: active tasks can be cancelled, failed ones
/// retried, and completed or cancelled ones offer nothing.
pub fn transfer_row_action(state: TransferState) -> (r: Option<TransferRowAction>)
    ensures
        state.active() ==> r == Some(TransferRowAction::Cancel),
        state is Failed ==> r == Some(TransferRowAction::Retry),
        (state is Completed || state is Cancelled) ==> r is None,
{
    match state {
        TransferState::Queued | TransferState::Running | TransferState::Waiting
        | TransferState::Paused => Some(TransferRowAction::Cancel),
        TransferState::Failed => Some(TransferRowAction::Retry),
        TransferState::Completed | TransferState::Cancelled => None,
    }
}

/// The question asked when quitting with `active` unfinished transfers.
pub fn quit_prompt_message(active: usize) -> (r: String)
    ensures
        r@ == "有 "@ + decimal(active as nat) + " 个传输任务尚未完成。"@,
{
    let mut out = string_from("有 ");
    push_str(&mut out, crate::text::decimal_string(active as u64).as_str());
    push_str(&mut out, " 个传输任务尚未完成。");
    out
}

/// How a saved row is restored on the next start: as an upload or a
/// download, and paused or not.
pub open spec fn restored_of(row: PersistedRow) -> (bool, bool) {
    (row.0 == "upload"@, row.6 == "paused"@)
}

/// How a saved row is restored: whether it is an upload (else a download)
/// and whether it goes back to paused.
pub fn restore_plan(row: &PersistedTransfer) -> (r: (bool, bool))
    ensures
        r == restored_of(row@),
{
    (crate::text::str_eq(row.kind.as_str(), "upload"), crate::text::str_eq(row.state.as_str(), "paused"))
}

/// A task saved on quit comes back as the same kind of transfer, between
/// the same endpoints, paused exactly when it was paused.
pub proof fn law_restore_undoes_persist(t: TransferTask, region: Option<Seq<char>>)
    requires
        t.state.active(),
    ensures
        restored_of(persisted_row(t, region)) == (t.kind is Upload, t.state == TransferState::Paused),
        persisted_row(t, region).7 == region,
        persisted_row(t, region).5 == t.display_name@,
{
    reveal_strlit("upload");
    reveal_strlit("download");
    reveal_strlit("paused");
    reveal_strlit("queued");
    assert("download"@.len() != "upload"@.len());
    assert("queued"@[0] != "paused"@[0]);
    match t.kind {
        TransferKind::Download { .. } => {
            assert("download"@ != "upload"@);
        },
        TransferKind::Upload { .. } => {},
    }
    if t.state != TransferState::Paused {
        assert("queued"@ != "paused"@);
    }
}


/// The error notice when the saved transfer queue cannot be read at start.
pub fn restore_failure_message(error: &str) -> (m: crate::model::DownloadMessage)
    ensures
        m.is_error,
        m.text@ == "读取已保存的传输队列失败："@ + error@,
{
    let mut text = string_from("读取已保存的传输队列失败：");
    push_str(&mut text, error);
    crate::model::DownloadMessage { is_error: true, text }
}


/// Bytes done over all tasks.
pub open spec fn sum_done(ts: Seq<TransferTask>) -> nat
    decreases ts.len(),
{
    if ts.len() == 0 {
        0
    } else {
        sum_done(ts.drop_last()) + ts.last().bytes_done as nat
    }
}

/// Bytes to transfer over the tasks whose size is known.
pub open spec fn sum_total(ts: Seq<TransferTask>) -> nat
    decreases ts.len(),
{
    if ts.len() == 0 {
        0
    } else {
        sum_total(ts.drop_last()) + match ts.last().bytes_total {
            Some(t) => t as nat,
            None => 0,
        }
    }
}

/// How many tasks are still active.
pub open spec fn active_count_of(ts: Seq<TransferTask>) -> nat
    decreases ts.len(),
{
    if ts.len() == 0 {
        0
    } else {
        active_count_of(ts.drop_last()) + if ts.last().state.active() {
            1nat
        } else {
            0nat
        }
    }
}

/// Some task is running.
pub open spec fn any_running(ts: Seq<TransferTask>) -> bool {
    exists|i: int| 0 <= i < ts.len() && ts[i].state == TransferState::Running
}

/// Some task is finished.
pub open spec fn any_finished(ts: Seq<TransferTask>) -> bool {
    exists|i: int| 0 <= i < ts.len() && !ts[i].state.active()
}

/// The summary line of the transfer panel.
pub struct TransferSummary {
    /// How many tasks are in flight, or (with none) how many are listed.
    pub headline: String,
    /// Bytes done over all tasks, of the known total when there is one.
    pub bytes: String,
    /// A task is running (the line shows a spinner).
    pub has_running: bool,
    /// A task is finished (the panel offers to clear them).
    pub can_clear_finished: bool,
}

/// The headline of the transfer panel.
pub open spec fn headline_of(ts: Seq<TransferTask>) -> Seq<char> {
    if active_count_of(ts) > 0 {
        decimal(active_count_of(ts)) + " 个传输中"@
    } else {
        decimal(ts.len()) + " 个已完成"@
    }
}

/// The summary line of the transfer panel; none for an empty queue. The
/// byte sums must fit in `u64`.
pub fn transfer_summary(tasks: &[TransferTask]) -> (r: Option<TransferSummary>)
    requires
        sum_done(tasks@) <= u64::MAX,
        sum_total(tasks@) <= u64::MAX,
    ensures
        tasks@.len() == 0 ==> r is None,
        tasks@.len() > 0 ==> (r matches Some(s) && s.headline@ == headline_of(tasks@) && s.bytes@
            == bytes_label_of(
            sum_done(tasks@),
            if sum_total(tasks@) > 0 {
                Some(sum_total(tasks@) as u64)
            } else {
                None
            },
        ) && s.has_running == any_running(tasks@) && s.can_clear_finished == any_finished(tasks@)),
{
    if tasks.len() == 0 {
        return None;
    }
    let mut done: u64 = 0;
    let mut total: u64 = 0;
    let mut active: usize = 0;
    let mut running = false;
    let mut finished = false;
    let mut i: usize = 0;
    while i < tasks.len()
        invariant
            0 <= i <= tasks@.len(),
            sum_done(tasks@) <= u64::MAX,
            sum_total(tasks@) <= u64::MAX,
            done == sum_done(tasks@.subrange(0, i as int)),
            total == sum_total(tasks@.subrange(0, i as int)),
            active == active_count_of(tasks@.subrange(0, i as int)),
            active <= i,
            running == any_running(tasks@.subrange(0, i as int)),
            finished == any_finished(tasks@.subrange(0, i as int)),
        decreases tasks.len() - i,
    {
        let ghost pre = tasks@.subrange(0, i as int);
        let ghost next = tasks@.subrange(0, i + 1);
        proof {
            assert(next.drop_last() =~= pre);
            assert(next.last() == tasks@[i as int]);
            lemma_sums_grow(tasks@, i + 1);
        }
        let t = &tasks[i];
        done = done + t.bytes_done;
        match t.bytes_total {
            Some(b) => {
                total = total + b;
            },
            None => {},
        }
        if t.state.is_active() {
            active = active + 1;
        } else {
            finished = true;
        }
        if t.state == TransferState::Running {
            running = true;
        }
        proof {
            if any_running(next) && !any_running(pre) {
                assert(tasks@[i as int].state == TransferState::Running) by {
                    let w = choose|w: int| 0 <= w < next.len() && next[w].state == TransferState::Running;
                    if w < i {
                        assert(pre[w] == next[w]);
                    }
                }
            }
            if tasks@[i as int].state == TransferState::Running {
                assert(next[i as int] == tasks@[i as int]);
            }
            if any_running(pre) {
                let w = choose|w: int| 0 <= w < pre.len() && pre[w].state == TransferState::Running;
                assert(next[w] == pre[w]);
            }
            if any_finished(next) && !any_finished(pre) {
                assert(!tasks@[i as int].state.active()) by {
                    let w = choose|w: int| 0 <= w < next.len() && !next[w].state.active();
                    if w < i {
                        assert(pre[w] == next[w]);
                    }
                }
            }
            if !tasks@[i as int].state.active() {
                assert(next[i as int] == tasks@[i as int]);
            }
            if any_finished(pre) {
                let w = choose|w: int| 0 <= w < pre.len() && !pre[w].state.active();
                assert(next[w] == pre[w]);
            }
        }
        i += 1;
    }
    proof {
        assert(tasks@.subrange(0, tasks@.len() as int) =~= tasks@);
    }
    let headline = if active > 0 {
        let mut h = crate::text::decimal_string(active as u64);
        push_str(&mut h, " 个传输中");
        h
    } else {
        let mut h = crate::text::decimal_string(tasks.len() as u64);
        push_str(&mut h, " 个已完成");
        h
    };
    let bytes = if total > 0 {
        transfer_bytes_label(done, Some(total))
    } else {
        transfer_bytes_label(done, None)
    };
    Some(TransferSummary { headline, bytes, has_running: running, can_clear_finished: finished })
}

/// The sums over a prefix of the tasks never exceed those over all of them.
proof fn lemma_sums_grow(ts: Seq<TransferTask>, n: int)
    requires
        0 <= n <= ts.len(),
    ensures
        sum_done(ts.subrange(0, n)) <= sum_done(ts),
        sum_total(ts.subrange(0, n)) <= sum_total(ts),
    decreases ts.len() - n,
{
    if n < ts.len() {
        lemma_sums_grow(ts, n + 1);
        assert(ts.subrange(0, n + 1).drop_last() =~= ts.subrange(0, n));
    } else {
        assert(ts.subrange(0, n) =~= ts);
    }
}

} // verus!
