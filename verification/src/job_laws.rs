//! What holds of the job table over any sequence of insertions and
//! removals.

use crate::job::{
    can_add, has_pid, lemma_next_jid_above, lemma_pid_index, lemma_push_keeps_wf, lemma_remove_keeps_wf,
    next_jid_of, pid_index, table_wf, JobView, ProccessState,
};
use vstd::prelude::*;

verus! {

/// One call on the job table.
pub enum TableOp {
    /// `addjob` with these arguments.
    Add { pid: i32, pgid: i32, state: ProccessState, cmdline: Seq<char> },
    /// `delete_job` with this process id.
    Delete { pid: i32 },
}

/// The jobs after one call, as the contracts of `addjob` and `delete_job`
/// give them. An insertion that `addjob` does not allow leaves the table
/// as it is.
pub open spec fn apply(s: Seq<JobView>, op: TableOp) -> Seq<JobView> {
    match op {
        TableOp::Add { pid, pgid, state, cmdline } => if next_jid_of(s) <= u32::MAX && can_add(
            s,
            next_jid_of(s) as u32,
            pid,
            pgid,
            state,
        ) {
            s.push(JobView { pid, pgid, jid: next_jid_of(s) as u32, state, cmdline })
        } else {
            s
        },
        TableOp::Delete { pid } => if has_pid(s, pid) {
            s.remove(pid_index(s, pid))
        } else {
            s
        },
    }
}

/// The jobs after a sequence of calls on the empty table.
pub open spec fn run(ops: Seq<TableOp>) -> Seq<JobView>
    decreases ops.len(),
{
    if ops.len() == 0 {
        Seq::empty()
    } else {
        apply(run(ops.drop_last()), ops.last())
    }
}

/// The live job ids are exactly 1 up to the number of jobs, in insertion
/// order.
pub open spec fn dense(s: Seq<JobView>) -> bool {
    forall|i: int| 0 <= i < s.len() ==> (#[trigger] s[i]).jid == i + 1
}

/// The call takes no job out of the table but the one that was inserted
/// last.
pub open spec fn spares_older_jobs(s: Seq<JobView>, op: TableOp) -> bool {
    op matches TableOp::Delete { pid } ==> !has_pid(s, pid) || pid_index(s, pid) == s.len() - 1
}

/// Every call of the sequence spares the older jobs of the table that it
/// is made on.
pub open spec fn newest_leave_first(ops: Seq<TableOp>) -> bool {
    forall|n: int| 0 <= n < ops.len() ==> spares_older_jobs(run(ops.take(n)), #[trigger] ops[n])
}

/// The table is dense after every prefix of the sequence.
pub open spec fn always_dense(ops: Seq<TableOp>) -> bool {
    forall|n: int| 0 <= n <= ops.len() ==> dense(#[trigger] run(ops.take(n)))
}

/// After any sequence of calls the table is well formed: no process id and
/// no job id occurs twice, the job ids grow in insertion order, and at
/// most one job is in the foreground.
pub proof fn lemma_run_wf(ops: Seq<TableOp>)
    ensures
        table_wf(run(ops)),
    decreases ops.len(),
{
    if ops.len() > 0 {
        let s = run(ops.drop_last());
        lemma_run_wf(ops.drop_last());
        match ops.last() {
            TableOp::Add { pid, pgid, state, cmdline } => {
                if next_jid_of(s) <= u32::MAX && can_add(s, next_jid_of(s) as u32, pid, pgid, state) {
                    lemma_push_keeps_wf(s, JobView { pid, pgid, jid: next_jid_of(s) as u32, state, cmdline });
                }
            },
            TableOp::Delete { pid } => {
                if has_pid(s, pid) {
                    lemma_pid_index(s, pid);
                    lemma_remove_keeps_wf(s, pid_index(s, pid));
                }
            },
        }
    }
}

/// Two jobs are never in the foreground at once: after any sequence of
/// calls, two positions of the table that both hold a foreground job are
/// one position.
pub proof fn lemma_single_foreground(ops: Seq<TableOp>, i: int, j: int)
    requires
        0 <= i < run(ops).len(),
        0 <= j < run(ops).len(),
        run(ops)[i].state == ProccessState::FG,
        run(ops)[j].state == ProccessState::FG,
    ensures
        i == j,
{
    lemma_run_wf(ops);
}

/// The next job id of a dense table is one more than its number of jobs.
pub proof fn lemma_dense_next(s: Seq<JobView>)
    requires
        dense(s),
    ensures
        next_jid_of(s) == s.len() + 1,
    decreases s.len(),
{
    if s.len() > 0 {
        let t = s.drop_last();
        assert forall|i: int| 0 <= i < t.len() implies (#[trigger] t[i]).jid == i + 1 by {
            assert(t[i] == s[i]);
        }
        lemma_dense_next(t);
        assert(s[s.len() - 1].jid == s.len());
    }
}

/// One call on a dense table leaves it dense if and only if the call
/// spares the older jobs.
pub proof fn lemma_apply_dense(s: Seq<JobView>, op: TableOp)
    requires
        dense(s),
    ensures
        dense(apply(s, op)) <==> spares_older_jobs(s, op),
{
    let t = apply(s, op);
    match op {
        TableOp::Add { pid, pgid, state, cmdline } => {
            lemma_dense_next(s);
            assert forall|i: int| 0 <= i < t.len() implies (#[trigger] t[i]).jid == i + 1 by {
                if i < s.len() {
                    assert(t[i] == s[i]);
                }
            }
        },
        TableOp::Delete { pid } => {
            if has_pid(s, pid) {
                lemma_pid_index(s, pid);
                let k = pid_index(s, pid);
                if k == s.len() - 1 {
                    assert forall|i: int| 0 <= i < t.len() implies (#[trigger] t[i]).jid == i + 1 by {
                        assert(t[i] == s[i]);
                    }
                } else {
                    assert(t[k] == s[k + 1]);
                    assert(s[k + 1].jid == k + 2);
                }
            }
        },
    }
}

/// The table after one call more is the table before it with that call
/// applied.
pub proof fn lemma_run_step(ops: Seq<TableOp>, n: int)
    requires
        0 <= n < ops.len(),
    ensures
        run(ops.take(n + 1)) == apply(run(ops.take(n)), ops[n]),
{
    let longer = ops.take(n + 1);
    assert(longer.drop_last() =~= ops.take(n));
    assert(longer.last() == ops[n]);
}

/// Where every call so far spared the older jobs, the table is dense.
pub proof fn lemma_dense_so_far(ops: Seq<TableOp>, n: int)
    requires
        0 <= n <= ops.len(),
        forall|k: int| 0 <= k < n ==> spares_older_jobs(run(ops.take(k)), #[trigger] ops[k]),
    ensures
        dense(run(ops.take(n))),
    decreases n,
{
    if n == 0 {
        assert(ops.take(0) =~= Seq::<TableOp>::empty());
    } else {
        lemma_dense_so_far(ops, n - 1);
        lemma_run_step(ops, n - 1);
        assert(spares_older_jobs(run(ops.take(n - 1)), ops[n - 1]));
        lemma_apply_dense(run(ops.take(n - 1)), ops[n - 1]);
    }
}

/// The live job ids are exactly 1 up to the number of jobs after every
/// call of a sequence if and only if every removal of the sequence takes
/// out the job that was inserted last, or none. A removal of an older job
/// leaves a gap, since a live job keeps its job id.
pub proof fn lemma_jid_density(ops: Seq<TableOp>)
    ensures
        always_dense(ops) <==> newest_leave_first(ops),
{
    if newest_leave_first(ops) {
        assert forall|n: int| 0 <= n <= ops.len() implies dense(#[trigger] run(ops.take(n))) by {
            lemma_dense_so_far(ops, n);
        }
    }
    if always_dense(ops) {
        assert forall|n: int| 0 <= n < ops.len() implies spares_older_jobs(run(ops.take(n)), #[trigger] ops[n]) by {
            assert(dense(run(ops.take(n))));
            assert(dense(run(ops.take(n + 1))));
            lemma_run_step(ops, n);
            lemma_apply_dense(run(ops.take(n)), ops[n]);
        }
    }
}

/// Whatever the calls were, no live job id occurs twice and a new job gets
/// a job id above every live one.
pub proof fn lemma_jids_unique(ops: Seq<TableOp>)
    ensures
        forall|i: int, j: int|
            0 <= i < j < run(ops).len() ==> (#[trigger] run(ops)[i]).jid < (#[trigger] run(ops)[j]).jid,
        forall|i: int| 0 <= i < run(ops).len() ==> (#[trigger] run(ops)[i]).jid < next_jid_of(run(ops)),
{
    lemma_run_wf(ops);
    lemma_next_jid_above(run(ops));
}

} // verus!
