//! The background worker's queue.
//!
//! A call of `bd` takes long, so the screen never waits for one: it queues a
//! job and applies the reply when that comes. One worker runs the jobs in
//! order, so a write always lands before the load that was queued behind it.

use crate::bd;
use crate::bd::Call;
use crate::bead::Bead;
use crate::error;
use crate::error::BdError;
use crate::model::Scope;
use vstd::prelude::*;

verus! {

/// A job for the worker; `W` is how a write is carried out.
pub enum Job<W> {
    /// Read the board.
    Load { gen: u64, scope: Scope, closed: bool },
    /// Read one issue.
    Show { scope: Scope, id: String, seq: u64 },
    /// Read the repository's review command.
    ReviewCmd { scope: Scope },
    /// Write something.
    Write(W),
}

/// What the worker answers.
pub enum Reply {
    /// The board, or why there is none.
    Loaded { gen: u64, beads: Result<Vec<Bead>, BdError> },
    /// One issue.
    Shown { id: String, bead: Bead, seq: u64 },
    /// A write is done: the message to show, or why it failed.
    Wrote(Result<String, BdError>),
    /// The review command, or the message of the error.
    ReviewCmd(Result<Vec<String>, String>),
    /// A launched command ended; the error is its last line of output.
    Launched(Result<(), String>),
}

/// Whether the job at `i` is stale: a load with another load behind it, or a
/// show with another show behind it.
pub open spec fn stale<W>(batch: Seq<Job<W>>, i: int) -> bool {
    match batch[i] {
        Job::Load { .. } => exists|j: int| i < j < batch.len() && #[trigger] batch[j] is Load,
        Job::Show { .. } => exists|j: int| i < j < batch.len() && #[trigger] batch[j] is Show,
        Job::ReviewCmd { .. } => false,
        Job::Write(_) => false,
    }
}

/// Which jobs of a batch to skip: every load but the last, every show but the
/// last. Writes always run.
pub fn superseded<W>(batch: &[Job<W>]) -> (r: Vec<bool>)
    ensures
        r@.len() == batch@.len(),
        forall|i: int| 0 <= i < r@.len() ==> #[trigger] r@[i] == stale(batch@, i),
{
    let n: usize = batch.len();
    let last_load = last_load(batch);
    let last_show = last_show(batch);
    let mut r: Vec<bool> = Vec::new();
    let mut i: usize = 0;
    while i < n
        invariant
            n == batch@.len(),
            i <= n,
            is_last_load(batch@, last_load),
            is_last_show(batch@, last_show),
            r@.len() == i,
            forall|k: int| 0 <= k < i ==> #[trigger] r@[k] == stale(batch@, k),
        decreases n - i,
    {
        let skip = match &batch[i] {
            Job::Load { .. } => match last_load {
                Some(k) => i != k,
                None => true,
            },
            Job::Show { .. } => match last_show {
                Some(k) => i != k,
                None => true,
            },
            Job::ReviewCmd { .. } => false,
            Job::Write(_) => false,
        };
        assert(skip == stale(batch@, i as int)) by {
            assert(batch@[i as int] == batch[i as int]);
        }
        r.push(skip);
        i = i + 1;
    }
    r
}

spec fn is_last_load<W>(batch: Seq<Job<W>>, r: Option<usize>) -> bool {
    match r {
        Some(k) => {
            &&& k < batch.len()
            &&& batch[k as int] is Load
            &&& forall|j: int| k < j < batch.len() ==> !(#[trigger] batch[j] is Load)
        },
        None => forall|j: int| 0 <= j < batch.len() ==> !(#[trigger] batch[j] is Load),
    }
}

spec fn is_last_show<W>(batch: Seq<Job<W>>, r: Option<usize>) -> bool {
    match r {
        Some(k) => {
            &&& k < batch.len()
            &&& batch[k as int] is Show
            &&& forall|j: int| k < j < batch.len() ==> !(#[trigger] batch[j] is Show)
        },
        None => forall|j: int| 0 <= j < batch.len() ==> !(#[trigger] batch[j] is Show),
    }
}

fn last_load<W>(batch: &[Job<W>]) -> (r: Option<usize>)
    ensures
        is_last_load(batch@, r),
{
    let mut i: usize = batch.len();
    while i > 0
        invariant
            i <= batch@.len(),
            forall|j: int| i <= j < batch@.len() ==> !(#[trigger] batch@[j] is Load),
        decreases i,
    {
        i = i - 1;
        if let Job::Load { .. } = &batch[i] {
            return Some(i);
        }
    }
    None
}

fn last_show<W>(batch: &[Job<W>]) -> (r: Option<usize>)
    ensures
        is_last_show(batch@, r),
{
    let mut i: usize = batch.len();
    while i > 0
        invariant
            i <= batch@.len(),
            forall|j: int| i <= j < batch@.len() ==> !(#[trigger] batch@[j] is Show),
        decreases i,
    {
        i = i - 1;
        if let Job::Show { .. } = &batch[i] {
            return Some(i);
        }
    }
    None
}

/// The jobs of a batch that run: those of the first `n` that are not stale, in
/// their order.
pub open spec fn running_of<W>(batch: Seq<Job<W>>, n: int) -> Seq<Job<W>>
    decreases n,
{
    if n <= 0 {
        seq![]
    } else if stale(batch, n - 1) {
        running_of(batch, n - 1)
    } else {
        running_of(batch, n - 1).push(batch[n - 1])
    }
}

/// The jobs of a batch that run, in their order.
pub open spec fn running<W>(batch: Seq<Job<W>>) -> Seq<Job<W>> {
    running_of(batch, batch.len() as int)
}

/// The jobs of a batch that run, in their order.
pub fn current<W>(batch: Vec<Job<W>>) -> (r: Vec<Job<W>>)
    ensures
        r@ == running(batch@),
{
    let skip = superseded(batch.as_slice());
    let n: usize = batch.len();
    let ghost all = batch@;
    let mut r: Vec<Job<W>> = Vec::new();
    let mut i: usize = 0;
    for job in it: batch
        invariant
            it.seq() == all,
            i == it.index(),
            n == all.len(),
            skip@.len() == all.len(),
            forall|k: int| 0 <= k < skip@.len() ==> #[trigger] skip@[k] == stale(all, k),
            r@ == running_of(all, it.index() as int),
    {
        assert(i < n);
        if !skip[i] {
            r.push(job);
        }
        i = i + 1;
    }
    r
}

/// How many of the first `n` jobs of a batch run.
pub open spec fn place<W>(batch: Seq<Job<W>>, n: int) -> int
    decreases n,
{
    if n <= 0 {
        0
    } else if stale(batch, n - 1) {
        place(batch, n - 1)
    } else {
        place(batch, n - 1) + 1
    }
}

proof fn lemma_running_of<W>(batch: Seq<Job<W>>, n: int, i: int)
    requires
        0 <= i < n <= batch.len(),
        !stale(batch, i),
    ensures
        running_of(batch, n).len() == place(batch, n),
        0 <= place(batch, i) < place(batch, n),
        running_of(batch, n)[place(batch, i)] == batch[i],
    decreases n,
{
    lemma_place(batch, i);
    lemma_place(batch, n - 1);
    if i < n - 1 {
        lemma_running_of(batch, n - 1, i);
    }
}

proof fn lemma_place<W>(batch: Seq<Job<W>>, n: int)
    requires
        0 <= n <= batch.len(),
    ensures
        running_of(batch, n).len() == place(batch, n),
        0 <= place(batch, n) <= n,
    decreases n,
{
    if n > 0 {
        lemma_place(batch, n - 1);
    }
}

/// Law: the worker runs every job that is not stale, and runs them in the
/// order in which they were queued.
pub proof fn law_jobs_run_in_order<W>(batch: Seq<Job<W>>, i: int, j: int)
    requires
        0 <= i < j < batch.len(),
        !stale(batch, i),
        !stale(batch, j),
    ensures
        0 <= place(batch, i) < place(batch, j) < running(batch).len(),
        running(batch)[place(batch, i)] == batch[i],
        running(batch)[place(batch, j)] == batch[j],
{
    let n = batch.len() as int;
    lemma_running_of(batch, n, i);
    lemma_running_of(batch, n, j);
    lemma_running_of(batch, j, i);
    lemma_place(batch, n);
}

/// Law: nothing runs but the jobs of the batch that are not stale.
pub proof fn law_nothing_else_runs<W>(batch: Seq<Job<W>>, p: int)
    requires
        0 <= p < running(batch).len(),
    ensures
        exists|i: int|
            0 <= i < batch.len() && !#[trigger] stale(batch, i) && place(batch, i) == p
                && running(batch)[p] == batch[i],
{
    lemma_job_at_place(batch, batch.len() as int, p);
}

proof fn lemma_job_at_place<W>(batch: Seq<Job<W>>, n: int, p: int)
    requires
        0 <= n <= batch.len(),
        0 <= p < running_of(batch, n).len(),
    ensures
        exists|i: int|
            0 <= i < n && !#[trigger] stale(batch, i) && place(batch, i) == p && running_of(
                batch,
                n,
            )[p] == batch[i],
    decreases n,
{
    lemma_place(batch, n - 1);
    if p < running_of(batch, n - 1).len() {
        lemma_job_at_place(batch, n - 1, p);
        let i = choose|i: int|
            0 <= i < n - 1 && !#[trigger] stale(batch, i) && place(batch, i) == p && running_of(
                batch,
                n - 1,
            )[p] == batch[i];
        assert(!stale(batch, i));
    } else {
        assert(!stale(batch, n - 1));
    }
}

/// Law: a write is never skipped, and neither is a question for the review
/// command.
pub proof fn law_writes_always_run<W>(batch: Seq<Job<W>>, i: int)
    requires
        0 <= i < batch.len(),
        batch[i] is Write || batch[i] is ReviewCmd,
    ensures
        !stale(batch, i),
        running(batch).contains(batch[i]),
{
    lemma_running_of(batch, batch.len() as int, i);
    lemma_place(batch, batch.len() as int);
    assert(running(batch)[place(batch, i)] == batch[i]);
}

/// Whether the job at `k` is a load that runs, and the only one.
pub open spec fn the_only_load<W>(batch: Seq<Job<W>>, k: int) -> bool {
    &&& 0 <= k < batch.len()
    &&& batch[k] is Load
    &&& !stale(batch, k)
    &&& forall|i: int|
        0 <= i < batch.len() && i != k && #[trigger] batch[i] is Load ==> i < k && stale(batch, i)
}

/// Whether the job at `k` is a show that runs, and the only one.
pub open spec fn the_only_show<W>(batch: Seq<Job<W>>, k: int) -> bool {
    &&& 0 <= k < batch.len()
    &&& batch[k] is Show
    &&& !stale(batch, k)
    &&& forall|i: int|
        0 <= i < batch.len() && i != k && #[trigger] batch[i] is Show ==> i < k && stale(batch, i)
}

/// Law: of the loads in a batch exactly one runs, the newest.
pub proof fn law_newest_load_runs<W>(batch: Seq<Job<W>>, j: int)
    requires
        0 <= j < batch.len(),
        batch[j] is Load,
    ensures
        exists|k: int| j <= k && #[trigger] the_only_load(batch, k),
{
    let k = lemma_some_load_runs(batch, j);
    assert(the_only_load(batch, k));
}

/// Law: of the shows in a batch exactly one runs, the newest.
pub proof fn law_newest_show_runs<W>(batch: Seq<Job<W>>, j: int)
    requires
        0 <= j < batch.len(),
        batch[j] is Show,
    ensures
        exists|k: int| j <= k && #[trigger] the_only_show(batch, k),
{
    let k = lemma_some_show_runs(batch, j);
    assert(the_only_show(batch, k));
}

proof fn lemma_some_show_runs<W>(batch: Seq<Job<W>>, j: int) -> (k: int)
    requires
        0 <= j < batch.len(),
        batch[j] is Show,
    ensures
        j <= k < batch.len(),
        batch[k] is Show,
        !stale(batch, k),
    decreases batch.len() - j,
{
    if stale(batch, j) {
        let next = choose|k: int| j < k < batch.len() && #[trigger] batch[k] is Show;
        lemma_some_show_runs(batch, next)
    } else {
        j
    }
}

proof fn lemma_some_load_runs<W>(batch: Seq<Job<W>>, j: int) -> (k: int)
    requires
        0 <= j < batch.len(),
        batch[j] is Load,
    ensures
        j <= k < batch.len(),
        batch[k] is Load,
        !stale(batch, k),
    decreases batch.len() - j,
{
    if stale(batch, j) {
        let next = choose|k: int| j < k < batch.len() && #[trigger] batch[k] is Load;
        lemma_some_load_runs(batch, next)
    } else {
        j
    }
}

/// Law: a load that was queued behind a write sees it: the write runs, and
/// after it runs a load.
pub proof fn law_load_sees_earlier_write<W>(batch: Seq<Job<W>>, i: int, j: int)
    requires
        0 <= i < j < batch.len(),
        batch[i] is Write,
        batch[j] is Load,
    ensures
        exists|p: int, q: int|
            0 <= p < q < running(batch).len() && #[trigger] running(batch)[p] == batch[i]
                && #[trigger] running(batch)[q] is Load,
{
    let k = lemma_some_load_runs(batch, j);
    law_jobs_run_in_order(batch, i, k);
    let p = place(batch, i);
    let q = place(batch, k);
    assert(running(batch)[p] == batch[i]);
    assert(running(batch)[q] is Load);
}

/// The jobs that run of the first `n` batches, batch after batch.
pub open spec fn run_of<W>(batches: Seq<Seq<Job<W>>>, n: int) -> Seq<Job<W>>
    decreases n,
{
    if n <= 0 {
        seq![]
    } else {
        run_of(batches, n - 1) + running(batches[n - 1])
    }
}

/// The jobs of a whole run, in the order in which they run.
pub open spec fn whole_run<W>(batches: Seq<Seq<Job<W>>>) -> Seq<Job<W>> {
    run_of(batches, batches.len() as int)
}

/// Whether there is a job at `i` of the batch `b`, and it is not stale there.
pub open spec fn is_due<W>(batches: Seq<Seq<Job<W>>>, b: int, i: int) -> bool {
    0 <= b < batches.len() && 0 <= i < batches[b].len() && !stale(batches[b], i)
}

/// Where in the whole run the job at `i` of the batch `b` has its place.
pub open spec fn place_in_run<W>(batches: Seq<Seq<Job<W>>>, b: int, i: int) -> int {
    run_of(batches, b).len() + place(batches[b], i)
}

proof fn lemma_run_of<W>(batches: Seq<Seq<Job<W>>>, n: int, b: int, i: int)
    requires
        is_due(batches, b, i),
        b < n <= batches.len(),
    ensures
        run_of(batches, b).len() <= place_in_run(batches, b, i) < run_of(batches, b + 1).len()
            <= run_of(batches, n).len(),
        run_of(batches, n)[place_in_run(batches, b, i)] == batches[b][i],
    decreases n,
{
    let batch = batches[b];
    lemma_running_of(batch, batch.len() as int, i);
    if b < n - 1 {
        lemma_run_of(batches, n - 1, b, i);
    } else {
        assert(run_of(batches, n) == run_of(batches, b) + running(batch));
    }
}

/// Law: over any number of batches the worker runs every job that is not
/// stale, each in its one place, batch after batch and in order within each.
pub proof fn law_run_keeps_the_order<W>(
    batches: Seq<Seq<Job<W>>>,
    b: int,
    i: int,
    c: int,
    j: int,
)
    requires
        is_due(batches, b, i),
        is_due(batches, c, j),
        b < c || (b == c && i < j),
    ensures
        0 <= place_in_run(batches, b, i) < place_in_run(batches, c, j) < whole_run(batches).len(),
        whole_run(batches)[place_in_run(batches, b, i)] == batches[b][i],
        whole_run(batches)[place_in_run(batches, c, j)] == batches[c][j],
{
    let n = batches.len() as int;
    lemma_run_of(batches, n, b, i);
    lemma_run_of(batches, n, c, j);
    if b < c {
        lemma_run_of(batches, c, b, i);
    } else {
        law_jobs_run_in_order(batches[b], i, j);
    }
}

/// Law: every write of every batch runs, and runs once: it has a place in the
/// run, and no other job that is due has that place.
pub proof fn law_every_write_runs_once<W>(batches: Seq<Seq<Job<W>>>, b: int, i: int)
    requires
        0 <= b < batches.len(),
        0 <= i < batches[b].len(),
        batches[b][i] is Write,
    ensures
        is_due(batches, b, i),
        0 <= place_in_run(batches, b, i) < whole_run(batches).len(),
        whole_run(batches)[place_in_run(batches, b, i)] == batches[b][i],
        forall|c: int, j: int|
            #![trigger is_due(batches, c, j)]
            is_due(batches, c, j) && place_in_run(batches, c, j) == place_in_run(batches, b, i)
                ==> c == b && j == i,
{
    lemma_run_of(batches, batches.len() as int, b, i);
    assert forall|c: int, j: int|
        #![trigger is_due(batches, c, j)]
        is_due(batches, c, j) && place_in_run(batches, c, j) == place_in_run(
            batches,
            b,
            i,
        ) implies c == b && j == i by {
        if c < b || (c == b && j < i) {
            law_run_keeps_the_order(batches, c, j, b, i);
        } else if b < c || i < j {
            law_run_keeps_the_order(batches, b, i, c, j);
        }
    }
}

/// Law: nothing is in a run but the jobs that are due, each at its place.
pub proof fn law_run_holds_nothing_else<W>(batches: Seq<Seq<Job<W>>>, p: int)
    requires
        0 <= p < whole_run(batches).len(),
    ensures
        exists|b: int, i: int|
            #[trigger] is_due(batches, b, i) && place_in_run(batches, b, i) == p && whole_run(
                batches,
            )[p] == batches[b][i],
{
    lemma_job_in_run(batches, batches.len() as int, p);
}

proof fn lemma_job_in_run<W>(batches: Seq<Seq<Job<W>>>, n: int, p: int)
    requires
        0 <= n <= batches.len(),
        0 <= p < run_of(batches, n).len(),
    ensures
        exists|b: int, i: int|
            #[trigger] is_due(batches, b, i) && place_in_run(batches, b, i) == p && run_of(
                batches,
                n,
            )[p] == batches[b][i],
    decreases n,
{
    let m = run_of(batches, n - 1).len() as int;
    if p < m {
        lemma_job_in_run(batches, n - 1, p);
        let (b, i) = choose|b: int, i: int|
            #[trigger] is_due(batches, b, i) && place_in_run(batches, b, i) == p && run_of(
                batches,
                n - 1,
            )[p] == batches[b][i];
        assert(is_due(batches, b, i));
    } else {
        let batch = batches[n - 1];
        law_nothing_else_runs(batch, p - m);
        let i = choose|i: int|
            0 <= i < batch.len() && !#[trigger] stale(batch, i) && place(batch, i) == p - m
                && running(batch)[p - m] == batch[i];
        assert(is_due(batches, n - 1, i));
    }
}

/// Law: a load sees every write that was queued before it, in its own batch or
/// an earlier one: the write runs, and after it runs a load of that batch.
pub proof fn law_load_sees_every_earlier_write<W>(
    batches: Seq<Seq<Job<W>>>,
    b: int,
    i: int,
    c: int,
    j: int,
)
    requires
        0 <= b < batches.len(),
        0 <= i < batches[b].len(),
        batches[b][i] is Write,
        0 <= c < batches.len(),
        0 <= j < batches[c].len(),
        batches[c][j] is Load,
        b < c || (b == c && i < j),
    ensures
        whole_run(batches)[place_in_run(batches, b, i)] == batches[b][i],
        exists|k: int|
            {
                &&& j <= k
                &&& #[trigger] is_due(batches, c, k)
                &&& batches[c][k] is Load
                &&& 0 <= place_in_run(batches, b, i) < place_in_run(batches, c, k)
                    < whole_run(batches).len()
                &&& whole_run(batches)[place_in_run(batches, c, k)] == batches[c][k]
            },
{
    let k = lemma_some_load_runs(batches[c], j);
    assert(is_due(batches, b, i));
    assert(is_due(batches, c, k));
    law_run_keeps_the_order(batches, b, i, c, k);
}

/// Whether the worker goes on.
#[derive(Clone, Copy, Debug, PartialEq, Eq, Structural)]
pub enum Next {
    GoOn,
    End,
}

/// What follows a wait for jobs: the worker ends when the queue is closed and
/// nothing is left in it, so that no job came.
pub open spec fn next_after_wait(came: bool) -> Next {
    if came {
        Next::GoOn
    } else {
        Next::End
    }
}

/// What follows a wait for jobs.
pub fn after_wait(came: bool) -> (r: Next)
    ensures
        r == next_after_wait(came),
{
    if came {
        Next::GoOn
    } else {
        Next::End
    }
}

/// What follows a job, given whether its reply was delivered, or none was due:
/// the worker ends when a reply cannot be delivered, as the screen is gone.
pub open spec fn next_after_reply(delivered: Option<bool>) -> Next {
    if delivered == Some(false) {
        Next::End
    } else {
        Next::GoOn
    }
}

/// What follows a job.
pub fn after_reply(delivered: Option<bool>) -> (r: Next)
    ensures
        r == next_after_reply(delivered),
{
    match delivered {
        Some(false) => Next::End,
        _ => Next::GoOn,
    }
}

/// How many jobs of a run are carried out, given for each what becomes of its
/// reply: those up to and with the first whose reply ends the worker.
pub open spec fn carried_out(deliveries: Seq<Option<bool>>) -> nat
    decreases deliveries.len(),
{
    if deliveries.len() == 0 {
        0
    } else if next_after_reply(deliveries.first()) == Next::End {
        1
    } else {
        1 + carried_out(deliveries.drop_first())
    }
}

/// Law: while the screen takes its replies, the worker carries out the whole
/// run: everything that was queued has run when it ends.
pub proof fn law_closed_queue_is_emptied<W>(
    batches: Seq<Seq<Job<W>>>,
    deliveries: Seq<Option<bool>>,
)
    requires
        deliveries.len() == whole_run(batches).len(),
        forall|p: int| 0 <= p < deliveries.len() ==> #[trigger] deliveries[p] != Some(false),
    ensures
        carried_out(deliveries) == whole_run(batches).len(),
{
    lemma_carried_out(deliveries, deliveries.len() as int);
}

/// Law: the worker ends at the first reply that cannot be delivered: the jobs
/// up to that one have run, and none behind it.
pub proof fn law_ends_at_first_undelivered(deliveries: Seq<Option<bool>>, p: int)
    requires
        0 <= p < deliveries.len(),
        deliveries[p] == Some(false),
        forall|k: int| 0 <= k < p ==> #[trigger] deliveries[k] != Some(false),
    ensures
        carried_out(deliveries) == p + 1,
{
    lemma_carried_out(deliveries, p);
}

proof fn lemma_carried_out(deliveries: Seq<Option<bool>>, p: int)
    requires
        0 <= p <= deliveries.len(),
        p < deliveries.len() ==> deliveries[p] == Some(false),
        forall|k: int| 0 <= k < p ==> #[trigger] deliveries[k] != Some(false),
    ensures
        carried_out(deliveries) == if p < deliveries.len() {
            p + 1
        } else {
            p
        },
    decreases p,
{
    if p > 0 {
        let rest = deliveries.drop_first();
        assert(deliveries[0] != Some(false));
        assert forall|k: int| 0 <= k < p - 1 implies #[trigger] rest[k] != Some(false) by {
            assert(rest[k] == deliveries[k + 1]);
        }
        lemma_carried_out(rest, p - 1);
    }
}

/// A job that was run, with what came of it.
pub enum Done {
    Load { gen: u64, beads: Result<Vec<Bead>, BdError> },
    Show { id: String, seq: u64, bead: Result<Option<Bead>, BdError> },
    ReviewCmd(Result<Vec<String>, BdError>),
    Write(Result<String, BdError>),
}

/// Whether `r` is what the worker answers to a job that was run. An issue that
/// could not be read is passed over in silence.
pub open spec fn answers(done: Done, r: Option<Reply>) -> bool {
    match done {
        Done::Load { gen, beads } => r == Some(Reply::Loaded { gen, beads }),
        Done::Show { id, seq, bead } => r == match bead {
            Ok(Some(bead)) => Some(Reply::Shown { id, bead, seq }),
            _ => None,
        },
        Done::ReviewCmd(found) => match found {
            Ok(words) => r == Some(Reply::ReviewCmd(Ok(words))),
            Err(e) => r matches Some(Reply::ReviewCmd(Err(message))) && message@
                == error::message_of(e),
        },
        Done::Write(written) => r == Some(Reply::Wrote(written)),
    }
}

/// What the worker answers to a job that was run.
pub fn reply_to(done: Done) -> (r: Option<Reply>)
    ensures
        answers(done, r),
        match done {
            Done::Load { gen, beads } => {
                &&& r matches Some(Reply::Loaded { gen: g, beads: shown })
                &&& g == gen
                &&& shown == beads
            },
            Done::Show { id, seq, bead } => match bead {
                Ok(Some(found)) => {
                    &&& r matches Some(Reply::Shown { id: i, bead: b, seq: n })
                    &&& i == id
                    &&& b == found
                    &&& n == seq
                },
                _ => r is None,
            },
            Done::ReviewCmd(Ok(words)) => {
                &&& r matches Some(Reply::ReviewCmd(Ok(told)))
                &&& told == words
            },
            Done::ReviewCmd(Err(e)) => {
                &&& r matches Some(Reply::ReviewCmd(Err(message)))
                &&& message@ == error::message_of(e)
            },
            Done::Write(written) => {
                &&& r matches Some(Reply::Wrote(told))
                &&& told == written
            },
        },
{
    match done {
        Done::Load { gen, beads } => Some(Reply::Loaded { gen, beads }),
        Done::Show { id, seq, bead } => match bead {
            Ok(Some(bead)) => Some(Reply::Shown { id, bead, seq }),
            _ => None,
        },
        Done::ReviewCmd(found) => match found {
            Ok(words) => Some(Reply::ReviewCmd(Ok(words))),
            Err(e) => Some(Reply::ReviewCmd(Err(e.message()))),
        },
        Done::Write(written) => Some(Reply::Wrote(written)),
    }
}

/// What a call of `bd` is to tell.
#[derive(Debug)]
pub enum Question {
    Load { gen: u64, closed: bool },
    Show { id: String, seq: u64 },
    ReviewCmd,
}

/// What a job comes down to.
pub enum Work<W> {
    /// Run the call; what it gives answers the question.
    Ask { question: Question, call: Call },
    /// Carry out the write.
    Write(W),
}

/// What a job comes down to.
pub fn start<W>(job: Job<W>) -> (r: Work<W>)
    ensures
        match job {
            Job::Load { gen, scope, closed } => {
                &&& r is Ask
                &&& r->question == (Question::Load { gen, closed })
                &&& r->call@ == bd::load_call(scope, closed)
            },
            Job::Show { scope, id, seq } => {
                &&& r is Ask
                &&& r->question == (Question::Show { id, seq })
                &&& r->call@ == bd::show_call(scope, id@)
            },
            Job::ReviewCmd { scope } => {
                &&& r is Ask
                &&& r->question == Question::ReviewCmd
                &&& r->call@ == bd::review_call(scope)
            },
            Job::Write(write) => r == Work::Write(write),
        },
{
    match job {
        Job::Load { gen, scope, closed } => {
            Work::Ask { question: Question::Load { gen, closed }, call: bd::load(scope, closed) }
        },
        Job::Show { scope, id, seq } => {
            let call = bd::show(scope, id.as_str());
            Work::Ask { question: Question::Show { id, seq }, call }
        },
        Job::ReviewCmd { scope } => {
            Work::Ask { question: Question::ReviewCmd, call: bd::review_command(scope) }
        },
        Job::Write(write) => Work::Write(write),
    }
}

/// Whether `done` is what the reply of a call says to a question.
pub open spec fn settles<D: Fn(&str) -> Result<Vec<Bead>, String>>(
    decode: D,
    question: Question,
    reply: Result<String, BdError>,
    done: Done,
) -> bool {
    match question {
        Question::Load { gen, closed } => {
            &&& done is Load
            &&& done->gen == gen
            &&& bd::loads_as(decode, closed, reply, done->beads)
        },
        Question::Show { id, seq } => {
            &&& done is Show
            &&& done->id == id
            &&& done->seq == seq
            &&& bd::shows_as(decode, reply, done->bead)
        },
        Question::ReviewCmd => {
            &&& done is ReviewCmd
            &&& bd::reviews_as(reply, done->ReviewCmd_0)
        },
    }
}

/// What the worker answers to a question, given the reply of the call.
/// `decode` turns a JSON text into issues, or says why it cannot.
pub fn answer_to<D: Fn(&str) -> Result<Vec<Bead>, String>>(
    question: Question,
    reply: Result<String, BdError>,
    decode: D,
) -> (r: Option<Reply>)
    requires
        forall|doc: &str| call_requires(decode, (doc,)),
    ensures
        exists|done: Done|
            #[trigger] settles(decode, question, reply, done) && answers(done, r),
        question matches Question::Load { gen, closed } ==> {
            &&& r matches Some(Reply::Loaded { gen: g, beads })
            &&& g == gen
            &&& bd::loads_as(decode, closed, reply, beads)
        },
        question matches Question::Show { id, seq } ==> (r matches Some(reply_shown) ==> {
            &&& reply_shown matches Reply::Shown { id: i, bead, seq: n }
            &&& i == id
            &&& n == seq
            &&& bd::shows_as(decode, reply, Ok(Some(bead)))
        }),
        question is ReviewCmd ==> {
            &&& r matches Some(Reply::ReviewCmd(told))
            &&& told matches Ok(words) ==> bd::reviews_as(reply, Ok(words))
        },
{
    let done = match question {
        Question::Load { gen, closed } => Done::Load {
            gen,
            beads: bd::load_reply(closed, reply, decode),
        },
        Question::Show { id, seq } => Done::Show { id, seq, bead: bd::show_reply(reply, decode) },
        Question::ReviewCmd => Done::ReviewCmd(bd::review_reply(reply)),
    };
    assert(settles(decode, question, reply, done));
    reply_to(done)
}

/// Law: a job is stale exactly where a newer one of its kind is behind it, and
/// it is a load or a show.
pub proof fn law_stale_means_a_newer_one<W>(batch: Seq<Job<W>>, i: int)
    requires
        0 <= i < batch.len(),
    ensures
        stale(batch, i) <==> {
            ||| batch[i] is Load && exists|j: int|
                i < j < batch.len() && #[trigger] batch[j] is Load
            ||| batch[i] is Show && exists|j: int|
                i < j < batch.len() && #[trigger] batch[j] is Show
        },
{
}

/// Law: every job that is not stale runs, and where none is stale the whole
/// batch runs as it is.
pub proof fn law_every_due_job_runs<W>(batch: Seq<Job<W>>, i: int)
    ensures
        0 <= i < batch.len() && !stale(batch, i) ==> running(batch).contains(batch[i]),
        (forall|k: int| 0 <= k < batch.len() ==> !#[trigger] stale(batch, k)) ==> running(batch)
            == batch,
{
    if 0 <= i < batch.len() && !stale(batch, i) {
        lemma_running_of(batch, batch.len() as int, i);
        lemma_place(batch, batch.len() as int);
        assert(running(batch)[place(batch, i)] == batch[i]);
    }
    if forall|k: int| 0 <= k < batch.len() ==> !#[trigger] stale(batch, k) {
        lemma_running_of_fresh(batch, batch.len() as int);
        assert(batch.take(batch.len() as int) =~= batch);
    }
}

proof fn lemma_running_of_fresh<W>(batch: Seq<Job<W>>, n: int)
    requires
        0 <= n <= batch.len(),
        forall|k: int| 0 <= k < batch.len() ==> !#[trigger] stale(batch, k),
    ensures
        running_of(batch, n) == batch.take(n),
    decreases n,
{
    if n > 0 {
        lemma_running_of_fresh(batch, n - 1);
        assert(!stale(batch, n - 1));
        assert(batch.take(n - 1).push(batch[n - 1]) =~= batch.take(n));
    } else {
        assert(batch.take(0) =~= running_of(batch, 0));
    }
}

/// Law: the answer to a job is the whole of what came of it. A load answers
/// with its generation and every issue, in order, or its error; a show with its
/// id, its number and its issue, and not at all without an issue; a question
/// for the review command with every word, or the message of the error; a
/// write with its message or its error.
pub proof fn law_answer_is_the_whole_result(done: Done, r: Option<Reply>)
    requires
        answers(done, r),
    ensures
        done is Load ==> {
            &&& r is Some && r->0 is Loaded && r->0->gen == done->gen
            &&& done->beads is Ok <==> r->0->beads is Ok
            &&& done->beads matches Ok(list) ==> {
                let shown = r->0->beads->Ok_0;
                &&& shown@.len() == list@.len()
                &&& forall|i: int| 0 <= i < list@.len() ==> #[trigger] shown@[i] == list@[i]
            }
            &&& done->beads matches Err(e) ==> r->0->beads->Err_0 == e
        },
        done is Show ==> {
            &&& r is Some <==> done->bead is Ok && done->bead->Ok_0 is Some
            &&& r is Some ==> r->0 is Shown && r->0->id == done->id && r->0->seq == done->seq
                && Some(r->0->bead) == done->bead->Ok_0
        },
        done is ReviewCmd ==> {
            let found = done->ReviewCmd_0;
            &&& r is Some && r->0 is ReviewCmd
            &&& found is Ok <==> r->0->ReviewCmd_0 is Ok
            &&& found matches Ok(words) ==> {
                let told = r->0->ReviewCmd_0->Ok_0;
                &&& told@.len() == words@.len()
                &&& forall|i: int| 0 <= i < words@.len() ==> #[trigger] told@[i] == words@[i]
            }
            &&& found matches Err(e) ==> r->0->ReviewCmd_0->Err_0@ == error::message_of(e)
        },
        done is Write ==> {
            &&& r is Some && r->0 is Wrote
            &&& r->0->Wrote_0 == done->Write_0
        },
{
}

/// Law: from the output of `bd` to the answer about the board. A failed run and
/// a failed list are answered as they are; else the answer holds the issues
/// that the decoder gave for the trimmed output: without closed issues every
/// one, in order, with them all of those whose status is not `pinned`.
pub proof fn law_board_reaches_the_screen<D: Fn(&str) -> Result<Vec<Bead>, String>>(
    decode: D,
    gen: u64,
    closed: bool,
    reply: Result<String, BdError>,
    done: Done,
    r: Option<Reply>,
)
    requires
        settles(decode, Question::Load { gen, closed }, reply, done),
        answers(done, r),
    ensures
        r is Some && r->0 is Loaded && r->0->gen == gen,
        reply matches Err(e) ==> r->0->beads == Err::<Vec<Bead>, BdError>(e),
        reply matches Ok(out) ==> {
            &&& crate::text::blank(out@) ==> r->0->beads is Ok && r->0->beads->Ok_0@.len() == 0
            &&& !crate::text::blank(out@) ==> exists|doc: &str, decoded: Result<Vec<Bead>, String>|
                {
                    &&& doc@ == crate::text::trimmed(out@)
                    &&& #[trigger] call_ensures(decode, (doc,), decoded)
                    &&& decoded matches Ok(list) ==> r->0->beads is Ok && r->0->beads->Ok_0@
                        == if closed {
                        list@.filter(|b: Bead| b.status@ != "pinned"@)
                    } else {
                        list@
                    }
                    &&& decoded matches Err(cause) ==> r->0->beads == Err::<Vec<Bead>, BdError>(
                        BdError::List { cause },
                    )
                }
        },
{
    bd::law_board_is_what_was_decoded(decode, closed, reply, done->beads);
    law_answer_is_the_whole_result(done, r);
    if let Ok(list) = done->beads {
        assert(r->0->beads->Ok_0@ =~= list@);
    }
}

/// Law: from the output of `bd` to the answer about one issue: the first that
/// the decoder gave, under the id and number that were asked for, and no answer
/// where the run or the list failed or there is none.
pub proof fn law_issue_reaches_the_screen<D: Fn(&str) -> Result<Vec<Bead>, String>>(
    decode: D,
    id: String,
    seq: u64,
    reply: Result<String, BdError>,
    done: Done,
    r: Option<Reply>,
)
    requires
        settles(decode, Question::Show { id, seq }, reply, done),
        answers(done, r),
    ensures
        r is Some ==> r->0 is Shown && r->0->id == id && r->0->seq == seq,
        reply is Err ==> r is None,
        reply matches Ok(out) ==> {
            &&& crate::text::blank(out@) ==> r is None
            &&& !crate::text::blank(out@) ==> exists|doc: &str, decoded: Result<Vec<Bead>, String>|
                {
                    &&& doc@ == crate::text::trimmed(out@)
                    &&& #[trigger] call_ensures(decode, (doc,), decoded)
                    &&& r is Some <==> decoded is Ok && decoded->Ok_0@.len() > 0
                    &&& r is Some ==> r->0->bead == decoded->Ok_0@[0]
                }
        },
{
    bd::law_shown_issue_is_the_first_decoded(decode, reply, done->bead);
    law_answer_is_the_whole_result(done, r);
}

/// Law: from the output of `bd` to the answer about the review command: the
/// stretches without white space of the text under `value`, all of them and in
/// order, none where there is no such text, and the message where the run
/// failed or the output is no document.
pub proof fn law_review_command_reaches_the_screen<D: Fn(&str) -> Result<Vec<Bead>, String>>(
    decode: D,
    reply: Result<String, BdError>,
    done: Done,
    r: Option<Reply>,
)
    requires
        settles(decode, Question::ReviewCmd, reply, done),
        answers(done, r),
    ensures
        r is Some && r->0 is ReviewCmd,
        reply matches Err(e) ==> r->0->ReviewCmd_0 is Err && r->0->ReviewCmd_0->Err_0@
            == error::message_of(e),
        reply matches Ok(out) ==> match crate::json::parsed_text(out@) {
            Err(message) => r->0->ReviewCmd_0 is Err && r->0->ReviewCmd_0->Err_0@ == message,
            Ok(doc) => {
                let value = doc->Object_0["value"@];
                let told = r->0->ReviewCmd_0->Ok_0;
                &&& r->0->ReviewCmd_0 is Ok
                &&& doc is Object && doc->Object_0.contains_key("value"@) && value is Text
                    ==> crate::text::is_split(value->Text_0, told@.map_values(|w: String| w@))
                &&& !(doc is Object && doc->Object_0.contains_key("value"@) && value is Text)
                    ==> told@.len() == 0
            },
        },
{
    bd::law_review_reply(reply, done->ReviewCmd_0);
    law_answer_is_the_whole_result(done, r);
    if let Ok(words) = done->ReviewCmd_0 {
        assert(r->0->ReviewCmd_0->Ok_0@ =~= words@);
    }
}

/// Law: the worker ends where no job comes any more, and where a reply that was
/// due cannot be delivered; it ends nowhere else.
pub proof fn law_when_the_worker_ends(came: bool, delivered: Option<bool>)
    ensures
        next_after_wait(came) == Next::End <==> !came,
        next_after_reply(delivered) == Next::End <==> delivered == Some(false),
{
}

} // verus!
