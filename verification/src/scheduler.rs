//! The cooperative, time-boxed task scheduler.
//!
//! A single-threaded executor owns a sequence of in-flight units of work
//! (tile uploads, table parsing, catalog indexing), keyed by a task identity
//! used for deduplication: submitting an identity that is already pending is
//! a no-op.  One [`Scheduler::tick`] polls the outstanding tasks in
//! submission order; each poll either completes its task (one result is
//! emitted, in poll order, and the task is removed) or leaves it, advanced,
//! for the next tick.  After every poll the elapsed wall-clock time is
//! checked against the tick's budget; once it is exceeded polling stops
//! immediately and the unpolled tasks carry over untouched.  Cancelling an
//! identity removes the task with no result, at any time.

use vstd::prelude::*;
use crate::image::ImageBufferType;
use crate::indexer::BuildCatalogIndex;
use crate::indexer::Source;
use crate::place::AtlasConfig;
use crate::place::TileCell;
use crate::place::spec_slice;
use crate::place::spec_x;
use crate::place::spec_y;
use crate::place::spec_cell_col;
use crate::place::spec_cell_row;

verus! {

/// Task identity, used for at-most-one-instance deduplication.
#[derive(Clone, Copy, Debug, PartialEq, Eq, Structural)]
pub enum TaskType {
    /// Upload of the tile for this cell.
    SendTileToGPU(TileCell),
    /// The one in-flight table parse.
    ParseTable,
    /// The one in-flight catalog indexing run.
    BuildCatalogIndex,
}

/// What a completed task hands back to the caller.
pub enum TaskResult {
    /// A parsed table: the surviving rows, in order.
    TableParsed { name: String, sources: Vec<Source> },
    /// A tile's pixels with the exact atlas coordinates they must be
    /// written to.
    TileSentToGPU { tile: TileCell, slice: i32, x: i32, y: i32, image: ImageBufferType },
    /// The fully sorted catalog.
    CatalogIndexed { sources: Vec<Source> },
}

/// Task that hands one decoded tile to the GPU-upload collaborator, at the
/// placement computed by [`crate::place::place`].
pub struct SendTileToGPU {
    /// The tile's cell.
    pub tile: TileCell,
    /// Texture-array slice to write to.
    pub slice: i32,
    /// Pixel x offset in the slice.
    pub x: i32,
    /// Pixel y offset in the slice.
    pub y: i32,
    /// The pixels to upload.
    pub image: ImageBufferType,
}

impl SendTileToGPU {
    /// Builds the upload task for `tile`, held by the texture with linear
    /// index `texture_idx`: the emitted offset is exactly the placement
    /// geometry's.
    pub fn new(tile: TileCell, texture_idx: i32, image: ImageBufferType, cfg: &AtlasConfig)
        -> (r: SendTileToGPU)
        requires
            cfg.wf(),
            0 <= texture_idx,
        ensures
            r.tile == tile,
            r.slice as int == spec_slice(*cfg, texture_idx as int),
            r.x as int == spec_x(*cfg, texture_idx as int, spec_cell_row(tile, *cfg)),
            r.y as int == spec_y(*cfg, texture_idx as int, spec_cell_col(tile, *cfg)),
            r.image == image,
    {
        let (slice, x, y) = crate::place::place(&tile, texture_idx, cfg);
        SendTileToGPU { tile, slice, x, y, image }
    }
}

/// The rows of `rows` that parsed, in order.
pub open spec fn kept(rows: Seq<Option<Source>>) -> Seq<Source>
    decreases rows.len(),
{
    if rows.len() == 0 {
        Seq::empty()
    } else {
        kept(rows.drop_last()) + match rows.last() {
            Some(s) => seq![s],
            None => Seq::<Source>::empty(),
        }
    }
}

/// Task that turns a table into catalog sources, one row per poll; a row
/// that failed to parse (`None`) is skipped, not fatal.
pub struct ParseTable {
    /// Table name, carried into the result.
    pub name: String,
    /// The rows, already reduced to parse outcomes.
    pub rows: Vec<Option<Source>>,
    /// Next row to look at.
    pub idx: usize,
    /// A row parsed by the previous poll, emitted by the next one.
    pub next_val_ready: Option<Source>,
    /// Sources collected so far.
    pub out: Vec<Source>,
}

impl ParseTable {
    /// Internal invariant.
    pub open spec fn wf(self) -> bool {
        &&& self.idx <= self.rows@.len()
        &&& match self.next_val_ready {
            Some(v) => self.idx < self.rows@.len() && self.rows@[self.idx as int] == Some(v)
                && self.out@ == kept(self.rows@.subrange(0, self.idx as int)),
            None => self.out@ == kept(self.rows@.subrange(0, self.idx as int)),
        }
    }

    /// Starts parsing a table.
    pub fn new(name: String, rows: Vec<Option<Source>>) -> (r: ParseTable)
        ensures
            r.wf(),
            r.name == name,
            r.rows == rows,
            r.idx == 0,
            r.out@.len() == 0,
    {
        let r = ParseTable { name, rows, idx: 0, next_val_ready: None, out: Vec::new() };
        proof {
            assert(r.rows@.subrange(0, 0) =~= Seq::<Option<Source>>::empty());
        }
        r
    }

    /// One poll: emit the row cached by the previous poll, or look at the
    /// next row and cache it (or skip it if it failed to parse).  Returns
    /// whether the whole table has been consumed; then `out` holds exactly
    /// the rows that parsed, in order.
    pub fn poll_step(&mut self) -> (done: bool)
        requires
            old(self).wf(),
        ensures
            final(self).wf(),
            done <==> old(self).idx == old(self).rows@.len(),
            done ==> *final(self) == *old(self)
                && final(self).out@ == kept(final(self).rows@),
            !done ==> parse_step_ok(*old(self), *final(self)),
    {
        if self.idx == self.rows.len() {
            proof {
                assert(self.rows@.subrange(0, self.rows@.len() as int) =~= self.rows@);
            }
            return true;
        }
        match self.next_val_ready {
            Some(v) => {
                self.next_val_ready = None;
                self.out.push(v);
                self.idx = self.idx + 1;
                proof {
                    assert(self.rows@.subrange(0, self.idx as int).drop_last()
                        =~= self.rows@.subrange(0, self.idx - 1));
                    assert(self.rows@.subrange(0, self.idx as int).last()
                        == self.rows@[self.idx - 1]);
                    assert(kept(self.rows@.subrange(0, self.idx as int))
                        =~= kept(self.rows@.subrange(0, self.idx - 1)).push(v));
                }
            }
            None => {
                let row = self.rows[self.idx];
                match row {
                    Some(v) => {
                        self.next_val_ready = Some(v);
                    }
                    None => {
                        self.idx = self.idx + 1;
                        proof {
                            assert(self.rows@.subrange(0, self.idx as int).drop_last()
                                =~= self.rows@.subrange(0, self.idx - 1));
                            assert(self.rows@.subrange(0, self.idx as int).last()
                                == self.rows@[self.idx - 1]);
                            assert(kept(self.rows@.subrange(0, self.idx as int))
                                =~= kept(self.rows@.subrange(0, self.idx - 1)));
                        }
                    }
                }
            }
        }
        false
    }
}

/// How one non-final parse poll relates the state after to the state
/// before.
pub open spec fn parse_step_ok(p0: ParseTable, p1: ParseTable) -> bool {
    &&& p1.name == p0.name
    &&& p1.rows@ == p0.rows@
    &&& match p0.next_val_ready {
        Some(v) => p1.idx == p0.idx + 1 && p1.next_val_ready is None
            && p1.out@ == p0.out@.push(v),
        None => match p0.rows@[p0.idx as int] {
            Some(v) => p1.idx == p0.idx && p1.next_val_ready == Some(v)
                && p1.out@ == p0.out@,
            None => p1.idx == p0.idx + 1 && p1.next_val_ready is None
                && p1.out@ == p0.out@,
        },
    }
}

/// A unit of work the scheduler can hold.
pub enum TaskWork {
    /// A tile upload; completes at its first poll.
    Upload(SendTileToGPU),
    /// A table parse; completes when every row has been consumed.
    Parse(ParseTable),
    /// A catalog indexing run; completes when every source is merged.
    Index(BuildCatalogIndex),
}

/// A registered task: its identity and its work.
pub struct Task {
    /// Identity, for deduplication and cancellation.
    pub key: TaskType,
    /// The work itself.
    pub work: TaskWork,
}

/// Internal invariant of a unit of work.
pub open spec fn work_wf(w: TaskWork) -> bool {
    match w {
        TaskWork::Upload(_) => true,
        TaskWork::Parse(p) => p.wf(),
        TaskWork::Index(ix) => ix.wf(),
    }
}

/// Whether the next poll of `w` completes it.
pub open spec fn completes(w: TaskWork) -> bool {
    match w {
        TaskWork::Upload(_) => true,
        TaskWork::Parse(p) => p.idx == p.rows@.len(),
        TaskWork::Index(ix) => ix.sorted_len == ix.sources@.len(),
    }
}

/// The result a completing poll of `w` emits.
pub open spec fn result_of(w: TaskWork) -> TaskResult {
    match w {
        TaskWork::Upload(u) => TaskResult::TileSentToGPU {
            tile: u.tile, slice: u.slice, x: u.x, y: u.y, image: u.image,
        },
        TaskWork::Parse(p) => TaskResult::TableParsed { name: p.name, sources: p.out },
        TaskWork::Index(ix) => TaskResult::CatalogIndexed { sources: ix.sources },
    }
}

/// Outstanding polls, roughly: every non-completing poll strictly decreases
/// its task's measure.
pub open spec fn task_measure(w: TaskWork) -> int {
    match w {
        TaskWork::Upload(_) => 1,
        TaskWork::Parse(p) => 2 * (p.rows@.len() - p.idx)
            - if p.next_val_ready is Some { 1int } else { 0int },
        TaskWork::Index(ix) => ix.work_measure(),
    }
}

/// How one non-completing poll relates the work after to the work before.
pub open spec fn work_step_ok(w0: TaskWork, w1: TaskWork) -> bool {
    &&& work_wf(w1)
    &&& task_measure(w1) < task_measure(w0)
    &&& match (w0, w1) {
        (TaskWork::Parse(p0), TaskWork::Parse(p1)) => parse_step_ok(p0, p1),
        (TaskWork::Index(x0), TaskWork::Index(x1)) => {
            &&& x1.init == x0.init
            &&& x1.sources@.len() == x0.sources@.len()
            &&& x1.sources@.to_multiset() == x0.sources@.to_multiset()
            &&& x1.sorted_len >= x0.sorted_len
        },
        _ => false,
    }
}

/// The polled prefix `pre` may leave exactly the surviving, stepped tasks
/// `post`: completing tasks vanish, the others advance one poll, in order.
pub open spec fn stepped(pre: Seq<Task>, post: Seq<Task>) -> bool
    decreases pre.len(),
{
    if pre.len() == 0 {
        post.len() == 0
    } else if completes(pre.last().work) {
        stepped(pre.drop_last(), post)
    } else {
        &&& post.len() > 0
        &&& post.last().key == pre.last().key
        &&& work_step_ok(pre.last().work, post.last().work)
        &&& stepped(pre.drop_last(), post.drop_last())
    }
}

/// The results the polled prefix `pre` emits, in poll order.
pub open spec fn emitted(pre: Seq<Task>) -> Seq<TaskResult>
    decreases pre.len(),
{
    if pre.len() == 0 {
        Seq::empty()
    } else if completes(pre.last().work) {
        emitted(pre.drop_last()).push(result_of(pre.last().work))
    } else {
        emitted(pre.drop_last())
    }
}

/// Every task's work is internally consistent.
pub open spec fn seq_wf(ts: Seq<Task>) -> bool {
    forall|i: int| 0 <= i < ts.len() ==> work_wf((#[trigger] ts[i]).work)
}

/// Total outstanding work of a task sequence.
pub open spec fn total_measure(ts: Seq<Task>) -> int
    decreases ts.len(),
{
    if ts.len() == 0 {
        0
    } else {
        total_measure(ts.drop_last()) + task_measure(ts.last().work)
    }
}

/// A consistent task's measure is non-negative.
proof fn lemma_measure_nonneg(w: TaskWork)
    requires
        work_wf(w),
    ensures
        task_measure(w) >= 0,
{
    match w {
        TaskWork::Upload(_) => {}
        TaskWork::Parse(_) => {}
        TaskWork::Index(ix) => {
            let n = ix.sources@.len() as int;
            let a = ix.sorted_len as int;
            assert((n - a) * (2 * n + 3) >= 0) by (nonlinear_arith)
                requires 0 <= a <= n;
        }
    }
}

/// Ticking strictly shrinks outstanding work: each completing task leaves,
/// each surviving one advances.
proof fn lemma_stepped_measure(pre: Seq<Task>, post: Seq<Task>)
    requires
        stepped(pre, post),
        seq_wf(pre),
    ensures
        total_measure(post) + post.len() <= total_measure(pre) + pre.len(),
        pre.len() > 0 ==> total_measure(post) + post.len()
            < total_measure(pre) + pre.len(),
    decreases pre.len(),
{
    if pre.len() == 0 {
    } else {
        assert(work_wf(pre.last().work));
        assert(seq_wf(pre.drop_last())) by {
            assert(forall|i: int| 0 <= i < pre.len() - 1
                ==> pre.drop_last()[i] == (#[trigger] pre[i]));
        }
        lemma_measure_nonneg(pre.last().work);
        if completes(pre.last().work) {
            lemma_stepped_measure(pre.drop_last(), post);
        } else {
            lemma_stepped_measure(pre.drop_last(), post.drop_last());
            assert(total_measure(post) == total_measure(post.drop_last())
                + task_measure(post.last().work));
        }
    }
}


/// Total measure distributes over concatenation.
proof fn lemma_total_split(s1: Seq<Task>, s2: Seq<Task>)
    ensures
        total_measure(s1 + s2) == total_measure(s1) + total_measure(s2),
    decreases s2.len(),
{
    if s2.len() == 0 {
        assert(s1 + s2 =~= s1);
    } else {
        assert((s1 + s2).drop_last() =~= s1 + s2.drop_last());
        assert((s1 + s2).last() == s2.last());
        lemma_total_split(s1, s2.drop_last());
    }
}

/// A consistent task sequence has non-negative total measure.
proof fn lemma_total_nonneg(ts: Seq<Task>)
    requires
        seq_wf(ts),
    ensures
        total_measure(ts) >= 0,
    decreases ts.len(),
{
    if ts.len() > 0 {
        assert(seq_wf(ts.drop_last())) by {
            assert(forall|i: int| 0 <= i < ts.len() - 1
                ==> ts.drop_last()[i] == (#[trigger] ts[i]));
        }
        lemma_measure_nonneg(ts.last().work);
        lemma_total_nonneg(ts.drop_last());
    }
}
/// The cooperative, time-boxed task scheduler.
pub struct Scheduler {
    /// Outstanding tasks, in submission order.
    pub tasks: Vec<Task>,
}

impl Scheduler {
    /// Every held task is internally consistent.
    pub open spec fn wf(self) -> bool {
        seq_wf(self.tasks@)
    }

    /// A task with this identity is pending.
    pub open spec fn contains_key(self, key: TaskType) -> bool {
        exists|i: int| 0 <= i < self.tasks@.len() && (#[trigger] self.tasks@[i]).key == key
    }

    /// An empty scheduler.
    pub fn new() -> (r: Scheduler)
        ensures
            r.wf(),
            r.tasks@.len() == 0,
    {
        Scheduler { tasks: Vec::new() }
    }

    /// Number of pending tasks.
    pub fn pending_len(&self) -> (r: usize)
        ensures
            r == self.tasks@.len(),
    {
        self.tasks.len()
    }

    /// Whether a task with this identity is pending.
    pub fn contains(&self, key: &TaskType) -> (r: bool)
        ensures
            r == self.contains_key(*key),
    {
        let mut i: usize = 0;
        while i < self.tasks.len()
            invariant
                i <= self.tasks@.len(),
                forall|p: int| 0 <= p < i ==> (#[trigger] self.tasks@[p]).key != *key,
            decreases self.tasks@.len() - i,
        {
            if self.tasks[i].key == *key {
                return true;
            }
            i = i + 1;
        }
        false
    }

    /// Registers a task under its identity.  If an identical identity is
    /// already pending this is a no-op: at most one concurrent instance per
    /// identity.
    pub fn submit(&mut self, key: TaskType, work: TaskWork)
        requires
            old(self).wf(),
            work_wf(work),
        ensures
            final(self).wf(),
            old(self).contains_key(key) ==> final(self).tasks@ == old(self).tasks@,
            !old(self).contains_key(key) ==> final(self).tasks@
                == old(self).tasks@.push(Task { key, work }),
    {
        if self.contains(&key) {
            return;
        }
        self.tasks.push(Task { key, work });
    }

    /// Removes the task with this identity, if any, discarding its state:
    /// no result will ever be emitted for it.
    pub fn cancel(&mut self, key: &TaskType)
        requires
            old(self).wf(),
        ensures
            final(self).wf(),
            !final(self).contains_key(*key),
            final(self).tasks@ == old(self).tasks@.filter(
                |t: Task| t.key != *key),
    {
        let ghost orig = self.tasks@;
        let ghost pred = |t: Task| t.key != *key;
        let mut kept_tasks: Vec<Task> = Vec::new();
        let ghost mut done: int = 0;
        proof {
            reveal(Seq::filter);
            assert(orig.subrange(0, 0) =~= Seq::<Task>::empty());
            assert(Seq::<Task>::empty().filter(pred) =~= Seq::<Task>::empty());
            assert(self.tasks@ =~= orig.subrange(0, orig.len() as int));
        }
        while self.tasks.len() > 0
            invariant
                0 <= done <= orig.len(),
                self.tasks@ == orig.subrange(done, orig.len() as int),
                kept_tasks@ == orig.subrange(0, done).filter(pred),
                pred == (|t: Task| t.key != *key),
                seq_wf(orig),
                forall|p: int| 0 <= p < kept_tasks@.len()
                    ==> (#[trigger] kept_tasks@[p]).key != *key,
                seq_wf(kept_tasks@),
            decreases self.tasks@.len(),
        {
            let t = self.tasks.remove(0);
            proof {
                assert(t == orig[done]);
                assert(self.tasks@ =~= orig.subrange(done + 1, orig.len() as int));
            }
            let keep = t.key != *key;
            proof {
                reveal(Seq::filter);
                let sub1 = orig.subrange(0, done + 1);
                assert(sub1.drop_last() =~= orig.subrange(0, done));
                assert(sub1.last() == orig[done]);
                assert(sub1.filter(pred) == orig.subrange(0, done).filter(pred)
                    + if pred(orig[done]) { seq![orig[done]] } else { Seq::<Task>::empty() });
                assert(work_wf(orig[done].work));
            }
            if keep {
                kept_tasks.push(t);
                proof {
                    assert(kept_tasks@ =~= orig.subrange(0, done + 1).filter(pred));
                }
            } else {
                proof {
                    assert(kept_tasks@ =~= orig.subrange(0, done + 1).filter(pred));
                }
            }
            proof {
                done = done + 1;
            }
        }
        proof {
            assert(orig.subrange(0, orig.len() as int) =~= orig);
        }
        self.tasks = kept_tasks;
    }

    /// One cooperative tick.  Polls the outstanding tasks in submission
    /// order; each poll either completes its task (emitting one result, in
    /// poll order) or advances it one step.  After every poll the elapsed
    /// wall clock is checked against `budget_ms`; once exceeded, polling
    /// stops immediately and the remaining tasks carry over untouched.  At
    /// least one task is polled whenever any is pending, and the total
    /// outstanding work strictly shrinks: repeated ticks drain every task,
    /// however small the budget.
    pub fn tick(&mut self, budget_ms: u64) -> (r: Vec<TaskResult>)
        requires
            old(self).wf(),
        ensures
            final(self).wf(),
            exists|k: int, mid: Seq<Task>| {
                &&& 0 <= k <= old(self).tasks@.len()
                &&& (old(self).tasks@.len() > 0 ==> k >= 1)
                &&& #[trigger] stepped(old(self).tasks@.subrange(0, k), mid)
                &&& final(self).tasks@ == mid + old(self).tasks@.subrange(
                    k, old(self).tasks@.len() as int)
                &&& r@ == emitted(old(self).tasks@.subrange(0, k))
            },
            old(self).tasks@.len() > 0 ==> total_measure(final(self).tasks@)
                + final(self).tasks@.len() < total_measure(old(self).tasks@)
                + old(self).tasks@.len(),
            old(self).tasks@.len() == 0 ==> final(self).tasks@ == old(self).tasks@
                && r@.len() == 0,
    {
        let ghost pre = self.tasks@;
        let mut results: Vec<TaskResult> = Vec::new();
        let mut cur: usize = 0;
        let ghost mut k: int = 0;
        let ghost mut mid: Seq<Task> = Seq::<Task>::empty();
        let start = crate::clock::clock_now();
        proof {
            assert(pre.subrange(0, 0) =~= Seq::<Task>::empty());
            assert(stepped(pre.subrange(0, 0), mid));
            assert(emitted(pre.subrange(0, 0)) =~= Seq::<TaskResult>::empty());
            assert(self.tasks@ =~= mid + pre.subrange(0, pre.len() as int));
        }
        loop
            invariant_except_break
                0 <= k <= pre.len(),
                cur == mid.len(),
                k == cur + results@.len(),
                seq_wf(pre),
                seq_wf(self.tasks@),
                stepped(pre.subrange(0, k), mid),
                self.tasks@ == mid + pre.subrange(k, pre.len() as int),
                results@ == emitted(pre.subrange(0, k)),
            ensures
                0 <= k <= pre.len(),
                (pre.len() > 0 ==> k >= 1),
                seq_wf(self.tasks@),
                stepped(pre.subrange(0, k), mid),
                self.tasks@ == mid + pre.subrange(k, pre.len() as int),
                results@ == emitted(pre.subrange(0, k)),
            decreases pre.len() - k,
        {
            if cur >= self.tasks.len() {
                proof {
                    assert(k == pre.len());
                }
                break;
            }
            proof {
                assert(k < pre.len());
                assert(self.tasks@[cur as int] == pre[k]);
            }
            let task = self.tasks.remove(cur);
            proof {
                assert(task == pre[k]);
                assert(self.tasks@ =~= mid + pre.subrange(k + 1, pre.len() as int));
                assert(pre.subrange(0, k + 1).drop_last() =~= pre.subrange(0, k));
                assert(pre.subrange(0, k + 1).last() == pre[k]);
                assert(work_wf(task.work));
            }
            let Task { key, work } = task;
            match work {
                TaskWork::Upload(u) => {
                    results.push(TaskResult::TileSentToGPU {
                        tile: u.tile, slice: u.slice, x: u.x, y: u.y, image: u.image,
                    });
                    proof {
                        k = k + 1;
                        assert(results@ =~= emitted(pre.subrange(0, k)));
                    }
                }
                TaskWork::Parse(mut p) => {
                    let ghost p0 = p;
                    let done = p.poll_step();
                    if done {
                        results.push(TaskResult::TableParsed {
                            name: p.name, sources: p.out,
                        });
                        proof {
                            k = k + 1;
                            assert(results@ =~= emitted(pre.subrange(0, k)));
                        }
                    } else {
                        let ghost p1 = p;
                        let stepped_task = Task { key, work: TaskWork::Parse(p) };
                        let ghost st = stepped_task;
                        self.tasks.insert(cur, stepped_task);
                        proof {
                            let mid0 = mid;
                            mid = mid.push(st);
                            k = k + 1;
                            assert(self.tasks@ =~= mid
                                + pre.subrange(k, pre.len() as int));
                            assert(mid.last() == st);
                            assert(mid.drop_last() =~= mid0);
                            assert(pre.subrange(0, k).drop_last() =~= pre.subrange(0, k - 1));
                            assert(stepped(pre.subrange(0, k - 1), mid0));
                            assert(pre.subrange(0, k).last() == pre[k - 1]);
                            assert(pre[k - 1].work == TaskWork::Parse(p0));
                            assert(st.work == TaskWork::Parse(p1));
                            assert(parse_step_ok(p0, p1));
                            assert(work_wf(TaskWork::Parse(p1)));
                            assert(task_measure(TaskWork::Parse(p1))
                                < task_measure(TaskWork::Parse(p0)));
                            assert(work_step_ok(TaskWork::Parse(p0),
                                TaskWork::Parse(p1)));
                            assert(stepped(pre.subrange(0, k), mid));
                            assert(results@ =~= emitted(pre.subrange(0, k)));
                        }
                        cur = cur + 1;
                    }
                }
                TaskWork::Index(mut ix) => {
                    let ghost ix0 = ix;
                    let rdy = ix.poll();
                    match rdy {
                        crate::indexer::IndexPoll::Ready => {
                            results.push(TaskResult::CatalogIndexed { sources: ix.sources });
                            proof {
                                k = k + 1;
                                assert(results@ =~= emitted(pre.subrange(0, k)));
                            }
                        }
                        crate::indexer::IndexPoll::Pending => {
                            let ghost ix1 = ix;
                            let stepped_task = Task { key, work: TaskWork::Index(ix) };
                            let ghost st = stepped_task;
                            self.tasks.insert(cur, stepped_task);
                            proof {
                                let mid0 = mid;
                                mid = mid.push(st);
                                k = k + 1;
                                assert(self.tasks@ =~= mid
                                    + pre.subrange(k, pre.len() as int));
                                assert(mid.last() == st);
                                assert(mid.drop_last() =~= mid0);
                                assert(pre.subrange(0, k).drop_last()
                                    =~= pre.subrange(0, k - 1));
                                assert(stepped(pre.subrange(0, k - 1), mid0));
                                assert(pre.subrange(0, k).last() == pre[k - 1]);
                                assert(pre[k - 1].work == TaskWork::Index(ix0));
                                assert(st.work == TaskWork::Index(ix1));
                                assert(ix1.wf());
                                assert(ix1.work_measure() < ix0.work_measure());
                                assert(work_step_ok(TaskWork::Index(ix0),
                                    TaskWork::Index(ix1)));
                                assert(stepped(pre.subrange(0, k), mid));
                                assert(results@ =~= emitted(pre.subrange(0, k)));
                            }
                            cur = cur + 1;
                        }
                    }
                }
            }
            if crate::clock::millis_since(&start) > budget_ms {
                break;
            }
        }
        proof {
            assert(stepped(pre.subrange(0, k), mid));
            if pre.len() > 0 {
                lemma_stepped_measure(pre.subrange(0, k), mid);
                assert(seq_wf(pre.subrange(0, k))) by {
                    assert(forall|i: int| 0 <= i < k
                        ==> pre.subrange(0, k)[i] == (#[trigger] pre[i]));
                }
                lemma_total_split(mid, pre.subrange(k, pre.len() as int));
                lemma_total_split(pre.subrange(0, k), pre.subrange(k, pre.len() as int));
                assert(pre =~= pre.subrange(0, k) + pre.subrange(k, pre.len() as int));
            }
        }
        results
    }

    /// Runs ticks until no task is pending, collecting every result: with
    /// any budget, repeated ticks eventually drain all tasks.
    pub fn drain(&mut self, budget_ms: u64) -> (r: Vec<TaskResult>)
        requires
            old(self).wf(),
        ensures
            final(self).wf(),
            final(self).tasks@.len() == 0,
    {
        let mut results: Vec<TaskResult> = Vec::new();
        while self.pending_len() > 0
            invariant
                self.wf(),
            decreases total_measure(self.tasks@) + self.tasks@.len(),
        {
            proof {
                if self.tasks@.len() > 0 {
                    lemma_total_nonneg(self.tasks@);
                }
            }
            let mut batch = self.tick(budget_ms);
            results.append(&mut batch);
            proof {
                lemma_total_nonneg(self.tasks@);
            }
        }
        results
    }
}


} // verus!
