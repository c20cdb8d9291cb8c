//! The coordinator and its store as one system, and what holds of it.
//!
//! The registry and the jobs are the library's; the files are the store's.
//! This module puts them side by side: a world holds the files that exist and
//! the jobs in flight, a request to populate claims a file by creating it if
//! it does not exist, and an event delivered to a job is answered as the job's
//! transition says. The laws below hold of every world that such steps lead
//! to.

use vstd::prelude::*;
use crate::cache::{entered, signal_of};
use crate::job::{spec_step, JobActionView, JobEventView, JobState};
use crate::path::{cache_path, lemma_cache_path_injective};
use crate::transcode::{fits_rgba, png_encoding, row_fits};

verus! {

/// A file of the cache store.
pub struct StoredFile {
    /// The bytes written so far.
    pub content: Seq<u8>,
    /// Whether every byte has been written and flushed.
    pub complete: bool,
}

/// The files that exist, by path, and the jobs in flight, by identifier.
pub struct World {
    pub files: Map<Seq<char>, StoredFile>,
    pub jobs: Map<Seq<char>, JobState>,
}

/// A step of the system.
pub enum Op {
    /// Somebody asks for the identifier's image to be cached.
    Populate(Seq<char>),
    /// The identifier's job learns what came of its last action.
    Deliver(Seq<char>, JobEventView),
}

/// The world in which nothing has been requested.
pub open spec fn initial() -> World {
    World { files: Map::empty(), jobs: Map::empty() }
}

/// Whether the identifier's file exists.
pub open spec fn file_exists(w: World, id: Seq<char>) -> bool {
    w.files.contains_key(cache_path(id))
}

/// Whether somebody who asks for the identifier's image has to wait.
pub open spec fn must_wait(w: World, id: Seq<char>) -> bool {
    w.jobs.contains_key(id)
}

/// Whether `content` is the container of some image.
pub open spec fn is_container(content: Seq<u8>) -> bool {
    exists|pixels: Seq<u8>, width: u32, height: u32|
        fits_rgba(pixels.len() as int, width as int, height as int) && content
            == #[trigger] png_encoding(pixels, width, height)
}

/// A request to populate: the file is created if it does not exist, and only
/// then is the identifier entered and its job started.
pub open spec fn populate(w: World, id: Seq<char>) -> World {
    if file_exists(w, id) {
        w
    } else {
        World {
            files: w.files.insert(
                cache_path(id),
                StoredFile { content: Seq::empty(), complete: false },
            ),
            jobs: entered(w.jobs, id, JobState::Resolving),
        }
    }
}

/// An event for the identifier's job: the job takes its step and the action
/// it asks for is carried out. Writing leaves the file incomplete; releasing
/// declares it complete and removes the entry; discarding removes both.
pub open spec fn deliver(w: World, id: Seq<char>, event: JobEventView) -> World {
    if !w.jobs.contains_key(id) {
        w
    } else {
        let path = cache_path(id);
        let (next, action) = spec_step(w.jobs[id], event);
        match action {
            JobActionView::Write(bytes) => World {
                files: w.files.insert(path, StoredFile { content: bytes, complete: false }),
                jobs: w.jobs.insert(id, next),
            },
            JobActionView::Release => World {
                files: w.files.insert(
                    path,
                    StoredFile { content: w.files[path].content, complete: true },
                ),
                jobs: w.jobs.remove(id),
            },
            JobActionView::Discard => World {
                files: w.files.remove(path),
                jobs: w.jobs.remove(id),
            },
            _ => World { files: w.files, jobs: w.jobs.insert(id, next) },
        }
    }
}

/// The world after one step.
pub open spec fn apply(w: World, op: Op) -> World {
    match op {
        Op::Populate(id) => populate(w, id),
        Op::Deliver(id, event) => deliver(w, id, event),
    }
}

/// The world after a sequence of steps.
pub open spec fn run(w: World, ops: Seq<Op>) -> World
    decreases ops.len(),
{
    if ops.len() == 0 {
        w
    } else {
        apply(run(w, ops.drop_last()), ops.last())
    }
}

/// What holds of one identifier in every world that can be reached: while it
/// is in flight its job is live and its file exists and is incomplete, and
/// holds a whole container once the job is storing it; while it is not, its
/// file, if there is one, is a complete container.
pub open spec fn entry_ok(w: World, id: Seq<char>) -> bool {
    let path = cache_path(id);
    if w.jobs.contains_key(id) {
        &&& w.jobs[id].is_live()
        &&& w.files.contains_key(path)
        &&& !w.files[path].complete
        &&& w.jobs[id] is Encoding ==> is_container(w.files[path].content)
    } else {
        w.files.contains_key(path) ==> w.files[path].complete && is_container(
            w.files[path].content,
        )
    }
}

/// The invariant of the system.
pub open spec fn inv(w: World) -> bool {
    forall|id: Seq<char>| #[trigger] entry_ok(w, id)
}

/// How many jobs for `id` the step starts in `w`: one or none.
pub open spec fn started_by(w: World, op: Op, id: Seq<char>) -> nat {
    if op == Op::Populate(id) && !file_exists(w, id) {
        1
    } else {
        0
    }
}

/// How many jobs for `id` the step ends in failure in `w`: one or none.
pub open spec fn discarded_by(w: World, op: Op, id: Seq<char>) -> nat {
    match op {
        Op::Deliver(to, event) => {
            let fails = spec_step(w.jobs[id], event).1 is Discard;
            if to == id && w.jobs.contains_key(id) && fails {
                1
            } else {
                0
            }
        },
        _ => 0,
    }
}

/// How many jobs for `id` the steps start, one after the other from `w`.
pub open spec fn started(w: World, ops: Seq<Op>, id: Seq<char>) -> nat
    decreases ops.len(),
{
    if ops.len() == 0 {
        0
    } else {
        started(w, ops.drop_last(), id) + started_by(run(w, ops.drop_last()), ops.last(), id)
    }
}

/// How many jobs for `id` the steps end in failure, from `w`.
pub open spec fn discarded(w: World, ops: Seq<Op>, id: Seq<char>) -> nat
    decreases ops.len(),
{
    if ops.len() == 0 {
        0
    } else {
        discarded(w, ops.drop_last(), id) + discarded_by(run(w, ops.drop_last()), ops.last(), id)
    }
}

/// One if the identifier's file exists, else none.
pub open spec fn present(w: World, id: Seq<char>) -> nat {
    if file_exists(w, id) {
        1
    } else {
        0
    }
}

proof fn lemma_other_path(id: Seq<char>, other: Seq<char>)
    requires
        id != other,
    ensures
        cache_path(id) != cache_path(other),
{
    if cache_path(id) == cache_path(other) {
        lemma_cache_path_injective(id, other);
    }
}

/// Nothing is wrong with the world in which nothing has been requested.
pub proof fn lemma_initial_inv()
    ensures
        inv(initial()),
{
    assert forall|id: Seq<char>| #[trigger] entry_ok(initial(), id) by {}
}

/// A request to populate keeps the invariant.
pub proof fn lemma_populate_inv(w: World, id: Seq<char>)
    requires
        inv(w),
    ensures
        inv(populate(w, id)),
{
    let after = populate(w, id);
    assert forall|other: Seq<char>| #[trigger] entry_ok(after, other) by {
        assert(entry_ok(w, other));
        assert(entry_ok(w, id));
        if other != id {
            lemma_other_path(id, other);
        }
    }
}

/// An event delivered to a job keeps the invariant.
pub proof fn lemma_deliver_inv(w: World, id: Seq<char>, event: JobEventView)
    requires
        inv(w),
    ensures
        inv(deliver(w, id, event)),
{
    let after = deliver(w, id, event);
    assert forall|other: Seq<char>| #[trigger] entry_ok(after, other) by {
        assert(entry_ok(w, other));
        assert(entry_ok(w, id));
        if other != id {
            lemma_other_path(id, other);
        } else if w.jobs.contains_key(id) {
            let step = spec_step(w.jobs[id], event);
            if step.1 is Write {
                let pixels = event->pixels;
                let width = event->width;
                let height = event->height;
                assert(step.1->Write_0 == png_encoding(pixels, width, height));
                assert(is_container(step.1->Write_0));
            }
        }
    }
}

/// Every step keeps the invariant.
pub proof fn lemma_apply_inv(w: World, op: Op)
    requires
        inv(w),
    ensures
        inv(apply(w, op)),
{
    match op {
        Op::Populate(id) => lemma_populate_inv(w, id),
        Op::Deliver(id, event) => lemma_deliver_inv(w, id, event),
    }
}

/// The invariant holds after any sequence of steps.
pub proof fn lemma_run_inv(w: World, ops: Seq<Op>)
    requires
        inv(w),
    ensures
        inv(run(w, ops)),
    decreases ops.len(),
{
    if ops.len() > 0 {
        lemma_run_inv(w, ops.drop_last());
        lemma_apply_inv(run(w, ops.drop_last()), ops.last());
    }
}

/// An identifier that nobody asks to populate stays as it was: if its file did
/// not exist, it does not exist after any sequence of steps for other
/// identifiers, and nobody has to wait for it.
pub proof fn lemma_never_populated(w: World, ops: Seq<Op>, id: Seq<char>)
    requires
        inv(w),
        !file_exists(w, id),
        forall|k: int| 0 <= k < ops.len() ==> #[trigger] ops[k] != Op::Populate(id),
    ensures
        !file_exists(run(w, ops), id),
        !must_wait(run(w, ops), id),
    decreases ops.len(),
{
    assert(entry_ok(w, id));
    if ops.len() > 0 {
        let before = run(w, ops.drop_last());
        assert forall|k: int| 0 <= k < ops.drop_last().len() implies #[trigger] ops.drop_last()[k]
            != Op::Populate(id) by {
            assert(ops.drop_last()[k] == ops[k]);
        }
        lemma_never_populated(w, ops.drop_last(), id);
        lemma_run_inv(w, ops.drop_last());
        assert(entry_ok(before, id));
        let op = ops.last();
        assert(op == ops[ops.len() - 1]);
        match op {
            Op::Populate(other) => {
                lemma_other_path(id, other);
            },
            Op::Deliver(other, event) => {
                if other != id {
                    lemma_other_path(id, other);
                }
            },
        }
    }
}

/// While an identifier is in flight, and for ever once its file is complete,
/// a request to populate it changes nothing and starts no job.
pub proof fn lemma_populate_claimed(w: World, id: Seq<char>)
    requires
        inv(w),
        must_wait(w, id) || file_exists(w, id),
    ensures
        populate(w, id) == w,
        started_by(w, Op::Populate(id), id) == 0,
{
    assert(entry_ok(w, id));
}

/// A request to populate an identifier whose file does not exist starts its
/// job, and from then on the identifier is in flight.
pub proof fn lemma_populate_unclaimed(w: World, id: Seq<char>)
    requires
        inv(w),
        !file_exists(w, id),
    ensures
        started_by(w, Op::Populate(id), id) == 1,
        must_wait(populate(w, id), id),
        populate(w, id).jobs[id] == JobState::Resolving,
        file_exists(populate(w, id), id),
{
    assert(entry_ok(w, id));
}

proof fn lemma_step_balance(w: World, op: Op, id: Seq<char>)
    requires
        inv(w),
    ensures
        started_by(w, op, id) + present(w, id) == discarded_by(w, op, id) + present(
            apply(w, op),
            id,
        ),
{
    assert(entry_ok(w, id));
    match op {
        Op::Populate(other) => {
            if other != id {
                lemma_other_path(id, other);
            }
        },
        Op::Deliver(other, event) => {
            if other != id {
                lemma_other_path(id, other);
            }
        },
    }
}

/// Jobs are started one at a time: over any sequence of steps, the jobs
/// started for an identifier are as many as those that failed, and one more
/// where its file exists at the end and did not at the beginning.
pub proof fn lemma_single_flight(w: World, ops: Seq<Op>, id: Seq<char>)
    requires
        inv(w),
    ensures
        started(w, ops, id) + present(w, id) == discarded(w, ops, id) + present(run(w, ops), id),
    decreases ops.len(),
{
    if ops.len() > 0 {
        lemma_single_flight(w, ops.drop_last(), id);
        lemma_run_inv(w, ops.drop_last());
        lemma_step_balance(run(w, ops.drop_last()), ops.last(), id);
    }
}

/// However many requests to populate one identifier come in a row, the first
/// starts its job and the others start none.
pub proof fn lemma_populate_many(w: World, ops: Seq<Op>, id: Seq<char>)
    requires
        inv(w),
        !file_exists(w, id),
        ops.len() > 0,
        forall|k: int| 0 <= k < ops.len() ==> #[trigger] ops[k] == Op::Populate(id),
    ensures
        started(w, ops, id) == 1,
        must_wait(run(w, ops), id),
    decreases ops.len(),
{
    let before = run(w, ops.drop_last());
    lemma_run_inv(w, ops.drop_last());
    assert(ops.last() == ops[ops.len() - 1]);
    if ops.len() == 1 {
        assert(ops.drop_last().len() == 0);
        assert(before == w);
        assert(started(w, ops.drop_last(), id) == 0);
        lemma_populate_unclaimed(w, id);
    } else {
        assert forall|k: int| 0 <= k < ops.drop_last().len() implies #[trigger] ops.drop_last()[k]
            == Op::Populate(id) by {
            assert(ops.drop_last()[k] == ops[k]);
        }
        lemma_populate_many(w, ops.drop_last(), id);
        lemma_populate_claimed(before, id);
    }
}

/// Whoever need not wait finds no file or a whole one: in any world reached
/// from the beginning, an identifier that is not in flight has either no file
/// or a complete file that holds the container of an image.
pub proof fn lemma_ready_is_complete(ops: Seq<Op>, id: Seq<char>)
    requires
        !must_wait(run(initial(), ops), id),
        file_exists(run(initial(), ops), id),
    ensures
        run(initial(), ops).files[cache_path(id)].complete,
        is_container(run(initial(), ops).files[cache_path(id)].content),
{
    lemma_initial_inv();
    lemma_run_inv(initial(), ops);
    assert(entry_ok(run(initial(), ops), id));
}

/// While somebody has to wait, the file is not declared complete: the entry is
/// removed by the very step that completes or removes the file.
pub proof fn lemma_waiting_means_incomplete(ops: Seq<Op>, id: Seq<char>)
    requires
        must_wait(run(initial(), ops), id),
    ensures
        file_exists(run(initial(), ops), id),
        !run(initial(), ops).files[cache_path(id)].complete,
{
    lemma_initial_inv();
    lemma_run_inv(initial(), ops);
    assert(entry_ok(run(initial(), ops), id));
}

/// A failure in any stage releases the waiters at once and leaves no file
/// behind.
pub proof fn lemma_failure_releases_waiters(w: World, id: Seq<char>)
    requires
        inv(w),
        must_wait(w, id),
    ensures
        !must_wait(deliver(w, id, JobEventView::Failure), id),
        !file_exists(deliver(w, id, JobEventView::Failure), id),
{
    assert(entry_ok(w, id));
}

/// No job runs for ever: whatever is delivered to it, each event either
/// releases the waiters or moves the job one stage on, and there are four
/// stages.
pub proof fn lemma_deliver_progress(w: World, id: Seq<char>, event: JobEventView)
    requires
        inv(w),
        must_wait(w, id),
    ensures
        !must_wait(deliver(w, id, event), id) || deliver(w, id, event).jobs[id].rank() > w.jobs[id].rank(),
        w.jobs[id].rank() <= 4,
{
    assert(entry_ok(w, id));
}

/// The world after a job for `id` has been started and has gone through all
/// its stages: the platform gave `url`, the fetch gave `body`, the decoder
/// gave the image, and the container has been stored.
pub open spec fn after_whole_job(
    w: World,
    id: Seq<char>,
    url: Seq<char>,
    body: Seq<u8>,
    pixels: Seq<u8>,
    width: u32,
    height: u32,
) -> World {
    let claimed = populate(w, id);
    let resolved = deliver(claimed, id, JobEventView::Url(url));
    let fetched = deliver(resolved, id, JobEventView::Body(body));
    let decoded = deliver(fetched, id, JobEventView::Image { pixels, width, height });
    deliver(decoded, id, JobEventView::Stored)
}

/// A job that goes well leaves the container of the decoded image, whole, in
/// the identifier's file and nothing else: from the claim until the container
/// is stored whoever asks has to wait, afterwards nobody has, and the files
/// and jobs of other identifiers are as they were.
pub proof fn lemma_whole_job(
    w: World,
    id: Seq<char>,
    url: Seq<char>,
    body: Seq<u8>,
    pixels: Seq<u8>,
    width: u32,
    height: u32,
)
    requires
        inv(w),
        !file_exists(w, id),
        fits_rgba(pixels.len() as int, width as int, height as int),
        row_fits(width),
    ensures
        must_wait(populate(w, id), id),
        must_wait(deliver(populate(w, id), id, JobEventView::Url(url)), id),
        must_wait(
            deliver(
                deliver(populate(w, id), id, JobEventView::Url(url)),
                id,
                JobEventView::Body(body),
            ),
            id,
        ),
        must_wait(
            deliver(
                deliver(
                    deliver(populate(w, id), id, JobEventView::Url(url)),
                    id,
                    JobEventView::Body(body),
                ),
                id,
                JobEventView::Image { pixels, width, height },
            ),
            id,
        ),
        !must_wait(after_whole_job(w, id, url, body, pixels, width, height), id),
        file_exists(after_whole_job(w, id, url, body, pixels, width, height), id),
        after_whole_job(w, id, url, body, pixels, width, height).files[cache_path(id)] == (
            StoredFile { content: png_encoding(pixels, width, height), complete: true }
        ),
        after_whole_job(w, id, url, body, pixels, width, height).jobs == w.jobs,
        after_whole_job(w, id, url, body, pixels, width, height).files.remove(cache_path(id))
            == w.files,
{
    assert(entry_ok(w, id));
    let end = after_whole_job(w, id, url, body, pixels, width, height);
    assert(end.jobs =~= w.jobs);
    assert(end.files.remove(cache_path(id)) =~= w.files);
}

/// A step for one identifier leaves the file and the job of every other as
/// they were.
pub proof fn lemma_step_frame(w: World, op: Op, id: Seq<char>)
    requires
        op != Op::Populate(id),
        forall|event: JobEventView| op != Op::Deliver(id, event),
    ensures
        file_exists(apply(w, op), id) == file_exists(w, id),
        file_exists(w, id) ==> apply(w, op).files[cache_path(id)] == w.files[cache_path(id)],
        must_wait(apply(w, op), id) == must_wait(w, id),
        must_wait(w, id) ==> apply(w, op).jobs[id] == w.jobs[id],
{
    match op {
        Op::Populate(other) => {
            lemma_other_path(id, other);
        },
        Op::Deliver(other, event) => {
            assert(op != Op::Deliver(id, event));
            lemma_other_path(id, other);
        },
    }
}

/// Whether a registry holds exactly the identifiers whose jobs are in flight.
pub open spec fn agrees<S>(registry: Map<Seq<char>, S>, w: World) -> bool {
    registry.dom() == w.jobs.dom()
}

/// A registry that agrees with the world tells who has to wait, and goes on
/// agreeing when a claim is noted in it as the store answered: the signal is
/// entered exactly where the file was created.
pub proof fn lemma_claim_agrees<S>(registry: Map<Seq<char>, S>, w: World, id: Seq<char>, signal: S)
    requires
        inv(w),
        agrees(registry, w),
    ensures
        signal_of(registry, id) is Some <==> must_wait(w, id),
        file_exists(w, id) ==> agrees(registry, populate(w, id)),
        !file_exists(w, id) ==> agrees(entered(registry, id, signal), populate(w, id)),
{
    assert(entry_ok(w, id));
    assert(registry.dom().contains(id) == w.jobs.dom().contains(id));
    if !file_exists(w, id) {
        assert(entered(registry, id, signal).dom() =~= populate(w, id).jobs.dom());
    }
}

/// A registry that agrees with the world goes on agreeing when the entry is
/// removed exactly after the step that releases the waiters.
pub proof fn lemma_finish_agrees<S>(
    registry: Map<Seq<char>, S>,
    w: World,
    id: Seq<char>,
    event: JobEventView,
)
    requires
        agrees(registry, w),
        must_wait(w, id),
    ensures
        spec_step(w.jobs[id], event).1.releases() ==> agrees(
            registry.remove(id),
            deliver(w, id, event),
        ),
        !spec_step(w.jobs[id], event).1.releases() ==> agrees(registry, deliver(w, id, event)),
{
    let after = deliver(w, id, event);
    if spec_step(w.jobs[id], event).1.releases() {
        assert(registry.remove(id).dom() =~= after.jobs.dom());
    } else {
        assert(registry.dom() =~= after.jobs.dom());
    }
}

} // verus!
