//! Which pixel goes to which worker.
//!
//! The pixels of an image are handed out in row-major order, one at a time.
//! Every worker holds at most one pixel. When a worker hands in its result it
//! gets the next pixel, or retires when none is left. The scheduler holds the
//! decisions only; sending the tasks and receiving the results is left to
//! the caller.

use vstd::prelude::*;

verus! {

/// What the scheduler knows of one worker.
#[derive(Clone, Copy, Debug)]
pub struct Worker {
    /// The pixel that the worker was last given, as column and row.
    pub pixel_position: (usize, usize),
    /// Whether the worker holds a pixel whose result is still to come.
    pub status: bool,
}

/// The state of a render: the cursor over the pixels, and the workers.
pub struct Scheduler {
    width: usize,
    height: usize,
    x: usize,
    y: usize,
    workers: Vec<Worker>,
}

/// What follows a result: where it belongs, and what its worker does next.
#[derive(Clone, Copy, Debug)]
pub struct Handover {
    /// The pixel that the result is for.
    pub finished: (usize, usize),
    /// The pixel that the worker gets next; none where it retires.
    pub next: Option<(usize, usize)>,
}

/// The `k`-th pixel in row-major order of an image `width` wide, as column
/// and row.
pub open spec fn task(width: usize, k: int) -> (usize, usize) {
    ((k % (width as int)) as usize, (k / (width as int)) as usize)
}

/// Two different places in the order are two different pixels.
pub proof fn lemma_tasks_distinct(width: usize, height: usize, j: int, k: int)
    requires
        0 <= j < width * height,
        0 <= k < width * height,
        j != k,
    ensures
        task(width, j) != task(width, k),
{
    let w = width as int;
    assert(w > 0) by (nonlinear_arith)
        requires
            0 <= j < w * height,
    ;
    lemma_task_in_image(width, height, j);
    lemma_task_in_image(width, height, k);
    vstd::arithmetic::div_mod::lemma_fundamental_div_mod(j, w);
    vstd::arithmetic::div_mod::lemma_fundamental_div_mod(k, w);
}

/// Every place in the order below `width * height` is a pixel of the image.
pub proof fn lemma_task_in_image(width: usize, height: usize, k: int)
    requires
        0 <= k < width * height,
    ensures
        0 <= k % (width as int) < width,
        0 <= k / (width as int) < height,
        task(width, k).0 == k % (width as int),
        task(width, k).1 == k / (width as int),
{
    let w = width as int;
    assert(w > 0) by (nonlinear_arith)
        requires
            0 <= k < w * height,
    ;
    vstd::arithmetic::div_mod::lemma_fundamental_div_mod(k, w);
    vstd::arithmetic::div_mod::lemma_mod_bound(k, w);
    vstd::arithmetic::div_mod::lemma_div_pos_is_pos(k, w);
    assert(k / w < height) by (nonlinear_arith)
        requires
            k == w * (k / w) + k % w,
            0 <= k % w,
            k < w * height,
            w > 0,
    ;
}

/// Every pixel of the image has a place in the order.
pub proof fn lemma_tasks_cover(width: usize, height: usize, x: usize, y: usize)
    requires
        x < width,
        y < height,
    ensures
        0 <= y * width + x < width * height,
        task(width, y * width + x) == (x, y),
{
    let w = width as int;
    assert(0 <= y * w + x < w * height) by (nonlinear_arith)
        requires
            0 <= x < w,
            0 <= y < height,
    ;
    vstd::arithmetic::div_mod::lemma_fundamental_div_mod_converse(y * w + x, w, y as int, x as int);
}

impl Scheduler {
    /// How many pixels the image has.
    pub closed spec fn total(self) -> nat {
        (self.width * self.height) as nat
    }

    /// How many pixels have been handed out.
    pub closed spec fn issued(self) -> nat {
        (self.y * self.width + self.x) as nat
    }

    /// Width of the image in pixels.
    pub closed spec fn width_spec(self) -> usize {
        self.width
    }

    /// Height of the image in pixels.
    pub closed spec fn height_spec(self) -> usize {
        self.height
    }

    /// The workers, in the order of their numbers.
    pub closed spec fn workers_spec(self) -> Seq<Worker> {
        self.workers@
    }

    /// The pixels handed out so far, in the order in which they were.
    pub open spec fn dispatched(self) -> Seq<(usize, usize)> {
        Seq::new(self.issued(), |k: int| task(self.width_spec(), k))
    }

    /// The pixel has been handed out.
    pub open spec fn is_sent(self, pixel: (usize, usize)) -> bool {
        exists|k: int| 0 <= k < self.issued() && pixel == #[trigger] task(self.width_spec(), k)
    }

    /// A busy worker holds the pixel.
    pub open spec fn is_held(self, pixel: (usize, usize)) -> bool {
        exists|i: int|
            0 <= i < self.workers_spec().len() && (#[trigger] self.workers_spec()[i]).status
                && self.workers_spec()[i].pixel_position == pixel
    }

    /// The invariant of the scheduler: the cursor is at a pixel or at the
    /// end, every busy worker holds a pixel that was handed out, no two of
    /// them the same, and no worker is idle while pixels are left.
    pub closed spec fn wf(self) -> bool {
        &&& self.width * self.height <= usize::MAX
        &&& self.width > 0 ==> self.x < self.width
        &&& self.width == 0 ==> self.x == 0 && self.y == 0
        &&& self.y <= self.height
        &&& self.y == self.height ==> self.x == 0
        &&& self.issued() <= self.total()
        &&& forall|i: int|
            0 <= i < self.workers@.len() && (#[trigger] self.workers@[i]).status
                ==> self.is_sent(self.workers@[i].pixel_position)
        &&& forall|i: int, j: int|
            0 <= i < j < self.workers@.len() && (#[trigger] self.workers@[i]).status && (
            #[trigger] self.workers@[j]).status ==> self.workers@[i].pixel_position
                != self.workers@[j].pixel_position
        &&& forall|i: int|
            0 <= i < self.workers@.len() && !(#[trigger] self.workers@[i]).status
                ==> self.issued() == self.total()
    }

    /// No worker is busy.
    pub open spec fn all_idle(self) -> bool {
        forall|i: int|
            0 <= i < self.workers_spec().len() ==> !(#[trigger] self.workers_spec()[i]).status
    }

    /// No more pixels are handed out than the image has.
    pub proof fn lemma_issued_bounded(self)
        requires
            self.wf(),
        ensures
            self.issued() <= self.total(),
            self.total() == self.width_spec() * self.height_spec(),
    {
    }

    /// A busy worker holds a pixel of the image, and no other busy worker
    /// holds the same.
    pub proof fn lemma_busy_workers(self, i: int, j: int)
        requires
            self.wf(),
            0 <= i < self.workers_spec().len(),
            0 <= j < self.workers_spec().len(),
            self.workers_spec()[i].status,
        ensures
            self.workers_spec()[i].pixel_position.0 < self.width_spec(),
            self.workers_spec()[i].pixel_position.1 < self.height_spec(),
            self.is_sent(self.workers_spec()[i].pixel_position),
            j != i && self.workers_spec()[j].status ==> self.workers_spec()[i].pixel_position
                != self.workers_spec()[j].pixel_position,
    {
        let k = choose|k: int|
            0 <= k < self.issued() && self.workers@[i].pixel_position == #[trigger] task(
                self.width,
                k,
            );
        lemma_task_in_image(self.width, self.height, k);
        if j < i {
            assert(self.workers@[j].status ==> self.workers@[j].pixel_position
                != self.workers@[i].pixel_position);
        }
    }

    /// Once a worker has retired, every pixel has been handed out.
    pub proof fn lemma_retired_means_done(self, i: int)
        requires
            self.wf(),
            0 <= i < self.workers_spec().len(),
            !self.workers_spec()[i].status,
        ensures
            self.issued() == self.total(),
    {
    }

    /// The pixels handed out are pixels of the image, no one of them twice;
    /// once all are handed out, every pixel of the image is among them.
    pub proof fn lemma_dispatched_exactly_once(self)
        requires
            self.wf(),
        ensures
            self.dispatched().len() == self.issued(),
            self.dispatched().no_duplicates(),
            forall|k: int|
                0 <= k < self.dispatched().len() ==> (#[trigger] self.dispatched()[k]).0
                    < self.width_spec() && self.dispatched()[k].1 < self.height_spec(),
            self.issued() == self.total() ==> self.dispatched().len() == self.width_spec()
                * self.height_spec() && forall|x: usize, y: usize|
                x < self.width_spec() && y < self.height_spec()
                    ==> #[trigger] self.dispatched().contains((x, y)),
    {
        let sent = self.dispatched();
        assert forall|j: int, k: int| 0 <= j < sent.len() && 0 <= k < sent.len() && j != k implies
            sent[j] != sent[k] by {
            lemma_tasks_distinct(self.width, self.height, j, k);
        }
        assert forall|k: int| 0 <= k < sent.len() implies (#[trigger] sent[k]).0 < self.width
            && sent[k].1 < self.height by {
            lemma_task_in_image(self.width, self.height, k);
        }
        if self.issued() == self.total() {
            assert forall|x: usize, y: usize| x < self.width && y < self.height implies
                #[trigger] sent.contains((x, y)) by {
                lemma_tasks_cover(self.width, self.height, x, y);
                assert(sent[y * self.width + x] == (x, y));
            }
        }
    }

    /// How the pixels held change where one busy worker of `self` gets a new
    /// state and the others keep theirs: the pixel it held is held no more,
    /// the pixel it holds now is, and nothing else changes.
    proof fn lemma_held_elsewhere(self, after: Scheduler, worker: int, pixel: (usize, usize))
        requires
            self.wf(),
            0 <= worker < self.workers@.len(),
            self.workers@[worker].status,
            after.workers@ == self.workers@.update(worker, after.workers@[worker]),
        ensures
            after.is_held(pixel) <==> (self.is_held(pixel) && pixel
                != self.workers@[worker].pixel_position) || (after.workers@[worker].status
                && pixel == after.workers@[worker].pixel_position),
    {
        if after.is_held(pixel) {
            let i = choose|i: int|
                0 <= i < after.workers_spec().len() && (#[trigger] after.workers_spec()[i]).status
                    && after.workers_spec()[i].pixel_position == pixel;
            if i != worker {
                assert(self.workers_spec()[i].status);
                assert(self.workers_spec()[i].pixel_position == pixel);
                if i < worker {
                    assert(self.workers@[i].pixel_position != self.workers@[worker].pixel_position);
                } else {
                    assert(self.workers@[worker].pixel_position != self.workers@[i].pixel_position);
                }
            }
        }
        if self.is_held(pixel) && pixel != self.workers@[worker].pixel_position {
            let i = choose|i: int|
                0 <= i < self.workers_spec().len() && (#[trigger] self.workers_spec()[i]).status
                    && self.workers_spec()[i].pixel_position == pixel;
            assert(after.workers_spec()[i].status);
            assert(after.workers_spec()[i].pixel_position == pixel);
        }
        if after.workers@[worker].status && pixel == after.workers@[worker].pixel_position {
            assert(after.workers_spec()[worker].status);
        }
    }

    /// Moves the cursor to the next pixel in row-major order.
    fn advance(&mut self)
        requires
            old(self).width > 0,
            old(self).x < old(self).width,
            old(self).y < old(self).height,
            old(self).width * old(self).height <= usize::MAX,
        ensures
            final(self).width == old(self).width,
            final(self).height == old(self).height,
            final(self).workers == old(self).workers,
            final(self).issued() == old(self).issued() + 1,
            final(self).x < final(self).width,
            final(self).y <= final(self).height,
            final(self).y == final(self).height ==> final(self).x == 0,
            final(self).issued() <= final(self).total(),
            task(old(self).width, old(self).issued() as int) == (old(self).x, old(self).y),
    {
        proof {
            lemma_tasks_cover(self.width, self.height, self.x, self.y);
            assert((self.y + 1) * self.width == self.y * self.width + self.width)
                by (nonlinear_arith);
            assert((self.y + 1) * self.width <= self.height * self.width) by (nonlinear_arith)
                requires
                    self.y + 1 <= self.height,
            ;
        }
        if self.x + 1 >= self.width {
            self.x = 0;
            self.y = self.y + 1;
        } else {
            self.x = self.x + 1;
        }
    }

    /// A scheduler for an image of `width` by `height` pixels and `workers`
    /// workers. The first pixels are handed out at once, one to each worker
    /// for as long as there are pixels; workers beyond that never get one.
    pub fn new(width: usize, height: usize, workers: usize) -> (scheduler: Scheduler)
        requires
            width * height <= usize::MAX,
        ensures
            scheduler.wf(),
            scheduler.width_spec() == width,
            scheduler.height_spec() == height,
            scheduler.total() == width * height,
            scheduler.workers_spec().len() == workers,
            scheduler.issued() == if workers <= width * height {
                workers as int
            } else {
                width * height
            },
            forall|i: int|
                0 <= i < workers ==> (#[trigger] scheduler.workers_spec()[i]).status == (i
                    < width * height),
            forall|i: int|
                0 <= i < workers ==> (#[trigger] scheduler.workers_spec()[i]).pixel_position
                    == if i < width * height {
                    task(width, i)
                } else {
                    (0usize, 0usize)
                },
    {
        let mut scheduler = Scheduler { width, height, x: 0, y: 0, workers: Vec::new() };
        proof {
            assert(0 * width + 0 == 0) by (nonlinear_arith);
            assert(width == 0 ==> width * height == 0) by (nonlinear_arith);
        }
        let mut count: usize = 0;
        while count < workers
            invariant
                count <= workers,
                scheduler.wf(),
                scheduler.width == width,
                scheduler.height == height,
                width * height <= usize::MAX,
                scheduler.workers@.len() == count,
                scheduler.issued() == if count <= width * height {
                    count as int
                } else {
                    width * height
                },
                forall|i: int|
                    0 <= i < count ==> (#[trigger] scheduler.workers@[i]).status == (i < width
                        * height),
                forall|i: int|
                    0 <= i < count ==> (#[trigger] scheduler.workers@[i]).pixel_position == if i
                        < width * height {
                        task(width, i)
                    } else {
                        (0usize, 0usize)
                    },
            decreases workers - count,
        {
            let ghost before = scheduler;
            if width > 0 && scheduler.y < height {
                let position = (scheduler.x, scheduler.y);
                scheduler.advance();
                scheduler.workers.push(Worker { pixel_position: position, status: true });
                proof {
                    let issued = before.issued() as int;
                    assert(position == task(width, issued));
                    assert forall|i: int|
                        0 <= i < scheduler.workers@.len() && (
                        #[trigger] scheduler.workers@[i]).status implies scheduler.is_sent(
                        scheduler.workers@[i].pixel_position,
                    ) by {
                        assert(0 <= i < scheduler.issued());
                        assert(scheduler.workers@[i].pixel_position == task(
                            scheduler.width_spec(),
                            i,
                        ));
                    }
                    assert forall|i: int, j: int|
                        0 <= i < j < scheduler.workers@.len() && (
                        #[trigger] scheduler.workers@[i]).status && (
                        #[trigger] scheduler.workers@[j]).status implies scheduler.workers@[i]
                        .pixel_position != scheduler.workers@[j].pixel_position by {
                        lemma_tasks_distinct(width, height, i, j);
                    }
                }
            } else {
                proof {
                    assert(scheduler.issued() == scheduler.total()) by (nonlinear_arith)
                        requires
                            scheduler.wf(),
                            scheduler.width == width,
                            scheduler.height == height,
                            !(width > 0 && scheduler.y < height),
                            scheduler.issued() == scheduler.y * scheduler.width + scheduler.x,
                            scheduler.total() == scheduler.width * scheduler.height,
                            scheduler.width == 0 ==> scheduler.x == 0 && scheduler.y == 0,
                            scheduler.y <= scheduler.height,
                            scheduler.y == scheduler.height ==> scheduler.x == 0,
                    ;
                }
                scheduler.workers.push(Worker { pixel_position: (0, 0), status: false });
                proof {
                    assert forall|i: int|
                        0 <= i < scheduler.workers@.len() && (
                        #[trigger] scheduler.workers@[i]).status implies scheduler.is_sent(
                        scheduler.workers@[i].pixel_position,
                    ) by {
                        assert(scheduler.workers@[i] == before.workers@[i]);
                        assert(before.is_sent(before.workers@[i].pixel_position));
                        let k = choose|k: int|
                            0 <= k < before.issued() && before.workers@[i].pixel_position
                                == #[trigger] task(before.width_spec(), k);
                        assert(scheduler.workers@[i].pixel_position == task(
                            scheduler.width_spec(),
                            k,
                        ));
                    }
                }
            }
            count = count + 1;
        }
        scheduler
    }

    /// Whether a pixel is left to hand out.
    fn has_more(&self) -> (more: bool)
        requires
            self.wf(),
        ensures
            more == (self.issued() < self.total()),
            more ==> self.width > 0 && self.x < self.width && self.y < self.height,
    {
        proof {
            if self.width > 0 && self.y < self.height {
                lemma_tasks_cover(self.width, self.height, self.x, self.y);
            } else {
                assert(self.y * self.width + self.x == self.width * self.height)
                    by (nonlinear_arith)
                    requires
                        !(self.width > 0 && self.y < self.height),
                        self.width == 0 ==> self.x == 0 && self.y == 0,
                        self.y <= self.height,
                        self.y == self.height ==> self.x == 0,
                ;
            }
        }
        self.width > 0 && self.y < self.height
    }

    /// Width of the image in pixels.
    pub fn width(&self) -> (width: usize)
        ensures
            width == self.width_spec(),
    {
        self.width
    }

    /// Height of the image in pixels.
    pub fn height(&self) -> (height: usize)
        ensures
            height == self.height_spec(),
    {
        self.height
    }

    /// How many workers there are.
    pub fn worker_count(&self) -> (count: usize)
        ensures
            count == self.workers_spec().len(),
    {
        self.workers.len()
    }

    /// What is known of the worker with the number `worker`.
    pub fn worker(&self, worker: usize) -> (state: Worker)
        requires
            worker < self.workers_spec().len(),
        ensures
            state == self.workers_spec()[worker as int],
    {
        self.workers[worker]
    }

    /// Takes note that the worker has handed in the result for its pixel,
    /// and gives it the next pixel in row-major order, or retires it where
    /// every pixel has been handed out.
    pub fn complete(&mut self, worker: usize) -> (handover: Handover)
        requires
            old(self).wf(),
            worker < old(self).workers_spec().len(),
            old(self).workers_spec()[worker as int].status,
        ensures
            final(self).wf(),
            final(self).width_spec() == old(self).width_spec(),
            final(self).height_spec() == old(self).height_spec(),
            final(self).total() == old(self).total(),
            handover.finished == old(self).workers_spec()[worker as int].pixel_position,
            handover.next.is_some() <==> old(self).issued() < old(self).total(),
            handover.next.is_some() ==> handover.next.unwrap() == task(
                old(self).width_spec(),
                old(self).issued() as int,
            ) && final(self).issued() == old(self).issued() + 1 && final(self).dispatched()
                == old(self).dispatched().push(handover.next.unwrap()),
            handover.next.is_none() ==> final(self).issued() == old(self).issued(),
            old(self).is_sent(handover.finished),
            old(self).is_held(handover.finished),
            handover.next.is_some() ==> !old(self).is_sent(handover.next.unwrap()),
            forall|pixel: (usize, usize)| #[trigger]
                final(self).is_sent(pixel) <==> old(self).is_sent(pixel) || handover.next == Some(
                    pixel,
                ),
            forall|pixel: (usize, usize)| #[trigger]
                final(self).is_held(pixel) <==> (old(self).is_held(pixel) && pixel
                    != handover.finished) || handover.next == Some(pixel),
            final(self).workers_spec() == old(self).workers_spec().update(
                worker as int,
                match handover.next {
                    Some(position) => Worker { pixel_position: position, status: true },
                    None => Worker { pixel_position: handover.finished, status: false },
                },
            ),
    {
        let finished = self.workers[worker].pixel_position;
        let ghost before = *self;
        proof {
            assert(before.workers_spec()[worker as int].status);
            assert(before.is_held(finished));
            assert(before.is_sent(finished));
        }
        if self.has_more() {
            let position = (self.x, self.y);
            self.advance();
            self.workers.set(worker, Worker { pixel_position: position, status: true });
            proof {
                let issued = before.issued() as int;
                assert(self.dispatched() =~= before.dispatched().push(position));
                assert forall|i: int|
                    0 <= i < self.workers@.len() && (
                    #[trigger] self.workers@[i]).status implies self.is_sent(
                    self.workers@[i].pixel_position,
                ) by {
                    if i == worker {
                        assert(self.workers@[i].pixel_position == task(self.width_spec(), issued));
                    } else {
                        assert(before.workers@[i].status);
                        assert(before.is_sent(before.workers@[i].pixel_position));
                        let k = choose|k: int|
                            0 <= k < before.issued() && before.workers@[i].pixel_position
                                == #[trigger] task(before.width_spec(), k);
                        assert(self.workers@[i].pixel_position == task(self.width_spec(), k));
                    }
                }
                assert forall|i: int, j: int|
                    0 <= i < j < self.workers@.len() && (#[trigger] self.workers@[i]).status && (
                    #[trigger] self.workers@[j]).status implies self.workers@[i].pixel_position
                    != self.workers@[j].pixel_position by {
                    if i == worker || j == worker {
                        let other = if i == worker {
                            j
                        } else {
                            i
                        };
                        assert(before.workers@[other].status);
                        assert(before.is_sent(before.workers@[other].pixel_position));
                        let k = choose|k: int|
                            0 <= k < before.issued() && before.workers@[other].pixel_position
                                == #[trigger] task(before.width_spec(), k);
                        lemma_tasks_distinct(self.width, self.height, k, issued);
                    } else {
                        assert(before.workers@[i].status && before.workers@[j].status);
                    }
                }
                assert forall|i: int|
                    0 <= i < self.workers@.len() && !(
                    #[trigger] self.workers@[i]).status implies self.issued()
                    == self.total() by {
                    assert(!before.workers@[i].status);
                }
                if before.is_sent(position) {
                    let k = choose|k: int|
                        0 <= k < before.issued() && position == #[trigger] task(
                            before.width_spec(),
                            k,
                        );
                    lemma_tasks_distinct(self.width, self.height, k, issued);
                }
                assert forall|pixel: (usize, usize)| #[trigger]
                    self.is_sent(pixel) <==> before.is_sent(pixel) || pixel == position by {
                    if self.is_sent(pixel) {
                        let k = choose|k: int|
                            0 <= k < self.issued() && pixel == #[trigger] task(
                                self.width_spec(),
                                k,
                            );
                        if k < issued {
                            assert(pixel == task(before.width_spec(), k));
                        }
                    }
                    if before.is_sent(pixel) {
                        let k = choose|k: int|
                            0 <= k < before.issued() && pixel == #[trigger] task(
                                before.width_spec(),
                                k,
                            );
                        assert(pixel == task(self.width_spec(), k));
                    }
                    if pixel == position {
                        assert(pixel == task(self.width_spec(), issued));
                    }
                }
                assert forall|pixel: (usize, usize)| #[trigger]
                    self.is_held(pixel) <==> (before.is_held(pixel) && pixel != finished) || pixel
                        == position by {
                    before.lemma_held_elsewhere(*self, worker as int, pixel);
                }
            }
            Handover { finished, next: Some(position) }
        } else {
            self.workers.set(worker, Worker { pixel_position: finished, status: false });
            proof {
                assert forall|i: int|
                    0 <= i < self.workers@.len() && (
                    #[trigger] self.workers@[i]).status implies self.is_sent(
                    self.workers@[i].pixel_position,
                ) by {
                    assert(before.workers@[i].status);
                    assert(before.is_sent(before.workers@[i].pixel_position));
                    let k = choose|k: int|
                        0 <= k < before.issued() && before.workers@[i].pixel_position
                            == #[trigger] task(before.width_spec(), k);
                    assert(self.workers@[i].pixel_position == task(self.width_spec(), k));
                }
                assert forall|i: int, j: int|
                    0 <= i < j < self.workers@.len() && (#[trigger] self.workers@[i]).status && (
                    #[trigger] self.workers@[j]).status implies self.workers@[i].pixel_position
                    != self.workers@[j].pixel_position by {
                    assert(before.workers@[i].status && before.workers@[j].status);
                }
                assert forall|pixel: (usize, usize)| #[trigger]
                    self.is_sent(pixel) <==> before.is_sent(pixel) by {
                    if self.is_sent(pixel) {
                        let k = choose|k: int|
                            0 <= k < self.issued() && pixel == #[trigger] task(
                                self.width_spec(),
                                k,
                            );
                        assert(pixel == task(before.width_spec(), k));
                    }
                    if before.is_sent(pixel) {
                        let k = choose|k: int|
                            0 <= k < before.issued() && pixel == #[trigger] task(
                                before.width_spec(),
                                k,
                            );
                        assert(pixel == task(self.width_spec(), k));
                    }
                }
                assert forall|pixel: (usize, usize)| #[trigger]
                    self.is_held(pixel) <==> before.is_held(pixel) && pixel != finished by {
                    before.lemma_held_elsewhere(*self, worker as int, pixel);
                }
            }
            Handover { finished, next: None }
        }
    }

    /// Whether the render is over: no worker holds a pixel.
    pub fn finished(&self) -> (done: bool)
        ensures
            done == self.all_idle(),
    {
        let mut index: usize = 0;
        while index < self.workers.len()
            invariant
                index <= self.workers@.len(),
                forall|i: int| 0 <= i < index ==> !(#[trigger] self.workers@[i]).status,
            decreases self.workers@.len() - index,
        {
            if self.workers[index].status {
                assert(self.workers_spec()[index as int].status);
                return false;
            }
            index = index + 1;
        }
        true
    }

    /// When the render is over, every pixel of the image has been handed out
    /// exactly once, provided there is a worker at all.
    pub proof fn lemma_finished_covers_image(self)
        requires
            self.wf(),
            self.all_idle(),
            self.workers_spec().len() > 0,
        ensures
            self.dispatched().len() == self.width_spec() * self.height_spec(),
            self.dispatched().no_duplicates(),
            forall|x: usize, y: usize|
                x < self.width_spec() && y < self.height_spec()
                    ==> #[trigger] self.dispatched().contains((x, y)),
    {
        assert(!self.workers@[0].status);
        self.lemma_dispatched_exactly_once();
    }
}

} // verus!
