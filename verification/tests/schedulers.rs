use std::collections::HashSet;
use tinyraytracer::scheduler::Scheduler;

fn run(width: usize, height: usize, workers: usize, order: &[usize]) -> Vec<(usize, usize)> {
    let mut scheduler = Scheduler::new(width, height, workers);
    let mut sent = Vec::new();
    for worker in 0..scheduler.worker_count() {
        let state = scheduler.worker(worker);
        if state.status {
            sent.push(state.pixel_position);
        }
    }
    let mut turn = 0;
    while !scheduler.finished() {
        let worker = order[turn % order.len()] % workers;
        turn += 1;
        if !scheduler.worker(worker).status {
            continue;
        }
        let held = scheduler.worker(worker).pixel_position;
        let handover = scheduler.complete(worker);
        assert_eq!(handover.finished, held);
        match handover.next {
            Some(position) => {
                assert!(scheduler.worker(worker).status);
                assert_eq!(scheduler.worker(worker).pixel_position, position);
                sent.push(position);
            }
            None => assert!(!scheduler.worker(worker).status),
        }
    }
    sent
}

fn row_major(width: usize, height: usize) -> Vec<(usize, usize)> {
    let mut all = Vec::new();
    for y in 0..height {
        for x in 0..width {
            all.push((x, y));
        }
    }
    all
}

#[test]
fn first_pixels_are_handed_out_at_once() {
    let scheduler = Scheduler::new(600, 337, 4);
    assert_eq!(scheduler.width(), 600);
    assert_eq!(scheduler.height(), 337);
    assert_eq!(scheduler.worker_count(), 4);
    for worker in 0..4 {
        assert!(scheduler.worker(worker).status);
        assert_eq!(scheduler.worker(worker).pixel_position, (worker, 0));
    }
    assert!(!scheduler.finished());
}

#[test]
fn first_pixels_wrap_to_the_next_row() {
    let scheduler = Scheduler::new(3, 2, 5);
    let held: Vec<(usize, usize)> =
        (0..5).map(|worker| scheduler.worker(worker).pixel_position).collect();
    assert_eq!(held, vec![(0, 0), (1, 0), (2, 0), (0, 1), (1, 1)]);
}

#[test]
fn a_result_is_answered_with_the_next_pixel() {
    let mut scheduler = Scheduler::new(3, 2, 2);
    let first = scheduler.complete(1);
    assert_eq!(first.finished, (1, 0));
    assert_eq!(first.next, Some((2, 0)));
    let second = scheduler.complete(1);
    assert_eq!(second.finished, (2, 0));
    assert_eq!(second.next, Some((0, 1)));
    let third = scheduler.complete(0);
    assert_eq!(third.finished, (0, 0));
    assert_eq!(third.next, Some((1, 1)));
    let fourth = scheduler.complete(0);
    assert_eq!(fourth.finished, (1, 1));
    assert_eq!(fourth.next, Some((2, 1)));
    let fifth = scheduler.complete(1);
    assert_eq!(fifth.finished, (0, 1));
    assert_eq!(fifth.next, None);
    assert!(!scheduler.worker(1).status);
    assert!(!scheduler.finished());
    let sixth = scheduler.complete(0);
    assert_eq!(sixth.finished, (2, 1));
    assert_eq!(sixth.next, None);
    assert!(scheduler.finished());
}

#[test]
fn every_pixel_is_sent_exactly_once() {
    let orders: [&[usize]; 4] = [&[0, 1, 2, 3], &[3, 3, 1, 0, 2, 2, 2], &[2], &[1, 0, 0, 0, 3, 2]];
    for (width, height) in [(1, 1), (2, 2), (7, 5), (16, 9), (1, 13), (13, 1)] {
        for workers in [1, 2, 3, 4] {
            for order in orders {
                let order: Vec<usize> = if workers == 1 { vec![0] } else { order.to_vec() };
                let usable: Vec<usize> = (0..workers).chain(order.iter().copied()).collect();
                let sent = run(width, height, workers, &usable);
                assert_eq!(sent.len(), width * height);
                let distinct: HashSet<(usize, usize)> = sent.iter().copied().collect();
                assert_eq!(distinct.len(), width * height);
                for y in 0..height {
                    for x in 0..width {
                        assert!(distinct.contains(&(x, y)));
                    }
                }
                assert_eq!(sent, row_major(width, height));
            }
        }
    }
}

#[test]
fn more_workers_than_pixels() {
    let mut scheduler = Scheduler::new(2, 1, 4);
    assert!(scheduler.worker(0).status);
    assert!(scheduler.worker(1).status);
    assert!(!scheduler.worker(2).status);
    assert!(!scheduler.worker(3).status);
    assert_eq!(scheduler.worker(0).pixel_position, (0, 0));
    assert_eq!(scheduler.worker(1).pixel_position, (1, 0));
    assert!(!scheduler.finished());
    assert_eq!(scheduler.complete(1).next, None);
    assert_eq!(scheduler.complete(0).next, None);
    assert!(scheduler.finished());
    assert_eq!(run(2, 1, 4, &[0, 1, 2, 3]), vec![(0, 0), (1, 0)]);
}

#[test]
fn an_image_without_pixels_needs_no_work() {
    for (width, height) in [(0, 0), (0, 5), (5, 0)] {
        let scheduler = Scheduler::new(width, height, 3);
        assert!(scheduler.finished());
        for worker in 0..3 {
            assert!(!scheduler.worker(worker).status);
        }
        assert_eq!(run(width, height, 3, &[0, 1, 2]), vec![]);
    }
}

#[test]
fn a_render_without_workers_is_over_at_once() {
    let scheduler = Scheduler::new(4, 4, 0);
    assert_eq!(scheduler.worker_count(), 0);
    assert!(scheduler.finished());
}

#[test]
fn one_worker_gets_the_pixels_in_row_major_order() {
    assert_eq!(run(3, 2, 1, &[0]), vec![(0, 0), (1, 0), (2, 0), (0, 1), (1, 1), (2, 1)]);
}

#[test]
fn busy_workers_hold_different_pixels() {
    let mut scheduler = Scheduler::new(5, 4, 3);
    let order = [2, 0, 0, 1, 2, 2, 1, 0, 1, 1, 2, 0, 0, 2, 1, 0, 2, 1, 1, 0];
    for worker in order {
        if scheduler.worker(worker).status {
            scheduler.complete(worker);
        }
        let held: Vec<(usize, usize)> = (0..3)
            .filter(|&w| scheduler.worker(w).status)
            .map(|w| scheduler.worker(w).pixel_position)
            .collect();
        let distinct: HashSet<(usize, usize)> = held.iter().copied().collect();
        assert_eq!(distinct.len(), held.len());
        for (x, y) in held {
            assert!(x < 5 && y < 4);
        }
    }
}
