use alpha_tak::schedule::{batch_senders, WorkerSchedule};

/// Run the schedule as the worker pool does, finishing the oldest worker
/// first, and count the games that were started.
fn games_started(workers: usize, games: usize) -> usize {
    let mut s = WorkerSchedule::new(workers, games);
    let mut running: Vec<usize> = Vec::new();
    for _ in 0..s.initial_workers() {
        running.push(s.start());
    }
    let mut started = running.len();
    while s.keep_running(!running.is_empty()) {
        assert!(!running.is_empty());
        running.remove(0);
        if s.finish() {
            let index = s.start();
            assert_eq!(index, started);
            started += 1;
            running.push(index);
        }
    }
    started
}

#[test]
fn fewer_games_than_workers() {
    assert_eq!(games_started(8, 5), 5);
    assert_eq!(games_started(8, 0), 0);
}

#[test]
fn at_least_as_many_games_as_workers_plays_one_more() {
    assert_eq!(games_started(8, 8), 9);
    assert_eq!(games_started(4, 10), 11);
    assert_eq!(games_started(128, 1000), 1001);
}

#[test]
fn evaluations_go_back_to_the_senders() {
    assert_eq!(batch_senders(&vec![false, true, true, false, true]), vec![1, 2, 4]);
    assert_eq!(batch_senders(&vec![false, false]), Vec::<usize>::new());
}
