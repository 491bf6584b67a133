use yt_grab::downloader::DownloadResult;
use yt_grab::orchestrator::{Scheduler, tally};

fn outcome(title: &str, success: bool) -> DownloadResult {
    DownloadResult {
        title: String::from(title),
        success,
        error: if success { None } else { Some(String::from("ERROR: boom")) },
    }
}

fn titles(n: usize) -> Vec<String> {
    (0..n).map(|i| format!("item {}", i)).collect()
}

#[test]
fn never_more_than_capacity_active() {
    let capacity = 2;
    let mut s = Scheduler::new(titles(5), capacity);
    let mut running: Vec<usize> = Vec::new();
    let mut step = 0usize;
    while !s.is_done() {
        while let Some(i) = s.try_start() {
            running.push(i);
            assert!(s.active_len() <= capacity);
        }
        assert!(s.active_len() <= capacity);
        // settle the jobs in an order unlike submission order
        let item = if step % 2 == 0 { running.remove(0) } else { running.pop().unwrap() };
        let title = format!("item {}", item);
        s.finish(item, outcome(&title, true));
        assert!(s.active_len() <= capacity);
        step += 1;
    }
    assert_eq!(s.into_outcomes().len(), 5);
}

#[test]
fn one_outcome_per_item_even_with_failures() {
    let mut s = Scheduler::new(titles(4), 3);
    let mut running: Vec<usize> = Vec::new();
    while let Some(i) = s.try_start() {
        running.push(i);
    }
    // item 1 fails; the others settle normally
    for item in running {
        let title = format!("item {}", item);
        s.finish(item, outcome(&title, item != 1));
    }
    while !s.is_done() {
        let i = s.try_start().unwrap();
        let title = format!("item {}", i);
        s.finish(i, outcome(&title, i != 1));
    }
    let results = s.into_outcomes();
    assert_eq!(results.len(), 4);
    let mut seen: Vec<String> = results.iter().map(|r| r.title.clone()).collect();
    seen.sort();
    assert_eq!(seen, vec!["item 0", "item 1", "item 2", "item 3"]);
    assert_eq!(results.iter().filter(|r| !r.success).count(), 1);
}

#[test]
fn empty_run_is_a_degenerate_success() {
    let s = Scheduler::new(Vec::new(), 1);
    assert!(s.is_done());
    assert_eq!(s.into_outcomes().len(), 0);
}

#[test]
fn admission_refuses_past_capacity_and_frees_on_finish() {
    let mut s = Scheduler::new(titles(3), 1);
    let first = s.try_start().unwrap();
    assert_eq!(first, 0);
    assert!(s.try_start().is_none());
    s.finish(first, outcome("item 0", true));
    let second = s.try_start().unwrap();
    assert_eq!(second, 1);
}

#[test]
fn tally_splits_successes_and_failures() {
    let results = vec![
        outcome("a", true),
        outcome("b", false),
        outcome("c", true),
        outcome("d", false),
        outcome("e", false),
    ];
    assert_eq!(tally(&results), (2, 3));
    assert_eq!(tally(&Vec::new()), (0, 0));
}
