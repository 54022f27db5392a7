use lowbulls::watch::{LowBullWatcher, WatchEntry};
use std::time::Instant;

fn keys_of(watcher: &LowBullWatcher<u32>) -> Vec<u32> {
    watcher
        .history()
        .iter()
        .map(|entry| *entry.key())
        .collect()
}

#[test]
fn new_watcher_is_empty() {
    let watcher: LowBullWatcher<u32> = LowBullWatcher::new(5);
    assert_eq!(watcher.len(), 0);
    assert_eq!(watcher.capacity(), 5);
    assert!(watcher.history().is_empty());
}

#[test]
fn filling_keeps_call_order() {
    let mut watcher = LowBullWatcher::new(4);
    watcher.watch(10);
    assert_eq!(keys_of(&watcher), vec![10]);
    watcher.watch(20);
    watcher.watch(30);
    assert_eq!(keys_of(&watcher), vec![10, 20, 30]);
    assert_eq!(watcher.len(), 3);
    watcher.watch(40);
    assert_eq!(keys_of(&watcher), vec![10, 20, 30, 40]);
    assert_eq!(watcher.len(), 4);
    assert_eq!(watcher.capacity(), 4);
}

#[test]
fn capacity_three_keeps_last_three() {
    let mut watcher = LowBullWatcher::new(3);
    watcher.watch(1);
    watcher.watch(2);
    watcher.watch(3);
    watcher.watch(4);
    assert_eq!(keys_of(&watcher), vec![2, 3, 4]);
}

#[test]
fn eviction_preserves_order() {
    let mut watcher = LowBullWatcher::new(2);
    watcher.watch('a');
    watcher.watch('b');
    watcher.watch('c');
    let keys: Vec<char> = watcher.history().iter().map(|e| *e.key()).collect();
    assert_eq!(keys, vec!['b', 'c']);
    watcher.watch('d');
    let keys: Vec<char> = watcher.history().iter().map(|e| *e.key()).collect();
    assert_eq!(keys, vec!['c', 'd']);
}

#[test]
fn overflow_keeps_exactly_the_last_capacity_keys() {
    for capacity in 1usize..8 {
        for calls in 0u32..30 {
            let mut watcher = LowBullWatcher::new(capacity);
            for key in 0..calls {
                watcher.watch(key);
            }
            let expected: Vec<u32> = if (calls as usize) <= capacity {
                (0..calls).collect()
            } else {
                (calls - capacity as u32..calls).collect()
            };
            assert_eq!(keys_of(&watcher), expected);
            assert_eq!(watcher.len(), expected.len());
            assert_eq!(watcher.capacity(), capacity);
        }
    }
}

#[test]
fn ring_wraps_around_many_times() {
    let mut watcher = LowBullWatcher::new(3);
    for key in 0..1000u32 {
        watcher.watch(key);
    }
    assert_eq!(keys_of(&watcher), vec![997, 998, 999]);
}

#[test]
fn capacity_one_holds_the_newest_key() {
    let mut watcher = LowBullWatcher::new(1);
    watcher.watch(5);
    assert_eq!(keys_of(&watcher), vec![5]);
    watcher.watch(6);
    assert_eq!(keys_of(&watcher), vec![6]);
}

#[test]
fn capacity_zero_remembers_nothing() {
    let mut watcher = LowBullWatcher::new(0);
    watcher.watch(1);
    watcher.watch(2);
    assert_eq!(watcher.len(), 0);
    assert_eq!(watcher.capacity(), 0);
    assert!(watcher.history().is_empty());
}

#[test]
fn timestamps_never_go_back() {
    let before = Instant::now();
    let mut watcher = LowBullWatcher::new(4);
    for key in 0..10u32 {
        watcher.watch(key);
    }
    let after = Instant::now();
    let history = watcher.history();
    assert_eq!(history.len(), 4);
    assert!(before <= history[0].time());
    for pair in history.windows(2) {
        assert!(pair[0].time() <= pair[1].time());
    }
    assert!(history[3].time() <= after);
}

#[test]
fn entry_keeps_key_and_time() {
    let time = Instant::now();
    let entry = WatchEntry::at("start", time);
    assert_eq!(*entry.key(), "start");
    assert_eq!(entry.time(), time);

    let before = Instant::now();
    let fresh = WatchEntry::new(7u8);
    assert_eq!(*fresh.key(), 7);
    assert!(before <= fresh.time());
    assert!(fresh.time() <= Instant::now());
}

#[test]
fn entry_clone_is_the_same_observation() {
    let entry = WatchEntry::new(String::from("key"));
    let copy = entry.clone();
    assert_eq!(copy.key(), entry.key());
    assert_eq!(copy.time(), entry.time());
}

#[test]
fn record_keeps_the_entry_it_is_given() {
    let time = Instant::now();
    let mut watcher = LowBullWatcher::new(2);
    watcher.record(WatchEntry::at(1u32, time));
    watcher.watch(2);
    watcher.record(WatchEntry::at(3u32, time));
    let history = watcher.history();
    assert_eq!(*history[0].key(), 2);
    assert_eq!(*history[1].key(), 3);
    assert_eq!(history[1].time(), time);
}

#[test]
fn entry_debug_names_the_key() {
    let entry = WatchEntry::new(42u32);
    let text = format!("{:?}", entry);
    assert!(text.contains("WatchEntry"));
    assert!(text.contains("42"));
}
