use shell::timer::{next_timer_id, TimerCommand, TimerEntry, TimerEvent, TimerQueue};

fn entry(id: u64, fire_at: u64, interval: Option<u64>, actor: &str) -> TimerEntry {
    TimerEntry { id, fire_at, interval, actor_name: actor.to_string() }
}

fn ids(events: &[TimerEvent]) -> Vec<u64> {
    events.iter().map(|e| e.timer_id).collect()
}

#[test]
fn timer_ids_count_up_and_wrap() {
    let mut c = 1u64;
    assert_eq!(next_timer_id(&mut c), 1);
    assert_eq!(next_timer_id(&mut c), 2);
    assert_eq!(c, 3);
    let mut c = u64::MAX;
    assert_eq!(next_timer_id(&mut c), u64::MAX);
    assert_eq!(c, 0);
}

#[test]
fn new_entry_fires_after_delay() {
    let e = TimerEntry::new(7, "game", 1000, 5000, false);
    assert_eq!((e.id, e.fire_at, e.interval, e.actor_name.as_str()), (7, 6000, None, "game"));
    let r = TimerEntry::new(8, "chat", 10, 250, true);
    assert_eq!((r.fire_at, r.interval), (260, Some(250)));
    let d = r.duplicate();
    assert_eq!((d.id, d.fire_at, d.interval, d.actor_name), (8, 260, Some(250), "chat".to_string()));
}

#[test]
fn tick_fires_due_timers_earliest_first() {
    let mut q = TimerQueue::new();
    q.add(entry(1, 300, None, "a"));
    q.add(entry(2, 100, None, "b"));
    q.add(entry(3, 200, None, "c"));
    q.add(entry(4, 500, None, "d"));
    let ev = q.tick(300);
    assert_eq!(ids(&ev), vec![2, 3, 1]);
    assert_eq!(ev[0].actor_name, "b");
    assert!(q.tick(499).is_empty());
    assert_eq!(ids(&q.tick(500)), vec![4]);
    assert!(q.tick(10_000).is_empty());
}

#[test]
fn timers_firing_at_the_same_time_keep_insertion_order() {
    let mut q = TimerQueue::new();
    q.add(entry(1, 100, None, "a"));
    q.add(entry(2, 100, None, "a"));
    q.add(entry(3, 50, None, "a"));
    assert_eq!(ids(&q.tick(100)), vec![3, 1, 2]);
}

#[test]
fn repeating_timer_rearms_one_period_after_tick() {
    let mut q = TimerQueue::new();
    q.add(entry(9, 100, Some(100), "game"));
    assert_eq!(ids(&q.tick(150)), vec![9]);
    // armed again at 150 + 100
    assert!(q.tick(249).is_empty());
    assert_eq!(ids(&q.tick(250)), vec![9]);
    assert_eq!(ids(&q.tick(400)), vec![9]);
}

#[test]
fn repeating_timer_fires_once_per_tick_even_if_late() {
    let mut q = TimerQueue::new();
    q.add(entry(1, 10, Some(5), "a"));
    assert_eq!(ids(&q.tick(1000)), vec![1]);
}

#[test]
fn cancelled_timer_is_dropped_silently() {
    let mut q = TimerQueue::new();
    q.add(entry(1, 100, None, "a"));
    q.add(entry(2, 100, Some(50), "b"));
    q.cancel(2);
    assert_eq!(ids(&q.tick(100)), vec![1]);
    // the repeating timer is gone too
    assert!(q.tick(1000).is_empty());
}

#[test]
fn cancellation_waits_for_the_timer_and_is_used_once() {
    let mut q = TimerQueue::new();
    q.cancel(5);
    q.add(entry(5, 100, None, "a"));
    assert!(q.tick(50).is_empty());
    assert!(q.tick(100).is_empty());
    // the id's cancellation was consumed: a later timer with that id fires
    q.add(entry(5, 200, None, "a"));
    assert_eq!(ids(&q.tick(200)), vec![5]);
}

#[test]
fn apply_runs_commands() {
    let mut q = TimerQueue::new();
    assert!(q.apply(TimerCommand::Add(entry(1, 10, None, "a"))));
    assert!(q.apply(TimerCommand::Add(entry(2, 20, None, "a"))));
    assert!(q.apply(TimerCommand::Cancel(1)));
    assert!(!q.apply(TimerCommand::Stop));
    assert_eq!(ids(&q.tick(20)), vec![2]);
}

#[test]
fn can_tick_refuses_rearm_past_clock_end() {
    let mut q = TimerQueue::new();
    q.add(entry(1, 100, Some(u64::MAX - 50), "a"));
    assert!(!q.can_tick(100));
    assert!(q.can_tick(50));
    assert!(q.can_tick(99));
    let mut q2 = TimerQueue::new();
    q2.add(entry(1, 100, Some(10), "a"));
    assert!(q2.can_tick(1000));
}

#[test]
fn timer_id_counter_starts_at_one() {
    let mut g = shell::timer::TimerIds::new();
    assert_eq!(g.next(), 1);
    assert_eq!(g.next(), 2);
    assert_eq!(g.next(), 3);
}

#[test]
fn cancelled_repeating_timer_stays_silent() {
    let mut q = TimerQueue::new();
    q.add(entry(1, 100, Some(100), "a"));
    q.add(entry(2, 100, Some(100), "b"));
    assert_eq!(ids(&q.tick(100)), vec![1, 2]);
    q.cancel(1);
    for now in [200, 300, 400, 500] {
        let ev = q.tick(now);
        assert!(!ids(&ev).contains(&1));
        assert!(ids(&ev).contains(&2));
    }
}

#[test]
fn events_name_their_timers_actor() {
    let mut q = TimerQueue::new();
    q.add(entry(1, 10, None, "chat"));
    q.add(entry(2, 20, Some(5), "game"));
    let ev = q.tick(20);
    assert_eq!(ev.len(), 2);
    assert_eq!((ev[0].timer_id, ev[0].actor_name.as_str()), (1, "chat"));
    assert_eq!((ev[1].timer_id, ev[1].actor_name.as_str()), (2, "game"));
}

#[test]
fn repeating_timer_never_fires_early_over_a_run() {
    let mut q = TimerQueue::new();
    q.add(entry(5, 100, Some(40), "game"));
    let mut fired_at: Vec<u64> = Vec::new();
    for now in (0..400).step_by(7) {
        if q.tick(now).iter().any(|e| e.timer_id == 5) {
            fired_at.push(now);
        }
    }
    assert!(!fired_at.is_empty());
    assert!(fired_at[0] >= 100);
    for w in fired_at.windows(2) {
        assert!(w[1] >= w[0] + 40);
    }
    assert_eq!(fired_at[..3], [105, 147, 189]);
}

#[test]
fn cancelled_timer_silent_while_others_come_and_go() {
    let mut q = TimerQueue::new();
    q.add(entry(1, 50, Some(10), "a"));
    q.cancel(1);
    let mut all = Vec::new();
    for (k, now) in (0..300u64).step_by(5).enumerate() {
        if k % 4 == 0 {
            q.add(entry(100 + k as u64, now + 3, None, "b"));
        }
        all.extend(ids(&q.tick(now)));
    }
    assert!(!all.contains(&1));
    assert!(!all.is_empty());
}
