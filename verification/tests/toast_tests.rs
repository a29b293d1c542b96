use vorto::toast::{Level, Toast, ToastQueue, ERROR_TTL_MS, FATAL_REMAINING_MS, TTL_MS};

fn texts(q: &ToastQueue) -> Vec<String> {
    q.active().iter().map(|t| t.text().to_string()).collect()
}

#[test]
fn push_fills_active_then_pending() {
    let mut q = ToastQueue::new();
    for i in 0..5 {
        q.push(Toast::info(&format!("t{i}")));
    }
    assert_eq!(q.active().len(), 3);
    assert_eq!(q.pending_len(), 2);
    assert_eq!(texts(&q), vec!["t0", "t1", "t2"]);
}

#[test]
fn empty_text_is_dropped() {
    let mut q = ToastQueue::new();
    q.push(Toast::info(""));
    assert!(q.active().is_empty());
    assert_eq!(q.pending_len(), 0);
}

#[test]
fn tick_promotes_pending_when_active_expires() {
    let now: u64 = 100_000;
    let mut q = ToastQueue::new();
    // The first two were shown long enough ago to have expired.
    q.push_at(Toast::with_shown_at("a", Level::Info, now - TTL_MS - 10), now);
    q.push_at(Toast::with_shown_at("b", Level::Info, now - TTL_MS - 10), now);
    q.push_at(Toast::with_shown_at("c", Level::Info, now), now);
    q.push_at(Toast::with_shown_at("d", Level::Info, now), now);
    q.push_at(Toast::with_shown_at("e", Level::Info, now), now);
    assert_eq!(q.pending_len(), 2);
    q.tick_at(now);
    assert_eq!(texts(&q), vec!["c", "d", "e"]);
    assert_eq!(q.pending_len(), 0);
}

#[test]
fn fatal_stays_through_tick() {
    let now: u64 = 100_000;
    let mut q = ToastQueue::new();
    q.push_at(Toast::with_shown_at("stuck", Level::Fatal, now - TTL_MS - 10_000), now);
    q.tick_at(now);
    assert_eq!(q.active().len(), 1);
    assert_eq!(q.active()[0].text(), "stuck");
}

#[test]
fn dismiss_fatal_drops_one_fatal_only() {
    let mut q = ToastQueue::new();
    q.push(Toast::info("a"));
    q.push(Toast::fatal("boom"));
    q.push(Toast::info("c"));
    assert!(q.dismiss_fatal());
    assert_eq!(texts(&q), vec!["a", "c"]);
    assert!(!q.dismiss_fatal());
}

#[test]
fn consecutive_duplicates_refresh_shown_at_instead_of_stacking() {
    let mut q = ToastQueue::new();
    q.push_at(Toast::with_shown_at("nothing to repeat", Level::Error, 1_000), 1_000);
    let first_at = q.active()[0].shown_at();
    for i in 0..50u64 {
        q.push_at(Toast::with_shown_at("nothing to repeat", Level::Error, 1_005 + i), 1_005 + i);
    }
    assert_eq!(q.active().len(), 1);
    assert_eq!(q.pending_len(), 0);
    assert!(q.active()[0].shown_at() > first_at);
}

#[test]
fn distinct_text_still_stacks() {
    let mut q = ToastQueue::new();
    q.push(Toast::error("a"));
    q.push(Toast::error("b"));
    q.push(Toast::error("a"));
    assert_eq!(q.active().len(), 3);
}

#[test]
fn tick_removes_after_real_ttl_elapses() {
    let mut q = ToastQueue::new();
    q.push(Toast::error("ephemeral"));
    assert_eq!(q.active().len(), 1);
    let start = std::time::Instant::now();
    while start.elapsed() < std::time::Duration::from_millis(TTL_MS + 50) {}
    q.tick();
    assert!(q.active().is_empty(), "still active: {:?}", q.active().len());
}

#[test]
fn remaining_picks_soonest_non_fatal() {
    let now: u64 = 100_000;
    let mut q = ToastQueue::new();
    q.push_at(Toast::with_shown_at("a", Level::Info, now - 2_500), now);
    q.push_at(Toast::with_shown_at("b", Level::Info, now - 500), now);
    let rem = q.remaining_at(now).unwrap();
    assert!(rem < 700, "got {:?}", rem);
    assert_eq!(rem, 500);
}

#[test]
fn remaining_is_the_fatal_placeholder_when_only_fatal_shows() {
    let mut q = ToastQueue::new();
    assert_eq!(q.remaining_at(0), None);
    q.push_at(Toast::with_shown_at("boom", Level::Fatal, 0), 0);
    assert_eq!(q.remaining_at(5), Some(FATAL_REMAINING_MS));
}

#[test]
fn error_toasts_expire_sooner() {
    assert_eq!(Level::Error.ttl(), Some(ERROR_TTL_MS));
    assert_eq!(Level::Info.ttl(), Some(TTL_MS));
    assert_eq!(Level::Fatal.ttl(), None);
    let now: u64 = 10_000;
    let mut q = ToastQueue::new();
    q.push_at(Toast::with_shown_at("e", Level::Error, now), now);
    q.push_at(Toast::with_shown_at("i", Level::Info, now), now);
    q.tick_at(now + ERROR_TTL_MS);
    assert_eq!(texts(&q), vec!["i"]);
}

#[test]
fn pending_overflow_drops_the_oldest() {
    let mut q = ToastQueue::new();
    for i in 0..40 {
        q.push_at(Toast::with_shown_at(&format!("t{i}"), Level::Info, 0), 0);
    }
    assert_eq!(q.active().len(), 3);
    assert_eq!(q.pending_len(), 32);
}

#[test]
fn tick_keeps_live_in_order_then_promotes_restamped() {
    let now: u64 = 50_000;
    let mut q = ToastQueue::new();
    q.push_at(Toast::with_shown_at("old", Level::Info, now - TTL_MS), now);
    q.push_at(Toast::with_shown_at("fatal", Level::Fatal, 0), now);
    q.push_at(Toast::with_shown_at("young", Level::Warn, now - 10), now);
    q.push_at(Toast::with_shown_at("p1", Level::Info, 7), now);
    q.push_at(Toast::with_shown_at("p2", Level::Info, 8), now);
    q.tick_at(now);
    assert_eq!(texts(&q), vec!["fatal", "young", "p1"]);
    assert_eq!(q.active()[2].shown_at(), now);
    assert_eq!(q.pending_len(), 1);
}

#[test]
fn full_pending_drops_its_oldest_and_active_is_untouched() {
    let mut q = ToastQueue::new();
    for i in 0..35 {
        q.push_at(Toast::with_shown_at(&format!("t{i}"), Level::Info, 0), 0);
    }
    assert_eq!(q.active().len(), 3);
    assert_eq!(q.pending_len(), 32);
    q.push_at(Toast::with_shown_at("new", Level::Error, 0), 0);
    assert_eq!(texts(&q), vec!["t0", "t1", "t2"]);
    assert_eq!(q.pending_len(), 32);
}

#[test]
fn repeated_error_only_restamps() {
    let mut q = ToastQueue::new();
    for i in 0..50u64 {
        q.push_at(Toast::with_shown_at("boom", Level::Error, i), i);
    }
    assert_eq!(q.active().len(), 1);
    assert_eq!(q.pending_len(), 0);
    assert_eq!(q.active()[0].shown_at(), 49);
    q.push_at(Toast::with_shown_at("a", Level::Error, 60), 60);
    q.push_at(Toast::with_shown_at("boom", Level::Error, 61), 61);
    assert_eq!(texts(&q), vec!["boom", "a", "boom"]);
}
