use shell::config::File;
use shell::notification::{dismiss_first, sync, Notification, Shown};

fn note(summary: &str, timeout_ms: Option<u64>) -> Notification {
    Notification {
        app_name: "app".to_owned(),
        summary: summary.to_owned(),
        body: String::new(),
        timeout_ms,
    }
}

#[test]
fn arrivals_are_queued_and_expire() {
    let mut queue: Vec<Shown> = Vec::new();
    sync(&mut queue, vec![note("a", Some(100)), note("b", None)], 1000);
    assert_eq!(queue.len(), 2);
    assert_eq!(queue[0].received_ms, 1000);
    assert_eq!(queue[0].expires_at(), Some(1100));
    assert_eq!(queue[1].expires_at(), None);
    sync(&mut queue, vec![note("c", Some(50))], 1099);
    assert_eq!(queue.iter().map(|s| s.notification.summary.as_str()).collect::<Vec<_>>(), ["a", "b", "c"]);
    sync(&mut queue, Vec::new(), 1100);
    assert_eq!(queue.iter().map(|s| s.notification.summary.as_str()).collect::<Vec<_>>(), ["b", "c"]);
    sync(&mut queue, Vec::new(), u64::MAX);
    assert_eq!(queue.iter().map(|s| s.notification.summary.as_str()).collect::<Vec<_>>(), ["b"]);
}

#[test]
fn huge_timeouts_do_not_overflow() {
    let mut queue: Vec<Shown> = Vec::new();
    sync(&mut queue, vec![note("a", Some(u64::MAX))], u64::MAX);
    assert_eq!(queue.len(), 1);
    assert_eq!(queue[0].expires_at(), Some(u64::MAX as u128 * 2));
}

#[test]
fn dismissing_drops_the_first() {
    let mut queue: Vec<Shown> = Vec::new();
    sync(&mut queue, vec![note("a", None), note("b", None)], 0);
    dismiss_first(&mut queue);
    assert_eq!(queue.len(), 1);
    assert_eq!(queue[0].notification.summary, "b");
    dismiss_first(&mut queue);
    dismiss_first(&mut queue);
    assert!(queue.is_empty());
}

#[test]
fn notification_settings_default() {
    let c = shell::notification::Config::default();
    assert_eq!((c.width, c.height, c.margin), (380, 96, 8));
    assert_eq!(shell::notification::Config::NAME, "notification");
}

#[test]
fn time_left_until_expiry() {
    let mut queue: Vec<Shown> = Vec::new();
    sync(&mut queue, vec![note("a", Some(5000)), note("b", None)], 1000);
    assert_eq!(queue[0].remaining_ms(1000), Some(5000));
    assert_eq!(queue[0].remaining_ms(5999), Some(1));
    assert_eq!(queue[0].remaining_ms(6000), Some(0));
    assert_eq!(queue[0].remaining_ms(9000), Some(0));
    assert_eq!(queue[1].remaining_ms(9000), None);
}
