use oci_sync::cache::{add, cache_file_path, clear, recent, stats, stats_total, Activity, ActivityCache, ActivityType, MAX_ACTIVITIES};

fn mk_activity(kind: ActivityType) -> Activity {
    Activity {
        kind,
        timestamp: "2024-05-01T12:00:00+08:00".into(),
        remote_ref: "reg/repo:tag".into(),
        local_path: None,
        labels: vec![],
        success: true,
        error: None,
    }
}

#[test]
fn add_prepends_and_truncates() {
    let mut c = ActivityCache::default();
    for _ in 0..(MAX_ACTIVITIES + 10) {
        add(&mut c, mk_activity(ActivityType::Push));
    }
    assert_eq!(c.activities.len(), MAX_ACTIVITIES);
}

#[test]
fn recent_limits_and_orders() {
    let mut c = ActivityCache::default();
    add(&mut c, mk_activity(ActivityType::Push));
    add(&mut c, mk_activity(ActivityType::Delete));
    let s = stats(&c);
    let r = recent(c, 1);
    assert_eq!(r.len(), 1);
    assert_eq!(r[0].kind, ActivityType::Delete);
    assert_eq!(s.iter().find(|(k, _)| k == "push").unwrap().1, 1);
}

#[test]
fn clear_empties() {
    let mut c = ActivityCache::default();
    add(&mut c, mk_activity(ActivityType::Push));
    clear(&mut c);
    assert!(c.activities.is_empty());
}

#[test]
fn recent_zero_means_all() {
    let mut c = ActivityCache::default();
    for k in [ActivityType::Push, ActivityType::Pull, ActivityType::Label] {
        add(&mut c, mk_activity(k));
    }
    let r = recent(c, 0);
    assert_eq!(r.len(), 3);
    assert_eq!(r[0].kind, ActivityType::Label);
    assert_eq!(r[2].kind, ActivityType::Push);
}

#[test]
fn stats_in_name_order_with_total() {
    let mut c = ActivityCache::default();
    for k in [ActivityType::Push, ActivityType::Pull, ActivityType::Push, ActivityType::Delete] {
        add(&mut c, mk_activity(k));
    }
    let s = stats(&c);
    assert_eq!(s, vec![("delete".to_string(), 1), ("pull".to_string(), 1), ("push".to_string(), 2)]);
    assert_eq!(stats_total(&s), 4);
}

#[test]
fn cache_file_location() {
    assert_eq!(cache_file_path("/home/u/.cache"), "/home/u/.cache/oci-sync/activity.json");
    assert_eq!(ActivityType::Label.as_str(), "label");
}
