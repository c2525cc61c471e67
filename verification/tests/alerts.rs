use carokia::alerts::AlertManager;
use carokia::types::ThreatLevel;

#[test]
fn alert_manager_new_is_empty() {
    let mgr: AlertManager<(f64, f64)> = AlertManager::new();
    assert_eq!(mgr.count(), 0);
    assert!(mgr.all().is_empty());
}

#[test]
fn alert_manager_raise_and_count() {
    let mut mgr = AlertManager::new();
    mgr.raise(ThreatLevel::Suspicious, "Test alert", None);
    assert_eq!(mgr.count(), 1);

    mgr.raise(ThreatLevel::Confirmed, "Confirmed alert", Some((3.0, 4.0)));
    assert_eq!(mgr.count(), 2);
}

#[test]
fn alert_manager_recent() {
    let mut mgr: AlertManager<(f64, f64)> = AlertManager::new();
    for i in 0..5 {
        mgr.raise(ThreatLevel::Suspicious, &format!("Alert {}", i), None);
    }

    let recent = mgr.recent(3);
    assert_eq!(recent.len(), 3);
    assert_eq!(recent[0].message, "Alert 2");
    assert_eq!(recent[2].message, "Alert 4");
}

#[test]
fn alert_manager_recent_more_than_available() {
    let mut mgr: AlertManager<(f64, f64)> = AlertManager::new();
    mgr.raise(ThreatLevel::NoThreat, "Only one", None);
    let recent = mgr.recent(10);
    assert_eq!(recent.len(), 1);
}

#[test]
fn alert_stores_location() {
    let mut mgr = AlertManager::new();
    mgr.raise(ThreatLevel::Confirmed, "Intruder", Some((6.0, 4.0)));
    let alert = &mgr.all()[0];
    assert_eq!(alert.location, Some((6.0, 4.0)));
    assert_eq!(alert.level, ThreatLevel::Confirmed);
}

#[test]
fn alert_manager_clear() {
    let mut mgr: AlertManager<(f64, f64)> = AlertManager::default();
    mgr.raise(ThreatLevel::Suspicious, "Test", None);
    assert_eq!(mgr.count(), 1);
    mgr.clear();
    assert_eq!(mgr.count(), 0);
    assert!(mgr.recent(0).is_empty());
}
