use klipper_bridge::client::{
    connected_status, disconnected_status, error_status, sent_status, ClientInfo,
};
use klipper_bridge::registry::SessionRegistry;

fn ips_of(registry: &SessionRegistry) -> Vec<String> {
    registry.snapshot().iter().map(|c| c.ip.clone()).collect()
}

#[test]
fn a_new_client_is_connected_now() {
    let info = ClientInfo::new_authenticated("10.0.0.7".to_string(), 1234);
    assert_eq!(info.ip, "10.0.0.7");
    assert_eq!(info.connected_at, 1234);
    assert_eq!(info.last_activity, 1234);
    assert_eq!(info.status, "✅ Connected");
}

#[test]
fn status_texts() {
    assert_eq!(connected_status(), "✅ Connected");
    assert_eq!(disconnected_status(), "🔌 Disconnected");
    assert_eq!(error_status(), "❌ Error");
    assert_eq!(sent_status("X10\n"), "📡 Sent: X10\n");
    assert_eq!(sent_status(""), "📡 Sent: ");
}

#[test]
fn a_clone_is_equal() {
    let info = ClientInfo::new_authenticated("a".to_string(), 5);
    assert_eq!(info.clone(), info);
}

#[test]
fn the_registry_starts_empty() {
    let registry = SessionRegistry::new();
    assert_eq!(registry.len(), 0);
    assert!(!registry.contains("10.0.0.7"));
    assert!(registry.get("10.0.0.7").is_none());
    assert!(registry.snapshot().is_empty());
}

#[test]
fn entries_keep_the_order_of_registration() {
    let mut registry = SessionRegistry::new();
    registry.register("b", 1);
    registry.register("a", 2);
    registry.register("c", 3);
    assert_eq!(registry.len(), 3);
    assert_eq!(ips_of(&registry), vec!["b", "a", "c"]);
    assert_eq!(registry.entry(1).ip, "a");
    assert_eq!(registry.entry(1).connected_at, 2);
    assert!(registry.contains("c"));
    assert!(!registry.contains("d"));
}

#[test]
fn an_identity_has_one_entry() {
    let mut registry = SessionRegistry::new();
    registry.register("a", 1);
    registry.register("b", 2);
    registry.set_status("a", disconnected_status());
    registry.register("a", 30);
    assert_eq!(registry.len(), 2);
    assert_eq!(ips_of(&registry), vec!["a", "b"]);
    let a = registry.get("a").unwrap();
    assert_eq!(a.connected_at, 30);
    assert_eq!(a.last_activity, 30);
    assert_eq!(a.status, "✅ Connected");
}

#[test]
fn insert_stores_under_the_identity() {
    let mut registry = SessionRegistry::new();
    registry.insert(ClientInfo {
        ip: "x".to_string(),
        connected_at: 1,
        last_activity: 2,
        status: "s".to_string(),
    });
    registry.insert(ClientInfo {
        ip: "x".to_string(),
        connected_at: 3,
        last_activity: 4,
        status: "t".to_string(),
    });
    assert_eq!(registry.len(), 1);
    assert_eq!(
        registry.get("x").unwrap(),
        &ClientInfo {
            ip: "x".to_string(),
            connected_at: 3,
            last_activity: 4,
            status: "t".to_string()
        }
    );
}

#[test]
fn status_and_activity_touch_one_entry() {
    let mut registry = SessionRegistry::new();
    registry.register("a", 1);
    registry.register("b", 2);
    registry.record_activity("b", 77, sent_status("X10"));
    registry.set_status("a", error_status());
    let a = registry.get("a").unwrap();
    assert_eq!((a.connected_at, a.last_activity, a.status.as_str()), (1, 1, "❌ Error"));
    let b = registry.get("b").unwrap();
    assert_eq!((b.connected_at, b.last_activity, b.status.as_str()), (2, 77, "📡 Sent: X10"));
}

#[test]
fn an_unknown_identity_gains_no_entry() {
    let mut registry = SessionRegistry::new();
    registry.register("a", 1);
    registry.set_status("zz", error_status());
    registry.record_activity("zz", 9, sent_status("x"));
    assert_eq!(registry.len(), 1);
    assert_eq!(registry.get("a").unwrap(), &ClientInfo::new_authenticated("a".to_string(), 1));
}
