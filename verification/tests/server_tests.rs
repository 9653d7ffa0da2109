use polygone::security::{is_mlock_supported, lock_memory, secure_zero, SecureBuffer};
use polygone::server::container::{container_status, ServiceImage};
use polygone::server::ratelimit::{decision_result, hourly_decision, record_allowed, remaining_quota, RateLimitDecision};
use polygone::server::registry::{ListingRecord, OrderRecord, OrderStatus, ServiceCategory, ServiceRegistry};
use polygone::server::resource::{
    detect_system_resources, system_resources_from, ResourceManager, ResourceQuota, SystemResources, TenantResources,
};
use polygone::setup::{config_text, username_from_config, valid_username};
use polygone::tui::{App, Key, MessageKind, View};

#[test]
fn test_secure_zero() {
    let mut data = vec![0xFFu8; 32];
    secure_zero(&mut data);
    assert_eq!(data, vec![0u8; 32]);
}

#[test]
fn test_secure_buffer() {
    let buf = SecureBuffer::new(vec![0x42u8; 16]);
    assert_eq!(buf.as_slice().len(), 16);
    drop(buf);
}

#[test]
fn memory_locking_is_reported_unavailable() {
    assert!(!is_mlock_supported());
    assert!(!lock_memory(&[1, 2, 3]));
}

#[test]
fn test_resource_tracking() {
    let mut manager = ResourceManager::new(SystemResources::default());

    manager.register_tenant("test", ResourceQuota::default());

    let resources = TenantResources { memory_bytes: 100 * 1024 * 1024, ..Default::default() };

    assert!(manager.allocate("test", &resources).is_ok());
    assert!(manager.usage_of("test").is_some());

    manager.release("test", &resources);
    manager.unregister_tenant("test");
}

#[test]
fn resource_quota_edges() {
    let mut manager = ResourceManager::new(SystemResources { total_memory_mb: 1000, total_cpu_cores: 4, total_disk_mb: 50 });
    assert_eq!(manager.allocate("ghost", &TenantResources::default()).unwrap_err(), "Quota exceeded");
    manager.register_tenant("t", ResourceQuota::default());
    let exactly = TenantResources { memory_bytes: 512 * 1024 * 1024, ..Default::default() };
    assert!(manager.can_allocate("t", &exactly));
    manager.allocate("t", &exactly).unwrap();
    let one_more = TenantResources { memory_bytes: 1, ..Default::default() };
    assert_eq!(manager.allocate("t", &one_more).unwrap_err(), "Quota exceeded");
    let avail = manager.get_available();
    assert_eq!(avail.total_memory_mb, 1000 - 512);
    assert_eq!(avail.total_cpu_cores, 4);
    assert_eq!(avail.total_disk_mb, 50);
    let big = TenantResources { memory_bytes: u64::MAX / 2, ..Default::default() };
    manager.release("t", &big);
    assert_eq!(manager.usage_of("t").unwrap().0.memory_bytes, 0);
    assert_eq!(manager.tenant_names(), vec!["t".to_string()]);
}

#[test]
fn system_resources_reading() {
    let r = system_resources_from(None, 8);
    assert_eq!(r.total_memory_mb, 8);
    assert_eq!(r.total_cpu_cores, 8);
    assert_eq!(r.total_disk_mb, 10240);
    assert_eq!(system_resources_from(Some(16 * 1024 * 1024), 2).total_memory_mb, 16 * 1024);
}

#[test]
fn rate_limit_decisions() {
    assert_eq!(hourly_decision(10, 0, 0, 10, 500), Some(RateLimitDecision::QuotaExceeded));
    assert_eq!(hourly_decision(0, 499, 2, 10, 500), Some(RateLimitDecision::QuotaExceeded));
    assert_eq!(hourly_decision(9, 499, 1, 10, 500), None);
    assert_eq!(record_allowed(3, 10, 5), (4, 15));
    assert_eq!(remaining_quota(10, 12, 500, 100), (0, 400));
    assert!(decision_result(RateLimitDecision::Allowed).is_ok());
    assert_eq!(decision_result(RateLimitDecision::RateLimited).unwrap_err(), "Rate limit exceeded. Try again later.");
    assert_eq!(
        decision_result(RateLimitDecision::QuotaExceeded).unwrap_err(),
        "Hourly quota exceeded. Please try again in the next hour."
    );
}

#[test]
fn registry_vocabulary() {
    assert_eq!(ServiceCategory::Compute.as_str(), "compute");
    assert_eq!(ServiceCategory::AIInference.as_str(), "ai_inference");
    assert_eq!(ServiceCategory::Custom("gpu".to_string()).as_str(), "gpu");
    assert_ne!(OrderStatus::Pending, OrderStatus::Active);
}

#[test]
fn container_status_and_images() {
    let s = container_status("c1", true, 100, 160);
    assert_eq!(s.id, "c1");
    assert!(s.running);
    assert_eq!(s.uptime_secs, 60);
    let n = ServiceImage::nginx();
    assert_eq!(n.name, "nginx:latest");
    assert_eq!(n.args, vec!["-g".to_string(), "daemon off;".to_string()]);
    let st = ServiceImage::static_server();
    assert_eq!(st.command, "python3");
    assert_eq!(st.required_quota.max_memory_mb, 64);
}

#[test]
fn tui_keys_and_favorites() {
    let mut app = App::new(View::Dashboard, vec!["Polygone".to_string(), "Polygone".to_string()]);
    assert_eq!(app.favorites, vec!["Polygone".to_string()]);
    assert_eq!(app.messages.len(), 1);
    assert!(!app.handle_key(Key::Char('f'), false));
    assert!(!app.handle_key(Key::Char('3'), false));
    assert_eq!(app.current_view, View::Services);
    assert_eq!(app.current_view.tab_index(), 2);
    app.selected_service = 1;
    assert!(app.handle_key(Key::Char('f'), false));
    assert_eq!(app.favorites, vec!["Polygone".to_string(), "Polygone-Brain".to_string()]);
    assert_eq!(app.messages.last().unwrap().1, "Added Polygone-Brain to favorites");
    app.selected_service = 0;
    assert!(app.handle_key(Key::Char('f'), false));
    assert_eq!(app.favorites, vec!["Polygone-Brain".to_string()]);
    assert_eq!(app.messages.last().unwrap().1, "Removed Polygone from favorites");
    app.selected_service = 8;
    assert!(!app.handle_key(Key::Char('f'), false));
    assert!(!app.handle_key(Key::Char('c'), false));
    assert!(!app.should_quit);
    app.handle_key(Key::Char('c'), true);
    assert!(app.should_quit);
}

#[test]
fn tui_message_log_is_bounded() {
    let mut app = App::new(View::Settings, Vec::new());
    for i in 0..150 {
        app.push_msg(MessageKind::Warn, format!("m{i}"));
    }
    assert_eq!(app.messages.len(), 100);
    assert_eq!(app.messages[0].1, "m50");
    assert_eq!(MessageKind::Success.symbol(), "✔");
    let mut q = App::new(View::Node, Vec::new());
    q.handle_key(Key::Esc, false);
    assert!(q.should_quit);
}

fn listing(id: &str, node: &str, category: ServiceCategory, available: bool) -> ListingRecord {
    ListingRecord { id: id.to_string(), node_id: node.to_string(), category, available }
}

#[test]
fn test_service_registration() {
    let mut registry = ServiceRegistry::new();

    let l = listing("test-1", "node-1", ServiceCategory::Compute, true);

    assert!(registry.register(l).is_ok());
    assert!(registry.get("test-1").is_some());
    assert_eq!(registry.search(None, true).len(), 1);
}

#[test]
fn registry_rules() {
    let mut registry = ServiceRegistry::new();
    registry.register(listing("a", "n1", ServiceCategory::Storage, true)).unwrap();
    registry.register(listing("b", "n1", ServiceCategory::Custom("gpu".to_string()), false)).unwrap();
    registry.register(listing("c", "n2", ServiceCategory::Storage, true)).unwrap();
    assert_eq!(registry.register(listing("a", "n9", ServiceCategory::Compute, true)).unwrap_err(), "Listing already exists");
    assert_eq!(registry.search(Some(ServiceCategory::Storage), false).len(), 2);
    assert_eq!(registry.search(Some(ServiceCategory::Custom("gpu".to_string())), false).len(), 1);
    assert_eq!(registry.search(None, true).len(), 2);
    assert_eq!(registry.get_node_listings("n1").len(), 2);
    let order = |id: &str, listing_id: &str| OrderRecord {
        id: id.to_string(),
        listing_id: listing_id.to_string(),
        buyer: "x".to_string(),
        seller: "n1".to_string(),
        duration_hours: 2,
        status: OrderStatus::Pending,
        created_at: 0,
    };
    assert_eq!(registry.create_order(order("o1", "zzz")).unwrap_err(), "Listing not found");
    assert_eq!(registry.create_order(order("o1", "b")).unwrap_err(), "Service is not available");
    registry.create_order(order("o1", "a")).unwrap();
    assert_eq!(registry.create_order(order("o1", "a")).unwrap_err(), "Order already exists");
    registry.update_order_status("o1", OrderStatus::Active).unwrap();
    assert_eq!(registry.get_node_orders("n1")[0].status, OrderStatus::Active);
    assert_eq!(registry.update_order_status("o2", OrderStatus::Active).unwrap_err(), "Order not found");
    registry.unregister("a").unwrap();
    assert_eq!(registry.unregister("a").unwrap_err(), "Listing not found");
    assert_eq!(registry.get_node_listings("n1").len(), 1);
}

#[test]
fn setup_rules() {
    assert!(valid_username("alice_01"));
    assert!(!valid_username("al"));
    assert!(!valid_username("a-b-c"));
    assert!(!valid_username("abcdefghijklmnopqrstu"));
    assert!(valid_username("élodie"));
    let text = config_text("bob");
    assert!(text.contains("username = \"bob\"\nlanguage = \"fr\""));
    assert_eq!(username_from_config(&text), "bob");
    assert_eq!(username_from_config("x\r\nusername = \"carol\"\r\n"), "carol");
    assert_eq!(username_from_config("username = none"), "?");
    assert_eq!(username_from_config("name = \"x\"\n"), "?");
    assert_eq!(username_from_config("username = \"open"), "open");
    assert_eq!(username_from_config(""), "?");
}

#[test]
fn view_names() {
    assert_eq!(View::from_name("keygen"), View::Keygen);
    assert_eq!(View::from_name("help"), View::Help);
    assert_eq!(View::from_name("whatever"), View::Dashboard);
    assert_eq!(View::Help.tab_index(), 9);
}

#[test]
fn detected_system_resources() {
    let r = detect_system_resources();
    assert_eq!(r.total_disk_mb, 10240);
    assert!(r.total_cpu_cores >= 1);
}

#[test]
fn release_undoes_allocate() {
    let mut manager = ResourceManager::new(SystemResources::default());
    manager.register_tenant("t", ResourceQuota::default());
    let base = TenantResources { memory_bytes: 5, disk_bytes: 7, bandwidth_bytes: 9, ..Default::default() };
    manager.allocate("t", &base).unwrap();
    let before = manager.usage_of("t").unwrap().0;
    let extra = TenantResources { memory_bytes: 1000, disk_bytes: 2000, bandwidth_bytes: 3000, ..Default::default() };
    manager.allocate("t", &extra).unwrap();
    manager.release("t", &extra);
    let after = manager.usage_of("t").unwrap().0;
    assert_eq!((after.memory_bytes, after.disk_bytes, after.bandwidth_bytes), (before.memory_bytes, before.disk_bytes, before.bandwidth_bytes));
}

#[test]
fn toggling_twice_restores_favorites() {
    let mut app = App::new(View::Services, vec!["Polygone-CLI".to_string()]);
    app.selected_service = 3;
    app.handle_key(Key::Char('f'), false);
    app.handle_key(Key::Char('f'), false);
    assert_eq!(app.favorites, vec!["Polygone-CLI".to_string()]);
}

#[test]
fn registry_search_follows_register_and_unregister() {
    let mut reg = ServiceRegistry::new();
    reg.register(listing("l1", "n1", ServiceCategory::Compute, true)).unwrap();
    reg.register(listing("l2", "n1", ServiceCategory::Storage, false)).unwrap();
    assert!(reg.register(listing("l1", "n2", ServiceCategory::Compute, true)).is_err());
    let all: Vec<String> = reg.search(None, false).into_iter().map(|l| l.id).collect();
    assert_eq!(all, vec!["l1".to_string(), "l2".to_string()]);
    assert_eq!(reg.search(None, true).len(), 1);
    reg.unregister("l1").unwrap();
    let rest: Vec<String> = reg.search(None, false).into_iter().map(|l| l.id).collect();
    assert_eq!(rest, vec!["l2".to_string()]);
}
