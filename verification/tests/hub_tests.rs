use product_catalog::hub::LiveUpdateHub;
use product_catalog::models::Product;

fn product(id: i64, name: &str) -> Product {
    Product {
        id,
        name: name.to_string(),
        price: 1000,
        image: None,
        description: None,
        category: Some("Electronics".to_string()),
    }
}

#[test]
fn test_live_update_scenario() {
    let mut hub = LiveUpdateHub::new(100);

    let first = hub.subscribe();
    let x = product(1, "X");
    hub.publish(&x);

    let second = hub.subscribe();
    let y = product(2, "Y");
    hub.publish(&y);

    assert_eq!(hub.poll(first), Some(x));
    assert_eq!(hub.poll(first), Some(y.clone()));
    assert_eq!(hub.poll(first), None);

    assert_eq!(hub.poll(second), Some(y));
    assert_eq!(hub.poll(second), None);
}

#[test]
fn test_publish_reaches_every_subscriber() {
    let mut hub = LiveUpdateHub::new(10);
    let a = hub.subscribe();
    let b = hub.subscribe();
    let c = hub.subscribe();
    assert!(a != b && b != c && a != c);

    let p = product(1, "Broadcast");
    hub.publish(&p);

    assert_eq!(hub.poll(a), Some(p.clone()));
    assert_eq!(hub.poll(b), Some(p.clone()));
    assert_eq!(hub.poll(c), Some(p));
}

#[test]
fn test_full_queue_drops_oldest() {
    let mut hub = LiveUpdateHub::new(2);
    let s = hub.subscribe();

    hub.publish(&product(1, "First"));
    hub.publish(&product(2, "Second"));
    hub.publish(&product(3, "Third"));

    let got = hub.poll(s).expect("two items pending");
    assert_eq!(got.id, 2);
    let got = hub.poll(s).expect("one item pending");
    assert_eq!(got.id, 3);
    assert_eq!(hub.poll(s), None);
}

#[test]
fn test_unsubscribe_discards_queue() {
    let mut hub = LiveUpdateHub::new(10);
    let a = hub.subscribe();
    let b = hub.subscribe();
    hub.publish(&product(1, "P"));

    assert!(hub.unsubscribe(a));
    assert!(!hub.unsubscribe(a));
    assert_eq!(hub.poll(a), None);
    assert_eq!(hub.poll(b).map(|p| p.id), Some(1));
}

#[test]
fn test_poll_unknown_handle_is_none() {
    let mut hub = LiveUpdateHub::new(10);
    assert_eq!(hub.poll(42), None);
}
