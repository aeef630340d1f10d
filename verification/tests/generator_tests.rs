use product_catalog::generator::apply_jitter;
use product_catalog::generator::generate_and_publish;
use product_catalog::generator::generate_random_product;
use product_catalog::generator::simulate_price_change;
use product_catalog::generator::GeneratorControl;
use product_catalog::hub::LiveUpdateHub;
use product_catalog::store::ProductStore;

const CATEGORIES: [&str; 5] = ["Electronics", "Books", "Clothing", "Home", "Toys"];

#[test]
fn test_generate_random_product_shape() {
    let p = generate_random_product(1234);
    assert_eq!(p.id, 1234);
    assert_eq!(p.name, "Product-1234");
    assert_eq!(p.image.as_deref(), Some("/images/product-1234.jpg"));
    assert_eq!(
        p.description.as_deref(),
        Some("This is a description for Product-1234")
    );
    let category = p.category.expect("generated products carry a category");
    assert!(CATEGORIES.contains(&category.as_str()));
    assert!(p.price >= 1000 && p.price < 50000);
}

#[test]
fn test_generate_and_publish_feeds_store_and_hub() {
    let mut store = ProductStore::new();
    let mut hub = LiveUpdateHub::new(100);
    let s = hub.subscribe();

    let first = generate_and_publish(&mut store, &mut hub);
    assert_eq!(first.id, 1);
    let second = generate_and_publish(&mut store, &mut hub);
    assert_eq!(second.id, 2);

    assert_eq!(store.list().len(), 2);
    assert_eq!(store.get(1), Some(first.clone()));

    assert_eq!(hub.poll(s), Some(first));
    assert_eq!(hub.poll(s), Some(second));
    assert_eq!(hub.poll(s), None);
}

#[test]
fn test_apply_jitter_exact() {
    assert_eq!(apply_jitter(10000, 50), 10500);
    assert_eq!(apply_jitter(10000, -50), 9500);
    assert_eq!(apply_jitter(10000, 0), 10000);
    assert_eq!(apply_jitter(999, 10), 1008);
    assert_eq!(apply_jitter(0, 33), 0);
}

#[test]
fn test_simulate_price_change_bounds() {
    for _ in 0..50 {
        let r = simulate_price_change(10000);
        assert!((9500..=10500).contains(&r));
    }
    assert_eq!(simulate_price_change(0), 0);
}

#[test]
fn test_generator_control_spawns_once() {
    let mut control = GeneratorControl::new();
    assert!(!control.is_generating());

    assert!(control.on_toggle(true));
    assert!(control.is_generating());
    assert!(!control.on_toggle(true));

    assert!(!control.on_toggle(false));
    assert!(!control.is_generating());
}

#[test]
fn test_generator_control_loop_exit_and_restart() {
    let mut control = GeneratorControl::new();
    assert!(control.on_toggle(true));
    assert!(control.on_tick_check());

    control.on_toggle(false);
    assert!(!control.on_tick_check());

    assert!(control.on_toggle(true));
    assert!(control.on_tick_check());
}
