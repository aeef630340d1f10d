use product_catalog::models::CreateProductRequest;
use product_catalog::models::Product;
use product_catalog::store::ProductStore;

fn request(name: &str, price: i64, category: &str) -> CreateProductRequest {
    CreateProductRequest {
        name: name.to_string(),
        price,
        image: Some("/test.jpg".to_string()),
        description: Some("Test Description".to_string()),
        category: category.to_string(),
    }
}

#[test]
fn test_create_product() {
    let mut store = ProductStore::new();
    let created = store.create(request("Test Product", 9999, "Test"));
    assert_eq!(created.id, 1);
    assert_eq!(created.name, "Test Product");
    assert_eq!(created.price, 9999);
    assert_eq!(created.image.as_deref(), Some("/test.jpg"));
    assert_eq!(created.description.as_deref(), Some("Test Description"));
    assert_eq!(created.category.as_deref(), Some("Test"));

    let products = store.list();
    assert_eq!(products.len(), 1);
    assert_eq!(products[0], created);
}

#[test]
fn test_get_product() {
    let mut store = ProductStore::new();
    let created = store.create(request("Test", 10000, "Test"));

    let found = store.get(created.id);
    assert_eq!(found, Some(created));

    let missing = store.get(999);
    assert_eq!(missing, None);
}

#[test]
fn test_update_product() {
    let mut store = ProductStore::new();
    let created = store.create(request("Original", 10000, "Test"));
    assert_eq!(created.id, 1);

    let payload = Product {
        id: 1,
        name: "Updated".to_string(),
        price: 20000,
        image: Some("/test.jpg".to_string()),
        description: Some("Updated".to_string()),
        category: Some("Test".to_string()),
    };
    let updated = store.update(1, payload).expect("id 1 is present");
    assert_eq!(updated.id, 1);
    assert_eq!(updated.name, "Updated");
    assert_eq!(updated.price, 20000);

    let fetched = store.get(1).expect("id 1 is present");
    assert_eq!(fetched, updated);

    assert!(store.update(999, fetched).is_err());
}

#[test]
fn test_delete_product() {
    let mut store = ProductStore::new();
    let created = store.create(request("Test", 10000, "Test"));

    assert!(store.delete(created.id).is_ok());
    assert!(store.list().is_empty());
    assert!(store.delete(created.id).is_err());
}

#[test]
fn test_list_returns_equal_snapshots() {
    let mut store = ProductStore::new();
    store.create(request("One", 100, "A"));
    store.create(request("Two", 200, "B"));

    let first = store.list();
    let second = store.list();
    assert_eq!(first, second);
}

#[test]
fn test_list_snapshot_is_independent() {
    let mut store = ProductStore::new();
    store.create(request("One", 100, "A"));

    let mut snapshot = store.list();
    snapshot.clear();
    assert_eq!(store.list().len(), 1);
}

#[test]
fn test_create_assigns_max_plus_one() {
    let mut store = ProductStore::new();
    let a = store.create(request("A", 100, "X"));
    let b = store.create(request("B", 200, "X"));
    let c = store.create(request("C", 300, "X"));
    assert_eq!((a.id, b.id, c.id), (1, 2, 3));

    store.delete(b.id).expect("b is present");
    let d = store.create(request("D", 400, "X"));
    assert_eq!(d.id, 4);

    store.delete(d.id).expect("d is present");
    store.delete(c.id).expect("c is present");
    let e = store.create(request("E", 500, "X"));
    assert_eq!(e.id, 2);
}

#[test]
fn test_create_then_get_round_trip() {
    let mut store = ProductStore::new();
    store.create(request("Other", 100, "X"));
    let created = store.create(request("Wanted", 4200, "Y"));

    let found = store.get(created.id).expect("created id is present");
    assert_eq!(found, created);
}

#[test]
fn test_update_stores_under_path_id() {
    let mut store = ProductStore::new();
    let created = store.create(request("Original", 10000, "Test"));
    assert_eq!(created.id, 1);

    let payload = Product {
        id: 777,
        name: "Renamed".to_string(),
        price: 1,
        image: None,
        description: None,
        category: None,
    };
    let stored = store.update(1, payload).expect("id 1 is present");
    assert_eq!(stored.id, 1);
    assert_eq!(stored.name, "Renamed");

    assert_eq!(store.get(777), None);
    let fetched = store.get(1).expect("id 1 is present");
    assert_eq!(fetched.name, "Renamed");
}

#[test]
fn test_delete_then_get_is_not_found() {
    let mut store = ProductStore::new();
    let keep = store.create(request("Keep", 100, "X"));
    let gone = store.create(request("Gone", 200, "X"));

    store.delete(gone.id).expect("gone is present");
    assert_eq!(store.get(gone.id), None);
    assert_eq!(store.get(keep.id), Some(keep));
}

#[test]
fn test_delete_keeps_order_of_rest() {
    let mut store = ProductStore::new();
    store.create(request("A", 100, "X"));
    let b = store.create(request("B", 200, "X"));
    store.create(request("C", 300, "X"));

    store.delete(b.id).expect("b is present");
    let ids: Vec<i64> = store.list().iter().map(|p| p.id).collect();
    assert_eq!(ids, vec![1, 3]);
}
