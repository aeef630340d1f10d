use product_catalog::models::Product;
use product_catalog::models::ProductQuery;
use product_catalog::query::apply;
use product_catalog::query::filter_and_sort_products;
use product_catalog::query::filter_products;
use product_catalog::query::paginate;

fn product(id: i64, name: &str, price: i64, category: &str) -> Product {
    Product {
        id,
        name: name.to_string(),
        price,
        image: Some(format!("/images/product-{}.jpg", id)),
        description: Some(format!("A description of {}", name)),
        category: Some(category.to_string()),
    }
}

fn mock_products() -> Vec<Product> {
    vec![
        product(1, "Nike Air", 12000, "Shoes"),
        product(2, "Book A", 1500, "Books"),
        product(3, "Nike Pegasus", 15000, "Shoes"),
        product(4, "Desk Lamp", 4500, "Home"),
        product(5, "Nike Cap", 2500, "Clothing"),
    ]
}

fn empty_query() -> ProductQuery {
    ProductQuery {
        category: None,
        min_price: None,
        max_price: None,
        search_term: None,
        sort_by: None,
        sort_order: None,
        offset: None,
        limit: None,
    }
}

#[test]
fn test_filter_and_sort_products() {
    let products = mock_products();

    let query = ProductQuery { category: Some("Shoes".to_string()), ..empty_query() };
    let filtered = filter_and_sort_products(&products, &query);
    assert!(filtered.iter().all(|p| p.category.as_deref() == Some("Shoes")));
    assert_eq!(filtered.len(), 2);

    let query = ProductQuery {
        min_price: Some(10000),
        max_price: Some(20000),
        ..empty_query()
    };
    let filtered = filter_and_sort_products(&products, &query);
    assert!(filtered.iter().all(|p| p.price >= 10000 && p.price <= 20000));
    assert_eq!(filtered.len(), 2);

    let query = ProductQuery { search_term: Some("Nike".to_string()), ..empty_query() };
    let filtered = filter_and_sort_products(&products, &query);
    assert!(filtered.iter().all(|p| p.name.contains("Nike")));
    assert_eq!(filtered.len(), 3);

    let query = ProductQuery {
        sort_by: Some("price".to_string()),
        sort_order: Some("asc".to_string()),
        ..empty_query()
    };
    let sorted = filter_and_sort_products(&products, &query);
    assert!(sorted.windows(2).all(|w| w[0].price <= w[1].price));
    assert_eq!(sorted.len(), products.len());
}

#[test]
fn test_category_filter_exact_match() {
    let products = mock_products();
    let query = ProductQuery { category: Some("Books".to_string()), ..empty_query() };
    let r = apply(&products, &query);
    assert_eq!(r.len(), 1);
    assert_eq!(r[0].id, 2);
}

#[test]
fn test_price_bounds_inclusive() {
    let products = mock_products();
    let query = ProductQuery {
        min_price: Some(1500),
        max_price: Some(4500),
        ..empty_query()
    };
    let r = apply(&products, &query);
    assert!(r.iter().all(|p| p.price >= 1500 && p.price <= 4500));
    assert_eq!(r.len(), 3);
}

#[test]
fn test_search_is_case_insensitive() {
    let products = mock_products();
    let query = ProductQuery { search_term: Some("NIKE".to_string()), ..empty_query() };
    let r = apply(&products, &query);
    assert_eq!(r.len(), 3);
    assert!(r.iter().all(|p| p.name.to_lowercase().contains("nike")));
}

#[test]
fn test_search_matches_description_and_category() {
    let mut products = mock_products();
    products.push(Product {
        id: 6,
        name: "Mystery Item".to_string(),
        price: 100,
        image: None,
        description: Some("mentions shoes somewhere".to_string()),
        category: None,
    });
    let query = ProductQuery { search_term: Some("shoes".to_string()), ..empty_query() };
    let r = apply(&products, &query);
    let ids: Vec<i64> = r.iter().map(|p| p.id).collect();
    assert_eq!(ids, vec![1, 3, 6]);
}

#[test]
fn test_absent_fields_do_not_match_search() {
    let products = vec![Product {
        id: 1,
        name: "Plain".to_string(),
        price: 100,
        image: None,
        description: None,
        category: None,
    }];
    let query = ProductQuery { search_term: Some("anything".to_string()), ..empty_query() };
    let r = apply(&products, &query);
    assert!(r.is_empty());
}

#[test]
fn test_sort_by_price_desc() {
    let products = mock_products();
    let query = ProductQuery {
        sort_by: Some("price".to_string()),
        sort_order: Some("desc".to_string()),
        ..empty_query()
    };
    let r = filter_and_sort_products(&products, &query);
    assert!(r.windows(2).all(|w| w[0].price >= w[1].price));
    assert_eq!(r[0].id, 3);
    assert_eq!(r[4].id, 2);
}

#[test]
fn test_sort_by_name_asc() {
    let products = mock_products();
    let query = ProductQuery { sort_by: Some("name".to_string()), ..empty_query() };
    let r = filter_and_sort_products(&products, &query);
    let names: Vec<&str> = r.iter().map(|p| p.name.as_str()).collect();
    assert_eq!(names, vec!["Book A", "Desk Lamp", "Nike Air", "Nike Cap", "Nike Pegasus"]);
}

#[test]
fn test_sort_by_category_missing_sorts_first() {
    let products = vec![
        product(1, "A", 100, "Home"),
        Product {
            id: 2,
            name: "B".to_string(),
            price: 200,
            image: None,
            description: None,
            category: None,
        },
        product(3, "C", 300, "Books"),
    ];
    let query = ProductQuery { sort_by: Some("category".to_string()), ..empty_query() };
    let r = filter_and_sort_products(&products, &query);
    let ids: Vec<i64> = r.iter().map(|p| p.id).collect();
    assert_eq!(ids, vec![2, 3, 1]);
}

#[test]
fn test_unrecognized_sort_key_keeps_order() {
    let products = mock_products();
    let query = ProductQuery { sort_by: Some("popularity".to_string()), ..empty_query() };
    let r = filter_and_sort_products(&products, &query);
    let ids: Vec<i64> = r.iter().map(|p| p.id).collect();
    assert_eq!(ids, vec![1, 2, 3, 4, 5]);
}

#[test]
fn test_sort_is_stable_on_equal_prices() {
    let products = vec![
        product(1, "A", 500, "Home"),
        product(2, "B", 500, "Home"),
        product(3, "C", 100, "Home"),
        product(4, "D", 500, "Home"),
    ];
    let query = ProductQuery {
        sort_by: Some("price".to_string()),
        sort_order: Some("asc".to_string()),
        ..empty_query()
    };
    let r = filter_and_sort_products(&products, &query);
    let ids: Vec<i64> = r.iter().map(|p| p.id).collect();
    assert_eq!(ids, vec![3, 1, 2, 4]);
}

#[test]
fn test_pagination_window() {
    let products = mock_products();
    let r = paginate(&products, 1, 2);
    let ids: Vec<i64> = r.iter().map(|p| p.id).collect();
    assert_eq!(ids, vec![2, 3]);
}

#[test]
fn test_pagination_offset_past_end_is_empty() {
    let products = mock_products();
    let r = paginate(&products, 5, 2);
    assert!(r.is_empty());
    let r = paginate(&products, 100, 2);
    assert!(r.is_empty());
}

#[test]
fn test_pagination_clips_to_length() {
    let products = mock_products();
    let r = paginate(&products, 3, 10);
    let ids: Vec<i64> = r.iter().map(|p| p.id).collect();
    assert_eq!(ids, vec![4, 5]);
}

#[test]
fn test_pagination_length_formula() {
    let products = mock_products();
    for offset in 0..7usize {
        for limit in 0..7usize {
            let query = ProductQuery {
                offset: Some(offset),
                limit: Some(limit),
                ..empty_query()
            };
            let r = apply(&products, &query);
            let remaining = products.len().saturating_sub(offset);
            assert_eq!(r.len(), limit.min(remaining));
        }
    }
}

#[test]
fn test_default_limit_is_six() {
    let mut products = mock_products();
    for id in 6..=9 {
        products.push(product(id, "Filler", 100, "Home"));
    }
    let r = apply(&products, &empty_query());
    assert_eq!(r.len(), 6);
}

#[test]
fn test_pagination_applied_after_filter_and_sort() {
    let products = mock_products();
    let query = ProductQuery {
        category: Some("Shoes".to_string()),
        sort_by: Some("price".to_string()),
        sort_order: Some("desc".to_string()),
        offset: Some(1),
        limit: Some(1),
        ..empty_query()
    };
    let r = apply(&products, &query);
    assert_eq!(r.len(), 1);
    assert_eq!(r[0].id, 1);
}

#[test]
fn test_filter_products_keeps_order() {
    let products = mock_products();
    let query = ProductQuery { search_term: Some("nike".to_string()), ..empty_query() };
    let r = filter_products(&products, &query);
    let ids: Vec<i64> = r.iter().map(|p| p.id).collect();
    assert_eq!(ids, vec![1, 3, 5]);
}

#[test]
fn test_catalog_scenario() {
    let products = vec![
        product(1, "Nike Air", 12000, "Shoes"),
        product(2, "Book A", 1500, "Books"),
    ];

    let query = ProductQuery { search_term: Some("nike".to_string()), ..empty_query() };
    let r = apply(&products, &query);
    assert_eq!(r.len(), 1);
    assert_eq!(r[0].id, 1);

    let query = ProductQuery {
        sort_by: Some("price".to_string()),
        sort_order: Some("desc".to_string()),
        ..empty_query()
    };
    let r = apply(&products, &query);
    let ids: Vec<i64> = r.iter().map(|p| p.id).collect();
    assert_eq!(ids, vec![1, 2]);

    let query = ProductQuery { offset: Some(1), limit: Some(1), ..empty_query() };
    let r = apply(&products, &query);
    assert_eq!(r.len(), 1);
    assert_eq!(r[0].id, 2);
}
