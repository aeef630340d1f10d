use vstd::prelude::*;

verus! {

/// One catalog entry. `id` is unique across the live collection and fixed
/// once assigned. `price` is in cents.
#[derive(Debug)]
pub struct Product {
    pub id: i64,
    pub name: String,
    pub price: i64,
    pub image: Option<String>,
    pub description: Option<String>,
    pub category: Option<String>,
}

/// The fields a client supplies when creating a product; the store picks
/// the id. `category` is required here and stored as `Some(category)`.
#[derive(Debug)]
pub struct CreateProductRequest {
    pub name: String,
    pub price: i64,
    pub image: Option<String>,
    pub description: Option<String>,
    pub category: String,
}

/// A read-only filter/sort/page specification for listing products.
#[derive(Debug)]
pub struct ProductQuery {
    pub category: Option<String>,
    pub min_price: Option<i64>,
    pub max_price: Option<i64>,
    pub search_term: Option<String>,
    pub sort_by: Option<String>,
    pub sort_order: Option<String>,
    pub offset: Option<usize>,
    pub limit: Option<usize>,
}

/// Observable equality of two optional strings: same variant, and for
/// `Some` the same character sequences.
pub open spec fn opt_str_eq(a: Option<String>, b: Option<String>) -> bool {
    match (a, b) {
        (Option::Some(x), Option::Some(y)) => x@ == y@,
        (Option::None, Option::None) => true,
        _ => false,
    }
}

/// Observable equality of two products: equal ids, prices, and character
/// sequences of every text field.
pub open spec fn product_obs_eq(a: Product, b: Product) -> bool {
    &&& a.id == b.id
    &&& a.name@ == b.name@
    &&& a.price == b.price
    &&& opt_str_eq(a.image, b.image)
    &&& opt_str_eq(a.description, b.description)
    &&& opt_str_eq(a.category, b.category)
}

fn clone_opt_string(s: &Option<String>) -> (r: Option<String>)
    ensures
        r == *s,
{
    match s {
        Option::Some(x) => Option::Some(x.clone()),
        Option::None => Option::None,
    }
}

fn opt_string_eq(a: &Option<String>, b: &Option<String>) -> (r: bool)
    ensures
        r == opt_str_eq(*a, *b),
{
    match (a, b) {
        (Option::Some(x), Option::Some(y)) => x.eq(y),
        (Option::None, Option::None) => true,
        _ => false,
    }
}

impl Clone for Product {
    fn clone(&self) -> (r: Self)
        ensures
            r == *self,
    {
        Product {
            id: self.id,
            name: self.name.clone(),
            price: self.price,
            image: clone_opt_string(&self.image),
            description: clone_opt_string(&self.description),
            category: clone_opt_string(&self.category),
        }
    }
}

impl PartialEq for Product {
    fn eq(&self, other: &Self) -> (r: bool) {
        self.id == other.id && self.name.eq(&other.name) && self.price == other.price
            && opt_string_eq(&self.image, &other.image)
            && opt_string_eq(&self.description, &other.description)
            && opt_string_eq(&self.category, &other.category)
    }
}

impl vstd::std_specs::cmp::PartialEqSpecImpl for Product {
    open spec fn obeys_eq_spec() -> bool {
        true
    }

    open spec fn eq_spec(&self, other: &Self) -> bool {
        product_obs_eq(*self, *other)
    }
}

/// An independent, element-wise equal copy of a product list.
pub fn clone_products(v: &Vec<Product>) -> (r: Vec<Product>)
    ensures
        r@ == v@,
{
    let r = v.clone();
    proof {
        assert forall|i: int| 0 <= i < r@.len() implies r@[i] == v@[i] by {
            assert(cloned::<Product>(v@[i], r@[i]));
        }
        assert(r@ =~= v@);
    }
    r
}

impl Clone for CreateProductRequest {
    fn clone(&self) -> (r: Self)
        ensures
            r == *self,
    {
        CreateProductRequest {
            name: self.name.clone(),
            price: self.price,
            image: clone_opt_string(&self.image),
            description: clone_opt_string(&self.description),
            category: self.category.clone(),
        }
    }
}

} // verus!
