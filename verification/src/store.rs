//! The product store: the authoritative collection of products. Ids are
//! unique at all times; creation assigns one past the largest existing id
//! (1 for an empty store); reads hand out independent copies, never
//! references into the collection.

use vstd::prelude::*;
use crate::models::CreateProductRequest;
use crate::models::Product;

verus! {

/// The requested product id is absent from the store.
#[derive(Clone, Copy, Debug, PartialEq, Eq, Structural)]
pub struct NotFound;

/// All ids in the sequence are distinct.
pub open spec fn unique_ids(s: Seq<Product>) -> bool {
    forall|i: int, j: int| 0 <= i < j < s.len() ==> s[i].id != s[j].id
}

/// Some product in `s` carries `id`.
pub open spec fn has_id(s: Seq<Product>, id: i64) -> bool {
    exists|i: int| 0 <= i < s.len() && s[i].id == id
}

/// The index of the product carrying `id` (meaningful when `has_id`).
pub open spec fn index_of_id(s: Seq<Product>, id: i64) -> int {
    choose|i: int| 0 <= i < s.len() && s[i].id == id
}

/// What a lookup by id returns: the product carrying `id`, if any.
pub open spec fn spec_get(s: Seq<Product>, id: i64) -> Option<Product> {
    if has_id(s, id) {
        Option::Some(s[index_of_id(s, id)])
    } else {
        Option::None
    }
}

/// The largest id in the collection, or 0 when it is empty.
pub open spec fn max_id(s: Seq<Product>) -> int
    decreases s.len(),
{
    if s.len() == 0 {
        0
    } else {
        let rest = max_id(s.drop_last());
        if s.last().id > rest {
            s.last().id as int
        } else {
            rest
        }
    }
}

/// The id assigned to the next created product.
pub open spec fn next_id(s: Seq<Product>) -> int {
    max_id(s) + 1
}

/// The product a create request yields under the given id.
pub open spec fn product_of_request(req: CreateProductRequest, id: i64) -> Product {
    Product {
        id,
        name: req.name,
        price: req.price,
        image: req.image,
        description: req.description,
        category: Option::Some(req.category),
    }
}

/// The payload with its id replaced.
pub open spec fn with_id(p: Product, id: i64) -> Product {
    Product { id, ..p }
}

/// The maximum id never sinks below its base of 0.
pub proof fn lemma_max_id_nonneg(s: Seq<Product>)
    ensures
        max_id(s) >= 0,
    decreases s.len(),
{
    if s.len() > 0 {
        lemma_max_id_nonneg(s.drop_last());
    }
}

/// No id exceeds the maximum.
pub proof fn lemma_max_id_ge_all(s: Seq<Product>)
    ensures
        forall|i: int| 0 <= i < s.len() ==> s[i].id <= max_id(s),
    decreases s.len(),
{
    if s.len() > 0 {
        lemma_max_id_ge_all(s.drop_last());
        assert forall|i: int| 0 <= i < s.len() implies s[i].id <= max_id(s) by {
            if i < s.len() - 1 {
                assert(s.drop_last()[i] == s[i]);
            }
        }
    }
}

/// With unique ids, the index found for `id` is the only one.
proof fn lemma_index_of_unique(s: Seq<Product>, id: i64, i: int)
    requires
        unique_ids(s),
        0 <= i < s.len(),
        s[i].id == id,
    ensures
        has_id(s, id),
        index_of_id(s, id) == i,
{
    assert(has_id(s, id));
    let j = index_of_id(s, id);
    assert(0 <= j < s.len() && s[j].id == id);
}

/// The store. The collection is reachable only through the methods
/// below, which keep ids unique.
pub struct ProductStore {
    products: Vec<Product>,
}

impl View for ProductStore {
    type V = Seq<Product>;

    closed spec fn view(&self) -> Seq<Product> {
        self.products@
    }
}

impl ProductStore {
    #[verifier::type_invariant]
    spec fn wf(&self) -> bool {
        unique_ids(self.products@)
    }

    /// An empty store.
    pub fn new() -> (s: Self)
        ensures
            s@ == Seq::<Product>::empty(),
    {
        ProductStore { products: Vec::new() }
    }

    /// Ids are unique in every store a caller can hold.
    pub fn ids_unique(&self)
        ensures
            unique_ids(self@),
    {
        proof {
            use_type_invariant(self);
        }
    }

    /// A full, independent copy of the current collection. Never fails.
    pub fn list(&self) -> (r: Vec<Product>)
        ensures
            r@ == self@,
    {
        crate::models::clone_products(&self.products)
    }

    /// The index holding `id`, scanning from the front.
    fn find_index(&self, id: i64) -> (r: Option<usize>)
        ensures
            match r {
                Option::Some(i) => i < self@.len() && self@[i as int].id == id,
                Option::None => !has_id(self@, id),
            },
    {
        let mut i: usize = 0;
        while i < self.products.len()
            invariant
                0 <= i <= self@.len(),
                forall|k: int| 0 <= k < i ==> self@[k].id != id,
            decreases self@.len() - i,
        {
            if self.products[i].id == id {
                return Option::Some(i);
            }
            i = i + 1;
        }
        Option::None
    }

    /// A copy of the product carrying `id`, or nothing when the id is
    /// absent.
    pub fn get(&self, id: i64) -> (r: Option<Product>)
        ensures
            r == spec_get(self@, id),
    {
        proof {
            use_type_invariant(self);
        }
        match self.find_index(id) {
            Option::Some(i) => {
                proof {
                    lemma_index_of_unique(self@, id, i as int);
                }
                Option::Some(self.products[i].clone())
            },
            Option::None => Option::None,
        }
    }

    /// The largest id currently in the store (0 when empty).
    pub fn current_max_id(&self) -> (m: i64)
        ensures
            m == max_id(self@),
    {
        let mut m: i64 = 0;
        let mut i: usize = 0;
        while i < self.products.len()
            invariant
                0 <= i <= self@.len(),
                m == max_id(self@.subrange(0, i as int)),
            decreases self@.len() - i,
        {
            proof {
                let step = self@.subrange(0, i + 1);
                assert(step.drop_last() =~= self@.subrange(0, i as int));
                assert(step.last() == self@[i as int]);
            }
            if self.products[i].id > m {
                m = self.products[i].id;
            }
            i = i + 1;
        }
        proof {
            assert(self@.subrange(0, self@.len() as int) =~= self@);
        }
        m
    }

    /// Appends a product built from the request under the next id and
    /// returns the stored copy. Field constraints are the caller's
    /// business (a separate validation step); the id is the store's.
    pub fn create(&mut self, req: CreateProductRequest) -> (p: Product)
        requires
            next_id(old(self)@) <= i64::MAX,
        ensures
            p == product_of_request(req, p.id),
            p.id == next_id(old(self)@),
            final(self)@ == old(self)@.push(p),
    {
        proof {
            use_type_invariant(&*self);
        }
        let m = self.current_max_id();
        let id = m + 1;
        let p = Product {
            id,
            name: req.name,
            price: req.price,
            image: req.image,
            description: req.description,
            category: Option::Some(req.category),
        };
        let stored = p.clone();
        proof {
            lemma_max_id_ge_all(self.products@);
        }
        let mut products: Vec<Product> = Vec::new();
        std::mem::swap(&mut products, &mut self.products);
        products.push(p);
        self.products = products;
        stored
    }

    /// Replaces every field except the id of the product carrying `id`;
    /// the payload's own id is ignored in favor of `id`. Returns the
    /// stored copy, or reports the id absent and changes nothing.
    pub fn update(&mut self, id: i64, payload: Product) -> (r: Result<Product, NotFound>)
        ensures
            match r {
                Result::Ok(p) => {
                    &&& has_id(old(self)@, id)
                    &&& p == with_id(payload, id)
                    &&& final(self)@ == old(self)@.update(index_of_id(old(self)@, id), p)
                },
                Result::Err(_) => {
                    &&& !has_id(old(self)@, id)
                    &&& final(self)@ == old(self)@
                },
            },
    {
        proof {
            use_type_invariant(&*self);
        }
        match self.find_index(id) {
            Option::Some(i) => {
                proof {
                    lemma_index_of_unique(self@, id, i as int);
                }
                let stored = Product {
                    id,
                    name: payload.name,
                    price: payload.price,
                    image: payload.image,
                    description: payload.description,
                    category: payload.category,
                };
                let copy = stored.clone();
                let mut products: Vec<Product> = Vec::new();
                std::mem::swap(&mut products, &mut self.products);
                products.set(i, stored);
                proof {
                    assert forall|a: int, b: int|
                        0 <= a < b < products@.len() implies products@[a].id != products@[b].id by {
                        assert(products@[a].id == old(self)@[a].id || a == i as int);
                        assert(products@[b].id == old(self)@[b].id || b == i as int);
                    }
                }
                self.products = products;
                Result::Ok(copy)
            },
            Option::None => Result::Err(NotFound),
        }
    }

    /// Removes the product carrying `id`, keeping the order of the rest,
    /// or reports the id absent and changes nothing.
    pub fn delete(&mut self, id: i64) -> (r: Result<(), NotFound>)
        ensures
            match r {
                Result::Ok(_) => {
                    &&& has_id(old(self)@, id)
                    &&& final(self)@ == old(self)@.remove(index_of_id(old(self)@, id))
                },
                Result::Err(_) => {
                    &&& !has_id(old(self)@, id)
                    &&& final(self)@ == old(self)@
                },
            },
    {
        proof {
            use_type_invariant(&*self);
        }
        match self.find_index(id) {
            Option::Some(i) => {
                proof {
                    lemma_index_of_unique(self@, id, i as int);
                }
                let mut products: Vec<Product> = Vec::new();
                std::mem::swap(&mut products, &mut self.products);
                products.remove(i);
                proof {
                    assert forall|a: int, b: int|
                        0 <= a < b < products@.len() implies products@[a].id != products@[b].id by {
                        let s = old(self)@;
                        assert(products@[a] == if a < i as int {
                            s[a]
                        } else {
                            s[a + 1]
                        });
                        assert(products@[b] == if b < i as int {
                            s[b]
                        } else {
                            s[b + 1]
                        });
                    }
                }
                self.products = products;
                Result::Ok(())
            },
            Option::None => Result::Err(NotFound),
        }
    }
}

/// Listing twice with no intervening mutation yields equal collections.
pub proof fn lemma_list_idempotent(s: ProductStore, r1: Vec<Product>, r2: Vec<Product>)
    requires
        call_ensures(ProductStore::list, (&s,), r1),
        call_ensures(ProductStore::list, (&s,), r2),
    ensures
        r1@ == r2@,
{
}

/// A created product is found again under the id it came back with,
/// equal to what was created: the store after a create is the old
/// collection with the new product appended, and a lookup of its id
/// yields exactly that product.
pub proof fn lemma_create_then_get(s: Seq<Product>, req: CreateProductRequest, p: Product)
    requires
        unique_ids(s),
        p == product_of_request(req, p.id),
        p.id == next_id(s),
    ensures
        spec_get(s.push(p), p.id) == Option::Some(p),
{
    lemma_max_id_ge_all(s);
    let t = s.push(p);
    assert forall|a: int, b: int| 0 <= a < b < t.len() implies t[a].id != t[b].id by {
        if b == s.len() as int {
            assert(t[a].id <= max_id(s));
        }
    }
    lemma_index_of_unique(t, p.id, s.len() as int);
}

/// An update stores the payload under the id in the path, not the id
/// the payload claims: a lookup of the path id afterwards yields the
/// payload carrying the path id.
pub proof fn lemma_update_stores_path_id(s: Seq<Product>, id: i64, payload: Product)
    requires
        unique_ids(s),
        has_id(s, id),
    ensures
        spec_get(s.update(index_of_id(s, id), with_id(payload, id)), id) == Option::Some(
            with_id(payload, id),
        ),
{
    let i = index_of_id(s, id);
    assert(0 <= i < s.len() && s[i].id == id);
    let t = s.update(i, with_id(payload, id));
    assert forall|a: int, b: int| 0 <= a < b < t.len() implies t[a].id != t[b].id by {
        assert(t[a].id == s[a].id);
        assert(t[b].id == s[b].id);
    }
    lemma_index_of_unique(t, id, i);
}

/// After a delete, a lookup of the deleted id finds nothing.
pub proof fn lemma_delete_then_get(s: Seq<Product>, id: i64)
    requires
        unique_ids(s),
        has_id(s, id),
    ensures
        spec_get(s.remove(index_of_id(s, id)), id) == Option::<Product>::None,
{
    let i = index_of_id(s, id);
    assert(0 <= i < s.len() && s[i].id == id);
    let t = s.remove(i);
    s.remove_ensures(i);
    assert forall|k: int| 0 <= k < t.len() implies t[k].id != id by {
        if k < i {
            assert(t[k] == s[k]);
        } else {
            assert(t[k] == s[k + 1]);
        }
    }
}

} // verus!
