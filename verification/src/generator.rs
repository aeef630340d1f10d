//! Background product generation and the read-time price jitter. A
//! generated product draws a random category and price; its name,
//! description and image path are derived deterministically from its id.
//! The generation switch is a small state machine that never lets two
//! generator loops run at once: enabling while a loop already runs is
//! ignored.

use vstd::prelude::*;
use vstd::string::StringExecFns;
use rand::Rng;
use crate::hub::push_drop;
use crate::hub::LiveUpdateHub;
use crate::models::CreateProductRequest;
use crate::models::Product;
use crate::store::next_id;
use crate::store::product_of_request;
use crate::store::ProductStore;
use crate::text::dec_str;
use crate::text::push_dec;

verus! {

/// Relies on rand's `Rng::gen_range` over the half-open range
/// `lo..hi`: the draw lies in `[lo, hi)`. It panics only on an empty
/// range, which the precondition rules out.
#[verifier::external_body]
fn random_in_range(lo: u64, hi: u64) -> (r: u64)
    requires
        lo < hi,
    ensures
        lo <= r < hi,
{
    rand::thread_rng().gen_range(lo..hi)
}

/// The fixed category pool a generated product draws from.
pub open spec fn generated_category(k: int) -> Seq<char> {
    if k == 0 {
        "Electronics"@
    } else if k == 1 {
        "Books"@
    } else if k == 2 {
        "Clothing"@
    } else if k == 3 {
        "Home"@
    } else {
        "Toys"@
    }
}

/// The characters belong to the fixed category pool.
pub open spec fn is_generated_category(c: Seq<char>) -> bool {
    exists|k: int| 0 <= k < 5 && c == generated_category(k)
}

/// The category at index `k` of the fixed pool.
fn pick_category(k: u64) -> (r: String)
    requires
        k < 5,
    ensures
        r@ == generated_category(k as int),
{
    let s = if k == 0 {
        "Electronics"
    } else if k == 1 {
        "Books"
    } else if k == 2 {
        "Clothing"
    } else if k == 3 {
        "Home"
    } else {
        "Toys"
    };
    String::from_str(s)
}

/// The deterministic name of the generated product with this id.
pub open spec fn generated_name(id: int) -> Seq<char>
    recommends
        id >= 0,
{
    "Product-"@ + dec_str(id as nat)
}

/// The deterministic description of the generated product with this id.
pub open spec fn generated_description(id: int) -> Seq<char>
    recommends
        id >= 0,
{
    "This is a description for Product-"@ + dec_str(id as nat)
}

/// The deterministic image path of the generated product with this id.
pub open spec fn generated_image(id: int) -> Seq<char>
    recommends
        id >= 0,
{
    "/images/product-"@ + dec_str(id as nat) + ".jpg"@
}

/// The smallest price a generated product can carry, in cents.
pub const GENERATED_PRICE_MIN: i64 = 1000;

/// One past the largest price a generated product can carry, in cents.
pub const GENERATED_PRICE_MAX: i64 = 50000;

fn generated_name_exec(id: u64) -> (r: String)
    ensures
        r@ == generated_name(id as int),
{
    let mut s = String::from_str("Product-");
    push_dec(&mut s, id);
    s
}

fn generated_description_exec(id: u64) -> (r: String)
    ensures
        r@ == generated_description(id as int),
{
    let mut s = String::from_str("This is a description for Product-");
    push_dec(&mut s, id);
    s
}

fn generated_image_exec(id: u64) -> (r: String)
    ensures
        r@ == generated_image(id as int),
{
    let mut s = String::from_str("/images/product-");
    push_dec(&mut s, id);
    s.append(".jpg");
    proof {
        assert(("/images/product-"@ + dec_str(id as nat)) + ".jpg"@ =~= "/images/product-"@
            + dec_str(id as nat) + ".jpg"@);
    }
    s
}

/// The request fields hold for a freshly generated product under `id`:
/// derived name, description and image, a pooled category, a price in
/// the generated range.
pub open spec fn generated_request(req: CreateProductRequest, id: int) -> bool {
    &&& req.name@ == generated_name(id)
    &&& req.price >= GENERATED_PRICE_MIN
    &&& req.price < GENERATED_PRICE_MAX
    &&& match req.image {
        Option::Some(img) => img@ == generated_image(id),
        Option::None => false,
    }
    &&& match req.description {
        Option::Some(d) => d@ == generated_description(id),
        Option::None => false,
    }
    &&& is_generated_category(req.category@)
}

/// Synthesizes the create request for a generated product: random pooled
/// category, random price in the generated range, everything else
/// derived from `id`.
pub fn generate_random_request(id: u64) -> (req: CreateProductRequest)
    ensures
        generated_request(req, id as int),
{
    let k = random_in_range(0, 5);
    let category = pick_category(k);
    proof {
        assert(category@ == generated_category(k as int));
    }
    let price = random_in_range(GENERATED_PRICE_MIN as u64, GENERATED_PRICE_MAX as u64);
    CreateProductRequest {
        name: generated_name_exec(id),
        price: price as i64,
        image: Option::Some(generated_image_exec(id)),
        description: Option::Some(generated_description_exec(id)),
        category,
    }
}

/// Synthesizes one whole generated product under the given id.
pub fn generate_random_product(id: i64) -> (p: Product)
    requires
        id >= 0,
    ensures
        p.id == id,
        p.name@ == generated_name(id as int),
        match p.category {
            Option::Some(c) => is_generated_category(c@),
            Option::None => false,
        },
        GENERATED_PRICE_MIN <= p.price < GENERATED_PRICE_MAX,
        match p.image {
            Option::Some(img) => img@ == generated_image(id as int),
            Option::None => false,
        },
        match p.description {
            Option::Some(d) => d@ == generated_description(id as int),
            Option::None => false,
        },
{
    let req = generate_random_request(id as u64);
    Product {
        id,
        name: req.name,
        price: req.price,
        image: req.image,
        description: req.description,
        category: Option::Some(req.category),
    }
}

/// One generator tick: a generated product is appended to the store
/// under the store's next id and the stored copy is published to every
/// subscriber's queue.
pub fn generate_and_publish(store: &mut ProductStore, hub: &mut LiveUpdateHub) -> (p: Product)
    requires
        next_id(old(store)@) <= i64::MAX,
    ensures
        p.id == next_id(old(store)@),
        final(store)@ == old(store)@.push(p),
        p == product_of_request(
            CreateProductRequest {
                name: p.name,
                price: p.price,
                image: p.image,
                description: p.description,
                category: p.category->Some_0,
            },
            p.id,
        ),
        p.name@ == generated_name(p.id as int),
        match p.category {
            Option::Some(c) => is_generated_category(c@),
            Option::None => false,
        },
        GENERATED_PRICE_MIN <= p.price < GENERATED_PRICE_MAX,
        final(hub)@.len() == old(hub)@.len(),
        forall|i: int|
            0 <= i < old(hub)@.len() ==> final(hub)@[i] == ((#[trigger] old(hub)@[i]).0, push_drop(
                old(hub)@[i].1,
                p,
                old(hub).spec_capacity(),
            )),
        final(hub).spec_capacity() == old(hub).spec_capacity(),
        final(hub).handles_spent() == old(hub).handles_spent(),
{
    let m = store.current_max_id();
    proof {
        crate::store::lemma_max_id_nonneg(old(store)@);
    }
    let req = generate_random_request((m + 1) as u64);
    let p = store.create(req);
    hub.publish(&p);
    p
}

/// The jittered price: `price` scaled by `(1000 + j)` per-mille,
/// rounded toward zero.
pub open spec fn jittered(price: int, j: int) -> int {
    price * (1000 + j) / 1000
}

/// Scales a price by a per-mille jitter factor.
pub fn apply_jitter(price: i64, j: i64) -> (r: i64)
    requires
        0 <= price <= 1_000_000_000,
        -50 <= j <= 50,
    ensures
        r == jittered(price as int, j as int),
{
    proof {
        assert(price * (1000 + j) <= 1_000_000_000 * 1050 && price * (1000 + j) >= 0)
            by (nonlinear_arith)
            requires
                0 <= price <= 1_000_000_000,
                -50 <= j <= 50,
        ;
    }
    price * (1000 + j) / 1000
}

/// A read-time presentation jitter of at most ±5%: the result is the
/// price scaled by some random per-mille factor in `[-50, 50]`. The
/// stored price is untouched, so repeated reads of one product may
/// differ.
pub fn simulate_price_change(price: i64) -> (r: i64)
    requires
        0 <= price <= 1_000_000_000,
    ensures
        exists|j: int| -50 <= j <= 50 && r == jittered(price as int, j),
        r >= 0,
{
    let d = random_in_range(0, 101);
    let j = (d as i64) - 50;
    let r = apply_jitter(price, j);
    proof {
        assert(-50 <= j as int <= 50 && r == jittered(price as int, j as int));
        assert(price * (1000 + j) >= 0) by (nonlinear_arith)
            requires
                0 <= price,
                -50 <= j <= 50,
        ;
    }
    r
}

/// The generation switch. `enabled` is what clients asked for;
/// `running` tracks whether a generator loop is alive. Asking to enable
/// while a loop already runs spawns no second loop.
pub struct GeneratorControl {
    enabled: bool,
    running: bool,
}

impl GeneratorControl {
    /// Whether generation is currently requested.
    pub closed spec fn spec_enabled(&self) -> bool {
        self.enabled
    }

    /// Whether a generator loop is currently alive.
    pub closed spec fn spec_running(&self) -> bool {
        self.running
    }

    /// A fresh switch: disabled, no loop running.
    pub fn new() -> (c: Self)
        ensures
            !c.spec_enabled(),
            !c.spec_running(),
    {
        GeneratorControl { enabled: false, running: false }
    }

    /// Handles a toggle request and says whether the caller must start
    /// a generator loop: exactly when turning on while none runs.
    /// Turning on while one runs changes nothing but the flag; turning
    /// off lets the running loop exit at its next check.
    pub fn on_toggle(&mut self, desired: bool) -> (spawn: bool)
        ensures
            final(self).spec_enabled() == desired,
            spawn == (desired && !old(self).spec_running()),
            final(self).spec_running() == (old(self).spec_running() || desired),
    {
        let spawn = desired && !self.running;
        self.enabled = desired;
        if desired {
            self.running = true;
        }
        spawn
    }

    /// The check at the top of each loop iteration: whether to run one
    /// more tick. When generation was switched off, the loop exits here
    /// and is no longer running — cancellation is cooperative, never
    /// preemptive.
    pub fn on_tick_check(&mut self) -> (go: bool)
        ensures
            go == old(self).spec_enabled(),
            final(self).spec_enabled() == old(self).spec_enabled(),
            final(self).spec_running() == (old(self).spec_running() && old(self).spec_enabled()),
    {
        if !self.enabled {
            self.running = false;
            false
        } else {
            true
        }
    }

    /// Whether generation is currently requested.
    pub fn is_generating(&self) -> (b: bool)
        ensures
            b == self.spec_enabled(),
    {
        self.enabled
    }
}

} // verus!
