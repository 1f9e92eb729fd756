//! Shamir's K-of-N secret sharing over the prime field.
//!
//! A secret is the constant term of a random polynomial of degree `K - 1`;
//! each of the `N` shares is the polynomial's value at one nonzero X
//! coordinate. Any `K` shares with distinct X coordinates determine the
//! polynomial, and so the secret, by Lagrange interpolation. The X
//! coordinates are chosen by the caller, so that several parties can share
//! values at the same points and add their shares together.
use crate::math::{field_add, field_div, field_mul, field_sub, p, views, FE};
use vstd::arithmetic::div_mod::*;
use vstd::arithmetic::mul::*;
use vstd::prelude::*;

verus! {

/// Largest number of shares that can be configured.
pub const MAX_SHARES: u32 = 1024;

/// The value at `x` of the polynomial whose coefficients are `poly`, from
/// the highest-order term down to the constant term (Horner's rule).
pub open spec fn poly_at(poly: Seq<int>, x: int) -> int
    decreases poly.len(),
{
    if poly.len() == 0 {
        0
    } else {
        field_add(field_mul(poly_at(poly.drop_last(), x), x), poly.last())
    }
}

/// The nonzero elements among the first `k` of `c`, in order.
pub open spec fn nonzero_prefix(c: Seq<FE>, k: int) -> Seq<FE>
    decreases k,
{
    if k <= 0 {
        Seq::empty()
    } else if c[k - 1]@ != 0 {
        nonzero_prefix(c, k - 1).push(c[k - 1])
    } else {
        nonzero_prefix(c, k - 1)
    }
}

/// A Params value describes how secrets are split: how many shares are
/// needed to recover a secret (K), how many are made (N), and the X
/// coordinate of each share.
pub struct Params {
    k: u32,
    n: u32,
    x_coordinates: Vec<FE>,
}

/// Collects the parts of a `Params`; `finalize` checks them.
pub struct ParamBuilder {
    p: Params,
}


/// One of the N shares of a secret.
#[derive(Clone, Copy, Debug)]
pub struct Share {
    /// The X coordinate of this share: nonzero, and distinct among shares.
    pub x: FE,
    /// The value of the sharing polynomial at `x`.
    pub y: FE,
}

impl Params {
    pub closed spec fn spec_k(&self) -> u32 {
        self.k
    }

    pub closed spec fn spec_n(&self) -> u32 {
        self.n
    }

    pub closed spec fn spec_x_coordinates(&self) -> Seq<FE> {
        self.x_coordinates@
    }

    /// A finished configuration: `1 <= K <= N <= MAX_SHARES`, exactly N
    /// nonzero X coordinates.
    pub open spec fn wf(&self) -> bool {
        &&& 1 <= self.spec_k() <= self.spec_n() <= MAX_SHARES
        &&& self.spec_x_coordinates().len() == self.spec_n()
        &&& forall|i: int|
            0 <= i < self.spec_x_coordinates().len() ==> #[trigger] self.spec_x_coordinates()[i]@
                != 0
    }

    /// How many random coefficients a sharing polynomial takes beside the
    /// secret: `K - 1`, and none when `K` is zero.
    pub open spec fn spec_coefficient_count(&self) -> nat {
        if self.spec_k() == 0 {
            0
        } else {
            (self.spec_k() - 1) as nat
        }
    }

    /// Number of shares needed to recover a secret.
    pub fn k(&self) -> (r: u32)
        ensures
            r == self.spec_k(),
    {
        self.k
    }

    /// Number of shares made of each secret.
    pub fn n(&self) -> (r: u32)
        ensures
            r == self.spec_n(),
    {
        self.n
    }

    /// Number of random coefficients that `share_secret` takes.
    pub fn coefficient_count(&self) -> (r: usize)
        ensures
            r == self.spec_coefficient_count(),
    {
        if self.k == 0 {
            0
        } else {
            (self.k - 1) as usize
        }
    }

    /// Splits `secret` with the polynomial whose coefficients are
    /// `coefficients` (highest order first) followed by `secret`: one share
    /// for each X coordinate, in order.
    ///
    /// The coefficients must be uniformly random field elements, or the
    /// shares reveal the secret.
    pub fn share_secret(&self, secret: FE, coefficients: &Vec<FE>) -> (r: Vec<Share>)
        requires
            coefficients@.len() == self.spec_coefficient_count(),
        ensures
            r@.len() == self.spec_x_coordinates().len(),
            forall|i: int|
                0 <= i < r@.len() ==> (#[trigger] r@[i]).x == self.spec_x_coordinates()[i]
                    && r@[i].y@ == poly_at(views(coefficients@.push(secret)), r@[i].x@),
    {
        let mut poly: Vec<FE> = Vec::new();
        let mut c: usize = 0;
        while c < coefficients.len()
            invariant
                c <= coefficients@.len(),
                poly@ == coefficients@.subrange(0, c as int),
            decreases coefficients@.len() - c,
        {
            poly.push(coefficients[c]);
            c = c + 1;
        }
        poly.push(secret);
        assert(poly@ == coefficients@.push(secret));

        let mut shares: Vec<Share> = Vec::new();
        let mut i: usize = 0;
        while i < self.x_coordinates.len()
            invariant
                i <= self.x_coordinates@.len(),
                poly@ == coefficients@.push(secret),
                shares@.len() == i,
                forall|j: int|
                    0 <= j < i ==> (#[trigger] shares@[j]).x == self.x_coordinates@[j]
                        && shares@[j].y@ == poly_at(views(poly@), shares@[j].x@),
            decreases self.x_coordinates@.len() - i,
        {
            let x = self.x_coordinates[i];
            let y = evaluate_poly_at(&poly, &x);
            shares.push(Share { x, y });
            i = i + 1;
        }
        shares
    }
}

/// The value at `x` of the polynomial with coefficients `poly`, highest
/// order first.
fn evaluate_poly_at(poly: &Vec<FE>, x: &FE) -> (r: FE)
    ensures
        r@ == poly_at(views(poly@), x@),
{
    let mut acc = FE::zero();
    let mut i: usize = 0;
    while i < poly.len()
        invariant
            i <= poly@.len(),
            acc@ == poly_at(views(poly@.subrange(0, i as int)), x@),
        decreases poly@.len() - i,
    {
        proof {
            let s = poly@.subrange(0, i as int + 1);
            assert(views(s).drop_last() == views(poly@.subrange(0, i as int)));
        }
        acc = acc * *x + poly[i];
        i = i + 1;
    }
    assert(poly@.subrange(0, poly@.len() as int) == poly@);
    acc
}

impl ParamBuilder {
    pub closed spec fn params(&self) -> Params {
        self.p
    }

    /// A builder as `new` makes it: `1 <= K <= N <= MAX_SHARES`.
    pub open spec fn wf(&self) -> bool {
        1 <= self.params().spec_k() <= self.params().spec_n() <= MAX_SHARES
    }

    /// A builder for K-of-N sharing, with no X coordinates yet. Fails when
    /// `k > n`, when `n > MAX_SHARES`, or when `k` is zero.
    pub fn new(k: u32, n: u32) -> (r: Result<ParamBuilder, &'static str>)
        ensures
            k > n ==> r == Err::<ParamBuilder, &'static str>("Invalid parameters: k > n."),
            k <= n && n > MAX_SHARES ==> r == Err::<ParamBuilder, &'static str>(
                "Invalid parameters: n > MAX_SHARES.",
            ),
            k <= n <= MAX_SHARES && k == 0 ==> r == Err::<ParamBuilder, &'static str>(
                "Invalid parameters: k == 0.",
            ),
            1 <= k <= n <= MAX_SHARES ==> (r matches Ok(b) && b.wf() && b.params().spec_k() == k
                && b.params().spec_n() == n && b.params().spec_x_coordinates().len() == 0),
    {
        if k > n {
            return Err("Invalid parameters: k > n.");
        }
        if n > MAX_SHARES {
            return Err("Invalid parameters: n > MAX_SHARES.");
        }
        if k == 0 {
            return Err("Invalid parameters: k == 0.");
        }
        Ok(ParamBuilder { p: Params { k, n, x_coordinates: Vec::new() } })
    }

    /// Adds one X coordinate, after those already present.
    ///
    /// Each party that shares values at a common set of points is given
    /// its own X coordinate this way.
    pub fn add_x_coordinate(&mut self, x: &FE)
        ensures
            final(self).params().spec_k() == old(self).params().spec_k(),
            final(self).params().spec_n() == old(self).params().spec_n(),
            final(self).params().spec_x_coordinates() == old(
                self,
            ).params().spec_x_coordinates().push(*x),
    {
        self.p.x_coordinates.push(*x);
    }

    /// Fills in the missing X coordinates from `candidates`, which should be
    /// uniformly random: takes them in order, skipping zeros, until there
    /// are N coordinates or the candidates run out. Returns how many
    /// candidates it consumed.
    pub fn fill_x_coordinates(&mut self, candidates: &[FE]) -> (used: usize)
        ensures
            final(self).params().spec_k() == old(self).params().spec_k(),
            final(self).params().spec_n() == old(self).params().spec_n(),
            used <= candidates@.len(),
            final(self).params().spec_x_coordinates() == old(self).params().spec_x_coordinates()
                + nonzero_prefix(candidates@, used as int),
            final(self).params().spec_x_coordinates().len() >= old(self).params().spec_n()
                || used == candidates@.len(),
            forall|k: int|
                0 <= k < used ==> old(self).params().spec_x_coordinates().len() + (
                #[trigger] nonzero_prefix(candidates@, k)).len() < old(self).params().spec_n(),
    {
        let ghost start = self.p.x_coordinates@;
        let mut used: usize = 0;
        while self.p.x_coordinates.len() < self.p.n as usize && used < candidates.len()
            invariant
                used <= candidates@.len(),
                self.p.k == old(self).p.k,
                self.p.n == old(self).p.n,
                start == old(self).p.x_coordinates@,
                self.p.x_coordinates@ == start + nonzero_prefix(candidates@, used as int),
                forall|k: int|
                    0 <= k < used ==> start.len() + (#[trigger] nonzero_prefix(candidates@, k)).len()
                        < self.p.n,
            decreases candidates@.len() - used,
        {
            let x = candidates[used];
            if !x.is_zero() {
                self.p.x_coordinates.push(x);
            }
            proof {
                assert(self.p.x_coordinates@ =~= start + nonzero_prefix(candidates@, used + 1));
            }
            used = used + 1;
        }
        used
    }

    /// Checks the collected parts: no X coordinate may be zero, and there
    /// must be exactly N of them.
    pub fn finalize(self) -> (r: Result<Params, &'static str>)
        requires
            self.wf(),
        ensures
            (exists|i: int|
                0 <= i < self.params().spec_x_coordinates().len()
                    && #[trigger] self.params().spec_x_coordinates()[i]@ == 0) ==> r == Err::<
                Params,
                &'static str,
            >("No X coordinate may be zero."),
            (forall|i: int|
                0 <= i < self.params().spec_x_coordinates().len()
                    ==> #[trigger] self.params().spec_x_coordinates()[i]@ != 0)
                && self.params().spec_x_coordinates().len() != self.params().spec_n() ==> r
                == Err::<Params, &'static str>("Length mismatch in finalize."),
            match r {
                Ok(p) => p == self.params() && p.wf(),
                Err(_) => (exists|i: int|
                    0 <= i < self.params().spec_x_coordinates().len()
                        && #[trigger] self.params().spec_x_coordinates()[i]@ == 0)
                    || self.params().spec_x_coordinates().len() != self.params().spec_n(),
            },
    {
        let mut i: usize = 0;
        while i < self.p.x_coordinates.len()
            invariant
                i <= self.p.x_coordinates@.len(),
                forall|j: int| 0 <= j < i ==> #[trigger] self.p.x_coordinates@[j]@ != 0,
            decreases self.p.x_coordinates@.len() - i,
        {
            if self.p.x_coordinates[i].is_zero() {
                return Err("No X coordinate may be zero.");
            }
            i = i + 1;
        }
        if self.p.x_coordinates.len() != self.p.n as usize {
            Err("Length mismatch in finalize.")
        } else {
            Ok(self.p)
        }
    }
}

/// The X coordinates of a sequence of shares.
pub open spec fn share_xs(shares: Seq<Share>) -> Seq<int> {
    shares.map_values(|s: Share| s.x@)
}

/// The Y coordinates of a sequence of shares.
pub open spec fn share_ys(shares: Seq<Share>) -> Seq<int> {
    shares.map_values(|s: Share| s.y@)
}

/// The product of `xs[j]` over the `j < upto` other than `i`.
pub open spec fn lagrange_numerator(xs: Seq<int>, i: int, upto: int) -> int
    decreases upto,
{
    if upto <= 0 {
        1
    } else if upto - 1 == i {
        lagrange_numerator(xs, i, upto - 1)
    } else {
        field_mul(lagrange_numerator(xs, i, upto - 1), xs[upto - 1])
    }
}

/// The product of `xs[j] - xs[i]` over the `j < upto` other than `i`.
pub open spec fn lagrange_denominator(xs: Seq<int>, i: int, upto: int) -> int
    decreases upto,
{
    if upto <= 0 {
        1
    } else if upto - 1 == i {
        lagrange_denominator(xs, i, upto - 1)
    } else {
        field_mul(lagrange_denominator(xs, i, upto - 1), field_sub(xs[upto - 1], xs[i]))
    }
}

/// The sum over the first `upto` points of `y_i` times its Lagrange basis
/// polynomial evaluated at zero.
pub open spec fn lagrange_sum(xs: Seq<int>, ys: Seq<int>, upto: int) -> int
    decreases upto,
{
    if upto <= 0 {
        0
    } else {
        let i = upto - 1;
        field_add(
            lagrange_sum(xs, ys, i),
            field_div(
                field_mul(lagrange_numerator(xs, i, xs.len() as int), ys[i]),
                lagrange_denominator(xs, i, xs.len() as int),
            ),
        )
    }
}

/// Recovers a secret from `K` of its shares: the value at zero of the
/// polynomial through the shares' points, by Lagrange interpolation.
///
/// The X coordinates must be distinct. With fewer than `K` shares the
/// result is unrelated to the secret.
pub fn recover_secret(shares: &[Share]) -> (r: FE)
    ensures
        r@ == lagrange_sum(share_xs(shares@), share_ys(shares@), shares@.len() as int),
{
    let ghost xs = share_xs(shares@);
    let ghost ys = share_ys(shares@);
    let mut accumulator = FE::zero();
    let mut i: usize = 0;
    while i < shares.len()
        invariant
            i <= shares@.len(),
            xs == share_xs(shares@),
            ys == share_ys(shares@),
            accumulator@ == lagrange_sum(xs, ys, i as int),
        decreases shares@.len() - i,
    {
        let sh = shares[i];
        let mut numerator = FE::one();
        let mut denominator = FE::one();
        let mut j: usize = 0;
        while j < shares.len()
            invariant
                i < shares@.len(),
                j <= shares@.len(),
                sh == shares@[i as int],
                xs == share_xs(shares@),
                numerator@ == lagrange_numerator(xs, i as int, j as int),
                denominator@ == lagrange_denominator(xs, i as int, j as int),
            decreases shares@.len() - j,
        {
            if i != j {
                let sh2 = shares[j];
                numerator = numerator * sh2.x;
                denominator = denominator * (sh2.x - sh.x);
            }
            j = j + 1;
        }
        accumulator = accumulator + (numerator * sh.y) / denominator;
        i = i + 1;
    }
    accumulator
}

/// The coefficient-wise field sum of two polynomials of the same degree.
pub open spec fn add_coefficients(a: Seq<int>, b: Seq<int>) -> Seq<int> {
    Seq::new(a.len(), |i: int| field_add(a[i], b[i]))
}

/// One step of Horner's rule commutes with adding two polynomials.
proof fn lemma_horner_step_adds(pa: int, pb: int, x: int, ca: int, cb: int)
    ensures
        field_add(field_mul(field_add(pa, pb), x), field_add(ca, cb)) == field_add(
            field_add(field_mul(pa, x), ca),
            field_add(field_mul(pb, x), cb),
        ),
{
    let m = p();
    let whole = pa * x + pb * x + ca + cb;
    assert(field_add(field_mul(field_add(pa, pb), x), field_add(ca, cb)) == whole % m) by {
        lemma_mul_mod_noop_left(pa + pb, x, m);
        lemma_mul_is_distributive_add_other_way(x, pa, pb);
        lemma_add_mod_noop(pa * x + pb * x, ca + cb, m);
    }
    assert(field_add(field_mul(pa, x), ca) == (pa * x + ca) % m) by {
        lemma_add_mod_noop_right(ca, pa * x, m);
    }
    assert(field_add(field_mul(pb, x), cb) == (pb * x + cb) % m) by {
        lemma_add_mod_noop_right(cb, pb * x, m);
    }
    assert(((pa * x + ca) % m + (pb * x + cb) % m) % m == whole % m) by {
        lemma_add_mod_noop(pa * x + ca, pb * x + cb, m);
    }
}

/// Evaluating the sum of two polynomials gives the sum of their values.
pub proof fn lemma_poly_at_adds(a: Seq<int>, b: Seq<int>, x: int)
    requires
        a.len() == b.len(),
    ensures
        poly_at(add_coefficients(a, b), x) == field_add(poly_at(a, x), poly_at(b, x)),
    decreases a.len(),
{
    if a.len() == 0 {
        assert(add_coefficients(a, b).len() == 0);
    } else {
        let s = add_coefficients(a, b);
        assert(s.drop_last() =~= add_coefficients(a.drop_last(), b.drop_last()));
        lemma_poly_at_adds(a.drop_last(), b.drop_last(), x);
        lemma_horner_step_adds(
            poly_at(a.drop_last(), x),
            poly_at(b.drop_last(), x),
            x,
            a.last(),
            b.last(),
        );
    }
}

/// Shares of two secrets made with the same parameters add up, share by
/// share, to shares of the sum of the secrets: the sum of the i-th shares
/// is the value at the i-th X coordinate of the sum of the two sharing
/// polynomials, whose constant term is the sum of the secrets.
pub proof fn lemma_shares_are_additive(
    params: Params,
    s1: FE,
    c1: Seq<FE>,
    shares1: Seq<Share>,
    s2: FE,
    c2: Seq<FE>,
    shares2: Seq<Share>,
)
    requires
        c1.len() == params.spec_coefficient_count(),
        c2.len() == params.spec_coefficient_count(),
        shares1.len() == params.spec_x_coordinates().len(),
        shares2.len() == params.spec_x_coordinates().len(),
        forall|i: int|
            0 <= i < shares1.len() ==> (#[trigger] shares1[i]).x == params.spec_x_coordinates()[i]
                && shares1[i].y@ == poly_at(views(c1.push(s1)), shares1[i].x@),
        forall|i: int|
            0 <= i < shares2.len() ==> (#[trigger] shares2[i]).x == params.spec_x_coordinates()[i]
                && shares2[i].y@ == poly_at(views(c2.push(s2)), shares2[i].x@),
    ensures
        add_coefficients(views(c1.push(s1)), views(c2.push(s2))).last() == field_add(s1@, s2@),
        forall|i: int|
            0 <= i < shares1.len() ==> field_add((#[trigger] shares1[i]).y@, shares2[i].y@)
                == poly_at(
                add_coefficients(views(c1.push(s1)), views(c2.push(s2))),
                params.spec_x_coordinates()[i]@,
            ),
{
    assert forall|i: int| 0 <= i < shares1.len() implies field_add(
        (#[trigger] shares1[i]).y@,
        shares2[i].y@,
    ) == poly_at(
        add_coefficients(views(c1.push(s1)), views(c2.push(s2))),
        params.spec_x_coordinates()[i]@,
    ) by {
        lemma_poly_at_adds(views(c1.push(s1)), views(c2.push(s2)), params.spec_x_coordinates()[i]@);
    }
}

} // verus!
