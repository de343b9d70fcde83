use vstd::prelude::*;
use crate::lattice::params::{N, Q};

verus! {

/// A polynomial with every coefficient reduced: `N` integers in `[0, Q)`.
pub open spec fn is_poly(p: Seq<int>) -> bool {
    &&& p.len() == N
    &&& forall|i: int| 0 <= i < N ==> 0 <= #[trigger] p[i] < Q
}

/// The additive identity of the ring.
pub open spec fn poly_zero() -> Seq<int> {
    Seq::new(N as nat, |i: int| 0int)
}

/// The multiplicative identity of the ring: the constant polynomial `1`.
pub open spec fn poly_one() -> Seq<int> {
    Seq::new(N as nat, |i: int| if i == 0 { 1int } else { 0int })
}

/// Coefficient-wise sum modulo `Q`.
pub open spec fn poly_add(a: Seq<int>, b: Seq<int>) -> Seq<int> {
    Seq::new(N as nat, |i: int| (a[i] + b[i]) % (Q as int))
}

/// Coefficient-wise difference modulo `Q`, taken as `(a + Q - b) mod Q`.
pub open spec fn poly_sub(a: Seq<int>, b: Seq<int>) -> Seq<int> {
    Seq::new(N as nat, |i: int| (a[i] + Q - b[i]) % (Q as int))
}

/// Every coefficient multiplied by the scalar `s mod Q`, modulo `Q`.
pub open spec fn poly_scale(a: Seq<int>, s: int) -> Seq<int> {
    Seq::new(N as nat, |i: int| (a[i] * (s % (Q as int))) % (Q as int))
}

/// The product `a[i] * b[m - i]` where the second index falls inside the
/// polynomial, and zero elsewhere.
pub open spec fn conv_term(a: Seq<int>, b: Seq<int>, m: int, i: int) -> int {
    if 0 <= m - i < N {
        a[i] * b[m - i]
    } else {
        0
    }
}

/// The sum of `conv_term(a, b, m, i)` over `0 <= i < n`.
pub open spec fn conv_upto(a: Seq<int>, b: Seq<int>, m: int, n: int) -> int
    decreases n,
{
    if n <= 0 {
        0
    } else {
        conv_upto(a, b, m, n - 1) + conv_term(a, b, m, n - 1)
    }
}

/// Coefficient `m` of the plain (unreduced) product of two polynomials: the
/// sum of `a[i] * b[j]` over all `i + j == m`.
pub open spec fn conv(a: Seq<int>, b: Seq<int>, m: int) -> int {
    conv_upto(a, b, m, N as int)
}

/// The product in `Z_q[X]/(X^N + 1)`: since `X^N = -1`, coefficient `k` is the
/// plain product's coefficient `k` minus its coefficient `k + N`, modulo `Q`.
pub open spec fn poly_mul(a: Seq<int>, b: Seq<int>) -> Seq<int> {
    Seq::new(N as nat, |k: int| (conv(a, b, k) - conv(a, b, k + N)) % (Q as int))
}

/// An element of `Z_q[X]/(X^N + 1)`, stored as its `N` coefficients.
#[derive(Debug)]
pub struct RingElement {
    pub coeffs: [u32; 256],
}

impl Clone for RingElement {
    fn clone(&self) -> (copy: Self)
        ensures
            copy == *self,
    {
        RingElement { coeffs: self.coeffs }
    }
}

impl View for RingElement {
    type V = Seq<int>;

    open spec fn view(&self) -> Seq<int> {
        Seq::new(N as nat, |i: int| self.coeffs[i] as int)
    }
}

impl RingElement {
    /// Every stored coefficient is fully reduced modulo `Q`.
    pub open spec fn wf(&self) -> bool {
        forall|i: int| 0 <= i < N ==> #[trigger] self.coeffs[i] < Q
    }

    /// Tells whether every coefficient is below `Q`.
    pub fn is_reduced(&self) -> (ok: bool)
        ensures
            ok == self.wf(),
            ok == is_poly(self@),
    {
        let mut i: usize = 0;
        while i < N
            invariant
                i <= N,
                forall|k: int| 0 <= k < i ==> #[trigger] self.coeffs[k] < Q,
            decreases N - i,
        {
            if self.coeffs[i] >= Q {
                assert(!(self@[i as int] < Q));
                return false;
            }
            i += 1;
        }
        assert forall|k: int| 0 <= k < N implies 0 <= #[trigger] self@[k] < Q by {
            assert(self.coeffs[k] < Q);
        }
        true
    }

    /// The zero element.
    pub fn zero() -> (z: Self)
        ensures
            z.wf(),
            z@ == poly_zero(),
    {
        let z = RingElement { coeffs: [0u32; 256] };
        assert(z@ =~= poly_zero());
        z
    }

    /// Coefficient-wise sum modulo `Q`.
    pub fn add(&self, other: &Self) -> (sum: Self)
        requires
            self.wf(),
            other.wf(),
        ensures
            sum.wf(),
            sum@ == poly_add(self@, other@),
    {
        let mut result = [0u32; 256];
        let mut i: usize = 0;
        while i < N
            invariant
                i <= N,
                self.wf(),
                other.wf(),
                forall|k: int| 0 <= k < i ==> #[trigger] result[k] as int == (self.coeffs[k]
                    + other.coeffs[k]) % (Q as int),
            decreases N - i,
        {
            assert(self.coeffs[i as int] < Q && other.coeffs[i as int] < Q);
            result[i] = (self.coeffs[i] + other.coeffs[i]) % Q;
            i += 1;
        }
        let sum = RingElement { coeffs: result };
        assert(sum@ =~= poly_add(self@, other@));
        sum
    }

    /// Coefficient-wise difference modulo `Q`, computed as `(a + Q - b) mod Q`.
    pub fn sub(&self, other: &Self) -> (diff: Self)
        requires
            self.wf(),
            other.wf(),
        ensures
            diff.wf(),
            diff@ == poly_sub(self@, other@),
    {
        let mut result = [0u32; 256];
        let mut i: usize = 0;
        while i < N
            invariant
                i <= N,
                self.wf(),
                other.wf(),
                forall|k: int| 0 <= k < i ==> #[trigger] result[k] as int == (self.coeffs[k] + Q
                    - other.coeffs[k]) % (Q as int),
            decreases N - i,
        {
            assert(self.coeffs[i as int] < Q && other.coeffs[i as int] < Q);
            result[i] = (self.coeffs[i] + Q - other.coeffs[i]) % Q;
            i += 1;
        }
        let diff = RingElement { coeffs: result };
        assert(diff@ =~= poly_sub(self@, other@));
        diff
    }

    /// Every coefficient times the scalar, the scalar taken modulo `Q`
    /// first.
    pub fn scalar_mul(&self, scalar: u64) -> (scaled: Self)
        ensures
            scaled.wf(),
            scaled@ == poly_scale(self@, scalar as int),
    {
        let mut result = [0u32; 256];
        let s: u32 = (scalar % (Q as u64)) as u32;
        let mut i: usize = 0;
        while i < N
            invariant
                i <= N,
                s as int == (scalar as int) % (Q as int),
                forall|k: int| 0 <= k < i ==> #[trigger] result[k] as int == (self.coeffs[k] * (
                s as int)) % (Q as int),
            decreases N - i,
        {
            let c: u64 = self.coeffs[i] as u64;
            assert(c * (s as u64) <= 0xffff_ffff * 0x80_0000) by (nonlinear_arith)
                requires
                    c <= 0xffff_ffff,
                    s < 0x80_0000,
            ;
            result[i] = ((c * (s as u64)) % (Q as u64)) as u32;
            i += 1;
        }
        let scaled = RingElement { coeffs: result };
        assert(scaled@ =~= poly_scale(self@, scalar as int));
        scaled
    }

    /// Schoolbook product into a buffer of `2N` signed words, then reduction
    /// by `X^N = -1`.
    pub fn mul(&self, other: &Self) -> (prod: Self)
        requires
            self.wf(),
            other.wf(),
        ensures
            prod.wf(),
            prod@ == poly_mul(self@, other@),
    {
        let ghost a = self@;
        let ghost b = other@;
        let mut buf = [0i64; 512];
        let mut i: usize = 0;
        proof {
            assert forall|m: int| 0 <= m < 2 * N implies #[trigger] buf[m] == conv_upto(
                a,
                b,
                m,
                0,
            ) by {}
        }
        while i < N
            invariant
                i <= N,
                self.wf(),
                other.wf(),
                a == self@,
                b == other@,
                forall|m: int| 0 <= m < 2 * N ==> #[trigger] buf[m] == conv_upto(a, b, m, i as int),
                forall|m: int| 0 <= m < 2 * N ==> 0 <= #[trigger] buf[m] <= i * TERM_MAX,
            decreases N - i,
        {
            let x: i64 = self.coeffs[i] as i64;
            let mut j: usize = 0;
            while j < N
                invariant
                    i < N,
                    j <= N,
                    self.wf(),
                    other.wf(),
                    a == self@,
                    b == other@,
                    x == self.coeffs[i as int],
                    forall|m: int|
                        0 <= m < 2 * N ==> #[trigger] buf[m] == conv_upto(a, b, m, i as int) + (if i
                            <= m < i + j {
                            a[i as int] * b[m - i]
                        } else {
                            0
                        }),
                    forall|m: int|
                        0 <= m < 2 * N ==> 0 <= #[trigger] buf[m] <= i * TERM_MAX + (if i <= m < i
                            + j {
                            TERM_MAX
                        } else {
                            0
                        }),
                decreases N - j,
            {
                let y: i64 = other.coeffs[j] as i64;
                assert(self.coeffs[i as int] < Q && other.coeffs[j as int] < Q);
                assert(0 <= x * y <= TERM_MAX) by (nonlinear_arith)
                    requires
                        0 <= x <= 8380416,
                        0 <= y <= 8380416,
                ;
                let ghost before = buf;
                assert(buf[i + j] == conv_upto(a, b, i + j, i as int));
                buf[i + j] = buf[i + j] + x * y;
                assert(a[i as int] == x && b[j as int] == y);
                assert forall|m: int| 0 <= m < 2 * N implies #[trigger] buf[m] == conv_upto(
                    a,
                    b,
                    m,
                    i as int,
                ) + (if i <= m < i + j + 1 {
                    a[i as int] * b[m - i]
                } else {
                    0
                }) by {
                    if m != i + j {
                        assert(buf[m] == before[m]);
                    }
                }
                assert forall|m: int| 0 <= m < 2 * N implies 0 <= #[trigger] buf[m] <= i
                    * TERM_MAX + (if i <= m < i + j + 1 {
                    TERM_MAX
                } else {
                    0
                }) by {
                    if m != i + j {
                        assert(buf[m] == before[m]);
                    }
                }
                j += 1;
            }
            proof {
                assert forall|m: int| 0 <= m < 2 * N implies #[trigger] buf[m] == conv_upto(
                    a,
                    b,
                    m,
                    i + 1,
                ) by {
                    assert(conv_upto(a, b, m, i + 1) == conv_upto(a, b, m, i as int) + conv_term(
                        a,
                        b,
                        m,
                        i as int,
                    ));
                }
            }
            i += 1;
        }
        let mut coeffs = [0u32; 256];
        let mut k: usize = 0;
        while k < N
            invariant
                k <= N,
                forall|m: int| 0 <= m < 2 * N ==> #[trigger] buf[m] == conv(a, b, m),
                forall|m: int| 0 <= m < 2 * N ==> 0 <= #[trigger] buf[m] <= N * TERM_MAX,
                forall|m: int|
                    0 <= m < k ==> #[trigger] coeffs[m] as int == (conv(a, b, m) - conv(
                        a,
                        b,
                        m + N,
                    )) % (Q as int),
            decreases N - k,
        {
            assert(0 <= buf[k as int] <= N * TERM_MAX);
            assert(0 <= buf[k + N] <= N * TERM_MAX);
            let c: i64 = buf[k] - buf[k + N];
            let r: i64 = (c % (Q as i64) + (Q as i64)) % (Q as i64);
            coeffs[k] = r as u32;
            k += 1;
        }
        let prod = RingElement { coeffs };
        assert(prod@ =~= poly_mul(a, b));
        prod
    }
}


/// The vector of `n` zero polynomials.
pub open spec fn poly_vec_zero(n: nat) -> Seq<Seq<int>> {
    Seq::new(n, |i: int| poly_zero())
}

/// Entry-wise sum of two vectors of polynomials.
pub open spec fn poly_vec_add(a: Seq<Seq<int>>, b: Seq<Seq<int>>) -> Seq<Seq<int>> {
    Seq::new(a.len(), |i: int| poly_add(a[i], b[i]))
}

/// Entry-wise difference of two vectors of polynomials.
pub open spec fn poly_vec_sub(a: Seq<Seq<int>>, b: Seq<Seq<int>>) -> Seq<Seq<int>> {
    Seq::new(a.len(), |i: int| poly_sub(a[i], b[i]))
}

/// An ordered sequence of ring elements of runtime length.
#[derive(Debug)]
pub struct RingVector {
    pub elements: Vec<RingElement>,
}

impl View for RingVector {
    type V = Seq<Seq<int>>;

    open spec fn view(&self) -> Seq<Seq<int>> {
        Seq::new(self.elements.len() as nat, |i: int| self.elements[i]@)
    }
}

impl Clone for RingVector {
    fn clone(&self) -> (copy: Self)
        ensures
            copy@ == self@,
            copy.wf() == self.wf(),
            copy.elements@ == self.elements@,
    {
        let mut elements: Vec<RingElement> = Vec::new();
        let mut i: usize = 0;
        while i < self.elements.len()
            invariant
                i <= self.elements.len(),
                elements.len() == i,
                forall|k: int| 0 <= k < i ==> #[trigger] elements[k] == self.elements[k],
            decreases self.elements.len() - i,
        {
            elements.push(self.elements[i].clone());
            i += 1;
        }
        let copy = RingVector { elements };
        assert(copy.elements@ =~= self.elements@);
        assert(copy@ =~= self@);
        copy
    }
}

impl RingVector {
    /// Every element is fully reduced.
    pub open spec fn wf(&self) -> bool {
        forall|i: int| 0 <= i < self.elements.len() ==> (#[trigger] self.elements[i]).wf()
    }

    /// Tells whether every element is fully reduced.
    pub fn is_reduced(&self) -> (ok: bool)
        ensures
            ok == self.wf(),
    {
        let mut i: usize = 0;
        while i < self.elements.len()
            invariant
                i <= self.elements.len(),
                forall|k: int| 0 <= k < i ==> (#[trigger] self.elements[k]).wf(),
            decreases self.elements.len() - i,
        {
            if !self.elements[i].is_reduced() {
                return false;
            }
            i += 1;
        }
        true
    }

    /// The vector of `size` zero elements.
    pub fn zero(size: usize) -> (z: Self)
        ensures
            z.wf(),
            z.elements.len() == size,
            z@ == poly_vec_zero(size as nat),
    {
        let mut elements: Vec<RingElement> = Vec::new();
        let mut i: usize = 0;
        while i < size
            invariant
                i <= size,
                elements.len() == i,
                forall|k: int| 0 <= k < i ==> (#[trigger] elements[k]).wf(),
                forall|k: int| 0 <= k < i ==> (#[trigger] elements[k])@ == poly_zero(),
            decreases size - i,
        {
            elements.push(RingElement::zero());
            i += 1;
        }
        let z = RingVector { elements };
        assert(z@ =~= poly_vec_zero(size as nat));
        z
    }

    /// Element-wise sum of two vectors of one length.
    pub fn add(&self, other: &Self) -> (sum: Self)
        requires
            self.wf(),
            other.wf(),
            self.elements.len() == other.elements.len(),
        ensures
            sum.wf(),
            sum.elements.len() == self.elements.len(),
            sum@ == poly_vec_add(self@, other@),
    {
        let n = self.elements.len();
        let mut elements: Vec<RingElement> = Vec::new();
        let mut i: usize = 0;
        while i < n
            invariant
                i <= n,
                n == self.elements.len(),
                n == other.elements.len(),
                self.wf(),
                other.wf(),
                elements.len() == i,
                forall|k: int| 0 <= k < i ==> (#[trigger] elements[k]).wf(),
                forall|k: int|
                    0 <= k < i ==> (#[trigger] elements[k])@ == poly_add(
                        self.elements[k]@,
                        other.elements[k]@,
                    ),
            decreases n - i,
        {
            assert(self.elements[i as int].wf() && other.elements[i as int].wf());
            elements.push(self.elements[i].add(&other.elements[i]));
            i += 1;
        }
        let sum = RingVector { elements };
        assert(sum@ =~= poly_vec_add(self@, other@));
        sum
    }

    /// Element-wise difference of two vectors of one length.
    pub fn sub(&self, other: &Self) -> (diff: Self)
        requires
            self.wf(),
            other.wf(),
            self.elements.len() == other.elements.len(),
        ensures
            diff.wf(),
            diff.elements.len() == self.elements.len(),
            diff@ == poly_vec_sub(self@, other@),
    {
        let n = self.elements.len();
        let mut elements: Vec<RingElement> = Vec::new();
        let mut i: usize = 0;
        while i < n
            invariant
                i <= n,
                n == self.elements.len(),
                n == other.elements.len(),
                self.wf(),
                other.wf(),
                elements.len() == i,
                forall|k: int| 0 <= k < i ==> (#[trigger] elements[k]).wf(),
                forall|k: int|
                    0 <= k < i ==> (#[trigger] elements[k])@ == poly_sub(
                        self.elements[k]@,
                        other.elements[k]@,
                    ),
            decreases n - i,
        {
            assert(self.elements[i as int].wf() && other.elements[i as int].wf());
            elements.push(self.elements[i].sub(&other.elements[i]));
            i += 1;
        }
        let diff = RingVector { elements };
        assert(diff@ =~= poly_vec_sub(self@, other@));
        diff
    }
}

/// Addition in the ring is commutative.
pub proof fn lemma_add_commutative(a: RingElement, b: RingElement)
    requires
        a.wf(),
        b.wf(),
    ensures
        poly_add(a@, b@) == poly_add(b@, a@),
{
    assert(poly_add(a@, b@) =~= poly_add(b@, a@));
}

/// Subtracting what was added gives the first operand back.
pub proof fn lemma_add_then_sub(a: RingElement, b: RingElement)
    requires
        a.wf(),
        b.wf(),
    ensures
        poly_sub(poly_add(a@, b@), b@) == a@,
{
    let back = poly_sub(poly_add(a@, b@), b@);
    assert forall|i: int| 0 <= i < N implies back[i] == a@[i] by {
        assert(a.coeffs[i] < Q && b.coeffs[i] < Q);
    }
    assert(back =~= a@);
}

/// Against the constant polynomial `1`, the plain product keeps exactly the
/// term at index `m`.
proof fn lemma_conv_one(a: Seq<int>, m: int, n: int)
    requires
        a.len() == N,
        0 <= n <= N,
    ensures
        conv_upto(a, poly_one(), m, n) == if 0 <= m < n {
            a[m]
        } else {
            0
        },
    decreases n,
{
    if n > 0 {
        lemma_conv_one(a, m, n - 1);
        let one = poly_one();
        if 0 <= m - (n - 1) < N {
            assert(one[m - (n - 1)] == if m == n - 1 { 1int } else { 0int });
        }
    }
}

/// The constant polynomial `1` is a right identity of multiplication.
pub proof fn lemma_mul_one(a: RingElement)
    requires
        a.wf(),
    ensures
        poly_mul(a@, poly_one()) == a@,
{
    let p = poly_mul(a@, poly_one());
    assert forall|k: int| 0 <= k < N implies p[k] == a@[k] by {
        lemma_conv_one(a@, k, N as int);
        lemma_conv_one(a@, k + N, N as int);
        assert(a.coeffs[k] < Q);
    }
    assert(p =~= a@);
}

/// The sum over `j < k` of the terms `b[j] * a[m - j]` whose first index
/// `m - j` lies below `n`.
spec fn mirrored_upto(a: Seq<int>, b: Seq<int>, m: int, n: int, k: int) -> int
    decreases k,
{
    if k <= 0 {
        0
    } else {
        mirrored_upto(a, b, m, n, k - 1) + if m - (k - 1) < n {
            conv_term(b, a, m, k - 1)
        } else {
            0
        }
    }
}

/// Letting one more first index in adds exactly the term at that index.
proof fn lemma_mirrored_step(a: Seq<int>, b: Seq<int>, m: int, n: int, k: int)
    requires
        0 <= n < N,
        0 <= k <= N,
    ensures
        mirrored_upto(a, b, m, n + 1, k) == mirrored_upto(a, b, m, n, k) + if 0 <= m - n < k {
            a[n] * b[m - n]
        } else {
            0
        },
    decreases k,
{
    if k > 0 {
        lemma_mirrored_step(a, b, m, n, k - 1);
        if m - (k - 1) == n {
            assert(b[k - 1] * a[m - (k - 1)] == a[n] * b[m - n]) by (nonlinear_arith)
                requires
                    m - (k - 1) == n,
            ;
        }
    }
}

/// With every first index let in, the mirrored sum is the plain sum with
/// the operands exchanged.
proof fn lemma_mirrored_full(a: Seq<int>, b: Seq<int>, m: int, k: int)
    requires
        0 <= k <= N,
    ensures
        mirrored_upto(a, b, m, N as int, k) == conv_upto(b, a, m, k),
    decreases k,
{
    if k > 0 {
        lemma_mirrored_full(a, b, m, k - 1);
    }
}

/// With no first index let in, the mirrored sum is empty.
proof fn lemma_mirrored_empty(a: Seq<int>, b: Seq<int>, m: int, k: int)
    requires
        0 <= k <= N,
    ensures
        mirrored_upto(a, b, m, 0, k) == 0,
    decreases k,
{
    if k > 0 {
        lemma_mirrored_empty(a, b, m, k - 1);
    }
}

/// The plain sum over first indices below `n` is the mirrored sum that lets
/// in the first indices below `n`.
proof fn lemma_conv_mirrored(a: Seq<int>, b: Seq<int>, m: int, n: int)
    requires
        0 <= n <= N,
    ensures
        conv_upto(a, b, m, n) == mirrored_upto(a, b, m, n, N as int),
    decreases n,
{
    if n == 0 {
        lemma_mirrored_empty(a, b, m, N as int);
    } else {
        lemma_conv_mirrored(a, b, m, n - 1);
        lemma_mirrored_step(a, b, m, n - 1, N as int);
    }
}

/// Each coefficient of the plain product is the same with the operands
/// exchanged.
pub proof fn lemma_conv_commutative(a: Seq<int>, b: Seq<int>, m: int)
    ensures
        conv(a, b, m) == conv(b, a, m),
{
    lemma_conv_mirrored(a, b, m, N as int);
    lemma_mirrored_full(a, b, m, N as int);
}

/// Multiplication in the ring is commutative.
pub proof fn lemma_mul_commutative(a: RingElement, b: RingElement)
    requires
        a.wf(),
        b.wf(),
    ensures
        poly_mul(a@, b@) == poly_mul(b@, a@),
{
    assert forall|k: int| 0 <= k < N implies poly_mul(a@, b@)[k] == poly_mul(b@, a@)[k] by {
        lemma_conv_commutative(a@, b@, k);
        lemma_conv_commutative(a@, b@, k + N);
    }
    assert(poly_mul(a@, b@) =~= poly_mul(b@, a@));
}

/// The largest product of two reduced coefficients, `(Q - 1)^2`.
pub const TERM_MAX: i64 = 70231372333056;

} // verus!
