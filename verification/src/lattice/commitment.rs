use vstd::prelude::*;
use vstd::arithmetic::div_mod::lemma_mod_multiples_vanish;
use vstd::string::StringSliceAdditionalSpecFns;
use crate::entropy::next_word;
use crate::hash::{blake3_512, blake3_xof_64};
use crate::lattice::params::{K, L, N, Q};
use crate::lattice::ring::{poly_vec_add, poly_vec_sub, RingElement, RingVector};

verus! {

/// The domain-separation label from which the network-wide matrix seed is
/// hashed.
pub open spec fn matrix_domain() -> Seq<u8> {
    "XCQA-CHAIN-COMMIT-MATRIX-V1".spec_bytes()
}

/// Coefficient `k` of the matrix entry in row `i`, column `j`: the seed byte
/// at position `i*L*N + j*N + k`, the seed read cyclically, modulo `Q`.
pub open spec fn matrix_coeff(seed: Seq<u8>, i: int, j: int, k: int) -> int {
    (seed[(i * L * N + j * N + k) % (seed.len() as int)] as int) % (Q as int)
}

/// The matrix that a seed expands to.
pub open spec fn matrix_from_seed(seed: Seq<u8>) -> Seq<Seq<Seq<int>>> {
    Seq::new(
        K as nat,
        |i: int| Seq::new(L as nat, |j: int| Seq::new(N as nat, |k: int| matrix_coeff(seed, i, j, k))),
    )
}

/// The public matrix `A`: `K` rows of `L` ring elements.
pub struct CommitmentMatrix {
    pub a: Vec<RingVector>,
}

impl View for CommitmentMatrix {
    type V = Seq<Seq<Seq<int>>>;

    open spec fn view(&self) -> Seq<Seq<Seq<int>>> {
        Seq::new(self.a.len() as nat, |i: int| self.a[i]@)
    }
}

impl CommitmentMatrix {
    /// `K` rows, each of `L` fully reduced elements.
    pub open spec fn wf(&self) -> bool {
        &&& self.a.len() == K
        &&& forall|i: int|
            0 <= i < K ==> (#[trigger] self.a[i]).elements.len() == L && self.a[i].wf()
    }

    /// Tells whether the matrix has `K` rows of `L` fully reduced elements.
    pub fn is_well_formed(&self) -> (ok: bool)
        ensures
            ok == self.wf(),
    {
        if self.a.len() != K {
            return false;
        }
        let mut i: usize = 0;
        while i < K
            invariant
                i <= K,
                self.a.len() == K,
                forall|r: int|
                    0 <= r < i ==> (#[trigger] self.a[r]).elements.len() == L && self.a[r].wf(),
            decreases K - i,
        {
            if self.a[i].elements.len() != L || !self.a[i].is_reduced() {
                return false;
            }
            i += 1;
        }
        true
    }

    /// Expands a seed into the matrix, reading the seed cyclically.
    pub fn from_seed(seed: &[u8]) -> (m: Self)
        requires
            seed@.len() > 0,
        ensures
            m.wf(),
            m@ == matrix_from_seed(seed@),
    {
        let mut matrix: Vec<RingVector> = Vec::new();
        let mut i: usize = 0;
        while i < K
            invariant
                i <= K,
                seed@.len() > 0,
                matrix.len() == i,
                forall|r: int|
                    0 <= r < i ==> (#[trigger] matrix[r]).elements.len() == L && matrix[r].wf(),
                forall|r: int| 0 <= r < i ==> (#[trigger] matrix[r])@ == matrix_from_seed(seed@)[r],
            decreases K - i,
        {
            let mut row: Vec<RingElement> = Vec::new();
            let mut j: usize = 0;
            while j < L
                invariant
                    i < K,
                    j <= L,
                    seed@.len() > 0,
                    row.len() == j,
                    forall|c: int| 0 <= c < j ==> (#[trigger] row[c]).wf(),
                    forall|c: int|
                        0 <= c < j ==> (#[trigger] row[c])@ == matrix_from_seed(seed@)[i as int][c],
                decreases L - j,
            {
                let mut coeffs = [0u32; 256];
                let mut k: usize = 0;
                while k < N
                    invariant
                        i < K,
                        j < L,
                        k <= N,
                        seed@.len() > 0,
                        forall|t: int|
                            0 <= t < k ==> #[trigger] coeffs[t] as int == matrix_coeff(
                                seed@,
                                i as int,
                                j as int,
                                t,
                            ),
                    decreases N - k,
                {
                    let idx: usize = (i * L * N + j * N + k) % seed.len();
                    coeffs[k] = (seed[idx] as u32) % Q;
                    k += 1;
                }
                let entry = RingElement { coeffs };
                assert(entry@ =~= matrix_from_seed(seed@)[i as int][j as int]);
                row.push(entry);
                j += 1;
            }
            let vector = RingVector { elements: row };
            assert(vector@ =~= matrix_from_seed(seed@)[i as int]);
            matrix.push(vector);
            i += 1;
        }
        let m = CommitmentMatrix { a: matrix };
        assert(m@ =~= matrix_from_seed(seed@));
        m
    }

    /// The network-wide matrix: the expansion of the BLAKE3-512 digest of the
    /// domain label. The genesis hash takes no part in it.
    pub fn from_genesis(_genesis_hash: &[u8; 64]) -> (m: Self)
        ensures
            m.wf(),
            m@ == matrix_from_seed(blake3_xof_64(matrix_domain())),
    {
        let seed = blake3_512("XCQA-CHAIN-COMMIT-MATRIX-V1".as_bytes());
        CommitmentMatrix::from_seed(seed.as_slice())
    }
}

/// The sum over columns `j < n` of coefficient `k` of `row[j]` times the
/// scalar that column `j` of the randomness contributes: the constant
/// coefficient of `r[j]`, reduced modulo `Q`.
pub open spec fn row_dot(row: Seq<Seq<int>>, r: Seq<Seq<int>>, k: int, n: int) -> int
    decreases n,
{
    if n <= 0 {
        0
    } else {
        row_dot(row, r, k, n - 1) + row[n - 1][k] * (r[n - 1][0] % (Q as int))
    }
}

/// What the value adds to coefficient `k` of row `i`: `v mod Q` at position
/// `(0, 0)`, nothing elsewhere.
pub open spec fn gadget(v: int, i: int, k: int) -> int {
    if i == 0 && k == 0 {
        v % (Q as int)
    } else {
        0
    }
}

/// The commitment `A·r + v·e0`: row `i` is the sum over `j` of `A[i][j]`
/// scaled by the constant coefficient of `r[j]`, and the value enters the
/// constant coefficient of row 0; everything modulo `Q`.
pub open spec fn commit_spec(v: int, r: Seq<Seq<int>>, a: Seq<Seq<Seq<int>>>) -> Seq<Seq<int>> {
    Seq::new(
        K as nat,
        |i: int|
            Seq::new(
                N as nat,
                |k: int| (row_dot(a[i], r, k, L as int) + gadget(v, i, k)) % (Q as int),
            ),
    )
}

/// Randomness of a commitment: `L` ring elements.
#[derive(Debug)]
pub struct LatticeRandVec {
    pub r: RingVector,
}

impl View for LatticeRandVec {
    type V = Seq<Seq<int>>;

    open spec fn view(&self) -> Seq<Seq<int>> {
        self.r@
    }
}

impl Clone for LatticeRandVec {
    fn clone(&self) -> (copy: Self)
        ensures
            copy@ == self@,
            copy.r.elements@ == self.r.elements@,
    {
        LatticeRandVec { r: self.r.clone() }
    }
}

/// A commitment: `K` ring elements.
#[derive(Debug)]
pub struct LatticeCommitment {
    pub c: RingVector,
}

impl View for LatticeCommitment {
    type V = Seq<Seq<int>>;

    open spec fn view(&self) -> Seq<Seq<int>> {
        self.c@
    }
}

impl Clone for LatticeCommitment {
    fn clone(&self) -> (copy: Self)
        ensures
            copy@ == self@,
            copy.wf() == self.wf(),
            copy.c.elements@ == self.c.elements@,
    {
        LatticeCommitment { c: self.c.clone() }
    }
}

/// Reducing the summands first does not change a sum modulo `Q`.
proof fn lemma_add_mod(x: int, y: int)
    ensures
        ((x % (Q as int)) + (y % (Q as int))) % (Q as int) == (x + y) % (Q as int),
{
}

impl LatticeCommitment {
    /// `K` fully reduced elements.
    pub open spec fn wf(&self) -> bool {
        self.c.elements.len() == K && self.c.wf()
    }

    /// Commits to `value` under `randomness`.
    pub fn commit(value: u64, randomness: &LatticeRandVec, matrix: &CommitmentMatrix) -> (com: Self)
        requires
            matrix.wf(),
            randomness.r.elements.len() == L,
        ensures
            com.wf(),
            com@ == commit_spec(value as int, randomness@, matrix@),
    {
        let ghost a = matrix@;
        let ghost r = randomness@;
        let v_mod: u32 = (value % (Q as u64)) as u32;
        let mut elements: Vec<RingElement> = Vec::new();
        let mut i: usize = 0;
        while i < K
            invariant
                i <= K,
                matrix.wf(),
                randomness.r.elements.len() == L,
                a == matrix@,
                r == randomness@,
                v_mod as int == (value as int) % (Q as int),
                elements.len() == i,
                forall|t: int| 0 <= t < i ==> (#[trigger] elements[t]).wf(),
                forall|t: int|
                    0 <= t < i ==> (#[trigger] elements[t])@ == commit_spec(value as int, r, a)[t],
            decreases K - i,
        {
            let row = &matrix.a[i];
            assert(row.elements.len() == L && row.wf());
            assert(row@ == a[i as int]);
            let mut acc = RingElement::zero();
            let mut j: usize = 0;
            while j < L
                invariant
                    i < K,
                    j <= L,
                    a.len() == K,
                    row.elements.len() == L,
                    row.wf(),
                    row@ == a[i as int],
                    randomness.r.elements.len() == L,
                    r == randomness@,
                    acc.wf(),
                    forall|k: int|
                        0 <= k < N ==> #[trigger] acc@[k] == row_dot(a[i as int], r, k, j as int)
                            % (Q as int),
                decreases L - j,
            {
                let scalar: u64 = randomness.r.elements[j].coeffs[0] as u64;
                assert(row.elements[j as int].wf());
                let prod = row.elements[j].scalar_mul(scalar);
                let next = acc.add(&prod);
                proof {
                    assert(r[j as int] == randomness.r.elements[j as int]@);
                    assert(r[j as int][0] == scalar);
                    assert(a[i as int][j as int] == row.elements[j as int]@);
                    assert forall|k: int| 0 <= k < N implies #[trigger] next@[k] == row_dot(
                        a[i as int],
                        r,
                        k,
                        j + 1,
                    ) % (Q as int) by {
                        let t = a[i as int][j as int][k] * (r[j as int][0] % (Q as int));
                        assert(prod@[k] == t % (Q as int));
                        assert(next@[k] == (acc@[k] + prod@[k]) % (Q as int));
                        lemma_add_mod(row_dot(a[i as int], r, k, j as int), t);
                    }
                }
                acc = next;
                j += 1;
            }
            let ghost summed = acc;
            if i == 0 {
                let mut coeffs = acc.coeffs;
                assert(acc.coeffs[0] < Q);
                coeffs[0] = (coeffs[0] + v_mod) % Q;
                acc = RingElement { coeffs };
            }
            proof {
                let want = commit_spec(value as int, r, a)[i as int];
                assert forall|k: int| 0 <= k < N implies acc@[k] == want[k] && acc.coeffs[k]
                    < Q by {
                    let dot = row_dot(a[i as int], r, k, L as int);
                    assert(summed@[k] == dot % (Q as int));
                    assert(summed.coeffs[k] < Q);
                    assert(want[k] == (dot + gadget(value as int, i as int, k)) % (Q as int));
                    if i == 0 && k == 0 {
                        assert(acc.coeffs[0] as int == (summed.coeffs[0] + v_mod) % (Q as int));
                        lemma_add_mod(dot, (value as int) % (Q as int));
                    } else {
                        assert(acc.coeffs[k] == summed.coeffs[k]);
                    }
                }
                assert(acc@ =~= want);
            }
            elements.push(acc);
            i += 1;
        }
        let com = LatticeCommitment { c: RingVector { elements } };
        assert(com@ =~= commit_spec(value as int, r, a));
        com
    }

    /// The element-wise sum: a commitment to the sum of the values.
    pub fn add(&self, other: &Self) -> (sum: Self)
        requires
            self.wf(),
            other.wf(),
        ensures
            sum.wf(),
            sum@ == poly_vec_add(self@, other@),
    {
        LatticeCommitment { c: self.c.add(&other.c) }
    }

    /// The element-wise difference.
    pub fn sub(&self, other: &Self) -> (diff: Self)
        requires
            self.wf(),
            other.wf(),
        ensures
            diff.wf(),
            diff@ == poly_vec_sub(self@, other@),
    {
        LatticeCommitment { c: self.c.sub(&other.c) }
    }
}

impl LatticeRandVec {
    /// Samples `L` ring elements with small coefficients: each coefficient
    /// is one word from the generator, reduced modulo 256.
    pub fn random(rng: &mut rand::rngs::ThreadRng) -> (rv: Self)
        ensures
            rv.r.elements.len() == L,
            rv.r.wf(),
            forall|j: int, k: int| 0 <= j < L && 0 <= k < N ==> 0 <= #[trigger] rv@[j][k] < 256,
    {
        let mut elements: Vec<RingElement> = Vec::new();
        let mut j: usize = 0;
        while j < L
            invariant
                j <= L,
                elements.len() == j,
                forall|t: int, k: int|
                    0 <= t < j && 0 <= k < N ==> #[trigger] elements[t].coeffs[k] < 256,
            decreases L - j,
        {
            let mut coeffs = [0u32; 256];
            let mut k: usize = 0;
            while k < N
                invariant
                    k <= N,
                    forall|t: int| 0 <= t < k ==> #[trigger] coeffs[t] < 256,
                decreases N - k,
            {
                coeffs[k] = next_word(rng) % 256;
                k += 1;
            }
            elements.push(RingElement { coeffs });
            j += 1;
        }
        let rv = LatticeRandVec { r: RingVector { elements } };
        assert forall|t: int| 0 <= t < rv.r.elements.len() implies (#[trigger] rv.r.elements[t]).wf() by {
            assert forall|k: int| 0 <= k < N implies #[trigger] rv.r.elements[t].coeffs[k] < Q by {
                assert(elements[t].coeffs[k] < 256);
            }
        }
        assert forall|j: int, k: int| 0 <= j < L && 0 <= k < N implies 0 <= #[trigger] rv@[j][k]
            < 256 by {
            assert(elements[j].coeffs[k] < 256);
        }
        rv
    }
}

/// Scaling by a sum of scalars is, modulo `Q`, the sum of the scalings.
proof fn lemma_scale_sum(a: int, p: int, q: int)
    ensures
        (a * (((p + q) % (Q as int)) % (Q as int))) % (Q as int) == (a * (p % (Q as int)) + a * (q
            % (Q as int))) % (Q as int),
{
    let m = Q as int;
    let s = ((p + q) % m) % m;
    let pp = p % m;
    let qq = q % m;
    assert(s == pp + qq || s == pp + qq - m);
    if s == pp + qq {
        assert(a * s == a * pp + a * qq) by (nonlinear_arith)
            requires
                s == pp + qq,
        ;
    } else {
        assert(a * s == m * (-a) + (a * pp + a * qq)) by (nonlinear_arith)
            requires
                s == pp + qq - m,
        ;
        lemma_mod_multiples_vanish(-a, a * pp + a * qq, m);
    }
}

/// A row's dot product is, modulo `Q`, additive in the randomness.
proof fn lemma_row_dot_sum(row: Seq<Seq<int>>, r1: Seq<Seq<int>>, r2: Seq<Seq<int>>, k: int, n: int)
    requires
        0 <= n <= r1.len(),
    ensures
        row_dot(row, poly_vec_add(r1, r2), k, n) % (Q as int) == (row_dot(row, r1, k, n) + row_dot(
            row,
            r2,
            k,
            n,
        )) % (Q as int),
    decreases n,
{
    if n > 0 {
        lemma_row_dot_sum(row, r1, r2, k, n - 1);
        let r12 = poly_vec_add(r1, r2);
        let a = row[n - 1][k];
        let p = r1[n - 1][0];
        let q = r2[n - 1][0];
        assert(r12[n - 1][0] == (p + q) % (Q as int));
        lemma_scale_sum(a, p, q);
        let t12 = a * (r12[n - 1][0] % (Q as int));
        let t1 = a * (p % (Q as int));
        let t2 = a * (q % (Q as int));
        lemma_add_mod(row_dot(row, r12, k, n - 1), t12);
        lemma_add_mod(row_dot(row, r1, k, n - 1) + row_dot(row, r2, k, n - 1), t1 + t2);
    }
}

/// Commitments add up: the sum of two commitments is the commitment to the
/// sum of the values, modulo `Q`, under the sum of the randomness.
pub proof fn lemma_commit_homomorphic(
    v1: u64,
    r1: LatticeRandVec,
    v2: u64,
    r2: LatticeRandVec,
    matrix: CommitmentMatrix,
)
    requires
        matrix.wf(),
        r1.r.elements.len() == L,
        r2.r.elements.len() == L,
    ensures
        poly_vec_add(
            commit_spec(v1 as int, r1@, matrix@),
            commit_spec(v2 as int, r2@, matrix@),
        ) == commit_spec((v1 + v2) % (Q as int), poly_vec_add(r1@, r2@), matrix@),
{
    let a = matrix@;
    let m = Q as int;
    let lhs = poly_vec_add(commit_spec(v1 as int, r1@, a), commit_spec(v2 as int, r2@, a));
    let rhs = commit_spec((v1 + v2) % m, poly_vec_add(r1@, r2@), a);
    assert forall|i: int| 0 <= i < K implies lhs[i] =~= rhs[i] by {
        assert forall|k: int| 0 <= k < N implies lhs[i][k] == rhs[i][k] by {
            let d1 = row_dot(a[i], r1@, k, L as int);
            let d2 = row_dot(a[i], r2@, k, L as int);
            let d12 = row_dot(a[i], poly_vec_add(r1@, r2@), k, L as int);
            let g1 = gadget(v1 as int, i, k);
            let g2 = gadget(v2 as int, i, k);
            let g12 = gadget((v1 + v2) % m, i, k);
            lemma_row_dot_sum(a[i], r1@, r2@, k, L as int);
            assert(g12 % m == (g1 + g2) % m);
            lemma_add_mod(d1 + g1, d2 + g2);
            lemma_add_mod(d12, g12);
            lemma_add_mod(d1 + d2, g1 + g2);
        }
    }
    assert(lhs =~= rhs);
}

} // verus!
