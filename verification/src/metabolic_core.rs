//! The liquid reservoir, the plastic layers and the LSH router: their weights
//! and the signatures of reservoir states.
//!
//! Values are 32-bit floating-point values, each held as its bit pattern.

use crate::ieee::le;
use crate::tensor::Matrix;
use vstd::prelude::*;

verus! {

use crate::ieee::at_most;

pub const N_RES: usize = 4096;

pub const D_MODEL: usize = 512;

pub const RANK_R: usize = 32;

/// LSH signature of a reservoir state: the signs of its projections.
#[derive(Debug, Clone)]
pub struct LshRouter {
    /// One row for each bit of a signature, one column for each unit of the
    /// reservoir.
    pub w_lsh: Matrix,
}

/// The number of positions below `n` at which `a` and `b` differ.
pub open spec fn differing(a: Seq<bool>, b: Seq<bool>, n: nat) -> nat
    decreases n,
{
    if n == 0 {
        0
    } else {
        differing(a, b, (n - 1) as nat) + if a[n - 1] != b[n - 1] {
            1nat
        } else {
            0nat
        }
    }
}

/// The number of positions at which two signatures differ; what one has beyond
/// the end of the other is not counted.
pub open spec fn distance(a: Seq<bool>, b: Seq<bool>) -> nat {
    differing(
        a,
        b,
        if a.len() < b.len() {
            a.len()
        } else {
            b.len()
        },
    )
}

impl LshRouter {
    pub fn new(w_lsh: Matrix) -> (out: Self)
        requires
            w_lsh.cols == N_RES,
        ensures
            out.w_lsh == w_lsh,
    {
        LshRouter { w_lsh }
    }

    /// The signature of a state from its projections, one for each row of
    /// `w_lsh`: true where the projection is not negative.
    pub fn hash(&self, projections: &[u32]) -> (signature: Vec<bool>)
        requires
            projections@.len() == self.w_lsh.rows,
        ensures
            signature@ == projections@.map_values(|v: u32| at_most(0, v)),
            signature@.len() == projections@.len(),
            forall|i: int|
                0 <= i < signature@.len() ==> (#[trigger] signature@[i] <==> projections@[i]
                    <= 0x7f80_0000 || projections@[i] == 0x8000_0000),
    {
        let mut signature: Vec<bool> = Vec::with_capacity(projections.len());
        let mut i: usize = 0;
        while i < projections.len()
            invariant
                i <= projections.len(),
                signature@ == projections@.take(i as int).map_values(|v: u32| at_most(0, v)),
            decreases projections.len() - i,
        {
            signature.push(le(0, projections[i]));
            i += 1;
        }
        assert(projections@.take(i as int) =~= projections@);
        signature
    }

    /// Hamming distance between two signatures.
    pub fn hamming(a: &[bool], b: &[bool]) -> (n: usize)
        ensures
            n == distance(a@, b@),
    {
        let len: usize = if a.len() < b.len() {
            a.len()
        } else {
            b.len()
        };
        let mut n: usize = 0;
        let mut i: usize = 0;
        while i < len
            invariant
                i <= len <= a@.len(),
                len <= b@.len(),
                n <= i,
                n == differing(a@, b@, i as nat),
            decreases len - i,
        {
            if a[i] != b[i] {
                n += 1;
            }
            i += 1;
        }
        n
    }
}

/// Swapping two signatures does not change their distance.
pub proof fn distance_is_symmetric(a: Seq<bool>, b: Seq<bool>)
    ensures
        distance(a, b) == distance(b, a),
{
    let n = if a.len() < b.len() {
        a.len()
    } else {
        b.len()
    };
    differing_swapped(a, b, n);
}

proof fn differing_swapped(a: Seq<bool>, b: Seq<bool>, n: nat)
    ensures
        differing(a, b, n) == differing(b, a, n),
    decreases n,
{
    if n > 0 {
        differing_swapped(a, b, (n - 1) as nat);
    }
}

proof fn differing_none(a: Seq<bool>, b: Seq<bool>, n: nat)
    ensures
        differing(a, b, n) <= n,
        differing(a, b, n) == 0 <==> forall|i: int| 0 <= i < n ==> #[trigger] a[i] == b[i],
        differing(a, b, n) == n <==> forall|i: int| 0 <= i < n ==> #[trigger] a[i] != b[i],
    decreases n,
{
    if n > 0 {
        differing_none(a, b, (n - 1) as nat);
        assert(forall|i: int|
            0 <= i < n ==> (#[trigger] a[i] == b[i] <==> (i < n - 1 && a[i] == b[i]) || (i == n - 1
                && a[n - 1] == b[n - 1])));
    }
}

/// The distance of two signatures of one length is at most that length, 0
/// exactly for equal ones, and the whole length exactly for opposite ones.
pub proof fn distance_range(a: Seq<bool>, b: Seq<bool>)
    requires
        a.len() == b.len(),
    ensures
        distance(a, b) <= a.len(),
        distance(a, b) == 0 <==> a == b,
        distance(a, b) == a.len() <==> b == a.map_values(|x: bool| !x),
{
    differing_none(a, b, a.len());
    if distance(a, b) == 0 {
        assert(a =~= b);
    }
    if distance(a, b) == a.len() {
        assert(b =~= a.map_values(|x: bool| !x));
    }
    if b == a.map_values(|x: bool| !x) {
        assert(forall|i: int| 0 <= i < a.len() ==> #[trigger] a[i] != b[i]);
    }
}

/// The triangle inequality for signatures of one length.
pub proof fn distance_triangle(a: Seq<bool>, b: Seq<bool>, c: Seq<bool>)
    requires
        a.len() == b.len() == c.len(),
    ensures
        distance(a, c) <= distance(a, b) + distance(b, c),
{
    differing_triangle(a, b, c, a.len());
}

proof fn differing_triangle(a: Seq<bool>, b: Seq<bool>, c: Seq<bool>, n: nat)
    ensures
        differing(a, c, n) <= differing(a, b, n) + differing(b, c, n),
    decreases n,
{
    if n > 0 {
        differing_triangle(a, b, c, (n - 1) as nat);
    }
}

/// The weights of the liquid reservoir.
#[derive(Debug, Clone)]
pub struct LiquidReservoir {
    /// The recurrent matrix.
    pub r_matrix: Matrix,
    /// The input projection.
    pub w_in: Matrix,
}

impl LiquidReservoir {
    pub open spec fn well_formed(&self) -> bool {
        &&& self.r_matrix.has_shape(N_RES as int, N_RES as int)
        &&& self.w_in.has_shape(N_RES as int, D_MODEL as int)
    }

    pub fn new(r_matrix: Matrix, w_in: Matrix) -> (out: Self)
        requires
            r_matrix.has_shape(N_RES as int, N_RES as int),
            w_in.has_shape(N_RES as int, D_MODEL as int),
        ensures
            out.well_formed(),
            out.r_matrix == r_matrix,
            out.w_in == w_in,
    {
        LiquidReservoir { r_matrix, w_in }
    }
}

/// The weights of a plastic layer.
#[derive(Debug, Clone)]
pub struct BioInspiredLayer {
    /// Maps a prediction error to the rank-R subspace.
    pub w_down: Matrix,
    /// Maps a reservoir state to the rank-R subspace.
    pub w_up: Matrix,
    /// The resting state of the memory.
    pub m_base: Matrix,
    /// The raw conductance gate.
    pub gamma: u32,
}

impl BioInspiredLayer {
    pub open spec fn well_formed(&self) -> bool {
        &&& self.w_down.has_shape(RANK_R as int, D_MODEL as int)
        &&& self.w_up.has_shape(RANK_R as int, N_RES as int)
        &&& self.m_base.has_shape(RANK_R as int, RANK_R as int)
    }

    pub fn new(w_down: Matrix, w_up: Matrix, m_base: Matrix, gamma: u32) -> (out: Self)
        requires
            w_down.has_shape(RANK_R as int, D_MODEL as int),
            w_up.has_shape(RANK_R as int, N_RES as int),
            m_base.has_shape(RANK_R as int, RANK_R as int),
        ensures
            out.well_formed(),
            out.w_down == w_down,
            out.w_up == w_up,
            out.m_base == m_base,
            out.gamma == gamma,
    {
        BioInspiredLayer { w_down, w_up, m_base, gamma }
    }
}

/// The distance counts the positions at which the signatures differ: none of
/// nothing, one more where one more position differs, and nothing for what one
/// of them has beyond the end of the other.
pub proof fn distance_counts_differences(a: Seq<bool>, b: Seq<bool>, x: bool, y: bool)
    requires
        a.len() == b.len(),
    ensures
        distance(Seq::empty(), Seq::empty()) == 0,
        distance(a.push(x), b.push(y)) == distance(a, b) + (if x != y {
            1nat
        } else {
            0nat
        }),
        distance(a.push(x), b) == distance(a, b),
        distance(a, b.push(y)) == distance(a, b),
{
    differing_of_prefix(a, b, a.push(x), b.push(y), a.len());
    differing_of_prefix(a, b, a.push(x), b, a.len());
    differing_of_prefix(a, b, a, b.push(y), a.len());
}

/// Whatever lies beyond the end of the shorter signature does not matter.
pub proof fn distance_ignores_excess(a: Seq<bool>, b: Seq<bool>)
    requires
        a.len() <= b.len(),
    ensures
        distance(a, b) == distance(a, b.take(a.len() as int)),
        distance(b, a) == distance(b.take(a.len() as int), a),
{
    let short = b.take(a.len() as int);
    differing_of_prefix(a, short, a, b, a.len());
    differing_of_prefix(short, a, b, a, a.len());
}

/// Differences below `n` depend on nothing behind it.
proof fn differing_of_prefix(
    a: Seq<bool>,
    b: Seq<bool>,
    longer_a: Seq<bool>,
    longer_b: Seq<bool>,
    n: nat,
)
    requires
        n <= a.len() <= longer_a.len(),
        n <= b.len() <= longer_b.len(),
        forall|i: int| 0 <= i < n ==> #[trigger] a[i] == longer_a[i],
        forall|i: int| 0 <= i < n ==> #[trigger] b[i] == longer_b[i],
    ensures
        differing(a, b, n) == differing(longer_a, longer_b, n),
    decreases n,
{
    if n > 0 {
        differing_of_prefix(a, b, longer_a, longer_b, (n - 1) as nat);
        assert(a[n - 1] == longer_a[n - 1]);
        assert(b[n - 1] == longer_b[n - 1]);
    }
}

} // verus!
