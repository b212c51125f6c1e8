//! The Orion linear code (Xie–Zhang–Song 2022): a Spielman-style
//! recursive expander code. A message of length `k` is extended in place
//! by a chain of bipartite expander graphs; each graph writes, at its
//! output positions, the sums of the buffer entries at its input positions
//! that are adjacent to each output vertex.
//!
//! The graphs are sampled with `rand_chacha::ChaCha20Rng` and
//! `rand::seq::index::sample`. Everything else (the layout of the graph
//! chain, the encoding, the padding to a power of two) is stated here over
//! sequences and proved.

use vstd::prelude::*;
use rand::SeedableRng;
use vstd::slice::{SliceAdditionalExecFns, slice_subrange, slice_to_vec};
use rand_chacha::ChaCha20Rng;
use crate::field::{M31Ext3, fe_zero, fe_add, fe_mul, lemma_add_associative, lemma_commutative};
use crate::constr_5_10::{zeros, zero_vec};
use crate::binary::{p2, is_pow2, pow2_usize};
use crate::chunk_pesat_prover::{ceil_log2, ceil_log2_spec, lemma_ceil_log2_least};
use crate::code::{LinearCode, vec_add, vec_scale};

verus! {

/// The ChaCha20 generator from `rand_chacha`, carried through as an
/// opaque value.
#[verifier::external_type_specification]
#[verifier::external_body]
pub struct ExChaCha20Rng(rand_chacha::ChaCha20Rng);

/// The indices that `rand::seq::index::sample(rng, length, amount)`
/// returns (as `into_vec` lists them) when `rng` is
/// `ChaCha20Rng::from_seed(seed)` that has already answered the calls
/// `sample(rng, l, a)` for the pairs `(l, a)` of `requests`, in order.
pub uninterp spec fn chacha_sample(
    seed: Seq<u8>,
    requests: Seq<(usize, usize)>,
    length: usize,
    amount: usize,
) -> Seq<usize>;

/// A `ChaCha20Rng` with, beside it, the seed it was made from and the
/// sampling requests `(length, amount)` it has answered since.
pub struct SeededChaCha {
    rng: ChaCha20Rng,
    seed: Ghost<Seq<u8>>,
    requests: Ghost<Seq<(usize, usize)>>,
}

impl SeededChaCha {
    pub closed spec fn seed_spec(&self) -> Seq<u8> {
        self.seed@
    }

    pub closed spec fn requests_spec(&self) -> Seq<(usize, usize)> {
        self.requests@
    }

    /// A fresh generator for `seed`.
    pub fn from_seed(seed: [u8; 32]) -> (r: SeededChaCha)
        ensures
            r.seed_spec() == seed@,
            r.requests_spec() == Seq::<(usize, usize)>::empty(),
    {
        chacha_from_seed(seed)
    }
}

/// Calls `ChaCha20Rng::from_seed(seed)`; the seed is recorded beside the
/// generator and no request has been answered yet.
#[verifier::external_body]
fn chacha_from_seed(seed: [u8; 32]) -> (r: SeededChaCha)
    ensures
        r.seed@ == seed@,
        r.requests@ == Seq::<(usize, usize)>::empty(),
{
    SeededChaCha { rng: ChaCha20Rng::from_seed(seed), seed: Ghost(seed@), requests: Ghost(Seq::empty()) }
}

/// Calls `rand::seq::index::sample(rng, length, amount)` and returns the
/// indices as a vector; the request is recorded beside the generator.
/// Trusted: the result is the sample named `chacha_sample` for the
/// generator's seed and earlier requests, and the source draws exactly
/// `amount` pairwise distinct indices below `length` (Floyd's algorithm,
/// an in-place partial shuffle, or rejection sampling into a set); it
/// panics when `amount > length`, and its rejection path (taken only for
/// lengths above `u32::MAX`) asserts `amount < length`. Which indices come
/// out is not stated.
#[verifier::external_body]
fn sample_distinct(rng: &mut SeededChaCha, length: usize, amount: usize) -> (r: Vec<usize>)
    requires
        amount <= length,
        length <= u32::MAX || amount < length,
    ensures
        r@ == chacha_sample(old(rng).seed@, old(rng).requests@, length, amount),
        final(rng).seed@ == old(rng).seed@,
        final(rng).requests@ == old(rng).requests@.push((length, amount)),
        r@.len() == amount,
        forall|i: int| 0 <= i < r@.len() ==> #[trigger] r@[i] < length,
        forall|i: int, j: int| 0 <= i < j < r@.len() ==> r@[i] != r@[j],
{
    rng.requests = Ghost(rng.requests@.push((length, amount)));
    rand::seq::index::sample(&mut rng.rng, length, amount).into_vec()
}

/// `n` copies of the request `(length, amount)`.
pub open spec fn repeat_request(n: nat, length: usize, amount: usize) -> Seq<(usize, usize)> {
    Seq::new(n, |i: int| (length, amount))
}

/// The picks of `n` left vertices, each `amount` right vertices out of
/// `length`, drawn one after the other from the generator for `seed` that
/// has answered `requests`.
pub open spec fn drawn_picks(
    seed: Seq<u8>,
    requests: Seq<(usize, usize)>,
    n: nat,
    length: usize,
    amount: usize,
) -> Seq<Seq<usize>> {
    Seq::new(n, |i: int| chacha_sample(seed, requests + repeat_request(i as nat, length, amount), length, amount))
}

/// Errors of the Orion code.
#[derive(Debug, Clone, Copy, PartialEq, Eq, Structural)]
pub enum OrionPCSError {
    /// A buffer or a message does not have the length the code expects.
    ParameterUnmatchError,
}

pub type OrionResult<T> = Result<T, OrionPCSError>;

/// An edge of the bipartite graph, as the index of a left vertex.
pub type DirectedEdge = usize;

/// The left neighbours of one right vertex.
pub type DirectedNeighboring = Vec<DirectedEdge>;

/// `Σ_j l[edges[j]]`, summed left to right from zero.
pub open spec fn gather_sum(l: Seq<M31Ext3>, edges: Seq<usize>) -> M31Ext3
    decreases edges.len(),
{
    if edges.len() == 0 {
        fe_zero()
    } else {
        fe_add(gather_sum(l, edges.drop_last()), l[edges.last() as int])
    }
}

/// A bipartite expander graph from `l_vertices_size` left vertices to
/// `r_vertices_size` right vertices, stored as the left neighbours of each
/// right vertex.
#[derive(Clone, Debug, Default)]
pub struct OrionExpanderGraph {
    pub l_vertices_size: usize,
    pub r_vertices_size: usize,
    pub neighborings: Vec<DirectedNeighboring>,
}

impl OrionExpanderGraph {
    /// The left neighbours of right vertex `r`.
    pub open spec fn nb(&self, r: int) -> Seq<usize> {
        self.neighborings@[r]@
    }

    /// One neighbour list per right vertex, every edge to a left vertex.
    pub open spec fn wf(&self) -> bool {
        &&& self.neighborings@.len() == self.r_vertices_size
        &&& forall|r: int, j: int|
            0 <= r < self.neighborings@.len() && 0 <= j < self.nb(r).len() ==> #[trigger] self.nb(
                r,
            )[j] < self.l_vertices_size
    }

    /// Every neighbour list is strictly increasing.
    pub open spec fn sorted(&self) -> bool {
        forall|r: int, i: int, j: int|
            #![trigger self.nb(r)[i], self.nb(r)[j]]
            0 <= r < self.neighborings@.len() && 0 <= i < j < self.nb(r).len() ==> self.nb(r)[i]
                < self.nb(r)[j]
    }

    /// The right vertices hold `Σ_{e ∈ N(r)} l[e]`.
    pub open spec fn mul_spec(&self, l: Seq<M31Ext3>) -> Seq<M31Ext3> {
        Seq::new(self.r_vertices_size as nat, |r: int| gather_sum(l, self.nb(r)))
    }

    /// Sample a graph: each left vertex picks `expanding_degree` distinct
    /// right vertices. Every neighbour list comes out sorted, and left
    /// vertex `l` is a neighbour of right vertex `r` exactly when `r` is
    /// among the right vertices that `l` picked.
    pub fn new(
        l_vertices_size: usize,
        r_vertices_size: usize,
        expanding_degree: usize,
        rng: &mut SeededChaCha,
    ) -> (g: OrionExpanderGraph)
        requires
            expanding_degree <= r_vertices_size,
            r_vertices_size <= u32::MAX || expanding_degree < r_vertices_size,
        ensures
            g.l_vertices_size == l_vertices_size,
            g.r_vertices_size == r_vertices_size,
            g.wf(),
            g.sorted(),
            picks_of(
                drawn_picks(
                    old(rng).seed_spec(),
                    old(rng).requests_spec(),
                    l_vertices_size as nat,
                    r_vertices_size,
                    expanding_degree,
                ),
                g,
                expanding_degree as nat,
            ),
            final(rng).seed_spec() == old(rng).seed_spec(),
            final(rng).requests_spec() == old(rng).requests_spec() + repeat_request(
                l_vertices_size as nat,
                r_vertices_size,
                expanding_degree,
            ),
    {
        let ghost seed0 = rng.seed_spec();
        let ghost req0 = rng.requests_spec();
        let mut neighborings: Vec<DirectedNeighboring> = Vec::new();
        let mut r: usize = 0;
        while r < r_vertices_size
            invariant
                r <= r_vertices_size,
                neighborings@.len() == r,
                forall|i: int| 0 <= i < r ==> (#[trigger] neighborings@[i])@.len() == 0,
            decreases r_vertices_size - r,
        {
            neighborings.push(Vec::new());
            r = r + 1;
        }
        let ghost mut picks: Seq<Seq<usize>> = Seq::empty();
        let mut l_index: usize = 0;
        proof {
            assert(req0 + repeat_request(0, r_vertices_size, expanding_degree) =~= req0);
            assert(picks =~= drawn_picks(seed0, req0, 0, r_vertices_size, expanding_degree));
        }
        while l_index < l_vertices_size
            invariant
                l_index <= l_vertices_size,
                expanding_degree <= r_vertices_size,
                r_vertices_size <= u32::MAX || expanding_degree < r_vertices_size,
                neighborings@.len() == r_vertices_size,
                picks.len() == l_index,
                forall|q: int, j: int|
                    0 <= q < neighborings@.len() && 0 <= j < neighborings@[q]@.len()
                        ==> #[trigger] neighborings@[q]@[j] < l_index,
                forall|q: int, i: int, j: int|
                    #![trigger neighborings@[q]@[i], neighborings@[q]@[j]]
                    0 <= q < neighborings@.len() && 0 <= i < j < neighborings@[q]@.len()
                        ==> neighborings@[q]@[i] < neighborings@[q]@[j],
                forall|i: int| 0 <= i < l_index ==> pick_ok(#[trigger] picks[i], r_vertices_size, expanding_degree as nat),
                forall|q: int, x: int|
                    0 <= q < r_vertices_size && 0 <= x < l_index ==> (neighborings@[q]@.contains(x as usize)
                        <==> #[trigger] picks[x].contains(q as usize)),
                rng.seed_spec() == seed0,
                rng.requests_spec() == req0 + repeat_request(l_index as nat, r_vertices_size, expanding_degree),
                picks == drawn_picks(seed0, req0, l_index as nat, r_vertices_size, expanding_degree),
            decreases l_vertices_size - l_index,
        {
            let random_r_vertices = sample_distinct(rng, r_vertices_size, expanding_degree);
            proof {
                assert(rng.requests_spec() =~= req0 + repeat_request((l_index + 1) as nat, r_vertices_size, expanding_degree));
            }
            let ghost before = neighborings@;
            let mut k: usize = 0;
            while k < random_r_vertices.len()
                invariant
                    k <= random_r_vertices@.len(),
                    l_index < l_vertices_size,
                    neighborings@.len() == r_vertices_size,
                    random_r_vertices@.len() == expanding_degree,
                    before.len() == r_vertices_size,
                    forall|i: int| 0 <= i < random_r_vertices@.len() ==> #[trigger] random_r_vertices@[i] < r_vertices_size,
                    forall|i: int, j: int| 0 <= i < j < random_r_vertices@.len() ==> random_r_vertices@[i] != random_r_vertices@[j],
                    forall|q: int, j: int|
                        0 <= q < before.len() && 0 <= j < before[q]@.len()
                            ==> #[trigger] before[q]@[j] < l_index,
                    forall|q: int|
                        0 <= q < r_vertices_size ==> (#[trigger] neighborings@[q])@ == if random_r_vertices@.subrange(0, k as int).contains(q as usize) {
                            before[q]@.push(l_index)
                        } else {
                            before[q]@
                        },
                decreases random_r_vertices@.len() - k,
            {
                let rv = random_r_vertices[k];
                proof {
                    assert(!random_r_vertices@.subrange(0, k as int).contains(rv)) by {
                        if random_r_vertices@.subrange(0, k as int).contains(rv) {
                            let i = choose|i: int| 0 <= i < k && random_r_vertices@.subrange(0, k as int)[i] == rv;
                            assert(random_r_vertices@[i] == random_r_vertices@[k as int]);
                        }
                    }
                }
                neighborings[rv].push(l_index);
                k = k + 1;
                proof {
                    assert forall|q: int| 0 <= q < r_vertices_size implies (#[trigger] neighborings@[q])@ == if random_r_vertices@.subrange(0, k as int).contains(q as usize) {
                            before[q]@.push(l_index)
                        } else {
                            before[q]@
                        } by {
                        let s = random_r_vertices@.subrange(0, k as int);
                        let s0 = random_r_vertices@.subrange(0, k - 1);
                        assert(s == s0.push(rv));
                        if q == rv as int {
                            assert(s[k - 1] == rv);
                            assert(s.contains(rv));
                        } else {
                            assert(s.contains(q as usize) <==> s0.contains(q as usize)) by {
                                if s.contains(q as usize) {
                                    let i = choose|i: int| 0 <= i < s.len() && s[i] == q as usize;
                                    assert(s0[i] == q as usize);
                                }
                                if s0.contains(q as usize) {
                                    let i = choose|i: int| 0 <= i < s0.len() && s0[i] == q as usize;
                                    assert(s[i] == q as usize);
                                }
                            }
                        }
                    }
                }
            }
            proof {
                assert(random_r_vertices@.subrange(0, random_r_vertices@.len() as int) == random_r_vertices@);
                let p = random_r_vertices@;
                assert(pick_ok(p, r_vertices_size, expanding_degree as nat));
                let old_picks = picks;
                picks = picks.push(p);
                assert forall|q: int, x: int|
                    0 <= q < r_vertices_size && 0 <= x < l_index + 1 implies (neighborings@[q]@.contains(x as usize)
                        <==> #[trigger] picks[x].contains(q as usize)) by {
                    if p.contains(q as usize) {
                        assert(neighborings@[q]@ == before[q]@.push(l_index));
                        if x < l_index {
                            assert(picks[x] == old_picks[x]);
                            if neighborings@[q]@.contains(x as usize) {
                                let j = choose|j: int| 0 <= j < neighborings@[q]@.len() && neighborings@[q]@[j] == x as usize;
                                assert(j < before[q]@.len());
                                assert(before[q]@.contains(x as usize));
                            }
                            if before[q]@.contains(x as usize) {
                                let j = choose|j: int| 0 <= j < before[q]@.len() && before[q]@[j] == x as usize;
                                assert(neighborings@[q]@[j] == x as usize);
                            }
                        } else {
                            assert(neighborings@[q]@.last() == l_index);
                        }
                    } else {
                        assert(neighborings@[q]@ == before[q]@);
                        if x < l_index {
                            assert(picks[x] == old_picks[x]);
                        } else {
                            if neighborings@[q]@.contains(x as usize) {
                                let j = choose|j: int| 0 <= j < neighborings@[q]@.len() && neighborings@[q]@[j] == x as usize;
                                assert(before[q]@[j] < l_index);
                            }
                        }
                    }
                }
                assert forall|i: int| 0 <= i < l_index + 1 implies pick_ok(#[trigger] picks[i], r_vertices_size, expanding_degree as nat) by {
                    if i < l_index {
                        assert(picks[i] == old_picks[i]);
                    }
                }
                assert(picks =~= drawn_picks(seed0, req0, (l_index + 1) as nat, r_vertices_size, expanding_degree));
            }
            l_index = l_index + 1;
        }
        let g = OrionExpanderGraph { neighborings, l_vertices_size, r_vertices_size };
        assert(picks_of(picks, g, expanding_degree as nat));
        g
    }

    /// `r_vertices[r] = Σ_{e ∈ N(r)} l_vertices[e]`, or
    /// `ParameterUnmatchError` (with `r_vertices` untouched) when either
    /// slice does not have the graph's size.
    pub fn expander_mul(&self, l_vertices: &[M31Ext3], r_vertices: &mut [M31Ext3]) -> (res:
        OrionResult<()>)
        requires
            self.wf(),
        ensures
            (l_vertices@.len() == self.l_vertices_size && old(r_vertices)@.len()
                == self.r_vertices_size) <==> res is Ok,
            res is Ok ==> final(r_vertices)@ == self.mul_spec(l_vertices@),
            res is Err ==> final(r_vertices)@ == old(r_vertices)@,
    {
        if l_vertices.len() != self.l_vertices_size || r_vertices.len() != self.r_vertices_size {
            return Err(OrionPCSError::ParameterUnmatchError);
        }
        let mut i: usize = 0;
        while i < self.r_vertices_size
            invariant
                self.wf(),
                l_vertices@.len() == self.l_vertices_size,
                r_vertices@.len() == self.r_vertices_size,
                i <= self.r_vertices_size,
                forall|j: int| 0 <= j < i ==> r_vertices@[j] == #[trigger] gather_sum(l_vertices@, self.nb(j)),
            decreases self.r_vertices_size - i,
        {
            proof {
                assert(self.neighborings@[i as int]@ == self.nb(i as int));
                assert forall|j: int| 0 <= j < self.nb(i as int).len() implies #[trigger] self.nb(
                    i as int,
                )[j] < l_vertices@.len() by {}
            }
            let s = sum_neighbors(l_vertices, &self.neighborings[i]);
            r_vertices.set(i, s);
            i = i + 1;
        }
        assert(r_vertices@ == self.mul_spec(l_vertices@));
        Ok(())
    }
}

/// `picks` lists, for each left vertex, the right vertices it picked: each
/// pick is `degree` distinct right vertices, and the graph's neighbour
/// lists are the transpose of the picks.
pub open spec fn picks_of(picks: Seq<Seq<usize>>, g: OrionExpanderGraph, degree: nat) -> bool {
    &&& picks.len() == g.l_vertices_size
    &&& forall|i: int| 0 <= i < picks.len() ==> pick_ok(#[trigger] picks[i], g.r_vertices_size, degree)
    &&& forall|q: int, x: int|
        0 <= q < g.r_vertices_size && 0 <= x < g.l_vertices_size ==> (g.nb(q).contains(x as usize)
            <==> #[trigger] picks[x].contains(q as usize))
}

/// `degree` distinct right vertices below `r_size`.
pub open spec fn pick_ok(p: Seq<usize>, r_size: usize, degree: nat) -> bool {
    &&& p.len() == degree
    &&& forall|i: int| 0 <= i < p.len() ==> #[trigger] p[i] < r_size
    &&& forall|i: int, j: int| 0 <= i < j < p.len() ==> p[i] != p[j]
}

/// `Σ_j l[edges[j]]`.
fn sum_neighbors(l: &[M31Ext3], edges: &Vec<usize>) -> (s: M31Ext3)
    requires
        forall|j: int| 0 <= j < edges@.len() ==> #[trigger] edges@[j] < l@.len(),
    ensures
        s == gather_sum(l@, edges@),
{
    let mut acc = M31Ext3::zero();
    let mut j: usize = 0;
    while j < edges.len()
        invariant
            j <= edges@.len(),
            forall|q: int| 0 <= q < edges@.len() ==> #[trigger] edges@[q] < l@.len(),
            acc == gather_sum(l@, edges@.subrange(0, j as int)),
        decreases edges@.len() - j,
    {
        let e = edges[j];
        acc = acc.add(&l[e]);
        proof {
            let t = edges@.subrange(0, j + 1);
            assert(t.drop_last() == edges@.subrange(0, j as int));
        }
        j = j + 1;
    }
    assert(edges@.subrange(0, edges@.len() as int) == edges@);
    acc
}


/// An expander graph placed in the codeword buffer: it reads
/// `buffer[input_starts..output_starts]` and writes
/// `buffer[output_starts..=output_ends]`.
#[derive(Clone, Debug, Default)]
pub struct OrionExpanderGraphPositioned {
    pub graph: OrionExpanderGraph,
    pub input_starts: usize,
    pub output_starts: usize,
    pub output_ends: usize,
}

impl OrionExpanderGraphPositioned {
    /// Both ranges lie inside a buffer of length `len`.
    pub open spec fn in_range(&self, len: nat) -> bool {
        self.input_starts <= self.output_starts <= self.output_ends + 1 <= len
    }

    /// The graph's sides have the sizes of the two ranges.
    pub open spec fn sizes_match(&self) -> bool {
        &&& self.graph.l_vertices_size == self.output_starts - self.input_starts
        &&& self.graph.r_vertices_size == self.output_ends + 1 - self.output_starts
    }

    /// The buffer after this graph has written its outputs.
    pub open spec fn apply(&self, buf: Seq<M31Ext3>) -> Seq<M31Ext3> {
        buf.subrange(0, self.output_starts as int) + self.graph.mul_spec(
            buf.subrange(self.input_starts as int, self.output_starts as int),
        ) + buf.subrange(self.output_ends + 1, buf.len() as int)
    }

    /// Sample a graph from the input range to the output range.
    pub fn new(
        input_starts: usize,
        output_starts: usize,
        output_ends: usize,
        expanding_degree: usize,
        rng: &mut SeededChaCha,
    ) -> (g: OrionExpanderGraphPositioned)
        requires
            input_starts <= output_starts <= output_ends < usize::MAX,
            expanding_degree <= output_ends - output_starts + 1,
            output_ends - output_starts + 1 <= u32::MAX || expanding_degree < output_ends
                - output_starts + 1,
        ensures
            g.input_starts == input_starts,
            g.output_starts == output_starts,
            g.output_ends == output_ends,
            g.sizes_match(),
            g.graph.wf(),
            g.graph.sorted(),
            picks_of(
                drawn_picks(
                    old(rng).seed_spec(),
                    old(rng).requests_spec(),
                    (output_starts - input_starts) as nat,
                    (output_ends - output_starts + 1) as usize,
                    expanding_degree,
                ),
                g.graph,
                expanding_degree as nat,
            ),
            final(rng).seed_spec() == old(rng).seed_spec(),
            final(rng).requests_spec() == old(rng).requests_spec() + repeat_request(
                (output_starts - input_starts) as nat,
                (output_ends - output_starts + 1) as usize,
                expanding_degree,
            ),
    {
        OrionExpanderGraphPositioned {
            graph: OrionExpanderGraph::new(
                output_starts - input_starts,
                output_ends - output_starts + 1,
                expanding_degree,
                rng,
            ),
            input_starts,
            output_starts,
            output_ends,
        }
    }

    /// Write the graph's outputs into `buffer` (and into the same range of
    /// `scratch`), or report `ParameterUnmatchError`, touching neither,
    /// when the graph's sizes differ from its ranges.
    pub fn expander_mul(&self, buffer: &mut [M31Ext3], scratch: &mut [M31Ext3]) -> (res:
        OrionResult<()>)
        requires
            self.graph.wf(),
            self.in_range(old(buffer)@.len()),
            self.in_range(old(scratch)@.len()),
        ensures
            res is Ok <==> self.sizes_match(),
            res is Ok ==> final(buffer)@ == self.apply(old(buffer)@),
            res is Ok ==> final(scratch)@ == old(scratch)@.subrange(0, self.output_starts as int)
                + self.graph.mul_spec(
                old(buffer)@.subrange(self.input_starts as int, self.output_starts as int),
            ) + old(scratch)@.subrange(self.output_ends + 1, old(scratch)@.len() as int),
            res is Err ==> final(buffer)@ == old(buffer)@ && final(scratch)@ == old(scratch)@,
    {
        let blen = buffer.len();
        let out_end = self.output_ends + 1;
        let input = slice_subrange(buffer, self.input_starts, self.output_starts);
        let mut out = slice_to_vec(slice_subrange(scratch, self.output_starts, out_end));
        let ghost inp = input@;
        match self.graph.expander_mul(input, out.as_mut_slice()) {
            Err(e) => {
                return Err(e);
            },
            Ok(()) => {},
        }
        assert(out@ == self.graph.mul_spec(inp));
        let ghost b0 = buffer@;
        let ghost s0 = scratch@;
        let mut i: usize = 0;
        while i < out.len()
            invariant
                self.in_range(buffer@.len()),
                self.in_range(scratch@.len()),
                buffer@.len() == b0.len(),
                scratch@.len() == s0.len(),
                out@.len() == out_end - self.output_starts,
                self.output_ends + 1 == out_end,
                i <= out@.len(),
                forall|j: int| 0 <= j < buffer@.len() ==> #[trigger] buffer@[j] == if self.output_starts <= j < self.output_starts + i {
                    out@[j - self.output_starts]
                } else {
                    b0[j]
                },
                forall|j: int| 0 <= j < scratch@.len() ==> #[trigger] scratch@[j] == if self.output_starts <= j < self.output_starts + i {
                    out@[j - self.output_starts]
                } else {
                    s0[j]
                },
            decreases out@.len() - i,
        {
            buffer.set(self.output_starts + i, out[i]);
            scratch.set(self.output_starts + i, out[i]);
            i = i + 1;
        }
        assert(buffer@ =~= self.apply(b0));
        assert(scratch@ =~= s0.subrange(0, self.output_starts as int) + self.graph.mul_spec(inp)
            + s0.subrange(self.output_ends + 1, s0.len() as int));
        Ok(())
    }
}

/// Apply the graphs `gs` in order to `buf`.
pub open spec fn apply_graphs(buf: Seq<M31Ext3>, gs: Seq<OrionExpanderGraphPositioned>) -> Seq<
    M31Ext3,
>
    decreases gs.len(),
{
    if gs.len() == 0 {
        buf
    } else {
        gs.last().apply(apply_graphs(buf, gs.drop_last()))
    }
}


/// The ratio `num / den`.
#[derive(Clone, Copy, Debug, PartialEq, Eq, Structural)]
pub struct Ratio {
    pub num: u32,
    pub den: u32,
}

/// The parameters of an Orion code: graphs of the first chain map a
/// segment of length `n` to one of length `round(alpha_g0 · n)` with left
/// degree `degree_g0`, down to segments of length `length_threshold_g0s`;
/// graphs of the second chain map a segment of length `L` to one of length
/// `round(alpha_g1 · L)` with left degree `degree_g1`. `hamming_weight` is
/// the code's relative distance.
#[derive(Clone, Copy, Debug, PartialEq, Eq, Structural)]
pub struct OrionCodeParameter {
    pub alpha_g0: Ratio,
    pub degree_g0: usize,
    pub length_threshold_g0s: usize,
    pub alpha_g1: Ratio,
    pub degree_g1: usize,
    pub hamming_weight: Ratio,
}

/// The instance of the Orion paper, Section 5: `alpha_g0 = 0.33`,
/// `degree_g0 = 6`, threshold 12, `alpha_g1 = 0.337`, `degree_g1 = 6`,
/// relative distance `0.055`.
pub open spec fn parameter_instance_spec() -> OrionCodeParameter {
    OrionCodeParameter {
        alpha_g0: Ratio { num: 33, den: 100 },
        degree_g0: 6,
        length_threshold_g0s: 12,
        alpha_g1: Ratio { num: 337, den: 1000 },
        degree_g1: 6,
        hamming_weight: Ratio { num: 55, den: 1000 },
    }
}

/// The parameters of the Orion paper, Section 5.
pub fn orion_code_parameter_instance() -> (p: OrionCodeParameter)
    ensures
        p == parameter_instance_spec(),
{
    OrionCodeParameter {
        alpha_g0: Ratio { num: 33, den: 100 },
        degree_g0: 6,
        length_threshold_g0s: 12,
        alpha_g1: Ratio { num: 337, den: 1000 },
        degree_g1: 6,
        hamming_weight: Ratio { num: 55, den: 1000 },
    }
}

/// `round(n · num / den)`, halves rounded up.
pub open spec fn scale_round(n: nat, a: Ratio) -> nat {
    ((2 * n * a.num + a.den) / (2 * a.den as int)) as nat
}

/// Sane parameters: `1 / threshold > hamming_weight`, both ratios in
/// `(0, 1)`, and the first chain shrinks every segment longer than the
/// threshold (so its construction ends).
pub open spec fn params_ok(p: OrionCodeParameter) -> bool {
    &&& 0 < p.hamming_weight.den
    &&& p.hamming_weight.num * p.length_threshold_g0s < p.hamming_weight.den
    &&& 0 < p.alpha_g0.num < p.alpha_g0.den
    &&& 0 < p.alpha_g1.num < p.alpha_g1.den
    &&& p.alpha_g0.den < 2 * (p.length_threshold_g0s + 1) * (p.alpha_g0.den - p.alpha_g0.num)
}

/// One planned graph: `(input start, output start, output length)`.
pub type Planned = (nat, nat, nat);

/// The first chain, from a segment `[in_s, out_s)`: while the segment is
/// longer than the threshold, a graph maps it to the next
/// `round(alpha_g0 · n)` positions, which become the next segment.
pub open spec fn g0_plan(p: OrionCodeParameter, in_s: nat, out_s: nat) -> Seq<Planned>
    decreases out_s - in_s,
{
    if out_s > in_s + p.length_threshold_g0s {
        let n = (out_s - in_s) as nat;
        let len = scale_round(n, p.alpha_g0);
        if len < n {
            seq![(in_s, out_s, len)] + g0_plan(p, out_s, out_s + len)
        } else {
            seq![]
        }
    } else {
        seq![]
    }
}

/// Where the first chain ends.
pub open spec fn g0_end(p: OrionCodeParameter, in_s: nat, out_s: nat) -> nat
    decreases out_s - in_s,
{
    if out_s > in_s + p.length_threshold_g0s {
        let n = (out_s - in_s) as nat;
        let len = scale_round(n, p.alpha_g0);
        if len < n {
            g0_end(p, out_s, out_s + len)
        } else {
            out_s
        }
    } else {
        out_s
    }
}

/// The second chain: the first chain's output starts, last first; each
/// graph maps everything from that start to the current end onto the next
/// `round(alpha_g1 · L)` positions.
pub open spec fn g1_plan(p: OrionCodeParameter, starts: Seq<nat>, end: nat) -> Seq<Planned>
    decreases starts.len(),
{
    if starts.len() == 0 {
        seq![]
    } else {
        let inp = starts.last();
        let len = scale_round((end - inp) as nat, p.alpha_g1);
        seq![(inp, end, len)] + g1_plan(p, starts.drop_last(), end + len)
    }
}

/// Where the second chain ends.
pub open spec fn g1_end(p: OrionCodeParameter, starts: Seq<nat>, end: nat) -> nat
    decreases starts.len(),
{
    if starts.len() == 0 {
        end
    } else {
        let inp = starts.last();
        let len = scale_round((end - inp) as nat, p.alpha_g1);
        g1_end(p, starts.drop_last(), end + len)
    }
}

/// The output starts of a chain.
pub open spec fn plan_starts(plan: Seq<Planned>) -> Seq<nat> {
    plan.map_values(|e: Planned| e.1)
}

/// The first chain for a message of length `msg_len`.
pub open spec fn g0_layout(p: OrionCodeParameter, msg_len: nat) -> Seq<Planned> {
    g0_plan(p, 0, msg_len)
}

/// The second chain for a message of length `msg_len`.
pub open spec fn g1_layout(p: OrionCodeParameter, msg_len: nat) -> Seq<Planned> {
    g1_plan(p, plan_starts(g0_layout(p, msg_len)), g0_end(p, 0, msg_len))
}

/// The codeword length for a message of length `msg_len`.
pub open spec fn code_len_spec(p: OrionCodeParameter, msg_len: nat) -> nat {
    g1_end(p, plan_starts(g0_layout(p, msg_len)), g0_end(p, 0, msg_len))
}

/// A planned graph can be built: it has at least one output and its
/// degree can be sampled.
pub open spec fn planned_ok(e: Planned, degree: usize) -> bool {
    &&& e.2 >= 1
    &&& e.2 <= u32::MAX || degree < e.2
}

/// Every planned graph can be built and the codeword length fits in a
/// `usize`.
pub open spec fn layout_ok(p: OrionCodeParameter, msg_len: nat) -> bool {
    &&& forall|i: int| 0 <= i < g0_layout(p, msg_len).len() ==> planned_ok(#[trigger] g0_layout(p, msg_len)[i], p.degree_g0)
    &&& forall|i: int| 0 <= i < g1_layout(p, msg_len).len() ==> planned_ok(#[trigger] g1_layout(p, msg_len)[i], p.degree_g1)
    &&& code_len_spec(p, msg_len) < usize::MAX
}

/// A positioned graph sits where `e` plans it.
pub open spec fn placed_as(g: OrionExpanderGraphPositioned, e: Planned) -> bool {
    &&& g.input_starts == e.0
    &&& g.output_starts == e.1
    &&& g.output_ends + 1 == e.1 + e.2
}

proof fn lemma_scale_round_le(n: nat, a: Ratio)
    requires
        a.num < a.den,
    ensures
        scale_round(n, a) <= n,
{
    let num = a.num as int;
    let den = a.den as int;
    assert(2 * n * num + den < 2 * den * (n + 1)) by (nonlinear_arith)
        requires
            0 <= num < den,
            n >= 0,
    ;
    vstd::arithmetic::div_mod::lemma_multiply_divide_lt(2 * n * num + den, 2 * den, (n + 1) as int);
}

proof fn lemma_g0_shrinks(p: OrionCodeParameter, n: nat)
    requires
        params_ok(p),
        n > p.length_threshold_g0s,
    ensures
        scale_round(n, p.alpha_g0) < n,
{
    let num = p.alpha_g0.num as int;
    let den = p.alpha_g0.den as int;
    let t = p.length_threshold_g0s as int;
    assert(2 * n * num + den < 2 * den * n) by (nonlinear_arith)
        requires
            0 < num < den,
            den < 2 * (t + 1) * (den - num),
            n >= t + 1,
    ;
    vstd::arithmetic::div_mod::lemma_multiply_divide_lt(2 * n * num + den, 2 * den, n as int);
}

proof fn lemma_g0_end_ge(p: OrionCodeParameter, in_s: nat, out_s: nat)
    ensures
        g0_end(p, in_s, out_s) >= out_s,
        forall|i: int| 0 <= i < g0_plan(p, in_s, out_s).len() ==> #[trigger] g0_plan(p, in_s, out_s)[i].1
            + g0_plan(p, in_s, out_s)[i].2 <= g0_end(p, in_s, out_s),
        forall|i: int| 0 <= i < g0_plan(p, in_s, out_s).len() ==> out_s <= (#[trigger] g0_plan(p, in_s, out_s)[i]).1,
    decreases out_s - in_s,
{
    if out_s > in_s + p.length_threshold_g0s {
        let n = (out_s - in_s) as nat;
        let len = scale_round(n, p.alpha_g0);
        if len < n {
            lemma_g0_end_ge(p, out_s, out_s + len);
            let rest = g0_plan(p, out_s, out_s + len);
            assert forall|i: int| 0 <= i < g0_plan(p, in_s, out_s).len() implies #[trigger] g0_plan(p, in_s, out_s)[i].1
                + g0_plan(p, in_s, out_s)[i].2 <= g0_end(p, in_s, out_s) && out_s <= g0_plan(p, in_s, out_s)[i].1 by {
                if i > 0 {
                    assert(g0_plan(p, in_s, out_s)[i] == rest[i - 1]);
                }
            }
        }
    }
}

proof fn lemma_g1_end_ge(p: OrionCodeParameter, starts: Seq<nat>, end: nat)
    ensures
        g1_end(p, starts, end) >= end,
        forall|i: int| 0 <= i < g1_plan(p, starts, end).len() ==> #[trigger] g1_plan(p, starts, end)[i].1
            + g1_plan(p, starts, end)[i].2 <= g1_end(p, starts, end),
        forall|i: int| 0 <= i < g1_plan(p, starts, end).len() ==> end <= (#[trigger] g1_plan(p, starts, end)[i]).1,
        g1_plan(p, starts, end).len() == starts.len(),
    decreases starts.len(),
{
    if starts.len() > 0 {
        let inp = starts.last();
        let len = scale_round((end - inp) as nat, p.alpha_g1);
        lemma_g1_end_ge(p, starts.drop_last(), end + len);
        let rest = g1_plan(p, starts.drop_last(), end + len);
        assert forall|i: int| 0 <= i < g1_plan(p, starts, end).len() implies #[trigger] g1_plan(p, starts, end)[i].1
            + g1_plan(p, starts, end)[i].2 <= g1_end(p, starts, end) && end <= g1_plan(p, starts, end)[i].1 by {
            if i > 0 {
                assert(g1_plan(p, starts, end)[i] == rest[i - 1]);
            }
        }
    }
}

/// The codeword is at least as long as the message.
pub proof fn lemma_code_len_ge(p: OrionCodeParameter, msg_len: nat)
    ensures
        code_len_spec(p, msg_len) >= msg_len,
{
    lemma_g0_end_ge(p, 0, msg_len);
    lemma_g1_end_ge(p, plan_starts(g0_layout(p, msg_len)), g0_end(p, 0, msg_len));
}

/// `round(n · num / den)`, halves rounded up.
fn scale_round_exec(n: usize, a: Ratio) -> (r: usize)
    requires
        a.num < a.den,
    ensures
        r == scale_round(n as nat, a),
{
    proof {
        lemma_scale_round_le(n as nat, a);
        assert(2 * (n as int) * (a.num as int) + a.den as int <= 0x10_0000_0000_0000_0000_0000_0000)
            by (nonlinear_arith)
            requires
                n <= usize::MAX,
                a.num <= u32::MAX,
                a.den <= u32::MAX,
        ;
    }
    let x: u128 = 2 * (n as u128) * (a.num as u128) + a.den as u128;
    let d: u128 = 2 * (a.den as u128);
    (x / d) as usize
}


/// `g` came out of the sampler with left degree `degree`: its neighbour
/// lists are sorted and transpose a choice of `degree` distinct right
/// vertices for every left vertex.
pub open spec fn sampled_with(g: OrionExpanderGraph, degree: nat) -> bool {
    &&& g.sorted()
    &&& exists|picks: Seq<Seq<usize>>| picks_of(picks, g, degree)
}

/// `min(a, b)`.
pub open spec fn min_nat(a: nat, b: nat) -> nat {
    if a < b {
        a
    } else {
        b
    }
}

/// The sampling degree of a graph of a chain with degree `degree`: the
/// chain's degree, capped by the graph's number of outputs.
pub open spec fn chain_degree(g: OrionExpanderGraphPositioned, degree: usize) -> usize {
    min_nat(degree as nat, g.graph.r_vertices_size as nat) as usize
}

/// The sampling requests that building the graphs `gs` of a chain makes,
/// in order: one `(outputs, degree)` request per left vertex.
pub open spec fn chain_requests(gs: Seq<OrionExpanderGraphPositioned>, degree: usize) -> Seq<(usize, usize)>
    decreases gs.len(),
{
    if gs.len() == 0 {
        Seq::empty()
    } else {
        let g = gs.last();
        chain_requests(gs.drop_last(), degree) + repeat_request(
            g.graph.l_vertices_size as nat,
            g.graph.r_vertices_size,
            chain_degree(g, degree),
        )
    }
}

/// Every graph of the chain `gs` holds the picks drawn for it from the
/// generator for `seed`, after the requests `base` and those of the graphs
/// before it.
pub open spec fn chain_drawn(
    gs: Seq<OrionExpanderGraphPositioned>,
    degree: usize,
    seed: Seq<u8>,
    base: Seq<(usize, usize)>,
) -> bool {
    forall|j: int|
        0 <= j < gs.len() ==> picks_of(
            drawn_picks(
                seed,
                base + chain_requests(gs.take(j), degree),
                (#[trigger] gs[j]).graph.l_vertices_size as nat,
                gs[j].graph.r_vertices_size,
                chain_degree(gs[j], degree),
            ),
            gs[j].graph,
            chain_degree(gs[j], degree) as nat,
        )
}

/// Appending a graph drawn after the chain keeps the chain drawn.
proof fn lemma_chain_drawn_push(
    gs: Seq<OrionExpanderGraphPositioned>,
    g: OrionExpanderGraphPositioned,
    degree: usize,
    seed: Seq<u8>,
    base: Seq<(usize, usize)>,
)
    requires
        chain_drawn(gs, degree, seed, base),
        picks_of(
            drawn_picks(
                seed,
                base + chain_requests(gs, degree),
                g.graph.l_vertices_size as nat,
                g.graph.r_vertices_size,
                chain_degree(g, degree),
            ),
            g.graph,
            chain_degree(g, degree) as nat,
        ),
    ensures
        chain_drawn(gs.push(g), degree, seed, base),
        chain_requests(gs.push(g), degree) == chain_requests(gs, degree) + repeat_request(
            g.graph.l_vertices_size as nat,
            g.graph.r_vertices_size,
            chain_degree(g, degree),
        ),
{
    let gs2 = gs.push(g);
    assert(gs2.drop_last() =~= gs);
    assert forall|j: int| 0 <= j < gs2.len() implies picks_of(
        drawn_picks(
            seed,
            base + chain_requests(gs2.take(j), degree),
            (#[trigger] gs2[j]).graph.l_vertices_size as nat,
            gs2[j].graph.r_vertices_size,
            chain_degree(gs2[j], degree),
        ),
        gs2[j].graph,
        chain_degree(gs2[j], degree) as nat,
    ) by {
        if j < gs.len() {
            assert(gs2.take(j) =~= gs.take(j));
            assert(gs2[j] == gs[j]);
        } else {
            assert(gs2.take(j) =~= gs);
        }
    }
}

/// An Orion code instance: the message occupies the start of the
/// codeword buffer, then the graphs of `g0s` and of `g1s` write, in that
/// order, the rest of it.
#[derive(Clone, Debug)]
pub struct OrionCode {
    pub hamming_weight: Ratio,
    pub msg_len: usize,
    pub codeword_len: usize,
    pub g0s: Vec<OrionExpanderGraphPositioned>,
    pub g1s: Vec<OrionExpanderGraphPositioned>,
}

pub type OrionCodeword = Vec<M31Ext3>;

impl OrionCode {
    /// The graphs, in the order they are applied.
    pub open spec fn graphs(&self) -> Seq<OrionExpanderGraphPositioned> {
        self.g0s@ + self.g1s@
    }

    /// Every graph is well formed and writes inside the buffer, after the
    /// message.
    pub open spec fn positions_ok(&self) -> bool {
        &&& self.msg_len <= self.codeword_len
        &&& forall|i: int| 0 <= i < self.graphs().len() ==> {
            &&& (#[trigger] self.graphs()[i]).in_range(self.codeword_len as nat)
            &&& self.graphs()[i].graph.wf()
            &&& self.msg_len <= self.graphs()[i].output_starts
        }
    }

    /// Every graph's sides have the sizes of its ranges.
    pub open spec fn sizes_ok(&self) -> bool {
        forall|i: int| 0 <= i < self.graphs().len() ==> (#[trigger] self.graphs()[i]).sizes_match()
    }

    /// The graphs sit where the layout for `p` and `self.msg_len` plans
    /// them, with the degrees it prescribes.
    pub open spec fn laid_out(&self, p: OrionCodeParameter) -> bool {
        let l0 = g0_layout(p, self.msg_len as nat);
        let l1 = g1_layout(p, self.msg_len as nat);
        &&& self.g0s@.len() == l0.len()
        &&& self.g1s@.len() == l1.len()
        &&& forall|j: int| 0 <= j < l0.len() ==> placed_as(#[trigger] self.g0s@[j], l0[j])
            && sampled_with(self.g0s@[j].graph, min_nat(p.degree_g0 as nat, l0[j].2))
        &&& forall|j: int| 0 <= j < l1.len() ==> placed_as(#[trigger] self.g1s@[j], l1[j])
            && sampled_with(self.g1s@[j].graph, min_nat(p.degree_g1 as nat, l1[j].2))
    }

    /// The codeword of `msg`: the message followed by zeros, then every
    /// graph applied in order.
    pub open spec fn encode_spec(&self, msg: Seq<M31Ext3>) -> Seq<M31Ext3> {
        apply_graphs(msg + zeros((self.codeword_len - self.msg_len) as nat), self.graphs())
    }

    /// The graphs hold the picks drawn, chain after chain and graph after
    /// graph, from the generator for `seed` after the requests `base`.
    pub open spec fn drawn_from(&self, p: OrionCodeParameter, seed: Seq<u8>, base: Seq<(usize, usize)>) -> bool {
        &&& chain_drawn(self.g0s@, p.degree_g0, seed, base)
        &&& chain_drawn(self.g1s@, p.degree_g1, seed, base + chain_requests(self.g0s@, p.degree_g0))
    }

    /// The sampling requests that building the graphs makes, in order.
    pub open spec fn requests(&self, p: OrionCodeParameter) -> Seq<(usize, usize)> {
        chain_requests(self.g0s@, p.degree_g0) + chain_requests(self.g1s@, p.degree_g1)
    }

    /// Build the code for messages of length `msg_len`, sampling every
    /// graph from `rng`.
    ///
    /// `layout_ok` asks every planned graph for at least one output. A
    /// graph planned with none would end at `output_ends = output_starts − 1`,
    /// and its width `output_ends − output_starts + 1` underflows: the build
    /// stops with an arithmetic overflow. It also asks that the degree can
    /// be sampled and that the codeword length fits a `usize`. The
    /// production code checks these for its message lengths
    /// (`orion_msg_len_ok`, `orion_msg_len_supported`).
    #[verifier::rlimit(40)]
    #[verifier::spinoff_prover]
    pub fn new(params: OrionCodeParameter, msg_len: usize, rng: &mut SeededChaCha) -> (c: OrionCode)
        requires
            params_ok(params),
            layout_ok(params, msg_len as nat),
        ensures
            c.hamming_weight == params.hamming_weight,
            c.msg_len == msg_len,
            c.codeword_len == code_len_spec(params, msg_len as nat),
            c.positions_ok(),
            c.sizes_ok(),
            c.laid_out(params),
            c.drawn_from(params, old(rng).seed_spec(), old(rng).requests_spec()),
            final(rng).seed_spec() == old(rng).seed_spec(),
            final(rng).requests_spec() == old(rng).requests_spec() + c.requests(params),
    {
        let ghost seed0 = rng.seed_spec();
        let ghost req0 = rng.requests_spec();
        let ghost l0 = g0_layout(params, msg_len as nat);
        let ghost l1 = g1_layout(params, msg_len as nat);
        let ghost total = code_len_spec(params, msg_len as nat);
        let ghost end0 = g0_end(params, 0, msg_len as nat);
        proof {
            lemma_g0_end_ge(params, 0, msg_len as nat);
            lemma_g1_end_ge(params, plan_starts(l0), end0);
            assert(total >= end0);
        }
        let mut recursive_g0_output_starts: Vec<usize> = Vec::new();
        let mut g0s: Vec<OrionExpanderGraphPositioned> = Vec::new();
        let mut g1s: Vec<OrionExpanderGraphPositioned> = Vec::new();
        let mut g0_input_starts: usize = 0;
        let mut g0_output_starts: usize = msg_len;
        let ghost mut done0: Seq<Planned> = seq![];
        proof {
            assert(req0 + chain_requests(g0s@, params.degree_g0) =~= req0);
        }
        while g0_output_starts - g0_input_starts > params.length_threshold_g0s
            invariant
                params_ok(params),
                layout_ok(params, msg_len as nat),
                l0 == g0_layout(params, msg_len as nat),
                total == code_len_spec(params, msg_len as nat),
                end0 == g0_end(params, 0, msg_len as nat),
                total >= end0,
                total < usize::MAX,
                g0_input_starts <= g0_output_starts,
                msg_len <= g0_output_starts,
                g0_output_starts <= end0,
                l0 == done0 + g0_plan(params, g0_input_starts as nat, g0_output_starts as nat),
                g0_end(params, g0_input_starts as nat, g0_output_starts as nat) == end0,
                g0s@.len() == done0.len(),
                recursive_g0_output_starts@.len() == done0.len(),
                forall|j: int| 0 <= j < done0.len() ==> #[trigger] recursive_g0_output_starts@[j] == done0[j].1,
                forall|j: int| 0 <= j < done0.len() ==> done0[j].1 <= g0_input_starts,
                forall|j: int| 0 <= j < done0.len() ==> {
                    &&& placed_as(#[trigger] g0s@[j], done0[j])
                    &&& sampled_with(g0s@[j].graph, min_nat(params.degree_g0 as nat, done0[j].2))
                    &&& g0s@[j].graph.wf()
                    &&& g0s@[j].sizes_match()
                    &&& g0s@[j].in_range(total)
                    &&& msg_len <= g0s@[j].output_starts
                },
                rng.seed_spec() == seed0,
                rng.requests_spec() == req0 + chain_requests(g0s@, params.degree_g0),
                chain_drawn(g0s@, params.degree_g0, seed0, req0),
            decreases g0_output_starts - g0_input_starts,
        {
            let n = g0_output_starts - g0_input_starts;
            proof {
                lemma_g0_shrinks(params, n as nat);
            }
            let g0_output_len = scale_round_exec(n, params.alpha_g0);
            let ghost e: Planned = (g0_input_starts as nat, g0_output_starts as nat, g0_output_len as nat);
            let ghost rest = g0_plan(params, g0_output_starts as nat, (g0_output_starts + g0_output_len) as nat);
            proof {
                assert(g0_plan(params, g0_input_starts as nat, g0_output_starts as nat) == seq![e] + rest);
                lemma_g0_end_ge(params, g0_input_starts as nat, g0_output_starts as nat);
                assert(g0_plan(params, g0_input_starts as nat, g0_output_starts as nat)[0] == e);
                assert(l0[done0.len() as int] == e);
                assert(planned_ok(l0[done0.len() as int], params.degree_g0));
            }
            let degree_g0 = if params.degree_g0 < g0_output_len {
                params.degree_g0
            } else {
                g0_output_len
            };
            let g = OrionExpanderGraphPositioned::new(
                g0_input_starts,
                g0_output_starts,
                g0_output_starts + g0_output_len - 1,
                degree_g0,
                rng,
            );
            proof {
                assert(chain_degree(g, params.degree_g0) == degree_g0);
                lemma_chain_drawn_push(g0s@, g, params.degree_g0, seed0, req0);
                assert(rng.requests_spec() =~= req0 + chain_requests(g0s@.push(g), params.degree_g0));
            }
            g0s.push(g);
            recursive_g0_output_starts.push(g0_output_starts);
            proof {
                assert(l0 == done0.push(e) + rest);
                done0 = done0.push(e);
            }
            g0_input_starts = g0_output_starts;
            g0_output_starts = g0_output_starts + g0_output_len;
        }
        proof {
            assert(l0 == done0);
        }
        let ghost starts0 = plan_starts(l0);
        let mut g1_output_starts: usize = g0_output_starts;
        let ghost mut done1: Seq<Planned> = seq![];
        proof {
            assert(req0 + chain_requests(g0s@, params.degree_g0) + chain_requests(g1s@, params.degree_g1)
                =~= req0 + chain_requests(g0s@, params.degree_g0));
        }
        proof {
            assert(recursive_g0_output_starts@.len() == starts0.len());
            assert(starts0.take(starts0.len() as int) == starts0);
        }
        while recursive_g0_output_starts.len() > 0
            invariant
                params_ok(params),
                layout_ok(params, msg_len as nat),
                l0 == g0_layout(params, msg_len as nat),
                l1 == g1_layout(params, msg_len as nat),
                starts0 == plan_starts(l0),
                total == code_len_spec(params, msg_len as nat),
                total < usize::MAX,
                end0 <= g1_output_starts,
                msg_len <= end0,
                recursive_g0_output_starts@.len() <= starts0.len(),
                forall|j: int| 0 <= j < recursive_g0_output_starts@.len() ==> #[trigger] recursive_g0_output_starts@[j] == starts0[j],
                forall|j: int| 0 <= j < starts0.len() ==> #[trigger] starts0[j] <= end0,
                l1 == done1 + g1_plan(params, starts0.take(recursive_g0_output_starts@.len() as int), g1_output_starts as nat),
                g1_end(params, starts0.take(recursive_g0_output_starts@.len() as int), g1_output_starts as nat) == total,
                g1s@.len() == done1.len(),
                forall|j: int| 0 <= j < done1.len() ==> {
                    &&& placed_as(#[trigger] g1s@[j], done1[j])
                    &&& sampled_with(g1s@[j].graph, min_nat(params.degree_g1 as nat, done1[j].2))
                    &&& g1s@[j].graph.wf()
                    &&& g1s@[j].sizes_match()
                    &&& g1s@[j].in_range(total)
                    &&& msg_len <= g1s@[j].output_starts
                },
                rng.seed_spec() == seed0,
                rng.requests_spec() == req0 + chain_requests(g0s@, params.degree_g0) + chain_requests(g1s@, params.degree_g1),
                chain_drawn(g0s@, params.degree_g0, seed0, req0),
                chain_drawn(g1s@, params.degree_g1, seed0, req0 + chain_requests(g0s@, params.degree_g0)),
            decreases recursive_g0_output_starts@.len(),
        {
            let ghost k = recursive_g0_output_starts@.len() as int;
            let ghost sk = starts0.take(k);
            let g1_input_starts = match recursive_g0_output_starts.pop() {
                Some(x) => x,
                None => {
                    proof {
                        assert(false);
                    }
                    0
                },
            };
            proof {
                assert(sk.last() == g1_input_starts as nat);
                assert(sk.drop_last() == starts0.take(k - 1));
                assert(g1_input_starts <= g1_output_starts);
            }
            let n = g1_output_starts - g1_input_starts;
            let g1_output_len = scale_round_exec(n, params.alpha_g1);
            let ghost e: Planned = (g1_input_starts as nat, g1_output_starts as nat, g1_output_len as nat);
            let ghost rest = g1_plan(params, starts0.take(k - 1), (g1_output_starts + g1_output_len) as nat);
            proof {
                assert(g1_plan(params, sk, g1_output_starts as nat) == seq![e] + rest);
                lemma_g1_end_ge(params, sk, g1_output_starts as nat);
                assert(g1_plan(params, sk, g1_output_starts as nat)[0] == e);
                assert(l1[done1.len() as int] == e);
                assert(planned_ok(l1[done1.len() as int], params.degree_g1));
            }
            let degree_g1 = if params.degree_g1 < g1_output_len {
                params.degree_g1
            } else {
                g1_output_len
            };
            let g = OrionExpanderGraphPositioned::new(
                g1_input_starts,
                g1_output_starts,
                g1_output_starts + g1_output_len - 1,
                degree_g1,
                rng,
            );
            proof {
                assert(chain_degree(g, params.degree_g1) == degree_g1);
                lemma_chain_drawn_push(g1s@, g, params.degree_g1, seed0, req0 + chain_requests(g0s@, params.degree_g0));
                assert(rng.requests_spec() =~= req0 + chain_requests(g0s@, params.degree_g0) + chain_requests(g1s@.push(g), params.degree_g1));
            }
            g1s.push(g);
            proof {
                assert(l1 == done1.push(e) + rest);
                done1 = done1.push(e);
            }
            g1_output_starts = g1_output_starts + g1_output_len;
        }
        proof {
            assert(starts0.take(0) == Seq::<nat>::empty());
            assert(l1 == done1);
        }
        let c = OrionCode {
            hamming_weight: params.hamming_weight,
            msg_len,
            codeword_len: g1_output_starts,
            g0s,
            g1s,
        };
        proof {
            assert forall|i: int| 0 <= i < c.graphs().len() implies {
                &&& (#[trigger] c.graphs()[i]).in_range(c.codeword_len as nat)
                &&& c.graphs()[i].graph.wf()
                &&& c.msg_len <= c.graphs()[i].output_starts
                &&& c.graphs()[i].sizes_match()
            } by {
                if i < c.g0s@.len() {
                    assert(c.graphs()[i] == c.g0s@[i]);
                } else {
                    assert(c.graphs()[i] == c.g1s@[i - c.g0s@.len()]);
                }
            }
            assert(rng.requests_spec() =~= req0 + c.requests(params));
        }
        c
    }
}


/// The codeword length of the layout for `msg_len` when every planned
/// graph can be built and the length stays below `usize::MAX`; `None`
/// otherwise.
fn layout_code_len(params: OrionCodeParameter, msg_len: usize) -> (r: Option<usize>)
    requires
        params_ok(params),
    ensures
        r is Some <==> layout_ok(params, msg_len as nat),
        r matches Some(t) ==> t == code_len_spec(params, msg_len as nat),
{
    let ghost l0 = g0_layout(params, msg_len as nat);
    let ghost l1 = g1_layout(params, msg_len as nat);
    let ghost total = code_len_spec(params, msg_len as nat);
    let ghost end0 = g0_end(params, 0, msg_len as nat);
    proof {
        lemma_g0_end_ge(params, 0, msg_len as nat);
        lemma_g1_end_ge(params, plan_starts(l0), end0);
    }
    let mut starts: Vec<usize> = Vec::new();
    let mut in_s: usize = 0;
    let mut out_s: usize = msg_len;
    let ghost mut done0: Seq<Planned> = seq![];
    while out_s - in_s > params.length_threshold_g0s
        invariant
            params_ok(params),
            l0 == g0_layout(params, msg_len as nat),
            l1 == g1_layout(params, msg_len as nat),
            total == code_len_spec(params, msg_len as nat),
            end0 == g0_end(params, 0, msg_len as nat),
            total >= end0,
            in_s <= out_s,
            msg_len <= out_s,
            out_s <= end0,
            l0 == done0 + g0_plan(params, in_s as nat, out_s as nat),
            g0_end(params, in_s as nat, out_s as nat) == end0,
            starts@.len() == done0.len(),
            forall|j: int| 0 <= j < done0.len() ==> #[trigger] starts@[j] == done0[j].1,
            forall|j: int| 0 <= j < done0.len() ==> done0[j].1 <= in_s,
            forall|j: int| 0 <= j < done0.len() ==> planned_ok(#[trigger] done0[j], params.degree_g0),
        decreases out_s - in_s,
    {
        let n = out_s - in_s;
        proof {
            lemma_g0_shrinks(params, n as nat);
        }
        let len = scale_round_exec(n, params.alpha_g0);
        let ghost e: Planned = (in_s as nat, out_s as nat, len as nat);
        proof {
            lemma_g0_end_ge(params, in_s as nat, out_s as nat);
            assert(g0_plan(params, in_s as nat, out_s as nat)[0] == e);
            assert(l0[done0.len() as int] == e);
        }
        if !(len >= 1 && (len <= 4294967295 || params.degree_g0 < len)) {
            return None;
        }
        if out_s > usize::MAX - len {
            return None;
        }
        let ghost rest = g0_plan(params, out_s as nat, (out_s + len) as nat);
        proof {
            assert(g0_plan(params, in_s as nat, out_s as nat) == seq![e] + rest);
            assert(l0 == done0.push(e) + rest);
            done0 = done0.push(e);
        }
        starts.push(out_s);
        in_s = out_s;
        out_s = out_s + len;
    }
    proof {
        assert(l0 == done0);
    }
    let ghost starts0 = plan_starts(l0);
    let mut end: usize = out_s;
    let ghost mut done1: Seq<Planned> = seq![];
    proof {
        assert(starts0.take(starts0.len() as int) == starts0);
    }
    while starts.len() > 0
        invariant
            params_ok(params),
            l0 == g0_layout(params, msg_len as nat),
            l1 == g1_layout(params, msg_len as nat),
            l0 == done0,
            starts0 == plan_starts(l0),
            total == code_len_spec(params, msg_len as nat),
            end0 <= end,
            starts@.len() <= starts0.len(),
            forall|j: int| 0 <= j < done0.len() ==> planned_ok(#[trigger] done0[j], params.degree_g0),
            forall|j: int| 0 <= j < starts@.len() ==> #[trigger] starts@[j] == starts0[j],
            forall|j: int| 0 <= j < starts0.len() ==> #[trigger] starts0[j] <= end0,
            l1 == done1 + g1_plan(params, starts0.take(starts@.len() as int), end as nat),
            g1_end(params, starts0.take(starts@.len() as int), end as nat) == total,
            forall|j: int| 0 <= j < done1.len() ==> planned_ok(#[trigger] done1[j], params.degree_g1),
        decreases starts@.len(),
    {
        let ghost k = starts@.len() as int;
        let ghost sk = starts0.take(k);
        let inp = match starts.pop() {
            Some(x) => x,
            None => {
                proof {
                    assert(false);
                }
                0
            },
        };
        proof {
            assert(sk.last() == inp as nat);
            assert(sk.drop_last() == starts0.take(k - 1));
        }
        let n = end - inp;
        let len = scale_round_exec(n, params.alpha_g1);
        let ghost e: Planned = (inp as nat, end as nat, len as nat);
        proof {
            lemma_g1_end_ge(params, sk, end as nat);
            assert(g1_plan(params, sk, end as nat)[0] == e);
            assert(l1[done1.len() as int] == e);
        }
        if !(len >= 1 && (len <= 4294967295 || params.degree_g1 < len)) {
            return None;
        }
        if end > usize::MAX - len {
            return None;
        }
        let ghost rest = g1_plan(params, starts0.take(k - 1), (end + len) as nat);
        proof {
            assert(g1_plan(params, sk, end as nat) == seq![e] + rest);
            assert(l1 == done1.push(e) + rest);
            done1 = done1.push(e);
        }
        end = end + len;
    }
    proof {
        assert(starts0.take(0) == Seq::<nat>::empty());
        assert(l1 == done1);
    }
    if end == usize::MAX {
        return None;
    }
    Some(end)
}

/// Whether the production code accepts messages of length `msg_len`.
pub fn orion_msg_len_supported(msg_len: usize) -> (b: bool)
    ensures
        b == orion_msg_len_ok(msg_len as nat),
{
    if crate::binary::log2_exact(msg_len).is_none() || msg_len < 16 {
        return false;
    }
    let params = orion_code_parameter_instance();
    match layout_code_len(params, msg_len) {
        None => false,
        Some(total) => {
            let k = ceil_log2(total);
            crate::binary::checked_pow2(k).is_some()
        },
    }
}

/// Strictly increasing sequences with the same elements are equal.
proof fn lemma_increasing_same_elements(a: Seq<usize>, b: Seq<usize>)
    requires
        forall|i: int, j: int| 0 <= i < j < a.len() ==> a[i] < a[j],
        forall|i: int, j: int| 0 <= i < j < b.len() ==> b[i] < b[j],
        forall|x: usize| a.contains(x) <==> b.contains(x),
    ensures
        a == b,
    decreases a.len(),
{
    if a.len() == 0 {
        if b.len() > 0 {
            assert(b.contains(b[0]));
        }
        assert(a =~= b);
    } else {
        assert(a.contains(a[0]));
        if b.len() == 0 {
            assert(false);
        }
        assert(b.contains(b[0]));
        let k = choose|k: int| 0 <= k < b.len() && b[k] == a[0];
        let m = choose|m: int| 0 <= m < a.len() && a[m] == b[0];
        if k > 0 {
            assert(b[0] < b[k]);
            if m > 0 {
                assert(a[0] < a[m]);
            }
        }
        assert(a[0] == b[0]);
        let a1 = a.drop_first();
        let b1 = b.drop_first();
        assert forall|x: usize| a1.contains(x) <==> b1.contains(x) by {
            if a1.contains(x) {
                let i = choose|i: int| 0 <= i < a1.len() && a1[i] == x;
                assert(a[i + 1] == x);
                assert(a[0] < a[i + 1]);
                assert(a.contains(x));
                let q = choose|q: int| 0 <= q < b.len() && b[q] == x;
                assert(q != 0);
                assert(b1[q - 1] == x);
            }
            if b1.contains(x) {
                let i = choose|i: int| 0 <= i < b1.len() && b1[i] == x;
                assert(b[i + 1] == x);
                assert(b[0] < b[i + 1]);
                assert(b.contains(x));
                let q = choose|q: int| 0 <= q < a.len() && a[q] == x;
                assert(q != 0);
                assert(a1[q - 1] == x);
            }
        }
        lemma_increasing_same_elements(a1, b1);
        assert forall|i: int| 0 <= i < a.len() implies a[i] == b[i] by {
            if i > 0 {
                assert(a[i] == a1[i - 1]);
                assert(b[i] == b1[i - 1]);
            }
        }
        assert(a =~= b);
    }
}

/// Two graphs of the same sizes with sorted neighbour lists that
/// transpose the same picks have the same neighbour lists.
pub proof fn lemma_picks_fix_graph(
    picks: Seq<Seq<usize>>,
    g1: OrionExpanderGraph,
    g2: OrionExpanderGraph,
    degree: nat,
)
    requires
        g1.l_vertices_size == g2.l_vertices_size,
        g1.r_vertices_size == g2.r_vertices_size,
        g1.wf(),
        g2.wf(),
        g1.sorted(),
        g2.sorted(),
        picks_of(picks, g1, degree),
        picks_of(picks, g2, degree),
    ensures
        forall|r: int| 0 <= r < g1.r_vertices_size ==> #[trigger] g1.nb(r) == g2.nb(r),
{
    assert forall|r: int| 0 <= r < g1.r_vertices_size implies #[trigger] g1.nb(r) == g2.nb(r) by {
        assert forall|x: usize| g1.nb(r).contains(x) <==> g2.nb(r).contains(x) by {
            if g1.nb(r).contains(x) {
                let i = choose|i: int| 0 <= i < g1.nb(r).len() && g1.nb(r)[i] == x;
                assert(g1.nb(r)[i] < g1.l_vertices_size);
                assert(g1.nb(r).contains(x as int as usize));
                assert(picks[x as int].contains(r as usize));
            }
            if g2.nb(r).contains(x) {
                let i = choose|i: int| 0 <= i < g2.nb(r).len() && g2.nb(r)[i] == x;
                assert(g2.nb(r)[i] < g2.l_vertices_size);
                assert(g2.nb(r).contains(x as int as usize));
                assert(picks[x as int].contains(r as usize));
            }
        }
        lemma_increasing_same_elements(g1.nb(r), g2.nb(r));
    }
}

/// Two positioned graphs at the same place, of the same sizes, with the
/// same neighbour lists.
pub open spec fn same_graph(a: OrionExpanderGraphPositioned, b: OrionExpanderGraphPositioned) -> bool {
    &&& a.input_starts == b.input_starts
    &&& a.output_starts == b.output_starts
    &&& a.output_ends == b.output_ends
    &&& a.graph.l_vertices_size == b.graph.l_vertices_size
    &&& a.graph.r_vertices_size == b.graph.r_vertices_size
    &&& forall|r: int| 0 <= r < a.graph.r_vertices_size ==> #[trigger] a.graph.nb(r) == b.graph.nb(r)
}

/// Graphs that agree in place and neighbour lists write the same outputs.
proof fn lemma_apply_graphs_same(buf: Seq<M31Ext3>, gs1: Seq<OrionExpanderGraphPositioned>, gs2: Seq<OrionExpanderGraphPositioned>)
    requires
        gs1.len() == gs2.len(),
        forall|i: int| 0 <= i < gs1.len() ==> same_graph(#[trigger] gs1[i], gs2[i]),
    ensures
        apply_graphs(buf, gs1) == apply_graphs(buf, gs2),
    decreases gs1.len(),
{
    if gs1.len() > 0 {
        let d1 = gs1.drop_last();
        let d2 = gs2.drop_last();
        assert forall|i: int| 0 <= i < d1.len() implies same_graph(#[trigger] d1[i], d2[i]) by {
            assert(d1[i] == gs1[i]);
            assert(d2[i] == gs2[i]);
        }
        lemma_apply_graphs_same(buf, d1, d2);
        let b = apply_graphs(buf, d1);
        let g1 = gs1.last();
        let g2 = gs2.last();
        assert(same_graph(gs1[gs1.len() - 1], gs2[gs1.len() - 1]));
        let l = b.subrange(g1.input_starts as int, g1.output_starts as int);
        assert(g1.graph.mul_spec(l) =~= g2.graph.mul_spec(l));
    }
}

/// Chains whose graphs have the same sizes make the same requests.
proof fn lemma_chain_requests_same(gs1: Seq<OrionExpanderGraphPositioned>, gs2: Seq<OrionExpanderGraphPositioned>, degree: usize)
    requires
        gs1.len() == gs2.len(),
        forall|i: int| 0 <= i < gs1.len() ==> (#[trigger] gs1[i]).graph.l_vertices_size == gs2[i].graph.l_vertices_size
            && gs1[i].graph.r_vertices_size == gs2[i].graph.r_vertices_size,
    ensures
        chain_requests(gs1, degree) == chain_requests(gs2, degree),
    decreases gs1.len(),
{
    if gs1.len() > 0 {
        let d1 = gs1.drop_last();
        let d2 = gs2.drop_last();
        assert forall|i: int| 0 <= i < d1.len() implies (#[trigger] d1[i]).graph.l_vertices_size == d2[i].graph.l_vertices_size
            && d1[i].graph.r_vertices_size == d2[i].graph.r_vertices_size by {
            assert(d1[i] == gs1[i]);
            assert(d2[i] == gs2[i]);
        }
        lemma_chain_requests_same(d1, d2, degree);
        assert(gs1.last() == gs1[gs1.len() - 1]);
    }
}

/// Two chains laid out alike and drawn from the same generator state hold
/// the same graphs, and make the same requests.
proof fn lemma_chains_same(
    gs1: Seq<OrionExpanderGraphPositioned>,
    gs2: Seq<OrionExpanderGraphPositioned>,
    layout: Seq<Planned>,
    degree: usize,
    seed: Seq<u8>,
    base: Seq<(usize, usize)>,
)
    requires
        gs1.len() == layout.len(),
        gs2.len() == layout.len(),
        forall|j: int| 0 <= j < layout.len() ==> placed_as(#[trigger] gs1[j], layout[j]),
        forall|j: int| 0 <= j < layout.len() ==> placed_as(#[trigger] gs2[j], layout[j]),
        forall|j: int| 0 <= j < layout.len() ==> (#[trigger] gs1[j]).sizes_match() && gs1[j].graph.wf() && gs1[j].graph.sorted(),
        forall|j: int| 0 <= j < layout.len() ==> (#[trigger] gs2[j]).sizes_match() && gs2[j].graph.wf() && gs2[j].graph.sorted(),
        chain_drawn(gs1, degree, seed, base),
        chain_drawn(gs2, degree, seed, base),
    ensures
        forall|j: int| 0 <= j < layout.len() ==> same_graph(#[trigger] gs1[j], gs2[j]),
        chain_requests(gs1, degree) == chain_requests(gs2, degree),
{
    assert forall|j: int| 0 <= j < layout.len() implies same_graph(#[trigger] gs1[j], gs2[j]) by {
        assert(placed_as(gs1[j], layout[j]) && placed_as(gs2[j], layout[j]));
        let t1 = gs1.take(j);
        let t2 = gs2.take(j);
        assert forall|i: int| 0 <= i < t1.len() implies (#[trigger] t1[i]).graph.l_vertices_size == t2[i].graph.l_vertices_size
            && t1[i].graph.r_vertices_size == t2[i].graph.r_vertices_size by {
            assert(t1[i] == gs1[i]);
            assert(t2[i] == gs2[i]);
            assert(placed_as(gs1[i], layout[i]) && placed_as(gs2[i], layout[i]));
        }
        lemma_chain_requests_same(t1, t2, degree);
        let d = chain_degree(gs1[j], degree);
        let picks = drawn_picks(
            seed,
            base + chain_requests(t1, degree),
            gs1[j].graph.l_vertices_size as nat,
            gs1[j].graph.r_vertices_size,
            d,
        );
        lemma_picks_fix_graph(picks, gs1[j].graph, gs2[j].graph, d as nat);
    }
    assert forall|i: int| 0 <= i < gs1.len() implies (#[trigger] gs1[i]).graph.l_vertices_size == gs2[i].graph.l_vertices_size
        && gs1[i].graph.r_vertices_size == gs2[i].graph.r_vertices_size by {
        assert(same_graph(gs1[i], gs2[i]));
    }
    lemma_chain_requests_same(gs1, gs2, degree);
}

/// The graphs of a code laid out for `p`, chain by chain.
proof fn lemma_code_chains(c: OrionCode, p: OrionCodeParameter)
    requires
        c.positions_ok(),
        c.sizes_ok(),
        c.laid_out(p),
    ensures
        ({
            let l0 = g0_layout(p, c.msg_len as nat);
            let l1 = g1_layout(p, c.msg_len as nat);
            &&& c.g0s@.len() == l0.len()
            &&& c.g1s@.len() == l1.len()
            &&& forall|j: int| 0 <= j < l0.len() ==> placed_as(#[trigger] c.g0s@[j], l0[j])
            &&& forall|j: int| 0 <= j < l0.len() ==> (#[trigger] c.g0s@[j]).sizes_match() && c.g0s@[j].graph.wf() && c.g0s@[j].graph.sorted()
            &&& forall|j: int| 0 <= j < l1.len() ==> placed_as(#[trigger] c.g1s@[j], l1[j])
            &&& forall|j: int| 0 <= j < l1.len() ==> (#[trigger] c.g1s@[j]).sizes_match() && c.g1s@[j].graph.wf() && c.g1s@[j].graph.sorted()
        }),
{
    let l0 = g0_layout(p, c.msg_len as nat);
    let l1 = g1_layout(p, c.msg_len as nat);
    let n0 = c.g0s@.len() as int;
    assert forall|j: int| 0 <= j < l0.len() implies (#[trigger] c.g0s@[j]).sizes_match() && c.g0s@[j].graph.wf() && c.g0s@[j].graph.sorted() by {
        assert(c.graphs()[j] == c.g0s@[j]);
    }
    assert forall|j: int| 0 <= j < l1.len() implies (#[trigger] c.g1s@[j]).sizes_match() && c.g1s@[j].graph.wf() && c.g1s@[j].graph.sorted() by {
        assert(c.graphs()[n0 + j] == c.g1s@[j]);
    }
}

/// Orion codes are fixed by their seed: two codes built with the same
/// parameters, for the same message length, from generators with the same
/// seed that have answered the same requests, encode every message alike.
#[verifier::spinoff_prover]
pub proof fn lemma_orion_code_determined(
    c1: OrionCode,
    c2: OrionCode,
    p: OrionCodeParameter,
    seed: Seq<u8>,
    base: Seq<(usize, usize)>,
)
    requires
        c1.msg_len == c2.msg_len,
        c1.codeword_len == c2.codeword_len,
        c1.positions_ok(),
        c2.positions_ok(),
        c1.sizes_ok(),
        c2.sizes_ok(),
        c1.laid_out(p),
        c2.laid_out(p),
        c1.drawn_from(p, seed, base),
        c2.drawn_from(p, seed, base),
    ensures
        c1.requests(p) == c2.requests(p),
        forall|msg: Seq<M31Ext3>| #[trigger] c1.encode_spec(msg) == c2.encode_spec(msg),
{
    let l0 = g0_layout(p, c1.msg_len as nat);
    let l1 = g1_layout(p, c1.msg_len as nat);
    lemma_code_chains(c1, p);
    lemma_code_chains(c2, p);
    lemma_chains_same(c1.g0s@, c2.g0s@, l0, p.degree_g0, seed, base);
    lemma_chains_same(c1.g1s@, c2.g1s@, l1, p.degree_g1, seed, base + chain_requests(c1.g0s@, p.degree_g0));
    lemma_graphs_same(c1, c2);
    assert forall|msg: Seq<M31Ext3>| #[trigger] c1.encode_spec(msg) == c2.encode_spec(msg) by {
        lemma_apply_graphs_same(msg + zeros((c1.codeword_len - c1.msg_len) as nat), c1.graphs(), c2.graphs());
    }
}

proof fn lemma_graphs_same(c1: OrionCode, c2: OrionCode)
    requires
        c1.g0s@.len() == c2.g0s@.len(),
        c1.g1s@.len() == c2.g1s@.len(),
        forall|j: int| 0 <= j < c1.g0s@.len() ==> same_graph(#[trigger] c1.g0s@[j], c2.g0s@[j]),
        forall|j: int| 0 <= j < c1.g1s@.len() ==> same_graph(#[trigger] c1.g1s@[j], c2.g1s@[j]),
    ensures
        c1.graphs().len() == c2.graphs().len(),
        forall|i: int| 0 <= i < c1.graphs().len() ==> same_graph(#[trigger] c1.graphs()[i], c2.graphs()[i]),
{
    let n0 = c1.g0s@.len() as int;
    assert forall|i: int| 0 <= i < c1.graphs().len() implies same_graph(#[trigger] c1.graphs()[i], c2.graphs()[i]) by {
        if i < n0 {
            assert(c1.graphs()[i] == c1.g0s@[i]);
            assert(c2.graphs()[i] == c2.g0s@[i]);
        } else {
            assert(c1.graphs()[i] == c1.g1s@[i - n0]);
            assert(c2.graphs()[i] == c2.g1s@[i - n0]);
        }
    }
}

/// If the graphs before `k` all match their ranges and the one at `k`
/// does not (or there is none), `k` is the only such position.
proof fn lemma_first_mismatch(gs: Seq<OrionExpanderGraphPositioned>, k: int)
    requires
        0 <= k <= gs.len(),
        forall|j: int| 0 <= j < k ==> (#[trigger] gs[j]).sizes_match(),
        k == gs.len() || !gs[k].sizes_match(),
    ensures
        forall|q: int|
            0 <= q <= gs.len() && (forall|j: int| 0 <= j < q ==> (#[trigger] gs[j]).sizes_match()) && (q
                == gs.len() || !gs[q].sizes_match()) ==> q == k,
{
    assert forall|q: int|
        0 <= q <= gs.len() && (forall|j: int| 0 <= j < q ==> (#[trigger] gs[j]).sizes_match()) && (q
            == gs.len() || !gs[q].sizes_match()) implies q == k by {
        if q < k {
            assert(gs[q].sizes_match());
        }
        if q > k {
            assert(gs[k].sizes_match());
        }
    }
}

/// Applying graphs whose sizes match their ranges keeps the buffer's
/// length.
proof fn lemma_apply_len(buf: Seq<M31Ext3>, g: OrionExpanderGraphPositioned)
    requires
        g.sizes_match(),
        g.in_range(buf.len()),
    ensures
        g.apply(buf).len() == buf.len(),
{
}

impl OrionCode {
    /// The codeword length.
    pub fn code_len(&self) -> (r: usize)
        ensures
            r == self.codeword_len,
    {
        self.codeword_len
    }

    /// The message length.
    pub fn msg_len(&self) -> (r: usize)
        ensures
            r == self.msg_len,
    {
        self.msg_len
    }

    /// The relative distance, as a ratio.
    pub fn hamming_weight(&self) -> (r: Ratio)
        ensures
            r == self.hamming_weight,
    {
        self.hamming_weight
    }

    /// Encode `msg` into `buffer`: the message is copied to the start,
    /// then the graphs are applied in order until one of them reports a
    /// size mismatch. Lengths that differ from the code's are rejected
    /// with `buffer` untouched.
    #[verifier::rlimit(30)]
    pub fn encode_in_place(&self, msg: &[M31Ext3], buffer: &mut [M31Ext3]) -> (res: OrionResult<
        (),
    >)
        requires
            self.positions_ok(),
        ensures
            (msg@.len() != self.msg_len || old(buffer)@.len() != self.codeword_len) ==> (res is Err
                && final(buffer)@ == old(buffer)@),
            (msg@.len() == self.msg_len && old(buffer)@.len() == self.codeword_len) ==> {
                let init = msg@ + old(buffer)@.subrange(self.msg_len as int, self.codeword_len as int);
                &&& (res is Ok <==> self.sizes_ok())
                &&& forall|k: int|
                    #![trigger self.graphs().take(k)]
                    0 <= k <= self.graphs().len() && (forall|j: int|
                        0 <= j < k ==> (#[trigger] self.graphs()[j]).sizes_match()) && (k
                        == self.graphs().len() || !self.graphs()[k].sizes_match())
                        ==> final(buffer)@ == apply_graphs(init, self.graphs().take(k))
            },
    {
        if msg.len() != self.msg_len || buffer.len() != self.codeword_len {
            return Err(OrionPCSError::ParameterUnmatchError);
        }
        let ghost b0 = buffer@;
        let ghost init = msg@ + b0.subrange(self.msg_len as int, self.codeword_len as int);
        let mut i: usize = 0;
        while i < self.msg_len
            invariant
                msg@.len() == self.msg_len,
                buffer@.len() == self.codeword_len,
                b0.len() == self.codeword_len,
                self.msg_len <= self.codeword_len,
                i <= self.msg_len,
                forall|j: int| 0 <= j < buffer@.len() ==> #[trigger] buffer@[j] == if j < i {
                    msg@[j]
                } else {
                    b0[j]
                },
            decreases self.msg_len - i,
        {
            buffer.set(i, msg[i]);
            i = i + 1;
        }
        assert(buffer@ =~= init);
        let mut scratch = zero_vec(self.codeword_len);
        let ghost gs = self.graphs();
        let n0 = self.g0s.len();
        let n1 = self.g1s.len();
        let mut k: usize = 0;
        assert(gs.take(0) =~= Seq::<OrionExpanderGraphPositioned>::empty());
        while k < n0
            invariant
                self.positions_ok(),
                gs == self.graphs(),
                n0 == self.g0s@.len(),
                n1 == self.g1s@.len(),
                msg@.len() == self.msg_len,
                old(buffer)@.len() == self.codeword_len,
                init == msg@ + old(buffer)@.subrange(self.msg_len as int, self.codeword_len as int),
                k <= n0,
                buffer@.len() == self.codeword_len,
                scratch@.len() == self.codeword_len,
                forall|j: int| 0 <= j < k ==> (#[trigger] gs[j]).sizes_match(),
                buffer@ == apply_graphs(init, gs.take(k as int)),
            decreases n0 - k,
        {
            let g = &self.g0s[k];
            assert(*g == gs[k as int]);
            let ghost before = buffer@;
            match g.expander_mul(buffer, scratch.as_mut_slice()) {
                Err(e) => {
                    proof {
                        lemma_first_mismatch(gs, k as int);
                    }
                    return Err(e);
                },
                Ok(()) => {},
            }
            proof {
                let t = gs.take(k + 1);
                assert(t.drop_last() == gs.take(k as int));
                assert(t.last() == gs[k as int]);
                lemma_apply_len(before, gs[k as int]);
            }
            k = k + 1;
        }
        let mut k: usize = 0;
        while k < n1
            invariant
                self.positions_ok(),
                gs == self.graphs(),
                n0 == self.g0s@.len(),
                n1 == self.g1s@.len(),
                msg@.len() == self.msg_len,
                old(buffer)@.len() == self.codeword_len,
                init == msg@ + old(buffer)@.subrange(self.msg_len as int, self.codeword_len as int),
                k <= n1,
                buffer@.len() == self.codeword_len,
                scratch@.len() == self.codeword_len,
                forall|j: int| 0 <= j < n0 + k ==> (#[trigger] gs[j]).sizes_match(),
                buffer@ == apply_graphs(init, gs.take(n0 + k)),
            decreases n1 - k,
        {
            let g = &self.g1s[k];
            assert(*g == gs[n0 + k]);
            let ghost before = buffer@;
            match g.expander_mul(buffer, scratch.as_mut_slice()) {
                Err(e) => {
                    proof {
                        lemma_first_mismatch(gs, n0 + k);
                    }
                    return Err(e);
                },
                Ok(()) => {},
            }
            proof {
                let t = gs.take(n0 + k + 1);
                assert(t.drop_last() == gs.take(n0 + k));
                assert(t.last() == gs[n0 + k]);
                lemma_apply_len(before, gs[n0 + k]);
            }
            k = k + 1;
        }
        proof {
            assert(gs.take(gs.len() as int) == gs);
            lemma_first_mismatch(gs, gs.len() as int);
        }
        Ok(())
    }

    /// The codeword of `msg`, or `ParameterUnmatchError` when `msg` does
    /// not have the message length or a graph's sizes differ from its
    /// ranges.
    pub fn encode(&self, msg: &[M31Ext3]) -> (res: OrionResult<OrionCodeword>)
        requires
            self.positions_ok(),
        ensures
            res is Ok <==> (msg@.len() == self.msg_len && self.sizes_ok()),
            res matches Ok(c) ==> c@ == self.encode_spec(msg@),
    {
        let mut codeword = zero_vec(self.codeword_len);
        let ghost z = codeword@;
        match self.encode_in_place(msg, codeword.as_mut_slice()) {
            Err(e) => Err(e),
            Ok(()) => {
                proof {
                    let gs = self.graphs();
                    assert(gs.take(gs.len() as int) == gs);
                    assert(msg@ + z.subrange(self.msg_len as int, self.codeword_len as int) =~= msg@
                        + zeros((self.codeword_len - self.msg_len) as nat));
                }
                Ok(codeword)
            },
        }
    }
}


/// The graphs keep the buffer's length when each matches its ranges and
/// lies inside the buffer.
proof fn lemma_apply_graphs_len(buf: Seq<M31Ext3>, gs: Seq<OrionExpanderGraphPositioned>)
    requires
        forall|i: int| 0 <= i < gs.len() ==> (#[trigger] gs[i]).sizes_match() && gs[i].in_range(buf.len()),
    ensures
        apply_graphs(buf, gs).len() == buf.len(),
    decreases gs.len(),
{
    if gs.len() > 0 {
        let init = gs.drop_last();
        assert forall|i: int| 0 <= i < init.len() implies (#[trigger] init[i]).sizes_match() && init[i].in_range(buf.len()) by {
            assert(init[i] == gs[i]);
        }
        lemma_apply_graphs_len(buf, init);
        lemma_apply_len(apply_graphs(buf, init), gs.last());
    }
}

/// Applying graphs that fit the buffer keeps its entries canonical.
proof fn lemma_apply_graphs_wf(buf: Seq<M31Ext3>, gs: Seq<OrionExpanderGraphPositioned>)
    requires
        forall|i: int| 0 <= i < gs.len() ==> (#[trigger] gs[i]).sizes_match() && gs[i].in_range(buf.len()),
        forall|i: int| 0 <= i < buf.len() ==> (#[trigger] buf[i]).wf(),
    ensures
        forall|i: int| 0 <= i < apply_graphs(buf, gs).len() ==> (#[trigger] apply_graphs(buf, gs)[i]).wf(),
    decreases gs.len(),
{
    if gs.len() > 0 {
        let init = gs.drop_last();
        assert forall|i: int| 0 <= i < init.len() implies (#[trigger] init[i]).sizes_match() && init[i].in_range(buf.len()) by {
            assert(init[i] == gs[i]);
        }
        lemma_apply_graphs_wf(buf, init);
        lemma_apply_graphs_len(buf, init);
        let b = apply_graphs(buf, init);
        let g = gs.last();
        let l = b.subrange(g.input_starts as int, g.output_starts as int);
        let out = g.apply(b);
        assert forall|i: int| 0 <= i < out.len() implies (#[trigger] out[i]).wf() by {
            let o = g.output_starts as int;
            let r = g.graph.r_vertices_size as int;
            if i < o {
                assert(out[i] == b[i]);
            } else if i < o + r {
                let e = g.graph.nb(i - o);
                assert(out[i] == gather_sum(l, e));
                crate::field::lemma_one_zero();
                if e.len() > 0 {
                    let x = gather_sum(l, e.drop_last());
                    let y = l[e.last() as int];
                    crate::field::lemma_mk_wf(x.c0 + y.c0, x.c1 + y.c1, x.c2 + y.c2);
                }
            } else {
                assert(out[i] == b[i - o - r + g.output_ends + 1]);
            }
        }
    }
}

/// The production code's codewords of canonical messages are canonical.
pub proof fn lemma_encode_wf(c: OrionLinearCode, m: Seq<M31Ext3>)
    requires
        c.code_inv(),
        m.len() == c.spec_message_len(),
        forall|i: int| 0 <= i < m.len() ==> (#[trigger] m[i]).wf(),
    ensures
        forall|i: int| 0 <= i < c.spec_encode(m).len() ==> (#[trigger] c.spec_encode(m)[i]).wf(),
{
    let k = c.inner_code();
    let z = zeros((k.codeword_len - k.msg_len) as nat);
    let init = m + z;
    crate::field::lemma_one_zero();
    assert forall|i: int| 0 <= i < init.len() implies (#[trigger] init[i]).wf() by {
        if i >= m.len() {
            assert(init[i] == z[i - m.len()]);
        }
    }
    assert(init.len() == k.codeword_len);
    assert forall|i: int| 0 <= i < k.graphs().len() implies (#[trigger] k.graphs()[i]).sizes_match()
        && k.graphs()[i].in_range(init.len()) by {}
    lemma_apply_graphs_wf(init, k.graphs());
    lemma_apply_graphs_len(init, k.graphs());
    let a = apply_graphs(init, k.graphs());
    let pad = zeros((c.padded_len() - k.codeword_len) as nat);
    assert forall|i: int| 0 <= i < c.spec_encode(m).len() implies (#[trigger] c.spec_encode(m)[i]).wf() by {
        if i >= a.len() {
            assert(c.spec_encode(m)[i] == pad[i - a.len()]);
        } else {
            assert(c.spec_encode(m)[i] == a[i]);
        }
    }
}

/// The smallest power of two `≥ n` (1 for `n = 0`).
pub open spec fn next_pow2_spec(n: nat) -> nat {
    p2(ceil_log2_spec(n))
}

/// The message lengths the production code accepts: powers of two from
/// 16 on whose codeword length, and its next power of two, fit in a
/// `usize`.
pub open spec fn orion_msg_len_ok(msg_len: nat) -> bool {
    &&& is_pow2(msg_len)
    &&& msg_len >= 16
    &&& layout_ok(parameter_instance_spec(), msg_len)
    &&& next_pow2_spec(code_len_spec(parameter_instance_spec(), msg_len)) <= usize::MAX
}

/// The Orion code with the parameters of the paper, its codewords padded
/// with zeros to the next power of two so that they can be read as
/// multilinear extensions.
#[derive(Clone, Debug)]
pub struct OrionLinearCode {
    inner: OrionCode,
    codeword_len_padded: usize,
}

impl OrionLinearCode {
    /// The underlying Orion code.
    pub closed spec fn inner_code(&self) -> OrionCode {
        self.inner
    }

    /// The padded codeword length.
    pub closed spec fn padded_len(&self) -> nat {
        self.codeword_len_padded as nat
    }

    /// The padded codeword length fits a `usize`.
    pub proof fn lemma_padded_len_fits(&self)
        ensures
            self.padded_len() <= usize::MAX,
    {
    }

    /// The code that `new(msg_len, seed)` builds: the paper's parameters,
    /// the layout for `msg_len`, every graph drawn from a fresh
    /// `ChaCha20Rng::from_seed(seed)`, and the codeword padded to the next
    /// power of two.
    #[verifier::opaque]
    pub open spec fn built_from(&self, msg_len: nat, seed: Seq<u8>) -> bool {
        &&& self.code_inv()
        &&& self.inner_code().msg_len == msg_len
        &&& self.inner_code().codeword_len == code_len_spec(parameter_instance_spec(), msg_len)
        &&& self.inner_code().hamming_weight == parameter_instance_spec().hamming_weight
        &&& self.inner_code().laid_out(parameter_instance_spec())
        &&& self.inner_code().drawn_from(parameter_instance_spec(), seed, Seq::empty())
        &&& self.padded_len() == next_pow2_spec(self.inner_code().codeword_len as nat)
    }

    /// Build the code for messages of length `msg_len`, sampling its graphs
    /// from `ChaCha20Rng::from_seed(seed)`.
    pub fn new(msg_len: usize, seed: [u8; 32]) -> (c: OrionLinearCode)
        requires
            orion_msg_len_ok(msg_len as nat),
        ensures
            c.built_from(msg_len as nat, seed@),
            c.code_inv(),
            c.inner_code().msg_len == msg_len,
            c.inner_code().codeword_len == code_len_spec(parameter_instance_spec(), msg_len as nat),
            c.inner_code().hamming_weight == parameter_instance_spec().hamming_weight,
            c.inner_code().laid_out(parameter_instance_spec()),
            c.padded_len() == next_pow2_spec(c.inner_code().codeword_len as nat),
    {
        reveal(OrionLinearCode::built_from);
        let mut rng = SeededChaCha::from_seed(seed);
        let params = orion_code_parameter_instance();
        let inner = OrionCode::new(params, msg_len, &mut rng);
        let raw = inner.code_len();
        let k = ceil_log2(raw);
        proof {
            lemma_ceil_log2_least(raw as nat);
        }
        let codeword_len_padded = pow2_usize(k);
        OrionLinearCode { inner, codeword_len_padded }
    }

    /// The codeword length before padding.
    pub fn raw_codeword_len(&self) -> (r: usize)
        ensures
            r == self.inner_code().codeword_len,
    {
        self.inner.code_len()
    }

    /// The relative distance of the underlying code, as a ratio.
    pub fn hamming_weight(&self) -> (r: Ratio)
        ensures
            r == self.inner_code().hamming_weight,
    {
        self.inner.hamming_weight()
    }
}

/// The production code is fixed by its seed: codes built for the same
/// message length from the same seed have the same length and encode every
/// message alike, so prover and verifier rebuild the same code.
pub proof fn lemma_orion_linear_code_determined(
    c1: OrionLinearCode,
    c2: OrionLinearCode,
    msg_len: nat,
    seed: Seq<u8>,
)
    requires
        c1.built_from(msg_len, seed),
        c2.built_from(msg_len, seed),
    ensures
        c1.spec_message_len() == c2.spec_message_len(),
        c1.spec_codeword_len() == c2.spec_codeword_len(),
        forall|msg: Seq<M31Ext3>| #[trigger] c1.spec_encode(msg) == c2.spec_encode(msg),
{
    reveal(OrionLinearCode::built_from);
    lemma_orion_code_determined(
        c1.inner_code(),
        c2.inner_code(),
        parameter_instance_spec(),
        seed,
        Seq::empty(),
    );
}

impl LinearCode for OrionLinearCode {
    open spec fn spec_message_len(&self) -> nat {
        self.inner_code().msg_len as nat
    }

    open spec fn spec_codeword_len(&self) -> nat {
        self.padded_len()
    }

    open spec fn spec_encode(&self, message: Seq<M31Ext3>) -> Seq<M31Ext3> {
        self.inner_code().encode_spec(message) + zeros(
            (self.padded_len() - self.inner_code().codeword_len) as nat,
        )
    }

    open spec fn code_inv(&self) -> bool {
        &&& self.inner_code().positions_ok()
        &&& self.inner_code().sizes_ok()
        &&& self.inner_code().codeword_len <= self.padded_len()
        &&& is_pow2(self.padded_len())
    }

    proof fn lemma_code_shape(&self) {
        assert forall|m: Seq<M31Ext3>|
            m.len() == self.spec_message_len() implies (#[trigger] self.spec_encode(m)).len()
                == self.spec_codeword_len() by {
            let c = self.inner_code();
            let init = m + zeros((c.codeword_len - c.msg_len) as nat);
            assert forall|i: int| 0 <= i < c.graphs().len() implies (#[trigger] c.graphs()[i]).sizes_match()
                && c.graphs()[i].in_range(init.len()) by {}
            lemma_apply_graphs_len(init, c.graphs());
        }
    }

    proof fn lemma_linear(&self, a: Seq<M31Ext3>, b: Seq<M31Ext3>, c: M31Ext3) {
        lemma_orion_linear(*self, a, b);
        lemma_orion_scale(*self, a, c);
    }

    fn message_len(&self) -> (r: usize) {
        self.inner.msg_len()
    }

    fn codeword_len(&self) -> (r: usize) {
        self.codeword_len_padded
    }

    fn encode(&self, message: &[M31Ext3]) -> (c: Vec<M31Ext3>) {
        let mut codeword = match self.inner.encode(message) {
            Ok(cw) => cw,
            Err(_) => {
                proof {
                    assert(false);
                }
                Vec::new()
            },
        };
        let ghost raw = codeword@;
        proof {
            self.lemma_code_shape();
            assert(self.spec_encode(message@).len() == self.spec_codeword_len());
            assert(raw.len() == self.inner_code().codeword_len);
        }
        while codeword.len() < self.codeword_len_padded
            invariant
                raw.len() <= codeword@.len() <= self.codeword_len_padded,
                codeword@ == raw + zeros((codeword@.len() - raw.len()) as nat),
            decreases self.codeword_len_padded - codeword@.len(),
        {
            codeword.push(M31Ext3::zero());
            assert(codeword@ =~= raw + zeros((codeword@.len() - raw.len()) as nat));
        }
        codeword
    }
}


pub(crate) proof fn lemma_add4(p: M31Ext3, q: M31Ext3, r: M31Ext3, s: M31Ext3)
    ensures
        fe_add(fe_add(p, q), fe_add(r, s)) == fe_add(fe_add(p, r), fe_add(q, s)),
{
    lemma_add_associative(p, q, fe_add(r, s));
    lemma_add_associative(q, r, s);
    lemma_commutative(q, r);
    lemma_add_associative(r, q, s);
    lemma_add_associative(p, r, fe_add(q, s));
}

proof fn lemma_gather_linear(x: Seq<M31Ext3>, y: Seq<M31Ext3>, e: Seq<usize>)
    requires
        x.len() == y.len(),
        forall|j: int| 0 <= j < e.len() ==> #[trigger] e[j] < x.len(),
    ensures
        gather_sum(vec_add(x, y), e) == fe_add(gather_sum(x, e), gather_sum(y, e)),
    decreases e.len(),
{
    if e.len() > 0 {
        let d = e.drop_last();
        assert forall|j: int| 0 <= j < d.len() implies #[trigger] d[j] < x.len() by {
            assert(d[j] == e[j]);
        }
        lemma_gather_linear(x, y, d);
        assert(e.last() == e[e.len() - 1]);
        lemma_add4(gather_sum(x, d), gather_sum(y, d), x[e.last() as int], y[e.last() as int]);
    }
}

proof fn lemma_apply_linear(x: Seq<M31Ext3>, y: Seq<M31Ext3>, g: OrionExpanderGraphPositioned)
    requires
        x.len() == y.len(),
        g.sizes_match(),
        g.in_range(x.len()),
        g.graph.wf(),
    ensures
        g.apply(vec_add(x, y)) == vec_add(g.apply(x), g.apply(y)),
{
    let s = vec_add(x, y);
    let xs = x.subrange(g.input_starts as int, g.output_starts as int);
    let ys = y.subrange(g.input_starts as int, g.output_starts as int);
    assert(s.subrange(g.input_starts as int, g.output_starts as int) =~= vec_add(xs, ys));
    lemma_apply_len(x, g);
    lemma_apply_len(y, g);
    lemma_apply_len(s, g);
    assert forall|r: int| 0 <= r < g.graph.r_vertices_size implies #[trigger] g.graph.mul_spec(
        vec_add(xs, ys),
    )[r] == fe_add(g.graph.mul_spec(xs)[r], g.graph.mul_spec(ys)[r]) by {
        assert forall|j: int| 0 <= j < g.graph.nb(r).len() implies #[trigger] g.graph.nb(r)[j]
            < xs.len() by {}
        lemma_gather_linear(xs, ys, g.graph.nb(r));
    }
    assert(g.apply(s) =~= vec_add(g.apply(x), g.apply(y)));
}

proof fn lemma_apply_graphs_linear(
    x: Seq<M31Ext3>,
    y: Seq<M31Ext3>,
    gs: Seq<OrionExpanderGraphPositioned>,
)
    requires
        x.len() == y.len(),
        forall|i: int|
            0 <= i < gs.len() ==> (#[trigger] gs[i]).sizes_match() && gs[i].in_range(x.len())
                && gs[i].graph.wf(),
    ensures
        apply_graphs(vec_add(x, y), gs) == vec_add(apply_graphs(x, gs), apply_graphs(y, gs)),
    decreases gs.len(),
{
    if gs.len() > 0 {
        let init = gs.drop_last();
        assert forall|i: int| 0 <= i < init.len() implies (#[trigger] init[i]).sizes_match()
            && init[i].in_range(x.len()) && init[i].graph.wf() by {
            assert(init[i] == gs[i]);
        }
        lemma_apply_graphs_linear(x, y, init);
        lemma_apply_graphs_len(x, init);
        lemma_apply_graphs_len(y, init);
        lemma_apply_linear(apply_graphs(x, init), apply_graphs(y, init), gs.last());
    }
}

proof fn lemma_gather_scale(x: Seq<M31Ext3>, c: M31Ext3, e: Seq<usize>)
    requires
        forall|j: int| 0 <= j < e.len() ==> #[trigger] e[j] < x.len(),
    ensures
        gather_sum(vec_scale(c, x), e) == fe_mul(c, gather_sum(x, e)),
    decreases e.len(),
{
    if e.len() == 0 {
        crate::field::lemma_mul_zero(c);
    } else {
        let d = e.drop_last();
        assert forall|j: int| 0 <= j < d.len() implies #[trigger] d[j] < x.len() by {
            assert(d[j] == e[j]);
        }
        lemma_gather_scale(x, c, d);
        assert(e.last() == e[e.len() - 1]);
        crate::field::lemma_distributive(gather_sum(x, d), x[e.last() as int], c);
    }
}

proof fn lemma_apply_scale(x: Seq<M31Ext3>, c: M31Ext3, g: OrionExpanderGraphPositioned)
    requires
        g.sizes_match(),
        g.in_range(x.len()),
        g.graph.wf(),
    ensures
        g.apply(vec_scale(c, x)) == vec_scale(c, g.apply(x)),
{
    let s = vec_scale(c, x);
    let xs = x.subrange(g.input_starts as int, g.output_starts as int);
    assert(s.subrange(g.input_starts as int, g.output_starts as int) =~= vec_scale(c, xs));
    lemma_apply_len(x, g);
    lemma_apply_len(s, g);
    assert forall|r: int| 0 <= r < g.graph.r_vertices_size implies #[trigger] g.graph.mul_spec(
        vec_scale(c, xs),
    )[r] == fe_mul(c, g.graph.mul_spec(xs)[r]) by {
        assert forall|j: int| 0 <= j < g.graph.nb(r).len() implies #[trigger] g.graph.nb(r)[j]
            < xs.len() by {}
        lemma_gather_scale(xs, c, g.graph.nb(r));
    }
    assert(g.apply(s) =~= vec_scale(c, g.apply(x)));
}

proof fn lemma_apply_graphs_scale(x: Seq<M31Ext3>, c: M31Ext3, gs: Seq<OrionExpanderGraphPositioned>)
    requires
        forall|i: int|
            0 <= i < gs.len() ==> (#[trigger] gs[i]).sizes_match() && gs[i].in_range(x.len())
                && gs[i].graph.wf(),
    ensures
        apply_graphs(vec_scale(c, x), gs) == vec_scale(c, apply_graphs(x, gs)),
    decreases gs.len(),
{
    if gs.len() > 0 {
        let init = gs.drop_last();
        assert forall|i: int| 0 <= i < init.len() implies (#[trigger] init[i]).sizes_match()
            && init[i].in_range(x.len()) && init[i].graph.wf() by {
            assert(init[i] == gs[i]);
        }
        lemma_apply_graphs_scale(x, c, init);
        lemma_apply_graphs_len(x, init);
        lemma_apply_scale(apply_graphs(x, init), c, gs.last());
    }
}

/// Scaling a message scales its Orion codeword.
pub proof fn lemma_orion_scale(code: OrionLinearCode, a: Seq<M31Ext3>, c: M31Ext3)
    requires
        code.code_inv(),
        a.len() == code.spec_message_len(),
    ensures
        code.spec_encode(vec_scale(c, a)) == vec_scale(c, code.spec_encode(a)),
{
    let cd = code.inner_code();
    let z = zeros((cd.codeword_len - cd.msg_len) as nat);
    let pad = zeros((code.padded_len() - cd.codeword_len) as nat);
    crate::field::lemma_mul_zero(c);
    assert(vec_scale(c, a + z) =~= vec_scale(c, a) + z);
    assert forall|i: int| 0 <= i < cd.graphs().len() implies (#[trigger] cd.graphs()[i]).sizes_match()
        && cd.graphs()[i].in_range((a + z).len()) && cd.graphs()[i].graph.wf() by {}
    lemma_apply_graphs_scale(a + z, c, cd.graphs());
    lemma_apply_graphs_len(a + z, cd.graphs());
    let ea = cd.encode_spec(a);
    assert(vec_scale(c, ea + pad) =~= vec_scale(c, ea) + pad);
}

/// Orion encoding is linear: the codeword of a sum of messages is the sum
/// of their codewords.
pub proof fn lemma_orion_linear(code: OrionLinearCode, a: Seq<M31Ext3>, b: Seq<M31Ext3>)
    requires
        code.code_inv(),
        a.len() == code.spec_message_len(),
        b.len() == code.spec_message_len(),
    ensures
        code.spec_encode(vec_add(a, b)) == vec_add(code.spec_encode(a), code.spec_encode(b)),
{
    let c = code.inner_code();
    let z = zeros((c.codeword_len - c.msg_len) as nat);
    let pad = zeros((code.padded_len() - c.codeword_len) as nat);
    assert(vec_add(a + z, b + z) =~= vec_add(a, b) + z);
    assert forall|i: int| 0 <= i < c.graphs().len() implies (#[trigger] c.graphs()[i]).sizes_match()
        && c.graphs()[i].in_range((a + z).len()) && c.graphs()[i].graph.wf() by {}
    lemma_apply_graphs_linear(a + z, b + z, c.graphs());
    lemma_apply_graphs_len(a + z, c.graphs());
    lemma_apply_graphs_len(b + z, c.graphs());
    let ea = c.encode_spec(a);
    let eb = c.encode_spec(b);
    assert(vec_add(ea + pad, eb + pad) =~= vec_add(ea, eb) + pad);
}

proof fn lemma_apply_graphs_prefix(buf: Seq<M31Ext3>, gs: Seq<OrionExpanderGraphPositioned>, k: nat)
    requires
        k <= buf.len(),
        forall|i: int|
            0 <= i < gs.len() ==> (#[trigger] gs[i]).sizes_match() && gs[i].in_range(buf.len())
                && k <= gs[i].output_starts,
    ensures
        apply_graphs(buf, gs).subrange(0, k as int) == buf.subrange(0, k as int),
    decreases gs.len(),
{
    if gs.len() > 0 {
        let init = gs.drop_last();
        assert forall|i: int| 0 <= i < init.len() implies (#[trigger] init[i]).sizes_match()
            && init[i].in_range(buf.len()) && k <= init[i].output_starts by {
            assert(init[i] == gs[i]);
        }
        lemma_apply_graphs_prefix(buf, init, k);
        lemma_apply_graphs_len(buf, init);
        let before = apply_graphs(buf, init);
        lemma_apply_len(before, gs.last());
        assert(gs.last().apply(before).subrange(0, k as int) =~= before.subrange(0, k as int));
    }
}

/// The code is systematic: a codeword starts with its message.
pub proof fn lemma_orion_systematic(code: OrionLinearCode, m: Seq<M31Ext3>)
    requires
        code.code_inv(),
        m.len() == code.spec_message_len(),
    ensures
        code.spec_encode(m).subrange(0, m.len() as int) == m,
{
    let c = code.inner_code();
    let init = m + zeros((c.codeword_len - c.msg_len) as nat);
    lemma_apply_graphs_prefix(init, c.graphs(), m.len());
    lemma_apply_graphs_len(init, c.graphs());
    assert(init.subrange(0, m.len() as int) =~= m);
    let e = c.encode_spec(m);
    assert((e + zeros((code.padded_len() - c.codeword_len) as nat)).subrange(0, m.len() as int)
        =~= e.subrange(0, m.len() as int));
}

} // verus!
