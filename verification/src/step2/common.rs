//! What prover and verifier share.

use crate::claim::{parsed_fits, ParsedClaim};
use crate::cs::SHIFT_VARIANT_COUNT;
use crate::discharge::{ClaimCtx, DischargeStatement};
use crate::error::DischargeError;
use crate::field::element::{one, zero, B128};
use crate::field::inverse::inv;
use crate::field::ring::{group_units, law_add_self};
use crate::histogram::{claim_points, eq_point, m_d_points, points_view};
use crate::multilinear::eq::{bits_of, eq_points};
use crate::multilinear::exp2::lemma_exp2_small;
use crate::table::{ShapeDims, TermTable};
use crate::vk::DischargeVkm;
use vstd::prelude::*;

verus! {

/// Ways in which a test can make the prover lie.
#[derive(Debug, Clone, Copy, PartialEq, Eq, Structural)]
pub enum Step2Tamper {
    /// Not at all.
    Honest,
    /// One entry of the histogram table's zero block is changed before the commitment.
    MdBlock3,
    /// The codeword that is opened is not the one that was committed.
    DigestD,
}

/// Whether two digests are equal.
pub fn digest_eq(a: &[u8; 32], b: &[u8; 32]) -> (r: bool)
    ensures
        r == (a@ == b@),
{
    let mut i: usize = 0;
    while i < 32
        invariant
            i <= 32,
            forall|j: int| 0 <= j < i ==> a@[j] == b@[j],
        decreases 32 - i,
    {
        if a[i] != b[i] {
            return false;
        }
        i = i + 1;
    }
    assert(a@ =~= b@);
    true
}

/// What is wrong with a statement for a key with the given digest and dimensions, if anything.
pub open spec fn statement_error(
    cs_digest: [u8; 32],
    dims: ShapeDims,
    stmt: DischargeStatement,
) -> Option<DischargeError> {
    if stmt.cs_digest@ != cs_digest@ {
        Some(DischargeError::CsDigestMismatch {
            statement_digest: stmt.cs_digest,
            key_digest: cs_digest,
        })
    } else if !(stmt.n_terms == dims.n_terms && stmt.n_pad == dims.n_pad && stmt.parity
        == dims.parity) {
        Some(
            DischargeError::TableMetadataMismatch {
                statement: (stmt.n_terms, stmt.n_pad, stmt.parity),
                key: (dims.n_terms, dims.n_pad, dims.parity),
            },
        )
    } else if stmt.claims@.len() == 0 {
        Some(DischargeError::EmptyBatch)
    } else {
        None
    }
}

/// Checks a statement against a digest and dimensions.
pub fn check_statement(cs_digest: &[u8; 32], dims: &ShapeDims, stmt: &DischargeStatement) -> (r:
    Result<(), DischargeError>)
    ensures
        match r {
            Ok(_) => statement_error(*cs_digest, *dims, *stmt) is None,
            Err(e) => statement_error(*cs_digest, *dims, *stmt) == Some(e),
        },
        r is Ok <==> stmt.cs_digest@ == cs_digest@ && stmt.n_terms == dims.n_terms && stmt.n_pad
            == dims.n_pad && stmt.parity == dims.parity && stmt.claims@.len() > 0,
{
    if !digest_eq(&stmt.cs_digest, cs_digest) {
        return Err(
            DischargeError::CsDigestMismatch {
                statement_digest: stmt.cs_digest,
                key_digest: *cs_digest,
            },
        );
    }
    if !(stmt.n_terms == dims.n_terms && stmt.n_pad == dims.n_pad && stmt.parity == dims.parity) {
        return Err(
            DischargeError::TableMetadataMismatch {
                statement: (stmt.n_terms, stmt.n_pad, stmt.parity),
                key: (dims.n_terms, dims.n_pad, dims.parity),
            },
        );
    }
    if stmt.claims.len() == 0 {
        return Err(DischargeError::EmptyBatch);
    }
    Ok(())
}

/// Checks a statement against a key's metadata.
pub fn check_statement_against_vkm(vkm: &DischargeVkm, stmt: &DischargeStatement) -> (r: Result<
    (),
    DischargeError,
>)
    ensures
        match r {
            Ok(_) => statement_error(vkm.cs_digest, vkm.dims, *stmt) is None,
            Err(e) => statement_error(vkm.cs_digest, vkm.dims, *stmt) == Some(e),
        },
{
    check_statement(&vkm.cs_digest, &vkm.dims, stmt)
}

/// All contexts were made for a shape.
pub open spec fn ctxs_fit(dims: ShapeDims, ctxs: Seq<ClaimCtx>) -> bool {
    forall|l: int| 0 <= l < ctxs.len() ==> parsed_fits(dims, (#[trigger] ctxs[l]).tr.parsed)
}

/// The points at which the histogram table is evaluated: ten for each of the first `k` claims.
pub open spec fn batch_points(dims: ShapeDims, ctxs: Seq<ClaimCtx>, k: nat) -> Seq<Seq<B128>>
    decreases k,
{
    if k == 0 {
        Seq::empty()
    } else {
        batch_points(dims, ctxs, (k - 1) as nat) + claim_points(dims, ctxs[k - 1].tr.parsed)
    }
}

/// The evaluations claimed there: of each claim, its constraint and word evaluations and its eight
/// meta values.
pub open spec fn batch_evals(finish: Seq<B128>, d_vals: Seq<B128>, k: nat) -> Seq<B128>
    decreases k,
{
    if k == 0 {
        Seq::empty()
    } else {
        let l = k - 1;
        batch_evals(finish, d_vals, l as nat) + seq![finish[3 * l], finish[3 * l + 1]]
            + d_vals.subrange(8 * l, 8 * l + 8)
    }
}

/// All points and evaluations of the batched sumcheck: those of the claims, and last the leaf
/// point with its value.
pub fn phase_b_claims(
    dims: &ShapeDims,
    ctxs: &Vec<ClaimCtx>,
    finish_evals: &[B128],
    d_vals: &[B128],
    pi_lo: &[B128],
    m_pi: B128,
) -> (r: (Vec<Vec<B128>>, Vec<B128>))
    requires
        dims.derived(),
        ctxs_fit(*dims, ctxs@),
        finish_evals@.len() == 3 * ctxs@.len(),
        d_vals@.len() == 8 * ctxs@.len(),
    ensures
        points_view(r.0@) == batch_points(*dims, ctxs@, ctxs@.len()).push(pi_lo@),
        r.1@ == batch_evals(finish_evals@, d_vals@, ctxs@.len()).push(m_pi),
{
    let mut points: Vec<Vec<B128>> = Vec::new();
    let mut evals: Vec<B128> = Vec::new();
    let n_finish: usize = finish_evals.len();
    let n_d_vals: usize = d_vals.len();
    let mut l: usize = 0;
    assert(points_view(points@) =~= batch_points(*dims, ctxs@, 0));
    assert(evals@ =~= batch_evals(finish_evals@, d_vals@, 0));
    while l < ctxs.len()
        invariant
            l <= ctxs@.len(),
            dims.derived(),
            ctxs_fit(*dims, ctxs@),
            n_finish == finish_evals@.len(),
            n_d_vals == d_vals@.len(),
            finish_evals@.len() == 3 * ctxs@.len(),
            d_vals@.len() == 8 * ctxs@.len(),
            points_view(points@) == batch_points(*dims, ctxs@, l as nat),
            evals@ == batch_evals(finish_evals@, d_vals@, l as nat),
        decreases ctxs@.len() - l,
    {
        assert(parsed_fits(*dims, ctxs@[l as int].tr.parsed));
        let mut own = m_d_points(dims, &ctxs[l].tr);
        let ghost before = points@;
        let ghost own_view = own@;
        points.append(&mut own);
        assert(points_view(points@) =~= points_view(before) + points_view(own_view));
        evals.push(finish_evals[3 * l]);
        evals.push(finish_evals[3 * l + 1]);
        let ghost part = evals@;
        let mut o: usize = 0;
        while o < SHIFT_VARIANT_COUNT
            invariant
                o <= 8,
                l < ctxs@.len(),
                n_d_vals == d_vals@.len(),
                d_vals@.len() == 8 * ctxs@.len(),
                evals@ == part + d_vals@.subrange(8 * l as int, 8 * l + o),
            decreases 8 - o,
        {
            evals.push(d_vals[8 * l + o]);
            o = o + 1;
            assert(evals@ =~= part + d_vals@.subrange(8 * l as int, 8 * l + o));
        }
        l = l + 1;
        assert(evals@ =~= batch_evals(finish_evals@, d_vals@, l as nat));
    }
    let ghost before = points@;
    let last = copy_elems(pi_lo);
    points.push(last);
    assert(points_view(points@) =~= points_view(before).push(pi_lo@));
    evals.push(m_pi);
    (points, evals)
}

/// A copy of a list of elements.
pub fn copy_elems(v: &[B128]) -> (r: Vec<B128>)
    ensures
        r@ == v@,
{
    let mut r: Vec<B128> = Vec::new();
    let mut i: usize = 0;
    while i < v.len()
        invariant
            i <= v@.len(),
            r@ == v@.take(i as int),
        decreases v@.len() - i,
    {
        r.push(v[i]);
        i = i + 1;
        assert(r@ =~= v@.take(i as int));
    }
    assert(r@ =~= v@);
    r
}

/// A list of elements in reverse: challenges come from the top variable down, and points are
/// low-coordinate-first.
pub fn reversed(v: &[B128]) -> (r: Vec<B128>)
    ensures
        r@ == v@.reverse(),
{
    let mut r: Vec<B128> = Vec::new();
    let mut i: usize = v.len();
    while i > 0
        invariant
            i <= v@.len(),
            r@.len() == v@.len() - i,
            forall|j: int| 0 <= j < r@.len() ==> r@[j] == v@[v@.len() - 1 - j],
        decreases i,
    {
        r.push(v[i - 1]);
        i = i - 1;
    }
    assert(r@ =~= v@.reverse());
    r
}

/// The indicators of the four blocks at a pair of selectors.
pub open spec fn block_eq(hi: Seq<B128>, blk: int) -> B128 {
    if blk == 0 {
        eq_points(seq![zero(), zero()], hi)
    } else if blk == 1 {
        eq_points(seq![one(), zero()], hi)
    } else if blk == 2 {
        eq_points(seq![zero(), one()], hi)
    } else {
        eq_points(seq![one(), one()], hi)
    }
}

/// The indicators of the four blocks at a pair of selectors.
pub fn block_indicators(hi: &[B128]) -> (r: [B128; 4])
    requires
        hi@.len() == 2,
    ensures
        forall|blk: int| 0 <= blk < 4 ==> #[trigger] r@[blk] == block_eq(hi@, blk),
{
    [
        pair_indicator(zero(), zero(), hi),
        pair_indicator(one(), zero(), hi),
        pair_indicator(zero(), one(), hi),
        pair_indicator(one(), one(), hi),
    ]
}

/// The indicator of a pair of selectors.
fn pair_indicator(a: B128, b: B128, hi: &[B128]) -> (r: B128)
    requires
        hi@.len() == 2,
    ensures
        r == eq_points(seq![a, b], hi@),
{
    let mut p: Vec<B128> = Vec::new();
    p.push(a);
    p.push(b);
    assert(p@ =~= seq![a, b]);
    eq_point(&p, hi)
}

/// The evaluation of the row table that its three block evaluations amount to at two selectors.
pub open spec fn corner_claim(v: Seq<B128>, rho_c: Seq<B128>) -> B128 {
    block_eq(rho_c, 0) * v[0] + block_eq(rho_c, 1) * v[1] + block_eq(rho_c, 2) * v[2]
}

/// The row table's claim at two selectors.
pub fn vk_claim(v: &[B128; 3], rho_c: &[B128]) -> (r: B128)
    requires
        rho_c@.len() == 2,
    ensures
        r == corner_claim(v@, rho_c@),
{
    let e = block_indicators(rho_c);
    e[0] * v[0] + e[1] * v[1] + e[2] * v[2]
}

/// A statement is admitted exactly when its digest and its metadata are the key's and it has a claim,
/// however many; and it is refused as empty exactly when they are and it has none.
pub proof fn law_statement_admission(cs_digest: [u8; 32], dims: ShapeDims, stmt: DischargeStatement)
    ensures
        statement_error(cs_digest, dims, stmt) is None <==> {
            &&& stmt.cs_digest@ == cs_digest@
            &&& stmt.n_terms == dims.n_terms
            &&& stmt.n_pad == dims.n_pad
            &&& stmt.parity == dims.parity
            &&& stmt.claims@.len() >= 1
        },
        statement_error(cs_digest, dims, stmt) == Some(DischargeError::EmptyBatch) <==> {
            &&& stmt.cs_digest@ == cs_digest@
            &&& stmt.n_terms == dims.n_terms
            &&& stmt.n_pad == dims.n_pad
            &&& stmt.parity == dims.parity
            &&& stmt.claims@ =~= Seq::empty()
        },
        stmt.cs_digest@ != cs_digest@ <==> statement_error(cs_digest, dims, stmt) == Some(
            DischargeError::CsDigestMismatch {
                statement_digest: stmt.cs_digest,
                key_digest: cs_digest,
            },
        ),
        statement_error(cs_digest, dims, stmt) matches Some(
            DischargeError::TableMetadataMismatch { statement, key },
        ) ==> {
            &&& statement != key
            &&& statement == (stmt.n_terms, stmt.n_pad, stmt.parity)
            &&& key == (dims.n_terms, dims.n_pad, dims.parity)
        },
{
}

/// Every honest statement is admitted: the one that is made from a term table and any claims, if there
/// is one at least, passes the checks for that table's digest and dimensions.
pub proof fn law_honest_statement_admitted(table: TermTable, stmt: DischargeStatement)
    requires
        stmt.cs_digest@ == table.cs_digest@,
        stmt.n_terms == table.dims.n_terms,
        stmt.n_pad == table.dims.n_pad,
        stmt.parity == table.dims.parity,
        stmt.claims@.len() > 0,
    ensures
        statement_error(table.cs_digest, table.dims, stmt) is None,
{
}

/// The indicators of the four blocks, written out: the first selector has weight one in the block
/// number and the second has weight two.
pub proof fn law_block_indicators(p: B128, q: B128)
    ensures
        block_eq(seq![p, q], 0) == (one() + p) * (one() + q),
        block_eq(seq![p, q], 1) == p * (one() + q),
        block_eq(seq![p, q], 2) == (one() + p) * q,
        block_eq(seq![p, q], 3) == p * q,
{
    broadcast use group_units;

    lemma_pair(zero(), zero(), p, q);
    lemma_pair(one(), zero(), p, q);
    lemma_pair(zero(), one(), p, q);
    lemma_pair(one(), one(), p, q);
    law_add_self(one());
}

/// The indicator of a pair at a pair.
proof fn lemma_pair(a: B128, b: B128, p: B128, q: B128)
    ensures
        eq_points(seq![a, b], seq![p, q]) == (one() + a + p) * (one() + b + q),
{
    broadcast use group_units;

    assert(seq![p, q].drop_last() =~= seq![p]);
    assert(seq![p].drop_last() =~= Seq::<B128>::empty());
    assert(seq![a, b].drop_last() =~= seq![a]);
    assert(seq![a].drop_last() =~= Seq::<B128>::empty());
    reveal_with_fuel(eq_points, 3);
}

/// Where the ten evaluations and the ten points of claim `l` stand in a batch: the constraint
/// evaluation, the word evaluation, and one for each of the eight shift kinds.
pub proof fn law_batch_order(
    dims: ShapeDims,
    ctxs: Seq<ClaimCtx>,
    finish: Seq<B128>,
    d_vals: Seq<B128>,
    k: nat,
    l: int,
    o: int,
)
    requires
        0 <= l < k <= ctxs.len(),
        0 <= o < 8,
        8 * k <= d_vals.len(),
    ensures
        ({
            let evals = batch_evals(finish, d_vals, k);
            let points = batch_points(dims, ctxs, k);
            let own = claim_points(dims, ctxs[l].tr.parsed);
            &&& evals.len() == 10 * k
            &&& points.len() == 10 * k
            &&& evals[10 * l] == finish[3 * l]
            &&& evals[10 * l + 1] == finish[3 * l + 1]
            &&& evals[10 * l + 2 + o] == d_vals[8 * l + o]
            &&& points[10 * l] == own[0]
            &&& points[10 * l + 1] == own[1]
            &&& points[10 * l + 2 + o] == own[2 + o]
        }),
    decreases k,
{
    let m = (k - 1) as nat;
    if l < m {
        law_batch_order(dims, ctxs, finish, d_vals, m, l, o);
    } else if m > 0 {
        law_batch_order(dims, ctxs, finish, d_vals, m, 0, 0);
    }
    assert(batch_evals(finish, d_vals, 0).len() == 0);
    assert(batch_points(dims, ctxs, 0).len() == 0);
}

/// The ten points at which a claim needs the histogram table, coordinate by coordinate. Each is an
/// address with zeros up to the address width and two selectors: the constraint challenge in the first
/// quarter; the word challenge with the segment challenge in the second; and in the third, for each
/// shift kind, the shift challenge, the three binary digits of the kind and the two slot coordinates.
pub proof fn law_claim_points(dims: ShapeDims, parsed: ParsedClaim, o: int, i: int)
    requires
        dims.n_a >= 11,
        dims.n_x <= dims.n_a,
        1 <= dims.n_y <= dims.n_a,
        parsed_fits(dims, parsed),
        0 <= o < 8,
        0 <= i < dims.n_a,
    ensures
        ({
            let p = claim_points(dims, parsed);
            let n = dims.n_a as int;
            let l = parsed.lambda_and + one();
            &&& p.len() == 10
            &&& p[0].len() == n + 2 && p[1].len() == n + 2 && p[2 + o].len() == n + 2
            &&& p[0][n] == zero() && p[0][n + 1] == zero()
            &&& p[1][n] == one() && p[1][n + 1] == zero()
            &&& p[2 + o][n] == zero() && p[2 + o][n + 1] == one()
            &&& p[0][i] == (if i < dims.n_x { parsed.r_x@[i] } else { zero() })
            &&& p[1][i] == (if i < dims.n_y - 1 {
                parsed.r_y@[i]
            } else if i == dims.n_y - 1 {
                parsed.r_segment
            } else {
                zero()
            })
            &&& p[2 + o][i] == (if i < 6 {
                parsed.r_s@[i]
            } else if i == 6 {
                if o % 2 == 1 { one() } else { zero() }
            } else if i == 7 {
                if o / 2 % 2 == 1 { one() } else { zero() }
            } else if i == 8 {
                if o / 4 == 1 { one() } else { zero() }
            } else if i == 9 {
                inv(l) + one()
            } else if i == 10 {
                inv(l * l) + one()
            } else {
                zero()
            })
        }),
{
    lemma_exp2_small();
    reveal_with_fuel(bits_of, 4);
    let p = claim_points(dims, parsed);
    let bits = bits_of(o, 3);
    assert(bits.len() == 3);
    assert(bits[0] == (if o % 2 == 1 { one() } else { zero() }));
    assert(bits[1] == (if o / 2 % 2 == 1 { one() } else { zero() }));
    assert(bits[2] == (if o / 4 == 1 { one() } else { zero() }));
    assert(p[2 + o] == crate::histogram::table_point(
        dims,
        crate::histogram::meta_address(parsed, o),
        zero(),
        one(),
    ));
}

} // verus!
