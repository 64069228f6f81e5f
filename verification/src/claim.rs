//! Deferred evaluation claims: the claim point taken apart, and the weights that it gives to the
//! rows of the term table.

use crate::cs::SHIFT_VARIANT_COUNT;
use crate::error::DischargeError;
use crate::field::element::{one, zero, B128};
use crate::field::inverse::inv;
use crate::field::ring::{
    group_mul_ac, group_units, law_add_zero, law_mul_associates,
    law_mul_commutes,
};
use crate::field::sums::{lemma_sum_ext, power, sum};
use crate::multilinear::eq::{
    eq_at, eq_ind_partial_eval_scalars, eq_ind_zero, eq_one_var, eq_tensor, eq_zero,
    law_eq_at_concat, law_eq_at_zero, scaled_eq_ind_partial_eval_scalars,
};
use crate::multilinear::exp2::{
    exp2, lemma_exp2_mono, lemma_exp2_pos, lemma_exp2_small,
};
use crate::table::{cube_index, ShapeDims, Term, TermTable, LOG_WORD_SIZE_BITS, N_U};
use vstd::prelude::*;

verus! {

/// A deferred claim: the polynomial of the shape takes `value` at `point`.
#[derive(Debug, Clone, PartialEq, Eq)]
pub struct Claim {
    pub point: Vec<B128>,
    pub value: B128,
}

/// A claim point taken apart.
#[derive(Debug, Clone, PartialEq, Eq)]
pub struct ParsedClaim {
    pub r_zhat: B128,
    pub lambda_and: B128,
    pub lambda_int: B128,
    pub r_x: Vec<B128>,
    pub r_x_mul: Vec<B128>,
    pub r_j: Vec<B128>,
    pub r_s: Vec<B128>,
    /// The word-index challenge.
    pub r_y: Vec<B128>,
    /// The segment challenge: public words are weighted by `1 + r_segment`, hidden words by
    /// `r_segment`.
    pub r_segment: B128,
}

/// The parts have the lengths that the shape gives them.
pub open spec fn parsed_fits(dims: ShapeDims, parsed: ParsedClaim) -> bool {
    &&& parsed.r_x@.len() == dims.n_x
    &&& parsed.r_x_mul@.len() == dims.n_x_mul
    &&& parsed.r_j@.len() == LOG_WORD_SIZE_BITS
    &&& parsed.r_s@.len() == LOG_WORD_SIZE_BITS
    &&& parsed.r_y@.len() == dims.n_y - 1
}

/// The point that a parsed claim came from: its parts, in order.
pub open spec fn point_of(parsed: ParsedClaim) -> Seq<B128> {
    seq![parsed.r_zhat, parsed.lambda_and, parsed.lambda_int] + parsed.r_x@ + parsed.r_x_mul@
        + parsed.r_j@ + parsed.r_s@ + parsed.r_y@ + seq![parsed.r_segment]
}

/// What is wrong with a claim point, if anything.
pub open spec fn claim_error(dims: ShapeDims, point: Seq<B128>) -> Option<DischargeError> {
    if point.len() != dims.arity {
        Some(
            DischargeError::ClaimArity { got: point.len() as usize, expected: dims.arity },
        )
    } else if point[1] == zero() || point[1] == one() {
        Some(DischargeError::LambdaAndDegenerate)
    } else {
        None
    }
}

/// The weight of word `y` of a value vector with a public segment of `n_pub == 2^lp` words.
pub open spec fn segment_weight(
    lp: int,
    n_pub: int,
    r_y: Seq<B128>,
    r_segment: B128,
    y: int,
) -> B128 {
    if y < n_pub {
        (one() + r_segment) * eq_zero(r_y.skip(lp)) * eq_at(y, r_y.take(lp))
    } else {
        r_segment * eq_at(y - n_pub, r_y)
    }
}

/// The weight of word `y` of the value vector of a shape.
pub open spec fn word_weight(dims: ShapeDims, r_y: Seq<B128>, r_segment: B128, y: int) -> B128 {
    segment_weight(dims.lp as int, dims.n_pub as int, r_y, r_segment, y)
}

/// The weights of all words.
pub open spec fn word_weights(dims: ShapeDims, r_y: Seq<B128>, r_segment: B128) -> Seq<B128> {
    Seq::new(dims.combined_len as nat, |y: int| word_weight(dims, r_y, r_segment, y))
}

/// The weight of a shift: its kind's evaluation times the indicator of its amount.
pub open spec fn shift_weight(h_ops: Seq<B128>, r_s: Seq<B128>, op: int, s: int) -> B128 {
    h_ops[op] * eq_at(s, r_s)
}

/// The weight of meta index `u`: the slot's power of `lambda` times the weight of the shift.
pub open spec fn meta_weight(lambda: B128, h_ops: Seq<B128>, r_s: Seq<B128>, u: int) -> B128 {
    power(lambda, (u / 512 + 1) as nat) * shift_weight(h_ops, r_s, (u / 64) % 8, u % 64)
}

/// The weights of all meta indices.
pub open spec fn meta_weights(lambda: B128, h_ops: Seq<B128>, r_s: Seq<B128>) -> Seq<B128> {
    Seq::new(exp2(N_U as nat), |u: int| meta_weight(lambda, h_ops, r_s, u))
}

/// The weight of a row of the term table.
pub open spec fn row_weight(x: Seq<B128>, y: Seq<B128>, g: Seq<B128>, term: Term) -> B128 {
    x[term.x as int] * y[term.y as int] * g[term.u as int]
}

/// The sum of the weights of the first `n` rows.
pub open spec fn rows_sum(terms: Seq<Term>, x: Seq<B128>, y: Seq<B128>, g: Seq<B128>, n: nat) -> B128 {
    sum(|t: int| row_weight(x, y, g, terms[t]), n)
}

/// The weight of the row that pads the term table: constraint 0, word 0, meta index 0.
pub open spec fn padding_weight(parsed: ParsedClaim, h_ops: Seq<B128>) -> B128 {
    parsed.lambda_and * h_ops[0] * eq_zero(parsed.r_s@) * eq_zero(parsed.r_x@) * (one()
        + parsed.r_segment) * eq_zero(parsed.r_y@)
}

/// The weight of a word is the indicator of its segmented address at the word-index challenge
/// with the segment challenge on top.
pub proof fn law_word_weight(dims: ShapeDims, r_y: Seq<B128>, r_segment: B128, y: int)
    requires
        dims.segmented(),
        r_y.len() == dims.n_y - 1,
        0 <= y < dims.combined_len,
    ensures
        word_weight(dims, r_y, r_segment, y) == eq_at(cube_index(dims, y), r_y.push(r_segment)),
{
    broadcast use group_units;

    let full = r_y.push(r_segment);
    let half = exp2(r_y.len());
    assert(full.drop_last() =~= r_y);
    lemma_exp2_mono(dims.lp as nat, r_y.len());
    if y < dims.n_pub {
        let a = r_y.take(dims.lp as int);
        let b = r_y.skip(dims.lp as int);
        assert(a + b =~= r_y);
        lemma_exp2_pos(b.len());
        law_eq_at_concat(y, 0, a, b);
        assert(exp2(a.len()) * 0 == 0) by (nonlinear_arith);
        law_eq_at_zero(b);
        let (e, z, c) = (eq_at(y, a), eq_zero(b), one() + r_segment);
        assert(c * z * e == (e * z) * c) by {
            broadcast use group_mul_ac;

        }
    } else {
        law_mul_commutes(eq_at(y - dims.n_pub, r_y), r_segment);
    }
}

/// The padding weight is the weight of row (0, 0, 0).
pub proof fn law_padding_weight(dims: ShapeDims, parsed: ParsedClaim, h_ops: Seq<B128>)
    requires
        dims.segmented(),
        parsed_fits(dims, parsed),
    ensures
        padding_weight(parsed, h_ops) == row_weight(
            eq_tensor(parsed.r_x@),
            word_weights(dims, parsed.r_y@, parsed.r_segment),
            meta_weights(parsed.lambda_and, h_ops, parsed.r_s@),
            (Term { x: 0, y: 0, u: 0 }),
        ),
{
    broadcast use group_units;

    let rs = parsed.r_segment;
    lemma_exp2_pos(parsed.r_x@.len());
    lemma_exp2_pos(dims.lp as nat);
    lemma_exp2_small();
    law_word_weight(dims, parsed.r_y@, rs, 0);
    let full = parsed.r_y@.push(rs);
    assert(full.drop_last() =~= parsed.r_y@);
    lemma_exp2_pos(parsed.r_y@.len());
    law_eq_at_zero(parsed.r_y@);
    law_eq_at_zero(parsed.r_x@);
    law_eq_at_zero(parsed.r_s@);
    reveal_with_fuel(power, 2);
    let (l, h) = (parsed.lambda_and, h_ops[0]);
    let (es, ex, ey) = (eq_zero(parsed.r_s@), eq_zero(parsed.r_x@), eq_zero(parsed.r_y@));
    let c = one() + rs;
    assert(power(l, 1) == l);
    assert(l * h * es * ex * c * ey == ex * (ey * c) * (l * (h * es))) by {
        lemma_six_factors(l, h, es, ex, c, ey);
    }
}

proof fn lemma_six_factors(l: B128, h: B128, es: B128, ex: B128, c: B128, ey: B128)
    ensures
        l * h * es * ex * c * ey == ex * (ey * c) * (l * (h * es)),
{
    law_mul_associates(l, h, es);
    let w = l * (h * es);
    law_mul_commutes(w, ex);
    law_mul_associates(ex * w, c, ey);
    law_mul_commutes(c, ey);
    law_mul_associates(ex, w, ey * c);
    law_mul_commutes(w, ey * c);
    law_mul_associates(ex, ey * c, w);
}

/// Takes a claim point apart, after checking its length and its batching challenge.
pub fn parse_claim(dims: &ShapeDims, claim: &Claim) -> (r: Result<ParsedClaim, DischargeError>)
    requires
        dims.arity == 3 + dims.n_x + dims.n_x_mul + 2 * LOG_WORD_SIZE_BITS + dims.n_y,
        dims.n_y >= 1,
    ensures
        match r {
            Ok(parsed) => {
                &&& claim_error(*dims, claim.point@) is None
                &&& parsed_fits(*dims, parsed)
                &&& point_of(parsed) == claim.point@
            },
            Err(e) => claim_error(*dims, claim.point@) == Some(e),
        },
{
    let p = &claim.point;
    if p.len() != dims.arity {
        return Err(DischargeError::ClaimArity { got: p.len(), expected: dims.arity });
    }
    let mut off: usize = 3;
    let r_x = take(p, off, dims.n_x);
    off = off + dims.n_x;
    let r_x_mul = take(p, off, dims.n_x_mul);
    off = off + dims.n_x_mul;
    let r_j = take(p, off, LOG_WORD_SIZE_BITS);
    off = off + LOG_WORD_SIZE_BITS;
    let r_s = take(p, off, LOG_WORD_SIZE_BITS);
    off = off + LOG_WORD_SIZE_BITS;
    let r_y = take(p, off, dims.n_y - 1);
    off = off + (dims.n_y - 1);
    let parsed = ParsedClaim {
        r_zhat: p[0],
        lambda_and: p[1],
        lambda_int: p[2],
        r_x,
        r_x_mul,
        r_j,
        r_s,
        r_y,
        r_segment: p[off],
    };
    if parsed.lambda_and == zero() || parsed.lambda_and == one() {
        return Err(DischargeError::LambdaAndDegenerate);
    }
    assert(point_of(parsed) =~= claim.point@);
    Ok(parsed)
}

/// The `n` entries from `off` on.
fn take(p: &Vec<B128>, off: usize, n: usize) -> (r: Vec<B128>)
    requires
        off + n <= p@.len(),
    ensures
        r@ == p@.subrange(off as int, off + n),
{
    let mut r: Vec<B128> = Vec::new();
    let mut i: usize = 0;
    while i < n
        invariant
            i <= n,
            off + n <= p.len(),
            r@ == p@.subrange(off as int, off + i),
        decreases n - i,
    {
        r.push(p[off + i]);
        i = i + 1;
        assert(r@ =~= p@.subrange(off as int, off + i));
    }
    r
}

/// The weights of the first `len` words of a value vector with a public segment of `2^lp` words.
pub fn segment_tensor(lp: usize, n_pub: usize, len: usize, r_y: &[B128], r_segment: B128) -> (r: Vec<
    B128,
>)
    requires
        lp <= r_y@.len(),
        n_pub == exp2(lp as nat),
        n_pub <= len,
        len - n_pub <= exp2(r_y@.len()),
        exp2(r_y@.len()) <= usize::MAX,
    ensures
        r@ == Seq::new(
            len as nat,
            |y: int| segment_weight(lp as int, n_pub as int, r_y@, r_segment, y),
        ),
{
    proof {
        lemma_exp2_mono(lp as nat, r_y@.len());
    }
    let low = vstd::slice::slice_subrange(r_y, 0, lp);
    let high = vstd::slice::slice_subrange(r_y, lp, r_y.len());
    assert(low@ =~= r_y@.take(lp as int));
    assert(high@ =~= r_y@.skip(lp as int));
    let public_scale = eq_one_var(r_segment, zero()) * eq_ind_zero(high);
    proof {
        law_add_zero(one() + r_segment);
    }
    let mut out = scaled_eq_ind_partial_eval_scalars(low, public_scale);
    let hidden = scaled_eq_ind_partial_eval_scalars(r_y, r_segment);
    let n_hidden: usize = len - n_pub;
    let ghost w = |y: int| segment_weight(lp as int, n_pub as int, r_y@, r_segment, y);
    assert forall|y: int| 0 <= y < out@.len() implies #[trigger] out@[y] == w(y) by {
        assert(out@[y] == public_scale * eq_at(y, low@));
    }
    let mut i: usize = 0;
    while i < n_hidden
        invariant
            i <= n_hidden,
            n_hidden <= hidden@.len(),
            n_pub + n_hidden == len,
            out@.len() == n_pub + i,
            w == (|y: int| segment_weight(lp as int, n_pub as int, r_y@, r_segment, y)),
            forall|y: int| 0 <= y < out@.len() ==> #[trigger] out@[y] == w(y),
            forall|j: int|
                0 <= j < hidden@.len() ==> #[trigger] hidden@[j] == r_segment * eq_at(j, r_y@),
        decreases n_hidden - i,
    {
        out.push(hidden[i]);
        i = i + 1;
    }
    assert(out@ =~= Seq::new(len as nat, w));
    out
}

/// The weights of all words of the value vector of a shape.
pub fn segmented_y_tensor(dims: &ShapeDims, r_y: &[B128], r_segment: B128) -> (r: Vec<B128>)
    requires
        dims.segmented(),
        r_y@.len() == dims.n_y - 1,
        exp2((dims.n_y - 1) as nat) <= usize::MAX,
    ensures
        r@ == word_weights(*dims, r_y@, r_segment),
{
    let r = segment_tensor(dims.lp, dims.n_pub, dims.combined_len, r_y, r_segment);
    assert(r@ =~= word_weights(*dims, r_y@, r_segment));
    r
}

/// The weights of all meta indices.
pub fn g_table(lambda_and: B128, h_ops: &[B128; 8], r_s: &[B128]) -> (out: Vec<B128>)
    requires
        r_s@.len() == LOG_WORD_SIZE_BITS,
    ensures
        out@ == meta_weights(lambda_and, h_ops@, r_s@),
{
    broadcast use group_units;

    proof {
        lemma_exp2_small();
    }
    let rs_tensor = eq_ind_partial_eval_scalars(r_s);
    let mut out: Vec<B128> = Vec::new();
    let mut lam = lambda_and;
    let mut m: usize = 0;
    assert(power(lambda_and, 1) == lambda_and) by {
        reveal_with_fuel(power, 2);
    }
    while m < 4
        invariant
            m <= 4,
            r_s@.len() == LOG_WORD_SIZE_BITS,
            rs_tensor@ == eq_tensor(r_s@),
            rs_tensor@.len() == 64,
            lam == power(lambda_and, (m + 1) as nat),
            out@.len() == 512 * m,
            forall|u: int|
                0 <= u < out@.len() ==> #[trigger] out@[u] == meta_weight(
                    lambda_and,
                    h_ops@,
                    r_s@,
                    u,
                ),
        decreases 4 - m,
    {
        let mut op: usize = 0;
        while op < SHIFT_VARIANT_COUNT
            invariant
                m < 4,
                op <= 8,
                rs_tensor@ == eq_tensor(r_s@),
                rs_tensor@.len() == 64,
                lam == power(lambda_and, (m + 1) as nat),
                out@.len() == 512 * m + 64 * op,
                forall|u: int|
                    0 <= u < out@.len() ==> #[trigger] out@[u] == meta_weight(
                        lambda_and,
                        h_ops@,
                        r_s@,
                        u,
                    ),
            decreases 8 - op,
        {
            let mut s: usize = 0;
            while s < 64
                invariant
                    m < 4,
                    op < 8,
                    s <= 64,
                    rs_tensor@ == eq_tensor(r_s@),
                    rs_tensor@.len() == 64,
                    lam == power(lambda_and, (m + 1) as nat),
                    out@.len() == 512 * m + 64 * op + s,
                    forall|u: int|
                        0 <= u < out@.len() ==> #[trigger] out@[u] == meta_weight(
                            lambda_and,
                            h_ops@,
                            r_s@,
                            u,
                        ),
                decreases 64 - s,
            {
                let ghost u: int = 512 * m + 64 * op + s;
                assert(u / 512 == m && (u / 64) % 8 == op && u % 64 == s);
                out.push(lam * (h_ops[op] * rs_tensor[s]));
                s = s + 1;
            }
            op = op + 1;
        }
        assert(power(lambda_and, (m + 2) as nat) == lam * lambda_and);
        lam = lam * lambda_and;
        m = m + 1;
    }
    assert(out@ =~= meta_weights(lambda_and, h_ops@, r_s@));
    out
}

/// What a claim point gives to every phase of the discharge.
///
/// The three tables are prover data; a light context leaves them empty.
pub struct ClaimTransparents {
    pub parsed: ParsedClaim,
    /// The evaluations of the eight shift kinds at this claim.
    pub h_ops: [B128; 8],
    /// The indicator table of the constraint challenge.
    pub x_tensor: Vec<B128>,
    /// The weights of the words.
    pub y_tensor: Vec<B128>,
    /// The weights of the meta indices.
    pub g_tab: Vec<B128>,
    /// The weight of a padding row.
    pub dummy_weight: B128,
}

impl ClaimTransparents {
    /// What both contexts hold: the parsed point, the shift evaluations and the padding weight.
    pub open spec fn light(self, dims: ShapeDims, point: Seq<B128>, h_ops: Seq<B128>) -> bool {
        &&& parsed_fits(dims, self.parsed)
        &&& point_of(self.parsed) == point
        &&& self.parsed.lambda_and != zero()
        &&& self.parsed.lambda_and != one()
        &&& self.h_ops@ == h_ops
        &&& self.dummy_weight == padding_weight(self.parsed, h_ops)
    }

    /// The tables are those of the parsed point.
    pub open spec fn has_tables(self, dims: ShapeDims) -> bool {
        &&& self.x_tensor@ == eq_tensor(self.parsed.r_x@)
        &&& self.y_tensor@ == word_weights(dims, self.parsed.r_y@, self.parsed.r_segment)
        &&& self.g_tab@ == meta_weights(self.parsed.lambda_and, self.h_ops@, self.parsed.r_s@)
    }

    /// The context of a claim with its tables. `h_ops` are the evaluations of the eight shift
    /// kinds at the claim's bit-index challenges.
    pub fn new(dims: &ShapeDims, claim: &Claim, h_ops: [B128; 8]) -> (r: Result<
        Self,
        DischargeError,
    >)
        requires
            dims.segmented(),
            dims.fits(),
        ensures
            match r {
                Ok(tr) => claim_error(*dims, claim.point@) is None && tr.light(
                    *dims,
                    claim.point@,
                    h_ops@,
                ) && tr.has_tables(*dims),
                Err(e) => claim_error(*dims, claim.point@) == Some(e),
            },
    {
        let mut ctx = match Self::new_light(dims, claim, h_ops) {
            Ok(ctx) => ctx,
            Err(e) => {
                return Err(e);
            },
        };
        proof {
            lemma_exp2_mono(dims.n_x as nat, dims.n_d as nat);
            lemma_exp2_mono((dims.n_y - 1) as nat, dims.n_d as nat);
        }
        ctx.x_tensor = eq_ind_partial_eval_scalars(&ctx.parsed.r_x);
        ctx.y_tensor = segmented_y_tensor(dims, &ctx.parsed.r_y, ctx.parsed.r_segment);
        ctx.g_tab = g_table(ctx.parsed.lambda_and, &ctx.h_ops, &ctx.parsed.r_s);
        Ok(ctx)
    }

    /// The context of a claim without its tables.
    pub fn new_light(dims: &ShapeDims, claim: &Claim, h_ops: [B128; 8]) -> (r: Result<
        Self,
        DischargeError,
    >)
        requires
            dims.arity == 3 + dims.n_x + dims.n_x_mul + 2 * LOG_WORD_SIZE_BITS + dims.n_y,
            dims.n_y >= 1,
        ensures
            match r {
                Ok(tr) => {
                    &&& claim_error(*dims, claim.point@) is None
                    &&& tr.light(*dims, claim.point@, h_ops@)
                    &&& tr.x_tensor@.len() == 0
                    &&& tr.y_tensor@.len() == 0
                    &&& tr.g_tab@.len() == 0
                },
                Err(e) => claim_error(*dims, claim.point@) == Some(e),
            },
    {
        let parsed = match parse_claim(dims, claim) {
            Ok(parsed) => parsed,
            Err(e) => {
                return Err(e);
            },
        };
        assert(point_of(parsed)[1] == parsed.lambda_and);
        let dummy_weight = parsed.lambda_and * h_ops[0] * eq_ind_zero(&parsed.r_s) * eq_ind_zero(
            &parsed.r_x,
        ) * (one() + parsed.r_segment) * eq_ind_zero(&parsed.r_y);
        Ok(
            ClaimTransparents {
                parsed,
                h_ops,
                x_tensor: Vec::new(),
                y_tensor: Vec::new(),
                g_tab: Vec::new(),
                dummy_weight,
            },
        )
    }

    /// The factors by which the meta evaluation of a claim is put together from eight values of
    /// the meta histogram: `h_o * lambda * (lambda + 1)^3`.
    pub fn gammas(&self) -> (r: [B128; 8])
        ensures
            forall|o: int|
                0 <= o < 8 ==> #[trigger] r@[o] == gamma(self.parsed.lambda_and, self.h_ops@[o]),
    {
        let lam = self.parsed.lambda_and;
        let lp1 = lam + one();
        let scale = lam * lp1 * lp1 * lp1;
        let h = &self.h_ops;
        [
            h[0] * scale,
            h[1] * scale,
            h[2] * scale,
            h[3] * scale,
            h[4] * scale,
            h[5] * scale,
            h[6] * scale,
            h[7] * scale,
        ]
    }

    /// The slot coordinates of the eight points at which the meta histogram is evaluated.
    pub fn m_coords(&self) -> (r: (B128, B128))
        ensures
            r == slot_coords(self.parsed.lambda_and),
    {
        let lp1 = self.parsed.lambda_and + one();
        let p0 = lp1.invert_or_zero() + one();
        let lp1_sq = lp1 * lp1;
        let p1 = lp1_sq.invert_or_zero() + one();
        (p0, p1)
    }
}

/// `h * (lambda * (lambda + 1)^3)`.
pub open spec fn gamma(lambda: B128, h: B128) -> B128 {
    let lp1 = lambda + one();
    h * (lambda * lp1 * lp1 * lp1)
}

/// `(1 / (lambda + 1) + 1, 1 / (lambda + 1)^2 + 1)`.
pub open spec fn slot_coords(lambda: B128) -> (B128, B128) {
    let lp1 = lambda + one();
    (inv(lp1) + one(), inv(lp1 * lp1) + one())
}

/// The rows of a table index into the tables of weights.
pub open spec fn rows_in(terms: Seq<Term>, x: Seq<B128>, y: Seq<B128>, g: Seq<B128>) -> bool {
    forall|t: int|
        0 <= t < terms.len() ==> {
            let term = #[trigger] terms[t];
            term.x < x.len() && term.y < y.len() && term.u < g.len()
        }
}

/// The sum of the weights of all rows of the term table.
pub fn native_term_sum(table: &TermTable, tr: &ClaimTransparents) -> (r: B128)
    requires
        rows_in(table.terms@, tr.x_tensor@, tr.y_tensor@, tr.g_tab@),
    ensures
        r == rows_sum(
            table.terms@,
            tr.x_tensor@,
            tr.y_tensor@,
            tr.g_tab@,
            table.terms@.len(),
        ),
{
    let mut acc = zero();
    let mut t: usize = 0;
    while t < table.terms.len()
        invariant
            t <= table.terms@.len(),
            rows_in(table.terms@, tr.x_tensor@, tr.y_tensor@, tr.g_tab@),
            acc == rows_sum(table.terms@, tr.x_tensor@, tr.y_tensor@, tr.g_tab@, t as nat),
        decreases table.terms@.len() - t,
    {
        let term = table.terms[t];
        acc = acc + tr.x_tensor[term.x as usize] * tr.y_tensor[term.y as usize]
            * tr.g_tab[term.u as usize];
        t = t + 1;
    }
    acc
}

/// The context of a claim, for intake. Every error says that it came up there, and why.
pub fn claim_context(dims: &ShapeDims, claim: &Claim, h_ops: [B128; 8]) -> (r: Result<
    ClaimTransparents,
    DischargeError,
>)
    requires
        dims.segmented(),
        dims.fits(),
    ensures
        match r {
            Ok(tr) => claim_error(*dims, claim.point@) is None && tr.light(
                *dims,
                claim.point@,
                h_ops@,
            ) && tr.has_tables(*dims),
            Err(DischargeError::ClaimIntake { cause }) => claim_error(*dims, claim.point@) == Some(
                *cause,
            ),
            Err(_) => false,
        },
{
    match ClaimTransparents::new(dims, claim, h_ops) {
        Ok(tr) => Ok(tr),
        Err(e) => Err(DischargeError::ClaimIntake { cause: Box::new(e) }),
    }
}

/// A claim point is refused exactly when it has another number of coordinates than the shape says, or
/// its second coordinate is zero or one.
pub proof fn law_claim_admission(dims: ShapeDims, point: Seq<B128>)
    ensures
        claim_error(dims, point) is None <==> point.len() == dims.arity && point[1] != zero()
            && point[1] != one(),
        claim_error(dims, point) == Some(DischargeError::LambdaAndDegenerate) <==> point.len()
            == dims.arity && (point[1] == zero() || point[1] == one()),
        point.len() != dims.arity <==> claim_error(dims, point) == Some(
            DischargeError::ClaimArity { got: point.len() as usize, expected: dims.arity },
        ),
{
}

/// Where the parts of a claim stand in its point: three single coordinates, the constraint
/// challenges, the bit-index and shift challenges of six coordinates each, the word-index challenges,
/// and the segment challenge last.
pub proof fn law_point_parts(dims: ShapeDims, parsed: ParsedClaim, point: Seq<B128>)
    requires
        parsed_fits(dims, parsed),
        point_of(parsed) == point,
    ensures
        ({
            let (x, m, y) = (dims.n_x as int, dims.n_x_mul as int, dims.n_y as int);
            &&& point.len() == 15 + x + m + y
            &&& parsed.r_zhat == point[0]
            &&& parsed.lambda_and == point[1]
            &&& parsed.lambda_int == point[2]
            &&& parsed.r_x@ == point.subrange(3, 3 + x)
            &&& parsed.r_x_mul@ == point.subrange(3 + x, 3 + x + m)
            &&& parsed.r_j@ == point.subrange(3 + x + m, 9 + x + m)
            &&& parsed.r_s@ == point.subrange(9 + x + m, 15 + x + m)
            &&& parsed.r_y@ == point.subrange(15 + x + m, 14 + x + m + y)
            &&& parsed.r_segment == point.last()
        }),
{
    let (x, m, y) = (dims.n_x as int, dims.n_x_mul as int, dims.n_y as int);
    assert(parsed.r_x@ =~= point.subrange(3, 3 + x));
    assert(parsed.r_x_mul@ =~= point.subrange(3 + x, 3 + x + m));
    assert(parsed.r_j@ =~= point.subrange(3 + x + m, 9 + x + m));
    assert(parsed.r_s@ =~= point.subrange(9 + x + m, 15 + x + m));
    assert(parsed.r_y@ =~= point.subrange(15 + x + m, 14 + x + m + y));
}

/// The weight of a word of a value vector whose public segment has `2^lp` words is the indicator of
/// its place in the segmented cube.
pub proof fn law_segment_weight(lp: nat, r_y: Seq<B128>, r_segment: B128, y: int)
    requires
        lp <= r_y.len(),
        0 <= y < exp2(lp) + exp2(r_y.len()),
    ensures
        segment_weight(lp as int, exp2(lp) as int, r_y, r_segment, y) == eq_at(
            if y < exp2(lp) {
                y
            } else {
                y - exp2(lp) + exp2(r_y.len())
            },
            r_y.push(r_segment),
        ),
{
    broadcast use group_units;

    let full = r_y.push(r_segment);
    assert(full.drop_last() =~= r_y);
    lemma_exp2_mono(lp, r_y.len());
    if y < exp2(lp) {
        let a = r_y.take(lp as int);
        let b = r_y.skip(lp as int);
        assert(a + b =~= r_y);
        lemma_exp2_pos(b.len());
        law_eq_at_concat(y, 0, a, b);
        assert(exp2(a.len()) * 0 == 0) by (nonlinear_arith);
        law_eq_at_zero(b);
        let (e, z, c) = (eq_at(y, a), eq_zero(b), one() + r_segment);
        assert(c * z * e == (e * z) * c) by {
            broadcast use group_mul_ac;

        }
    } else {
        law_mul_commutes(eq_at(y - exp2(lp), r_y), r_segment);
    }
}

/// The weight of a meta index with a given amount, kind and slot: the slot's power of the batching
/// challenge, the kind's evaluation and the amount's indicator, multiplied.
pub proof fn law_meta_weight(
    lambda: B128,
    h_ops: Seq<B128>,
    r_s: Seq<B128>,
    amount: int,
    kind: int,
    slot: int,
)
    requires
        0 <= amount < 64,
        0 <= kind < 8,
        0 <= slot,
    ensures
        meta_weight(lambda, h_ops, r_s, amount + 64 * kind + 512 * slot) == lambda * power(
            lambda,
            slot as nat,
        ) * h_ops[kind] * eq_at(amount, r_s),
{
    let u = amount + 64 * kind + 512 * slot;
    assert(u / 512 == slot && (u / 64) % 8 == kind && u % 64 == amount);
    law_mul_commutes(power(lambda, slot as nat), lambda);
    law_mul_associates(lambda * power(lambda, slot as nat), h_ops[kind], eq_at(amount, r_s));
}

/// No rows weigh nothing, and a further row adds the product of its three weights.
pub proof fn law_rows_sum_grows(terms: Seq<Term>, term: Term, x: Seq<B128>, y: Seq<B128>, g: Seq<B128>)
    ensures
        rows_sum(terms, x, y, g, 0) == zero(),
        rows_sum(terms.push(term), x, y, g, (terms.len() + 1) as nat) == rows_sum(
            terms,
            x,
            y,
            g,
            terms.len(),
        ) + x[term.x as int] * y[term.y as int] * g[term.u as int],
{
    let more = terms.push(term);
    let f = |t: int| row_weight(x, y, g, terms[t]);
    let h = |t: int| row_weight(x, y, g, more[t]);
    lemma_sum_ext(f, h, terms.len());
    assert(sum(h, (terms.len() + 1) as nat) == sum(h, terms.len()) + h(terms.len() as int));
}

} // verus!
