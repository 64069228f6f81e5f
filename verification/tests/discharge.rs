//! End-to-end runs of the discharge over an in-memory transcript and ideal commitments.

use recursion_discharge::claim::{
    claim_context, native_term_sum, parse_claim, segmented_y_tensor, Claim, ClaimTransparents,
};
use recursion_discharge::cs::{
    AndConstraint, ConstraintSystem, ImulConstraint, ShiftVariant, ShiftedValueIndex, ValueIndex,
    ValueVecLayout,
};
use recursion_discharge::cubic::CubicProductSumcheckProver;
use recursion_discharge::discharge::{
    cross_validate_claim, statement_from_capture, DischargeStatement,
};
use recursion_discharge::error::{DischargeError, VerifyError};
use recursion_discharge::field::element::{one, zero, B128};
use recursion_discharge::fracadd::{
    FastFracAddProver, FracAction, FracClaim, FracLayer, ProvedLayer,
};
use recursion_discharge::histogram::{assemble_m_d, build_histograms};
use recursion_discharge::merged::{
    prove_merged_openings, BatchReduced, BatchSumcheck, MergedCombine, OpenClaim, PaddedProduct,
};
use recursion_discharge::mode::{discharge_verify_any, DischargeMode, VerifierKey, VerifierStart};
use recursion_discharge::monster::native_monster_eval;
use recursion_discharge::multilinear::eq::{
    eq_ind, eq_ind_partial_eval_scalars, eq_ind_zero, scaled_eq_ind_partial_eval_scalars,
};
use recursion_discharge::multilinear::mle::{evaluate, extrapolate_line};
use recursion_discharge::multilinear::univariate::evaluate_univariate;
use recursion_discharge::native::{verify_native_run, NativeRun};
use recursion_discharge::packed::{
    assemble_m_d_packed, build_m_vk_packed, build_phase_c_leaf_halves, gather_column,
    vk_corner_values_packed,
};
use recursion_discharge::recorder::{verify_and_capture, LeafOutcome, RecorderChannel};
use recursion_discharge::step1::{
    check_native, discharge_prove, discharge_prove_tampered, discharge_verify, Step1Rows,
    Step1Tamper,
};
use recursion_discharge::step2::common::{block_indicators, digest_eq, Step2Tamper};
use recursion_discharge::step2::prove::{
    check_table, discharge_prove_step2, discharge_prove_step2_on_table,
    discharge_prove_step2_tampered, opened_codeword, prover_table, ProductClaim, ProveRows,
};
use recursion_discharge::step2::run::{verify_run, CommittedRun};
use recursion_discharge::step2::session::{prove_run, ProverReplies};
use recursion_discharge::step2::verify::{check_key, discharge_verify_step2, LeafClaim, Reduced};
use recursion_discharge::synth::{
    prepared_synth_table, shift_meta, synth_claim, synth_claims, synth_cs, synth_witness,
    ClaimDraws,
};
use recursion_discharge::table::{andonly, cube_y, extract_table, ShapeDims, TermTable};
use recursion_discharge::vk::{
    build_m_vk, check_dims_coherence, prepare_vkgen, tags, vk_entry, vkgen, DischargeVkm,
    FriOracle, FriParams,
};
use sha2::{Digest, Sha256};

const QUERIES: usize = 148;

// ---------------------------------------------------------------------------------------------
// Draws and transcripts.
// ---------------------------------------------------------------------------------------------

struct Draws {
    state: u64,
}

impl Draws {
    fn new(seed: u64) -> Self {
        Draws { state: seed }
    }

    fn word(&mut self) -> u64 {
        self.state = self.state.wrapping_add(0x9e3779b97f4a7c15);
        let mut z = self.state;
        z = (z ^ (z >> 30)).wrapping_mul(0xbf58476d1ce4e5b9);
        z = (z ^ (z >> 27)).wrapping_mul(0x94d049bb133111eb);
        z ^ (z >> 31)
    }

    fn elem(&mut self) -> B128 {
        B128::new(((self.word() as u128) << 64) | self.word() as u128)
    }

    fn elems(&mut self, n: usize) -> Vec<B128> {
        (0..n).map(|_| self.elem()).collect()
    }
}

fn bytes_of(vals: &[B128]) -> Vec<u8> {
    vals.iter().flat_map(|v| v.val().to_le_bytes()).collect()
}

fn hash(data: &[u8]) -> [u8; 32] {
    Sha256::digest(data).into()
}

/// The root of an ideal commitment.
fn root_of(codeword: &[B128]) -> [u8; 32] {
    hash(&bytes_of(codeword))
}

/// What a prover sends, and the codewords that an ideal opening shows.
#[derive(Clone)]
struct Proof {
    msgs: Vec<B128>,
    roots: Vec<[u8; 32]>,
    opened: Vec<Vec<B128>>,
}

/// One side of a transcript: messages are hashed as they are sent or received.
struct Transcript {
    state: [u8; 32],
    proof: Proof,
    next_msg: usize,
    next_root: usize,
}

impl Transcript {
    fn fresh() -> Self {
        Transcript {
            state: [0; 32],
            proof: Proof { msgs: vec![], roots: vec![], opened: vec![] },
            next_msg: 0,
            next_root: 0,
        }
    }

    fn replay(proof: Proof) -> Self {
        Transcript { state: [0; 32], proof, next_msg: 0, next_root: 0 }
    }

    fn absorb(&mut self, data: &[u8]) {
        let mut buf = self.state.to_vec();
        buf.extend_from_slice(data);
        self.state = hash(&buf);
    }

    fn observe(&mut self, vals: &[B128]) {
        self.absorb(&bytes_of(vals));
    }

    fn send(&mut self, vals: &[B128]) {
        self.proof.msgs.extend_from_slice(vals);
        self.observe(vals);
    }

    fn recv(&mut self, n: usize) -> Result<Vec<B128>, String> {
        let range = self.next_msg..self.next_msg + n;
        let vals = self.proof.msgs.get(range).ok_or(format!("{n} elements missing"))?.to_vec();
        self.next_msg += n;
        self.observe(&vals);
        Ok(vals)
    }

    fn send_root(&mut self, root: [u8; 32]) {
        self.proof.roots.push(root);
        self.absorb(&root);
    }

    fn recv_root(&mut self) -> Result<[u8; 32], String> {
        let root = *self.proof.roots.get(self.next_root).ok_or("root missing")?;
        self.next_root += 1;
        self.absorb(&root);
        Ok(root)
    }

    fn sample(&mut self) -> B128 {
        self.absorb(b"challenge");
        B128::new(u128::from_le_bytes(self.state[..16].try_into().unwrap()))
    }

    fn sample_many(&mut self, n: usize) -> Vec<B128> {
        (0..n).map(|_| self.sample()).collect()
    }

    fn used_up(&self) -> bool {
        self.next_msg == self.proof.msgs.len() && self.next_root == self.proof.roots.len()
    }
}

// ---------------------------------------------------------------------------------------------
// Sumchecks.
// ---------------------------------------------------------------------------------------------

fn plus(a: B128, b: B128) -> B128 {
    a + b
}

fn total(vals: impl Iterator<Item = B128>) -> B128 {
    vals.fold(zero(), plus)
}

/// The coefficients of the round polynomial of a product of multilinears, top variable first.
fn product_round(factors: &[Vec<B128>]) -> Vec<B128> {
    let half = factors[0].len() / 2;
    let mut acc = vec![zero(); factors.len() + 1];
    for i in 0..half {
        let mut poly = vec![one()];
        for f in factors {
            let (lo, hi) = (f[i], f[half + i]);
            let mut next = vec![zero(); poly.len() + 1];
            for (d, c) in poly.iter().enumerate() {
                next[d] = next[d] + *c * lo;
                next[d + 1] = next[d + 1] + *c * (lo + hi);
            }
            poly = next;
        }
        for (d, c) in poly.iter().enumerate() {
            acc[d] = acc[d] + *c;
        }
    }
    acc
}

fn fold(f: &mut Vec<B128>, r: B128) {
    let half = f.len() / 2;
    for i in 0..half {
        f[i] = extrapolate_line(f[i], f[half + i], r);
    }
    f.truncate(half);
}

/// Proves a batch of products; gives the point, low coordinate first, and the last values.
fn prove_products(mut claims: Vec<Vec<Vec<B128>>>, tr: &mut Transcript) -> (Vec<B128>, Vec<Vec<B128>>) {
    let n = claims[0][0].len().ilog2();
    let mu = tr.sample();
    let mut point = vec![];
    for _ in 0..n {
        let mut coeffs: Vec<B128> = vec![];
        let mut scale = one();
        for factors in &claims {
            let c = product_round(factors);
            coeffs.resize(c.len().max(coeffs.len()), zero());
            for (d, v) in c.iter().enumerate() {
                coeffs[d] = coeffs[d] + scale * *v;
            }
            scale = scale * mu;
        }
        tr.send(&coeffs);
        let r = tr.sample();
        for factors in &mut claims {
            for f in factors.iter_mut() {
                fold(f, r);
            }
        }
        point.push(r);
    }
    point.reverse();
    let finals = claims.iter().map(|fs| fs.iter().map(|f| f[0]).collect()).collect();
    (point, finals)
}

/// Drives the row provers; gives the row challenge, low coordinate first, and their last values.
fn prove_rows(mut provers: Vec<CubicProductSumcheckProver>, tr: &mut Transcript) -> (Vec<B128>, Vec<B128>) {
    let n = provers[0].n_vars();
    let mu = tr.sample();
    let mut rho = vec![];
    for _ in 0..n {
        let mut coeffs = vec![zero(); 4];
        let mut scale = one();
        for prover in &mut provers {
            assert_eq!(prover.n_claims(), 1);
            for round in prover.execute() {
                for (d, c) in round.0.iter().enumerate() {
                    coeffs[d] = coeffs[d] + scale * *c;
                }
                scale = scale * mu;
            }
        }
        tr.send(&coeffs);
        let r = tr.sample();
        for prover in &mut provers {
            prover.fold(r);
        }
        rho.push(r);
    }
    rho.reverse();
    let finish: Vec<B128> = provers.into_iter().flat_map(|p| p.finish()).collect();
    tr.send(&finish);
    (rho, finish)
}

fn verify_rounds(n: usize, degree: usize, mut sum: B128, tr: &mut Transcript) -> Result<Reduced, String> {
    let mut challenges = vec![];
    for _ in 0..n {
        let coeffs = tr.recv(degree + 1)?;
        let ends = evaluate_univariate(&coeffs, zero()) + evaluate_univariate(&coeffs, one());
        if ends != sum {
            return Err("round sum mismatch".to_string());
        }
        let r = tr.sample();
        sum = evaluate_univariate(&coeffs, r);
        challenges.push(r);
    }
    Ok(Reduced { eval: sum, challenges })
}

fn verify_batch(request: &BatchSumcheck, tr: &mut Transcript) -> Result<BatchReduced, String> {
    let mu = tr.sample();
    let sum = evaluate_univariate(&request.sums, mu);
    let out = verify_rounds(request.n_vars, request.degree, sum, tr)?;
    Ok(BatchReduced { batch_coeff: mu, eval: out.eval, challenges: out.challenges })
}

fn prove_single(claim: ProductClaim, tr: &mut Transcript) -> (Vec<B128>, B128) {
    let mut factors = vec![claim.a, claim.b];
    let n = factors[0].len().ilog2();
    let mut challenges = vec![];
    for _ in 0..n {
        tr.send(&product_round(&factors));
        let r = tr.sample();
        for f in &mut factors {
            fold(f, r);
        }
        challenges.push(r);
    }
    (challenges, factors[1][0])
}

// ---------------------------------------------------------------------------------------------
// The fraction check.
// ---------------------------------------------------------------------------------------------

/// Proves one layer: the claims on the layer above, batched, as a sum over the halves.
fn prove_layer(layer: FracLayer, claim: FracClaim, tr: &mut Transcript) -> ProvedLayer {
    let lambda = tr.sample();
    let n = claim.point.len();
    let eq = eq_ind_partial_eval_scalars(&claim.point);
    let (n0, n1, d0, d1) = (layer.num_lo, layer.num_hi, layer.den_lo, layer.den_hi);
    let scaled: Vec<B128> = (0..d0.len()).map(|i| n1[i] + lambda * d1[i]).collect();
    // eq * (n0 d1 + n1 d0 + lambda d0 d1) = eq * n0 * d1 + eq * d0 * (n1 + lambda d1)
    let mut products = vec![vec![eq.clone(), n0, d1], vec![eq, d0, scaled]];
    let mut challenges = vec![];
    for _ in 0..n {
        let (p, q) = (product_round(&products[0]), product_round(&products[1]));
        let coeffs: Vec<B128> = p.iter().zip(&q).map(|(a, b)| *a + *b).collect();
        tr.send(&coeffs);
        let r = tr.sample();
        for factors in &mut products {
            for f in factors.iter_mut() {
                fold(f, r);
            }
        }
        challenges.push(r);
    }
    challenges.reverse();
    let (n0, d1) = (products[0][1][0], products[0][2][0]);
    let (d0, s) = (products[1][1][0], products[1][2][0]);
    let evals = [n0, s + lambda * d1, d0, d1];
    tr.send(&evals);
    ProvedLayer { challenges, evals }
}

fn prove_fractions(tree: FastFracAddProver, root: FracClaim, tr: &mut Transcript) -> FracClaim {
    let (mut walk, mut action) = tree.prove(root);
    loop {
        match action {
            FracAction::ProveLayer { layer, claim } => {
                let proved = prove_layer(layer, claim, tr);
                (walk, action) = walk.layer_proved(proved);
            }
            FracAction::Sample => {
                let r = tr.sample();
                (walk, action) = walk.sampled(r);
            }
            FracAction::Finish { claim } => return claim,
        }
    }
}

fn verify_fractions(n_vars: usize, num: B128, den: B128, tr: &mut Transcript) -> Result<LeafClaim, String> {
    let mut claim = LeafClaim { num_eval: num, den_eval: den, point: vec![] };
    for k in 0..n_vars {
        let lambda = tr.sample();
        let out = verify_rounds(k, 3, claim.num_eval + lambda * claim.den_eval, tr)?;
        let mut r = out.challenges;
        r.reverse();
        let e = tr.recv(4)?;
        let expected = e[0] * e[3] + e[1] * e[2] + lambda * e[2] * e[3];
        if eq_ind(&claim.point, &r) * expected != out.eval {
            return Err("layer mismatch".to_string());
        }
        let c = tr.sample();
        let num_eval = extrapolate_line(e[0], e[1], c);
        let den_eval = extrapolate_line(e[2], e[3], c);
        r.push(c);
        claim = LeafClaim { num_eval, den_eval, point: r };
    }
    Ok(claim)
}

// ---------------------------------------------------------------------------------------------
// Shapes, claims and keys.
// ---------------------------------------------------------------------------------------------

fn encoding_of(cs: &ConstraintSystem) -> Vec<u8> {
    format!("{cs:?}").into_bytes()
}

fn prepared(variant: u8) -> ConstraintSystem {
    let mut cs = synth_cs(variant);
    cs.pad_and_constraints();
    cs
}

fn table_of(cs: &ConstraintSystem) -> TermTable {
    extract_table(cs, &encoding_of(cs)).expect("table")
}

/// Stands for the shift evaluations of a claim: a function of its first, `r_j` and `r_s` parts.
fn h_ops_of(dims: &ShapeDims, point: &[B128]) -> [B128; 8] {
    let from = 3 + dims.n_x + dims.n_x_mul;
    let mut data = vec![point[0]];
    data.extend_from_slice(&point[from..from + 12]);
    let seed = hash(&bytes_of(&data));
    let mut draws = Draws::new(u64::from_le_bytes(seed[..8].try_into().unwrap()));
    std::array::from_fn(|_| draws.elem())
}

fn claim_from(table: &TermTable, seed: u64) -> Claim {
    let mut draws = Draws::new(seed);
    let point = draws.elems(table.dims.arity);
    let h_ops = h_ops_of(&table.dims, &point);
    synth_claim(&table.dims, table, point, &draws.elems(4), h_ops).expect("claim")
}

fn claims_from(table: &TermTable, seed: u64, k: usize) -> Vec<Claim> {
    let draws = (0..k as u64)
        .map(|i| {
            let mut draws = Draws::new(seed + i);
            let point = draws.elems(table.dims.arity);
            let h_ops = h_ops_of(&table.dims, &point);
            ClaimDraws { point, lambda_draws: draws.elems(4), h_ops }
        })
        .collect();
    synth_claims(&table.dims, table, draws).expect("claims")
}

/// A claim as a leaf verification records it, beside the record of the public words.
fn captured(table: &TermTable, seed: u64) -> Claim {
    let claim = claim_from(table, seed);
    let mut channel = RecorderChannel::new();
    channel.record(claim.point.clone(), claim.value);
    channel.record(vec![one(); 6 + table.dims.lp], zero());
    verify_and_capture(LeafOutcome::Verified(channel), table.dims.arity).expect("capture")
}

fn h_ops_for(dims: &ShapeDims, stmt: &DischargeStatement) -> Vec<[B128; 8]> {
    stmt.claims.iter().map(|c| h_ops_of(dims, &c.point)).collect()
}

fn params_for(dims: &ShapeDims) -> FriParams {
    FriParams {
        fold_arities: vec![4, 3, 2],
        log_dim: dims.n_d + 2,
        log_inv_rate: 1,
        input_oracles: vec![
            FriOracle { log_batch_size: 2, log_lift: 0 },
            FriOracle { log_batch_size: 1, log_lift: 1 },
        ],
    }
}

fn key_for(table: &TermTable) -> DischargeVkm {
    let pending = prepare_vkgen(table, QUERIES, params_for(&table.dims)).expect("vkgen");
    let digest = root_of(&pending.m_vk);
    vkgen(pending, &digest)
}

// ---------------------------------------------------------------------------------------------
// The two modes.
// ---------------------------------------------------------------------------------------------

fn run_step1(rows: Step1Rows, absorb: Vec<B128>, provers: Vec<CubicProductSumcheckProver>) -> Proof {
    let mut tr = Transcript::fresh();
    tr.observe(&absorb);
    let (rho, finish) = prove_rows(provers, &mut tr);
    let (phi_state, d_vals) = match rows.proved(rho, finish) {
        Ok(next) => next,
        Err(e) => panic!("{}", e.message()),
    };
    tr.send(&d_vals);
    let claim = phi_state.sampled(tr.sample());
    let (_, m) = prove_single(claim, &mut tr);
    tr.send(&[m]);
    tr.proof
}

fn prove1(cs: &ConstraintSystem, stmt: &DischargeStatement, tamper: Step1Tamper) -> Result<Proof, DischargeError> {
    let dims = table_of(cs).dims;
    let h_ops = h_ops_for(&dims, stmt);
    let (rows, absorb, provers) = if tamper == Step1Tamper::Honest {
        discharge_prove(cs, &encoding_of(cs), stmt, &h_ops)?
    } else {
        discharge_prove_tampered(cs, &encoding_of(cs), stmt, &h_ops, tamper)?
    };
    Ok(run_step1(rows, absorb, provers))
}

/// What a run holds where it did not get to.
fn unset<T>() -> Result<T, String> {
    Err("not reached".to_string())
}

fn verify1(cs: &ConstraintSystem, stmt: &DischargeStatement, proof: Proof) -> Result<(), VerifyError> {
    let mut run = NativeRun {
        phase_a: unset(),
        finish: unset(),
        d_vals: unset(),
        phi: zero(),
        phase_b: unset(),
        m: unset(),
    };
    let r = verify1_live(cs, stmt, proof, &mut run);
    // The same verdict over the recorded run.
    let h_ops = h_ops_for(&table_of(cs).dims, stmt);
    assert_eq!(verify_native_run(cs, &encoding_of(cs), stmt, &h_ops, run), r);
    r
}

fn verify1_live(
    cs: &ConstraintSystem,
    stmt: &DischargeStatement,
    proof: Proof,
    run: &mut NativeRun,
) -> Result<(), VerifyError> {
    let dims = table_of(cs).dims;
    let h_ops = h_ops_for(&dims, stmt);
    let (state, absorb, request) = discharge_verify(cs, &encoding_of(cs), stmt, &h_ops)?;
    let k = stmt.claims.len();
    let mut tr = Transcript::replay(proof);
    tr.observe(&absorb);
    run.phase_a = verify_batch(&request, &mut tr);
    let state = match run.phase_a.clone() {
        Ok(out) => state.reduced(out),
        Err(reason) => return Err(state.failed(reason)),
    };
    run.finish = tr.recv(3 * k);
    let state = match run.finish.clone() {
        Ok(finish) => state.received(finish)?,
        Err(reason) => return Err(state.failed(reason)),
    };
    run.d_vals = tr.recv(8 * k);
    let state = match run.d_vals.clone() {
        Ok(d_vals) => state.received(d_vals)?,
        Err(reason) => return Err(state.failed(reason)),
    };
    run.phi = tr.sample();
    let (state, request) = state.sampled(run.phi);
    run.phase_b = verify_rounds(request.n_vars, request.degree, request.sum, &mut tr);
    let state = match run.phase_b.clone() {
        Ok(out) => state.reduced(out),
        Err(reason) => return Err(state.failed(reason)),
    };
    run.m = tr.recv(1).map(|m| m[0]);
    match run.m.clone() {
        Ok(m) => state.received(m)?,
        Err(reason) => return Err(state.failed(reason)),
    }
    assert!(tr.used_up(), "the transcript is used up");
    Ok(())
}

/// How a prover lies at the corner message.
#[derive(Clone, Copy, PartialEq)]
enum CornerLie {
    Nothing,
    CornerForgery,
    MPiLie,
}

/// Embeds a product in a larger cube: the message stands in the lowest block, with zeros above.
fn pad(product: &PaddedProduct) -> Vec<Vec<B128>> {
    let n = product.message.len() << product.padding;
    let mut a = product.message.clone();
    a.resize(n, zero());
    let b = (0..n).map(|i| product.transparent[i % product.transparent.len()]).collect();
    vec![a, b]
}

fn run_step2(
    table: &TermTable,
    vk_table: &TermTable,
    rows: ProveRows,
    absorb: (Vec<B128>, Vec<B128>),
    provers: Vec<CubicProductSumcheckProver>,
    tamper: Step2Tamper,
    lie: CornerLie,
) -> Proof {
    let dims = table.dims;
    let params = params_for(&dims);
    let mut tr = Transcript::fresh();
    tr.observe(&absorb.0);
    tr.observe(&absorb.1);
    let (rho, finish) = prove_rows(provers, &mut tr);
    let (tau_state, d_vals) = match rows.proved(rho, finish) {
        Ok(next) => next,
        Err(e) => panic!("{}", e.message()),
    };
    tr.send(&d_vals);
    let codeword = tau_state.m_d.clone();
    tr.send_root(root_of(&codeword));
    let tau = tr.sample();
    let (leaf_state, den_root, tree, root) = match tau_state.sampled(tau) {
        Ok(next) => next,
        Err(e) => panic!("{}", e.message()),
    };
    tr.send(&[den_root]);
    let leaf = prove_fractions(tree, root, &mut tr);
    let pi = leaf.point;
    let pi_hi = pi[dims.n_d..].to_vec();
    let (phi_state, mut vals) = match leaf_state.walked(pi) {
        Ok(next) => next,
        Err(e) => panic!("{}", e.message()),
    };
    let eq_blk = block_indicators(&pi_hi);
    match lie {
        CornerLie::Nothing => {}
        CornerLie::CornerForgery => {
            // The denominators do not change: the two changes cancel each other.
            vals[1] = vals[1] + eq_blk[2];
            vals[2] = vals[2] + eq_blk[1];
        }
        CornerLie::MPiLie => vals[3] = vals[3] + one(),
    }
    tr.send(&vals);
    let phi = tr.sample();
    let (batch, claim) = phi_state.sampled(phi);
    let (challenges, m) = prove_single(claim, &mut tr);
    tr.send(&[m]);
    let rho_c_state = match batch.proved(challenges, m) {
        Ok(next) => next,
        Err(e) => panic!("{}", e.message()),
    };
    let rho_c = tr.sample_many(2);
    let (c_vk, c_d) = if std::ptr::eq(table, vk_table) {
        rho_c_state.sampled(rho_c)
    } else {
        rho_c_state.sampled_over(vk_table, rho_c)
    };
    let vk_codeword = c_vk.message.clone();
    tr.send_root(root_of(&vk_codeword));
    let n = (dims.n_d + 2, dims.n_d);
    let (merged, p0, p1) = match prove_merged_openings(&params, c_vk, c_d, n, 2) {
        Ok(next) => next,
        Err(e) => panic!("{}", e.message()),
    };
    let (point, _) = prove_products(vec![pad(&p0), pad(&p1)], &mut tr);
    let alphas = [evaluate(&p0.message, &point), evaluate(&p1.message, &point[..n.1])];
    let merged = match merged.reduced(point.clone(), alphas) {
        Ok(next) => next,
        Err(e) => panic!("{}", e.message()),
    };
    tr.send(&alphas);
    let (combined, target) = merged.combined(tr.sample());
    assert_eq!(evaluate(&combined, &point), target, "the combined oracle has the target value");
    tr.proof.opened = vec![vk_codeword, opened_codeword(codeword, tamper)];
    tr.proof
}

fn prove2(
    cs: &ConstraintSystem,
    vkm: &DischargeVkm,
    stmt: &DischargeStatement,
    tamper: Step2Tamper,
    lie: CornerLie,
) -> Result<Proof, DischargeError> {
    let table = table_of(cs);
    let h_ops = h_ops_for(&table.dims, stmt);
    let params = params_for(&table.dims);
    let encoding = encoding_of(cs);
    let (rows, absorb, provers) = if tamper == Step2Tamper::Honest {
        discharge_prove_step2(cs, &encoding, vkm, stmt, &h_ops, QUERIES, params)?
    } else {
        discharge_prove_step2_tampered(cs, &encoding, vkm, stmt, &h_ops, QUERIES, params, tamper)?
    };
    Ok(run_step2(&table, &table, rows, absorb, provers, tamper, lie))
}

fn verify2(vkm: &DischargeVkm, stmt: &DischargeStatement, proof: Proof) -> Result<(), VerifyError> {
    let mut run = CommittedRun {
        phase_a: unset(),
        finish: unset(),
        d_vals: unset(),
        digest_d: unset(),
        tau: zero(),
        d_root: unset(),
        leaf: unset(),
        corners: unset(),
        phi: zero(),
        phase_b: unset(),
        m: unset(),
        rho_c: vec![zero(), zero()],
        vk_root: unset(),
        reduction: unset(),
        alphas: unset(),
        outer: zero(),
        opening: unset(),
    };
    let r = verify2_live(vkm, stmt, proof, &mut run);
    // The same verdict over the recorded run.
    let h_ops = h_ops_for(&vkm.dims, stmt);
    assert_eq!(verify_run(vkm, stmt, &h_ops, QUERIES, params_for(&vkm.dims), run), r);
    r
}

fn verify2_live(
    vkm: &DischargeVkm,
    stmt: &DischargeStatement,
    proof: Proof,
    run: &mut CommittedRun,
) -> Result<(), VerifyError> {
    let dims = vkm.dims;
    let params = params_for(&dims);
    let h_ops = h_ops_for(&dims, stmt);
    let (state, absorb, request) =
        discharge_verify_step2(vkm, stmt, &h_ops, QUERIES, params.clone())?;
    let k = stmt.claims.len();
    let opened = proof.opened.clone();
    let mut tr = Transcript::replay(proof);
    tr.observe(&absorb.0);
    tr.observe(&absorb.1);
    run.phase_a = verify_batch(&request, &mut tr);
    let state = match run.phase_a.clone() {
        Ok(out) => state.reduced(out),
        Err(reason) => return Err(state.failed(reason)),
    };
    run.finish = tr.recv(3 * k);
    let state = match run.finish.clone() {
        Ok(finish) => state.received(finish)?,
        Err(reason) => return Err(state.failed(reason)),
    };
    run.d_vals = tr.recv(8 * k);
    let state = match run.d_vals.clone() {
        Ok(d_vals) => state.received(d_vals)?,
        Err(reason) => return Err(state.failed(reason)),
    };
    run.digest_d = tr.recv_root();
    let state = match run.digest_d.clone() {
        Ok(root) => state.read(root),
        Err(reason) => return Err(state.failed(reason)),
    };
    let digest_d = state.commitment.root;
    assert_eq!(state.commitment.leaf_size, 2);
    assert_eq!(state.commitment.depth, dims.n_d + 2);
    run.tau = tr.sample();
    let state = state.sampled(run.tau)?;
    run.d_root = tr.recv(1).map(|v| v[0]);
    let (state, check) = match run.d_root.clone() {
        Ok(d_root) => state.received(d_root)?,
        Err(reason) => return Err(state.failed(reason)),
    };
    run.leaf = verify_fractions(check.n_vars, zero(), check.den_eval, &mut tr);
    let state = match run.leaf.clone() {
        Ok(leaf) => state.reduced(leaf)?,
        Err(reason) => return Err(state.failed(reason)),
    };
    run.corners = tr.recv(4).map(|v| [v[0], v[1], v[2], v[3]]);
    let state = match run.corners.clone() {
        Ok(vals) => state.received(vals)?,
        Err(reason) => return Err(state.failed(reason)),
    };
    run.phi = tr.sample();
    let (state, request) = state.sampled(run.phi);
    run.phase_b = verify_rounds(request.n_vars, request.degree, request.sum, &mut tr);
    let state = match run.phase_b.clone() {
        Ok(out) => state.reduced(out),
        Err(reason) => return Err(state.failed(reason)),
    };
    run.m = tr.recv(1).map(|v| v[0]);
    let state = match run.m.clone() {
        Ok(m) => state.received(m)?,
        Err(reason) => return Err(state.failed(reason)),
    };
    run.rho_c = tr.sample_many(2);
    let (state, shape) = state.sampled(run.rho_c.clone());
    assert_eq!((shape.leaf_size, shape.depth), (4, dims.n_d + 3));
    run.vk_root = tr.recv_root();
    let (vk_root, next) = match run.vk_root.clone() {
        Ok(root) => (root, state.received(root)?),
        Err(reason) => return Err(state.failed(reason)),
    };
    let (state, request) = next;
    run.reduction = verify_batch(&request, &mut tr);
    let state = match run.reduction.clone() {
        Ok(out) => state.reduced(out),
        Err(reason) => return Err(state.failed(reason)),
    };
    run.alphas = tr.recv(2).map(|v| [v[0], v[1]]);
    let alphas = match run.alphas.clone() {
        Ok(alphas) => alphas,
        Err(reason) => return Err(state.failed(reason)),
    };
    let state = state.received(alphas)?;
    let (n, lifts) = (state.n, state.lifts);
    run.outer = tr.sample();
    let opening = state.sampled(run.outer);
    // The ideal opening: the shown codewords are those committed, and their combination has the
    // target value.
    if !digest_eq(&root_of(&opened[0]), &vk_root) || !digest_eq(&root_of(&opened[1]), &digest_d) {
        let reason = "leaf does not match the root".to_string();
        run.opening = Err(reason.clone());
        return Err(opening.failed(reason));
    }
    let messages = (opened[0].clone(), opened[1].clone());
    let committed =
        MergedCombine { messages, n, lifts, point: opening.point.clone(), alphas };
    let (combined, _) = committed.combined(opening.outer);
    let consistent = evaluate(&combined, &opening.point) == opening.s_prime;
    run.opening = Ok(consistent);
    opening.finished(consistent)?;
    assert!(tr.used_up(), "the transcript is used up");
    Ok(())
}

fn message_of(r: Result<(), VerifyError>, why: &str) -> String {
    match r {
        Ok(()) => panic!("{why}"),
        Err(e) => e.message(),
    }
}

// ---------------------------------------------------------------------------------------------
// The small odd-parity shape.
// ---------------------------------------------------------------------------------------------

const K: usize = 2;

struct Ctx {
    cs: ConstraintSystem,
    table: TermTable,
    claims: Vec<Claim>,
    vkm: DischargeVkm,
    foreign_cs_digest: [u8; 32],
    foreign_vkm: DischargeVkm,
}

fn ctx() -> Ctx {
    let cs = prepared(0);
    let table = table_of(&cs);
    assert!(table.dims.parity, "synthetic shape must have ODD N_pad - N");
    let claims: Vec<Claim> = (0..K as u64).map(|i| captured(&table, 1000 + i)).collect();
    assert_ne!(claims[0].point, claims[1].point, "claims should be distinct");
    let vkm = key_for(&table);
    let f_table = table_of(&prepared(1));
    assert_eq!(f_table.dims, table.dims, "foreign shape must share all dims");
    assert_ne!(f_table.cs_digest, table.cs_digest, "foreign CS must differ");
    assert_ne!(f_table.terms, table.terms, "foreign term table must differ");
    let foreign_vkm = key_for(&f_table);
    assert_ne!(foreign_vkm.vk_digest, vkm.vk_digest, "foreign vk_digest must differ");
    Ctx { cs, table, claims, vkm, foreign_cs_digest: f_table.cs_digest, foreign_vkm }
}

#[test]
fn odd_parity_positive_step1_and_step2() {
    let ctx = ctx();
    for (i, c) in ctx.claims.iter().enumerate() {
        let h_ops = h_ops_of(&ctx.table.dims, &c.point);
        cross_validate_claim(&ctx.table, c, h_ops)
            .unwrap_or_else(|e| panic!("claim {i}: {}", e.message()));
    }
    let stmt = statement_from_capture(&ctx.table, ctx.claims.clone(), K).expect("coverage");
    let proof = prove1(&ctx.cs, &stmt, Step1Tamper::Honest).expect("step1 prove");
    verify1(&ctx.cs, &stmt, proof).expect("step1 verify");
    let proof = prove2(&ctx.cs, &ctx.vkm, &stmt, Step2Tamper::Honest, CornerLie::Nothing)
        .expect("step2 prove");
    verify2(&ctx.vkm, &stmt, proof).expect("step2 verify");
}

#[test]
fn t1_vkgen_regeneration_deterministic() {
    let ctx = ctx();
    let vkm2 = key_for(&ctx.table);
    assert_eq!(vkm2.vk_digest, ctx.vkm.vk_digest, "vk_digest must be byte-identical");
    assert_eq!(vkm2, ctx.vkm, "full VKM must be identical");
    // And regeneration from a freshly re-extracted table.
    let table2 = table_of(&ctx.cs);
    let vkm3 = key_for(&table2);
    assert_eq!(vkm3.vk_digest, ctx.vkm.vk_digest);
}

#[test]
fn negative_tamper_md_block3_caught_by_phase_c() {
    let ctx = ctx();
    let stmt = DischargeStatement::new(&ctx.table, ctx.claims.clone()).expect("statement");
    let proof = prove2(&ctx.cs, &ctx.vkm, &stmt, Step2Tamper::MdBlock3, CornerLie::Nothing)
        .expect("tampered prover must still produce a transcript");
    let msg =
        message_of(verify2(&ctx.vkm, &stmt, proof), "M_D (1,1)-block lie MUST be rejected");
    assert!(
        msg.contains("phase C"),
        "MdBlock3 must be caught by Phase C (not the openings): {msg}"
    );
}

#[test]
fn negative_table_swap_rejected() {
    let ctx = ctx();
    let stmt = DischargeStatement::new(&ctx.table, ctx.claims.clone()).expect("statement");
    let proof = prove2(&ctx.cs, &ctx.vkm, &stmt, Step2Tamper::Honest, CornerLie::Nothing)
        .expect("honest prove");

    // The full foreign key: the statement's digest no longer matches.
    let msg = message_of(
        verify2(&ctx.foreign_vkm, &stmt, proof.clone()),
        "foreign VKM MUST be rejected",
    );
    assert!(msg.contains("P0.2"), "expected the P0.2 cs_digest check: {msg}");
    assert_eq!(ctx.foreign_vkm.cs_digest, ctx.foreign_cs_digest, "test wiring");

    // A hybrid key: the same digest of the constraint system, but a foreign row table. The key is
    // absorbed before the first challenge, so the rounds diverge.
    let mut hybrid = ctx.vkm.clone();
    hybrid.vk_digest = ctx.foreign_vkm.vk_digest.clone();
    let msg = message_of(verify2(&hybrid, &stmt, proof), "hybrid vk_digest MUST be rejected");
    assert!(
        msg.contains("phase A"),
        "expected the FS-divergence failure at phase A (vk_digest binding): {msg}"
    );
}

#[test]
fn negative_tampered_digest_d_rejected_by_opening() {
    let ctx = ctx();
    let stmt = DischargeStatement::new(&ctx.table, ctx.claims.clone()).expect("statement");
    let proof = prove2(&ctx.cs, &ctx.vkm, &stmt, Step2Tamper::DigestD, CornerLie::Nothing)
        .expect("prover with flipped digest observation still produces a transcript");
    let msg = message_of(verify2(&ctx.vkm, &stmt, proof), "flipped digest_D MUST be rejected");
    assert!(
        msg.contains("opening") && msg.contains("Merkle"),
        "expected the merged opening's FRI/Merkle rejection, got: {msg}"
    );
    assert!(!msg.contains("phase"), "failure must NOT be a transcript-phase failure: {msg}");
}

#[test]
fn opened_table_must_be_the_pinned_one() {
    let ctx = ctx();
    let stmt = DischargeStatement::new(&ctx.table, ctx.claims.clone()).expect("statement");
    let mut proof =
        prove2(&ctx.cs, &ctx.vkm, &stmt, Step2Tamper::Honest, CornerLie::Nothing).expect("prove");
    proof.roots[1][0] ^= 1;
    let err = verify2(&ctx.vkm, &stmt, proof).unwrap_err();
    assert_eq!(err, VerifyError::VkDigestPin);
    assert!(err.message().contains("P0.1"));
}

#[test]
fn truncated_proofs_are_rejected() {
    let ctx = ctx();
    let stmt = DischargeStatement::new(&ctx.table, ctx.claims.clone()).expect("statement");
    let proof =
        prove2(&ctx.cs, &ctx.vkm, &stmt, Step2Tamper::Honest, CornerLie::Nothing).expect("prove");
    let mut n = proof.msgs.len();
    while n > 0 {
        n = n.saturating_sub(7);
        let mut cut = proof.clone();
        cut.msgs.truncate(n);
        assert!(verify2(&ctx.vkm, &stmt, cut).is_err());
    }
    let mut no_roots = proof;
    no_roots.roots.clear();
    let err = verify2(&ctx.vkm, &stmt, no_roots).unwrap_err();
    let reason = "root missing".to_string();
    assert_eq!(err, VerifyError::Transcript { phase: "digest_D read", reason });
    assert_eq!(err.message(), "digest_D read: root missing");
}

#[test]
fn every_flipped_message_is_rejected() {
    let ctx = ctx();
    let stmt = DischargeStatement::new(&ctx.table, ctx.claims.clone()).expect("statement");
    let proof =
        prove2(&ctx.cs, &ctx.vkm, &stmt, Step2Tamper::Honest, CornerLie::Nothing).expect("prove");
    for i in (0..proof.msgs.len()).step_by(5) {
        let mut bad = proof.clone();
        bad.msgs[i] = bad.msgs[i] + one();
        assert!(verify2(&ctx.vkm, &stmt, bad).is_err(), "message {i}");
    }
    let proof = prove1(&ctx.cs, &stmt, Step1Tamper::Honest).expect("prove");
    for i in 0..proof.msgs.len() {
        let mut bad = proof.clone();
        bad.msgs[i] = bad.msgs[i] + one();
        assert!(verify1(&ctx.cs, &stmt, bad).is_err(), "message {i}");
    }
}

// ---------------------------------------------------------------------------------------------
// Lies at single messages.
// ---------------------------------------------------------------------------------------------

#[test]
fn step2_adaptive_attacks() {
    let cs = prepared(0);
    let table = table_of(&cs);
    let claims: Vec<Claim> = (0..K as u64).map(|i| captured(&table, 2000 + i)).collect();
    let vkm = key_for(&table);
    let stmt = DischargeStatement::new(&table, claims).expect("statement");
    let run = |lie: CornerLie| {
        let proof = prove2(&cs, &vkm, &stmt, Step2Tamper::Honest, lie).expect("prove");
        verify2(&vkm, &stmt, proof)
    };

    run(CornerLie::Nothing).expect("control: copied honest STEP-2 prover must verify");

    // Invisible to the denominators: only the opening of the row table catches it.
    let msg = message_of(run(CornerLie::CornerForgery), "corner forgery MUST be rejected");
    assert!(
        msg.contains("merged") || msg.contains("reduction"),
        "CornerForgery must be caught by the merged-opening layer, got: {msg}"
    );
    assert!(
        !msg.contains("phase C"),
        "CornerForgery must NOT die at the phase C transparents (it is den-invariant): {msg}"
    );

    // The tree is honest, so the numerators disagree.
    let msg = message_of(run(CornerLie::MPiLie), "m_pi lie MUST be rejected");
    assert!(
        msg.contains("phase C numerator transparent"),
        "MPiLie must be caught by the Phase-C numerator transparent, got: {msg}"
    );
}

#[test]
fn corner_values_are_block_evaluations() {
    let table = table_of(&prepared(0));
    let n_l = table.dims.n_d;
    let block = 1usize << n_l;
    let pi_lo = Draws::new(77).elems(n_l);
    let m_vk = build_m_vk(&table);
    let direct = [
        evaluate(&m_vk[..block], &pi_lo),
        evaluate(&m_vk[block..2 * block], &pi_lo),
        evaluate(&m_vk[2 * block..3 * block], &pi_lo),
    ];
    let eq_pi = eq_ind_partial_eval_scalars(&pi_lo);
    assert_eq!(vk_corner_values_packed(&table, &eq_pi), direct);
}

// ---------------------------------------------------------------------------------------------
// Statements that lie.
// ---------------------------------------------------------------------------------------------

const N_Y_LOG: usize = 12;

fn sized(lc: usize) -> (ConstraintSystem, TermTable) {
    let (cs, _) = prepared_synth_table(lc, N_Y_LOG, 0, b"").expect("sized");
    let table = table_of(&cs);
    (cs, table)
}

#[test]
fn step2_corrupted_value_rejected() {
    let (cs, table) = sized(8);
    let vkm = key_for(&table);
    let mut claims = claims_from(&table, 11_000, K);
    claims[0].value = claims[0].value + one();
    let stmt = DischargeStatement::new(&table, claims).expect("statement");
    if let Ok(proof) = prove2(&cs, &vkm, &stmt, Step2Tamper::Honest, CornerLie::Nothing) {
        assert!(
            verify2(&vkm, &stmt, proof).is_err(),
            "corrupted claim value MUST be rejected on STEP 2"
        );
    }
}

#[test]
fn step2_consistent_table_lie_rejected() {
    let (_, table) = sized(8);
    let vkm = key_for(&table);

    // One term refers to another word; all dimensions stay as they are.
    let mut tampered = table.clone();
    let y0 = tampered.terms[0].y;
    tampered.terms[0].y =
        if (y0 as usize) + 1 < tampered.dims.combined_len { y0 + 1 } else { y0 - 1 };
    assert_eq!(tampered.dims, table.dims, "the lie must not change the shape");

    let claims = claims_from(&tampered, 12_000, K);
    let mut stmt = DischargeStatement::new(&tampered, claims).expect("statement");
    stmt.cs_digest = vkm.cs_digest;

    let h_ops = h_ops_for(&table.dims, &stmt);
    let params = params_for(&table.dims);
    let (rows, absorb, provers) = match discharge_prove_step2_on_table(
        tampered.clone(),
        &vkm,
        &stmt,
        &h_ops,
        QUERIES,
        params,
        Step2Tamper::Honest,
    ) {
        Ok(next) => next,
        Err(e) => panic!("the adversarial prover completes its transcript: {}", e.message()),
    };
    let proof = run_step2(
        &tampered,
        &table,
        rows,
        absorb,
        provers,
        Step2Tamper::Honest,
        CornerLie::Nothing,
    );
    let msg = message_of(verify2(&vkm, &stmt, proof), "a consistent table lie MUST be rejected");
    assert!(
        msg.contains("merged"),
        "expected the merged-opening rejection against the pinned M_VK, got: {msg}"
    );
}

// ---------------------------------------------------------------------------------------------
// Structural checks.
// ---------------------------------------------------------------------------------------------

fn one_claim() -> (ConstraintSystem, Claim) {
    let cs = prepared(0);
    let claim = captured(&table_of(&cs), 42);
    (cs, claim)
}

#[test]
fn andonly_rejects_real_imul_constraint() {
    let mut cs = prepared(0);
    assert!(andonly(&cs));
    let svi = ShiftedValueIndex::plain(ValueIndex(8));
    cs.imul_constraints.push(ImulConstraint {
        a: vec![svi],
        b: vec![svi],
        hi: vec![svi],
        lo: vec![svi],
    });
    assert!(!andonly(&cs));
    let err =
        extract_table(&cs, &encoding_of(&cs)).expect_err("real IMUL constraint MUST be rejected");
    assert!(err.message().contains("P0.3"), "expected the P0.3 ANDONLY check: {}", err.message());
}

#[test]
fn statement_metadata_lies_rejected() {
    let (cs, claim) = one_claim();
    let table = table_of(&cs);
    let stmt = DischargeStatement::new(&table, vec![claim]).expect("stmt");
    let none = Proof { msgs: vec![], roots: vec![], opened: vec![] };

    let mut parity_lie = stmt.clone();
    parity_lie.parity = !parity_lie.parity;
    let err = message_of(verify1(&cs, &parity_lie, none.clone()), "parity lie MUST reject");
    assert!(err.contains("P0.1"), "expected the P0.1 metadata check: {err}");

    let mut npad_lie = stmt;
    npad_lie.n_pad *= 2;
    let err = message_of(verify1(&cs, &npad_lie, none.clone()), "n_pad lie MUST reject");
    assert!(err.contains("P0.1"), "expected the P0.1 metadata check: {err}");

    let vkm = key_for(&table);
    for lie in [&parity_lie, &npad_lie] {
        let err = message_of(verify2(&vkm, lie, none.clone()), "metadata lie MUST reject");
        assert!(err.contains("P0.1"), "expected the P0.1 metadata check: {err}");
    }
}

#[test]
fn arity_and_coverage_rejects() {
    let (cs, claim) = one_claim();
    let table = table_of(&cs);

    let mut long_claim = claim.clone();
    long_claim.point.push(zero());
    let err = DischargeStatement::new(&table, vec![long_claim])
        .expect_err("wrong-arity claim MUST be rejected");
    assert!(err.message().contains("P0.4"), "expected the P0.4 arity check: {}", err.message());

    let err = statement_from_capture(&table, vec![claim], 2)
        .expect_err("a truncated capture list MUST be rejected");
    assert!(err.message().contains("P0.4"), "expected the P0.4 coverage check: {}", err.message());
}

#[test]
fn lambda_and_in_01_aborts() {
    let (cs, claim) = one_claim();
    let table = table_of(&cs);
    for bad in [zero(), one()] {
        let mut bad_claim = claim.clone();
        bad_claim.point[1] = bad; // index 1 is lambda_and
        let stmt = DischargeStatement::new(&table, vec![bad_claim]).expect("arity is fine");
        let none = Proof { msgs: vec![], roots: vec![], opened: vec![] };
        let err = message_of(verify1(&cs, &stmt, none), "lambda in {0,1} MUST abort");
        assert!(err.contains("lambda_and"), "expected the lambda abort: {err}");
    }
}

#[test]
fn claim_intake_errors_have_one_prefix() {
    let (cs, claim) = one_claim();
    let dims = table_of(&cs).dims;
    let h_ops = h_ops_of(&dims, &claim.point);
    assert!(claim_context(&dims, &claim, h_ops).is_ok());
    let mut long = claim.clone();
    long.point.push(zero());
    let mut degenerate = claim;
    degenerate.point[1] = one();
    for bad in [long, degenerate] {
        let cause = match ClaimTransparents::new(&dims, &bad, h_ops) {
            Err(cause) => cause,
            Ok(_) => panic!("the claim must be refused"),
        };
        let err = claim_context(&dims, &bad, h_ops).err().expect("refused");
        assert_eq!(err.message(), format!("claim intake: {}", cause.message()));
        assert_eq!(err, DischargeError::ClaimIntake { cause: Box::new(cause) });
    }
}

#[test]
fn fraction_trees_with_zero_denominators() {
    let e = |n: u128| B128::new(n);
    let (num, den) = ([e(3), e(5), e(7), e(11)], [e(2), zero(), e(9), e(4)]);
    let tree = |den: [B128; 4]| {
        FastFracAddProver::new(FracLayer {
            num_lo: num[..2].to_vec(),
            num_hi: num[2..].to_vec(),
            den_lo: den[..2].to_vec(),
            den_hi: den[2..].to_vec(),
        })
    };
    // Each numerator times the other denominators: all but one summand have the factor zero.
    let (prover, root) = tree(den);
    assert_eq!(root, (num[1] * den[0] * den[2] * den[3], zero()));
    // With two zeros there is none left.
    assert_eq!(tree([den[0], zero(), zero(), den[3]]).1, (zero(), zero()));

    // The walk asks for two layers, and its last claim is true of the leaves.
    let (mut walk, mut action) =
        prover.prove(FracClaim { num_eval: root.0, den_eval: root.1, point: vec![] });
    let mut layers = 0;
    let claim = loop {
        (walk, action) = match action {
            FracAction::ProveLayer { layer, claim } => {
                assert_eq!(claim.point.len(), layers);
                layers += 1;
                let challenges = vec![e(77); claim.point.len()];
                let at = |v: &Vec<B128>| evaluate(v, &challenges);
                let evals =
                    [at(&layer.num_lo), at(&layer.num_hi), at(&layer.den_lo), at(&layer.den_hi)];
                walk.layer_proved(ProvedLayer { challenges, evals })
            }
            FracAction::Sample => walk.sampled(e(1000)),
            FracAction::Finish { claim } => break claim,
        };
    };
    assert_eq!(layers, 2);
    assert_eq!(claim.point, vec![e(77), e(1000)]);
    assert_eq!(claim.num_eval, evaluate(&num.to_vec(), &claim.point));
    assert_eq!(claim.den_eval, evaluate(&den.to_vec(), &claim.point));
}

#[test]
fn k1_positive_both_steps() {
    let (cs, claim) = one_claim();
    let table = table_of(&cs);
    let stmt = statement_from_capture(&table, vec![claim], 1).expect("coverage");

    let proof = prove1(&cs, &stmt, Step1Tamper::Honest).expect("step1 prove");
    verify1(&cs, &stmt, proof).expect("step1 verify at K=1");

    let vkm = key_for(&table);
    let proof = prove2(&cs, &vkm, &stmt, Step2Tamper::Honest, CornerLie::Nothing)
        .expect("step2 prove");
    verify2(&vkm, &stmt, proof).expect("step2 verify at K=1");
}

#[test]
fn empty_batches_and_foreign_provers_are_refused() {
    let (cs, claim) = one_claim();
    let table = table_of(&cs);
    let vkm = key_for(&table);
    let empty = DischargeStatement::new(&table, vec![]).expect("statement");
    let err = discharge_verify_step2(&vkm, &empty, &vec![], QUERIES, params_for(&table.dims));
    assert!(matches!(err, Err(VerifyError::Precondition(DischargeError::EmptyBatch))));
    let stmt = DischargeStatement::new(&table, vec![claim]).expect("statement");
    let err = prove2(&prepared(1), &vkm, &stmt, Step2Tamper::Honest, CornerLie::Nothing);
    assert!(matches!(err, Err(DischargeError::ShapeNotRegenerated)));
}

#[test]
fn metadata_is_checked_field_by_field() {
    let table = table_of(&prepared(0));
    let stmt = DischargeStatement::new(&table, vec![captured(&table, 9)]).expect("statement");
    let check = |change: &dyn Fn(&mut DischargeVkm)| {
        let mut vkm = key_for(&table);
        change(&mut vkm);
        let h_ops = h_ops_for(&table.dims, &stmt);
        match discharge_verify_step2(&vkm, &stmt, &h_ops, QUERIES, params_for(&table.dims)) {
            Err(VerifyError::Precondition(e)) => e,
            _ => panic!("the metadata must be refused"),
        }
    };
    assert_eq!(check(&|v| v.layout_version += 1), DischargeError::LayoutVersion);
    assert_eq!(check(&|v| v.row_order_version += 1), DischargeError::RowOrderVersion);
    assert_eq!(check(&|v| v.hash_suite_id += 1), DischargeError::HashSuite);
    assert_eq!(check(&|v| v.log_inv_rate += 1), DischargeError::LogInvRate);
    assert_eq!(check(&|v| v.lane_andonly = false), DischargeError::NotAndOnlyLane);
    assert_eq!(check(&|v| v.tag_bits.1 += 1), DischargeError::TagBits);
    assert_eq!(check(&|v| v.n_test_queries -= 1), DischargeError::TestQueries);
    let e = check(&|v| v.fri_batch.fold_arities.push(1));
    let (derived, pinned) = (vec![4, 3, 2], vec![4, 3, 2, 1]);
    assert_eq!(e, DischargeError::FoldArities { derived, pinned });
    assert_eq!(
        e.message(),
        "VKM fold_arities mismatch: derived [4, 3, 2] vs pinned [4, 3, 2, 1]"
    );
}

#[test]
fn incoherent_dimensions_are_named() {
    let dims = table_of(&prepared(0)).dims;
    let check = |change: &dyn Fn(&mut ShapeDims)| {
        let mut d = dims;
        change(&mut d);
        check_dims_coherence(&d).expect_err("incoherent")
    };
    assert!(check_dims_coherence(&dims).is_ok());
    assert_eq!(check(&|d| d.n_y = 0), DischargeError::WordAddressEmpty);
    assert_eq!(check(&|d| d.lp = 64), DischargeError::PublicLogOutOfRange);
    assert_eq!(check(&|d| d.n_a = 63), DischargeError::AddressWidthExceeded);
    assert_eq!(check(&|d| d.n_pad *= 2), DischargeError::PaddedCountIncoherent);
    assert_eq!(check(&|d| d.n_t += 1), DischargeError::RowVariablesIncoherent);
    assert_eq!(check(&|d| d.parity = !d.parity), DischargeError::ParityIncoherent);
    assert_eq!(check(&|d| d.n_a += 1), DischargeError::AddressWidthIncoherent);
    assert_eq!(check(&|d| d.n_d += 1), DischargeError::TableVariablesIncoherent);
    assert_eq!(check(&|d| d.arity += 1), DischargeError::ArityIncoherent);
    assert_eq!(check(&|d| d.n_pub *= 2), DischargeError::PublicLengthIncoherent);
    assert_eq!(check(&|d| d.combined_len = d.n_pub - 1), DischargeError::CombinedLengthIncoherent);
    assert_eq!(check(&|d| d.combined_len = 1000), DischargeError::HiddenSegmentTooLong);
}

#[test]
fn modes_dispatch_on_the_key() {
    let (cs, claim) = one_claim();
    let table = table_of(&cs);
    let vkm = key_for(&table);
    let stmt = DischargeStatement::new(&table, vec![claim]).expect("statement");
    let h_ops = h_ops_for(&table.dims, &stmt);
    let encoding = encoding_of(&cs);
    let native = VerifierKey::Native(&cs, &encoding);
    assert_eq!(native.mode(), DischargeMode::Step1Native);
    assert!(matches!(
        discharge_verify_any(native, &stmt, &h_ops),
        Ok(VerifierStart::Native { .. })
    ));
    let committed = VerifierKey::Committed(&vkm, QUERIES, params_for(&table.dims));
    assert_eq!(committed.mode(), DischargeMode::Step2Committed);
    assert!(matches!(
        discharge_verify_any(committed, &stmt, &h_ops),
        Ok(VerifierStart::Committed { .. })
    ));
}

// ---------------------------------------------------------------------------------------------
// The native mode.
// ---------------------------------------------------------------------------------------------

#[test]
fn md_block3_lie_caught_only_by_native_final_check() {
    let cs = prepared(0);
    let table = table_of(&cs);
    let claims: Vec<Claim> = (0..K as u64).map(|i| captured(&table, 5000 + i)).collect();
    let stmt = DischargeStatement::new(&table, claims).expect("stmt");

    let proof = prove1(&cs, &stmt, Step1Tamper::Honest).expect("honest prove");
    verify1(&cs, &stmt, proof).expect("control must verify");

    let proof = prove1(&cs, &stmt, Step1Tamper::MdBlock3)
        .expect("tampered prover still produces a transcript");
    let err = verify1(&cs, &stmt, proof).expect_err("M_D (1,1)-block lie MUST reject");
    assert!(
        matches!(err, VerifyError::NativeFinalCheck),
        "the lie must be caught specifically by the native final check, got: {err:?}"
    );
}

fn capture_claims(variant: u8) -> (ConstraintSystem, Vec<Claim>) {
    let cs = prepared(variant);
    let table = table_of(&cs);
    let claims = (0..K as u64).map(|i| captured(&table, 4000 + i)).collect();
    (cs, claims)
}

#[test]
fn crux_cross_validate_segmented_matches_real_capture() {
    let (cs, claims) = capture_claims(0);
    let table = table_of(&cs);
    assert_eq!(claims.len(), K);
    assert_ne!(claims[0].point, claims[1].point, "distinct claims");
    for (i, c) in claims.iter().enumerate() {
        let parsed = parse_claim(&table.dims, c).expect("parse");
        assert_eq!(parsed.r_y.len(), table.dims.n_y - 1, "r_y length = lw");
        let h_ops = h_ops_of(&table.dims, &c.point);
        cross_validate_claim(&table, c, h_ops)
            .unwrap_or_else(|e| panic!("CROSS-VALIDATE FAILED for claim {i}: {}", e.message()));
        assert_eq!(native_monster_eval(&cs, &parsed, &h_ops), c.value);
    }
}

#[test]
fn crux_r_segment_is_load_bearing() {
    let (cs, claims) = capture_claims(0);
    let table = table_of(&cs);
    let mut corrupted = claims[0].clone();
    let last = corrupted.point.len() - 1; // r_segment is the final coordinate
    corrupted.point[last] = corrupted.point[last] + one();
    let h_ops = h_ops_of(&table.dims, &corrupted.point);
    assert_eq!(
        cross_validate_claim(&table, &corrupted, h_ops),
        Err(DischargeError::CrossValidation),
        "flipping r_segment must break cross-validation (segmentation is load-bearing)"
    );
}

#[test]
fn step1_e2e_on_real_captured_claims() {
    let (cs, claims) = capture_claims(0);
    let table = table_of(&cs);
    assert!(table.dims.parity, "synthetic shape must be odd-parity");
    let stmt = DischargeStatement::new(&table, claims).expect("statement");
    let proof = prove1(&cs, &stmt, Step1Tamper::Honest).expect("step1 prove");
    verify1(&cs, &stmt, proof).expect("step1 verify");
}

#[test]
fn step1_negatives_reject() {
    let (cs, claims) = capture_claims(0);
    let table = table_of(&cs);
    let stmt = DischargeStatement::new(&table, claims.clone()).expect("statement");
    let proof = prove1(&cs, &stmt, Step1Tamper::Honest).expect("prove");

    let (foreign_cs, _) = capture_claims(1);
    assert_ne!(table_of(&foreign_cs).cs_digest, table.cs_digest, "foreign CS must differ");
    let err = message_of(verify1(&foreign_cs, &stmt, proof), "table-swap MUST reject");
    assert!(err.contains("P0.2"), "expected P0.2 cs_digest check: {err}");

    let mut tampered = claims[0].clone();
    tampered.value = tampered.value + one();
    let h_ops = h_ops_of(&table.dims, &tampered.point);
    assert!(
        cross_validate_claim(&table, &tampered, h_ops).is_err(),
        "a tampered monster value MUST fail cross-validation"
    );

    let mut bad_claims = claims;
    bad_claims[0].value = bad_claims[0].value + one();
    let bad_stmt = DischargeStatement::new(&table, bad_claims).expect("stmt");
    let proof = prove1(&cs, &bad_stmt, Step1Tamper::Honest)
        .expect("prover proves whatever sum it is given");
    assert!(
        verify1(&cs, &bad_stmt, proof).is_err(),
        "a tampered Phase-A sum MUST be rejected by the discharge verifier"
    );
}

// ---------------------------------------------------------------------------------------------
// Sized shapes.
// ---------------------------------------------------------------------------------------------

#[test]
fn synth_scaling_step1_and_step2_green() {
    for lc in [8usize, 12] {
        let (cs, table) = sized(lc);
        let dims = table.dims;
        assert!(!dims.parity, "sized shape has even N_pad-N (3*2^L padded to 2^(L+2))");
        let claims = claims_from(&table, 7_000, 3);
        assert_ne!(claims[0].point, claims[1].point, "claims must be distinct");
        assert_ne!(claims[0].value, claims[1].value, "distinct points => distinct values (whp)");
        for (i, c) in claims.iter().enumerate() {
            cross_validate_claim(&table, c, h_ops_of(&dims, &c.point))
                .unwrap_or_else(|e| panic!("claim {i}: {}", e.message()));
        }
        let stmt = DischargeStatement::new(&table, claims).expect("statement");
        let proof = prove1(&cs, &stmt, Step1Tamper::Honest).expect("step1 prove");
        verify1(&cs, &stmt, proof).expect("step1 verify");
        let vkm = key_for(&table);
        let proof = prove2(&cs, &vkm, &stmt, Step2Tamper::Honest, CornerLie::Nothing)
            .expect("step2 prove");
        verify2(&vkm, &stmt, proof).expect("step2 verify");
    }
}

#[test]
fn synth_corrupted_value_rejected() {
    let (cs, table) = sized(8);
    let mut claims = claims_from(&table, 9_000, 3);
    claims[1].value = claims[1].value + B128::new(1); // corrupt one deferred value
    let stmt = DischargeStatement::new(&table, claims).expect("statement");
    if let Ok(proof) = prove1(&cs, &stmt, Step1Tamper::Honest) {
        assert!(verify1(&cs, &stmt, proof).is_err(), "corrupted claim value MUST be rejected");
    }
}

#[test]
fn sized_tables_have_three_terms_per_constraint() {
    let (cs, table) = prepared_synth_table(5, 6, 1, b"abc").expect("sized");
    assert_eq!(cs.and_constraints.len(), 32);
    assert_eq!(table.terms.len(), 96);
    assert_eq!(table.dims.n_pad, 128);
    assert_eq!(table.cs_digest, hash(b"abc"));
    // Variant 1, constraint 1: word 8 + (5 + 1) % 56, kind 5, amount 1 + 4.
    assert_eq!(
        cs.and_constraints[1].a,
        vec![ShiftedValueIndex {
            value_index: ValueIndex(14),
            shift_variant: ShiftVariant::Srl32,
            amount: 5,
        }]
    );
}

#[test]
fn lambda_draws_may_run_out() {
    let table = table_of(&prepared(0));
    let point = Draws::new(3).elems(table.dims.arity);
    let h_ops = [one(); 8];
    let err =
        synth_claim(&table.dims, &table, point.clone(), &vec![zero(), one()], h_ops).unwrap_err();
    assert_eq!(err, DischargeError::DrawsExhausted);
    let two = B128::new(2);
    let claim =
        synth_claim(&table.dims, &table, point, &vec![zero(), one(), two], h_ops).expect("claim");
    assert_eq!(claim.point[1], two);
}

// ---------------------------------------------------------------------------------------------
// Another layout, with public operands.
// ---------------------------------------------------------------------------------------------

fn fresh_cs() -> ConstraintSystem {
    let layout = ValueVecLayout {
        n_const: 2,
        n_inout: 2,
        n_witness: 12,
        n_internal: 0,
        offset_inout: 2,
        offset_witness: 4,
        n_hidden_words: 12,
        n_scratch: 0,
    };
    let constants = vec![1, 42];
    let specs: [(u32, ShiftVariant, u8, u32, ShiftVariant, u8, u32); 7] = [
        (2, ShiftVariant::Sll, 3, 11, ShiftVariant::Slr, 5, 4),
        (12, ShiftVariant::Sar, 7, 3, ShiftVariant::Rotr, 9, 5),
        (2, ShiftVariant::Rotr, 11, 13, ShiftVariant::Sll, 13, 6),
        (14, ShiftVariant::Slr, 15, 15, ShiftVariant::Sar, 17, 7),
        (11, ShiftVariant::Sll, 19, 12, ShiftVariant::Rotr, 21, 8),
        (3, ShiftVariant::Sar, 23, 13, ShiftVariant::Slr, 25, 9),
        (14, ShiftVariant::Rotr, 27, 15, ShiftVariant::Sll, 29, 10),
    ];
    let and_constraints = specs
        .iter()
        .map(|&(ai, av, a_amount, bi, bv, b_amount, ci)| AndConstraint {
            a: vec![ShiftedValueIndex {
                value_index: ValueIndex(ai),
                shift_variant: av,
                amount: a_amount,
            }],
            b: vec![ShiftedValueIndex {
                value_index: ValueIndex(bi),
                shift_variant: bv,
                amount: b_amount,
            }],
            c: vec![ShiftedValueIndex::plain(ValueIndex(ci))],
        })
        .collect();
    let mut cs = ConstraintSystem::new(constants, layout, and_constraints, Vec::new(), Vec::new());
    cs.pad_and_constraints();
    cs
}

/// Weights with the public segment scaled by `r_segment` in place of `1 + r_segment`.
fn wrong_public_tensor(dims: &ShapeDims, r_y: &[B128], r_segment: B128) -> Vec<B128> {
    let lp = dims.lp;
    let wrong_scale = r_segment * eq_ind_zero(&r_y[lp..]);
    let public_tensor = scaled_eq_ind_partial_eval_scalars(&r_y[..lp], wrong_scale);
    let hidden_tensor = scaled_eq_ind_partial_eval_scalars(r_y, r_segment);
    let mut out = Vec::with_capacity(dims.combined_len);
    out.extend_from_slice(&public_tensor);
    out.extend_from_slice(&hidden_tensor[..dims.combined_len - dims.n_pub]);
    out
}

#[test]
fn fresh_cs_cross_validates_against_real_monster() {
    let cs = fresh_cs();
    let table = table_of(&cs);
    let d = &table.dims;
    assert_eq!(d.lp, 2, "distinct public-log");
    assert_eq!(d.n_pub, 4, "distinct public size");
    assert_eq!(d.n_y - 1, 4, "distinct lw");
    assert_eq!(d.combined_len, 16, "distinct combined_len");
    let n_pub = d.n_pub as u32;
    let n_public_terms = table.terms.iter().filter(|t| t.y < n_pub).count();
    let n_hidden_terms = table.terms.iter().filter(|t| t.y >= n_pub).count();
    assert!(n_public_terms >= 1, "need >=1 public-referencing term (got {n_public_terms})");
    assert!(n_hidden_terms >= 1, "need >=1 hidden-referencing term (got {n_hidden_terms})");

    for seed in [7000u64, 7001] {
        let claim = captured(&table, seed);
        let parsed = parse_claim(d, &claim).expect("parse");
        assert_eq!(parsed.r_y.len(), d.n_y - 1);
        let h_ops = h_ops_of(d, &claim.point);
        cross_validate_claim(&table, &claim, h_ops)
            .unwrap_or_else(|e| panic!("[fresh] cross-validate FAILED: {}", e.message()));
        assert_eq!(
            native_monster_eval(&cs, &parsed, &h_ops),
            claim.value,
            "native_monster_eval must equal the captured monster value"
        );
        let mut tr = ClaimTransparents::new(d, &claim, h_ops).expect("transparents");
        assert_eq!(tr.y_tensor, segmented_y_tensor(d, &parsed.r_y, parsed.r_segment));
        tr.y_tensor = wrong_public_tensor(d, &parsed.r_y, parsed.r_segment);
        let wrong_sum = native_term_sum(&table, &tr);
        assert_ne!(
            wrong_sum, claim.value,
            "WRONG public weighting matched the monster — public sub-tensor not discriminated"
        );
    }
}

#[test]
fn fresh_cs_step1_discharge_and_negatives() {
    let cs = fresh_cs();
    let table = table_of(&cs);
    assert!(table.dims.parity, "fresh shape is odd-parity (w_d correction load-bearing)");
    let claims: Vec<Claim> =
        [8000u64, 8001, 8002].iter().map(|seed| captured(&table, *seed)).collect();

    let stmt = DischargeStatement::new(&table, claims.clone()).expect("stmt");
    let proof = prove1(&cs, &stmt, Step1Tamper::Honest).expect("prove");
    verify1(&cs, &stmt, proof).expect("verify");

    // head(3) | r_x(3) | r_j(6) | r_s(6) | r_y(4)=[18..22] | r_segment[22].
    let mut bad_point = claims[0].clone();
    bad_point.point[20] = bad_point.point[20] + one();
    let h_ops = h_ops_of(&table.dims, &bad_point.point);
    assert!(
        cross_validate_claim(&table, &bad_point, h_ops).is_err(),
        "a tampered claim-point coordinate MUST fail cross-validate"
    );

    let mut bad_claims = claims;
    bad_claims[1].value = bad_claims[1].value + one();
    let bad_stmt = DischargeStatement::new(&table, bad_claims).expect("stmt");
    let proof = prove1(&cs, &bad_stmt, Step1Tamper::Honest)
        .expect("prover proves the given (wrong) sum");
    assert!(
        verify1(&cs, &bad_stmt, proof).is_err(),
        "a tampered monster value MUST be rejected by the STEP-1 discharge verifier"
    );
}

#[test]
fn cube_addresses_are_compacted_weights() {
    let table = table_of(&fresh_cs());
    let d = &table.dims;
    let mut draws = Draws::new(12);
    let (r_y, r_seg) = (draws.elems(d.n_y - 1), draws.elem());
    let weights = segmented_y_tensor(d, &r_y, r_seg);
    let mut point = r_y.clone();
    point.push(r_seg);
    let cube = eq_ind_partial_eval_scalars(&point);
    for y in 0..d.combined_len {
        assert_eq!(weights[y], cube[cube_y(d, y as u32) as usize], "word {y}");
    }
    assert_eq!(cube_y(d, 3), 3);
    assert_eq!(cube_y(d, 4), 16);
}

// ---------------------------------------------------------------------------------------------
// Builders and sub-provers.
// ---------------------------------------------------------------------------------------------

#[test]
fn test_packed_builders_match_scalar() {
    let table = table_of(&prepared(0));
    let dims = &table.dims;
    let mut rng = Draws::new(11);
    let rho = rng.elems(dims.n_t);
    let hist = build_histograms(&table, &rho);
    let m_d_scalar = assemble_m_d(dims, &hist);
    let m_d_packed = assemble_m_d_packed(dims, &hist);
    for i in 0..1usize << dims.n_d {
        assert_eq!(m_d_scalar[i], m_d_packed[i], "m_d slot {i}");
    }

    let m_vk_scalar = build_m_vk(&table);
    let m_vk_packed = build_m_vk_packed(&table);
    for i in 0..1usize << (dims.n_d + 2) {
        assert_eq!(m_vk_scalar[i], m_vk_packed[i], "m_vk slot {i}");
    }

    let tau = B128::new(1u128 << 90) + rng.elem();
    let eq_rho = eq_ind_partial_eval_scalars(&rho);
    let leaf = build_phase_c_leaf_halves(&table, tau, &eq_rho, &m_d_packed).expect("leaf");
    let n_l = dims.n_d;
    let block = 1usize << n_l;
    for w in 0..block << 2 {
        let blk = w >> n_l;
        let t = w & (block - 1);
        let (num_val, den_val) = if w < 2 * block {
            (leaf.num_lo[w], leaf.den_lo[w])
        } else {
            (leaf.num_hi[w - 2 * block], leaf.den_hi[w - 2 * block])
        };
        let num_expect = match blk {
            0..=2 => {
                if t < eq_rho.len() {
                    eq_rho[t]
                } else {
                    zero()
                }
            }
            _ => m_d_scalar[t],
        };
        assert_eq!(num_val, num_expect, "num slot {w}");
        let den_expect = match blk {
            0..=2 => {
                if t < table.terms.len() {
                    let term = &table.terms[t];
                    let addr = [term.x as u64, cube_y(dims, term.y) as u64, term.u as u64][blk];
                    tau + vk_entry(blk, addr, dims.n_a)
                } else {
                    tau + tags(dims.n_a)[blk]
                }
            }
            _ => tau + B128::new(t as u128),
        };
        assert_eq!(den_val, den_expect, "den slot {w}");
    }

    let pi_lo = rng.elems(n_l);
    let eq_pi = eq_ind_partial_eval_scalars(&pi_lo);
    let scalar_corners = {
        let kappa = tags(dims.n_a);
        let mut v = [zero(); 3];
        let mut sum_real = zero();
        for (t, term) in table.terms.iter().enumerate() {
            let e = eq_pi[t];
            v[0] = v[0] + e * vk_entry(0, term.x as u64, dims.n_a);
            v[1] = v[1] + e * vk_entry(1, cube_y(dims, term.y) as u64, dims.n_a);
            v[2] = v[2] + e * vk_entry(2, term.u as u64, dims.n_a);
            sum_real = sum_real + e;
        }
        let pad_mass = one() + sum_real;
        v[1] = v[1] + kappa[1] * pad_mass;
        v[2] = v[2] + kappa[2] * pad_mass;
        v
    };
    assert_eq!(vk_corner_values_packed(&table, &eq_pi), scalar_corners);

    let x_tensor = eq_ind_partial_eval_scalars(&rng.elems(dims.n_x));
    let col = gather_column(&table.terms, &x_tensor, dims.n_t, |t| t.x as usize);
    for t in 0..1usize << dims.n_t {
        let expect = match table.terms.get(t) {
            Some(term) => x_tensor[term.x as usize],
            None => x_tensor[0],
        };
        assert_eq!(col[t], expect, "gather slot {t}");
    }
}

#[test]
fn test_cubic_product_sumcheck_roundtrip() {
    let n_vars = 9;
    let mut rng = Draws::new(7);
    let (a, b, g) =
        (rng.elems(1 << n_vars), rng.elems(1 << n_vars), rng.elems(1 << n_vars));
    let expected_sum = total((0..1usize << n_vars).map(|i| a[i] * b[i] * g[i]));
    let prover =
        CubicProductSumcheckProver::new(a.clone(), b.clone(), g.clone(), expected_sum);
    assert_eq!(prover.round_claim(), vec![expected_sum]);
    let mut pt = Transcript::fresh();
    let (rho, _) = prove_rows(vec![prover], &mut pt);

    let mut vt = Transcript::replay(pt.proof.clone());
    let request = BatchSumcheck { n_vars, degree: 3, sums: vec![expected_sum] };
    let out = verify_batch(&request, &mut vt).expect("rounds");
    let evals = vt.recv(3).expect("evals");
    assert_eq!(evals[0] * evals[1] * evals[2], out.eval, "finish evals vs reduced eval");
    let mut point = out.challenges;
    point.reverse();
    assert_eq!(evaluate(&a, &point), evals[0]);
    assert_eq!(evaluate(&b, &point), evals[1]);
    assert_eq!(evaluate(&g, &point), evals[2]);
    assert_eq!(rho, point);

    // The round polynomials are those of the plain product.
    let mut plain = Transcript::fresh();
    let (point2, finals) = prove_products(vec![vec![a, b, g]], &mut plain);
    plain.send(&finals[0]);
    assert_eq!(point2, point);
    assert_eq!(plain.proof.msgs, pt.proof.msgs, "round coeffs must be identical");
}

#[test]
fn test_fast_fracadd_matches_upstream() {
    for k in [3usize, 7, 12] {
        let mut rng = Draws::new(31 + k as u64);
        let n = 1usize << k;
        let num_vals = rng.elems(n);
        let den_vals: Vec<B128> = (0..n).map(|_| rng.elem() + one()).collect();
        // The fraction sum, added up one by one.
        let (mut num, mut den) = (zero(), one());
        for i in 0..n {
            num = num * den_vals[i] + den * num_vals[i];
            den = den * den_vals[i];
        }
        let half = n / 2;
        let leaf = FracLayer {
            num_lo: num_vals[..half].to_vec(),
            num_hi: num_vals[half..].to_vec(),
            den_lo: den_vals[..half].to_vec(),
            den_hi: den_vals[half..].to_vec(),
        };
        assert_eq!(leaf.log_len(), k);
        let (prover, (num_root, den_root)) = FastFracAddProver::new(leaf);
        assert_eq!(num_root, num, "root numerator");
        assert_eq!(den_root, den, "root denominator");
        let root = FracClaim { num_eval: num_root, den_eval: den_root, point: vec![] };
        let mut pt = Transcript::fresh();
        let out = prove_fractions(prover, root, &mut pt);
        assert_eq!(out.num_eval, evaluate(&num_vals, &out.point));
        assert_eq!(out.den_eval, evaluate(&den_vals, &out.point));

        let mut vt = Transcript::replay(pt.proof);
        let leaf = verify_fractions(k, num_root, den_root, &mut vt)
            .expect("the verifier must accept the transcript");
        assert_eq!(leaf.point, out.point);
        assert_eq!(leaf.num_eval, out.num_eval);
        assert_eq!(leaf.den_eval, out.den_eval);
        assert!(vt.used_up());
    }
}

#[test]
fn recorders_pick_the_claim_by_its_arity() {
    let channel = |arities: &[usize]| {
        let mut c = RecorderChannel::new();
        for a in arities {
            c.record(vec![zero(); *a], B128::new(*a as u128));
        }
        LeafOutcome::Verified(c)
    };
    let claim = verify_and_capture(channel(&[9, 20]), 20).expect("capture");
    assert_eq!(claim.point.len(), 20);
    assert_eq!(claim.value, B128::new(20));
    let err = verify_and_capture(channel(&[9]), 20).unwrap_err();
    assert_eq!(err, DischargeError::RecordCount { arities: vec![9] });
    assert_eq!(
        err.message(),
        "expected exactly two compute_public_value records per leaf verification \
         (monster + public-words), got 1 (arities [9])"
    );
    let err = verify_and_capture(channel(&[]), 20).unwrap_err();
    assert!(err.message().ends_with("got 0 (arities [])"));
    let err = verify_and_capture(channel(&[9, 8]), 20).unwrap_err();
    assert_eq!(err, DischargeError::MonsterRecords { expected_arity: 20, arities: vec![9, 8] });
    assert_eq!(
        err.message(),
        "expected exactly one record with the monster arity 20 among the two sites \
         (arities [9, 8])"
    );
    let err = verify_and_capture(channel(&[20, 20]), 20).unwrap_err();
    assert_eq!(err, DischargeError::MonsterRecords { expected_arity: 20, arities: vec![20, 20] });
    let why = || "why".to_string();
    let failed = |outcome| verify_and_capture(outcome, 20).unwrap_err().message();
    assert_eq!(failed(LeafOutcome::VerifyFailed { reason: why() }), "leaf verify failed: why");
    assert_eq!(
        failed(LeafOutcome::FinishFailed { reason: why() }),
        "basefold channel finish: why"
    );
    assert_eq!(failed(LeafOutcome::FinalizeFailed { reason: why() }), "transcript finalize: why");
}

#[test]
fn openings_are_checked() {
    let params = params_for(&table_of(&prepared(0)).dims);
    let claim = |vars: usize, arity: usize| OpenClaim {
        message: vec![zero(); 1 << vars],
        point: vec![zero(); arity],
        eval: zero(),
    };
    let refused = |params: &FriParams, c0, c1, n, codewords| {
        prove_merged_openings(params, c0, c1, n, codewords).err().expect("refused")
    };
    let mut one_oracle = params.clone();
    one_oracle.input_oracles.pop();
    assert_eq!(
        refused(&one_oracle, claim(3, 3), claim(1, 1), (3, 1), 3),
        DischargeError::OracleCount
    );
    assert_eq!(
        refused(&params, claim(1, 1), claim(3, 3), (1, 3), 3),
        DischargeError::CodewordCount
    );
    assert_eq!(
        refused(&params, claim(1, 1), claim(3, 3), (1, 3), 2),
        DischargeError::OracleOrder
    );
    assert_eq!(
        refused(&params, claim(3, 2), claim(1, 1), (3, 1), 2),
        DischargeError::OpeningArity { claim: 0 }
    );
    assert_eq!(
        refused(&params, claim(3, 3), claim(1, 2), (3, 1), 2),
        DischargeError::OpeningArity { claim: 1 }
    );
    let (state, _, _) =
        prove_merged_openings(&params, claim(3, 3), claim(1, 1), (3, 1), 2).ok().unwrap();
    let err = state.reduced(vec![zero(); 2], [zero(); 2]).err().expect("refused");
    assert_eq!(err, DischargeError::ReductionRounds);
    assert_eq!(err.message(), "reduction round count");
}

#[test]
fn intakes_check_before_anything_is_derived() {
    let ctx = ctx();
    let stmt = DischargeStatement::new(&ctx.table, ctx.claims.clone()).expect("statement");
    let h_ops = h_ops_for(&ctx.table.dims, &stmt);
    let params = params_for(&ctx.table.dims);
    let encoding = encoding_of(&ctx.cs);

    let intake = check_key(&ctx.vkm, &stmt, QUERIES).ok().expect("admitted");
    let (_, absorb, _) = intake.verify(&h_ops, params.clone()).ok().expect("started");
    let whole = discharge_verify_step2(&ctx.vkm, &stmt, &h_ops, QUERIES, params.clone());
    assert_eq!(absorb, whole.ok().expect("started").1);
    let intake = check_native(&ctx.cs, &encoding, &stmt).ok().expect("admitted");
    let (_, absorb, _) = intake.verify(&h_ops);
    let whole = discharge_verify(&ctx.cs, &encoding, &stmt, &h_ops);
    assert_eq!(absorb, whole.ok().expect("started").1);
    let intake = check_native(&ctx.cs, &encoding, &stmt).ok().expect("admitted");
    let (_, absorb, _) = intake.prove(&h_ops, Step1Tamper::Honest);
    let whole = discharge_prove(&ctx.cs, &encoding, &stmt, &h_ops);
    assert_eq!(absorb, whole.ok().expect("started").1);
    let table = prover_table(&ctx.cs, &encoding, &ctx.vkm).expect("table");
    let intake = check_table(table, &ctx.vkm, &stmt, QUERIES).ok().expect("admitted");
    let started = intake.prove(&h_ops, params.clone(), Step2Tamper::Honest);
    let whole =
        discharge_prove_step2(&ctx.cs, &encoding, &ctx.vkm, &stmt, &h_ops, QUERIES, params);
    assert_eq!(started.ok().expect("started").1, whole.ok().expect("started").1);

    let mut bad = DischargeStatement::new(&ctx.table, ctx.claims.clone()).expect("statement");
    bad.claims[1].point[1] = one();
    let lambda = || VerifyError::Precondition(DischargeError::LambdaAndDegenerate);
    assert_eq!(check_key(&ctx.vkm, &bad, QUERIES).err(), Some(lambda()));
    assert_eq!(
        check_native(&ctx.cs, &encoding, &bad).err(),
        Some(DischargeError::LambdaAndDegenerate)
    );
    let mut weak = ctx.vkm.clone();
    weak.n_test_queries -= 1;
    assert_eq!(
        check_key(&weak, &stmt, QUERIES).err(),
        Some(VerifyError::Precondition(DischargeError::TestQueries))
    );
    // A faulty claim comes before the metadata, and another system before both.
    assert_eq!(check_key(&weak, &bad, QUERIES).err(), Some(lambda()));
    assert_eq!(
        check_table(table_of(&ctx.cs), &weak, &bad, QUERIES).err(),
        Some(DischargeError::LambdaAndDegenerate)
    );
    let foreign = prepared(1);
    assert_eq!(
        prove2(&foreign, &weak, &bad, Step2Tamper::Honest, CornerLie::Nothing).err(),
        Some(DischargeError::ShapeNotRegenerated)
    );
}

#[test]
fn synthetic_witnesses_satisfy_their_systems() {
    for variant in [0u8, 1] {
        let cs = prepared(variant);
        let words = synth_witness(&cs, 1000).expect("witness");
        assert_eq!(words.len(), 32);
        assert_eq!(words[..3], [1, 42, 0xDEADBEEF]);
        assert_eq!(words[4], 1000);
        assert_eq!(words[5], 1000u64.wrapping_mul(0x9e3779b97f4a7c15));
        assert_eq!(words[8], 0xdeadbeef_cafe1234);
        let (va, sa, vb, sb) = shift_meta(variant, 0);
        let a = if va == ShiftVariant::Sll { words[8] << sa } else { words[8].rotate_right(sa.into()) };
        let b = if vb == ShiftVariant::Slr {
            words[9] >> sb
        } else {
            ((words[9] as i64) >> sb) as u64
        };
        assert_eq!(words[16], a & b);
    }
    let mut cs = synth_cs(0);
    cs.and_constraints[3].c[0].amount = 1;
    assert_eq!(synth_witness(&cs, 1), Err(DischargeError::WitnessShape { constraint: 3 }));
    // A later constraint overwrites the output of an earlier one.
    let mut cs = synth_cs(0);
    cs.and_constraints[4].c[0].value_index = ValueIndex(16);
    let err = synth_witness(&cs, 1).unwrap_err();
    assert_eq!(err, DischargeError::Unsatisfied { constraint: 0 });
    assert_eq!(err.message(), "synth witness unsatisfied: AND constraint 0 does not hold");
}

#[test]
fn recorded_prover_runs_send_the_same() {
    let ctx = ctx();
    let stmt = DischargeStatement::new(&ctx.table, ctx.claims.clone()).expect("statement");
    let dims = ctx.table.dims;
    let h_ops = h_ops_for(&dims, &stmt);
    let start = || {
        let params = params_for(&dims);
        let encoding = encoding_of(&ctx.cs);
        match discharge_prove_step2(&ctx.cs, &encoding, &ctx.vkm, &stmt, &h_ops, QUERIES, params) {
            Ok((rows, _, _)) => rows,
            Err(e) => panic!("{}", e.message()),
        }
    };
    let mut draws = Draws::new(77);
    let replies = ProverReplies {
        rho: draws.elems(dims.n_t),
        finish: draws.elems(3 * K),
        tau: draws.elem() + B128::new(1 << 100),
        pi: draws.elems(dims.n_d + 2),
        phi: draws.elem(),
        challenges: draws.elems(dims.n_d),
        m: draws.elem(),
        rho_c: draws.elems(2),
    };
    let msgs = match prove_run(start(), replies.clone()) {
        Ok(msgs) => msgs,
        Err(e) => panic!("{}", e.message()),
    };

    // Step by step.
    let (state, d_vals) = start().proved(replies.rho.clone(), replies.finish.clone()).ok().unwrap();
    assert_eq!(msgs.d_vals, d_vals);
    let (state, den_root, _, _) = state.sampled(replies.tau).ok().unwrap();
    assert_eq!(msgs.den_root, den_root);
    let (state, corners) = state.walked(replies.pi.clone()).ok().unwrap();
    assert_eq!(msgs.corners, corners);
    let (state, batch) = state.sampled(replies.phi);
    assert_eq!((msgs.batch.a, msgs.batch.b, msgs.batch.sum), (batch.a, batch.b, batch.sum));
    let state = state.proved(replies.challenges.clone(), replies.m).ok().unwrap();
    let (open_vk, open_d) = state.sampled(replies.rho_c.clone());
    assert_eq!((msgs.open_vk.point, msgs.open_vk.eval), (open_vk.point, open_vk.eval));
    assert_eq!((msgs.open_d.message, msgs.open_d.eval), (open_d.message, replies.m));
    assert_eq!(msgs.open_vk.message, build_m_vk(&ctx.table));

    // Each length is checked, in order.
    let cases: [(fn(&mut ProverReplies), DischargeError); 4] = [
        (|r| r.rho.push(zero()), DischargeError::RowRounds),
        (|r| r.tau = one(), DischargeError::TauInPoleRange),
        (|r| r.pi.push(zero()), DischargeError::LeafArity),
        (|r| r.challenges.push(zero()), DischargeError::BatchRounds),
    ];
    for (spoil, expected) in cases {
        let mut spoiled = replies.clone();
        spoil(&mut spoiled);
        assert_eq!(prove_run(start(), spoiled).err(), Some(expected));
    }
}
