//! Circuits: wires, the gates that define them, and the equalities that must hold.

use crate::field::element::B128;
use crate::field::inverse::inv;
use crate::vision::hints::{affine, GhashInvertHint, VisionBInvHint};
use crate::vision::words::{ghash_to_words, high, join, low, words_to_ghash};
use crate::word::{sar64, shifted};
use crate::cs::ShiftVariant;
use vstd::prelude::*;

verus! {

/// A wire: the position of its gate.
#[derive(Debug, Clone, Copy, PartialEq, Eq, Structural)]
pub struct Wire {
    pub index: usize,
}

/// A field element carried by two wires.
#[derive(Debug, Clone, Copy, PartialEq, Eq, Structural)]
pub struct GhashWire {
    pub lo: Wire,
    pub hi: Wire,
}

/// Which map a hint computes.
#[derive(Debug, Clone, Copy, PartialEq, Eq, Structural)]
pub enum HintKind {
    /// The inverse, or zero for zero.
    Invert,
    /// The inverse affine map of the S-box.
    BInv,
}

/// What defines a wire.
#[derive(Debug)]
pub enum Gate {
    /// Anything.
    Witness,
    /// A constant.
    Constant { word: u64 },
    /// The exclusive or of some wires.
    Xor { terms: Vec<Wire> },
    /// A wire shifted up.
    Shl { x: Wire, by: u8 },
    /// A wire shifted down.
    Shr { x: Wire, by: u8 },
    /// A wire shifted down, filled with its top bit.
    Sar { x: Wire, by: u8 },
    /// The conjunction of two wires: one AND constraint.
    And { x: Wire, y: Wire },
    /// The low word of a field product: one BMUL constraint, with the high word.
    BmulLo { a: GhashWire, b: GhashWire },
    /// The high word of a field product.
    BmulHi { a: GhashWire, b: GhashWire },
    /// Anything, with the low word of a hint in mind.
    HintLo { kind: HintKind, a: GhashWire },
    /// Anything, with the high word of a hint in mind.
    HintHi { kind: HintKind, a: GhashWire },
}

/// An equality of two wires: one AND constraint.
#[derive(Debug)]
pub struct Equality {
    pub name: String,
    pub x: Wire,
    pub y: Wire,
}

/// The field element that an assignment gives to a pair of wires.
pub open spec fn value(v: Seq<u64>, w: GhashWire) -> B128 {
    join(v[w.lo.index as int], v[w.hi.index as int])
}

/// The exclusive or of the first `k` of some wires.
pub open spec fn xor_of(v: Seq<u64>, terms: Seq<Wire>, k: nat) -> u64
    decreases k,
{
    if k == 0 {
        0
    } else {
        xor_of(v, terms, (k - 1) as nat) ^ v[terms[k - 1].index as int]
    }
}

/// A pair of wires lies among the first `n`.
pub open spec fn pair_below(w: GhashWire, n: nat) -> bool {
    w.lo.index < n && w.hi.index < n
}

/// The value of a hint.
pub open spec fn hint_value(kind: HintKind, b_inv: Seq<B128>, a: B128) -> B128 {
    match kind {
        HintKind::Invert => inv(a),
        HintKind::BInv => affine(b_inv, a),
    }
}

impl Gate {
    /// A gate that reads wires below `n` only, and shifts by less than a word.
    pub open spec fn reads_below(self, n: nat) -> bool {
        match self {
            Gate::Witness => true,
            Gate::Constant { .. } => true,
            Gate::Xor { terms } => forall|j: int|
                0 <= j < terms@.len() ==> (#[trigger] terms@[j]).index < n,
            Gate::Shl { x, by } => x.index < n && by < 64,
            Gate::Shr { x, by } => x.index < n && by < 64,
            Gate::Sar { x, by } => x.index < n && by < 64,
            Gate::And { x, y } => x.index < n && y.index < n,
            Gate::BmulLo { a, b } => pair_below(a, n) && pair_below(b, n),
            Gate::BmulHi { a, b } => pair_below(a, n) && pair_below(b, n),
            Gate::HintLo { a, .. } => pair_below(a, n),
            Gate::HintHi { a, .. } => pair_below(a, n),
        }
    }

    /// The word that a gate forces on its wire, if it forces any.
    pub open spec fn word(self, v: Seq<u64>) -> Option<u64> {
        match self {
            Gate::Witness => None,
            Gate::Constant { word } => Some(word),
            Gate::Xor { terms } => Some(xor_of(v, terms@, terms@.len())),
            Gate::Shl { x, by } => Some(v[x.index as int] << (by as u64)),
            Gate::Shr { x, by } => Some(v[x.index as int] >> (by as u64)),
            Gate::Sar { x, by } => Some(sar64(v[x.index as int], by as u64)),
            Gate::And { x, y } => Some(v[x.index as int] & v[y.index as int]),
            Gate::BmulLo { a, b } => Some(low(value(v, a) * value(v, b))),
            Gate::BmulHi { a, b } => Some(high(value(v, a) * value(v, b))),
            Gate::HintLo { .. } => None,
            Gate::HintHi { .. } => None,
        }
    }

    /// The word that a prover puts on the wire: what its definition forces, or the value of the hint.
    pub open spec fn honest_word(self, b_inv: Seq<B128>, v: Seq<u64>) -> Option<u64> {
        match self {
            Gate::HintLo { kind, a } => Some(low(hint_value(kind, b_inv, value(v, a)))),
            Gate::HintHi { kind, a } => Some(high(hint_value(kind, b_inv, value(v, a)))),
            _ => self.word(v),
        }
    }

    /// A gate that is linear over GF(2), so that its wire is no constraint of its own.
    pub open spec fn is_linear(self) -> bool {
        self is Xor || self is Shl || self is Shr || self is Sar
    }
}

/// A word is the one forced, if any is.
pub open spec fn agrees(forced: Option<u64>, w: u64) -> bool {
    forced is None || forced == Some(w)
}

/// The number of field products among some gates.
pub open spec fn count_bmul(gates: Seq<Gate>) -> nat
    decreases gates.len(),
{
    if gates.len() == 0 {
        0
    } else {
        count_bmul(gates.drop_last()) + if gates.last() is BmulLo {
            1nat
        } else {
            0
        }
    }
}

/// The number of conjunctions among some gates.
pub open spec fn count_and(gates: Seq<Gate>) -> nat
    decreases gates.len(),
{
    if gates.len() == 0 {
        0
    } else {
        count_and(gates.drop_last()) + if gates.last() is And {
            1nat
        } else {
            0
        }
    }
}

/// The number of linear wires among some committed wires.
pub open spec fn count_linear(gates: Seq<Gate>, committed: Seq<Wire>) -> nat
    decreases committed.len(),
{
    if committed.len() == 0 {
        0
    } else {
        count_linear(gates, committed.drop_last()) + if gates[committed.last().index as int].is_linear() {
            1nat
        } else {
            0
        }
    }
}

/// A circuit under construction.
#[derive(Debug)]
pub struct CircuitBuilder {
    pub gates: Vec<Gate>,
    pub equalities: Vec<Equality>,
    pub committed: Vec<Wire>,
}

impl CircuitBuilder {
    /// Every gate reads wires defined before it, the equalities and the committed wires exist, and
    /// no wire is committed twice.
    pub open spec fn wf(self) -> bool {
        &&& forall|i: int|
            0 <= i < self.gates@.len() ==> (#[trigger] self.gates@[i]).reads_below(i as nat)
        &&& forall|j: int|
            0 <= j < self.equalities@.len() ==> {
                &&& (#[trigger] self.equalities@[j]).x.index < self.gates@.len()
                &&& self.equalities@[j].y.index < self.gates@.len()
            }
        &&& forall|j: int|
            0 <= j < self.committed@.len() ==> (#[trigger] self.committed@[j]).index
                < self.gates@.len()
        &&& self.committed@.no_duplicates()
    }

    /// The wires exist.
    pub open spec fn has(self, w: GhashWire) -> bool {
        pair_below(w, self.gates@.len())
    }

    /// Every wire has the word that its definition forces.
    pub open spec fn gates_hold(self, v: Seq<u64>) -> bool {
        &&& v.len() >= self.gates@.len()
        &&& forall|i: int|
            0 <= i < self.gates@.len() ==> agrees((#[trigger] self.gates@[i]).word(v), v[i])
    }

    /// Every wire has the word that a prover puts on it.
    pub open spec fn follows(self, b_inv: Seq<B128>, v: Seq<u64>) -> bool {
        &&& v.len() >= self.gates@.len()
        &&& forall|i: int|
            0 <= i < self.gates@.len() ==> agrees(
                (#[trigger] self.gates@[i]).honest_word(b_inv, v),
                v[i],
            )
    }

    /// Equality `j` holds.
    pub open spec fn equality_holds(self, v: Seq<u64>, j: int) -> bool {
        v[self.equalities@[j].x.index as int] == v[self.equalities@[j].y.index as int]
    }

    /// Every equality holds.
    pub open spec fn equalities_hold(self, v: Seq<u64>) -> bool {
        forall|j: int|
            0 <= j < self.equalities@.len() ==> #[trigger] self.equality_holds(v, j)
    }

    /// An assignment satisfies the circuit.
    pub open spec fn satisfied(self, v: Seq<u64>) -> bool {
        self.gates_hold(v) && self.equalities_hold(v)
    }

    /// The number of BMUL constraints.
    pub open spec fn bmuls(self) -> nat {
        count_bmul(self.gates@)
    }

    /// The number of AND constraints: one for each conjunction, for each equality, and for each
    /// committed wire that is linear.
    pub open spec fn ands(self) -> nat {
        count_and(self.gates@) + self.equalities@.len() + count_linear(self.gates@, self.committed@)
    }

    /// The circuit `before` was extended by gates and equalities that cost `bmuls` BMUL and `ands`
    /// AND constraints.
    pub open spec fn grew(self, before: CircuitBuilder, bmuls: nat, ands: nat) -> bool {
        &&& self.wf()
        &&& self.gates@.len() >= before.gates@.len()
        &&& forall|i: int|
            0 <= i < before.gates@.len() ==> #[trigger] self.gates@[i] == before.gates@[i]
        &&& self.equalities@.len() >= before.equalities@.len()
        &&& forall|j: int|
            0 <= j < before.equalities@.len() ==> #[trigger] self.equalities@[j]
                == before.equalities@[j]
        &&& self.committed@ == before.committed@
        &&& self.bmuls() == before.bmuls() + bmuls
        &&& self.ands() == before.ands() + ands
        &&& forall|v: Seq<u64>| #[trigger] self.gates_hold(v) ==> before.gates_hold(v)
        &&& forall|v: Seq<u64>| #[trigger] self.equalities_hold(v) ==> before.equalities_hold(v)
        &&& forall|b_inv: Seq<B128>, v: Seq<u64>| #[trigger]
            self.follows(b_inv, v) ==> before.follows(b_inv, v)
        &&& forall|b_inv: Seq<B128>, v: Seq<u64>| #[trigger]
            self.follows(b_inv, v) ==> self.gates_hold(v)
    }
}

/// Appending a gate counts it.
proof fn lemma_count_push(gates: Seq<Gate>, g: Gate, committed: Seq<Wire>)
    requires
        forall|j: int|
            0 <= j < committed.len() ==> (#[trigger] committed[j]).index < gates.len(),
    ensures
        count_bmul(gates.push(g)) == count_bmul(gates) + if g is BmulLo {
            1nat
        } else {
            0
        },
        count_and(gates.push(g)) == count_and(gates) + if g is And {
            1nat
        } else {
            0
        },
        count_linear(gates.push(g), committed) == count_linear(gates, committed),
    decreases committed.len(),
{
    assert(gates.push(g).drop_last() =~= gates);
    if committed.len() > 0 {
        assert(committed.last() == committed[committed.len() - 1]);
        assert forall|j: int| 0 <= j < committed.drop_last().len() implies (
        #[trigger] committed.drop_last()[j]).index < gates.len() by {
            assert(committed.drop_last()[j] == committed[j]);
        }
        lemma_count_push(gates, g, committed.drop_last());
    }
}

/// The exclusive or of wires below `n` depends on the words below `n` only.
proof fn lemma_xor_local(u: Seq<u64>, v: Seq<u64>, terms: Seq<Wire>, k: nat, n: nat)
    requires
        k <= terms.len(),
        forall|j: int| 0 <= j < terms.len() ==> (#[trigger] terms[j]).index < n,
        forall|i: int| 0 <= i < n ==> u[i] == v[i],
    ensures
        xor_of(u, terms, k) == xor_of(v, terms, k),
    decreases k,
{
    if k > 0 {
        assert(terms[k - 1].index < n);
        lemma_xor_local(u, v, terms, (k - 1) as nat, n);
    }
}

/// A gate that reads wires below `n` depends on the words below `n` only.
proof fn lemma_word_local(g: Gate, b_inv: Seq<B128>, u: Seq<u64>, v: Seq<u64>, n: nat)
    requires
        g.reads_below(n),
        forall|i: int| 0 <= i < n ==> u[i] == v[i],
    ensures
        g.word(u) == g.word(v),
        g.honest_word(b_inv, u) == g.honest_word(b_inv, v),
{
    if g is Xor {
        lemma_xor_local(u, v, g->terms@, g->terms@.len(), n);
    }
}

impl CircuitBuilder {
    /// An empty circuit.
    pub fn new() -> (b: CircuitBuilder)
        ensures
            b.wf(),
            b.gates@.len() == 0,
            b.equalities@.len() == 0,
            b.committed@.len() == 0,
            b.bmuls() == 0,
            b.ands() == 0,
    {
        CircuitBuilder { gates: Vec::new(), equalities: Vec::new(), committed: Vec::new() }
    }

    /// Appends a gate and gives its wire.
    fn push(&mut self, g: Gate) -> (w: Wire)
        requires
            old(self).wf(),
            g.reads_below(old(self).gates@.len()),
        ensures
            final(self).gates@ == old(self).gates@.push(g),
            final(self).equalities@ == old(self).equalities@,
            w.index == old(self).gates@.len(),
            final(self).grew(
                *old(self),
                if g is BmulLo {
                    1
                } else {
                    0
                },
                if g is And {
                    1
                } else {
                    0
                },
            ),
            forall|v: Seq<u64>| #[trigger]
                final(self).gates_hold(v) ==> agrees(g.word(v), v[w.index as int]),
            forall|b_inv: Seq<B128>, v: Seq<u64>| #[trigger]
                final(self).follows(b_inv, v) ==> agrees(
                    g.honest_word(b_inv, v),
                    v[w.index as int],
                ),
    {
        let ghost before = *self;
        let index: usize = self.gates.len();
        self.gates.push(g);
        proof {
            lemma_count_push(before.gates@, g, before.committed@);
            let after = *self;
            assert(after.gates@[index as int] == g);
            assert forall|v: Seq<u64>| #[trigger] after.gates_hold(v) implies before.gates_hold(
                v,
            ) by {
                assert forall|i: int| 0 <= i < before.gates@.len() implies agrees(
                    (#[trigger] before.gates@[i]).word(v),
                    v[i],
                ) by {
                    assert(after.gates@[i] == before.gates@[i]);
                }
            }
            assert forall|v: Seq<u64>| #[trigger]
                after.equalities_hold(v) implies before.equalities_hold(v) by {
                assert forall|j: int| 0 <= j < before.equalities@.len() implies
                    #[trigger] before.equality_holds(v, j) by {
                    assert(after.equality_holds(v, j));
                }
            }
            assert forall|b_inv: Seq<B128>, v: Seq<u64>| #[trigger]
                after.follows(b_inv, v) implies before.follows(b_inv, v) && after.gates_hold(v) by {
                assert forall|i: int| 0 <= i < before.gates@.len() implies agrees(
                    (#[trigger] before.gates@[i]).honest_word(b_inv, v),
                    v[i],
                ) by {
                    assert(after.gates@[i] == before.gates@[i]);
                }
            }
        }
        Wire { index }
    }

    /// A wire that a prover may choose.
    pub fn add_witness(&mut self) -> (w: Wire)
        requires
            old(self).wf(),
        ensures
            final(self).grew(*old(self), 0, 0),
            w.index == old(self).gates@.len(),
            final(self).gates@.len() == old(self).gates@.len() + 1,
            final(self).gates@[w.index as int] is Witness,
            final(self).equalities@ == old(self).equalities@,
    {
        self.push(Gate::Witness)
    }

    /// A wire with a constant word.
    pub fn add_constant(&mut self, word: u64) -> (w: Wire)
        requires
            old(self).wf(),
        ensures
            final(self).grew(*old(self), 0, 0),
            w.index < final(self).gates@.len(),
            final(self).gates@.len() == old(self).gates@.len() + 1,
            final(self).equalities@ == old(self).equalities@,
            forall|v: Seq<u64>| #[trigger]
                final(self).gates_hold(v) ==> v[w.index as int] == word,
    {
        self.push(Gate::Constant { word })
    }

    /// The exclusive or of two wires.
    pub fn bxor(&mut self, x: Wire, y: Wire) -> (w: Wire)
        requires
            old(self).wf(),
            x.index < old(self).gates@.len(),
            y.index < old(self).gates@.len(),
        ensures
            final(self).grew(*old(self), 0, 0),
            w.index < final(self).gates@.len(),
            final(self).equalities@ == old(self).equalities@,
            forall|v: Seq<u64>| #[trigger]
                final(self).gates_hold(v) ==> v[w.index as int] == v[x.index as int]
                    ^ v[y.index as int],
    {
        let mut terms: Vec<Wire> = Vec::new();
        terms.push(x);
        terms.push(y);
        let ghost t = terms@;
        let w = self.push(Gate::Xor { terms });
        proof {
            reveal_with_fuel(xor_of, 3);
            assert forall|v: Seq<u64>| #[trigger] self.gates_hold(v) implies v[w.index as int]
                == v[x.index as int] ^ v[y.index as int] by {
                assert(xor_of(v, t, 2) == (0 ^ v[x.index as int]) ^ v[y.index as int]);
                lemma_zero_xor(v[x.index as int]);
            }
        }
        w
    }

    /// The exclusive or of some wires.
    pub fn bxor_multi(&mut self, terms: Vec<Wire>) -> (w: Wire)
        requires
            old(self).wf(),
            forall|j: int|
                0 <= j < terms@.len() ==> (#[trigger] terms@[j]).index < old(self).gates@.len(),
        ensures
            final(self).grew(*old(self), 0, 0),
            w.index < final(self).gates@.len(),
            final(self).equalities@ == old(self).equalities@,
            forall|v: Seq<u64>| #[trigger]
                final(self).gates_hold(v) ==> v[w.index as int] == xor_of(
                    v,
                    terms@,
                    terms@.len(),
                ),
    {
        self.push(Gate::Xor { terms })
    }

    /// A wire shifted up.
    pub fn shl(&mut self, x: Wire, by: u8) -> (w: Wire)
        requires
            old(self).wf(),
            x.index < old(self).gates@.len(),
            by < 64,
        ensures
            final(self).grew(*old(self), 0, 0),
            w.index < final(self).gates@.len(),
            final(self).equalities@ == old(self).equalities@,
            forall|v: Seq<u64>| #[trigger]
                final(self).gates_hold(v) ==> v[w.index as int] == v[x.index as int] << (by as u64),
    {
        self.push(Gate::Shl { x, by })
    }

    /// A wire shifted down.
    pub fn shr(&mut self, x: Wire, by: u8) -> (w: Wire)
        requires
            old(self).wf(),
            x.index < old(self).gates@.len(),
            by < 64,
        ensures
            final(self).grew(*old(self), 0, 0),
            w.index < final(self).gates@.len(),
            final(self).equalities@ == old(self).equalities@,
            forall|v: Seq<u64>| #[trigger]
                final(self).gates_hold(v) ==> v[w.index as int] == v[x.index as int] >> (by as u64),
    {
        self.push(Gate::Shr { x, by })
    }

    /// A wire shifted down, filled with its top bit.
    pub fn sar(&mut self, x: Wire, by: u8) -> (w: Wire)
        requires
            old(self).wf(),
            x.index < old(self).gates@.len(),
            by < 64,
        ensures
            final(self).grew(*old(self), 0, 0),
            w.index < final(self).gates@.len(),
            final(self).equalities@ == old(self).equalities@,
            forall|v: Seq<u64>| #[trigger]
                final(self).gates_hold(v) ==> v[w.index as int] == sar64(
                    v[x.index as int],
                    by as u64,
                ),
    {
        self.push(Gate::Sar { x, by })
    }

    /// The conjunction of two wires: one AND constraint.
    pub fn band(&mut self, x: Wire, y: Wire) -> (w: Wire)
        requires
            old(self).wf(),
            x.index < old(self).gates@.len(),
            y.index < old(self).gates@.len(),
        ensures
            final(self).grew(*old(self), 0, 1),
            w.index < final(self).gates@.len(),
            final(self).equalities@ == old(self).equalities@,
            forall|v: Seq<u64>| #[trigger]
                final(self).gates_hold(v) ==> v[w.index as int] == v[x.index as int]
                    & v[y.index as int],
    {
        self.push(Gate::And { x, y })
    }

    /// The field product of two elements: one BMUL constraint.
    pub fn bmul(&mut self, a: GhashWire, b: GhashWire) -> (w: GhashWire)
        requires
            old(self).wf(),
            old(self).has(a),
            old(self).has(b),
        ensures
            final(self).grew(*old(self), 1, 0),
            final(self).has(w),
            final(self).equalities@ == old(self).equalities@,
            forall|v: Seq<u64>| #[trigger]
                final(self).gates_hold(v) ==> value(v, w) == value(v, a) * value(v, b),
    {
        let lo = self.push(Gate::BmulLo { a, b });
        let hi = self.push(Gate::BmulHi { a, b });
        let w = GhashWire { lo, hi };
        proof {
            assert forall|v: Seq<u64>| #[trigger] self.gates_hold(v) implies value(v, w) == value(
                v,
                a,
            ) * value(v, b) by {
                crate::vision::words::law_words(value(v, a) * value(v, b), 0, 0);
            }
        }
        w
    }

    /// A pair of wires that a prover may choose, with a hint in mind.
    pub fn call_hint(&mut self, kind: HintKind, a: GhashWire) -> (w: GhashWire)
        requires
            old(self).wf(),
            old(self).has(a),
        ensures
            final(self).grew(*old(self), 0, 0),
            final(self).has(w),
            final(self).equalities@ == old(self).equalities@,
            forall|b_inv: Seq<B128>, v: Seq<u64>| #[trigger]
                final(self).follows(b_inv, v) ==> value(v, w) == hint_value(
                    kind,
                    b_inv,
                    value(v, a),
                ),
    {
        let lo = self.push(Gate::HintLo { kind, a });
        let hi = self.push(Gate::HintHi { kind, a });
        let w = GhashWire { lo, hi };
        proof {
            assert forall|b_inv: Seq<B128>, v: Seq<u64>| #[trigger]
                self.follows(b_inv, v) implies value(v, w) == hint_value(
                kind,
                b_inv,
                value(v, a),
            ) by {
                crate::vision::words::law_words(hint_value(kind, b_inv, value(v, a)), 0, 0);
            }
        }
        w
    }

    /// Demands that two wires are equal: one AND constraint.
    pub fn assert_eq(&mut self, name: String, x: Wire, y: Wire)
        requires
            old(self).wf(),
            x.index < old(self).gates@.len(),
            y.index < old(self).gates@.len(),
        ensures
            final(self).grew(*old(self), 0, 1),
            final(self).gates@ == old(self).gates@,
            final(self).equalities@ == old(self).equalities@.push(Equality { name, x, y }),
            forall|v: Seq<u64>| #[trigger]
                final(self).equalities_hold(v) == (old(self).equalities_hold(v)
                    && v[x.index as int] == v[y.index as int]),
    {
        let ghost before = *self;
        self.equalities.push(Equality { name, x, y });
        proof {
            let after = *self;
            let n = before.equalities@.len() as int;
            assert forall|v: Seq<u64>| #[trigger] after.equalities_hold(v) == (
            before.equalities_hold(v) && v[x.index as int] == v[y.index as int]) by {
                if after.equalities_hold(v) {
                    assert(after.equality_holds(v, n));
                    assert forall|j: int| 0 <= j < n implies #[trigger] before.equality_holds(
                        v,
                        j,
                    ) by {
                        assert(after.equality_holds(v, j));
                    }
                }
                if before.equalities_hold(v) && v[x.index as int] == v[y.index as int] {
                    assert forall|j: int| 0 <= j < after.equalities@.len() implies
                        #[trigger] after.equality_holds(v, j) by {
                        if j < n {
                            assert(before.equality_holds(v, j));
                        }
                    }
                }
            }
            assert forall|b_inv: Seq<B128>, v: Seq<u64>| #[trigger]
                after.follows(b_inv, v) implies before.follows(b_inv, v) && after.gates_hold(v) by {
                assert forall|i: int| 0 <= i < before.gates@.len() implies agrees(
                    (#[trigger] before.gates@[i]).honest_word(b_inv, v),
                    v[i],
                ) by {
                    assert(after.gates@[i] == before.gates@[i]);
                }
            }
            assert forall|v: Seq<u64>| #[trigger] after.gates_hold(v) implies before.gates_hold(
                v,
            ) by {
                assert forall|i: int| 0 <= i < before.gates@.len() implies agrees(
                    (#[trigger] before.gates@[i]).word(v),
                    v[i],
                ) by {
                    assert(after.gates@[i] == before.gates@[i]);
                }
            }
        }
    }
}

/// The words of an assignment under construction.
#[derive(Debug)]
pub struct WitnessFiller {
    pub words: Vec<u64>,
}

/// Committing one more wire counts it when it is linear.
proof fn lemma_commit_push(gates: Seq<Gate>, committed: Seq<Wire>, w: Wire)
    ensures
        count_linear(gates, committed.push(w)) == count_linear(gates, committed)
            + if gates[w.index as int].is_linear() {
            1nat
        } else {
            0
        },
{
    assert(committed.push(w).drop_last() =~= committed);
}

impl CircuitBuilder {
    /// Commits a wire. A linear wire that was not committed yet then costs one AND constraint.
    pub fn force_commit(&mut self, w: Wire)
        requires
            old(self).wf(),
            w.index < old(self).gates@.len(),
        ensures
            final(self).wf(),
            final(self).gates@ == old(self).gates@,
            final(self).equalities@ == old(self).equalities@,
            final(self).committed@ == if old(self).committed@.contains(w) {
                old(self).committed@
            } else {
                old(self).committed@.push(w)
            },
            final(self).bmuls() == old(self).bmuls(),
            final(self).ands() == old(self).ands() + if !old(self).committed@.contains(w)
                && old(self).gates@[w.index as int].is_linear() {
                1nat
            } else {
                0
            },
    {
        let mut j: usize = 0;
        while j < self.committed.len()
            invariant
                j <= self.committed@.len(),
                forall|k: int| 0 <= k < j ==> self.committed@[k] != w,
                *self == *old(self),
                self.wf(),
            decreases self.committed@.len() - j,
        {
            if self.committed[j] == w {
                assert(self.committed@.contains(w));
                return;
            }
            j = j + 1;
        }
        proof {
            assert(!self.committed@.contains(w));
            lemma_commit_push(self.gates@, self.committed@, w);
        }
        self.committed.push(w);
        assert(self.committed@.no_duplicates());
    }

    /// The numbers of BMUL and of AND constraints.
    pub fn stats(&self) -> (r: (usize, usize))
        requires
            self.wf(),
            self.ands() <= usize::MAX,
        ensures
            r.0 == self.bmuls(),
            r.1 == self.ands(),
    {
        let mut bmuls: usize = 0;
        let mut ands: usize = 0;
        let mut i: usize = 0;
        assert(self.gates@.take(0) =~= seq![]);
        while i < self.gates.len()
            invariant
                i <= self.gates@.len(),
                bmuls == count_bmul(self.gates@.take(i as int)),
                ands == count_and(self.gates@.take(i as int)),
                bmuls <= i,
                ands <= i,
            decreases self.gates@.len() - i,
        {
            proof {
                assert(self.gates@.take(i + 1).drop_last() =~= self.gates@.take(i as int));
                assert(self.gates@.take(i + 1).last() == self.gates@[i as int]);
            }
            match self.gates[i] {
                Gate::BmulLo { .. } => {
                    bmuls = bmuls + 1;
                },
                Gate::And { .. } => {
                    ands = ands + 1;
                },
                _ => {},
            }
            i = i + 1;
        }
        assert(self.gates@.take(i as int) =~= self.gates@);
        let mut linear: usize = 0;
        let mut j: usize = 0;
        assert(self.committed@.take(0) =~= seq![]);
        while j < self.committed.len()
            invariant
                self.wf(),
                j <= self.committed@.len(),
                linear == count_linear(self.gates@, self.committed@.take(j as int)),
                linear <= j,
            decreases self.committed@.len() - j,
        {
            proof {
                assert(self.committed@.take(j + 1).drop_last() =~= self.committed@.take(j as int));
                assert(self.committed@.take(j + 1).last() == self.committed@[j as int]);
            }
            match self.gates[self.committed[j].index] {
                Gate::Xor { .. } | Gate::Shl { .. } | Gate::Shr { .. } | Gate::Sar { .. } => {
                    linear = linear + 1;
                },
                _ => {},
            }
            j = j + 1;
        }
        assert(self.committed@.take(j as int) =~= self.committed@);
        (bmuls, ands + self.equalities.len() + linear)
    }

    /// An assignment of zeros.
    pub fn new_witness_filler(&self) -> (w: WitnessFiller)
        ensures
            w.words@ == Seq::new(self.gates@.len(), |i: int| 0u64),
    {
        let n: usize = self.gates.len();
        let mut words: Vec<u64> = Vec::new();
        let mut i: usize = 0;
        while i < n
            invariant
                i <= n,
                words@ == Seq::new(i as nat, |i: int| 0u64),
            decreases n - i,
        {
            words.push(0);
            i = i + 1;
            assert(words@ =~= Seq::new(i as nat, |i: int| 0u64));
        }
        WitnessFiller { words }
    }

    /// The word that a prover puts on a wire.
    fn honest(&self, hint: &VisionBInvHint, words: &Vec<u64>, i: usize) -> (w: u64)
        requires
            self.wf(),
            i < self.gates@.len(),
            words@.len() == self.gates@.len(),
            hint.coeffs@.len() > 0,
        ensures
            agrees(self.gates@[i as int].honest_word(hint.coeffs@, words@), w),
            self.gates@[i as int] is Witness ==> w == words@[i as int],
    {
        assert(self.gates@[i as int].reads_below(i as nat));
        match &self.gates[i] {
            Gate::Witness => words[i],
            Gate::Constant { word } => *word,
            Gate::Xor { terms } => {
                let mut acc: u64 = 0;
                let mut j: usize = 0;
                while j < terms.len()
                    invariant
                        j <= terms@.len(),
                        forall|j: int|
                            0 <= j < terms@.len() ==> (#[trigger] terms@[j]).index < words@.len(),
                        acc == xor_of(words@, terms@, j as nat),
                    decreases terms@.len() - j,
                {
                    acc = acc ^ words[terms[j].index];
                    j = j + 1;
                }
                acc
            },
            Gate::Shl { x, by } => words[x.index] << (*by as u64),
            Gate::Shr { x, by } => words[x.index] >> (*by as u64),
            Gate::Sar { x, by } => shifted(ShiftVariant::Sar, *by as u64, words[x.index]),
            Gate::And { x, y } => words[x.index] & words[y.index],
            Gate::BmulLo { a, b } => {
                let a = words_to_ghash(words[a.lo.index], words[a.hi.index]);
                let b = words_to_ghash(words[b.lo.index], words[b.hi.index]);
                ghash_to_words(a * b).0
            },
            Gate::BmulHi { a, b } => {
                let a = words_to_ghash(words[a.lo.index], words[a.hi.index]);
                let b = words_to_ghash(words[b.lo.index], words[b.hi.index]);
                ghash_to_words(a * b).1
            },
            Gate::HintLo { kind, a } => match kind {
                HintKind::Invert => GhashInvertHint.execute(
                    words[a.lo.index],
                    words[a.hi.index],
                ).0,
                HintKind::BInv => hint.execute(words[a.lo.index], words[a.hi.index]).0,
            },
            Gate::HintHi { kind, a } => match kind {
                HintKind::Invert => GhashInvertHint.execute(
                    words[a.lo.index],
                    words[a.hi.index],
                ).1,
                HintKind::BInv => hint.execute(words[a.lo.index], words[a.hi.index]).1,
            },
        }
    }

    /// Fills in every wire but the witness wires as a prover does, and checks the equalities. The
    /// error is the first equality that fails.
    pub fn populate_wire_witness(&self, hint: &VisionBInvHint, w: &mut WitnessFiller) -> (r: Result<
        (),
        usize,
    >)
        requires
            self.wf(),
            old(w).words@.len() == self.gates@.len(),
            hint.coeffs@.len() > 0,
        ensures
            final(w).words@.len() == self.gates@.len(),
            self.follows(hint.coeffs@, final(w).words@),
            forall|i: int|
                0 <= i < self.gates@.len() && self.gates@[i] is Witness ==>
                    #[trigger] final(w).words@[i] == old(w).words@[i],
            match r {
                Ok(()) => self.equalities_hold(final(w).words@),
                Err(j) => {
                    &&& j < self.equalities@.len()
                    &&& !self.equality_holds(final(w).words@, j as int)
                    &&& forall|k: int|
                        0 <= k < j ==> #[trigger] self.equality_holds(final(w).words@, k)
                },
            },
    {
        let n: usize = self.gates.len();
        let mut i: usize = 0;
        while i < n
            invariant
                self.wf(),
                hint.coeffs@.len() > 0,
                i <= n,
                n == self.gates@.len(),
                w.words@.len() == n,
                old(w).words@.len() == n,
                forall|k: int|
                    0 <= k < i ==> agrees(
                        (#[trigger] self.gates@[k]).honest_word(hint.coeffs@, w.words@),
                        w.words@[k],
                    ),
                forall|k: int|
                    0 <= k < n && (k >= i || self.gates@[k] is Witness) ==> #[trigger] w.words@[k]
                        == old(w).words@[k],
            decreases n - i,
        {
            let word: u64 = self.honest(hint, &w.words, i);
            let ghost before = w.words@;
            w.words.set(i, word);
            proof {
                let after = w.words@;
                assert forall|k: int| 0 <= k < i + 1 implies agrees(
                    (#[trigger] self.gates@[k]).honest_word(hint.coeffs@, after),
                    after[k],
                ) by {
                    lemma_word_local(self.gates@[k], hint.coeffs@, before, after, k as nat);
                }
            }
            i = i + 1;
        }
        match self.failed_equality(&w.words) {
            Some(j) => Err(j),
            None => Ok(()),
        }
    }

    /// The first equality that fails.
    fn failed_equality(&self, words: &Vec<u64>) -> (r: Option<usize>)
        requires
            self.wf(),
            words@.len() == self.gates@.len(),
        ensures
            match r {
                None => self.equalities_hold(words@),
                Some(j) => {
                    &&& j < self.equalities@.len()
                    &&& !self.equality_holds(words@, j as int)
                    &&& forall|k: int| 0 <= k < j ==> #[trigger] self.equality_holds(words@, k)
                },
            },
    {
        let mut j: usize = 0;
        while j < self.equalities.len()
            invariant
                self.wf(),
                words@.len() == self.gates@.len(),
                j <= self.equalities@.len(),
                forall|k: int| 0 <= k < j ==> #[trigger] self.equality_holds(words@, k),
            decreases self.equalities@.len() - j,
        {
            assert(self.equalities@[j as int].x.index < self.gates@.len());
            if words[self.equalities[j].x.index] != words[self.equalities[j].y.index] {
                assert(!self.equality_holds(words@, j as int));
                return Some(j);
            }
            assert(self.equality_holds(words@, j as int));
            j = j + 1;
        }
        None
    }

    /// Whether an assignment satisfies the circuit: every gate but the hints, field products
    /// included, and every equality.
    pub fn verify_all_constraints(&self, w: &WitnessFiller) -> (r: bool)
        requires
            self.wf(),
            w.words@.len() == self.gates@.len(),
        ensures
            r == self.satisfied(w.words@),
    {
        let hint = VisionBInvHint { coeffs: vec![B128::new(0)] };
        let mut i: usize = 0;
        while i < self.gates.len()
            invariant
                self.wf(),
                w.words@.len() == self.gates@.len(),
                hint.coeffs@.len() > 0,
                i <= self.gates@.len(),
                forall|k: int|
                    0 <= k < i ==> agrees(
                        (#[trigger] self.gates@[k]).word(w.words@),
                        w.words@[k],
                    ),
            decreases self.gates@.len() - i,
        {
            match &self.gates[i] {
                Gate::HintLo { .. } => {},
                Gate::HintHi { .. } => {},
                _ => {
                    let word: u64 = self.honest(&hint, &w.words, i);
                    if word != w.words[i] {
                        assert(!agrees(self.gates@[i as int].word(w.words@), w.words@[i as int]));
                        return false;
                    }
                },
            }
            i = i + 1;
        }
        match self.failed_equality(&w.words) {
            Some(_) => false,
            None => true,
        }
    }
}

/// What a prover puts on the wires is determined by what stands on the witness wires.
pub proof fn law_witness_determines(
    c: CircuitBuilder,
    b_inv: Seq<B128>,
    u: Seq<u64>,
    v: Seq<u64>,
    n: nat,
)
    requires
        c.wf(),
        c.follows(b_inv, u),
        c.follows(b_inv, v),
        forall|i: int|
            0 <= i < c.gates@.len() && c.gates@[i] is Witness ==> #[trigger] u[i] == v[i],
        n <= c.gates@.len(),
    ensures
        forall|i: int| 0 <= i < n ==> u[i] == v[i],
    decreases n,
{
    if n > 0 {
        let i = n - 1;
        law_witness_determines(c, b_inv, u, v, (n - 1) as nat);
        let g = c.gates@[i];
        assert(g.reads_below(i as nat));
        lemma_word_local(g, b_inv, u, v, i as nat);
        assert(agrees(g.honest_word(b_inv, u), u[i]));
        assert(agrees(g.honest_word(b_inv, v), v[i]));
        if !(g is Witness) {
            assert(g.honest_word(b_inv, u) is Some);
        } else {
            assert(u[i] == v[i]);
        }
    }
}

/// Zero is neutral.
proof fn lemma_zero_xor(a: u64)
    by (bit_vector)
    ensures
        0 ^ a == a,
{
}

/// No wires sum to zero, and one more wire is added by exclusive or.
pub proof fn law_xor_grows(v: Seq<u64>, terms: Seq<Wire>, w: Wire)
    ensures
        xor_of(v, Seq::<Wire>::empty(), 0) == 0,
        xor_of(v, terms.push(w), (terms.len() + 1) as nat) == xor_of(v, terms, terms.len())
            ^ v[w.index as int],
{
    lemma_xor_ext(v, terms, terms.push(w), terms.len());
}

/// Wires that begin alike have the same exclusive or over the common part.
proof fn lemma_xor_ext(v: Seq<u64>, p: Seq<Wire>, q: Seq<Wire>, k: nat)
    requires
        k <= p.len(),
        k <= q.len(),
        forall|i: int| 0 <= i < k ==> p[i] == q[i],
    ensures
        xor_of(v, p, k) == xor_of(v, q, k),
    decreases k,
{
    if k > 0 {
        lemma_xor_ext(v, p, q, (k - 1) as nat);
    }
}

/// What an assignment to the wires of a circuit must be, gate by gate, in words: constants, shifts,
/// conjunctions and the two words of each product are forced; witnesses and hints are free.
pub proof fn law_gates_mean(c: CircuitBuilder, v: Seq<u64>, i: int)
    requires
        c.gates_hold(v),
        0 <= i < c.gates@.len(),
    ensures
        c.gates@[i] is Constant ==> v[i] == c.gates@[i]->word,
        c.gates@[i] is Xor ==> v[i] == xor_of(v, c.gates@[i]->terms@, c.gates@[i]->terms@.len()),
        c.gates@[i] is Shl ==> v[i] == v[c.gates@[i]->Shl_x.index as int] << (
        c.gates@[i]->Shl_by as u64),
        c.gates@[i] is Shr ==> v[i] == v[c.gates@[i]->Shr_x.index as int] >> (
        c.gates@[i]->Shr_by as u64),
        c.gates@[i] is Sar ==> v[i] == crate::word::shift_word(
            ShiftVariant::Sar,
            c.gates@[i]->Sar_by as u64,
            v[c.gates@[i]->Sar_x.index as int],
        ),
        c.gates@[i] is And ==> v[i] == v[c.gates@[i]->And_x.index as int]
            & v[c.gates@[i]->y.index as int],
        c.gates@[i] is BmulLo ==> v[i] == (value(v, c.gates@[i]->BmulLo_a) * value(
            v,
            c.gates@[i]->BmulLo_b,
        )).bits as u64,
        c.gates@[i] is BmulHi ==> v[i] == ((value(v, c.gates@[i]->BmulHi_a) * value(
            v,
            c.gates@[i]->BmulHi_b,
        )).bits >> 64u128) as u64,
{
    assert(agrees(c.gates@[i].word(v), v[i]));
}

/// An assignment that holds for a circuit may have any words on its witness and hint wires: where all
/// other wires have the words of their definitions, the circuit holds.
pub proof fn law_free_wires(c: CircuitBuilder, v: Seq<u64>)
    requires
        v.len() >= c.gates@.len(),
        forall|i: int|
            0 <= i < c.gates@.len() ==> (#[trigger] c.gates@[i]) is Witness || c.gates@[i] is HintLo
                || c.gates@[i] is HintHi || c.gates@[i].word(v) == Some(v[i]),
    ensures
        c.gates_hold(v),
{
    assert forall|i: int| 0 <= i < c.gates@.len() implies agrees(
        (#[trigger] c.gates@[i]).word(v),
        v[i],
    ) by {}
}

/// A circuit is satisfied when its gates hold and, of every equality, both wires carry one word.
pub proof fn law_satisfied(c: CircuitBuilder, v: Seq<u64>)
    ensures
        c.satisfied(v) <==> c.gates_hold(v) && forall|j: int|
            0 <= j < c.equalities@.len() ==> v[(#[trigger] c.equalities@[j]).x.index as int]
                == v[c.equalities@[j].y.index as int],
{
    if c.equalities_hold(v) {
        assert forall|j: int| 0 <= j < c.equalities@.len() implies v[(
        #[trigger] c.equalities@[j]).x.index as int] == v[c.equalities@[j].y.index as int] by {
            assert(c.equality_holds(v, j));
        }
    }
}

/// What each gate costs: a product one BMUL constraint, counted at its low word; a conjunction one
/// AND constraint; every other gate nothing.
pub proof fn law_gate_costs(gates: Seq<Gate>, g: Gate)
    ensures
        count_bmul(Seq::<Gate>::empty()) == 0,
        count_and(Seq::<Gate>::empty()) == 0,
        g is BmulLo ==> count_bmul(gates.push(g)) == count_bmul(gates) + 1,
        !(g is BmulLo) ==> count_bmul(gates.push(g)) == count_bmul(gates),
        g is And ==> count_and(gates.push(g)) == count_and(gates) + 1,
        !(g is And) ==> count_and(gates.push(g)) == count_and(gates),
{
    lemma_count_push(gates, g, Seq::empty());
}

/// What committing a wire costs: an AND constraint where the wire is an exclusive or or a shift, and
/// nothing otherwise.
pub proof fn law_commit_costs(gates: Seq<Gate>, committed: Seq<Wire>, w: Wire)
    requires
        w.index < gates.len(),
    ensures
        count_linear(gates, Seq::<Wire>::empty()) == 0,
        ({
            let g = gates[w.index as int];
            let linear = g is Xor || g is Shl || g is Shr || g is Sar;
            &&& linear ==> count_linear(gates, committed.push(w)) == count_linear(gates, committed)
                + 1
            &&& !linear ==> count_linear(gates, committed.push(w)) == count_linear(gates, committed)
        }),
{
    assert(committed.push(w).drop_last() =~= committed);
}

/// The AND constraints of a circuit: its conjunctions, its equalities, and its linear committed wires.
pub proof fn law_and_count(c: CircuitBuilder)
    ensures
        c.bmuls() == count_bmul(c.gates@),
        c.ands() == count_and(c.gates@) + count_linear(c.gates@, c.committed@)
            + c.equalities@.len(),
{
}

/// The costs of two extensions, one behind the other, add up.
pub proof fn law_growth_adds(
    a: CircuitBuilder,
    b: CircuitBuilder,
    c: CircuitBuilder,
    bmuls: (nat, nat),
    ands: (nat, nat),
)
    requires
        b.grew(a, bmuls.0, ands.0),
        c.grew(b, bmuls.1, ands.1),
    ensures
        c.grew(a, bmuls.0 + bmuls.1, ands.0 + ands.1),
        count_bmul(c.gates@) == count_bmul(a.gates@) + bmuls.0 + bmuls.1,
{
    assert forall|i: int| 0 <= i < a.gates@.len() implies #[trigger] c.gates@[i] == a.gates@[i] by {
        assert(b.gates@[i] == a.gates@[i]);
    }
    assert forall|j: int| 0 <= j < a.equalities@.len() implies #[trigger] c.equalities@[j]
        == a.equalities@[j] by {
        assert(b.equalities@[j] == a.equalities@[j]);
    }
    assert forall|v: Seq<u64>| #[trigger] c.gates_hold(v) implies a.gates_hold(v) by {
        assert(b.gates_hold(v));
    }
    assert forall|v: Seq<u64>| #[trigger] c.equalities_hold(v) implies a.equalities_hold(v) by {
        assert(b.equalities_hold(v));
    }
    assert forall|b_inv: Seq<B128>, v: Seq<u64>| #[trigger]
        c.follows(b_inv, v) implies a.follows(b_inv, v) by {
        assert(b.follows(b_inv, v));
    }
}

/// What a prover puts on the wires holds for the gates, and on the two wires of a hint it is the words of the
/// inverse, zero for zero, or of the affine map.
pub proof fn law_honest_wires(c: CircuitBuilder, b_inv: Seq<B128>, v: Seq<u64>, i: int)
    requires
        c.follows(b_inv, v),
        0 <= i < c.gates@.len(),
    ensures
        c.gates_hold(v),
        c.gates@[i] is HintLo ==> v[i] == (match c.gates@[i]->HintLo_kind {
            HintKind::Invert => inv(value(v, c.gates@[i]->HintLo_a)),
            HintKind::BInv => affine(b_inv, value(v, c.gates@[i]->HintLo_a)),
        }).bits as u64,
        c.gates@[i] is HintHi ==> v[i] == ((match c.gates@[i]->HintHi_kind {
            HintKind::Invert => inv(value(v, c.gates@[i]->HintHi_a)),
            HintKind::BInv => affine(b_inv, value(v, c.gates@[i]->HintHi_a)),
        }).bits >> 64u128) as u64,
{
    assert forall|k: int| 0 <= k < c.gates@.len() implies agrees(
        (#[trigger] c.gates@[k]).word(v),
        v[k],
    ) by {
        assert(agrees(c.gates@[k].honest_word(b_inv, v), v[k]));
    }
    assert(agrees(c.gates@[i].honest_word(b_inv, v), v[i]));
}

} // verus!
