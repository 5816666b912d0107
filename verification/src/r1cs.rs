//! Rank-1 constraint system.
//!
//! An append-only list of variables and constraints of the form
//! `A · B = C`, with `A`, `B`, `C` linear combinations of variables. The
//! system is built either in template mode (no concrete values, for key
//! generation) or in proving mode (every variable carries a value); both
//! modes allocate variables and emit constraints in the same order, so the
//! shape agrees between setup and proving by construction.
//!
//! Values and coefficients are unsigned integers evaluated over the
//! unbounded integers. The proof system works over a prime scalar field of
//! more than 250 bits; every combination the circuits here emit stays far
//! below that modulus, so integer semantics and field semantics coincide.

use vstd::prelude::*;
use vstd::arithmetic::power2::pow2;
use vstd::arithmetic::power2::lemma_pow2_pos;
use vstd::arithmetic::power2::lemma_pow2_unfold;
use vstd::arithmetic::power2::lemma_pow2_strictly_increases;
use vstd::arithmetic::power2::lemma2_to64;

verus! {

/// A handle to an allocated variable.
#[derive(Debug, Clone, Copy, PartialEq, Eq, Structural)]
pub struct Variable {
    pub index: usize,
}

/// Whether a variable is part of the private witness or a public input.
#[derive(Debug, Clone, Copy, PartialEq, Eq, Structural)]
pub enum VarKind {
    Private,
    Public,
}

/// Whether the system is built for key generation or for proving.
#[derive(Debug, Clone, Copy, PartialEq, Eq, Structural)]
pub enum Mode {
    Template,
    Prove,
}

/// Errors of constraint construction.
#[derive(Debug, Clone, Copy, PartialEq, Eq, Structural)]
pub enum CircuitError {
    /// Proving mode requires a concrete value and none was supplied.
    AssignmentMissing,
    /// Gadget operands have incompatible bit widths, or a value does not fit
    /// the requested width.
    WidthMismatch,
    /// A width-checked subtraction would go below zero.
    Underflow,
    /// A constraint refers to a variable that was never allocated.
    UnallocatedVariable,
}

/// One weighted variable of a linear combination.
#[derive(Debug, Clone, Copy, PartialEq, Eq, Structural)]
pub struct Term {
    pub coeff: u64,
    pub var: Variable,
}

/// A constant plus a weighted sum of variables.
#[derive(Debug)]
pub struct LinearCombination {
    pub constant: u64,
    pub terms: Vec<Term>,
}

/// One rank-1 constraint: `a · b = c`.
#[derive(Debug)]
pub struct Constraint {
    pub a: LinearCombination,
    pub b: LinearCombination,
    pub c: LinearCombination,
}

/// The mathematical model of a linear combination.
pub ghost struct LcModel {
    pub constant: u64,
    pub terms: Seq<Term>,
}

/// The mathematical model of one constraint.
pub ghost struct ConstraintModel {
    pub a: LcModel,
    pub b: LcModel,
    pub c: LcModel,
}

impl LinearCombination {
    /// The combination as a mathematical value.
    pub open spec fn model(self) -> LcModel {
        LcModel { constant: self.constant, terms: self.terms@ }
    }
}

impl Constraint {
    /// The constraint as a mathematical value.
    pub open spec fn model(self) -> ConstraintModel {
        ConstraintModel { a: self.a.model(), b: self.b.model(), c: self.c.model() }
    }
}

/// The weighted sum of the terms under an assignment.
pub open spec fn terms_eval(terms: Seq<Term>, assign: Seq<u64>) -> int
    decreases terms.len(),
{
    if terms.len() == 0 {
        0
    } else {
        terms_eval(terms.drop_last(), assign) + (terms.last().coeff as int) * (
        assign[terms.last().var.index as int] as int)
    }
}

/// The value of a linear combination under an assignment.
pub open spec fn lc_eval(lc: LcModel, assign: Seq<u64>) -> int {
    lc.constant as int + terms_eval(lc.terms, assign)
}

/// Whether the assignment satisfies the constraint.
pub open spec fn constraint_satisfied(c: ConstraintModel, assign: Seq<u64>) -> bool {
    lc_eval(c.a, assign) * lc_eval(c.b, assign) == lc_eval(c.c, assign)
}

/// Whether every variable of the combination is below `n`.
pub open spec fn lc_vars_in(lc: LcModel, n: nat) -> bool {
    forall|i: int| 0 <= i < lc.terms.len() ==> (#[trigger] lc.terms[i]).var.index < n
}

/// Whether every variable of the constraint is below `n`.
pub open spec fn constraint_vars_in(c: ConstraintModel, n: nat) -> bool {
    lc_vars_in(c.a, n) && lc_vars_in(c.b, n) && lc_vars_in(c.c, n)
}

/// The value a width-bounded allocation records: the supplied value in
/// proving mode, a zero placeholder in template mode.
pub open spec fn uint_alloc_value(mode: Mode, value: Option<u64>) -> u64 {
    if mode == Mode::Prove {
        value_or_zero(value)
    } else {
        0
    }
}

/// Whether a width-bounded allocation succeeds: always in template mode, and
/// in proving mode exactly when a value is supplied and fits the width.
pub open spec fn uint_alloc_ok(mode: Mode, value: Option<u64>, width: nat) -> bool {
    mode == Mode::Template || (value is Some && (value_or_zero(value) as nat) < pow2(width))
}

/// The value recorded for an allocation: the supplied value, or a zero
/// placeholder in template mode.
pub open spec fn value_or_zero(value: Option<u64>) -> u64 {
    match value {
        Option::Some(v) => v,
        Option::None => 0,
    }
}

/// The single-term combination `1 · v`.
pub open spec fn lc_var(v: int) -> LcModel {
    LcModel { constant: 0, terms: seq![(Term { coeff: 1, var: (Variable { index: v as usize }) })] }
}

/// The constant combination `k`.
pub open spec fn lc_const(k: u64) -> LcModel {
    LcModel { constant: k, terms: Seq::empty() }
}

/// `v · v = v`: satisfied exactly when variable `v` holds 0 or 1.
pub open spec fn boolean_constraint(v: int) -> ConstraintModel {
    ConstraintModel { a: lc_var(v), b: lc_var(v), c: lc_var(v) }
}

/// `x · 1 = y`: satisfied exactly when the two variables agree.
pub open spec fn equal_constraint(x: int, y: int) -> ConstraintModel {
    ConstraintModel { a: lc_var(x), b: lc_const(1), c: lc_var(y) }
}

/// `x · 1 = k`: satisfied exactly when variable `x` holds `k`.
pub open spec fn equal_const_constraint(x: int, k: u64) -> ConstraintModel {
    ConstraintModel { a: lc_var(x), b: lc_const(1), c: lc_const(k) }
}

/// Evaluation only reads assignment entries a combination's variables name,
/// so extending the assignment does not change it.
pub proof fn lemma_terms_eval_prefix(terms: Seq<Term>, a1: Seq<u64>, a2: Seq<u64>)
    requires
        a1.len() <= a2.len(),
        forall|i: int| 0 <= i < a1.len() ==> a1[i] == a2[i],
        forall|k: int| 0 <= k < terms.len() ==> (#[trigger] terms[k]).var.index < a1.len(),
    ensures
        terms_eval(terms, a1) == terms_eval(terms, a2),
    decreases terms.len(),
{
    if terms.len() > 0 {
        lemma_terms_eval_prefix(terms.drop_last(), a1, a2);
    }
}

/// Extension of the assignment preserves a constraint's satisfaction when
/// the constraint's variables are all allocated.
pub proof fn lemma_constraint_prefix(c: ConstraintModel, a1: Seq<u64>, a2: Seq<u64>)
    requires
        a1.len() <= a2.len(),
        forall|i: int| 0 <= i < a1.len() ==> a1[i] == a2[i],
        constraint_vars_in(c, a1.len() as nat),
    ensures
        constraint_satisfied(c, a1) == constraint_satisfied(c, a2),
        lc_eval(c.a, a1) == lc_eval(c.a, a2),
        lc_eval(c.b, a1) == lc_eval(c.b, a2),
        lc_eval(c.c, a1) == lc_eval(c.c, a2),
{
    lemma_terms_eval_prefix(c.a.terms, a1, a2);
    lemma_terms_eval_prefix(c.b.terms, a1, a2);
    lemma_terms_eval_prefix(c.c.terms, a1, a2);
}

/// A single-variable combination evaluates to that variable's value.
pub proof fn lemma_eval_lc_var(v: int, assign: Seq<u64>)
    requires
        0 <= v < assign.len(),
        v <= usize::MAX,
    ensures
        lc_eval(lc_var(v), assign) == assign[v],
{
    assert((v as usize) as int == v);
    let s = lc_var(v).terms;
    assert(s.len() == 1);
    assert(s.drop_last() =~= Seq::<Term>::empty());
    assert(terms_eval(s.drop_last(), assign) == 0);
    assert(s.last() == (Term { coeff: 1, var: (Variable { index: v as usize }) }));
}

/// A constant combination evaluates to its constant.
pub proof fn lemma_eval_lc_const(k: u64, assign: Seq<u64>)
    ensures
        lc_eval(lc_const(k), assign) == k,
{
    assert(terms_eval(Seq::<Term>::empty(), assign) == 0);
}

/// A width-`width` unsigned allocation: the value variable and its bit
/// width.
#[derive(Debug, Clone, Copy, PartialEq, Eq, Structural)]
pub struct UIntVar {
    pub var: Variable,
    pub width: usize,
}

/// The bit-sum terms: coefficient 2^k on the bit variable `first + k`.
pub open spec fn bit_sum_terms(first: int, width: nat) -> Seq<Term> {
    Seq::new(
        width,
        |k: int|
            Term { coeff: pow2(k as nat) as u64, var: (Variable { index: (first + k) as usize }) },
    )
}

/// `1 · (Σ 2^k b_k) = x`: the bits at `first..first + width` decompose `x`.
pub open spec fn bit_sum_constraint(first: int, width: nat, x: int) -> ConstraintModel {
    ConstraintModel {
        a: lc_const(1),
        b: LcModel { constant: 0, terms: bit_sum_terms(first, width) },
        c: lc_var(x),
    }
}

/// The constraints of a width-`width` unsigned allocation of variable `x`
/// with bits at `first..`: booleanness of each bit, then the bit-sum binding.
pub open spec fn uint_constraints(x: int, first: int, width: nat) -> Seq<ConstraintModel> {
    Seq::new(width, |k: int| boolean_constraint(first + k)).push(
        bit_sum_constraint(first, width, x),
    )
}

/// `1 · (x + y) = z`: the sum of two variables equals a third.
pub open spec fn sum_constraint(x: int, y: int, z: int) -> ConstraintModel {
    ConstraintModel {
        a: lc_const(1),
        b: LcModel {
            constant: 0,
            terms: seq![
                (Term { coeff: 1, var: (Variable { index: x as usize }) }),
                (Term { coeff: 1, var: (Variable { index: y as usize }) }),
            ],
        },
        c: lc_var(z),
    }
}

/// `1 · (1 + y + d) = x`: with `d` nonnegative this forces `x > y`.
pub open spec fn greater_link_constraint(x: int, y: int, d: int) -> ConstraintModel {
    ConstraintModel {
        a: lc_const(1),
        b: LcModel {
            constant: 1,
            terms: seq![
                (Term { coeff: 1, var: (Variable { index: y as usize }) }),
                (Term { coeff: 1, var: (Variable { index: d as usize }) }),
            ],
        },
        c: lc_var(x),
    }
}

/// The constraints of the strict comparison `x > y`: a width-bounded
/// difference variable at `base`, then the linking constraint.
pub open spec fn greater_constraints(x: int, y: int, base: int, width: nat) -> Seq<
    ConstraintModel,
> {
    uint_constraints(base, base + 1, width).push(greater_link_constraint(x, y, base))
}

/// The little-endian weighted sum of a bit string.
pub open spec fn bits_sum(bits: Seq<u64>) -> int
    decreases bits.len(),
{
    if bits.len() == 0 {
        0
    } else {
        bits_sum(bits.drop_last()) + (bits.last() as int) * pow2((bits.len() - 1) as nat)
    }
}

/// A sum of bits weighted by powers of two is nonnegative and below
/// 2^length.
pub proof fn lemma_bits_sum_bounds(bits: Seq<u64>)
    requires
        forall|i: int| 0 <= i < bits.len() ==> bits[i] == 0 || bits[i] == 1,
    ensures
        0 <= bits_sum(bits) < pow2(bits.len()),
    decreases bits.len(),
{
    if bits.len() == 0 {
        lemma2_to64();
    } else {
        lemma_bits_sum_bounds(bits.drop_last());
        lemma_pow2_unfold(bits.len());
        lemma_pow2_pos((bits.len() - 1) as nat);
        if bits.last() == 0 {
            assert((bits.last() as int) * pow2((bits.len() - 1) as nat) == 0);
        } else {
            assert((bits.last() as int) * pow2((bits.len() - 1) as nat) == pow2(
                (bits.len() - 1) as nat,
            ));
        }
    }
}

/// The bit-sum terms evaluate to the weighted sum of the bit values held in
/// the assignment.
pub proof fn lemma_bit_sum_terms_eval(first: int, width: nat, assign: Seq<u64>, bits: Seq<u64>)
    requires
        bits.len() == width,
        width <= 64,
        0 <= first,
        first + width <= assign.len(),
        first + width <= usize::MAX,
        forall|k: int| 0 <= k < width ==> assign[first + k] == bits[k],
    ensures
        terms_eval(bit_sum_terms(first, width), assign) == bits_sum(bits),
    decreases width,
{
    if width > 0 {
        let w1 = (width - 1) as nat;
        assert(bit_sum_terms(first, width).drop_last() =~= bit_sum_terms(first, w1));
        lemma_bit_sum_terms_eval(first, w1, assign, bits.drop_last());
        lemma2_to64();
        lemma_pow2_strictly_increases(w1, 64);
        assert(pow2(w1) < 0x10000000000000000);
        let t = bit_sum_terms(first, width).last();
        assert(t.coeff == pow2(w1) as u64);
        assert((pow2(w1) as u64) as int == pow2(w1));
        assert(t.var.index == (first + w1) as usize);
        assert(((first + w1) as usize) as int == first + w1);
        assert(bits.last() == assign[first + w1]);
    }
}

/// Any assignment satisfying a width-`width` unsigned allocation's
/// constraints gives the allocated variable a value below 2^width.
pub proof fn lemma_uint_constraints_sound(x: int, first: int, width: nat, assign: Seq<u64>)
    requires
        width <= 64,
        0 <= x < assign.len(),
        x <= usize::MAX,
        0 <= first,
        first + width <= assign.len(),
        first + width <= usize::MAX,
        forall|i: int|
            0 <= i < uint_constraints(x, first, width).len() ==> constraint_satisfied(
                #[trigger] uint_constraints(x, first, width)[i],
                assign,
            ),
    ensures
        (assign[x] as int) < pow2(width),
{
    let cs = uint_constraints(x, first, width);
    let bits = Seq::new(width, |k: int| assign[first + k]);
    assert forall|k: int| 0 <= k < width implies bits[k] == 0 || bits[k] == 1 by {
        assert(cs[k] == boolean_constraint(first + k));
        assert(constraint_satisfied(cs[k], assign));
        lemma_eval_lc_var(first + k, assign);
        let v = assign[first + k] as int;
        assert(v * v == v);
        assert((v * v == v) == (v == 0 || v == 1)) by (nonlinear_arith)
            requires
                v >= 0,
        ;
    }
    assert(cs[width as int] == bit_sum_constraint(first, width, x));
    assert(constraint_satisfied(cs[width as int], assign));
    lemma_eval_lc_const(1, assign);
    lemma_eval_lc_var(x, assign);
    lemma_bit_sum_terms_eval(first, width, assign, bits);
    lemma_bits_sum_bounds(bits);
    assert(lc_eval(bit_sum_constraint(first, width, x).b, assign) == bits_sum(bits));
    assert(lc_eval(bit_sum_constraint(first, width, x).a, assign) == 1);
    assert(lc_eval(bit_sum_constraint(first, width, x).c, assign) == (assign[x] as int));
    let s = bits_sum(bits);
    assert(1 * s == s) by (nonlinear_arith);
    assert((assign[x] as int) == bits_sum(bits));
}

/// A two-term linear combination evaluates to its constant plus the two
/// weighted variable values.
pub proof fn lemma_eval_two_terms(lc: LcModel, v1: int, v2: int, assign: Seq<u64>)
    requires
        0 <= v1 < assign.len(),
        0 <= v2 < assign.len(),
        v1 <= usize::MAX,
        v2 <= usize::MAX,
        lc.terms =~= seq![
            (Term { coeff: 1, var: (Variable { index: v1 as usize }) }),
            (Term { coeff: 1, var: (Variable { index: v2 as usize }) }),
        ],
    ensures
        lc_eval(lc, assign) == lc.constant + assign[v1] + assign[v2],
{
    assert((v1 as usize) as int == v1);
    assert((v2 as usize) as int == v2);
    let s = lc.terms;
    assert(s.len() == 2);
    assert(s.last() == (Term { coeff: 1, var: (Variable { index: v2 as usize }) }));
    assert(s.drop_last() =~= seq![(Term { coeff: 1, var: (Variable { index: v1 as usize }) })]);
    assert(s.drop_last().last() == (Term { coeff: 1, var: (Variable { index: v1 as usize }) }));
    assert(s.drop_last().drop_last() =~= Seq::<Term>::empty());
    assert(terms_eval(s.drop_last().drop_last(), assign) == 0);
    let a1 = assign[v1] as int;
    let a2 = assign[v2] as int;
    assert(1 * a1 == a1) by (nonlinear_arith);
    assert(1 * a2 == a2) by (nonlinear_arith);
    assert(terms_eval(s.drop_last(), assign) == a1);
    assert(terms_eval(s, assign) == a1 + a2);
}

/// Any assignment satisfying the strict-comparison constraints makes `x`
/// strictly greater than `y`, by a margin below 2^width.
pub proof fn lemma_greater_constraints_sound(
    x: int,
    y: int,
    base: int,
    width: nat,
    assign: Seq<u64>,
)
    requires
        width <= 64,
        0 <= x < assign.len(),
        0 <= y < assign.len(),
        x <= usize::MAX,
        y <= usize::MAX,
        0 <= base,
        base + 1 + width <= assign.len(),
        base + 1 + width <= usize::MAX,
        forall|i: int|
            0 <= i < greater_constraints(x, y, base, width).len() ==> constraint_satisfied(
                #[trigger] greater_constraints(x, y, base, width)[i],
                assign,
            ),
    ensures
        (assign[x] as int) > (assign[y] as int),
        (assign[x] as int) - (assign[y] as int) - 1 < pow2(width),
{
    let gs = greater_constraints(x, y, base, width);
    let us = uint_constraints(base, base + 1, width);
    assert forall|i: int| 0 <= i < us.len() implies constraint_satisfied(
        #[trigger] us[i],
        assign,
    ) by {
        assert(gs[i] == us[i]);
        assert(constraint_satisfied(gs[i], assign));
    }
    lemma_uint_constraints_sound(base, base + 1, width, assign);
    let link = greater_link_constraint(x, y, base);
    assert(gs[us.len() as int] == link);
    assert(constraint_satisfied(link, assign));
    lemma_eval_lc_const(1, assign);
    lemma_eval_lc_var(x, assign);
    lemma_eval_two_terms(link.b, y, base, assign);
    let be = lc_eval(link.b, assign);
    assert(1 * be == be) by (nonlinear_arith);
    assert((assign[x] as int) == 1 + assign[y] + assign[base]);
}

/// A single-variable combination stays within `n` exactly when its variable
/// does.
pub proof fn lemma_lc_var_vars(v: int, n: nat)
    requires
        0 <= v,
        v <= usize::MAX,
    ensures
        lc_vars_in(lc_var(v), n) <==> v < n,
{
    assert((v as usize) as int == v);
    if v < n {
        assert forall|i: int| 0 <= i < lc_var(v).terms.len() implies (#[trigger] lc_var(
            v,
        ).terms[i]).var.index < n by {
            assert(lc_var(v).terms[i] == (Term { coeff: 1, var: (Variable { index: v as usize }) }));
        }
    } else {
        assert((lc_var(v).terms[0]).var.index >= n);
    }
}

/// The exec mirror of [`lc_var`].
fn make_lc_var(v: Variable) -> (r: LinearCombination)
    ensures
        r.model() == lc_var(v.index as int),
{
    let mut terms: Vec<Term> = Vec::new();
    terms.push(Term { coeff: 1, var: v });
    proof {
        assert(terms@ =~= lc_var(v.index as int).terms);
    }
    LinearCombination { constant: 0, terms }
}

/// The exec mirror of [`lc_const`].
fn make_lc_const(k: u64) -> (r: LinearCombination)
    ensures
        r.model() == lc_const(k),
{
    let terms: Vec<Term> = Vec::new();
    proof {
        assert(terms@ =~= lc_const(k).terms);
    }
    LinearCombination { constant: k, terms }
}

/// Whether every variable of the combination is below `n`.
fn lc_vars_ok(lc: &LinearCombination, n: usize) -> (r: bool)
    ensures
        r == lc_vars_in(lc.model(), n as nat),
{
    let m = lc.terms.len();
    let mut i: usize = 0;
    while i < m
        invariant
            m == lc.terms@.len(),
            0 <= i <= m,
            forall|k: int| 0 <= k < i ==> (#[trigger] lc.terms@[k]).var.index < n,
        decreases m - i,
    {
        if lc.terms[i].var.index >= n {
            proof {
                assert((lc.model().terms[i as int]).var.index >= n);
            }
            return false;
        }
        i += 1;
    }
    true
}

/// The constraint system: the variables in allocation order, their values
/// (placeholders in template mode), and the emitted constraints.
pub struct ConstraintSystem {
    mode: Mode,
    kinds: Vec<VarKind>,
    assignment: Vec<u64>,
    constraints: Vec<Constraint>,
}

impl ConstraintSystem {
    /// The kinds of the variables, in allocation order.
    pub closed spec fn kinds_view(self) -> Seq<VarKind> {
        self.kinds@
    }

    /// The values of the variables, in allocation order.
    pub closed spec fn assignment_view(self) -> Seq<u64> {
        self.assignment@
    }

    /// The emitted constraints, in order, as mathematical values.
    pub closed spec fn constraints_view(self) -> Seq<ConstraintModel> {
        self.constraints@.map_values(|c: Constraint| c.model())
    }

    /// The mode the system was created in.
    pub closed spec fn spec_mode(self) -> Mode {
        self.mode
    }

    /// The number of allocated variables.
    pub open spec fn num_vars(self) -> nat {
        self.kinds_view().len()
    }

    /// Every variable has a value slot and every constraint speaks only of
    /// allocated variables.
    pub open spec fn wf(self) -> bool {
        &&& self.assignment_view().len() == self.num_vars()
        &&& forall|i: int|
            0 <= i < self.constraints_view().len() ==> constraint_vars_in(
                #[trigger] self.constraints_view()[i],
                self.num_vars(),
            )
    }

    /// Whether the recorded assignment satisfies every constraint.
    pub open spec fn satisfied(self) -> bool {
        forall|i: int|
            0 <= i < self.constraints_view().len() ==> constraint_satisfied(
                #[trigger] self.constraints_view()[i],
                self.assignment_view(),
            )
    }

    /// Creates an empty system in the given mode.
    pub fn new(mode: Mode) -> (r: Self)
        ensures
            r.wf(),
            r.spec_mode() == mode,
            r.num_vars() == 0,
            r.kinds_view().len() == 0,
            r.constraints_view().len() == 0,
            r.satisfied(),
    {
        ConstraintSystem { mode, kinds: Vec::new(), assignment: Vec::new(), constraints: Vec::new() }
    }

    /// The mode the system was created in.
    pub fn mode_of(&self) -> (r: Mode)
        ensures
            r == self.spec_mode(),
    {
        self.mode
    }

    /// The number of allocated variables.
    pub fn num_variables(&self) -> (r: usize)
        ensures
            r == self.num_vars(),
    {
        self.kinds.len()
    }

    /// The number of emitted constraints.
    pub fn num_constraints(&self) -> (r: usize)
        ensures
            r == self.constraints_view().len(),
    {
        self.constraints.len()
    }

    /// The recorded value of an allocated variable.
    pub fn value_of(&self, v: Variable) -> (r: u64)
        requires
            self.wf(),
            v.index < self.num_vars(),
        ensures
            r == self.assignment_view()[v.index as int],
    {
        self.assignment[v.index]
    }

    /// Allocates one variable. In proving mode a concrete value is required;
    /// in template mode a zero placeholder stands in for an absent value.
    pub fn allocate(&mut self, kind: VarKind, value: Option<u64>) -> (r: Result<
        Variable,
        CircuitError,
    >)
        requires
            old(self).wf(),
        ensures
            final(self).wf(),
            final(self).spec_mode() == old(self).spec_mode(),
            old(self).spec_mode() == Mode::Prove && value is None ==> r == Err::<
                Variable,
                CircuitError,
            >(CircuitError::AssignmentMissing) && *final(self) == *old(self),
            !(old(self).spec_mode() == Mode::Prove && value is None) ==> {
                &&& r == Ok::<Variable, CircuitError>(
                    (Variable { index: old(self).kinds_view().len() as usize }),
                )
                &&& final(self).kinds_view() == old(self).kinds_view().push(kind)
                &&& final(self).assignment_view() == old(self).assignment_view().push(
                    value_or_zero(value),
                )
                &&& final(self).constraints_view() == old(self).constraints_view()
                &&& (old(self).satisfied() ==> final(self).satisfied())
            },
    {
        if self.mode == Mode::Prove && value.is_none() {
            return Err(CircuitError::AssignmentMissing);
        }
        let v = match value {
            Some(v) => v,
            None => 0,
        };
        let ghost pre = *self;
        let idx = self.kinds.len();
        self.kinds.push(kind);
        self.assignment.push(v);
        proof {
            assert(self.constraints_view() == pre.constraints_view());
            assert forall|i: int| 0 <= i < self.constraints_view().len() implies constraint_vars_in(
                #[trigger] self.constraints_view()[i],
                self.num_vars(),
            ) by {
                assert(constraint_vars_in(pre.constraints_view()[i], pre.num_vars()));
            }
            if pre.satisfied() {
                assert forall|i: int|
                    0 <= i < self.constraints_view().len() implies constraint_satisfied(
                    #[trigger] self.constraints_view()[i],
                    self.assignment_view(),
                ) by {
                    assert(constraint_satisfied(pre.constraints_view()[i], pre.assignment_view()));
                    assert(constraint_vars_in(pre.constraints_view()[i], pre.num_vars()));
                    lemma_constraint_prefix(
                        pre.constraints_view()[i],
                        pre.assignment_view(),
                        self.assignment_view(),
                    );
                }
            }
        }
        Ok(Variable { index: idx })
    }

    /// Appends the constraint `a · b = c`. Fails, leaving the system
    /// unchanged, when a combination names an unallocated variable.
    pub fn enforce(&mut self, a: LinearCombination, b: LinearCombination, c: LinearCombination) -> (
        r: Result<(), CircuitError>)
        requires
            old(self).wf(),
        ensures
            final(self).wf(),
            final(self).spec_mode() == old(self).spec_mode(),
            final(self).kinds_view() == old(self).kinds_view(),
            final(self).assignment_view() == old(self).assignment_view(),
            !(lc_vars_in(a.model(), old(self).num_vars()) && lc_vars_in(
                b.model(),
                old(self).num_vars(),
            ) && lc_vars_in(c.model(), old(self).num_vars())) ==> r == Err::<(), CircuitError>(
                CircuitError::UnallocatedVariable,
            ) && *final(self) == *old(self),
            (lc_vars_in(a.model(), old(self).num_vars()) && lc_vars_in(
                b.model(),
                old(self).num_vars(),
            ) && lc_vars_in(c.model(), old(self).num_vars())) ==> {
                &&& r == Ok::<(), CircuitError>(())
                &&& final(self).constraints_view() == old(self).constraints_view().push(
                    (ConstraintModel { a: a.model(), b: b.model(), c: c.model() }),
                )
                &&& (final(self).satisfied() <==> old(self).satisfied() && constraint_satisfied(
                    (ConstraintModel { a: a.model(), b: b.model(), c: c.model() }),
                    old(self).assignment_view(),
                ))
            },
    {
        let n = self.kinds.len();
        if !(lc_vars_ok(&a, n) && lc_vars_ok(&b, n) && lc_vars_ok(&c, n)) {
            return Err(CircuitError::UnallocatedVariable);
        }
        let cst = Constraint { a, b, c };
        let ghost cstg = cst.model();
        let ghost pre = *self;
        self.constraints.push(cst);
        proof {
            assert(self.constraints_view() =~= pre.constraints_view().push(cstg));
            if pre.satisfied() && constraint_satisfied(cstg, pre.assignment_view()) {
                assert forall|i: int|
                    0 <= i < self.constraints_view().len() implies constraint_satisfied(
                    #[trigger] self.constraints_view()[i],
                    self.assignment_view(),
                ) by {
                    if i < pre.constraints_view().len() {
                        assert(constraint_satisfied(
                            pre.constraints_view()[i],
                            pre.assignment_view(),
                        ));
                    } else {
                        assert(self.constraints_view()[i] == cstg);
                    }
                }
            }
            if self.satisfied() {
                assert forall|i: int|
                    0 <= i < pre.constraints_view().len() implies constraint_satisfied(
                    #[trigger] pre.constraints_view()[i],
                    pre.assignment_view(),
                ) by {
                    assert(self.constraints_view()[i] == pre.constraints_view()[i]);
                    assert(constraint_satisfied(
                        self.constraints_view()[i],
                        self.assignment_view(),
                    ));
                }
                assert(constraint_satisfied(cstg, pre.assignment_view())) by {
                    assert(self.constraints_view()[pre.constraints_view().len() as int] == cstg);
                }
            }
        }
        Ok(())
    }

    /// Enforces equality of two variables with one constraint.
    pub fn enforce_equal(&mut self, x: Variable, y: Variable) -> (r: Result<(), CircuitError>)
        requires
            old(self).wf(),
        ensures
            final(self).wf(),
            final(self).spec_mode() == old(self).spec_mode(),
            final(self).kinds_view() == old(self).kinds_view(),
            final(self).assignment_view() == old(self).assignment_view(),
            !(x.index < old(self).num_vars() && y.index < old(self).num_vars()) ==> r == Err::<
                (),
                CircuitError,
            >(CircuitError::UnallocatedVariable) && *final(self) == *old(self),
            (x.index < old(self).num_vars() && y.index < old(self).num_vars()) ==> {
                &&& r == Ok::<(), CircuitError>(())
                &&& final(self).constraints_view() == old(self).constraints_view().push(
                    equal_constraint(x.index as int, y.index as int),
                )
                &&& (final(self).satisfied() <==> old(self).satisfied()
                    && old(self).assignment_view()[x.index as int] == old(
                    self,
                ).assignment_view()[y.index as int])
            },
    {
        let a = make_lc_var(x);
        let b = make_lc_const(1);
        let c = make_lc_var(y);
        let r = self.enforce(a, b, c);
        proof {
            lemma_lc_var_vars(x.index as int, old(self).num_vars());
            lemma_lc_var_vars(y.index as int, old(self).num_vars());
            if x.index < old(self).num_vars() && y.index < old(self).num_vars() {
                let assign = old(self).assignment_view();
                let ec = equal_constraint(x.index as int, y.index as int);
                lemma_eval_lc_var(x.index as int, assign);
                lemma_eval_lc_var(y.index as int, assign);
                lemma_eval_lc_const(1, assign);
                assert(constraint_satisfied(ec, assign) <==> assign[x.index as int]
                    == assign[y.index as int]);
            }
        }
        r
    }

    /// Enforces with one constraint that a variable holds 0 or 1.
    pub fn enforce_boolean(&mut self, x: Variable) -> (r: Result<(), CircuitError>)
        requires
            old(self).wf(),
        ensures
            final(self).wf(),
            final(self).spec_mode() == old(self).spec_mode(),
            final(self).kinds_view() == old(self).kinds_view(),
            final(self).assignment_view() == old(self).assignment_view(),
            !(x.index < old(self).num_vars()) ==> r == Err::<(), CircuitError>(
                CircuitError::UnallocatedVariable,
            ) && *final(self) == *old(self),
            x.index < old(self).num_vars() ==> {
                &&& r == Ok::<(), CircuitError>(())
                &&& final(self).constraints_view() == old(self).constraints_view().push(
                    boolean_constraint(x.index as int),
                )
                &&& (final(self).satisfied() <==> old(self).satisfied() && (old(
                    self,
                ).assignment_view()[x.index as int] == 0 || old(self).assignment_view()[x.index
                    as int] == 1))
            },
    {
        let a = make_lc_var(x);
        let b = make_lc_var(x);
        let c = make_lc_var(x);
        let r = self.enforce(a, b, c);
        proof {
            lemma_lc_var_vars(x.index as int, old(self).num_vars());
            if x.index < old(self).num_vars() {
                let assign = old(self).assignment_view();
                let bc = boolean_constraint(x.index as int);
                let v = assign[x.index as int] as int;
                lemma_eval_lc_var(x.index as int, assign);
                assert((v * v == v) == (v == 0 || v == 1)) by (nonlinear_arith)
                    requires
                        v >= 0,
                ;
                assert(constraint_satisfied(bc, assign) <==> (v == 0 || v == 1));
            }
        }
        r
    }

    /// Enforces with one constraint that a variable holds the constant `k`.
    pub fn enforce_equal_const(&mut self, x: Variable, k: u64) -> (r: Result<(), CircuitError>)
        requires
            old(self).wf(),
        ensures
            final(self).wf(),
            final(self).spec_mode() == old(self).spec_mode(),
            final(self).kinds_view() == old(self).kinds_view(),
            final(self).assignment_view() == old(self).assignment_view(),
            !(x.index < old(self).num_vars()) ==> r == Err::<(), CircuitError>(
                CircuitError::UnallocatedVariable,
            ) && *final(self) == *old(self),
            x.index < old(self).num_vars() ==> {
                &&& r == Ok::<(), CircuitError>(())
                &&& final(self).constraints_view() == old(self).constraints_view().push(
                    equal_const_constraint(x.index as int, k),
                )
                &&& (final(self).satisfied() <==> old(self).satisfied()
                    && old(self).assignment_view()[x.index as int] == k)
            },
    {
        let a = make_lc_var(x);
        let b = make_lc_const(1);
        let c = make_lc_const(k);
        let r = self.enforce(a, b, c);
        proof {
            lemma_lc_var_vars(x.index as int, old(self).num_vars());
            if x.index < old(self).num_vars() {
                let assign = old(self).assignment_view();
                let ec = equal_const_constraint(x.index as int, k);
                lemma_eval_lc_var(x.index as int, assign);
                lemma_eval_lc_const(1, assign);
                lemma_eval_lc_const(k, assign);
                assert(constraint_satisfied(ec, assign) <==> assign[x.index as int] == k);
            }
        }
        r
    }

    /// Enforces with one constraint that `x + y = z`.
    pub fn enforce_sum(&mut self, x: Variable, y: Variable, z: Variable) -> (r: Result<
        (),
        CircuitError,
    >)
        requires
            old(self).wf(),
            x.index < old(self).num_vars(),
            y.index < old(self).num_vars(),
            z.index < old(self).num_vars(),
        ensures
            final(self).wf(),
            final(self).spec_mode() == old(self).spec_mode(),
            final(self).kinds_view() == old(self).kinds_view(),
            final(self).assignment_view() == old(self).assignment_view(),
            r == Ok::<(), CircuitError>(()),
            final(self).constraints_view() == old(self).constraints_view().push(
                sum_constraint(x.index as int, y.index as int, z.index as int),
            ),
            (final(self).satisfied() <==> old(self).satisfied() && (old(
                self,
            ).assignment_view()[x.index as int] as int) + (old(self).assignment_view()[y.index
                as int] as int) == (old(self).assignment_view()[z.index as int] as int)),
    {
        let mut bterms: Vec<Term> = Vec::new();
        bterms.push(Term { coeff: 1, var: x });
        bterms.push(Term { coeff: 1, var: y });
        let b_lc = LinearCombination { constant: 0, terms: bterms };
        let ghost blc = b_lc.model();
        let a_lc = make_lc_const(1);
        let c_lc = make_lc_var(z);
        let ghost sc = sum_constraint(x.index as int, y.index as int, z.index as int);
        let res = self.enforce(a_lc, b_lc, c_lc);
        proof {
            assert(blc.terms =~= sc.b.terms);
            assert(blc == sc.b);
            assert(lc_vars_in(blc, old(self).num_vars())) by {
                assert((blc.terms[0]).var.index < old(self).num_vars());
                assert((blc.terms[1]).var.index < old(self).num_vars());
            }
            lemma_lc_var_vars(z.index as int, old(self).num_vars());
            assert(lc_vars_in(lc_const(1), old(self).num_vars()));
            assert(res == Ok::<(), CircuitError>(()));
            assert((ConstraintModel { a: lc_const(1), b: blc, c: lc_var(z.index as int) }) == sc);
            let assign = old(self).assignment_view();
            lemma_eval_lc_const(1, assign);
            lemma_eval_lc_var(z.index as int, assign);
            lemma_eval_two_terms(sc.b, x.index as int, y.index as int, assign);
            let be = lc_eval(sc.b, assign);
            assert(1 * be == be) by (nonlinear_arith);
        }
        res
    }

    /// Allocates a width-bounded unsigned variable: the value variable of
    /// the given kind, `width` private bit variables, booleanness of each
    /// bit, and the bit-sum binding. In template mode the placeholders are
    /// zero; in proving mode the value must be present and fit the width.
    pub fn alloc_uint(&mut self, kind: VarKind, value: Option<u64>, width: usize) -> (r: Result<
        UIntVar,
        CircuitError,
    >)
        requires
            old(self).wf(),
        ensures
            final(self).wf(),
            final(self).spec_mode() == old(self).spec_mode(),
            (width == 0 || width > 64) ==> r == Err::<UIntVar, CircuitError>(
                CircuitError::WidthMismatch,
            ) && *final(self) == *old(self),
            1 <= width <= 64 ==> {
                &&& (old(self).spec_mode() == Mode::Prove && value is None ==> r == Err::<
                    UIntVar,
                    CircuitError,
                >(CircuitError::AssignmentMissing) && *final(self) == *old(self))
                &&& (old(self).spec_mode() == Mode::Prove && value is Some && (value_or_zero(value)
                    as nat) >= pow2(width as nat) ==> r == Err::<UIntVar, CircuitError>(
                    CircuitError::WidthMismatch,
                ) && *final(self) == *old(self))
                &&& (uint_alloc_ok(old(self).spec_mode(), value, width as nat) ==> {
                    &&& r == Ok::<UIntVar, CircuitError>(
                        (UIntVar {
                            var: (Variable { index: old(self).kinds_view().len() as usize }),
                            width,
                        }),
                    )
                    &&& final(self).kinds_view() == old(self).kinds_view().push(kind) + Seq::new(
                        width as nat,
                        |i: int| VarKind::Private,
                    )
                    &&& final(self).constraints_view() == old(self).constraints_view()
                        + uint_constraints(
                        old(self).num_vars() as int,
                        old(self).num_vars() as int + 1,
                        width as nat,
                    )
                    &&& final(self).assignment_view().len() == old(self).assignment_view().len() + 1
                        + width
                    &&& (forall|j: int|
                        0 <= j < old(self).assignment_view().len()
                            ==> final(self).assignment_view()[j]
                            == old(self).assignment_view()[j])
                    &&& final(self).assignment_view()[old(self).num_vars() as int]
                        == uint_alloc_value(old(self).spec_mode(), value)
                    &&& (old(self).satisfied() ==> final(self).satisfied())
                })
            },
    {
        if width == 0 || width > 64 {
            return Err(CircuitError::WidthMismatch);
        }
        let v: u64 = if self.mode == Mode::Prove {
            match value {
                None => {
                    return Err(CircuitError::AssignmentMissing);
                },
                Some(v) => v,
            }
        } else {
            0
        };
        let mut bits: Vec<u64> = Vec::new();
        let mut rem: u64 = v;
        let mut k: usize = 0;
        proof {
            lemma2_to64();
        }
        while k < width
            invariant
                width <= 64,
                0 <= k <= width,
                bits@.len() == k,
                forall|t: int| 0 <= t < k ==> bits@[t] == 0 || bits@[t] == 1,
                v as int == bits_sum(bits@) + (rem as int) * pow2(k as nat),
            decreases width - k,
        {
            let b = rem % 2;
            let rem2 = rem / 2;
            proof {
                lemma_pow2_unfold((k + 1) as nat);
                assert(bits_sum(bits@.push(b)) == bits_sum(bits@) + (b as int) * pow2(k as nat))
                    by {
                    assert(bits@.push(b).drop_last() =~= bits@);
                }
                assert((rem as int) * pow2(k as nat) == (rem2 as int) * pow2((k + 1) as nat) + (
                b as int) * pow2(k as nat)) by (nonlinear_arith)
                    requires
                        rem == 2 * rem2 + b,
                        pow2((k + 1) as nat) == 2 * pow2(k as nat),
                ;
            }
            bits.push(b);
            rem = rem2;
            k += 1;
        }
        if rem != 0 {
            proof {
                lemma_bits_sum_bounds(bits@);
                lemma_pow2_pos(width as nat);
                assert((rem as int) * pow2(width as nat) >= pow2(width as nat))
                    by (nonlinear_arith)
                    requires
                        rem >= 1,
                        pow2(width as nat) > 0,
                ;
                assert((v as nat) >= pow2(width as nat));
            }
            return Err(CircuitError::WidthMismatch);
        }
        proof {
            lemma_bits_sum_bounds(bits@);
            assert(v as int == bits_sum(bits@));
            assert((v as nat) < pow2(width as nat));
        }
        let ghost pre = *self;
        let x = match self.allocate(kind, Some(v)) {
            Ok(x) => x,
            Err(e) => {
                proof {
                    assert(false);
                }
                return Err(e);
            },
        };
        let ghost mid = *self;
        let first = self.kinds.len();
        let mut terms: Vec<Term> = Vec::new();
        let mut coeff: u64 = 1;
        let mut k2: usize = 0;
        proof {
            lemma2_to64();
            assert(Seq::new(0nat, |i: int| VarKind::Private) =~= Seq::<VarKind>::empty());
            assert(Seq::new(0nat, |i: int| boolean_constraint(first + i)) =~= Seq::<
                ConstraintModel,
            >::empty());
            assert(bit_sum_terms(first as int, 0nat) =~= Seq::<Term>::empty());
            assert(mid.kinds_view() =~= mid.kinds_view() + Seq::new(0nat, |i: int| VarKind::Private));
            assert(mid.constraints_view() =~= mid.constraints_view() + Seq::new(
                0nat,
                |i: int| boolean_constraint(first + i),
            ));
            assert(mid.assignment_view() =~= mid.assignment_view() + bits@.subrange(0, 0));
        }
        while k2 < width
            invariant
                width <= 64,
                0 <= k2 <= width,
                bits@.len() == width,
                forall|t: int| 0 <= t < width ==> bits@[t] == 0 || bits@[t] == 1,
                v as int == bits_sum(bits@),
                mid.wf(),
                self.wf(),
                self.spec_mode() == mid.spec_mode(),
                first == mid.num_vars(),
                first == x.index + 1,
                x.index == pre.num_vars(),
                mid.assignment_view().len() == mid.num_vars(),
                mid.assignment_view()[x.index as int] == v,
                self.kinds_view() =~= mid.kinds_view() + Seq::new(
                    k2 as nat,
                    |i: int| VarKind::Private,
                ),
                self.assignment_view() =~= mid.assignment_view() + bits@.subrange(0, k2 as int),
                self.constraints_view() =~= mid.constraints_view() + Seq::new(
                    k2 as nat,
                    |i: int| boolean_constraint(first + i),
                ),
                (mid.satisfied() ==> self.satisfied()),
                terms@ =~= bit_sum_terms(first as int, k2 as nat),
                k2 < width ==> coeff as int == pow2(k2 as nat),
            decreases width - k2,
        {
            let ghost before = *self;
            let bi = self.kinds.len();
            proof {
                assert(bi == first + k2);
            }
            let bvar = match self.allocate(VarKind::Private, Some(bits[k2])) {
                Ok(bv) => bv,
                Err(e) => {
                    proof {
                        assert(false);
                    }
                    return Err(e);
                },
            };
            let ghost after_alloc = *self;
            proof {
                assert(bvar.index == bi);
            }
            let res = self.enforce_boolean(bvar);
            proof {
                assert(res == Ok::<(), CircuitError>(()));
            }
            terms.push(Term { coeff, var: bvar });
            proof {
                assert(self.kinds_view() =~= mid.kinds_view() + Seq::new(
                    (k2 + 1) as nat,
                    |i: int| VarKind::Private,
                ));
                assert(self.assignment_view() =~= mid.assignment_view() + bits@.subrange(
                    0,
                    k2 as int + 1,
                ));
                assert(self.constraints_view() =~= mid.constraints_view() + Seq::new(
                    (k2 + 1) as nat,
                    |i: int| boolean_constraint(first + i),
                ));
                assert(terms@ =~= bit_sum_terms(first as int, (k2 + 1) as nat));
                if mid.satisfied() {
                    assert(before.satisfied());
                    assert(after_alloc.satisfied());
                    assert(after_alloc.assignment_view()[bvar.index as int] == bits@[k2 as int]);
                    assert(self.satisfied());
                }
            }
            if k2 + 1 < width {
                proof {
                    lemma2_to64();
                    lemma_pow2_unfold((k2 + 1) as nat);
                    lemma_pow2_strictly_increases((k2 + 1) as nat, 64);
                    assert(2 * pow2(k2 as nat) == pow2((k2 + 1) as nat));
                }
                coeff = coeff * 2;
            }
            k2 += 1;
        }
        let b_lc = LinearCombination { constant: 0, terms };
        let a_lc = make_lc_const(1);
        let c_lc = make_lc_var(x);
        let nv = self.kinds.len();
        let ghost snap = *self;
        let ghost blc = b_lc.model();
        let res = self.enforce(a_lc, b_lc, c_lc);
        proof {
            assert(nv == first + width);
            assert(first + width <= usize::MAX);
            assert(lc_vars_in(blc, snap.num_vars())) by {
                assert forall|i: int| 0 <= i < blc.terms.len() implies (#[trigger] blc.terms[i]).var.index
                    < snap.num_vars() by {
                    assert(blc.terms[i] == bit_sum_terms(first as int, width as nat)[i]);
                    assert(((first + i) as usize) as int == first + i);
                }
            }
            lemma_lc_var_vars(x.index as int, snap.num_vars());
            assert(lc_vars_in(lc_const(1), snap.num_vars()));
            assert(res == Ok::<(), CircuitError>(()));
            assert(self.constraints_view() =~= pre.constraints_view() + uint_constraints(
                pre.num_vars() as int,
                pre.num_vars() as int + 1,
                width as nat,
            )) by {
                assert(snap.constraints_view() =~= pre.constraints_view() + Seq::new(
                    width as nat,
                    |i: int| boolean_constraint(first + i),
                ));
                assert((ConstraintModel { a: lc_const(1), b: blc, c: lc_var(x.index as int) })
                    == bit_sum_constraint(first as int, width as nat, x.index as int));
            }
            assert(self.kinds_view() =~= pre.kinds_view().push(kind) + Seq::new(
                width as nat,
                |i: int| VarKind::Private,
            ));
            assert(self.assignment_view().len() == pre.assignment_view().len() + 1 + width);
            assert forall|j: int| 0 <= j < pre.assignment_view().len() implies
                self.assignment_view()[j] == pre.assignment_view()[j] by {
                assert(mid.assignment_view()[j] == pre.assignment_view()[j]);
            }
            assert(self.assignment_view()[pre.num_vars() as int] == v);
            if pre.satisfied() {
                assert(mid.satisfied());
                assert(snap.satisfied());
                assert(constraint_satisfied(
                    bit_sum_constraint(first as int, width as nat, x.index as int),
                    snap.assignment_view(),
                )) by {
                    lemma_eval_lc_const(1, snap.assignment_view());
                    lemma_eval_lc_var(x.index as int, snap.assignment_view());
                    assert forall|t: int| 0 <= t < width implies snap.assignment_view()[first + t]
                        == bits@[t] by {
                        assert(bits@.subrange(0, width as int)[t] == bits@[t]);
                    }
                    lemma_bit_sum_terms_eval(
                        first as int,
                        width as nat,
                        snap.assignment_view(),
                        bits@,
                    );
                    assert(snap.assignment_view()[x.index as int] == v);
                    let s = bits_sum(bits@);
                    assert(1 * s == s) by (nonlinear_arith);
                }
                assert(self.satisfied());
            }
        }
        Ok(UIntVar { var: x, width })
    }

    /// Enforces the strict comparison `x > y` on two unsigned variables of
    /// the same width: a private width-bounded difference variable, linked by
    /// one constraint so that `x = y + 1 + difference`. In proving mode the
    /// gadget fails with `Underflow` when the recorded values do not satisfy
    /// `x > y`: a witness for a false comparison cannot be built.
    pub fn enforce_greater(&mut self, x: UIntVar, y: UIntVar) -> (r: Result<(), CircuitError>)
        requires
            old(self).wf(),
            x.var.index < old(self).num_vars(),
            y.var.index < old(self).num_vars(),
            1 <= x.width <= 64,
        ensures
            final(self).wf(),
            final(self).spec_mode() == old(self).spec_mode(),
            x.width != y.width ==> r == Err::<(), CircuitError>(CircuitError::WidthMismatch)
                && *final(self) == *old(self),
            x.width == y.width ==> ({
                let xv = old(self).assignment_view()[x.var.index as int];
                let yv = old(self).assignment_view()[y.var.index as int];
                &&& (old(self).spec_mode() == Mode::Prove && xv <= yv ==> r == Err::<
                    (),
                    CircuitError,
                >(CircuitError::Underflow) && *final(self) == *old(self))
                &&& (old(self).spec_mode() == Mode::Prove && xv > yv && ((xv - yv - 1) as nat)
                    >= pow2(x.width as nat) ==> r == Err::<(), CircuitError>(
                    CircuitError::WidthMismatch,
                ) && *final(self) == *old(self))
                &&& ((old(self).spec_mode() == Mode::Template || (xv > yv && ((xv - yv - 1) as nat)
                    < pow2(x.width as nat))) ==> {
                    &&& r == Ok::<(), CircuitError>(())
                    &&& final(self).kinds_view() == old(self).kinds_view() + Seq::new(
                        (x.width + 1) as nat,
                        |i: int| VarKind::Private,
                    )
                    &&& final(self).constraints_view() == old(self).constraints_view()
                        + greater_constraints(
                        x.var.index as int,
                        y.var.index as int,
                        old(self).num_vars() as int,
                        x.width as nat,
                    )
                    &&& final(self).assignment_view().len() == old(self).assignment_view().len() + 1
                        + x.width
                    &&& (forall|j: int|
                        0 <= j < old(self).assignment_view().len()
                            ==> final(self).assignment_view()[j]
                            == old(self).assignment_view()[j])
                    &&& (old(self).spec_mode() == Mode::Prove && old(self).satisfied()
                        ==> final(self).satisfied())
                })
            }),
    {
        if x.width != y.width {
            return Err(CircuitError::WidthMismatch);
        }
        let w = x.width;
        let dval: Option<u64> = if self.mode == Mode::Prove {
            let xv = self.assignment[x.var.index];
            let yv = self.assignment[y.var.index];
            if xv <= yv {
                return Err(CircuitError::Underflow);
            }
            Some(xv - yv - 1)
        } else {
            None
        };
        let ghost pre = *self;
        let base = self.kinds.len();
        let d = match self.alloc_uint(VarKind::Private, dval, w) {
            Ok(d) => d,
            Err(e) => {
                return Err(e);
            },
        };
        proof {
            assert(d.var.index == base);
        }
        let mut bterms: Vec<Term> = Vec::new();
        bterms.push(Term { coeff: 1, var: y.var });
        bterms.push(Term { coeff: 1, var: d.var });
        let b_lc = LinearCombination { constant: 1, terms: bterms };
        let ghost blc = b_lc.model();
        let a_lc = make_lc_const(1);
        let c_lc = make_lc_var(x.var);
        let ghost mid = *self;
        let ghost link = greater_link_constraint(
            x.var.index as int,
            y.var.index as int,
            pre.num_vars() as int,
        );
        let res = self.enforce(a_lc, b_lc, c_lc);
        proof {
            assert(d.var.index == pre.num_vars());
            assert(blc.terms =~= link.b.terms);
            assert(blc == link.b);
            assert(lc_vars_in(blc, mid.num_vars())) by {
                assert((blc.terms[0]).var.index < mid.num_vars());
                assert((blc.terms[1]).var.index < mid.num_vars());
            }
            lemma_lc_var_vars(x.var.index as int, mid.num_vars());
            assert(lc_vars_in(lc_const(1), mid.num_vars()));
            assert(res == Ok::<(), CircuitError>(()));
            assert((ConstraintModel { a: lc_const(1), b: blc, c: lc_var(x.var.index as int) })
                == link);
            assert(self.constraints_view() =~= pre.constraints_view() + greater_constraints(
                x.var.index as int,
                y.var.index as int,
                pre.num_vars() as int,
                w as nat,
            ));
            assert(self.kinds_view() =~= pre.kinds_view() + Seq::new(
                (w + 1) as nat,
                |i: int| VarKind::Private,
            ));
            if pre.spec_mode() == Mode::Prove && pre.satisfied() {
                assert(mid.satisfied());
                let assign = mid.assignment_view();
                assert(constraint_satisfied(link, assign)) by {
                    lemma_eval_lc_const(1, assign);
                    lemma_eval_lc_var(x.var.index as int, assign);
                    lemma_eval_two_terms(
                        link.b,
                        y.var.index as int,
                        pre.num_vars() as int,
                        assign,
                    );
                    assert(assign[x.var.index as int] == pre.assignment_view()[x.var.index as int]);
                    assert(assign[y.var.index as int] == pre.assignment_view()[y.var.index as int]);
                    assert(assign[pre.num_vars() as int] == value_or_zero(dval));
                    let be = lc_eval(link.b, assign);
                    assert(1 * be == be) by (nonlinear_arith);
                }
                assert(self.satisfied());
            }
        }
        Ok(())
    }
}

} // verus!
