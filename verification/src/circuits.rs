//! Predicate circuits.
//!
//! Each circuit is a pure mapping from its inputs to a fixed sequence of
//! constraint-system operations: the allocation order and the emitted
//! constraints are a function of the input lengths alone, never of the
//! values, so a template-mode run for key generation and a proving-mode run
//! for the same inputs produce the identical shape.

use vstd::prelude::*;
use vstd::arithmetic::power2::lemma2_to64;
use crate::r1cs::boolean_constraint;
use crate::r1cs::constraint_satisfied;
use crate::r1cs::equal_const_constraint;
use crate::r1cs::greater_constraints;
use crate::r1cs::lemma_eval_two_terms;
use crate::r1cs::lemma_eval_lc_const;
use crate::r1cs::lemma_eval_lc_var;
use crate::r1cs::lemma_greater_constraints_sound;
use crate::r1cs::sum_constraint;
use crate::r1cs::uint_alloc_value;
use crate::r1cs::uint_constraints;
use crate::r1cs::CircuitError;
use crate::r1cs::ConstraintModel;
use crate::r1cs::ConstraintSystem;
use crate::r1cs::Mode;
use crate::r1cs::VarKind;

verus! {

/// The kinds a width-bounded allocation appends: the value variable, then
/// its private bits.
pub open spec fn uint_kinds(kind: VarKind, width: nat) -> Seq<VarKind> {
    seq![kind] + Seq::new(width, |i: int| VarKind::Private)
}

/// The kinds the age circuit appends: private birth year, public current
/// year, public minimum age, private age, each 32-bit-decomposed, then the
/// private comparison difference with its bits.
pub open spec fn age_kinds() -> Seq<VarKind> {
    uint_kinds(VarKind::Private, 32) + uint_kinds(VarKind::Public, 32) + uint_kinds(
        VarKind::Public,
        32,
    ) + uint_kinds(VarKind::Private, 32) + Seq::new(33nat, |i: int| VarKind::Private)
}

/// The constraints the age circuit appends when its first variable is
/// allocated at `base`: the four 32-bit range decompositions, the
/// subtraction binding `birth + age = current`, and the strict comparison
/// `age > minimum`.
pub open spec fn age_circuit_constraints(base: int) -> Seq<ConstraintModel> {
    uint_constraints(base, base + 1, 32) + uint_constraints(base + 33, base + 34, 32)
        + uint_constraints(base + 66, base + 67, 32) + uint_constraints(base + 99, base + 100, 32)
        + seq![sum_constraint(base, base + 99, base + 33)] + greater_constraints(
        base + 99,
        base + 66,
        base + 132,
        32,
    )
}

/// An age-threshold predicate: the private birth year, and the public
/// current year and minimum age. A field left `None` builds a template.
#[derive(Debug, Clone, Copy)]
pub struct AgeVerificationCircuit {
    pub birth_year: Option<u32>,
    pub current_year: Option<u32>,
    pub minimum_age: Option<u32>,
}

impl AgeVerificationCircuit {
    /// Emits the circuit: allocations in the fixed order (private evidence
    /// first, then public values), the width-checked subtraction
    /// `age = current_year - birth_year`, and the strict comparison
    /// `age > minimum_age`. In proving mode an absent value fails with
    /// `AssignmentMissing`, a birth year after the current year fails with
    /// `Underflow`, and an age not above the minimum fails with `Underflow`:
    /// such a witness cannot be built.
    #[verifier::rlimit(50)]
    pub fn generate_constraints(&self, cs: &mut ConstraintSystem) -> (r: Result<(), CircuitError>)
        requires
            old(cs).wf(),
        ensures
            final(cs).wf(),
            final(cs).spec_mode() == old(cs).spec_mode(),
            old(cs).spec_mode() == Mode::Prove ==> {
                &&& ((self.birth_year is None || self.current_year is None || self.minimum_age
                    is None) ==> r == Err::<(), CircuitError>(CircuitError::AssignmentMissing)
                    && *final(cs) == *old(cs))
                &&& (self.birth_year matches Some(b) ==> self.current_year matches Some(c)
                    ==> self.minimum_age matches Some(m) ==> {
                    &&& (b > c ==> r == Err::<(), CircuitError>(CircuitError::Underflow))
                    &&& (b <= c && (c - b) <= m ==> r == Err::<(), CircuitError>(
                        CircuitError::Underflow,
                    ))
                    &&& (b <= c && (c - b) > m ==> {
                        &&& r == Ok::<(), CircuitError>(())
                        &&& final(cs).kinds_view() == old(cs).kinds_view() + age_kinds()
                        &&& final(cs).constraints_view() == old(cs).constraints_view()
                            + age_circuit_constraints(old(cs).num_vars() as int)
                        &&& final(cs).assignment_view()[old(cs).num_vars() as int + 33] == c as u64
                        &&& final(cs).assignment_view()[old(cs).num_vars() as int + 66] == m as u64
                        &&& (old(cs).satisfied() ==> final(cs).satisfied())
                    })
                })
            },
            old(cs).spec_mode() == Mode::Template ==> {
                &&& r == Ok::<(), CircuitError>(())
                &&& final(cs).kinds_view() == old(cs).kinds_view() + age_kinds()
                &&& final(cs).constraints_view() == old(cs).constraints_view()
                    + age_circuit_constraints(old(cs).num_vars() as int)
            },
    {
        let is_prove = cs.mode_of() == Mode::Prove;
        if is_prove && (self.birth_year.is_none() || self.current_year.is_none()
            || self.minimum_age.is_none()) {
            return Err(CircuitError::AssignmentMissing);
        }
        proof {
            lemma2_to64();
        }
        let ghost s0 = *cs;
        let base_e = cs.num_variables();
        let birth = match cs.alloc_uint(VarKind::Private, opt_u64(self.birth_year), 32) {
            Ok(v) => v,
            Err(e) => {
                proof {
                    assert(false);
                }
                return Err(e);
            },
        };
        let ghost s1 = *cs;
        let c_i = cs.num_variables();
        let current = match cs.alloc_uint(VarKind::Public, opt_u64(self.current_year), 32) {
            Ok(v) => v,
            Err(e) => {
                proof {
                    assert(false);
                }
                return Err(e);
            },
        };
        let ghost s2 = *cs;
        let m_i = cs.num_variables();
        let minimum = match cs.alloc_uint(VarKind::Public, opt_u64(self.minimum_age), 32) {
            Ok(v) => v,
            Err(e) => {
                proof {
                    assert(false);
                }
                return Err(e);
            },
        };
        let ghost s3 = *cs;
        proof {
            assert(birth.var.index == base_e);
            assert(current.var.index == c_i && c_i as int == base_e as int + 33);
            assert(minimum.var.index == m_i && m_i as int == base_e as int + 66);
        }
        let age_opt: Option<u64> = if is_prove {
            let bv = match self.birth_year {
                Some(v) => v,
                None => {
                    proof {
                        assert(false);
                    }
                    return Err(CircuitError::AssignmentMissing);
                },
            };
            let cv = match self.current_year {
                Some(v) => v,
                None => {
                    proof {
                        assert(false);
                    }
                    return Err(CircuitError::AssignmentMissing);
                },
            };
            if bv > cv {
                return Err(CircuitError::Underflow);
            }
            Some((cv - bv) as u64)
        } else {
            None
        };
        let a_i = cs.num_variables();
        let age = match cs.alloc_uint(VarKind::Private, age_opt, 32) {
            Ok(v) => v,
            Err(e) => {
                proof {
                    assert(false);
                }
                return Err(e);
            },
        };
        let ghost s4 = *cs;
        proof {
            assert(age.var.index == a_i && a_i as int == base_e as int + 99);
            if is_prove {
                assert(s4.assignment_view()[age.var.index as int] == uint_alloc_value(
                    Mode::Prove,
                    age_opt,
                ));
                assert(s3.assignment_view()[minimum.var.index as int] == uint_alloc_value(
                    Mode::Prove,
                    opt_u64_spec(self.minimum_age),
                ));
                assert(s4.assignment_view()[minimum.var.index as int]
                    == s3.assignment_view()[minimum.var.index as int]);
                assert(s2.assignment_view()[current.var.index as int] == uint_alloc_value(
                    Mode::Prove,
                    opt_u64_spec(self.current_year),
                ));
                assert(s3.assignment_view()[current.var.index as int]
                    == s2.assignment_view()[current.var.index as int]);
                assert(s4.assignment_view()[current.var.index as int]
                    == s3.assignment_view()[current.var.index as int]);
                assert(s1.assignment_view()[birth.var.index as int] == uint_alloc_value(
                    Mode::Prove,
                    opt_u64_spec(self.birth_year),
                ));
                assert(s2.assignment_view()[birth.var.index as int]
                    == s1.assignment_view()[birth.var.index as int]);
                assert(s3.assignment_view()[birth.var.index as int]
                    == s2.assignment_view()[birth.var.index as int]);
                assert(s4.assignment_view()[birth.var.index as int]
                    == s3.assignment_view()[birth.var.index as int]);
            }
        }
        let rs = cs.enforce_sum(birth.var, age.var, current.var);
        proof {
            assert(rs == Ok::<(), CircuitError>(()));
        }
        let ghost s5 = *cs;
        proof {
            if is_prove {
                assert(s5.assignment_view() == s4.assignment_view());
            }
        }
        match cs.enforce_greater(age, minimum) {
            Ok(()) => {},
            Err(e) => {
                return Err(e);
            },
        }
        proof {
            let base = s0.num_vars() as int;
            assert(cs.kinds_view() =~= s0.kinds_view() + age_kinds());
            assert(cs.constraints_view() =~= s0.constraints_view() + age_circuit_constraints(base));
            if is_prove {
                assert(s2.assignment_view()[base + 33] == uint_alloc_value(
                    Mode::Prove,
                    opt_u64_spec(self.current_year),
                ));
                assert(s3.assignment_view()[base + 33] == s2.assignment_view()[base + 33]);
                assert(s4.assignment_view()[base + 33] == s3.assignment_view()[base + 33]);
                assert(cs.assignment_view()[base + 33] == s4.assignment_view()[base + 33]);
                assert(s3.assignment_view()[base + 66] == uint_alloc_value(
                    Mode::Prove,
                    opt_u64_spec(self.minimum_age),
                ));
                assert(s4.assignment_view()[base + 66] == s3.assignment_view()[base + 66]);
                assert(cs.assignment_view()[base + 66] == s4.assignment_view()[base + 66]);
                if s0.satisfied() {
                    assert(s1.satisfied());
                    assert(s2.satisfied());
                    assert(s3.satisfied());
                    assert(s4.satisfied());
                    assert(s1.assignment_view()[base] == uint_alloc_value(
                        Mode::Prove,
                        opt_u64_spec(self.birth_year),
                    ));
                    assert(s2.assignment_view()[base] == s1.assignment_view()[base]);
                    assert(s3.assignment_view()[base] == s2.assignment_view()[base]);
                    assert(s4.assignment_view()[base] == s3.assignment_view()[base]);
                    assert(s4.assignment_view()[base + 99] == uint_alloc_value(
                        Mode::Prove,
                        age_opt,
                    ));
                    assert(s5.satisfied());
                    assert(cs.satisfied());
                }
            }
        }
        Ok(())
    }
}

/// An optional 32-bit value widened for allocation.
pub open spec fn opt_u64_spec(v: Option<u32>) -> Option<u64> {
    match v {
        Option::Some(x) => Option::Some(x as u64),
        Option::None => Option::None,
    }
}

/// The exec mirror of [`opt_u64_spec`].
fn opt_u64(v: Option<u32>) -> (r: Option<u64>)
    ensures
        r == opt_u64_spec(v),
{
    match v {
        Some(x) => Some(x as u64),
        None => None,
    }
}

/// The kinds a byte-vector allocation appends: per byte, one value variable
/// of the given kind and its eight private bits.
pub open spec fn byte_vec_kinds(kind: VarKind, n: nat) -> Seq<VarKind>
    decreases n,
{
    if n == 0 {
        Seq::empty()
    } else {
        byte_vec_kinds(kind, (n - 1) as nat) + uint_kinds(kind, 8)
    }
}

/// The constraints a byte-vector allocation starting at `base` appends: per
/// byte an eight-bit range decomposition.
pub open spec fn byte_vec_constraints(base: int, n: nat) -> Seq<ConstraintModel>
    decreases n,
{
    if n == 0 {
        Seq::empty()
    } else {
        byte_vec_constraints(base, (n - 1) as nat) + uint_constraints(
            base + 9 * (n - 1),
            base + 9 * (n - 1) + 1,
            8,
        )
    }
}

/// A byte-vector allocation appends nine variables per byte.
pub proof fn lemma_byte_vec_kinds_len(kind: VarKind, n: nat)
    ensures
        byte_vec_kinds(kind, n).len() == 9 * n,
    decreases n,
{
    if n > 0 {
        lemma_byte_vec_kinds_len(kind, (n - 1) as nat);
    }
}

/// A byte-vector allocation appends nine constraints per byte.
pub proof fn lemma_byte_vec_constraints_len(base: int, n: nat)
    ensures
        byte_vec_constraints(base, n).len() == 9 * n,
    decreases n,
{
    if n > 0 {
        lemma_byte_vec_constraints_len(base, (n - 1) as nat);
    }
}

/// The length of an optional byte vector; empty when absent.
pub open spec fn opt_bytes_len(o: Option<Vec<u8>>) -> nat {
    match o {
        Option::Some(v) => v@.len(),
        Option::None => 0,
    }
}

/// The kinds the credential circuit appends: private document-hash and
/// signature bytes, public key bytes, then the public outcome variable.
pub open spec fn kyc_kinds(nd: nat, ns: nat, np: nat) -> Seq<VarKind> {
    byte_vec_kinds(VarKind::Private, nd) + byte_vec_kinds(VarKind::Private, ns) + byte_vec_kinds(
        VarKind::Public,
        np,
    ) + seq![VarKind::Public]
}

/// The constraints the credential circuit appends when its first variable is
/// allocated at `base`: the byte range decompositions, then booleanness of
/// the outcome variable and the binding of the outcome to true.
pub open spec fn kyc_constraints(base: int, nd: nat, ns: nat, np: nat) -> Seq<ConstraintModel> {
    let res = base + 9 * (nd + ns + np);
    byte_vec_constraints(base, nd) + byte_vec_constraints(base + 9 * nd, ns)
        + byte_vec_constraints(base + 9 * (nd + ns), np) + seq![
        boolean_constraint(res),
        equal_const_constraint(res, 1),
    ]
}

/// Allocates one range-checked variable per byte of `bytes`.
fn alloc_bytes(cs: &mut ConstraintSystem, kind: VarKind, bytes: &Vec<u8>) -> (r: Result<
    (),
    CircuitError,
>)
    requires
        old(cs).wf(),
    ensures
        final(cs).wf(),
        final(cs).spec_mode() == old(cs).spec_mode(),
        r == Ok::<(), CircuitError>(()),
        final(cs).kinds_view() == old(cs).kinds_view() + byte_vec_kinds(kind, bytes@.len()),
        final(cs).constraints_view() == old(cs).constraints_view() + byte_vec_constraints(
            old(cs).num_vars() as int,
            bytes@.len(),
        ),
        final(cs).assignment_view().len() == old(cs).assignment_view().len() + 9 * bytes@.len(),
        forall|j: int|
            0 <= j < old(cs).assignment_view().len() ==> final(cs).assignment_view()[j] == old(
                cs,
            ).assignment_view()[j],
        old(cs).satisfied() ==> final(cs).satisfied(),
{
    let ghost pre = *cs;
    let n = bytes.len();
    let mut k: usize = 0;
    proof {
        assert(byte_vec_kinds(kind, 0nat) =~= Seq::<VarKind>::empty());
        assert(byte_vec_constraints(pre.num_vars() as int, 0nat) =~= Seq::<
            ConstraintModel,
        >::empty());
        assert(cs.kinds_view() =~= pre.kinds_view() + byte_vec_kinds(kind, 0nat));
        assert(cs.constraints_view() =~= pre.constraints_view() + byte_vec_constraints(
            pre.num_vars() as int,
            0nat,
        ));
    }
    while k < n
        invariant
            pre.wf(),
            cs.wf(),
            cs.spec_mode() == pre.spec_mode(),
            n == bytes@.len(),
            0 <= k <= n,
            cs.kinds_view() =~= pre.kinds_view() + byte_vec_kinds(kind, k as nat),
            cs.constraints_view() =~= pre.constraints_view() + byte_vec_constraints(
                pre.num_vars() as int,
                k as nat,
            ),
            cs.assignment_view().len() == pre.assignment_view().len() + 9 * k,
            forall|j: int|
                0 <= j < pre.assignment_view().len() ==> cs.assignment_view()[j]
                    == pre.assignment_view()[j],
            pre.satisfied() ==> cs.satisfied(),
        decreases n - k,
    {
        proof {
            lemma2_to64();
            lemma_byte_vec_kinds_len(kind, k as nat);
        }
        let ghost before = *cs;
        let res = cs.alloc_uint(kind, Some(bytes[k] as u64), 8);
        match res {
            Ok(_) => {},
            Err(e) => {
                proof {
                    assert(false);
                }
                return Err(e);
            },
        }
        proof {
            assert(before.num_vars() == pre.num_vars() + 9 * k);
            assert(byte_vec_kinds(kind, (k + 1) as nat) == byte_vec_kinds(kind, k as nat)
                + uint_kinds(kind, 8));
            assert(cs.kinds_view() =~= pre.kinds_view() + byte_vec_kinds(kind, (k + 1) as nat));
            assert(byte_vec_constraints(pre.num_vars() as int, (k + 1) as nat)
                == byte_vec_constraints(pre.num_vars() as int, k as nat) + uint_constraints(
                pre.num_vars() as int + 9 * (k as int),
                pre.num_vars() as int + 9 * (k as int) + 1,
                8,
            ));
            assert(cs.constraints_view() =~= pre.constraints_view() + byte_vec_constraints(
                pre.num_vars() as int,
                (k + 1) as nat,
            ));
            assert forall|j: int| 0 <= j < pre.assignment_view().len() implies
                cs.assignment_view()[j] == pre.assignment_view()[j] by {
                assert(cs.assignment_view()[j] == before.assignment_view()[j]);
            }
        }
        k += 1;
    }
    Ok(())
}

/// A credential-validity predicate: private document hash and signature
/// bytes, public key bytes, and a public boolean outcome. The circuit wires
/// the evidence and enforces that the outcome is true; it does not itself
/// bind hash, signature and key cryptographically — a production circuit
/// must replace the final equality with a real signature-verification
/// gadget. A field left `None` builds a template with empty byte vectors.
#[derive(Debug, Clone)]
pub struct KYCVerificationCircuit {
    pub document_hash: Option<Vec<u8>>,
    pub signature: Option<Vec<u8>>,
    pub public_key: Option<Vec<u8>>,
    pub verification_result: Option<bool>,
}

impl KYCVerificationCircuit {
    /// Emits the circuit: the evidence bytes in fixed order (private
    /// document hash, private signature, public key), then the public
    /// outcome, constrained boolean and equal to true. In proving mode an
    /// absent field fails with `AssignmentMissing`; the shape depends only
    /// on the byte-vector lengths.
    #[verifier::rlimit(50)]
    pub fn generate_constraints(&self, cs: &mut ConstraintSystem) -> (r: Result<(), CircuitError>)
        requires
            old(cs).wf(),
        ensures
            final(cs).wf(),
            final(cs).spec_mode() == old(cs).spec_mode(),
            old(cs).spec_mode() == Mode::Prove ==> {
                &&& ((self.document_hash is None || self.signature is None || self.public_key
                    is None || self.verification_result is None) ==> r == Err::<(), CircuitError>(
                    CircuitError::AssignmentMissing,
                ) && *final(cs) == *old(cs))
                &&& (!(self.document_hash is None || self.signature is None || self.public_key
                    is None || self.verification_result is None) ==> {
                    &&& r == Ok::<(), CircuitError>(())
                    &&& final(cs).kinds_view() == old(cs).kinds_view() + kyc_kinds(
                        opt_bytes_len(self.document_hash),
                        opt_bytes_len(self.signature),
                        opt_bytes_len(self.public_key),
                    )
                    &&& final(cs).constraints_view() == old(cs).constraints_view()
                        + kyc_constraints(
                        old(cs).num_vars() as int,
                        opt_bytes_len(self.document_hash),
                        opt_bytes_len(self.signature),
                        opt_bytes_len(self.public_key),
                    )
                    &&& (old(cs).satisfied() ==> (final(cs).satisfied()
                        <==> self.verification_result == Some(true)))
                })
            },
            old(cs).spec_mode() == Mode::Template ==> {
                &&& r == Ok::<(), CircuitError>(())
                &&& final(cs).kinds_view() == old(cs).kinds_view() + kyc_kinds(
                    opt_bytes_len(self.document_hash),
                    opt_bytes_len(self.signature),
                    opt_bytes_len(self.public_key),
                )
                &&& final(cs).constraints_view() == old(cs).constraints_view() + kyc_constraints(
                    old(cs).num_vars() as int,
                    opt_bytes_len(self.document_hash),
                    opt_bytes_len(self.signature),
                    opt_bytes_len(self.public_key),
                )
            },
    {
        let is_prove = cs.mode_of() == Mode::Prove;
        if is_prove && (self.document_hash.is_none() || self.signature.is_none()
            || self.public_key.is_none() || self.verification_result.is_none()) {
            return Err(CircuitError::AssignmentMissing);
        }
        let empty: Vec<u8> = Vec::new();
        let dh: &Vec<u8> = match &self.document_hash {
            Some(v) => v,
            None => &empty,
        };
        let sg: &Vec<u8> = match &self.signature {
            Some(v) => v,
            None => &empty,
        };
        let pk: &Vec<u8> = match &self.public_key {
            Some(v) => v,
            None => &empty,
        };
        let ghost s0 = *cs;
        let rd = alloc_bytes(cs, VarKind::Private, dh);
        proof {
            assert(rd == Ok::<(), CircuitError>(()));
        }
        let ghost s1 = *cs;
        let rsg = alloc_bytes(cs, VarKind::Private, sg);
        proof {
            assert(rsg == Ok::<(), CircuitError>(()));
        }
        let ghost s2 = *cs;
        let rpk = alloc_bytes(cs, VarKind::Public, pk);
        proof {
            assert(rpk == Ok::<(), CircuitError>(()));
        }
        let ghost s3 = *cs;
        let res_val: Option<u64> = match self.verification_result {
            Some(true) => Some(1),
            Some(false) => Some(0),
            None => None,
        };
        let r_i = cs.num_variables();
        let rv = match cs.allocate(VarKind::Public, res_val) {
            Ok(v) => v,
            Err(e) => {
                proof {
                    assert(false);
                }
                return Err(e);
            },
        };
        let ghost s4 = *cs;
        let rb = cs.enforce_boolean(rv);
        proof {
            assert(rb == Ok::<(), CircuitError>(()));
        }
        let ghost s5 = *cs;
        let re = cs.enforce_equal_const(rv, 1);
        proof {
            assert(re == Ok::<(), CircuitError>(()));
        }
        proof {
            let base = s0.num_vars() as int;
            let nd = dh@.len();
            let ns = sg@.len();
            let np = pk@.len();
            lemma_byte_vec_kinds_len(VarKind::Private, nd);
            lemma_byte_vec_kinds_len(VarKind::Private, ns);
            lemma_byte_vec_kinds_len(VarKind::Public, np);
            lemma_byte_vec_constraints_len(base, nd);
            lemma_byte_vec_constraints_len(base + 9 * nd, ns);
            lemma_byte_vec_constraints_len(base + 9 * (nd + ns), np);
            assert(rv.index == r_i);
            assert(r_i as int == base + 9 * (nd + ns + np));
            assert(cs.kinds_view() =~= s0.kinds_view() + kyc_kinds(nd, ns, np));
            assert(cs.constraints_view() =~= s0.constraints_view() + kyc_constraints(
                base,
                nd,
                ns,
                np,
            ));
            if is_prove {
                assert(opt_bytes_len(self.document_hash) == nd);
                assert(opt_bytes_len(self.signature) == ns);
                assert(opt_bytes_len(self.public_key) == np);
                assert(s4.assignment_view()[rv.index as int] == crate::r1cs::value_or_zero(
                    res_val,
                ));
                if s0.satisfied() {
                    assert(s3.satisfied());
                    assert(s4.satisfied());
                    assert(s5.satisfied() <==> crate::r1cs::value_or_zero(res_val) == 0
                        || crate::r1cs::value_or_zero(res_val) == 1);
                    assert(cs.satisfied() <==> s5.satisfied() && s4.assignment_view()[rv.index
                        as int] == 1);
                }
            }
        }
        Ok(())
    }
}

/// In any assignment satisfying the credential circuit's constraints, the
/// public outcome variable holds true: a witness with a false outcome does
/// not exist.
pub proof fn lemma_kyc_circuit_sound(base: int, nd: nat, ns: nat, np: nat, assign: Seq<u64>)
    requires
        0 <= base,
        base + 9 * (nd + ns + np) < assign.len(),
        base + 9 * (nd + ns + np) <= usize::MAX,
        forall|i: int|
            0 <= i < kyc_constraints(base, nd, ns, np).len() ==> constraint_satisfied(
                #[trigger] kyc_constraints(base, nd, ns, np)[i],
                assign,
            ),
    ensures
        assign[base + 9 * (nd + ns + np)] == 1,
{
    let res = base + 9 * (nd + ns + np);
    let cs = kyc_constraints(base, nd, ns, np);
    lemma_byte_vec_constraints_len(base, nd);
    lemma_byte_vec_constraints_len(base + 9 * nd, ns);
    lemma_byte_vec_constraints_len(base + 9 * (nd + ns), np);
    let last = cs.len() - 1;
    assert(cs[last as int] == equal_const_constraint(res, 1));
    assert(constraint_satisfied(cs[last as int], assign));
    lemma_eval_lc_var(res, assign);
    lemma_eval_lc_const(1, assign);
    let v = assign[res] as int;
    assert(v * 1 == v) by (nonlinear_arith);
}

/// In any assignment satisfying the age circuit's constraints, the current
/// year exceeds the birth year by more than the minimum age: a witness for
/// a false predicate does not exist.
pub proof fn lemma_age_circuit_sound(base: int, assign: Seq<u64>)
    requires
        0 <= base,
        base + 165 <= assign.len(),
        base + 165 <= usize::MAX,
        forall|i: int|
            0 <= i < age_circuit_constraints(base).len() ==> constraint_satisfied(
                #[trigger] age_circuit_constraints(base)[i],
                assign,
            ),
    ensures
        (assign[base] as int) + (assign[base + 99] as int) == (assign[base + 33] as int),
        (assign[base + 99] as int) > (assign[base + 66] as int),
        (assign[base + 33] as int) - (assign[base] as int) > (assign[base + 66] as int),
{
    let cs = age_circuit_constraints(base);
    let gs = greater_constraints(base + 99, base + 66, base + 132, 32);
    assert forall|i: int| 0 <= i < gs.len() implies constraint_satisfied(
        #[trigger] gs[i],
        assign,
    ) by {
        assert(cs[133 + i] == gs[i]);
        assert(constraint_satisfied(cs[133 + i], assign));
    }
    lemma_greater_constraints_sound(base + 99, base + 66, base + 132, 32, assign);
    let sc = sum_constraint(base, base + 99, base + 33);
    assert(cs[132] == sc);
    assert(constraint_satisfied(sc, assign));
    lemma_eval_lc_const(1, assign);
    lemma_eval_lc_var(base + 33, assign);
    lemma_eval_two_terms(sc.b, base, base + 99, assign);
    let be = crate::r1cs::lc_eval(sc.b, assign);
    assert(1 * be == be) by (nonlinear_arith);
}

} // verus!
