use zk_identity::circuits::AgeVerificationCircuit;
use zk_identity::circuits::KYCVerificationCircuit;
use zk_identity::r1cs::CircuitError;
use zk_identity::r1cs::ConstraintSystem;
use zk_identity::r1cs::Mode;
use zk_identity::r1cs::VarKind;
use zk_identity::r1cs::Variable;
use zk_identity::vault::Error;
use zk_identity::vault::IdentityVault;

#[test]
fn age_circuit_scenario() {
    let circuit = AgeVerificationCircuit {
        birth_year: Some(1990),
        current_year: Some(2024),
        minimum_age: Some(18),
    };
    let mut cs = ConstraintSystem::new(Mode::Prove);
    assert_eq!(circuit.generate_constraints(&mut cs), Ok(()));
    assert_eq!(cs.num_variables(), 165);
    assert_eq!(cs.num_constraints(), 167);
    // The public inputs in allocation order: current year, then minimum age.
    assert_eq!(cs.value_of(Variable { index: 33 }), 2024);
    assert_eq!(cs.value_of(Variable { index: 66 }), 18);
    // The private age comes out as 34.
    assert_eq!(cs.value_of(Variable { index: 99 }), 34);
}

#[test]
fn age_circuit_underage_witness_unconstructible() {
    let circuit = AgeVerificationCircuit {
        birth_year: Some(2010),
        current_year: Some(2024),
        minimum_age: Some(18),
    };
    let mut cs = ConstraintSystem::new(Mode::Prove);
    assert_eq!(circuit.generate_constraints(&mut cs), Err(CircuitError::Underflow));
}

#[test]
fn age_circuit_exact_minimum_is_rejected() {
    // The comparison is strictly greater: an age equal to the minimum fails.
    let circuit = AgeVerificationCircuit {
        birth_year: Some(2006),
        current_year: Some(2024),
        minimum_age: Some(18),
    };
    let mut cs = ConstraintSystem::new(Mode::Prove);
    assert_eq!(circuit.generate_constraints(&mut cs), Err(CircuitError::Underflow));
}

#[test]
fn age_circuit_future_birth_year_underflows() {
    let circuit = AgeVerificationCircuit {
        birth_year: Some(2030),
        current_year: Some(2024),
        minimum_age: Some(18),
    };
    let mut cs = ConstraintSystem::new(Mode::Prove);
    assert_eq!(circuit.generate_constraints(&mut cs), Err(CircuitError::Underflow));
}

#[test]
fn age_circuit_missing_assignment() {
    let circuit = AgeVerificationCircuit {
        birth_year: None,
        current_year: Some(2024),
        minimum_age: Some(18),
    };
    let mut cs = ConstraintSystem::new(Mode::Prove);
    assert_eq!(circuit.generate_constraints(&mut cs), Err(CircuitError::AssignmentMissing));
}

#[test]
fn age_template_shape_matches_proving_shape() {
    let template = AgeVerificationCircuit { birth_year: None, current_year: None, minimum_age: None };
    let mut template_cs = ConstraintSystem::new(Mode::Template);
    assert_eq!(template.generate_constraints(&mut template_cs), Ok(()));

    let concrete = AgeVerificationCircuit {
        birth_year: Some(1990),
        current_year: Some(2024),
        minimum_age: Some(18),
    };
    let mut prover_cs = ConstraintSystem::new(Mode::Prove);
    assert_eq!(concrete.generate_constraints(&mut prover_cs), Ok(()));

    assert_eq!(template_cs.num_variables(), prover_cs.num_variables());
    assert_eq!(template_cs.num_constraints(), prover_cs.num_constraints());
}

#[test]
fn kyc_circuit_shape() {
    let circuit = KYCVerificationCircuit {
        document_hash: Some(vec![1, 2, 3, 4]),
        signature: Some(vec![5, 6, 7, 8]),
        public_key: Some(vec![9, 10, 11, 12]),
        verification_result: Some(true),
    };
    let mut cs = ConstraintSystem::new(Mode::Prove);
    assert_eq!(circuit.generate_constraints(&mut cs), Ok(()));
    // Nine variables per byte (value plus eight bits) and the outcome.
    assert_eq!(cs.num_variables(), 9 * 12 + 1);
    // Nine constraints per byte, booleanness, and the outcome binding.
    assert_eq!(cs.num_constraints(), 9 * 12 + 2);
    assert_eq!(cs.value_of(Variable { index: 9 * 12 }), 1);
}

#[test]
fn kyc_circuit_missing_assignment() {
    let circuit = KYCVerificationCircuit {
        document_hash: Some(vec![1]),
        signature: None,
        public_key: Some(vec![2]),
        verification_result: Some(true),
    };
    let mut cs = ConstraintSystem::new(Mode::Prove);
    assert_eq!(circuit.generate_constraints(&mut cs), Err(CircuitError::AssignmentMissing));
}

#[test]
fn allocate_requires_value_when_proving() {
    let mut cs = ConstraintSystem::new(Mode::Prove);
    assert_eq!(cs.allocate(VarKind::Private, None), Err(CircuitError::AssignmentMissing));
    assert!(cs.allocate(VarKind::Private, Some(5)).is_ok());

    let mut template = ConstraintSystem::new(Mode::Template);
    assert!(template.allocate(VarKind::Public, None).is_ok());
}

#[test]
fn alloc_uint_width_checks() {
    let mut cs = ConstraintSystem::new(Mode::Prove);
    assert_eq!(
        cs.alloc_uint(VarKind::Private, Some(1), 0),
        Err(CircuitError::WidthMismatch)
    );
    assert_eq!(
        cs.alloc_uint(VarKind::Private, Some(1), 65),
        Err(CircuitError::WidthMismatch)
    );
    assert_eq!(
        cs.alloc_uint(VarKind::Private, Some(256), 8),
        Err(CircuitError::WidthMismatch)
    );
    assert!(cs.alloc_uint(VarKind::Private, Some(255), 8).is_ok());
}

#[test]
fn enforce_greater_width_mismatch() {
    let mut cs = ConstraintSystem::new(Mode::Prove);
    let a = cs.alloc_uint(VarKind::Private, Some(9), 8).unwrap();
    let b = cs.alloc_uint(VarKind::Private, Some(3), 32).unwrap();
    assert_eq!(cs.enforce_greater(a, b), Err(CircuitError::WidthMismatch));
    let c = cs.alloc_uint(VarKind::Private, Some(3), 8).unwrap();
    assert_eq!(cs.enforce_greater(a, c), Ok(()));
    assert_eq!(cs.enforce_greater(c, a), Err(CircuitError::Underflow));
}

#[test]
fn enforce_rejects_unallocated_variables() {
    let mut cs = ConstraintSystem::new(Mode::Prove);
    let x = cs.allocate(VarKind::Private, Some(1)).unwrap();
    let bogus = Variable { index: 99 };
    assert_eq!(cs.enforce_equal(x, bogus), Err(CircuitError::UnallocatedVariable));
    assert_eq!(cs.enforce_equal(x, x), Ok(()));
}

#[test]
fn new_works() {
    let contract = IdentityVault::new(1);
    assert_eq!(contract.owner(), 1);
}

#[test]
fn default_vault_is_owned_by_zero() {
    let contract = IdentityVault::default();
    assert_eq!(contract.owner(), 0);
    assert_eq!(contract.get_attestations(1).len(), 0);
}

#[test]
fn add_attestation_works() {
    let alice: u64 = 1;
    let bob: u64 = 2;
    let mut contract = IdentityVault::new(alice);

    let credential_type = b"age".to_vec();
    let proof = b"proof".to_vec();

    assert_eq!(
        contract.add_attestation(alice, bob, credential_type.clone(), proof.clone(), 0),
        Ok(())
    );

    let attestations = contract.get_attestations(bob);
    assert_eq!(attestations.len(), 1);
    assert_eq!(attestations[0].credential_type, credential_type);
    assert_eq!(attestations[0].proof, proof);
}

#[test]
fn add_attestation_requires_owner() {
    let mut contract = IdentityVault::new(1);
    let refused = contract.add_attestation(2, 3, b"age".to_vec(), b"proof".to_vec(), 0);
    assert_eq!(refused, Err(Error::NotAuthorized));
    assert_eq!(contract.get_attestations(3).len(), 0);
}

#[test]
fn verify_attestation_reports_recorded_credentials() {
    let mut contract = IdentityVault::new(1);
    contract.add_attestation(1, 2, b"age".to_vec(), b"proof".to_vec(), 5).unwrap();

    assert_eq!(contract.verify_attestation(2, b"age".to_vec()), Ok(true));
    assert_eq!(contract.verify_attestation(2, b"kyc".to_vec()), Ok(false));
    assert_eq!(
        contract.verify_attestation(9, b"age".to_vec()),
        Err(Error::AttestationNotFound)
    );
}

#[test]
fn attestations_accumulate_per_account() {
    let mut contract = IdentityVault::new(1);
    contract.add_attestation(1, 2, b"age".to_vec(), b"p1".to_vec(), 5).unwrap();
    contract.add_attestation(1, 2, b"kyc".to_vec(), b"p2".to_vec(), 6).unwrap();
    contract.add_attestation(1, 3, b"age".to_vec(), b"p3".to_vec(), 7).unwrap();

    let bob = contract.get_attestations(2);
    assert_eq!(bob.len(), 2);
    assert_eq!(bob[0].credential_type, b"age".to_vec());
    assert_eq!(bob[0].timestamp, 5);
    assert_eq!(bob[1].credential_type, b"kyc".to_vec());
    assert_eq!(bob[1].timestamp, 6);
    assert_eq!(contract.get_attestations(3).len(), 1);
}
