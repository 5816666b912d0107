use ark_bls12_381::Bls12_381;
use ark_bls12_381::Fr;
use ark_groth16::create_random_proof;
use ark_groth16::generate_random_parameters;
use ark_groth16::prepare_verifying_key;
use ark_groth16::verify_proof;
use ark_groth16::ProvingKey;
use ark_r1cs_std::alloc::AllocVar;
use ark_r1cs_std::bits::boolean::Boolean;
use ark_r1cs_std::eq::EqGadget;
use ark_r1cs_std::fields::fp::FpVar;
use ark_relations::r1cs::ConstraintSynthesizer;
use ark_relations::r1cs::ConstraintSystemRef;
use ark_relations::r1cs::SynthesisError;
use ark_serialize::CanonicalSerialize;
use zk_identity::registry::Config;
use zk_identity::registry::Error;
use zk_identity::registry::Event;
use zk_identity::registry::ZkProof;
use zk_identity::registry::ZkVerifier;

#[derive(Clone)]
struct AgeCircuit {
    birth_year: Option<u32>,
    current_year: Option<u32>,
    minimum_age: Option<u32>,
}

impl ConstraintSynthesizer<Fr> for AgeCircuit {
    fn generate_constraints(self, cs: ConstraintSystemRef<Fr>) -> Result<(), SynthesisError> {
        let birth = FpVar::new_witness(cs.clone(), || {
            self.birth_year.map(|v| Fr::from(v)).ok_or(SynthesisError::AssignmentMissing)
        })?;
        let current = FpVar::new_input(cs.clone(), || {
            self.current_year.map(|v| Fr::from(v)).ok_or(SynthesisError::AssignmentMissing)
        })?;
        let minimum = FpVar::new_input(cs, || {
            self.minimum_age.map(|v| Fr::from(v)).ok_or(SynthesisError::AssignmentMissing)
        })?;
        let age = &current - &birth;
        age.enforce_cmp(&minimum, core::cmp::Ordering::Greater, false)?;
        Ok(())
    }
}

#[derive(Clone)]
struct KycCircuit {
    document_hash: Option<Vec<u8>>,
    signature: Option<Vec<u8>>,
    public_key: Option<Vec<u8>>,
    verification_result: Option<bool>,
}

impl ConstraintSynthesizer<Fr> for KycCircuit {
    fn generate_constraints(self, cs: ConstraintSystemRef<Fr>) -> Result<(), SynthesisError> {
        for b in self.document_hash.unwrap_or_default().iter() {
            let _ = FpVar::new_witness(cs.clone(), || Ok(Fr::from(*b)))?;
        }
        for b in self.signature.unwrap_or_default().iter() {
            let _ = FpVar::new_witness(cs.clone(), || Ok(Fr::from(*b)))?;
        }
        for b in self.public_key.unwrap_or_default().iter() {
            let _ = FpVar::new_witness(cs.clone(), || Ok(Fr::from(*b)))?;
        }
        let result = Boolean::new_input(cs, || {
            self.verification_result.ok_or(SynthesisError::AssignmentMissing)
        })?;
        result.enforce_equal(&Boolean::TRUE)?;
        Ok(())
    }
}

fn serialize_vk(params: &ProvingKey<Bls12_381>) -> Vec<u8> {
    let mut vk_bytes = Vec::new();
    params.vk.serialize(&mut vk_bytes).unwrap();
    vk_bytes
}

fn age_key_and_proof(birth: u32, current: u32, minimum: u32) -> (Vec<u8>, Vec<u8>) {
    let rng = &mut ark_std::test_rng();
    let circuit = AgeCircuit {
        birth_year: Some(birth),
        current_year: Some(current),
        minimum_age: Some(minimum),
    };
    let params = generate_random_parameters::<Bls12_381, _, _>(circuit.clone(), rng).unwrap();
    let proof = create_random_proof(circuit, &params, rng).unwrap();
    let mut proof_bytes = Vec::new();
    proof.serialize(&mut proof_bytes).unwrap();
    (serialize_vk(&params), proof_bytes)
}

fn fr_bytes(x: u64) -> Vec<u8> {
    let mut v = Vec::new();
    Fr::from(x).serialize(&mut v).unwrap();
    v
}

#[test]
fn test_age_verification() {
    let rng = &mut ark_std::test_rng();

    let circuit = AgeCircuit {
        birth_year: Some(1990),
        current_year: Some(2024),
        minimum_age: Some(18),
    };

    let params = generate_random_parameters::<Bls12_381, _, _>(circuit.clone(), rng).unwrap();
    let proof = create_random_proof(circuit, &params, rng).unwrap();

    let pvk = prepare_verifying_key(&params.vk);
    let is_valid = verify_proof(&pvk, &proof, &[Fr::from(2024u64), Fr::from(18u64)]).unwrap();
    assert!(is_valid);
}

#[test]
fn test_kyc_verification() {
    let rng = &mut ark_std::test_rng();

    let circuit = KycCircuit {
        document_hash: Some(vec![1, 2, 3, 4]),
        signature: Some(vec![5, 6, 7, 8]),
        public_key: Some(vec![9, 10, 11, 12]),
        verification_result: Some(true),
    };

    let params = generate_random_parameters::<Bls12_381, _, _>(circuit.clone(), rng).unwrap();
    let proof = create_random_proof(circuit, &params, rng).unwrap();

    let pvk = prepare_verifying_key(&params.vk);
    let is_valid = verify_proof(&pvk, &proof, &[Fr::from(1u64)]).unwrap();
    assert!(is_valid);
}

#[test]
fn test_verify_proof() {
    let (vk_bytes, proof_bytes) = age_key_and_proof(1990, 2024, 18);
    let mut reg = ZkVerifier::new(Config { registrar: None });
    let circuit_id = b"age".to_vec();
    let set = reg.set_verifying_key(1, circuit_id.clone(), vk_bytes);
    assert!(matches!(set, Ok(Event::VerifyingKeySet(_))));

    let submission = ZkProof {
        proof: proof_bytes,
        public_inputs: vec![fr_bytes(2024), fr_bytes(18)],
    };
    let outcome = reg.verify_proof(7, submission, circuit_id.clone());
    match outcome {
        Ok(Event::ProofVerified(who, cid)) => {
            assert_eq!(who, 7);
            assert_eq!(cid, circuit_id);
        }
        other => panic!("expected a verified-proof event, got {:?}", other),
    }
    assert!(reg.verified_proof(7, &circuit_id));
    assert!(!reg.verified_proof(8, &circuit_id));
}

#[test]
fn test_replay_rejected() {
    let (vk_bytes, proof_bytes) = age_key_and_proof(1990, 2024, 18);
    let mut reg = ZkVerifier::new(Config { registrar: None });
    let circuit_id = b"age".to_vec();
    reg.set_verifying_key(1, circuit_id.clone(), vk_bytes).unwrap();

    let inputs = vec![fr_bytes(2024), fr_bytes(18)];
    let first = ZkProof { proof: proof_bytes.clone(), public_inputs: inputs.clone() };
    assert!(reg.verify_proof(7, first, circuit_id.clone()).is_ok());
    assert!(reg.verified_proof(7, &circuit_id));

    let second = ZkProof { proof: proof_bytes, public_inputs: inputs };
    let replay = reg.verify_proof(7, second, circuit_id.clone());
    assert_eq!(replay, Err(Error::ProofAlreadyVerified));
    assert!(reg.verified_proof(7, &circuit_id));
}

#[test]
fn test_status_read_idempotent() {
    let mut reg = ZkVerifier::new(Config { registrar: None });
    let circuit_id = b"age".to_vec();
    let before_first = reg.verified_proof(7, &circuit_id);
    let before_second = reg.verified_proof(7, &circuit_id);
    assert_eq!(before_first, before_second);

    let failed = reg.verify_proof(
        7,
        ZkProof { proof: vec![1, 2, 3], public_inputs: vec![] },
        circuit_id.clone(),
    );
    assert_eq!(failed, Err(Error::VerifyingKeyNotFound));
    let after_first = reg.verified_proof(7, &circuit_id);
    let after_second = reg.verified_proof(7, &circuit_id);
    assert_eq!(after_first, after_second);
    assert_eq!(before_first, after_first);
}

#[test]
fn test_key_replacement() {
    let rng = &mut ark_std::test_rng();
    let circuit = AgeCircuit {
        birth_year: Some(1990),
        current_year: Some(2024),
        minimum_age: Some(18),
    };
    let params1 = generate_random_parameters::<Bls12_381, _, _>(circuit.clone(), rng).unwrap();
    let params2 = generate_random_parameters::<Bls12_381, _, _>(circuit.clone(), rng).unwrap();
    let proof1 = create_random_proof(circuit, &params1, rng).unwrap();
    let mut proof1_bytes = Vec::new();
    proof1.serialize(&mut proof1_bytes).unwrap();

    let circuit_id = b"age".to_vec();
    let inputs = vec![fr_bytes(2024), fr_bytes(18)];
    let mut reg = ZkVerifier::new(Config { registrar: None });

    reg.set_verifying_key(1, circuit_id.clone(), serialize_vk(&params1)).unwrap();
    reg.set_verifying_key(1, circuit_id.clone(), serialize_vk(&params2)).unwrap();
    assert_eq!(reg.verifying_key(&circuit_id), Some(serialize_vk(&params2)));

    let against_new_key = reg.verify_proof(
        7,
        ZkProof { proof: proof1_bytes.clone(), public_inputs: inputs.clone() },
        circuit_id.clone(),
    );
    assert_eq!(against_new_key, Err(Error::InvalidProof));
    assert!(!reg.verified_proof(7, &circuit_id));

    reg.set_verifying_key(1, circuit_id.clone(), serialize_vk(&params1)).unwrap();
    let against_matching_key = reg.verify_proof(
        7,
        ZkProof { proof: proof1_bytes, public_inputs: inputs },
        circuit_id.clone(),
    );
    assert!(against_matching_key.is_ok());
    assert!(reg.verified_proof(7, &circuit_id));
}

#[test]
fn test_tampered_proof_rejected() {
    let (vk_bytes, proof_bytes) = age_key_and_proof(1990, 2024, 18);
    let circuit_id = b"age".to_vec();
    let inputs = vec![fr_bytes(2024), fr_bytes(18)];

    for flipped_byte in [0, proof_bytes.len() / 2, proof_bytes.len() - 1] {
        let mut reg = ZkVerifier::new(Config { registrar: None });
        reg.set_verifying_key(1, circuit_id.clone(), vk_bytes.clone()).unwrap();
        let mut tampered = proof_bytes.clone();
        tampered[flipped_byte] ^= 1;
        let outcome = reg.verify_proof(
            7,
            ZkProof { proof: tampered, public_inputs: inputs.clone() },
            circuit_id.clone(),
        );
        assert!(
            matches!(outcome, Err(Error::InvalidProof) | Err(Error::InvalidEncoding)),
            "a tampered proof must not verify: {:?}",
            outcome
        );
        assert!(!reg.verified_proof(7, &circuit_id));
    }
}

#[test]
fn test_mismatched_public_inputs_rejected() {
    let (vk_bytes, proof_bytes) = age_key_and_proof(1990, 2024, 18);
    let circuit_id = b"age".to_vec();
    let mut reg = ZkVerifier::new(Config { registrar: None });
    reg.set_verifying_key(1, circuit_id.clone(), vk_bytes).unwrap();

    let wrong_values = reg.verify_proof(
        7,
        ZkProof { proof: proof_bytes.clone(), public_inputs: vec![fr_bytes(2024), fr_bytes(21)] },
        circuit_id.clone(),
    );
    assert_eq!(wrong_values, Err(Error::InvalidProof));

    let wrong_count = reg.verify_proof(
        7,
        ZkProof { proof: proof_bytes, public_inputs: vec![fr_bytes(2024)] },
        circuit_id.clone(),
    );
    assert_eq!(wrong_count, Err(Error::InvalidProof));
    assert!(!reg.verified_proof(7, &circuit_id));
}

#[test]
fn test_wrong_shape_key_rejected() {
    let rng = &mut ark_std::test_rng();
    let kyc = KycCircuit {
        document_hash: Some(vec![1, 2, 3, 4]),
        signature: Some(vec![5, 6, 7, 8]),
        public_key: Some(vec![9, 10, 11, 12]),
        verification_result: Some(true),
    };
    let kyc_params = generate_random_parameters::<Bls12_381, _, _>(kyc, rng).unwrap();
    let (_, age_proof_bytes) = age_key_and_proof(1990, 2024, 18);

    let mut reg = ZkVerifier::new(Config { registrar: None });
    let circuit_id = b"age".to_vec();
    reg.set_verifying_key(1, circuit_id.clone(), serialize_vk(&kyc_params)).unwrap();
    let outcome = reg.verify_proof(
        7,
        ZkProof { proof: age_proof_bytes, public_inputs: vec![fr_bytes(2024), fr_bytes(18)] },
        circuit_id.clone(),
    );
    assert_eq!(outcome, Err(Error::InvalidProof));
    assert!(!reg.verified_proof(7, &circuit_id));
}

#[test]
fn test_invalid_encoding() {
    let (vk_bytes, proof_bytes) = age_key_and_proof(1990, 2024, 18);
    let circuit_id = b"age".to_vec();

    let mut reg = ZkVerifier::new(Config { registrar: None });
    reg.set_verifying_key(1, circuit_id.clone(), vec![0xAB; 7]).unwrap();
    let bad_key = reg.verify_proof(
        7,
        ZkProof { proof: proof_bytes.clone(), public_inputs: vec![fr_bytes(2024), fr_bytes(18)] },
        circuit_id.clone(),
    );
    assert_eq!(bad_key, Err(Error::InvalidEncoding));

    let mut reg2 = ZkVerifier::new(Config { registrar: None });
    reg2.set_verifying_key(1, circuit_id.clone(), vk_bytes).unwrap();
    let bad_proof = reg2.verify_proof(
        7,
        ZkProof { proof: vec![0xCD; 5], public_inputs: vec![fr_bytes(2024), fr_bytes(18)] },
        circuit_id.clone(),
    );
    assert_eq!(bad_proof, Err(Error::InvalidEncoding));

    let bad_input = reg2.verify_proof(
        7,
        ZkProof { proof: proof_bytes, public_inputs: vec![vec![0xEF; 3], fr_bytes(18)] },
        circuit_id.clone(),
    );
    assert_eq!(bad_input, Err(Error::InvalidEncoding));
    assert!(!reg2.verified_proof(7, &circuit_id));
}

#[test]
fn test_registrar_restriction() {
    let mut reg = ZkVerifier::new(Config { registrar: Some(1) });
    let circuit_id = b"age".to_vec();
    let refused = reg.set_verifying_key(2, circuit_id.clone(), vec![1, 2, 3]);
    assert_eq!(refused, Err(Error::NotAuthorized));
    assert_eq!(reg.verifying_key(&circuit_id), None);

    let allowed = reg.set_verifying_key(1, circuit_id.clone(), vec![1, 2, 3]);
    assert!(matches!(allowed, Ok(Event::VerifyingKeySet(_))));
    assert_eq!(reg.verifying_key(&circuit_id), Some(vec![1, 2, 3]));
}
