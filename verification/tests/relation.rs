use halo2_franchise::field::Fp;
use halo2_franchise::franchise::{cond_swap, Error, FranchiseCircuit};
use halo2_franchise::poseidon::hash;
use halo2_franchise::utils::{
    generate_circuit_inputs, generate_test_data, secret_to_public_key, MerkleTree,
};

fn mock_test<const LVL: usize>() {
    let (circuit, mut public) = generate_test_data::<LVL>();

    assert_eq!(Ok(true), circuit.verify(&public));

    for n in 0..public.len() {
        public[n] = public[n].add(&Fp::from(1));
        assert_eq!(Ok(false), circuit.verify(&public));
        public[n] = public[n].sub(&Fp::from(1));
    }
    assert_eq!(Ok(true), circuit.verify(&public));
}

#[test]
fn worked_example_is_accepted_and_tampering_rejected() {
    mock_test::<3>();
}

#[test]
fn worked_example_at_other_depths() {
    mock_test::<0>();
    mock_test::<1>();
    mock_test::<9>();
}

#[test]
fn worked_example_has_the_stated_values() {
    let (circuit, public) = generate_test_data::<3>();
    let sk = Fp::from(8);
    let pk = hash(sk, sk);
    let step0 = hash(pk, Fp::from(0));
    let step1 = hash(Fp::from(1), step0);
    let step2 = hash(step1, Fp::from(2));
    assert_eq!(public.len(), 3);
    assert_eq!(public[0], step2);
    assert_eq!(public[1], hash(sk, hash(Fp::from(6), Fp::from(7))));
    assert_eq!(public[2], Fp::from(1));
    assert_eq!(circuit.pri_secret_key, Some(sk));
    assert_eq!(circuit.pub_processid, Some([Fp::from(6), Fp::from(7)]));
    assert_eq!(circuit.pub_votehash, Some(Fp::from(1)));
    assert_eq!(circuit.pri_siblings, Some([Fp::from(0), Fp::from(1), Fp::from(2)]));
    assert_eq!(circuit.pri_index, Some([false, true, false]));
    assert_eq!(circuit.synthesize(), Ok([public[0], public[1], public[2]]));
}

#[test]
fn tampering_by_any_amount_is_rejected_and_undone() {
    let (circuit, mut public) = generate_test_data::<3>();
    let deltas = [Fp::from(1), Fp::from(2), Fp::from(u64::MAX), Fp::zero().sub(&Fp::from(1))];
    for n in 0..3 {
        for d in &deltas {
            public[n] = public[n].add(d);
            assert_eq!(circuit.verify(&public), Ok(false));
            public[n] = public[n].sub(d);
            assert_eq!(circuit.verify(&public), Ok(true));
        }
    }
}

#[test]
fn wrong_number_of_public_values_is_rejected() {
    let (circuit, public) = generate_test_data::<3>();
    assert_eq!(circuit.verify(&public[..2]), Ok(false));
    assert_eq!(circuit.verify(&[]), Ok(false));
    let mut longer = public.clone();
    longer.push(Fp::zero());
    assert_eq!(circuit.verify(&longer), Ok(false));
}

#[test]
fn incomplete_assignment_cannot_be_evaluated() {
    let (circuit, public) = generate_test_data::<3>();
    let empty = circuit.without_witnesses();
    assert!(empty.pri_index.is_none());
    assert!(empty.pri_siblings.is_none());
    assert!(empty.pri_secret_key.is_none());
    assert!(empty.pub_processid.is_none());
    assert!(empty.pub_votehash.is_none());
    assert_eq!(empty.synthesize(), Err(Error::Synthesis));
    assert_eq!(empty.verify(&public), Err(Error::Synthesis));
    assert_eq!(FranchiseCircuit::<3>::default().synthesize(), Err(Error::Synthesis));

    let mut c = circuit;
    c.pri_secret_key = None;
    assert_eq!(c.verify(&public), Err(Error::Synthesis));
    let mut c = circuit;
    c.pub_processid = None;
    assert_eq!(c.verify(&public), Err(Error::Synthesis));
    let mut c = circuit;
    c.pub_votehash = None;
    assert_eq!(c.verify(&public), Err(Error::Synthesis));
    let mut c = circuit;
    c.pri_siblings = None;
    assert_eq!(c.verify(&public), Err(Error::Synthesis));
    assert_eq!(c.merkle_tree(Fp::from(1)), Err(Error::Synthesis));
    let mut c = circuit;
    c.pri_index = None;
    assert_eq!(c.verify(&public), Err(Error::Synthesis));
    assert_eq!(c.merkle_tree(Fp::from(1)), Err(Error::Synthesis));
}

#[test]
fn no_level_needs_no_path() {
    let circuit = FranchiseCircuit::<0> {
        pri_index: None,
        pri_siblings: None,
        pri_secret_key: Some(Fp::from(8)),
        pub_processid: Some([Fp::from(6), Fp::from(7)]),
        pub_votehash: Some(Fp::from(1)),
    };
    assert_eq!(circuit.merkle_tree(Fp::from(5)), Ok(Fp::from(5)));
    let pk = secret_to_public_key(Fp::from(8));
    let nullifier = hash(Fp::from(8), hash(Fp::from(6), Fp::from(7)));
    assert_eq!(circuit.synthesize(), Ok([pk, nullifier, Fp::from(1)]));
}

#[test]
fn load_private_input_passes_the_value_on() {
    let circuit = FranchiseCircuit::<2>::default();
    assert_eq!(circuit.load_private_input(Some(Fp::from(3))), Ok(Fp::from(3)));
    assert_eq!(circuit.load_private_input(None), Err(Error::Synthesis));
}

#[test]
fn cond_swap_exchanges_when_set() {
    let a = Fp::from(1);
    let b = Fp::from(2);
    assert_eq!(cond_swap((a, b), Some(false)), Ok((a, b)));
    assert_eq!(cond_swap((a, b), Some(true)), Ok((b, a)));
    assert_eq!(cond_swap((a, b), None), Err(Error::Synthesis));
}

#[test]
fn circuit_hash_is_the_compression_function() {
    let circuit = FranchiseCircuit::<1>::default();
    assert_eq!(circuit.hash([Fp::from(3), Fp::from(4)]), hash(Fp::from(3), Fp::from(4)));
}

#[test]
fn merkle_tree_orders_by_the_direction_bit() {
    let circuit = FranchiseCircuit::<2> {
        pri_index: Some([false, true]),
        pri_siblings: Some([Fp::from(10), Fp::from(20)]),
        pri_secret_key: None,
        pub_processid: None,
        pub_votehash: None,
    };
    let start = Fp::from(1);
    let expected = hash(Fp::from(20), hash(start, Fp::from(10)));
    assert_eq!(circuit.merkle_tree(start), Ok(expected));
}

#[test]
fn path_of_the_wrong_length_is_rejected() {
    let sk = Fp::from(8);
    let pid = [Fp::from(6), Fp::from(7)];
    let vh = Fp::from(1);
    let path = vec![(Fp::from(1), true), (Fp::from(2), false)];
    assert!(generate_circuit_inputs::<2>(sk, pid, vh, &path).is_ok());
    assert_eq!(generate_circuit_inputs::<3>(sk, pid, vh, &path).err(), Some(Error::PathLength));
    assert_eq!(generate_circuit_inputs::<1>(sk, pid, vh, &path).err(), Some(Error::PathLength));
    assert_eq!(generate_circuit_inputs::<0>(sk, pid, vh, &path).err(), Some(Error::PathLength));
    assert!(generate_circuit_inputs::<0>(sk, pid, vh, &[]).is_ok());
}

#[test]
fn builder_inverts_the_flags_and_derives_the_nullifier() {
    let sk = Fp::from(8);
    let pid = [Fp::from(6), Fp::from(7)];
    let vh = Fp::from(1);
    let path = vec![(Fp::from(1), true), (Fp::from(2), false), (Fp::from(3), false)];
    let (circuit, nullifier) = generate_circuit_inputs::<3>(sk, pid, vh, &path).unwrap();
    assert_eq!(circuit.pri_index, Some([false, true, true]));
    assert_eq!(circuit.pri_siblings, Some([Fp::from(1), Fp::from(2), Fp::from(3)]));
    assert_eq!(circuit.pri_secret_key, Some(sk));
    assert_eq!(circuit.pub_processid, Some(pid));
    assert_eq!(circuit.pub_votehash, Some(vh));
    assert_eq!(nullifier, hash(sk, hash(pid[0], pid[1])));
}

#[test]
fn census_member_satisfies_the_relation() {
    let sk = Fp::from(1234);
    let pid = [Fp::from(6), Fp::from(7)];
    let vh = Fp::from(99);
    let mut tree = MerkleTree::new(4);
    for n in 0..5u64 {
        tree.insert(Fp::from(n));
    }
    let index = tree.insert(secret_to_public_key(sk));
    tree.calc();
    let path = tree.witness(index);
    assert!(MerkleTree::check_witness(tree.get(index), path.clone(), tree.root()));

    let (circuit, nullifier) = generate_circuit_inputs::<3>(sk, pid, vh, &path).unwrap();
    assert_eq!(circuit.synthesize(), Ok([tree.root(), nullifier, vh]));
    assert_eq!(circuit.verify(&[tree.root(), nullifier, vh]), Ok(true));

    let (stranger, n2) = generate_circuit_inputs::<3>(Fp::from(4321), pid, vh, &path).unwrap();
    assert_eq!(stranger.verify(&[tree.root(), n2, vh]), Ok(false));
    assert_eq!(circuit.verify(&[tree.root(), n2, vh]), Ok(false));
}

#[test]
fn relation_agrees_with_check_witness_on_every_leaf() {
    let sk = Fp::from(5);
    let pk = secret_to_public_key(sk);
    let pid = [Fp::from(1), Fp::from(2)];
    let vh = Fp::from(3);
    for index in 0..8usize {
        let mut tree = MerkleTree::new(4);
        for n in 0..8usize {
            tree.insert(if n == index { pk } else { Fp::from(n as u64) });
        }
        tree.calc();
        let path = tree.witness(index);
        let (circuit, nullifier) = generate_circuit_inputs::<3>(sk, pid, vh, &path).unwrap();
        assert_eq!(circuit.merkle_tree(pk), Ok(tree.root()));
        assert_eq!(circuit.verify(&[tree.root(), nullifier, vh]), Ok(true));
    }
}

#[test]
fn nullifier_is_bound_to_the_process() {
    let sk = Fp::from(8);
    let vh = Fp::from(1);
    let (_, a) = generate_circuit_inputs::<0>(sk, [Fp::from(6), Fp::from(7)], vh, &[]).unwrap();
    let (_, b) = generate_circuit_inputs::<0>(sk, [Fp::from(7), Fp::from(6)], vh, &[]).unwrap();
    let (_, c) = generate_circuit_inputs::<0>(sk, [Fp::from(6), Fp::from(8)], vh, &[]).unwrap();
    let (_, d) = generate_circuit_inputs::<0>(sk, [Fp::from(6), Fp::from(7)], vh, &[]).unwrap();
    let (_, e) =
        generate_circuit_inputs::<0>(Fp::from(9), [Fp::from(6), Fp::from(7)], vh, &[]).unwrap();
    assert_ne!(a, b);
    assert_ne!(a, c);
    assert_ne!(b, c);
    assert_eq!(a, d);
    assert_ne!(a, e);
}

#[test]
fn error_variants_are_distinct() {
    assert_ne!(Error::Synthesis, Error::PathLength);
    assert_eq!(format!("{:?}", Error::Synthesis), "Synthesis");
    assert_eq!(format!("{:?}", Error::PathLength), "PathLength");
}
