//! The membership-and-nullifier relation: from a secret key, an authentication
//! path and a process id it derives the census root and the nullifier, and it
//! is satisfied by the public values that equal what it derives.

use vstd::prelude::*;

use crate::field::{
    field_add, field_sub, lemma_add_changes, lemma_sub_undoes_add, lemma_view_injective, modulus,
    values, Fp,
};
use crate::poseidon::{self, collides, poseidon};

verus! {

/// Why an assignment cannot be evaluated or built.
#[derive(Clone, Copy, Debug, PartialEq, Eq, Structural)]
pub enum Error {
    /// A value that the relation reads is absent from the assignment.
    Synthesis,
    /// The authentication path does not have one step per level.
    PathLength,
}

/// The census leaf of a secret key.
pub open spec fn public_key(secret_key: nat) -> nat {
    poseidon(secret_key, secret_key)
}

/// The nullifier of a secret key in the voting process whose id has the
/// parts `id_0` and `id_1`.
pub open spec fn nullifier(secret_key: nat, id_0: nat, id_1: nat) -> nat {
    poseidon(secret_key, poseidon(id_0, id_1))
}

/// The pair `(a, b)`, exchanged when `bit` is set.
pub open spec fn select(bit: bool, a: nat, b: nat) -> (nat, nat) {
    if bit {
        (b, a)
    } else {
        (a, b)
    }
}

/// The value reached from `start` after `steps` levels: at each level the
/// running value and the sibling are ordered by the direction bit and hashed.
pub open spec fn climb(start: nat, siblings: Seq<nat>, directions: Seq<bool>, steps: nat) -> nat
    decreases steps,
{
    if steps == 0 {
        start
    } else {
        let below = climb(start, siblings, directions, (steps - 1) as nat);
        let pair = select(directions[steps - 1], below, siblings[steps - 1]);
        poseidon(pair.0, pair.1)
    }
}

/// For one secret key, two different process ids have the same nullifier
/// only through a collision of the compression function: either the two
/// process ids hash alike, or their distinct hashes do under the key.
pub proof fn lemma_nullifier_collision(secret_key: nat, first: (nat, nat), second: (nat, nat))
    requires
        first != second,
        nullifier(secret_key, first.0, first.1) == nullifier(secret_key, second.0, second.1),
    ensures
        collides(first, second) || collides(
            (secret_key, poseidon(first.0, first.1)),
            (secret_key, poseidon(second.0, second.1)),
        ),
{
}

/// The assignment of the relation for a census tree with `LVL` levels above
/// the leaves. A value that is absent is `None`.
#[derive(Clone, Copy)]
pub struct FranchiseCircuit<const LVL: usize> {
    /// The direction bit of each level: when set, the sibling is the left
    /// operand of the hash and the running value the right one.
    pub pri_index: Option<[bool; LVL]>,
    /// The sibling at each level, from the leaves up.
    pub pri_siblings: Option<[Fp; LVL]>,
    /// The voter's secret key.
    pub pri_secret_key: Option<Fp>,
    /// The two parts of the id of the voting process.
    pub pub_processid: Option<[Fp; 2]>,
    /// The commitment to the ballot, passed through unchanged.
    pub pub_votehash: Option<Fp>,
}

impl<const LVL: usize> Default for FranchiseCircuit<LVL> {
    /// The assignment with no value in it.
    fn default() -> (circuit: Self)
        ensures
            circuit.pri_index is None,
            circuit.pri_siblings is None,
            circuit.pri_secret_key is None,
            circuit.pub_processid is None,
            circuit.pub_votehash is None,
    {
        FranchiseCircuit {
            pri_index: None,
            pri_siblings: None,
            pri_secret_key: None,
            pub_processid: None,
            pub_votehash: None,
        }
    }
}

/// Orders a pair: exchanged when `swap` is set, unchanged when it is not.
/// Fails when `swap` is absent.
pub fn cond_swap(pair: (Fp, Fp), swap: Option<bool>) -> (r: Result<(Fp, Fp), Error>)
    ensures
        match swap {
            Some(bit) => r matches Ok(out) && (out.0@, out.1@) == select(bit, pair.0@, pair.1@),
            None => r == Err::<(Fp, Fp), Error>(Error::Synthesis),
        },
{
    match swap {
        Some(bit) => {
            if bit {
                Ok((pair.1, pair.0))
            } else {
                Ok(pair)
            }
        },
        None => Err(Error::Synthesis),
    }
}

impl<const LVL: usize> FranchiseCircuit<LVL> {
    /// The path is present, or no level needs one.
    pub open spec fn has_path(&self) -> bool {
        LVL == 0 || (self.pri_siblings is Some && self.pri_index is Some)
    }

    /// Every value that the relation reads is present.
    pub open spec fn is_complete(&self) -> bool {
        &&& self.pub_processid is Some
        &&& self.pri_secret_key is Some
        &&& self.pub_votehash is Some
        &&& self.has_path()
    }

    /// The values of the siblings on the path.
    pub open spec fn siblings(&self) -> Seq<nat> {
        values(self.pri_siblings.unwrap()@)
    }

    /// The direction bits of the path.
    pub open spec fn directions(&self) -> Seq<bool> {
        self.pri_index.unwrap()@
    }

    /// The census root that the assignment derives.
    pub open spec fn derived_root(&self) -> nat {
        climb(
            public_key(self.pri_secret_key.unwrap()@),
            self.siblings(),
            self.directions(),
            LVL as nat,
        )
    }

    /// The nullifier that the assignment derives.
    pub open spec fn derived_nullifier(&self) -> nat {
        nullifier(
            self.pri_secret_key.unwrap()@,
            self.pub_processid.unwrap()@[0]@,
            self.pub_processid.unwrap()@[1]@,
        )
    }

    /// The public values of the assignment: root, nullifier, vote hash.
    pub open spec fn outputs(&self) -> Seq<nat> {
        seq![self.derived_root(), self.derived_nullifier(), self.pub_votehash.unwrap()@]
    }

    /// The relation holds of the assignment and the declared public values.
    pub open spec fn satisfied_by(&self, public: Seq<nat>) -> bool {
        self.is_complete() && public == self.outputs()
    }

    /// The hash of a pair of values.
    pub fn hash(&self, values: [Fp; 2]) -> (digest: Fp)
        ensures
            digest@ == poseidon(values@[0]@, values@[1]@),
    {
        poseidon::hash(values[0], values[1])
    }

    /// Re-derives the root from `root`, the value at the leaf, by ordering
    /// and hashing with the sibling of each level.
    pub fn merkle_tree(&self, root: Fp) -> (r: Result<Fp, Error>)
        ensures
            r is Ok <==> self.has_path(),
            r matches Ok(top) ==> top@ == climb(
                root@,
                self.siblings(),
                self.directions(),
                LVL as nat,
            ),
            r matches Err(e) ==> e == Error::Synthesis,
    {
        let mut root = root;
        let ghost start = root@;
        let mut n: usize = 0;
        while n < LVL
            invariant
                n <= LVL,
                n > 0 ==> self.has_path(),
                root@ == climb(start, self.siblings(), self.directions(), n as nat),
            decreases LVL - n,
        {
            let value = match &self.pri_siblings {
                Some(v) => Some(v[n]),
                None => None,
            };
            let leaf = match self.load_private_input(value) {
                Ok(leaf) => leaf,
                Err(e) => {
                    return Err(e);
                },
            };
            let bit = match &self.pri_index {
                Some(v) => Some(v[n]),
                None => None,
            };
            let (left, right) = match cond_swap((root, leaf), bit) {
                Ok(pair) => pair,
                Err(e) => {
                    return Err(e);
                },
            };
            root = self.hash([left, right]);
            n = n + 1;
        }
        Ok(root)
    }

    /// Reads a value of the assignment. Fails when it is absent.
    pub fn load_private_input(&self, value: Option<Fp>) -> (r: Result<Fp, Error>)
        ensures
            match value {
                Some(v) => r == Ok::<Fp, Error>(v),
                None => r == Err::<Fp, Error>(Error::Synthesis),
            },
    {
        match value {
            Some(v) => Ok(v),
            None => Err(Error::Synthesis),
        }
    }

    /// The assignment with no value in it.
    pub fn without_witnesses(&self) -> (circuit: Self)
        ensures
            circuit.pri_index is None,
            circuit.pri_siblings is None,
            circuit.pri_secret_key is None,
            circuit.pub_processid is None,
            circuit.pub_votehash is None,
    {
        Self::default()
    }

    /// Evaluates the relation: derives the public key, the process id hash,
    /// the nullifier and the root, and returns the public values in their
    /// fixed order: root, nullifier, vote hash.
    pub fn synthesize(&self) -> (r: Result<[Fp; 3], Error>)
        ensures
            r is Ok <==> self.is_complete(),
            r matches Ok(public) ==> values(public@) == self.outputs(),
            r matches Err(e) ==> e == Error::Synthesis,
    {
        let id_0 = match &self.pub_processid {
            Some(v) => Some(v[0]),
            None => None,
        };
        let process_id_0 = match self.load_private_input(id_0) {
            Ok(v) => v,
            Err(e) => {
                return Err(e);
            },
        };
        let id_1 = match &self.pub_processid {
            Some(v) => Some(v[1]),
            None => None,
        };
        let process_id_1 = match self.load_private_input(id_1) {
            Ok(v) => v,
            Err(e) => {
                return Err(e);
            },
        };
        let secret_key = match self.load_private_input(self.pri_secret_key) {
            Ok(v) => v,
            Err(e) => {
                return Err(e);
            },
        };
        let vote_hash = match self.load_private_input(self.pub_votehash) {
            Ok(v) => v,
            Err(e) => {
                return Err(e);
            },
        };
        let public_key = self.hash([secret_key, secret_key]);
        let process_id_hash = self.hash([process_id_0, process_id_1]);
        let nullifier = self.hash([secret_key, process_id_hash]);
        let root = match self.merkle_tree(public_key) {
            Ok(v) => v,
            Err(e) => {
                return Err(e);
            },
        };
        let public = [root, nullifier, vote_hash];
        assert(values(public@) =~= self.outputs());
        Ok(public)
    }

    /// Whether the relation holds of the assignment and the declared public
    /// values. Fails when the assignment cannot be evaluated.
    pub fn verify(&self, public: &[Fp]) -> (r: Result<bool, Error>)
        ensures
            r is Ok <==> self.is_complete(),
            r matches Ok(accepted) ==> accepted == self.satisfied_by(values(public@)),
            r matches Err(e) ==> e == Error::Synthesis,
    {
        let derived = match self.synthesize() {
            Ok(v) => v,
            Err(e) => {
                return Err(e);
            },
        };
        if public.len() != 3 {
            assert(self.outputs().len() == 3);
            return Ok(false);
        }
        proof {
            lemma_view_injective(public[0], derived[0]);
            lemma_view_injective(public[1], derived[1]);
            lemma_view_injective(public[2], derived[2]);
            if values(public@) == self.outputs() {
                assert(values(public@)[0] == self.outputs()[0]);
                assert(values(public@)[1] == self.outputs()[1]);
                assert(values(public@)[2] == self.outputs()[2]);
            }
        }
        let accepted = public[0] == derived[0] && public[1] == derived[1] && public[2]
            == derived[2];
        assert(accepted ==> values(public@) =~= self.outputs());
        Ok(accepted)
    }
}

/// Tampering is detected and leaves no trace: when the relation holds of
/// three public values, adding a nonzero field element to any one of them
/// makes it fail, and subtracting the element again makes it hold.
pub proof fn lemma_tamper_sensitivity<const LVL: usize>(
    circuit: FranchiseCircuit<LVL>,
    public: Seq<nat>,
    position: int,
    delta: nat,
)
    requires
        circuit.satisfied_by(public),
        0 <= position < 3,
        public[position] < modulus(),
        0 < delta < modulus(),
    ensures
        !circuit.satisfied_by(public.update(position, field_add(public[position], delta))),
        circuit.satisfied_by(
            public.update(position, field_add(public[position], delta)).update(
                position,
                field_sub(field_add(public[position], delta), delta),
            ),
        ),
{
    let tampered = public.update(position, field_add(public[position], delta));
    lemma_add_changes(public[position], delta);
    lemma_sub_undoes_add(public[position], delta);
    assert(tampered[position] != public[position]);
    assert(tampered.update(position, public[position]) =~= public);
}

} // verus!
