//! Locating the target contract among the compiled artifacts and
//! assembling the persisted clone record.

use vstd::prelude::*;
use vstd::string::*;
use crate::errors::CloneError;

verus! {

/// One compiled artifact, as far as the pipeline reads it: the source
/// file it came from, the contract it defines, and the storage layout
/// payload if the compile produced one.
#[derive(Debug)]
pub struct ArtifactModel {
    /// The defining source file, relative to the project root.
    pub file: String,
    /// The contract's name.
    pub contract_name: String,
    /// The storage layout payload, when layout output was requested and
    /// produced.
    pub storage_layout: Option<String>,
}

/// The persisted clone record: on-chain provenance and the storage
/// fingerprint at clone time.  Created once at the end of a successful
/// run and thereafter read-only.
#[derive(Debug)]
pub struct CloneMetadata {
    /// The source file declaring the contract, relative to the root.
    pub path: String,
    /// The contract's name.
    pub target_contract: String,
    /// The contract's on-chain address.
    pub address: String,
    /// The chain the contract lives on.
    pub chain_id: u64,
    /// The hash of the creation transaction.
    pub creation_transaction: String,
    /// The deployer: the sender of the creation transaction.
    pub deployer: String,
    /// The constructor argument bytes.
    pub constructor_arguments: Vec<u8>,
    /// The storage layout reported for the freshly cloned sources.
    pub storage_layout: String,
}

/// How many artifacts carry the target name.
pub open spec fn match_count(arts: Seq<ArtifactModel>, name: Seq<char>) -> nat
    decreases arts.len(),
{
    if arts.len() == 0 {
        0
    } else {
        match_count(arts.drop_last(), name) + if arts.last().contract_name@ == name {
            1nat
        } else {
            0nat
        }
    }
}

/// No name among the first `k` artifacts: the count there is zero.
pub proof fn lemma_count_zero(arts: Seq<ArtifactModel>, name: Seq<char>, k: int)
    requires
        0 <= k <= arts.len(),
        forall|j: int| 0 <= j < k ==> (#[trigger] arts[j]).contract_name@ != name,
    ensures
        match_count(arts.take(k), name) == 0,
    decreases k,
{
    if k > 0 {
        assert(arts.take(k).drop_last() =~= arts.take(k - 1));
        lemma_count_zero(arts, name, k - 1);
    }
}

/// Exactly one name among the first `k` artifacts: the count there is
/// one.
pub proof fn lemma_count_one(arts: Seq<ArtifactModel>, name: Seq<char>, k: int, hit: int)
    requires
        0 <= hit < k <= arts.len(),
        arts[hit].contract_name@ == name,
        forall|j: int| 0 <= j < k && j != hit ==> (#[trigger] arts[j]).contract_name@ != name,
    ensures
        match_count(arts.take(k), name) == 1,
    decreases k,
{
    assert(arts.take(k).drop_last() =~= arts.take(k - 1));
    if hit == k - 1 {
        lemma_count_zero(arts, name, k - 1);
    } else {
        lemma_count_one(arts, name, k - 1, hit);
    }
}

/// The count over a prefix never exceeds the count over the whole.
pub proof fn lemma_match_count_mono(arts: Seq<ArtifactModel>, name: Seq<char>, k: int)
    requires
        0 <= k <= arts.len(),
    ensures
        match_count(arts.take(k), name) <= match_count(arts, name),
    decreases arts.len() - k,
{
    if k < arts.len() {
        assert(arts.take(k + 1).drop_last() =~= arts.take(k));
        lemma_match_count_mono(arts, name, k + 1);
    } else {
        assert(arts.take(k) =~= arts);
    }
}

/// Finds the artifact defining the target contract.  Returns its index
/// exactly when one artifact carries the name; zero matches fail with
/// `ContractNotFound` and several with `AmbiguousContract`.
#[verifier::loop_isolation(false)]
pub fn find_main_contract(artifacts: &Vec<ArtifactModel>, contract: &String) -> (r: Result<
    usize,
    CloneError,
>)
    ensures
        (r is Ok) == (match_count(artifacts@, contract@) == 1),
        r matches Ok(i) ==> i < artifacts@.len() && artifacts@[i as int].contract_name@
            == contract@ && (forall|j: int|
            0 <= j < artifacts@.len() && j != i ==> (#[trigger] artifacts@[j]).contract_name@
                != contract@),
        (r == Err::<usize, CloneError>(CloneError::ContractNotFound)) == (match_count(
            artifacts@,
            contract@,
        ) == 0),
        (r == Err::<usize, CloneError>(CloneError::AmbiguousContract)) == (match_count(
            artifacts@,
            contract@,
        ) >= 2),
{
    let mut found: Option<usize> = None;
    let mut i: usize = 0;
    while i < artifacts.len()
        invariant
            i <= artifacts@.len(),
            match found {
                Some(j) => {
                    &&& j < i
                    &&& artifacts@[j as int].contract_name@ == contract@
                    &&& forall|k: int|
                        0 <= k < i && k != j ==> (#[trigger] artifacts@[k]).contract_name@
                            != contract@
                },
                None => forall|k: int|
                    0 <= k < i ==> (#[trigger] artifacts@[k]).contract_name@ != contract@,
            },
        decreases artifacts@.len() - i,
    {
        let hit = artifacts[i].contract_name.eq(contract);
        if hit {
            match found {
                Some(j) => {
                    proof {
                        lemma_count_one(artifacts@, contract@, i as int, j as int);
                        assert(artifacts@.take(i + 1).drop_last() =~= artifacts@.take(i as int));
                        assert(artifacts@.take(i + 1).last() == artifacts@[i as int]);
                        assert(match_count(artifacts@.take(i + 1), contract@) == 2);
                        lemma_match_count_mono(artifacts@, contract@, i + 1);
                    }
                    return Err(CloneError::AmbiguousContract);
                },
                None => {
                    found = Some(i);
                },
            }
        }
        i = i + 1;
    }
    match found {
        Some(j) => {
            proof {
                lemma_count_one(artifacts@, contract@, artifacts@.len() as int, j as int);
                assert(artifacts@.take(artifacts@.len() as int) =~= artifacts@);
            }
            Ok(j)
        },
        None => {
            proof {
                lemma_count_zero(artifacts@, contract@, artifacts@.len() as int);
                assert(artifacts@.take(artifacts@.len() as int) =~= artifacts@);
            }
            Err(CloneError::ContractNotFound)
        },
    }
}

/// Assembles the clone record from the compiled artifacts and the
/// on-chain creation data.  Succeeds exactly when one artifact carries
/// the target name and that artifact holds a storage layout; the record
/// then copies the artifact's source path and storage layout and the
/// given provenance values verbatim -- in particular, the persisted
/// storage fingerprint is exactly the layout the compile of the fresh
/// clone reported.
pub fn collect_clone_metadata(
    artifacts: &Vec<ArtifactModel>,
    contract_name: &String,
    address: &String,
    chain_id: u64,
    creation_transaction: &String,
    deployer: &String,
    constructor_arguments: &Vec<u8>,
) -> (r: Result<CloneMetadata, CloneError>)
    ensures
        (r is Ok) == (match_count(artifacts@, contract_name@) == 1 && (exists|i: int|
            0 <= i < artifacts@.len() && (#[trigger] artifacts@[i]).contract_name@
                == contract_name@ && artifacts@[i].storage_layout is Some)),
        r matches Ok(m) ==> exists|i: int|
            {
                &&& 0 <= i < artifacts@.len()
                &&& (#[trigger] artifacts@[i]).contract_name@ == contract_name@
                &&& artifacts@[i].storage_layout is Some
                &&& m.path@ == artifacts@[i].file@
                &&& m.storage_layout@ == artifacts@[i].storage_layout->0@
                &&& m.target_contract@ == contract_name@
                &&& m.address@ == address@
                &&& m.chain_id == chain_id
                &&& m.creation_transaction@ == creation_transaction@
                &&& m.deployer@ == deployer@
                &&& m.constructor_arguments@ == constructor_arguments@
            },
        (r == Err::<CloneMetadata, CloneError>(CloneError::ContractNotFound)) == (match_count(
            artifacts@,
            contract_name@,
        ) == 0),
        (r == Err::<CloneMetadata, CloneError>(CloneError::AmbiguousContract)) == (match_count(
            artifacts@,
            contract_name@,
        ) >= 2),
        (r == Err::<CloneMetadata, CloneError>(CloneError::StorageLayoutMissing)) == (match_count(
            artifacts@,
            contract_name@,
        ) == 1 && (forall|i: int|
            0 <= i < artifacts@.len() && (#[trigger] artifacts@[i]).contract_name@
                == contract_name@ ==> artifacts@[i].storage_layout is None)),
{
    let idx = match find_main_contract(artifacts, contract_name) {
        Ok(i) => i,
        Err(e) => {
            return Err(e);
        },
    };
    let art = &artifacts[idx];
    match &art.storage_layout {
        Some(layout) => {
            let m = CloneMetadata {
                path: art.file.clone(),
                target_contract: contract_name.clone(),
                address: address.clone(),
                chain_id,
                creation_transaction: creation_transaction.clone(),
                deployer: deployer.clone(),
                constructor_arguments: crate::pathseg::copy_bytes(constructor_arguments),
                storage_layout: layout.clone(),
            };
            proof {
                assert(artifacts@[idx as int].contract_name@ == contract_name@);
            }
            Ok(m)
        },
        None => {
            proof {
                assert(forall|i: int|
                    0 <= i < artifacts@.len() && (#[trigger] artifacts@[i]).contract_name@
                        == contract_name@ ==> i == idx as int);
            }
            Err(CloneError::StorageLayoutMissing)
        },
    }
}

} // verus!
