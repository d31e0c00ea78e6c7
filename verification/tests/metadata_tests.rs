use forge_clone::artifact::{collect_clone_metadata, find_main_contract, ArtifactModel};
use forge_clone::errors::CloneError;
use forge_clone::metadata::{
    parse_compiler_version, select_single_metadata, u64_to_string, ContractMetadataModel,
    LibraryBinding, OptimizerModel, SettingsModel,
};
use forge_clone::remapping::Remapping;
use forge_clone::source_tree::{SourceFile, SourceTree};

fn sample_meta(version: &str) -> ContractMetadataModel {
    ContractMetadataModel {
        contract_name: "Token".to_string(),
        compiler_version: version.to_string(),
        constructor_arguments: vec![0xde, 0xad],
        sources: SourceTree {
            files: vec![SourceFile {
                path: vec!["Token.sol".to_string()],
                content: "contract Token {}".to_string(),
            }],
        },
        settings: SettingsModel {
            stop_after: None,
            remappings: Vec::<Remapping>::new(),
            optimizer: OptimizerModel { enabled: None, runs: None, details: None },
            metadata: None,
            evm_version: None,
            via_ir: None,
            libraries: Vec::<LibraryBinding>::new(),
        },
    }
}

#[test]
fn a_single_verified_entry_is_accepted() {
    let r = select_single_metadata(vec![sample_meta("v0.8.20+commit.a1b2c3e0")]);
    assert_eq!(r.unwrap().contract_name, "Token");
}

#[test]
fn zero_or_several_entries_are_rejected() {
    let r = select_single_metadata(Vec::new());
    assert!(matches!(r, Err(CloneError::MetadataNotSingle)));
    let r = select_single_metadata(vec![sample_meta("v0.8.20"), sample_meta("v0.8.20")]);
    assert!(matches!(r, Err(CloneError::MetadataNotSingle)));
}

#[test]
fn the_unsupported_dialect_is_rejected() {
    let r = select_single_metadata(vec![sample_meta("vyper:0.2.11")]);
    assert!(matches!(r, Err(CloneError::VyperNotSupported)));
}

#[test]
fn version_strings_parse_to_their_triple() {
    assert_eq!(parse_compiler_version("v0.8.20+commit.a1b2c3e0").unwrap(), (0, 8, 20));
    assert_eq!(parse_compiler_version("0.4.11").unwrap(), (0, 4, 11));
    assert_eq!(parse_compiler_version("v0.8.20-nightly.2021.1.1").unwrap(), (0, 8, 20));
    assert_eq!(parse_compiler_version("v10.2.333").unwrap(), (10, 2, 333));
}

#[test]
fn malformed_version_strings_are_rejected() {
    assert!(matches!(parse_compiler_version("v0.8"), Err(CloneError::BadCompilerVersion)));
    assert!(matches!(parse_compiler_version(""), Err(CloneError::BadCompilerVersion)));
    assert!(matches!(parse_compiler_version("a.b.c"), Err(CloneError::BadCompilerVersion)));
    assert!(matches!(parse_compiler_version("v0..20"), Err(CloneError::BadCompilerVersion)));
    assert!(matches!(
        parse_compiler_version("v0.8.20pre"),
        Err(CloneError::BadCompilerVersion)
    ));
    // A nineteen-digit run does not fit the returned word.
    assert!(matches!(
        parse_compiler_version("v1234567890123456789.0.0"),
        Err(CloneError::BadCompilerVersion)
    ));
}

#[test]
fn numbers_render_in_decimal() {
    assert_eq!(u64_to_string(0), "0");
    assert_eq!(u64_to_string(7), "7");
    assert_eq!(u64_to_string(1234), "1234");
    assert_eq!(u64_to_string(18_446_744_073_709_551_615), "18446744073709551615");
}

fn art(file: &str, name: &str, layout: Option<&str>) -> ArtifactModel {
    ArtifactModel {
        file: file.to_string(),
        contract_name: name.to_string(),
        storage_layout: layout.map(|s| s.to_string()),
    }
}

#[test]
fn the_unique_artifact_is_found() {
    let arts = vec![
        art("src/A.sol", "A", Some("{}")),
        art("src/Token.sol", "Token", Some("{\"storage\":[]}")),
    ];
    assert_eq!(find_main_contract(&arts, &"Token".to_string()).unwrap(), 1);
}

#[test]
fn zero_matches_fail_and_two_matches_are_ambiguous() {
    let arts = vec![art("src/A.sol", "A", None)];
    let r = find_main_contract(&arts, &"Token".to_string());
    assert!(matches!(r, Err(CloneError::ContractNotFound)));
    let arts = vec![
        art("src/A.sol", "Token", None),
        art("src/B.sol", "Token", None),
    ];
    let r = find_main_contract(&arts, &"Token".to_string());
    assert!(matches!(r, Err(CloneError::AmbiguousContract)));
}

#[test]
fn the_record_preserves_the_compiled_fingerprint() {
    let arts = vec![
        art("src/A.sol", "A", Some("{}")),
        art("src/Token.sol", "Token", Some("{\"storage\":[{\"slot\":\"0\"}]}")),
    ];
    let m = collect_clone_metadata(
        &arts,
        &"Token".to_string(),
        &"0x9d27527Ada2CF29fBDAB2973cfa243845a08Bd3F".to_string(),
        1,
        &"0xabc".to_string(),
        &"0xdef".to_string(),
        &vec![1, 2, 3],
    )
    .unwrap();
    assert_eq!(m.path, "src/Token.sol");
    assert_eq!(m.target_contract, "Token");
    assert_eq!(m.address, "0x9d27527Ada2CF29fBDAB2973cfa243845a08Bd3F");
    assert_eq!(m.chain_id, 1);
    assert_eq!(m.creation_transaction, "0xabc");
    assert_eq!(m.deployer, "0xdef");
    assert_eq!(m.constructor_arguments, vec![1, 2, 3]);
    // The persisted fingerprint is exactly the layout the compile of the
    // fresh clone reported.
    assert_eq!(m.storage_layout, arts[1].storage_layout.clone().unwrap());
}

#[test]
fn a_missing_layout_is_fatal() {
    let arts = vec![art("src/Token.sol", "Token", None)];
    let r = collect_clone_metadata(
        &arts,
        &"Token".to_string(),
        &"0x0".to_string(),
        1,
        &"0x1".to_string(),
        &"0x2".to_string(),
        &Vec::new(),
    );
    assert!(matches!(r, Err(CloneError::StorageLayoutMissing)));
}
