use forge_clone::artifact::ArtifactModel;
use forge_clone::config_doc::{find_entry, LeafValue};
use forge_clone::errors::CloneError;
use forge_clone::metadata::{
    ContractMetadataModel, LibraryBinding, OptimizerModel, SettingsModel,
};
use forge_clone::pipeline::{
    advance, check_event_wf, check_request_wf, meta_wf_check, CloneAction, CloneEvent,
    ClonePipeline, CloneRequest, CloneState, ProjectContext,
};
use forge_clone::remapping::{RawRemapping, Remapping};
use forge_clone::source_tree::{SourceFile, SourceTree};
use forge_clone::synthesize::default_config_doc;

fn segs(parts: &[&str]) -> Vec<String> {
    parts.iter().map(|s| s.to_string()).collect()
}

fn sample_meta() -> ContractMetadataModel {
    ContractMetadataModel {
        contract_name: "Token".to_string(),
        compiler_version: "v0.8.20+commit.a1b2c3e0".to_string(),
        constructor_arguments: vec![0xca, 0xfe],
        sources: SourceTree {
            files: vec![
                SourceFile {
                    path: segs(&["contracts", "Token.sol"]),
                    content: "contract Token {}".to_string(),
                },
                SourceFile {
                    path: segs(&["@oz", "ERC20.sol"]),
                    content: "contract ERC20 {}".to_string(),
                },
            ],
        },
        settings: SettingsModel {
            stop_after: None,
            remappings: vec![Remapping {
                context: None,
                name: segs(&["@oz"]),
                path: segs(&["@oz"]),
            }],
            optimizer: OptimizerModel { enabled: Some(true), runs: Some(200), details: None },
            metadata: None,
            evm_version: Some("london".to_string()),
            via_ir: None,
            libraries: Vec::<LibraryBinding>::new(),
        },
    }
}

fn sample_request() -> CloneRequest {
    CloneRequest {
        address: "0x9d27527Ada2CF29fBDAB2973cfa243845a08Bd3F".to_string(),
        chain_id: 1,
        keep_structure: false,
        no_remappings_txt: false,
        with_commit: true,
    }
}

fn sample_ctx() -> ProjectContext {
    ProjectContext {
        root: "/proj".to_string(),
        profile: "default".to_string(),
        existing: vec![segs(&["src"]), segs(&["lib"]), segs(&["lib", "forge-std"])],
        pre_existing_remappings: vec![RawRemapping {
            context: None,
            name: "forge-std/".to_string(),
            path: "/proj/lib/forge-std/src/".to_string(),
        }],
        remappings_file_present: false,
        config: default_config_doc(&"default".to_string()),
    }
}

fn run_to_record(req: CloneRequest) -> (Vec<String>, forge_clone::artifact::CloneMetadata) {
    let mut log: Vec<String> = Vec::new();
    let p = ClonePipeline { request: req, state: CloneState::Fetching };
    let (p, action) = advance(p, CloneEvent::Fetched { items: vec![sample_meta()] }).unwrap();
    match &action {
        CloneAction::InitProject { remove_samples } => {
            assert_eq!(
                remove_samples,
                &vec![
                    "src/Counter.sol".to_string(),
                    "test/Counter.t.sol".to_string(),
                    "script/Counter.s.sol".to_string(),
                ]
            );
            log.push(format!("init -{}", remove_samples.len()));
        }
        other => panic!("unexpected action: {:?}", other),
    }
    let (p, action) = advance(p, CloneEvent::Initialized { ctx: sample_ctx() }).unwrap();
    match &action {
        CloneAction::MaterializeSources { steps } => {
            log.push(format!("materialize {}", steps.len()));
        }
        other => panic!("unexpected action: {:?}", other),
    }
    let (p, action) = advance(p, CloneEvent::Materialized).unwrap();
    match &action {
        CloneAction::WriteConfig { doc, remappings_file } => {
            let rems = remappings_file.clone().expect("remappings file expected");
            log.push(format!("config {} entries", doc.entries.len()));
            log.push(rems);
            let i = find_entry(doc, &segs(&["profile", "default", "solc_version"])).unwrap();
            match &doc.entries[i].value {
                LeafValue::Str(s) => assert_eq!(s, "0.8.20"),
                other => panic!("unexpected solc_version leaf: {:?}", other),
            }
        }
        other => panic!("unexpected action: {:?}", other),
    }
    let (p, action) = advance(p, CloneEvent::ConfigWritten).unwrap();
    assert!(matches!(action, CloneAction::CompileProject));
    let artifacts = vec![
        ArtifactModel {
            file: "src/Token.sol".to_string(),
            contract_name: "Token".to_string(),
            storage_layout: Some("{\"storage\":[{\"slot\":\"0\"}]}".to_string()),
        },
        ArtifactModel {
            file: "lib/@oz/ERC20.sol".to_string(),
            contract_name: "ERC20".to_string(),
            storage_layout: Some("{}".to_string()),
        },
    ];
    let (p, action) = advance(p, CloneEvent::Compiled { artifacts }).unwrap();
    assert!(matches!(action, CloneAction::FetchCreation));
    let (p, action) = advance(
        p,
        CloneEvent::CreationFetched {
            transaction_hash: "0x50b0".to_string(),
            deployer: "0x35Fb".to_string(),
        },
    )
    .unwrap();
    let record = match action {
        CloneAction::PersistRecord { record } => record,
        other => panic!("unexpected action: {:?}", other),
    };
    let (p, action) = advance(p, CloneEvent::Persisted).unwrap();
    match &action {
        CloneAction::CommitChanges { message } => {
            assert_eq!(message, "chore: forge clone 0x9d27527Ada2CF29fBDAB2973cfa243845a08Bd3F");
        }
        other => panic!("unexpected action: {:?}", other),
    }
    let (p, action) = advance(p, CloneEvent::Committed).unwrap();
    assert!(matches!(action, CloneAction::Finish));
    assert!(matches!(p.state, CloneState::Done));
    (log, record)
}

#[test]
fn a_full_run_reaches_the_record() {
    let (log, record) = run_to_record(sample_request());
    assert_eq!(log[0], "init -3");
    // Two moves (the flattened contracts child and the scoped unit) plus
    // nothing else.
    assert_eq!(log[1], "materialize 2");
    assert_eq!(
        log[3],
        "forge-std/=lib/forge-std/src/\ncontracts/Token.sol=src/Token.sol\n@oz=lib/@oz/\n@oz=lib/@oz/"
    );
    assert_eq!(record.path, "src/Token.sol");
    assert_eq!(record.target_contract, "Token");
    assert_eq!(record.chain_id, 1);
    assert_eq!(record.creation_transaction, "0x50b0");
    assert_eq!(record.deployer, "0x35Fb");
    assert_eq!(record.constructor_arguments, vec![0xca, 0xfe]);
    assert_eq!(record.storage_layout, "{\"storage\":[{\"slot\":\"0\"}]}");
}

#[test]
fn two_runs_over_the_same_inputs_agree() {
    let (log1, record1) = run_to_record(sample_request());
    let (log2, record2) = run_to_record(sample_request());
    assert_eq!(log1, log2);
    assert_eq!(record1.storage_layout, record2.storage_layout);
    assert_eq!(record1.path, record2.path);
}

#[test]
fn an_unverified_fetch_stops_before_any_action() {
    let p = ClonePipeline { request: sample_request(), state: CloneState::Fetching };
    let r = advance(p, CloneEvent::Fetched { items: Vec::new() });
    assert!(matches!(r, Err(CloneError::MetadataNotSingle)));
}

#[test]
fn a_present_remappings_file_is_never_overwritten() {
    let p = ClonePipeline { request: sample_request(), state: CloneState::Fetching };
    let (p, _) = advance(p, CloneEvent::Fetched { items: vec![sample_meta()] }).unwrap();
    let mut ctx = sample_ctx();
    ctx.remappings_file_present = true;
    let (p, _) = advance(p, CloneEvent::Initialized { ctx }).unwrap();
    let r = advance(p, CloneEvent::Materialized);
    assert!(matches!(r, Err(CloneError::RemappingsFileExists)));
}

#[test]
fn an_ambiguous_target_aborts_extraction() {
    let p = ClonePipeline { request: sample_request(), state: CloneState::Fetching };
    let (p, _) = advance(p, CloneEvent::Fetched { items: vec![sample_meta()] }).unwrap();
    let (p, _) = advance(p, CloneEvent::Initialized { ctx: sample_ctx() }).unwrap();
    let (p, _) = advance(p, CloneEvent::Materialized).unwrap();
    let (p, _) = advance(p, CloneEvent::ConfigWritten).unwrap();
    let artifacts = vec![
        ArtifactModel {
            file: "src/A.sol".to_string(),
            contract_name: "Token".to_string(),
            storage_layout: Some("{}".to_string()),
        },
        ArtifactModel {
            file: "src/B.sol".to_string(),
            contract_name: "Token".to_string(),
            storage_layout: Some("{}".to_string()),
        },
    ];
    let r = advance(p, CloneEvent::Compiled { artifacts });
    assert!(matches!(r, Err(CloneError::AmbiguousContract)));
}

#[test]
fn malformed_metadata_is_caught_before_the_machine() {
    // A file path that is a prefix of another cannot lie on a filesystem.
    let mut meta = sample_meta();
    meta.sources.files.push(SourceFile {
        path: segs(&["contracts"]),
        content: "contract X {}".to_string(),
    });
    assert!(!meta_wf_check(&meta));
    assert!(!check_event_wf(&CloneEvent::Fetched { items: vec![meta] }));

    // An empty path segment is refused too.
    let mut meta = sample_meta();
    meta.sources.files[0].path = vec!["".to_string()];
    assert!(!meta_wf_check(&meta));

    // The sample entry itself is fine.
    assert!(meta_wf_check(&sample_meta()));
    assert!(check_event_wf(&CloneEvent::Fetched { items: vec![sample_meta()] }));
}

#[test]
fn a_relative_root_is_caught_before_the_machine() {
    let mut ctx = sample_ctx();
    ctx.root = "proj".to_string();
    assert!(!check_event_wf(&CloneEvent::Initialized { ctx }));
    assert!(check_event_wf(&CloneEvent::Initialized { ctx: sample_ctx() }));
}

#[test]
fn an_oversized_chain_id_is_caught_before_the_machine() {
    let mut req = sample_request();
    req.chain_id = u64::MAX;
    assert!(!check_request_wf(&req));
    assert!(check_request_wf(&sample_request()));
}
