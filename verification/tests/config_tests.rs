use forge_clone::config_doc::{set_path, table_exists_exec, find_entry, ConfigDoc, LeafValue};
use forge_clone::errors::CloneError;
use forge_clone::metadata::{
    LibraryBinding, MetadataSettingsModel, OptimizerDetailsModel, OptimizerModel, SettingsModel,
    YulDetailsModel,
};
use forge_clone::remapping::Remapping;
use forge_clone::synthesize::{default_config_doc, synthesize_config};

fn segs(parts: &[&str]) -> Vec<String> {
    parts.iter().map(|s| s.to_string()).collect()
}

fn empty_optimizer() -> OptimizerModel {
    OptimizerModel { enabled: None, runs: None, details: None }
}

fn plain_settings() -> SettingsModel {
    SettingsModel {
        stop_after: None,
        remappings: Vec::<Remapping>::new(),
        optimizer: empty_optimizer(),
        metadata: None,
        evm_version: None,
        via_ir: None,
        libraries: Vec::<LibraryBinding>::new(),
    }
}

fn profile() -> String {
    "default".to_string()
}

fn leaf_at<'a>(doc: &'a ConfigDoc, parts: &[&str]) -> Option<&'a LeafValue> {
    let p = segs(parts);
    find_entry(doc, &p).map(|i| &doc.entries[i].value)
}

#[test]
fn setting_under_a_missing_table_fails_loudly() {
    let doc = default_config_doc(&profile());
    let r = set_path(&doc, &segs(&["profile", "default", "ghost", "key"]), LeafValue::Bool(true));
    assert!(matches!(r, Err(CloneError::UnknownConfigKey)));
}

#[test]
fn setting_a_leaf_overwrites_in_place() {
    let doc = default_config_doc(&profile());
    let doc = set_path(&doc, &segs(&["profile", "default", "src"]), LeafValue::Str("lib".to_string()))
        .unwrap();
    assert!(matches!(
        leaf_at(&doc, &["profile", "default", "src"]),
        Some(LeafValue::Str(s)) if s == "lib"
    ));
    // Position kept: `src` is still the first entry.
    assert_eq!(doc.entries[0].path.join("/"), "profile/default/src");
}

#[test]
fn synthesized_optimizer_settings_read_back() {
    // The explorer reported the optimizer on with 200 runs and no Yul
    // details; the document says exactly that and holds no yulDetails
    // sub-section.
    let mut settings = plain_settings();
    settings.optimizer = OptimizerModel {
        enabled: Some(true),
        runs: Some(200),
        details: Some(OptimizerDetailsModel {
            peephole: Some(true),
            inliner: None,
            jumpdest_remover: None,
            order_literals: None,
            deduplicate: None,
            cse: None,
            constant_optimizer: None,
            simple_counter_for_loop_unchecked_increment: None,
            yul: Some(false),
            yul_details: None,
        }),
    };
    let doc = default_config_doc(&profile());
    let out = synthesize_config(
        doc,
        &profile(),
        &settings,
        1,
        0,
        8,
        20,
        &Vec::<String>::new(),
        true,
        false,
    )
    .unwrap();
    assert!(matches!(
        leaf_at(&out, &["profile", "default", "optimizer"]),
        Some(LeafValue::Bool(true))
    ));
    assert!(matches!(
        leaf_at(&out, &["profile", "default", "optimizer_runs"]),
        Some(LeafValue::Int(200))
    ));
    assert!(matches!(
        leaf_at(&out, &["profile", "default", "optimizer_details", "peephole"]),
        Some(LeafValue::Bool(true))
    ));
    assert!(matches!(
        leaf_at(&out, &["profile", "default", "optimizer_details", "yul"]),
        Some(LeafValue::Bool(false))
    ));
    assert!(!table_exists_exec(
        &out,
        &segs(&["profile", "default", "optimizer_details", "yulDetails"])
    ));
    assert!(leaf_at(&out, &["profile", "default", "optimizer_details", "inliner"]).is_none());
}

#[test]
fn yul_details_populate_their_own_table() {
    let mut settings = plain_settings();
    settings.optimizer = OptimizerModel {
        enabled: Some(true),
        runs: Some(1000),
        details: Some(OptimizerDetailsModel {
            peephole: None,
            inliner: None,
            jumpdest_remover: None,
            order_literals: None,
            deduplicate: None,
            cse: None,
            constant_optimizer: None,
            simple_counter_for_loop_unchecked_increment: None,
            yul: Some(true),
            yul_details: Some(YulDetailsModel {
                stack_allocation: Some(true),
                optimizer_steps: Some("dhfoDgvulfnTUtnIf".to_string()),
            }),
        }),
    };
    let doc = default_config_doc(&profile());
    let out = synthesize_config(
        doc,
        &profile(),
        &settings,
        1,
        0,
        8,
        20,
        &Vec::<String>::new(),
        true,
        false,
    )
    .unwrap();
    assert!(matches!(
        leaf_at(
            &out,
            &["profile", "default", "optimizer_details", "yulDetails", "stackAllocation"]
        ),
        Some(LeafValue::Bool(true))
    ));
    assert!(matches!(
        leaf_at(
            &out,
            &["profile", "default", "optimizer_details", "yulDetails", "optimizerSteps"]
        ),
        Some(LeafValue::Str(s)) if s == "dhfoDgvulfnTUtnIf"
    ));
}

#[test]
fn stop_after_is_refused() {
    let mut settings = plain_settings();
    settings.stop_after = Some("parsing".to_string());
    let doc = default_config_doc(&profile());
    let r = synthesize_config(
        doc,
        &profile(),
        &settings,
        1,
        0,
        8,
        20,
        &Vec::<String>::new(),
        false,
        false,
    );
    assert!(matches!(r, Err(CloneError::StopAfterSet)));
}

#[test]
fn version_and_chain_are_pinned() {
    let settings = plain_settings();
    let doc = default_config_doc(&profile());
    let out = synthesize_config(
        doc,
        &profile(),
        &settings,
        42161,
        0,
        8,
        20,
        &Vec::<String>::new(),
        false,
        false,
    )
    .unwrap();
    assert!(matches!(
        leaf_at(&out, &["profile", "default", "solc_version"]),
        Some(LeafValue::Str(s)) if s == "0.8.20"
    ));
    assert!(matches!(
        leaf_at(&out, &["profile", "default", "chain_id"]),
        Some(LeafValue::Int(42161))
    ));
    assert!(matches!(
        leaf_at(&out, &["profile", "default", "auto_detect_solc"]),
        Some(LeafValue::Bool(false))
    ));
    assert!(matches!(
        leaf_at(&out, &["profile", "default", "auto_detect_remappings"]),
        Some(LeafValue::Bool(false))
    ));
}

#[test]
fn default_evm_version_is_left_unset() {
    let mut settings = plain_settings();
    settings.evm_version = Some("Default".to_string());
    let doc = default_config_doc(&profile());
    let out = synthesize_config(
        doc,
        &profile(),
        &settings,
        1,
        0,
        8,
        20,
        &Vec::<String>::new(),
        false,
        false,
    )
    .unwrap();
    assert!(leaf_at(&out, &["profile", "default", "evm_version"]).is_none());

    let mut settings = plain_settings();
    settings.evm_version = Some("london".to_string());
    let doc = default_config_doc(&profile());
    let out = synthesize_config(
        doc,
        &profile(),
        &settings,
        1,
        0,
        8,
        20,
        &Vec::<String>::new(),
        false,
        false,
    )
    .unwrap();
    assert!(matches!(
        leaf_at(&out, &["profile", "default", "evm_version"]),
        Some(LeafValue::Str(s)) if s == "london"
    ));
}

#[test]
fn libraries_are_rewritten_and_rendered() {
    let mut settings = plain_settings();
    settings.libraries = vec![LibraryBinding {
        path: segs(&["contracts", "Math.sol"]),
        name: "Math".to_string(),
        address: "0xDb53f47aC61FE54F456A4eb3E09832D08Dd7BEec".to_string(),
    }];
    let doc = default_config_doc(&profile());
    let out = synthesize_config(
        doc,
        &profile(),
        &settings,
        1,
        0,
        8,
        20,
        &Vec::<String>::new(),
        true,
        false,
    )
    .unwrap();
    match leaf_at(&out, &["profile", "default", "libraries"]) {
        Some(LeafValue::StrList(l)) => {
            assert_eq!(
                l,
                &vec!["src/Math.sol:Math:0xDb53f47aC61FE54F456A4eb3E09832D08Dd7BEec".to_string()]
            );
        }
        other => panic!("unexpected libraries leaf: {:?}", other),
    }
}

#[test]
fn metadata_knobs_apply_only_when_reported() {
    let mut settings = plain_settings();
    settings.metadata = Some(MetadataSettingsModel {
        use_literal_content: Some(true),
        bytecode_hash: Some("none".to_string()),
        cbor_metadata: None,
    });
    settings.via_ir = Some(true);
    let doc = default_config_doc(&profile());
    let out = synthesize_config(
        doc,
        &profile(),
        &settings,
        1,
        0,
        8,
        20,
        &Vec::<String>::new(),
        false,
        false,
    )
    .unwrap();
    assert!(matches!(
        leaf_at(&out, &["profile", "default", "use_literal_content"]),
        Some(LeafValue::Bool(true))
    ));
    assert!(matches!(
        leaf_at(&out, &["profile", "default", "bytecode_hash"]),
        Some(LeafValue::Str(s)) if s == "none"
    ));
    assert!(leaf_at(&out, &["profile", "default", "cbor_metadata"]).is_none());
    assert!(matches!(
        leaf_at(&out, &["profile", "default", "via_ir"]),
        Some(LeafValue::Bool(true))
    ));
}
