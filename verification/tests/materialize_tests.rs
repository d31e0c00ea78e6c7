use forge_clone::errors::CloneError;
use forge_clone::materialize::{plan_materialization, MaterializePlan, PlanStep};
use forge_clone::source_tree::{classify, children_of, top_level_names, EntryClass, SourceFile, SourceTree};

fn path(segs: &[&str]) -> Vec<String> {
    segs.iter().map(|s| s.to_string()).collect()
}

fn tree(paths: &[&[&str]]) -> SourceTree {
    SourceTree {
        files: paths
            .iter()
            .map(|p| SourceFile { path: path(p), content: String::from("contract C {}") })
            .collect(),
    }
}

fn std_existing() -> Vec<Vec<String>> {
    vec![path(&["src"]), path(&["lib"]), path(&["lib", "forge-std"])]
}

fn step_strings(plan: &MaterializePlan) -> Vec<String> {
    plan.steps
        .iter()
        .map(|s| match s {
            PlanStep::Delete { path } => format!("delete {}", path.join("/")),
            PlanStep::CreateDir { path } => format!("mkdir {}", path.join("/")),
            PlanStep::MoveEntry { from, to } => {
                format!("move {} -> {}", from.join("/"), to.join("/"))
            }
        })
        .collect()
}

#[test]
fn classify_recognizes_the_fixed_set() {
    assert!(matches!(classify("src"), EntryClass::SrcLike));
    assert!(matches!(classify("contracts"), EntryClass::ContractsLike));
    assert!(matches!(classify("lib"), EntryClass::LibLike));
    assert!(matches!(classify("node_modules"), EntryClass::NodeModulesLike));
    assert!(matches!(classify("hardhat"), EntryClass::WellKnown));
    assert!(matches!(classify("forge-std"), EntryClass::WellKnown));
    assert!(matches!(classify("@openzeppelin"), EntryClass::Scoped));
    assert!(matches!(classify("Token.sol"), EntryClass::Other));
    assert!(matches!(classify("source"), EntryClass::Other));
}

#[test]
fn listing_deduplicates_in_first_appearance_order() {
    let t = tree(&[
        &["contracts", "a", "A.sol"],
        &["src", "M.sol"],
        &["contracts", "b", "B.sol"],
        &["contracts", "a", "A2.sol"],
    ]);
    let tops = top_level_names(&t);
    assert_eq!(tops, vec!["contracts".to_string(), "src".to_string()]);
    let children = children_of(&t, &"contracts".to_string());
    assert_eq!(children, vec!["a".to_string(), "b".to_string()]);
}

#[test]
fn reorganized_plan_flattens_and_reroots() {
    let t = tree(&[
        &["contracts", "token", "T.sol"],
        &["src", "Main.sol"],
        &["@oz", "C.sol"],
        &["hardhat", "H.sol"],
        &["node_modules", "m", "i.js"],
    ]);
    let plan = plan_materialization(&t, &std_existing(), false).unwrap();
    assert!(plan.reorganize);
    assert_eq!(
        step_strings(&plan),
        vec![
            "move contracts/token -> src/token",
            "move src/Main.sol -> src/Main.sol",
            "move @oz -> lib/@oz",
            "move hardhat -> lib/hardhat",
            "mkdir node_modules",
            "move node_modules/m -> node_modules/m",
        ]
    );
    let remaps: Vec<(String, String)> = plan
        .remappings
        .iter()
        .map(|r| (r.name.join("/"), r.path.join("/")))
        .collect();
    assert_eq!(
        remaps,
        vec![
            ("contracts/token".to_string(), "src/token".to_string()),
            ("src/Main.sol".to_string(), "src/Main.sol".to_string()),
            ("@oz".to_string(), "lib/@oz".to_string()),
            ("hardhat".to_string(), "lib/hardhat".to_string()),
            ("node_modules/m".to_string(), "node_modules/m".to_string()),
        ]
    );
}

#[test]
fn unrecognized_entry_disables_reorganization() {
    let t = tree(&[&["Token.sol"]]);
    let plan = plan_materialization(&t, &std_existing(), false).unwrap();
    assert!(!plan.reorganize);
    assert_eq!(step_strings(&plan), vec!["move Token.sol -> src/Token.sol"]);
    assert_eq!(plan.remappings.len(), 1);
    assert_eq!(plan.remappings[0].name.join("/"), "Token.sol");
    assert_eq!(plan.remappings[0].path.join("/"), "src/Token.sol");
}

#[test]
fn opting_out_keeps_the_structure() {
    let t = tree(&[&["contracts", "T.sol"], &["src", "M.sol"]]);
    let plan = plan_materialization(&t, &std_existing(), true).unwrap();
    assert!(!plan.reorganize);
    assert_eq!(
        step_strings(&plan),
        vec!["move contracts -> src/contracts", "move src -> src/src"]
    );
    // The canonical source directory gets no alias of its own.
    let names: Vec<String> = plan.remappings.iter().map(|r| r.name.join("/")).collect();
    assert_eq!(names, vec!["contracts".to_string()]);
}

#[test]
fn colliding_flattened_destinations_fail() {
    let t = tree(&[&["contracts", "A.sol"], &["src", "A.sol"]]);
    let r = plan_materialization(&t, &std_existing(), false);
    assert!(matches!(r, Err(CloneError::DestinationExists)));
}

#[test]
fn well_known_directory_replaces_the_existing_one() {
    let t = tree(&[&["forge-std", "src", "Test.sol"]]);
    let plan = plan_materialization(&t, &std_existing(), false).unwrap();
    assert_eq!(
        step_strings(&plan),
        vec!["delete lib/forge-std", "move forge-std -> lib/forge-std"]
    );
}

#[test]
fn scoped_directory_never_overwrites() {
    let t = tree(&[&["@oz", "C.sol"]]);
    let mut existing = std_existing();
    existing.push(path(&["lib", "@oz"]));
    let r = plan_materialization(&t, &existing, false);
    assert!(matches!(r, Err(CloneError::DestinationExists)));
}

#[test]
fn missing_canonical_directories_are_fatal() {
    let t = tree(&[&["src", "M.sol"]]);
    let r = plan_materialization(&t, &vec![path(&["lib"])], false);
    assert!(matches!(r, Err(CloneError::MissingSourceDir)));
    let r = plan_materialization(&t, &vec![path(&["src"])], false);
    assert!(matches!(r, Err(CloneError::MissingLibDir)));
}

#[test]
fn a_file_wearing_a_directory_name_cannot_be_flattened() {
    // A top-level file named like a flattenable directory has no
    // children to move.
    let t = tree(&[&["src"]]);
    let r = plan_materialization(&t, &std_existing(), false);
    assert!(matches!(r, Err(CloneError::EntryNotDirectory)));
}

#[test]
fn fresh_node_modules_must_not_exist() {
    let t = tree(&[&["node_modules", "m", "i.js"]]);
    let mut existing = std_existing();
    existing.push(path(&["node_modules"]));
    let r = plan_materialization(&t, &existing, false);
    assert!(matches!(r, Err(CloneError::DestinationExists)));
}
