use forge_clone::pathseg::{render_lines, render_path};
use forge_clone::reconcile::{reconcile_remappings, rewrite_metadata_path};
use forge_clone::remapping::{render_remapping, RawRemapping, Remapping};

fn segs(parts: &[&str]) -> Vec<String> {
    parts.iter().map(|s| s.to_string()).collect()
}

#[test]
fn paths_render_with_separators() {
    assert_eq!(render_path(&segs(&["src", "token", "T.sol"])), "src/token/T.sol");
    assert_eq!(render_path(&segs(&["lib"])), "lib");
    assert_eq!(render_lines(&segs(&["a=b/", "c=d/"])), "a=b/\nc=d/");
    assert_eq!(render_lines(&Vec::new()), "");
}

#[test]
fn remappings_render_canonically() {
    // A directory target gains a trailing slash; a source file does not.
    assert_eq!(render_remapping(&None, "@oz", "lib/@oz"), "@oz=lib/@oz/");
    assert_eq!(
        render_remapping(&None, "Token.sol", "src/Token.sol"),
        "Token.sol=src/Token.sol"
    );
    assert_eq!(
        render_remapping(&Some("scope".to_string()), "a", "src/a/"),
        "scope:a=src/a/"
    );
}

#[test]
fn metadata_paths_are_rerooted() {
    assert_eq!(rewrite_metadata_path(&segs(&["contracts", "x", "Y.sol"])), segs(&["src", "x", "Y.sol"]));
    assert_eq!(rewrite_metadata_path(&segs(&["@oz", "C.sol"])), segs(&["lib", "@oz", "C.sol"]));
    assert_eq!(rewrite_metadata_path(&segs(&["hardhat", "H.sol"])), segs(&["lib", "hardhat", "H.sol"]));
    assert_eq!(rewrite_metadata_path(&segs(&["forge-std", "T.sol"])), segs(&["lib", "forge-std", "T.sol"]));
    assert_eq!(rewrite_metadata_path(&segs(&["vendored", "V.sol"])), segs(&["vendored", "V.sol"]));
}

#[test]
fn the_table_keeps_all_three_sources_in_order() {
    // A pre-existing remapping with an absolute path is made
    // root-relative; the generated and declared entries follow it.
    let pre = vec![RawRemapping {
        context: None,
        name: "forge-std/".to_string(),
        path: "/proj/lib/forge-std/src/".to_string(),
    }];
    let generated = vec![Remapping {
        context: None,
        name: segs(&["contracts", "token"]),
        path: segs(&["src", "token"]),
    }];
    let declared = vec![Remapping {
        context: None,
        name: segs(&["@oz"]),
        path: segs(&["contracts", "oz"]),
    }];
    let table = reconcile_remappings(&pre, &generated, &declared, true, "/proj");
    assert_eq!(
        table,
        vec![
            // The absolute prefix was stripped, so the relativization
            // really ran.
            "forge-std/=lib/forge-std/src/".to_string(),
            "contracts/token=src/token/".to_string(),
            "@oz=src/oz/".to_string(),
        ]
    );
}

#[test]
fn without_reorganization_declared_paths_pass_through() {
    let declared = vec![Remapping {
        context: None,
        name: segs(&["@oz"]),
        path: segs(&["contracts", "oz"]),
    }];
    let table = reconcile_remappings(&Vec::new(), &Vec::new(), &declared, false, "/proj");
    assert_eq!(table, vec!["@oz=contracts/oz/".to_string()]);
}
