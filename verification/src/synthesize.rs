//! Translating the fetched compiler settings into the project's
//! persisted build-configuration document: exactly the enumerated keys
//! of the active profile are overwritten, each only when the explorer
//! reported it, and a settings object that asks compilation to stop
//! after a phase is refused outright.

use vstd::prelude::*;
use vstd::string::*;
use crate::errors::CloneError;
use crate::config_doc::{
    ConfigDoc,
    DocEntry,
    LeafValue,
    GLeaf,
    doc_view,
    doc_set,
    doc_get,
    table_exists,
    parent_exists,
    leaf_view,
    set_path,
    lemma_doc_set_tables,
};
use crate::metadata::{SettingsModel, LibraryBinding, dec_str, version_string};
use crate::pathseg::{path_wf, join_path, render_path, str_eq};
use crate::reconcile::rewrite_meta_path;

verus! {

/// The key path of `key` in the active profile's section.
pub open spec fn pkey(profile: Seq<char>, key: Seq<char>) -> Seq<Seq<char>> {
    seq!["profile"@, profile, key]
}

/// The key path of `k1.k2` in the active profile's section.
pub open spec fn pkey2(profile: Seq<char>, k1: Seq<char>, k2: Seq<char>) -> Seq<Seq<char>> {
    seq!["profile"@, profile, k1, k2]
}

/// The key path of `k1.k2.k3` in the active profile's section.
pub open spec fn pkey3(profile: Seq<char>, k1: Seq<char>, k2: Seq<char>, k3: Seq<char>) -> Seq<
    Seq<char>,
> {
    seq!["profile"@, profile, k1, k2, k3]
}

/// An explorer-reported EVM version that means "leave it unset, the
/// compiler driver derives it from the compiler version".
pub open spec fn is_default_evm(v: Seq<char>) -> bool {
    v == "default"@ || v == "Default"@
}

/// One library binding rendered as `path:libraryName:address`, its path
/// rewritten like an import path when the project was reorganized.
pub open spec fn lib_rendered(lb: LibraryBinding, reorganized: bool) -> Seq<char> {
    join_path(
        if reorganized {
            rewrite_meta_path(lb.path.deep_view())
        } else {
            lb.path.deep_view()
        },
    ) + seq![':'] + lb.name@ + seq![':'] + lb.address@
}

/// All library bindings rendered, in order.
pub open spec fn libs_rendered(libs: Seq<LibraryBinding>, reorganized: bool) -> Seq<Seq<char>> {
    Seq::new(libs.len(), |i: int| lib_rendered(libs[i], reorganized))
}

/// The profile's table, created where missing and left alone otherwise.
pub open spec fn ensure_profile(d: Seq<(Seq<Seq<char>>, GLeaf)>, profile: Seq<char>) -> Seq<
    (Seq<Seq<char>>, GLeaf),
> {
    let d1 = if table_exists(d, seq!["profile"@]) {
        d
    } else {
        doc_set(d, seq!["profile"@], GLeaf::Table)
    };
    if table_exists(d1, seq!["profile"@, profile]) {
        d1
    } else {
        doc_set(d1, seq!["profile"@, profile], GLeaf::Table)
    }
}

/// Writes a boolean if the explorer reported one.
pub open spec fn opt_bool(d: Seq<(Seq<Seq<char>>, GLeaf)>, p: Seq<Seq<char>>, o: Option<
    bool,
>) -> Seq<(Seq<Seq<char>>, GLeaf)> {
    match o {
        Some(b) => doc_set(d, p, GLeaf::Bool(b)),
        None => d,
    }
}

/// Writes a string if the explorer reported one.
pub open spec fn opt_str(d: Seq<(Seq<Seq<char>>, GLeaf)>, p: Seq<Seq<char>>, o: Option<
    String,
>) -> Seq<(Seq<Seq<char>>, GLeaf)> {
    match o {
        Some(s) => doc_set(d, p, GLeaf::Str(s@)),
        None => d,
    }
}

/// The scalar keys of a synthesis, written in order: the remapping
/// table (unless exported), the remapping auto-detection switch, the
/// chain id, the pinned compiler, the EVM target and the reported
/// scalar knobs.
pub open spec fn chunk_scalars(
    d: Seq<(Seq<Seq<char>>, GLeaf)>,
    profile: Seq<char>,
    s: SettingsModel,
    chain_id: int,
    major: int,
    minor: int,
    patch: int,
    remappings: Seq<Seq<char>>,
    export_remappings: bool,
) -> Seq<(Seq<Seq<char>>, GLeaf)> {
    let d1 = if export_remappings {
        d
    } else {
        doc_set(d, pkey(profile, "remappings"@), GLeaf::StrList(remappings))
    };
    let d2 = doc_set(d1, pkey(profile, "auto_detect_remappings"@), GLeaf::Bool(false));
    let d3 = doc_set(d2, pkey(profile, "chain_id"@), GLeaf::Int(chain_id));
    let d4 = doc_set(d3, pkey(profile, "auto_detect_solc"@), GLeaf::Bool(false));
    let d5 = doc_set(
        d4,
        pkey(profile, "solc_version"@),
        GLeaf::Str(dec_str(major) + seq!['.'] + dec_str(minor) + seq!['.'] + dec_str(patch)),
    );
    let d6 = match s.evm_version {
        Some(v) => if !is_default_evm(v@) {
            doc_set(d5, pkey(profile, "evm_version"@), GLeaf::Str(v@))
        } else {
            d5
        },
        None => d5,
    };
    let d7 = opt_bool(d6, pkey(profile, "via_ir"@), s.via_ir);
    let d8 = match s.metadata {
        Some(m) => {
            let a = opt_bool(d7, pkey(profile, "cbor_metadata"@), m.cbor_metadata);
            let b = opt_bool(a, pkey(profile, "use_literal_content"@), m.use_literal_content);
            opt_str(b, pkey(profile, "bytecode_hash"@), m.bytecode_hash)
        },
        None => d7,
    };
    let d9 = opt_bool(d8, pkey(profile, "optimizer"@), s.optimizer.enabled);
    match s.optimizer.runs {
        Some(r) => doc_set(d9, pkey(profile, "optimizer_runs"@), GLeaf::Int(r as int)),
        None => d9,
    }
}

/// The optimizer-details sub-document: created fresh, then populated
/// field by field with exactly what the explorer reported.
pub open spec fn chunk_details(
    d: Seq<(Seq<Seq<char>>, GLeaf)>,
    profile: Seq<char>,
    det: crate::metadata::OptimizerDetailsModel,
) -> Seq<(Seq<Seq<char>>, GLeaf)> {
    let t0 = doc_set(d, pkey(profile, "optimizer_details"@), GLeaf::Table);
    let t1 = opt_bool(t0, pkey2(profile, "optimizer_details"@, "peephole"@), det.peephole);
    let t2 = opt_bool(t1, pkey2(profile, "optimizer_details"@, "inliner"@), det.inliner);
    let t3 = opt_bool(
        t2,
        pkey2(profile, "optimizer_details"@, "jumpdestRemover"@),
        det.jumpdest_remover,
    );
    let t4 = opt_bool(
        t3,
        pkey2(profile, "optimizer_details"@, "orderLiterals"@),
        det.order_literals,
    );
    let t5 = opt_bool(t4, pkey2(profile, "optimizer_details"@, "deduplicate"@), det.deduplicate);
    let t6 = opt_bool(t5, pkey2(profile, "optimizer_details"@, "cse"@), det.cse);
    let t7 = opt_bool(
        t6,
        pkey2(profile, "optimizer_details"@, "constantOptimizer"@),
        det.constant_optimizer,
    );
    let t8 = opt_bool(
        t7,
        pkey2(profile, "optimizer_details"@, "simpleCounterForLoopUncheckedIncrement"@),
        det.simple_counter_for_loop_unchecked_increment,
    );
    let t9 = opt_bool(t8, pkey2(profile, "optimizer_details"@, "yul"@), det.yul);
    match det.yul_details {
        Some(y) => {
            let u0 = doc_set(
                t9,
                pkey2(profile, "optimizer_details"@, "yulDetails"@),
                GLeaf::Table,
            );
            let u1 = opt_bool(
                u0,
                pkey3(profile, "optimizer_details"@, "yulDetails"@, "stackAllocation"@),
                y.stack_allocation,
            );
            opt_str(
                u1,
                pkey3(profile, "optimizer_details"@, "yulDetails"@, "optimizerSteps"@),
                y.optimizer_steps,
            )
        },
        None => t9,
    }
}

/// What a successful synthesis produces: the enumerated profile keys
/// written in order, each optional one only when reported.
pub open spec fn synth_spec(
    d: Seq<(Seq<Seq<char>>, GLeaf)>,
    profile: Seq<char>,
    s: SettingsModel,
    chain_id: int,
    major: int,
    minor: int,
    patch: int,
    remappings: Seq<Seq<char>>,
    reorganized: bool,
    export_remappings: bool,
) -> Seq<(Seq<Seq<char>>, GLeaf)> {
    let d10 = chunk_scalars(
        ensure_profile(d, profile),
        profile,
        s,
        chain_id,
        major,
        minor,
        patch,
        remappings,
        export_remappings,
    );
    let d11 = match s.optimizer.details {
        Some(det) => chunk_details(d10, profile, det),
        None => d10,
    };
    doc_set(
        d11,
        pkey(profile, "libraries"@),
        GLeaf::StrList(libs_rendered(s.libraries@, reorganized)),
    )
}

/// Builds the key path `profile.<profile>.<k>`.
fn pkey_exec(profile: &String, k: &str) -> (r: Vec<String>)
    ensures
        r.deep_view() == pkey(profile@, k@),
        r@.len() == 3,
{
    let mut v: Vec<String> = Vec::new();
    v.push("profile".to_owned());
    v.push(profile.clone());
    v.push(k.to_owned());
    proof {
        assert(v.deep_view() =~= pkey(profile@, k@));
    }
    v
}

/// Builds the key path `profile.<profile>.<k1>.<k2>`.
fn pkey2_exec(profile: &String, k1: &str, k2: &str) -> (r: Vec<String>)
    ensures
        r.deep_view() == pkey2(profile@, k1@, k2@),
        r@.len() == 4,
{
    let mut v: Vec<String> = Vec::new();
    v.push("profile".to_owned());
    v.push(profile.clone());
    v.push(k1.to_owned());
    v.push(k2.to_owned());
    proof {
        assert(v.deep_view() =~= pkey2(profile@, k1@, k2@));
    }
    v
}

/// Builds the key path `profile.<profile>.<k1>.<k2>.<k3>`.
fn pkey3_exec(profile: &String, k1: &str, k2: &str, k3: &str) -> (r: Vec<String>)
    ensures
        r.deep_view() == pkey3(profile@, k1@, k2@, k3@),
        r@.len() == 5,
{
    let mut v: Vec<String> = Vec::new();
    v.push("profile".to_owned());
    v.push(profile.clone());
    v.push(k1.to_owned());
    v.push(k2.to_owned());
    v.push(k3.to_owned());
    proof {
        assert(v.deep_view() =~= pkey3(profile@, k1@, k2@, k3@));
    }
    v
}

/// Writes a value whose parent table is known to exist; the write cannot
/// fail, and every table on the written path's prefix exists afterwards.
fn must_set(doc: ConfigDoc, path: &Vec<String>, value: LeafValue) -> (r: ConfigDoc)
    requires
        path@.len() > 0,
        parent_exists(doc_view(doc), path.deep_view()),
    ensures
        doc_view(r) == doc_set(doc_view(doc), path.deep_view(), leaf_view(value)),
        forall|t: Seq<Seq<char>>|
            #![trigger table_exists(doc_view(r), t)]
            t.len() < path.deep_view().len() && t == path.deep_view().take(t.len() as int)
                ==> table_exists(doc_view(r), t),
        leaf_view(value) == GLeaf::Table ==> table_exists(doc_view(r), path.deep_view()),
        forall|t: Seq<Seq<char>>|
            #![trigger table_exists(doc_view(doc), t)]
            table_exists(doc_view(doc), t) && !crate::config_doc::is_strict_desc(
                t,
                path.deep_view(),
            ) && t != path.deep_view() ==> table_exists(doc_view(r), t),
{
    let ghost v0 = doc_view(doc);
    let ghost lv = leaf_view(value);
    let res = set_path(&doc, path, value);
    proof {
        lemma_doc_set_tables(v0, path.deep_view(), lv);
    }
    match res {
        Ok(d) => d,
        Err(_) => {
            proof {
                assert(false);
            }
            doc
        },
    }
}

/// Writes the scalar keys of the active profile.
#[verifier::loop_isolation(false)]
#[verifier::rlimit(60)]
fn apply_scalars(
    doc: ConfigDoc,
    profile: &String,
    settings: &SettingsModel,
    chain_id: u64,
    major: u64,
    minor: u64,
    patch: u64,
    remappings: &Vec<String>,
    export_remappings: bool,
    Ghost(prof_tbl): Ghost<Seq<Seq<char>>>,
) -> (r: ConfigDoc)
    requires
        chain_id <= 0x7fff_ffff_ffff_ffff,
        settings.optimizer.runs matches Some(n) ==> n <= 0x7fff_ffff_ffff_ffff,
        prof_tbl == seq!["profile"@, profile@],
        table_exists(doc_view(doc), prof_tbl),
    ensures
        doc_view(r) == chunk_scalars(
            doc_view(doc),
            profile@,
            *settings,
            chain_id as int,
            major as int,
            minor as int,
            patch as int,
            remappings.deep_view(),
            export_remappings,
        ),
        table_exists(doc_view(r), prof_tbl),
{
    let mut cur = doc;
    if !export_remappings {
        let p = pkey_exec(profile, "remappings");
        proof {
            assert(p.deep_view().take(2) =~= prof_tbl);
        }
        cur = must_set(cur, &p, LeafValue::StrList(crate::pathseg::copy_path(remappings)));
        proof {
            assert(table_exists(doc_view(cur), prof_tbl));
        }
    }
    let p = pkey_exec(profile, "auto_detect_remappings");
    proof {
        assert(p.deep_view().take(2) =~= prof_tbl);
    }
    cur = must_set(cur, &p, LeafValue::Bool(false));
    proof {
        assert(table_exists(doc_view(cur), prof_tbl));
    }
    let p = pkey_exec(profile, "chain_id");
    proof {
        assert(p.deep_view().take(2) =~= prof_tbl);
    }
    cur = must_set(cur, &p, LeafValue::Int(chain_id as i64));
    proof {
        assert(table_exists(doc_view(cur), prof_tbl));
    }
    let p = pkey_exec(profile, "auto_detect_solc");
    proof {
        assert(p.deep_view().take(2) =~= prof_tbl);
    }
    cur = must_set(cur, &p, LeafValue::Bool(false));
    proof {
        assert(table_exists(doc_view(cur), prof_tbl));
    }
    let p = pkey_exec(profile, "solc_version");
    proof {
        assert(p.deep_view().take(2) =~= prof_tbl);
    }
    cur = must_set(cur, &p, LeafValue::Str(version_string(major, minor, patch)));
    proof {
        assert(table_exists(doc_view(cur), prof_tbl));
    }
    match &settings.evm_version {
        Some(v) => {
            let is_default = str_eq(v.as_str(), "default") || str_eq(v.as_str(), "Default");
            if !is_default {
                let p = pkey_exec(profile, "evm_version");
                proof {
                    assert(p.deep_view().take(2) =~= prof_tbl);
                }
                cur = must_set(cur, &p, LeafValue::Str(v.clone()));
                proof {
                    assert(table_exists(doc_view(cur), prof_tbl));
                }
            }
        },
        None => {},
    }
    match &settings.via_ir {
        Some(b) => {
            let p = pkey_exec(profile, "via_ir");
            proof {
                assert(p.deep_view().take(2) =~= prof_tbl);
            }
            cur = must_set(cur, &p, LeafValue::Bool(*b));
            proof {
                assert(table_exists(doc_view(cur), prof_tbl));
            }
        },
        None => {},
    }
    match &settings.metadata {
        Some(m) => {
            match &m.cbor_metadata {
                Some(b) => {
                    let p = pkey_exec(profile, "cbor_metadata");
                    proof {
                        assert(p.deep_view().take(2) =~= prof_tbl);
                    }
                    cur = must_set(cur, &p, LeafValue::Bool(*b));
                    proof {
                        assert(table_exists(doc_view(cur), prof_tbl));
                    }
                },
                None => {},
            }
            match &m.use_literal_content {
                Some(b) => {
                    let p = pkey_exec(profile, "use_literal_content");
                    proof {
                        assert(p.deep_view().take(2) =~= prof_tbl);
                    }
                    cur = must_set(cur, &p, LeafValue::Bool(*b));
                    proof {
                        assert(table_exists(doc_view(cur), prof_tbl));
                    }
                },
                None => {},
            }
            match &m.bytecode_hash {
                Some(h) => {
                    let p = pkey_exec(profile, "bytecode_hash");
                    proof {
                        assert(p.deep_view().take(2) =~= prof_tbl);
                    }
                    cur = must_set(cur, &p, LeafValue::Str(h.clone()));
                    proof {
                        assert(table_exists(doc_view(cur), prof_tbl));
                    }
                },
                None => {},
            }
        },
        None => {},
    }
    match &settings.optimizer.enabled {
        Some(b) => {
            let p = pkey_exec(profile, "optimizer");
            proof {
                assert(p.deep_view().take(2) =~= prof_tbl);
            }
            cur = must_set(cur, &p, LeafValue::Bool(*b));
            proof {
                assert(table_exists(doc_view(cur), prof_tbl));
            }
        },
        None => {},
    }
    match &settings.optimizer.runs {
        Some(n) => {
            let p = pkey_exec(profile, "optimizer_runs");
            proof {
                assert(p.deep_view().take(2) =~= prof_tbl);
            }
            cur = must_set(cur, &p, LeafValue::Int(*n as i64));
            proof {
                assert(table_exists(doc_view(cur), prof_tbl));
            }
        },
        None => {},
    }
    cur
}

/// Writes the optimizer-details sub-document.
#[verifier::loop_isolation(false)]
#[verifier::rlimit(60)]
fn apply_details(
    doc: ConfigDoc,
    profile: &String,
    det: &crate::metadata::OptimizerDetailsModel,
    Ghost(prof_tbl): Ghost<Seq<Seq<char>>>,
) -> (r: ConfigDoc)
    requires
        prof_tbl == seq!["profile"@, profile@],
        table_exists(doc_view(doc), prof_tbl),
    ensures
        doc_view(r) == chunk_details(doc_view(doc), profile@, *det),
        table_exists(doc_view(r), prof_tbl),
{
    let ghost od_tbl = pkey(profile@, "optimizer_details"@);
    let mut cur = doc;
    let p = pkey_exec(profile, "optimizer_details");
    proof {
        assert(p.deep_view().take(2) =~= prof_tbl);
    }
    cur = must_set(cur, &p, LeafValue::Table);
    proof {
        assert(table_exists(doc_view(cur), prof_tbl));
        assert(table_exists(doc_view(cur), od_tbl));
    }
    cur = set_detail_bool(cur, profile, "peephole", &det.peephole, Ghost(od_tbl), Ghost(prof_tbl));
    cur = set_detail_bool(cur, profile, "inliner", &det.inliner, Ghost(od_tbl), Ghost(prof_tbl));
    cur = set_detail_bool(
        cur,
        profile,
        "jumpdestRemover",
        &det.jumpdest_remover,
        Ghost(od_tbl),
        Ghost(prof_tbl),
    );
    cur = set_detail_bool(
        cur,
        profile,
        "orderLiterals",
        &det.order_literals,
        Ghost(od_tbl),
        Ghost(prof_tbl),
    );
    cur = set_detail_bool(
        cur,
        profile,
        "deduplicate",
        &det.deduplicate,
        Ghost(od_tbl),
        Ghost(prof_tbl),
    );
    cur = set_detail_bool(cur, profile, "cse", &det.cse, Ghost(od_tbl), Ghost(prof_tbl));
    cur = set_detail_bool(
        cur,
        profile,
        "constantOptimizer",
        &det.constant_optimizer,
        Ghost(od_tbl),
        Ghost(prof_tbl),
    );
    cur = set_detail_bool(
        cur,
        profile,
        "simpleCounterForLoopUncheckedIncrement",
        &det.simple_counter_for_loop_unchecked_increment,
        Ghost(od_tbl),
        Ghost(prof_tbl),
    );
    cur = set_detail_bool(cur, profile, "yul", &det.yul, Ghost(od_tbl), Ghost(prof_tbl));
    match &det.yul_details {
        Some(y) => {
            let ghost yd_tbl = pkey2(profile@, "optimizer_details"@, "yulDetails"@);
            let p = pkey2_exec(profile, "optimizer_details", "yulDetails");
            proof {
                assert(p.deep_view().take(2) =~= prof_tbl);
                assert(p.deep_view().take(3) =~= pkey(profile@, "optimizer_details"@));
            }
            cur = must_set(cur, &p, LeafValue::Table);
            proof {
                assert(table_exists(doc_view(cur), prof_tbl));
                assert(table_exists(doc_view(cur), yd_tbl));
            }
            match &y.stack_allocation {
                Some(b) => {
                    let p = pkey3_exec(
                        profile,
                        "optimizer_details",
                        "yulDetails",
                        "stackAllocation",
                    );
                    proof {
                        assert(p.deep_view().take(2) =~= prof_tbl);
                        assert(p.deep_view().take(4) =~= yd_tbl);
                    }
                    cur = must_set(cur, &p, LeafValue::Bool(*b));
                    proof {
                        assert(table_exists(doc_view(cur), prof_tbl));
                        assert(table_exists(doc_view(cur), yd_tbl));
                    }
                },
                None => {},
            }
            match &y.optimizer_steps {
                Some(steps) => {
                    let p = pkey3_exec(
                        profile,
                        "optimizer_details",
                        "yulDetails",
                        "optimizerSteps",
                    );
                    proof {
                        assert(p.deep_view().take(2) =~= prof_tbl);
                        assert(p.deep_view().take(4) =~= yd_tbl);
                    }
                    cur = must_set(cur, &p, LeafValue::Str(steps.clone()));
                    proof {
                        assert(table_exists(doc_view(cur), prof_tbl));
                    }
                },
                None => {},
            }
        },
        None => {},
    }
    cur
}

/// Renders the library address table.
#[verifier::loop_isolation(false)]
fn render_libraries(settings: &SettingsModel, reorganized: bool) -> (r: Vec<String>)
    requires
        forall|i: int|
            0 <= i < settings.libraries@.len() ==> path_wf(
                (#[trigger] settings.libraries@[i]).path.deep_view(),
            ),
    ensures
        r.deep_view() == libs_rendered(settings.libraries@, reorganized),
{
    let mut libs: Vec<String> = Vec::new();
    let mut i: usize = 0;
    while i < settings.libraries.len()
        invariant
            i <= settings.libraries@.len(),
            libs.len() == i,
            forall|j: int|
                0 <= j < i ==> libs.deep_view()[j] == lib_rendered(
                    settings.libraries@[j],
                    reorganized,
                ),
        decreases settings.libraries@.len() - i,
    {
        let lb = &settings.libraries[i];
        let segs = if reorganized {
            crate::reconcile::rewrite_metadata_path(&lb.path)
        } else {
            crate::pathseg::copy_path(&lb.path)
        };
        let mut line = render_path(&segs);
        proof {
            reveal_strlit(":");
            assert(":"@ =~= seq![':']);
        }
        line.append(":");
        line.append(lb.name.as_str());
        line.append(":");
        line.append(lb.address.as_str());
        proof {
            assert(line@ =~= lib_rendered(settings.libraries@[i as int], reorganized));
        }
        let ghost old_libs = libs.deep_view();
        libs.push(line);
        proof {
            assert(libs.deep_view() =~= old_libs.push(
                lib_rendered(settings.libraries@[i as int], reorganized),
            ));
        }
        i = i + 1;
    }
    proof {
        assert(libs.deep_view() =~= libs_rendered(settings.libraries@, reorganized));
    }
    libs
}

/// Synthesizes the build configuration from the fetched settings.
/// Succeeds exactly when the settings do not declare a stop-after phase;
/// the result is then `synth_spec` of the old document: the chain id,
/// the pinned compiler version, and every reported knob of the active
/// profile, overwritten in order.  When the remappings are exported to a
/// separate file instead, the document's own remappings key is left
/// untouched.
#[verifier::loop_isolation(false)]
pub fn synthesize_config(
    doc: ConfigDoc,
    profile: &String,
    settings: &SettingsModel,
    chain_id: u64,
    major: u64,
    minor: u64,
    patch: u64,
    remappings: &Vec<String>,
    reorganized: bool,
    export_remappings: bool,
) -> (r: Result<ConfigDoc, CloneError>)
    requires
        chain_id <= 0x7fff_ffff_ffff_ffff,
        settings.optimizer.runs matches Some(n) ==> n <= 0x7fff_ffff_ffff_ffff,
        forall|i: int|
            0 <= i < settings.libraries@.len() ==> path_wf(
                (#[trigger] settings.libraries@[i]).path.deep_view(),
            ),
    ensures
        (r is Ok) == (settings.stop_after is None),
        r is Err ==> r->Err_0 == CloneError::StopAfterSet,
        r is Ok ==> doc_view(r->Ok_0) == synth_spec(
            doc_view(doc),
            profile@,
            *settings,
            chain_id as int,
            major as int,
            minor as int,
            patch as int,
            remappings.deep_view(),
            reorganized,
            export_remappings,
        ),
{
    if settings.stop_after.is_some() {
        return Err(CloneError::StopAfterSet);
    }
    let ghost orig = doc_view(doc);
    let ghost prof_tbl = seq!["profile"@, profile@];

    // The profile's table, created where missing.
    let mut root_path: Vec<String> = Vec::new();
    root_path.push("profile".to_owned());
    proof {
        assert(root_path.deep_view() =~= seq!["profile"@]);
        assert(root_path.deep_view().take(0) =~= Seq::<Seq<char>>::empty());
    }
    let mut cur = doc;
    if !crate::config_doc::table_exists_exec(&cur, &root_path) {
        cur = must_set(cur, &root_path, LeafValue::Table);
    }
    let mut prof_path: Vec<String> = Vec::new();
    prof_path.push("profile".to_owned());
    prof_path.push(profile.clone());
    proof {
        assert(prof_path.deep_view() =~= prof_tbl);
        assert(prof_path.deep_view().take(1) =~= seq!["profile"@]);
    }
    if !crate::config_doc::table_exists_exec(&cur, &prof_path) {
        cur = must_set(cur, &prof_path, LeafValue::Table);
    }
    proof {
        assert(doc_view(cur) == ensure_profile(orig, profile@));
        assert(table_exists(doc_view(cur), prof_tbl));
    }

    cur = apply_scalars(
        cur,
        profile,
        settings,
        chain_id,
        major,
        minor,
        patch,
        remappings,
        export_remappings,
        Ghost(prof_tbl),
    );
    match &settings.optimizer.details {
        Some(det) => {
            cur = apply_details(cur, profile, det, Ghost(prof_tbl));
        },
        None => {},
    }
    let libs = render_libraries(settings, reorganized);
    let p = pkey_exec(profile, "libraries");
    proof {
        assert(p.deep_view().take(2) =~= prof_tbl);
    }
    cur = must_set(cur, &p, LeafValue::StrList(libs));

    Ok(cur)
}

/// Writes one optimizer-detail switch if the explorer reported it.
fn set_detail_bool(
    doc: ConfigDoc,
    profile: &String,
    key: &str,
    o: &Option<bool>,
    Ghost(od_tbl): Ghost<Seq<Seq<char>>>,
    Ghost(prof_tbl): Ghost<Seq<Seq<char>>>,
) -> (r: ConfigDoc)
    requires
        od_tbl == pkey(profile@, "optimizer_details"@),
        prof_tbl == seq!["profile"@, profile@],
        table_exists(doc_view(doc), od_tbl),
        table_exists(doc_view(doc), prof_tbl),
    ensures
        doc_view(r) == opt_bool(doc_view(doc), pkey2(profile@, "optimizer_details"@, key@), *o),
        table_exists(doc_view(r), od_tbl),
        table_exists(doc_view(r), prof_tbl),
{
    match o {
        Some(b) => {
            let p = pkey2_exec(profile, "optimizer_details", key);
            proof {
                assert(p.deep_view().take(2) =~= prof_tbl);
                assert(p.deep_view().take(3) =~= od_tbl);
            }
            let r = must_set(doc, &p, LeafValue::Bool(*b));
            proof {
                assert(table_exists(doc_view(r), od_tbl));
                assert(table_exists(doc_view(r), prof_tbl));
            }
            r
        },
        None => doc,
    }
}

/// The build-configuration document a freshly initialized project
/// carries: the active profile's source, output and library locations.
pub fn default_config_doc(profile: &String) -> (r: ConfigDoc)
    ensures
        doc_view(r) == default_doc_spec(profile@),
{
    let mut entries: Vec<DocEntry> = Vec::new();
    entries.push(
        DocEntry { path: pkey_exec(profile, "src"), value: LeafValue::Str("src".to_owned()) },
    );
    entries.push(
        DocEntry { path: pkey_exec(profile, "out"), value: LeafValue::Str("out".to_owned()) },
    );
    let libs = vec!["lib".to_owned()];
    proof {
        assert(libs.deep_view() =~= seq!["lib"@]);
    }
    entries.push(
        DocEntry { path: pkey_exec(profile, "libs"), value: LeafValue::StrList(libs) },
    );
    let r = ConfigDoc { entries };
    proof {
        assert(doc_view(r) =~= default_doc_spec(profile@));
    }
    r
}

/// The entries of the default document.
pub open spec fn default_doc_spec(profile: Seq<char>) -> Seq<(Seq<Seq<char>>, GLeaf)> {
    seq![
        (pkey(profile, "src"@), GLeaf::Str("src"@)),
        (pkey(profile, "out"@), GLeaf::Str("out"@)),
        (pkey(profile, "libs"@), GLeaf::StrList(seq!["lib"@])),
    ]
}



/// Two profile keys with different final segments name different paths.
proof fn lemma_key_ne(profile: Seq<char>, k1: Seq<char>, k2: Seq<char>)
    requires
        k1 != k2,
    ensures
        pkey(profile, k1) != pkey(profile, k2),
{
    assert(pkey(profile, k1)[2] == k1);
    assert(pkey(profile, k2)[2] == k2);
}

/// Two detail keys with different final segments name different paths.
proof fn lemma_key2_ne(profile: Seq<char>, k1: Seq<char>, k2: Seq<char>)
    requires
        k1 != k2,
    ensures
        pkey2(profile, "optimizer_details"@, k1) != pkey2(profile, "optimizer_details"@, k2),
{
    assert(pkey2(profile, "optimizer_details"@, k1)[3] == k1);
    assert(pkey2(profile, "optimizer_details"@, k2)[3] == k2);
}

/// Reads at profile-level keys pass through the optimizer-details
/// sub-document untouched, except at its own key.
proof fn lemma_details_get_frame(
    d: Seq<(Seq<Seq<char>>, GLeaf)>,
    profile: Seq<char>,
    det: crate::metadata::OptimizerDetailsModel,
    q: Seq<Seq<char>>,
)
    requires
        q.len() == 3,
        q != pkey(profile, "optimizer_details"@),
    ensures
        doc_get(chunk_details(d, profile, det), q) == doc_get(d, q),
{
    let od = pkey(profile, "optimizer_details"@);
    let t0 = doc_set(d, od, GLeaf::Table);
    crate::config_doc::lemma_doc_set_get_frame(d, od, GLeaf::Table, q);
    let t1 = opt_bool(t0, pkey2(profile, "optimizer_details"@, "peephole"@), det.peephole);
    lemma_opt_bool_get_frame(t0, pkey2(profile, "optimizer_details"@, "peephole"@), det.peephole, q);
    let t2 = opt_bool(t1, pkey2(profile, "optimizer_details"@, "inliner"@), det.inliner);
    lemma_opt_bool_get_frame(t1, pkey2(profile, "optimizer_details"@, "inliner"@), det.inliner, q);
    let t3 = opt_bool(
        t2,
        pkey2(profile, "optimizer_details"@, "jumpdestRemover"@),
        det.jumpdest_remover,
    );
    lemma_opt_bool_get_frame(
        t2,
        pkey2(profile, "optimizer_details"@, "jumpdestRemover"@),
        det.jumpdest_remover,
        q,
    );
    let t4 = opt_bool(
        t3,
        pkey2(profile, "optimizer_details"@, "orderLiterals"@),
        det.order_literals,
    );
    lemma_opt_bool_get_frame(
        t3,
        pkey2(profile, "optimizer_details"@, "orderLiterals"@),
        det.order_literals,
        q,
    );
    let t5 = opt_bool(t4, pkey2(profile, "optimizer_details"@, "deduplicate"@), det.deduplicate);
    lemma_opt_bool_get_frame(
        t4,
        pkey2(profile, "optimizer_details"@, "deduplicate"@),
        det.deduplicate,
        q,
    );
    let t6 = opt_bool(t5, pkey2(profile, "optimizer_details"@, "cse"@), det.cse);
    lemma_opt_bool_get_frame(t5, pkey2(profile, "optimizer_details"@, "cse"@), det.cse, q);
    let t7 = opt_bool(
        t6,
        pkey2(profile, "optimizer_details"@, "constantOptimizer"@),
        det.constant_optimizer,
    );
    lemma_opt_bool_get_frame(
        t6,
        pkey2(profile, "optimizer_details"@, "constantOptimizer"@),
        det.constant_optimizer,
        q,
    );
    let t8 = opt_bool(
        t7,
        pkey2(profile, "optimizer_details"@, "simpleCounterForLoopUncheckedIncrement"@),
        det.simple_counter_for_loop_unchecked_increment,
    );
    lemma_opt_bool_get_frame(
        t7,
        pkey2(profile, "optimizer_details"@, "simpleCounterForLoopUncheckedIncrement"@),
        det.simple_counter_for_loop_unchecked_increment,
        q,
    );
    let t9 = opt_bool(t8, pkey2(profile, "optimizer_details"@, "yul"@), det.yul);
    lemma_opt_bool_get_frame(t8, pkey2(profile, "optimizer_details"@, "yul"@), det.yul, q);
    match det.yul_details {
        Some(y) => {
            let yd = pkey2(profile, "optimizer_details"@, "yulDetails"@);
            let u0 = doc_set(t9, yd, GLeaf::Table);
            crate::config_doc::lemma_doc_set_get_frame(t9, yd, GLeaf::Table, q);
            let p1 = pkey3(profile, "optimizer_details"@, "yulDetails"@, "stackAllocation"@);
            let u1 = opt_bool(u0, p1, y.stack_allocation);
            lemma_opt_bool_get_frame(u0, p1, y.stack_allocation, q);
            let p2 = pkey3(profile, "optimizer_details"@, "yulDetails"@, "optimizerSteps"@);
            match y.optimizer_steps {
                Some(st) => {
                    crate::config_doc::lemma_doc_set_get_frame(u1, p2, GLeaf::Str(st@), q);
                },
                None => {},
            }
        },
        None => {},
    }
}

/// A conditional boolean write elsewhere leaves a read untouched.
proof fn lemma_opt_bool_get_frame(
    d: Seq<(Seq<Seq<char>>, GLeaf)>,
    p: Seq<Seq<char>>,
    o: Option<bool>,
    q: Seq<Seq<char>>,
)
    requires
        q != p,
        !crate::config_doc::is_strict_desc(q, p),
    ensures
        doc_get(opt_bool(d, p, o), q) == doc_get(d, q),
{
    match o {
        Some(b) => {
            crate::config_doc::lemma_doc_set_get_frame(d, p, GLeaf::Bool(b), q);
        },
        None => {},
    }
}

/// When the explorer reported no Yul details, the details sub-document
/// carries no `yulDetails` table: creating it fresh cleared everything
/// below it, and no later write recreates that key.
proof fn lemma_details_no_yul(
    d: Seq<(Seq<Seq<char>>, GLeaf)>,
    profile: Seq<char>,
    det: crate::metadata::OptimizerDetailsModel,
)
    requires
        det.yul_details is None,
    ensures
        !table_exists(
            chunk_details(d, profile, det),
            pkey2(profile, "optimizer_details"@, "yulDetails"@),
        ),
{
    let od = pkey(profile, "optimizer_details"@);
    let yd = pkey2(profile, "optimizer_details"@, "yulDetails"@);
    assert(yd.take(3) =~= od);
    let t0 = doc_set(d, od, GLeaf::Table);
    crate::config_doc::lemma_doc_set_clears_below(d, od, GLeaf::Table, yd);
    reveal_strlit("yulDetails");
    reveal_strlit("peephole");
    reveal_strlit("inliner");
    reveal_strlit("jumpdestRemover");
    reveal_strlit("orderLiterals");
    reveal_strlit("deduplicate");
    reveal_strlit("cse");
    reveal_strlit("constantOptimizer");
    reveal_strlit("simpleCounterForLoopUncheckedIncrement");
    reveal_strlit("yul");
    assert("peephole"@ != "yulDetails"@) by {
        assert("peephole"@.len() == 8 && "yulDetails"@.len() == 10);
    }
    lemma_key2_ne(profile, "peephole"@, "yulDetails"@);
    assert("inliner"@ != "yulDetails"@) by {
        assert("inliner"@.len() == 7);
    }
    lemma_key2_ne(profile, "inliner"@, "yulDetails"@);
    assert("jumpdestRemover"@ != "yulDetails"@) by {
        assert("jumpdestRemover"@.len() == 15);
    }
    lemma_key2_ne(profile, "jumpdestRemover"@, "yulDetails"@);
    assert("orderLiterals"@ != "yulDetails"@) by {
        assert("orderLiterals"@.len() == 13);
    }
    lemma_key2_ne(profile, "orderLiterals"@, "yulDetails"@);
    assert("deduplicate"@ != "yulDetails"@) by {
        assert("deduplicate"@.len() == 11);
    }
    lemma_key2_ne(profile, "deduplicate"@, "yulDetails"@);
    assert("cse"@ != "yulDetails"@) by {
        assert("cse"@.len() == 3);
    }
    lemma_key2_ne(profile, "cse"@, "yulDetails"@);
    assert("constantOptimizer"@ != "yulDetails"@) by {
        assert("constantOptimizer"@.len() == 17);
    }
    lemma_key2_ne(profile, "constantOptimizer"@, "yulDetails"@);
    assert("simpleCounterForLoopUncheckedIncrement"@ != "yulDetails"@) by {
        assert("simpleCounterForLoopUncheckedIncrement"@.len() == 38);
    }
    lemma_key2_ne(profile, "simpleCounterForLoopUncheckedIncrement"@, "yulDetails"@);
    assert("yul"@ != "yulDetails"@) by {
        assert("yul"@.len() == 3);
    }
    lemma_key2_ne(profile, "yul"@, "yulDetails"@);
    let t1 = opt_bool(t0, pkey2(profile, "optimizer_details"@, "peephole"@), det.peephole);
    lemma_opt_bool_no_table(t0, pkey2(profile, "optimizer_details"@, "peephole"@), det.peephole, yd);
    let t2 = opt_bool(t1, pkey2(profile, "optimizer_details"@, "inliner"@), det.inliner);
    lemma_opt_bool_no_table(t1, pkey2(profile, "optimizer_details"@, "inliner"@), det.inliner, yd);
    let t3 = opt_bool(
        t2,
        pkey2(profile, "optimizer_details"@, "jumpdestRemover"@),
        det.jumpdest_remover,
    );
    lemma_opt_bool_no_table(
        t2,
        pkey2(profile, "optimizer_details"@, "jumpdestRemover"@),
        det.jumpdest_remover,
        yd,
    );
    let t4 = opt_bool(
        t3,
        pkey2(profile, "optimizer_details"@, "orderLiterals"@),
        det.order_literals,
    );
    lemma_opt_bool_no_table(
        t3,
        pkey2(profile, "optimizer_details"@, "orderLiterals"@),
        det.order_literals,
        yd,
    );
    let t5 = opt_bool(t4, pkey2(profile, "optimizer_details"@, "deduplicate"@), det.deduplicate);
    lemma_opt_bool_no_table(
        t4,
        pkey2(profile, "optimizer_details"@, "deduplicate"@),
        det.deduplicate,
        yd,
    );
    let t6 = opt_bool(t5, pkey2(profile, "optimizer_details"@, "cse"@), det.cse);
    lemma_opt_bool_no_table(t5, pkey2(profile, "optimizer_details"@, "cse"@), det.cse, yd);
    let t7 = opt_bool(
        t6,
        pkey2(profile, "optimizer_details"@, "constantOptimizer"@),
        det.constant_optimizer,
    );
    lemma_opt_bool_no_table(
        t6,
        pkey2(profile, "optimizer_details"@, "constantOptimizer"@),
        det.constant_optimizer,
        yd,
    );
    let t8 = opt_bool(
        t7,
        pkey2(profile, "optimizer_details"@, "simpleCounterForLoopUncheckedIncrement"@),
        det.simple_counter_for_loop_unchecked_increment,
    );
    lemma_opt_bool_no_table(
        t7,
        pkey2(profile, "optimizer_details"@, "simpleCounterForLoopUncheckedIncrement"@),
        det.simple_counter_for_loop_unchecked_increment,
        yd,
    );
    let t9 = opt_bool(t8, pkey2(profile, "optimizer_details"@, "yul"@), det.yul);
    lemma_opt_bool_no_table(t8, pkey2(profile, "optimizer_details"@, "yul"@), det.yul, yd);
}

/// A conditional boolean write at another key of the same depth never
/// creates a table elsewhere.
proof fn lemma_opt_bool_no_table(
    d: Seq<(Seq<Seq<char>>, GLeaf)>,
    p: Seq<Seq<char>>,
    o: Option<bool>,
    t: Seq<Seq<char>>,
)
    requires
        !table_exists(d, t),
        p != t,
        !crate::config_doc::is_strict_desc(p, t),
    ensures
        !table_exists(opt_bool(d, p, o), t),
{
    match o {
        Some(b) => {
            crate::config_doc::lemma_doc_set_no_new_table(d, p, GLeaf::Bool(b), t);
        },
        None => {},
    }
}

/// Configuration fidelity: the synthesized document reports exactly the
/// optimizer switches the explorer reported -- the enabled flag and the
/// run count read back as written, and when no Yul details were
/// reported the details sub-document has no `yulDetails` table.
pub proof fn lemma_config_fidelity(
    d: Seq<(Seq<Seq<char>>, GLeaf)>,
    profile: Seq<char>,
    s: SettingsModel,
    chain_id: int,
    major: int,
    minor: int,
    patch: int,
    remappings: Seq<Seq<char>>,
    reorganized: bool,
    export_remappings: bool,
)
    ensures
        ({
            let res = synth_spec(
                d,
                profile,
                s,
                chain_id,
                major,
                minor,
                patch,
                remappings,
                reorganized,
                export_remappings,
            );
            &&& (s.optimizer.enabled matches Some(b) ==> doc_get(res, pkey(profile, "optimizer"@))
                == Some(GLeaf::Bool(b)))
            &&& (s.optimizer.runs matches Some(n) ==> doc_get(
                res,
                pkey(profile, "optimizer_runs"@),
            ) == Some(GLeaf::Int(n as int)))
            &&& ((s.optimizer.details matches Some(det) && det.yul_details is None)
                ==> !table_exists(
                res,
                pkey2(profile, "optimizer_details"@, "yulDetails"@),
            ))
        }),
{
    let d10 = chunk_scalars(
        ensure_profile(d, profile),
        profile,
        s,
        chain_id,
        major,
        minor,
        patch,
        remappings,
        export_remappings,
    );
    let d11 = match s.optimizer.details {
        Some(det) => chunk_details(d10, profile, det),
        None => d10,
    };
    let libs_path = pkey(profile, "libraries"@);
    let res = doc_set(d11, libs_path, GLeaf::StrList(libs_rendered(s.libraries@, reorganized)));
    let opt_path = pkey(profile, "optimizer"@);
    let runs_path = pkey(profile, "optimizer_runs"@);
    let od_path = pkey(profile, "optimizer_details"@);
    let yd_path = pkey2(profile, "optimizer_details"@, "yulDetails"@);
    reveal_strlit("optimizer");
    reveal_strlit("optimizer_runs");
    reveal_strlit("optimizer_details");
    reveal_strlit("libraries");
    assert("optimizer"@ != "optimizer_runs"@) by {
        assert("optimizer"@.len() == 9 && "optimizer_runs"@.len() == 14);
    }
    lemma_key_ne(profile, "optimizer"@, "optimizer_runs"@);
    assert("optimizer"@ != "optimizer_details"@) by {
        assert("optimizer_details"@.len() == 17);
    }
    lemma_key_ne(profile, "optimizer"@, "optimizer_details"@);
    assert("optimizer_runs"@ != "optimizer_details"@) by {
        assert("optimizer_runs"@.len() == 14 && "optimizer_details"@.len() == 17);
    }
    lemma_key_ne(profile, "optimizer_runs"@, "optimizer_details"@);
    assert("optimizer"@ != "libraries"@) by {
        assert("optimizer"@[0] == 'o' && "libraries"@[0] == 'l');
    }
    lemma_key_ne(profile, "optimizer"@, "libraries"@);
    assert("optimizer_runs"@ != "libraries"@) by {
        assert("libraries"@.len() == 9);
    }
    lemma_key_ne(profile, "optimizer_runs"@, "libraries"@);

    // The optimizer flag, if reported, reads back as written.
    match s.optimizer.enabled {
        Some(b) => {
            let d9 = chunk_scalars_to_d9(
                ensure_profile(d, profile),
                profile,
                s,
                chain_id,
                major,
                minor,
                patch,
                remappings,
                export_remappings,
            );
            assert(doc_get(d9, opt_path) == Some(GLeaf::Bool(b))) by {
                crate::config_doc::lemma_doc_set_get(
                    chunk_scalars_to_d8(
                        ensure_profile(d, profile),
                        profile,
                        s,
                        chain_id,
                        major,
                        minor,
                        patch,
                        remappings,
                        export_remappings,
                    ),
                    opt_path,
                    GLeaf::Bool(b),
                );
            }
            match s.optimizer.runs {
                Some(n) => {
                    crate::config_doc::lemma_doc_set_get_frame(
                        d9,
                        runs_path,
                        GLeaf::Int(n as int),
                        opt_path,
                    );
                },
                None => {},
            }
            assert(doc_get(d10, opt_path) == Some(GLeaf::Bool(b)));
            match s.optimizer.details {
                Some(det) => {
                    lemma_details_get_frame(d10, profile, det, opt_path);
                },
                None => {},
            }
            assert(doc_get(d11, opt_path) == Some(GLeaf::Bool(b)));
            crate::config_doc::lemma_doc_set_get_frame(
                d11,
                libs_path,
                GLeaf::StrList(libs_rendered(s.libraries@, reorganized)),
                opt_path,
            );
        },
        None => {},
    }

    // The run count, if reported, reads back as written.
    match s.optimizer.runs {
        Some(n) => {
            let d9 = chunk_scalars_to_d9(
                ensure_profile(d, profile),
                profile,
                s,
                chain_id,
                major,
                minor,
                patch,
                remappings,
                export_remappings,
            );
            crate::config_doc::lemma_doc_set_get(d9, runs_path, GLeaf::Int(n as int));
            assert(doc_get(d10, runs_path) == Some(GLeaf::Int(n as int)));
            match s.optimizer.details {
                Some(det) => {
                    lemma_details_get_frame(d10, profile, det, runs_path);
                },
                None => {},
            }
            crate::config_doc::lemma_doc_set_get_frame(
                d11,
                libs_path,
                GLeaf::StrList(libs_rendered(s.libraries@, reorganized)),
                runs_path,
            );
        },
        None => {},
    }

    // No Yul details reported: no yulDetails table survives.
    match s.optimizer.details {
        Some(det) => {
            if det.yul_details is None {
                lemma_details_no_yul(d10, profile, det);
                crate::config_doc::lemma_doc_set_no_new_table(
                    d11,
                    libs_path,
                    GLeaf::StrList(libs_rendered(s.libraries@, reorganized)),
                    yd_path,
                );
            }
        },
        None => {},
    }
}

/// The scalar chunk up to the optimizer flag.
pub open spec fn chunk_scalars_to_d8(
    d: Seq<(Seq<Seq<char>>, GLeaf)>,
    profile: Seq<char>,
    s: SettingsModel,
    chain_id: int,
    major: int,
    minor: int,
    patch: int,
    remappings: Seq<Seq<char>>,
    export_remappings: bool,
) -> Seq<(Seq<Seq<char>>, GLeaf)> {
    let d1 = if export_remappings {
        d
    } else {
        doc_set(d, pkey(profile, "remappings"@), GLeaf::StrList(remappings))
    };
    let d2 = doc_set(d1, pkey(profile, "auto_detect_remappings"@), GLeaf::Bool(false));
    let d3 = doc_set(d2, pkey(profile, "chain_id"@), GLeaf::Int(chain_id));
    let d4 = doc_set(d3, pkey(profile, "auto_detect_solc"@), GLeaf::Bool(false));
    let d5 = doc_set(
        d4,
        pkey(profile, "solc_version"@),
        GLeaf::Str(dec_str(major) + seq!['.'] + dec_str(minor) + seq!['.'] + dec_str(patch)),
    );
    let d6 = match s.evm_version {
        Some(v) => if !is_default_evm(v@) {
            doc_set(d5, pkey(profile, "evm_version"@), GLeaf::Str(v@))
        } else {
            d5
        },
        None => d5,
    };
    let d7 = opt_bool(d6, pkey(profile, "via_ir"@), s.via_ir);
    match s.metadata {
        Some(m) => {
            let a = opt_bool(d7, pkey(profile, "cbor_metadata"@), m.cbor_metadata);
            let b = opt_bool(a, pkey(profile, "use_literal_content"@), m.use_literal_content);
            opt_str(b, pkey(profile, "bytecode_hash"@), m.bytecode_hash)
        },
        None => d7,
    }
}

/// The scalar chunk up to (and including) the optimizer flag.
pub open spec fn chunk_scalars_to_d9(
    d: Seq<(Seq<Seq<char>>, GLeaf)>,
    profile: Seq<char>,
    s: SettingsModel,
    chain_id: int,
    major: int,
    minor: int,
    patch: int,
    remappings: Seq<Seq<char>>,
    export_remappings: bool,
) -> Seq<(Seq<Seq<char>>, GLeaf)> {
    opt_bool(
        chunk_scalars_to_d8(
            d,
            profile,
            s,
            chain_id,
            major,
            minor,
            patch,
            remappings,
            export_remappings,
        ),
        pkey(profile, "optimizer"@),
        s.optimizer.enabled,
    )
}

} // verus!
