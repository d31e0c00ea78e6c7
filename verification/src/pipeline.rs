//! The clone run as a state machine: each transition consumes the
//! completion of one outside step (a fetch, the project init, the
//! filesystem moves, the compile) and decides the next action.  A
//! failure in any transition is terminal; the caller performs the
//! returned action and reports its completion as the next event.

use vstd::prelude::*;
use vstd::string::*;
use crate::errors::CloneError;
use crate::artifact::{ArtifactModel, CloneMetadata, match_count, find_main_contract};
use crate::config_doc::{ConfigDoc, doc_view};
use crate::materialize::{
    PlanStep,
    MaterializePlan,
    steps_view,
    remaps_view,
    plan_result_spec,
    reorg_spec,
    plan_materialization,
};
use crate::metadata::{
    ContractMetadataModel,
    version_parse,
    version_runs_short,
    parse_compiler_version,
    select_single_metadata,
    is_vyper,
};
use crate::pathseg::{path_wf, join_lines, render_lines};
use crate::reconcile::{root_wf, reconciled_spec, reconcile_remappings};
use crate::remapping::{Remapping, RawRemapping};
use crate::source_tree::tree_wf;
use crate::synthesize::{synth_spec, synthesize_config};

verus! {

/// Marker for the network flavor a clone run targets.  The pipeline
/// itself reads nothing from it; callers hang their network-specific
/// plumbing (transports, transaction envelopes) on this type.
#[derive(Debug, Clone, Copy)]
pub struct FoundryNetwork;

/// What a clone run was asked to do.
#[derive(Debug)]
pub struct CloneRequest {
    /// The on-chain address being cloned, rendered as text.
    pub address: String,
    /// The chain the contract lives on.
    pub chain_id: u64,
    /// Keep the fetched bundle's own directory structure.
    pub keep_structure: bool,
    /// Keep the remappings in the configuration document instead of
    /// exporting them to their own file.
    pub no_remappings_txt: bool,
    /// Snapshot the project under version control at the end.
    pub with_commit: bool,
}

/// What the initialized project looks like when the pipeline first
/// touches it.
#[derive(Debug)]
pub struct ProjectContext {
    /// The project root, canonicalized (absolute).
    pub root: String,
    /// The active configuration profile.
    pub profile: String,
    /// Every path that exists under the root, root-relative.
    pub existing: Vec<Vec<String>>,
    /// Remappings already declared in the project.
    pub pre_existing_remappings: Vec<RawRemapping>,
    /// Whether the exported remappings file already exists.
    pub remappings_file_present: bool,
    /// The project's configuration document.
    pub config: ConfigDoc,
}

/// Where a run stands: what has been decided and what is awaited.
#[derive(Debug)]
pub enum CloneState {
    /// Awaiting the metadata fetch.
    Fetching,
    /// Metadata validated; awaiting the project initialization.
    Initializing { meta: ContractMetadataModel },
    /// Materialization planned; awaiting the filesystem steps.
    Materializing {
        meta: ContractMetadataModel,
        ctx: ProjectContext,
        reorganized: bool,
        generated: Vec<Remapping>,
    },
    /// Configuration synthesized; awaiting its write.
    WritingConfig { meta: ContractMetadataModel },
    /// Awaiting the compile.
    Compiling { meta: ContractMetadataModel },
    /// Target artifact located; awaiting the creation-transaction fetch.
    FetchingCreation { meta: ContractMetadataModel, main_file: String, layout: String },
    /// Record assembled; awaiting its persistence.
    Persisting,
    /// Awaiting the version-control snapshot.
    Committing,
    /// The run is complete.
    Done,
}

/// The completion of one outside step.
#[derive(Debug)]
pub enum CloneEvent {
    /// The explorer answered the source fetch.
    Fetched { items: Vec<ContractMetadataModel> },
    /// The project skeleton exists; here is what it holds.
    Initialized { ctx: ProjectContext },
    /// The filesystem steps ran to completion.
    Materialized,
    /// The configuration document was written.
    ConfigWritten,
    /// The compile finished with these artifacts.
    Compiled { artifacts: Vec<ArtifactModel> },
    /// The explorer answered the creation-data fetch.
    CreationFetched { transaction_hash: String, deployer: String },
    /// The clone record was persisted and marked read-only.
    Persisted,
    /// The version-control snapshot was taken.
    Committed,
}

/// What the caller must do next.
#[derive(Debug)]
pub enum CloneAction {
    /// Initialize the project skeleton, then delete these sample files.
    InitProject { remove_samples: Vec<String> },
    /// Write the fetched bundle into the staging directory, run these
    /// steps in order, then remove the staging directory.
    MaterializeSources { steps: Vec<PlanStep> },
    /// Persist this configuration document; when a remappings file is
    /// given, write it beside the document.
    WriteConfig { doc: ConfigDoc, remappings_file: Option<String> },
    /// Compile the project with storage-layout output requested.
    CompileProject,
    /// Fetch the creation transaction of the requested address.
    FetchCreation,
    /// Persist this record at the project root and mark it read-only.
    PersistRecord { record: CloneMetadata },
    /// Stage everything and commit with this message.
    CommitChanges { message: String },
    /// Nothing is left to do.
    Finish,
}

/// One running clone.
#[derive(Debug)]
pub struct ClonePipeline {
    /// The request, fixed for the whole run.
    pub request: CloneRequest,
    /// Where the run stands.
    pub state: CloneState,
}

/// The machine limits a request must respect.
pub open spec fn request_wf(q: CloneRequest) -> bool {
    q.chain_id <= 0x7fff_ffff_ffff_ffff
}

/// What the pipeline assumes of a fetched contract entry: its source
/// paths fit a filesystem, its declared remappings and library paths are
/// well-formed segment paths, and its numbers fit machine words.
pub open spec fn meta_wf(m: ContractMetadataModel) -> bool {
    &&& tree_wf(m.sources)
    &&& forall|i: int|
        0 <= i < m.settings.remappings@.len() ==> {
            &&& path_wf((#[trigger] m.settings.remappings@[i]).name.deep_view())
            &&& path_wf(m.settings.remappings@[i].path.deep_view())
        }
    &&& forall|i: int|
        0 <= i < m.settings.libraries@.len() ==> path_wf(
            (#[trigger] m.settings.libraries@[i]).path.deep_view(),
        )
    &&& (m.settings.optimizer.runs matches Some(n) ==> n <= 0x7fff_ffff_ffff_ffff)
    &&& m.compiler_version@.len() < usize::MAX - 1
}

/// What the pipeline assumes of the initialized project.
pub open spec fn ctx_wf(c: ProjectContext) -> bool {
    root_wf(c.root@)
}

/// What each state carries is well-formed.
pub open spec fn state_wf(s: CloneState) -> bool {
    match s {
        CloneState::Fetching => true,
        CloneState::Initializing { meta } => meta_wf(meta),
        CloneState::Materializing { meta, ctx, reorganized: _, generated } => {
            &&& meta_wf(meta)
            &&& ctx_wf(ctx)
            &&& forall|i: int|
                0 <= i < generated@.len() ==> {
                    &&& path_wf((#[trigger] generated@[i]).name.deep_view())
                    &&& path_wf(generated@[i].path.deep_view())
                    &&& generated@[i].context is None
                }
        },
        CloneState::WritingConfig { meta } => meta_wf(meta),
        CloneState::Compiling { meta } => meta_wf(meta),
        CloneState::FetchingCreation { .. } => true,
        CloneState::Persisting => true,
        CloneState::Committing => true,
        CloneState::Done => true,
    }
}

/// Whether a fetch is accepted: it resolved to exactly one contract
/// entry and that entry is not written for the unsupported dialect.
/// Rejection is decided by the fetched items alone and ends the run at
/// its very first transition, before any action -- and so any project
/// file -- is ever issued.
pub open spec fn fetch_accepted(items: Seq<ContractMetadataModel>) -> bool {
    items.len() == 1 && !is_vyper(items[0].compiler_version@)
}

/// The initializer's example files, deleted right after the skeleton is
/// created.
pub open spec fn sample_files() -> Seq<Seq<char>> {
    seq!["src/Counter.sol"@, "test/Counter.t.sol"@, "script/Counter.s.sol"@]
}

/// Which event answers which state.
pub open spec fn fits(s: CloneState, e: CloneEvent) -> bool {
    match (s, e) {
        (CloneState::Fetching, CloneEvent::Fetched { .. }) => true,
        (CloneState::Initializing { .. }, CloneEvent::Initialized { .. }) => true,
        (CloneState::Materializing { .. }, CloneEvent::Materialized) => true,
        (CloneState::WritingConfig { .. }, CloneEvent::ConfigWritten) => true,
        (CloneState::Compiling { .. }, CloneEvent::Compiled { .. }) => true,
        (CloneState::FetchingCreation { .. }, CloneEvent::CreationFetched { .. }) => true,
        (CloneState::Persisting, CloneEvent::Persisted) => true,
        (CloneState::Committing, CloneEvent::Committed) => true,
        _ => false,
    }
}

/// What the fetched-event items must satisfy for the later stages.
pub open spec fn event_wf(e: CloneEvent) -> bool {
    match e {
        CloneEvent::Fetched { items } => forall|i: int|
            0 <= i < items@.len() ==> meta_wf(#[trigger] items@[i]),
        CloneEvent::Initialized { ctx } => ctx_wf(ctx),
        _ => true,
    }
}

/// Takes one step: consumes the completion of the awaited outside step,
/// runs the stage's decision, and returns the advanced pipeline with the
/// next action -- or the run's terminal failure.  Fetch validation
/// happens before any action that touches the project, materialization
/// is planned before any file moves, and the record is assembled only
/// from a located artifact that carries a storage layout.
#[verifier::rlimit(100)]
pub fn advance(p: ClonePipeline, event: CloneEvent) -> (r: Result<
    (ClonePipeline, CloneAction),
    CloneError,
>)
    requires
        fits(p.state, event),
        event_wf(event),
        request_wf(p.request),
        state_wf(p.state),
    ensures
        r matches Ok(next) ==> state_wf(next.0.state) && next.0.request == p.request,
        p.state is Fetching ==> ({
            let items = event->Fetched_items;
            &&& (r is Ok) == fetch_accepted(items@)
            &&& (r matches Ok(next) ==> next.0.state matches CloneState::Initializing { meta }
                && meta == items@[0] && (next.1 matches CloneAction::InitProject { remove_samples }
                && remove_samples.deep_view() == sample_files()))
            &&& (items@.len() != 1 ==> (r matches Err(e) && e == CloneError::MetadataNotSingle))
            &&& (items@.len() == 1 && is_vyper(items@[0].compiler_version@) ==> (r matches Err(e)
                && e == CloneError::VyperNotSupported))
        }),
        p.state matches CloneState::Initializing { meta } ==> ({
            let ctx = event->Initialized_ctx;
            let outcome = plan_result_spec(
                meta.sources,
                ctx.existing.deep_view(),
                p.request.keep_structure,
            );
            &&& (r is Ok) == (outcome is Ok)
            &&& (r matches Ok(next) ==> {
                &&& next.1 matches CloneAction::MaterializeSources { steps } && steps_view(
                    steps@,
                ) == outcome->Ok_0.steps
                &&& next.0.state matches CloneState::Materializing {
                    meta: m2,
                    ctx: c2,
                    reorganized,
                    generated,
                }
                &&& m2 == meta
                &&& c2 == ctx
                &&& reorganized == reorg_spec(meta.sources, p.request.keep_structure)
                &&& remaps_view(generated@) == outcome->Ok_0.remaps
            })
            &&& (r matches Err(e) ==> e == outcome->Err_0)
        }),
        p.state matches CloneState::Materializing { meta, ctx, reorganized, generated } ==> ({
            let parsed = version_parse(meta.compiler_version@);
            let parse_ok = parsed is Some && version_runs_short(meta.compiler_version@);
            let export = !p.request.no_remappings_txt;
            let table = reconciled_spec(
                ctx.pre_existing_remappings@,
                generated@,
                meta.settings.remappings@,
                reorganized,
                ctx.root@,
            );
            &&& (r is Ok) == (parse_ok && meta.settings.stop_after is None && !(export
                && ctx.remappings_file_present))
            &&& (!parse_ok ==> (r matches Err(e) && e == CloneError::BadCompilerVersion))
            &&& (parse_ok && meta.settings.stop_after is Some ==> (r matches Err(e) && e
                == CloneError::StopAfterSet))
            &&& (parse_ok && meta.settings.stop_after is None && export
                && ctx.remappings_file_present ==> (r matches Err(e) && e
                == CloneError::RemappingsFileExists))
            &&& (r matches Ok(next) ==> {
                &&& next.1 matches CloneAction::WriteConfig { doc, remappings_file }
                &&& doc_view(doc) == synth_spec(
                    doc_view(ctx.config),
                    ctx.profile@,
                    meta.settings,
                    p.request.chain_id as int,
                    parsed->Some_0.0,
                    parsed->Some_0.1,
                    parsed->Some_0.2,
                    table,
                    reorganized,
                    export,
                )
                &&& (export ==> (remappings_file matches Some(c) && c@ == join_lines(table)))
                &&& (!export ==> remappings_file is None)
                &&& next.0.state matches CloneState::WritingConfig { meta: m2 } && m2 == meta
            })
        }),
        p.state matches CloneState::WritingConfig { meta } ==> r matches Ok(next)
            && next.1 is CompileProject && (next.0.state matches CloneState::Compiling {
            meta: m2,
        } && m2 == meta),
        p.state matches CloneState::Compiling { meta } ==> ({
            let artifacts = event->Compiled_artifacts;
            &&& (r is Ok) == (match_count(artifacts@, meta.contract_name@) == 1 && (exists|i: int|
                0 <= i < artifacts@.len() && (#[trigger] artifacts@[i]).contract_name@
                    == meta.contract_name@ && artifacts@[i].storage_layout is Some))
            &&& (r matches Ok(next) ==> next.1 is FetchCreation && exists|i: int|
                {
                    &&& 0 <= i < artifacts@.len()
                    &&& (#[trigger] artifacts@[i]).contract_name@ == meta.contract_name@
                    &&& next.0.state matches CloneState::FetchingCreation {
                        meta: m2,
                        main_file,
                        layout,
                    }
                    &&& m2 == meta
                    &&& main_file@ == artifacts@[i].file@
                    &&& artifacts@[i].storage_layout is Some
                    &&& layout@ == artifacts@[i].storage_layout->0@
                })
            &&& (r matches Err(e) && e == CloneError::ContractNotFound) == (match_count(
                artifacts@,
                meta.contract_name@,
            ) == 0)
            &&& (r matches Err(e) && e == CloneError::AmbiguousContract) == (match_count(
                artifacts@,
                meta.contract_name@,
            ) >= 2)
        }),
        p.state matches CloneState::FetchingCreation { meta, main_file, layout } ==> ({
            let tx = event->CreationFetched_transaction_hash;
            let dep = event->CreationFetched_deployer;
            &&& r matches Ok(next)
            &&& (r matches Ok(next) ==> {
                &&& next.1 matches CloneAction::PersistRecord { record }
                &&& record.path@ == main_file@
                &&& record.target_contract@ == meta.contract_name@
                &&& record.address@ == p.request.address@
                &&& record.chain_id == p.request.chain_id
                &&& record.creation_transaction@ == tx@
                &&& record.deployer@ == dep@
                &&& record.constructor_arguments@ == meta.constructor_arguments@
                &&& record.storage_layout@ == layout@
                &&& next.0.state is Persisting
            })
        }),
        p.state is Persisting ==> (r matches Ok(next) && (p.request.with_commit ==> (
        next.0.state is Committing && (next.1 matches CloneAction::CommitChanges { message }
            && message@ == "chore: forge clone "@ + p.request.address@))) && (
        !p.request.with_commit ==> next.0.state is Done && next.1 is Finish)),
        p.state is Committing ==> (r matches Ok(next) && next.0.state is Done && next.1
            is Finish),
{
    let ClonePipeline { request, state } = p;
    match (state, event) {
        (CloneState::Fetching, CloneEvent::Fetched { items }) => {
            let meta = match select_single_metadata(items) {
                Ok(m) => m,
                Err(e) => {
                    return Err(e);
                },
            };
            let mut samples: Vec<String> = Vec::new();
            samples.push("src/Counter.sol".to_owned());
            samples.push("test/Counter.t.sol".to_owned());
            samples.push("script/Counter.s.sol".to_owned());
            proof {
                assert(samples.deep_view() =~= sample_files());
            }
            Ok(
                (
                    ClonePipeline { request, state: CloneState::Initializing { meta } },
                    CloneAction::InitProject { remove_samples: samples },
                ),
            )
        },
        (CloneState::Initializing { meta }, CloneEvent::Initialized { ctx }) => {
            let plan = match plan_materialization(
                &meta.sources,
                &ctx.existing,
                request.keep_structure,
            ) {
                Ok(pl) => pl,
                Err(e) => {
                    return Err(e);
                },
            };
            let MaterializePlan { reorganize, steps, remappings } = plan;
            Ok(
                (
                    ClonePipeline {
                        request,
                        state: CloneState::Materializing {
                            meta,
                            ctx,
                            reorganized: reorganize,
                            generated: remappings,
                        },
                    },
                    CloneAction::MaterializeSources { steps },
                ),
            )
        },
        (
            CloneState::Materializing { meta, ctx, reorganized, generated },
            CloneEvent::Materialized,
        ) => {
            let (major, minor, patch) = match parse_compiler_version(
                meta.compiler_version.as_str(),
            ) {
                Ok(v) => v,
                Err(e) => {
                    return Err(e);
                },
            };
            let export = !request.no_remappings_txt;
            let table = reconcile_remappings(
                &ctx.pre_existing_remappings,
                &generated,
                &meta.settings.remappings,
                reorganized,
                ctx.root.as_str(),
            );
            let doc = match synthesize_config(
                ctx.config,
                &ctx.profile,
                &meta.settings,
                request.chain_id,
                major,
                minor,
                patch,
                &table,
                reorganized,
                export,
            ) {
                Ok(d) => d,
                Err(e) => {
                    return Err(e);
                },
            };
            if export && ctx.remappings_file_present {
                return Err(CloneError::RemappingsFileExists);
            }
            let remappings_file = if export {
                Some(render_lines(&table))
            } else {
                None
            };
            Ok(
                (
                    ClonePipeline { request, state: CloneState::WritingConfig { meta } },
                    CloneAction::WriteConfig { doc, remappings_file },
                ),
            )
        },
        (CloneState::WritingConfig { meta }, CloneEvent::ConfigWritten) => {
            Ok(
                (
                    ClonePipeline { request, state: CloneState::Compiling { meta } },
                    CloneAction::CompileProject,
                ),
            )
        },
        (CloneState::Compiling { meta }, CloneEvent::Compiled { artifacts }) => {
            let idx = match find_main_contract(&artifacts, &meta.contract_name) {
                Ok(i) => i,
                Err(e) => {
                    return Err(e);
                },
            };
            match &artifacts[idx].storage_layout {
                Some(l) => {
                    let main_file = artifacts[idx].file.clone();
                    let layout = l.clone();
                    proof {
                        assert(artifacts@[idx as int].contract_name@ == meta.contract_name@);
                    }
                    Ok(
                        (
                            ClonePipeline {
                                request,
                                state: CloneState::FetchingCreation { meta, main_file, layout },
                            },
                            CloneAction::FetchCreation,
                        ),
                    )
                },
                None => {
                    proof {
                        assert(forall|i: int|
                            0 <= i < artifacts@.len() && (#[trigger] artifacts@[i]).contract_name@
                                == meta.contract_name@ ==> i == idx as int);
                    }
                    Err(CloneError::StorageLayoutMissing)
                },
            }
        },
        (
            CloneState::FetchingCreation { meta, main_file, layout },
            CloneEvent::CreationFetched { transaction_hash, deployer },
        ) => {
            let record = CloneMetadata {
                path: main_file,
                target_contract: meta.contract_name.clone(),
                address: request.address.clone(),
                chain_id: request.chain_id,
                creation_transaction: transaction_hash,
                deployer,
                constructor_arguments: crate::pathseg::copy_bytes(&meta.constructor_arguments),
                storage_layout: layout,
            };
            Ok(
                (
                    ClonePipeline { request, state: CloneState::Persisting },
                    CloneAction::PersistRecord { record },
                ),
            )
        },
        (CloneState::Persisting, CloneEvent::Persisted) => {
            if request.with_commit {
                let mut message = "chore: forge clone ".to_owned();
                message.append(request.address.as_str());
                Ok(
                    (
                        ClonePipeline { request, state: CloneState::Committing },
                        CloneAction::CommitChanges { message },
                    ),
                )
            } else {
                Ok((ClonePipeline { request, state: CloneState::Done }, CloneAction::Finish))
            }
        },
        (CloneState::Committing, CloneEvent::Committed) => {
            Ok((ClonePipeline { request, state: CloneState::Done }, CloneAction::Finish))
        },
        _ => {
            proof {
                assert(false);
            }
            Err(CloneError::MetadataNotSingle)
        },
    }
}

/// Determinism: the outcome of every stage is a function of the fetched
/// metadata and the project's starting state alone, so two runs over the
/// same inputs plan the same moves, emit the same remappings, and
/// synthesize the same configuration document.
pub proof fn lemma_clone_determinism(
    t: crate::source_tree::SourceTree,
    existing: Seq<Seq<Seq<char>>>,
    keep_structure: bool,
    g1: crate::materialize::GState,
    g2: crate::materialize::GState,
    d: Seq<(Seq<Seq<char>>, crate::config_doc::GLeaf)>,
    profile: Seq<char>,
    s: crate::metadata::SettingsModel,
    chain_id: int,
    major: int,
    minor: int,
    patch: int,
    remappings: Seq<Seq<char>>,
    reorganized: bool,
    export_remappings: bool,
    dv1: Seq<(Seq<Seq<char>>, crate::config_doc::GLeaf)>,
    dv2: Seq<(Seq<Seq<char>>, crate::config_doc::GLeaf)>,
)
    requires
        plan_result_spec(t, existing, keep_structure) == Ok::<
            crate::materialize::GState,
            CloneError,
        >(g1),
        plan_result_spec(t, existing, keep_structure) == Ok::<
            crate::materialize::GState,
            CloneError,
        >(g2),
        dv1 == synth_spec(
            d,
            profile,
            s,
            chain_id,
            major,
            minor,
            patch,
            remappings,
            reorganized,
            export_remappings,
        ),
        dv2 == synth_spec(
            d,
            profile,
            s,
            chain_id,
            major,
            minor,
            patch,
            remappings,
            reorganized,
            export_remappings,
        ),
    ensures
        g1 == g2,
        dv1 == dv2,
{
}


/// Whether a fetched contract entry satisfies what the pipeline assumes
/// of it (`meta_wf`); the driver tests this before handing the entry in.
#[verifier::loop_isolation(false)]
pub fn meta_wf_check(m: &ContractMetadataModel) -> (r: bool)
    ensures
        r == meta_wf(*m),
{
    let tree_ok = crate::source_tree::tree_wf_check(&m.sources);
    if !tree_ok {
        return false;
    }
    let mut i: usize = 0;
    while i < m.settings.remappings.len()
        invariant
            i <= m.settings.remappings@.len(),
            forall|j: int|
                0 <= j < i ==> {
                    &&& path_wf((#[trigger] m.settings.remappings@[j]).name.deep_view())
                    &&& path_wf(m.settings.remappings@[j].path.deep_view())
                },
        decreases m.settings.remappings@.len() - i,
    {
        let rm = &m.settings.remappings[i];
        let name_ok = crate::pathseg::path_wf_check(&rm.name);
        let path_ok = crate::pathseg::path_wf_check(&rm.path);
        if !name_ok || !path_ok {
            return false;
        }
        i = i + 1;
    }
    let mut i: usize = 0;
    while i < m.settings.libraries.len()
        invariant
            i <= m.settings.libraries@.len(),
            forall|j: int|
                0 <= j < i ==> path_wf((#[trigger] m.settings.libraries@[j]).path.deep_view()),
        decreases m.settings.libraries@.len() - i,
    {
        let ok = crate::pathseg::path_wf_check(&m.settings.libraries[i].path);
        if !ok {
            return false;
        }
        i = i + 1;
    }
    match &m.settings.optimizer.runs {
        Some(n) => {
            if *n > 0x7fff_ffff_ffff_ffff {
                return false;
            }
        },
        None => {},
    }
    let n = m.compiler_version.as_str().unicode_len();
    if n >= usize::MAX - 1 {
        return false;
    }
    true
}

/// Whether an event satisfies what `advance` assumes of it; the driver
/// tests this before every call.
#[verifier::loop_isolation(false)]
pub fn check_event_wf(e: &CloneEvent) -> (r: bool)
    ensures
        r == event_wf(*e),
{
    match e {
        CloneEvent::Fetched { items } => {
            let mut i: usize = 0;
            while i < items.len()
                invariant
                    i <= items@.len(),
                    forall|j: int| 0 <= j < i ==> meta_wf(#[trigger] items@[j]),
                decreases items@.len() - i,
            {
                let ok = meta_wf_check(&items[i]);
                if !ok {
                    return false;
                }
                i = i + 1;
            }
            true
        },
        CloneEvent::Initialized { ctx } => crate::pathseg::first_char_is(ctx.root.as_str(), '/'),
        _ => true,
    }
}

/// Whether a request respects the machine limits; the driver tests this
/// before starting a run.
pub fn check_request_wf(q: &CloneRequest) -> (r: bool)
    ensures
        r == request_wf(*q),
{
    q.chain_id <= 0x7fff_ffff_ffff_ffff
}

} // verus!
