//! Backends, the store for the metadata key, the integrity of key metadata, and
//! the search for the bridge to the Windows TPM.

use crate::error::{is_key_init_failure, StorageError};
use crate::outside::ZeroizingBytes;
use crate::text::{
    chars_of, concat, concat3, contains, contains_iff_it_splits, string_views, text_contains,
};
use vstd::prelude::*;

verus! {

/// The operating systems that are told apart.
#[derive(Debug, Clone, Copy, PartialEq, Eq, Structural)]
pub enum HostOs {
    MacOs,
    Windows,
    Linux,
    Other,
}

/// A native secure store of a platform.
#[derive(Debug, Clone, Copy, PartialEq, Eq, Structural)]
pub enum MetaStore {
    /// The macOS Keychain.
    Keychain,
    /// A DPAPI blob of the Windows user.
    Dpapi,
    /// The Secret Service of a Linux session.
    SecretService,
}

/// Which hardware or software backend is in use.
#[derive(Debug, Clone, Copy, PartialEq, Eq, Structural)]
pub enum BackendKind {
    /// The Secure Enclave of macOS.
    SecureEnclave,
    /// The TPM 2.0 of Windows.
    Tpm,
    /// The bridge from WSL to the TPM of Windows.
    TpmBridge,
    /// Keys in a keyring, on Linux without a TPM.
    Keyring,
}

/// The name of a backend as it is shown.
pub open spec fn backend_name(kind: BackendKind) -> Seq<char> {
    match kind {
        BackendKind::SecureEnclave => "Secure Enclave"@,
        BackendKind::Tpm => "TPM 2.0"@,
        BackendKind::TpmBridge => "TPM 2.0 (WSL Bridge)"@,
        BackendKind::Keyring => "Keyring"@,
    }
}

impl BackendKind {
    /// The name of the backend as it is shown.
    pub fn to_string(&self) -> (name: String)
        ensures
            name@ == backend_name(*self),
    {
        match self {
            BackendKind::SecureEnclave => "Secure Enclave".to_owned(),
            BackendKind::Tpm => "TPM 2.0".to_owned(),
            BackendKind::TpmBridge => "TPM 2.0 (WSL Bridge)".to_owned(),
            BackendKind::Keyring => "Keyring".to_owned(),
        }
    }
}

/// The store that holds the metadata key of an application.
pub open spec fn store_of(host: HostOs) -> Option<MetaStore> {
    match host {
        HostOs::MacOs => Some(MetaStore::Keychain),
        HostOs::Windows => Some(MetaStore::Dpapi),
        HostOs::Linux => Some(MetaStore::SecretService),
        HostOs::Other => None,
    }
}

/// The store that holds the metadata key of an application, where the platform
/// has one.
pub fn meta_store(host: HostOs) -> (store: Option<MetaStore>)
    ensures
        store == store_of(host),
{
    match host {
        HostOs::MacOs => Some(MetaStore::Keychain),
        HostOs::Windows => Some(MetaStore::Dpapi),
        HostOs::Linux => Some(MetaStore::SecretService),
        HostOs::Other => None,
    }
}

/// The metadata key out of what the platform's store replied.
///
/// There is none where the platform has no store, and where the store says that
/// it is locked, unreachable or not configured. Callers then neither persist nor
/// load metadata without authentication. A failure of the store itself, such as
/// of its random source or of a system call, is handed on.
pub fn meta_hmac_key(host: HostOs, reply: Result<Option<ZeroizingBytes>, String>) -> (key: Result<
    Option<ZeroizingBytes>,
    String,
>)
    ensures
        store_of(host) is None ==> key == Ok::<Option<ZeroizingBytes>, String>(None),
        store_of(host) is Some ==> key == reply,
{
    match meta_store(host) {
        None => Ok(None),
        Some(_) => reply,
    }
}

/// The store from which the metadata key is removed when an application is
/// uninstalled. The entry of a Linux session stays on purpose, for the user to
/// clean up.
pub fn delete_meta_hmac_key(host: HostOs) -> (store: Option<MetaStore>)
    ensures
        store == if host == HostOs::Linux {
            None::<MetaStore>
        } else {
            store_of(host)
        },
{
    match host {
        HostOs::MacOs => Some(MetaStore::Keychain),
        HostOs::Windows => Some(MetaStore::Dpapi),
        HostOs::Linux => None,
        HostOs::Other => None,
    }
}

/// What was found out so far about the metadata of a key.
pub struct MetaObservations {
    /// Whether the metadata file exists.
    pub meta_exists: Option<bool>,
    /// Whether the store gave the metadata key.
    pub key_available: Option<bool>,
    /// How loading the metadata against its sidecar ended.
    pub load: Option<Result<(), String>>,
    /// How writing a missing sidecar ended.
    pub migration: Option<Result<(), String>>,
}

/// What is to be done next to verify the metadata of a key.
#[derive(Debug, PartialEq, Eq)]
pub enum MetaStep {
    /// Look whether the metadata file with this name exists.
    ProbeMeta(String),
    /// Ask the store for the metadata key.
    FetchKey,
    /// Load the metadata and hold it against its sidecar, which has to exist.
    LoadMeta,
    /// Write the missing sidecar from the metadata as it stands.
    MigrateMeta,
    /// The verification is over.
    Done(Result<(), StorageError>),
}

/// The contents of a [`MetaStep`].
pub enum MetaStepView {
    ProbeMeta(Seq<char>),
    FetchKey,
    LoadMeta,
    MigrateMeta,
    /// The key may be used.
    Accept,
    /// The key must not be used, for this reason.
    Refuse(Seq<char>),
}

/// The step is this one.
pub open spec fn is_step(step: MetaStep, expected: MetaStepView) -> bool {
    match expected {
        MetaStepView::ProbeMeta(name) => step matches MetaStep::ProbeMeta(file) && file@ == name,
        MetaStepView::FetchKey => step is FetchKey,
        MetaStepView::LoadMeta => step is LoadMeta,
        MetaStepView::MigrateMeta => step is MigrateMeta,
        MetaStepView::Accept => step matches MetaStep::Done(Ok(())),
        MetaStepView::Refuse(why) => step matches MetaStep::Done(Err(e)) && is_key_init_failure(
            e,
            why,
        ),
    }
}

/// What follows from the way loading the metadata ended. Where the text of the
/// error names the failed comparison, the metadata was tampered with. Where it
/// names a missing sidecar, one is written; that this fails is no sign of
/// tampering. Any other error is left to the caller, who finds out when using the
/// key.
pub open spec fn after_load(
    load: Result<(), String>,
    migration: Option<Result<(), String>>,
    verify_op: Seq<char>,
    missing_op: Seq<char>,
) -> MetaStepView {
    match load {
        Ok(()) => MetaStepView::Accept,
        Err(text) => if contains(text@, verify_op) {
            MetaStepView::Refuse(text@)
        } else if contains(text@, missing_op) {
            match migration {
                None => MetaStepView::MigrateMeta,
                Some(_) => MetaStepView::Accept,
            }
        } else {
            MetaStepView::Accept
        },
    }
}

/// What is to be done next, given what was found out so far.
pub open spec fn meta_step(
    label: Seq<char>,
    seen: MetaObservations,
    verify_op: Seq<char>,
    missing_op: Seq<char>,
) -> MetaStepView {
    match seen.meta_exists {
        None => MetaStepView::ProbeMeta(label + ".meta"@),
        Some(false) => MetaStepView::Accept,
        Some(true) => match seen.key_available {
            None => MetaStepView::FetchKey,
            Some(false) => MetaStepView::Accept,
            Some(true) => match seen.load {
                None => MetaStepView::LoadMeta,
                Some(load) => after_load(load, seen.migration, verify_op, missing_op),
            },
        },
    }
}

/// Verifies the metadata of a key against its sidecar, one step at a time: takes
/// what was found out so far and says what to do next.
///
/// The store is not touched unless there is metadata to verify: asking for a key
/// that does not exist yet would make the store create one. Without metadata, or
/// without a key from the store, there is nothing to verify and the key may be
/// used; a missing sidecar is written from the metadata as it stands. The key is
/// refused only on confirmed tampering: the sidecar exists and does not match the
/// metadata.
///
/// `verify_op` and `missing_op` are the names that the texts of load errors
/// give to a failed comparison and to a missing sidecar.
pub fn verify_meta_integrity(
    label: &str,
    seen: &MetaObservations,
    verify_op: &str,
    missing_op: &str,
) -> (step: MetaStep)
    ensures
        is_step(step, meta_step(label@, *seen, verify_op@, missing_op@)),
{
    match seen.meta_exists {
        None => {
            return MetaStep::ProbeMeta(concat(label, ".meta"));
        },
        Some(exists) => {
            if !exists {
                return MetaStep::Done(Ok(()));
            }
        },
    }
    match seen.key_available {
        None => {
            return MetaStep::FetchKey;
        },
        Some(available) => {
            if !available {
                return MetaStep::Done(Ok(()));
            }
        },
    }
    match &seen.load {
        None => MetaStep::LoadMeta,
        Some(Ok(())) => MetaStep::Done(Ok(())),
        Some(Err(text)) => {
            if text_contains(text.as_str(), verify_op) {
                return MetaStep::Done(Err(StorageError::KeyInitFailed(text.as_str().to_owned())));
            }
            if text_contains(text.as_str(), missing_op) {
                return match &seen.migration {
                    None => MetaStep::MigrateMeta,
                    Some(_) => MetaStep::Done(Ok(())),
                };
            }
            MetaStep::Done(Ok(()))
        },
    }
}

/// What is to be done next to find the bridge executable.
#[derive(Debug, PartialEq, Eq)]
pub enum BridgeStep {
    /// Ask the standard discovery for the application.
    Discover,
    /// The standard discovery found it.
    UseDiscovered,
    /// Look whether this path exists.
    Probe(String),
    /// It stands under this path.
    Found(String),
    /// It is nowhere.
    NotFound,
}

/// The contents of a [`BridgeStep`].
pub enum BridgeStepView {
    Discover,
    UseDiscovered,
    Probe(Seq<char>),
    Found(Seq<char>),
    NotFound,
}

impl View for BridgeStep {
    type V = BridgeStepView;

    open spec fn view(&self) -> BridgeStepView {
        match self {
            BridgeStep::Discover => BridgeStepView::Discover,
            BridgeStep::UseDiscovered => BridgeStepView::UseDiscovered,
            BridgeStep::Probe(path) => BridgeStepView::Probe(path@),
            BridgeStep::Found(path) => BridgeStepView::Found(path@),
            BridgeStep::NotFound => BridgeStepView::NotFound,
        }
    }
}

/// The path is absolute.
pub open spec fn is_absolute(path: Seq<char>) -> bool {
    path.len() > 0 && path[0] == '/'
}

/// The absolute ones of some paths, in order.
pub open spec fn absolute_paths(paths: Seq<Seq<char>>) -> Seq<Seq<char>>
    decreases paths.len(),
{
    if paths.len() == 0 {
        Seq::empty()
    } else if is_absolute(paths.last()) {
        absolute_paths(paths.drop_last()).push(paths.last())
    } else {
        absolute_paths(paths.drop_last())
    }
}

/// Where an application's bridge stands in a directory of its own under `root`.
pub open spec fn bridge_path(root: Seq<char>, app_name: Seq<char>) -> Seq<char> {
    root + app_name + "/"@ + app_name + "-tpm-bridge.exe"@
}

/// The paths to look at, in order: two that follow from the name of the
/// application, then those that the caller gave and that are absolute.
pub open spec fn bridge_candidates(app_name: Seq<char>, extra_paths: Seq<Seq<char>>) -> Seq<
    Seq<char>,
> {
    seq![
        bridge_path("/mnt/c/Program Files/"@, app_name),
        bridge_path("/mnt/c/ProgramData/"@, app_name),
    ] + absolute_paths(extra_paths)
}

/// What is to be done after it was looked whether the first candidates exist:
/// from candidate `i` on, the first that exists is it, and the first that was
/// not looked at is next.
pub open spec fn bridge_step_from(
    candidates: Seq<Seq<char>>,
    probed: Seq<bool>,
    i: int,
) -> BridgeStepView
    decreases candidates.len() - i,
{
    if i < 0 || i >= candidates.len() {
        BridgeStepView::NotFound
    } else if i >= probed.len() {
        BridgeStepView::Probe(candidates[i])
    } else if probed[i] {
        BridgeStepView::Found(candidates[i])
    } else {
        bridge_step_from(candidates, probed, i + 1)
    }
}

/// What is to be done next to find the bridge executable.
pub open spec fn bridge_step(
    app_name: Seq<char>,
    extra_paths: Seq<Seq<char>>,
    discovered: Option<bool>,
    probed: Seq<bool>,
) -> BridgeStepView {
    match discovered {
        None => BridgeStepView::Discover,
        Some(true) => BridgeStepView::UseDiscovered,
        Some(false) => bridge_step_from(bridge_candidates(app_name, extra_paths), probed, 0),
    }
}

fn bridge_path_exec(root: &str, app_name: &str) -> (path: String)
    ensures
        path@ == bridge_path(root@, app_name@),
{
    let directory: String = concat3(root, app_name, "/");
    concat3(directory.as_str(), app_name, "-tpm-bridge.exe")
}

fn is_absolute_exec(path: &str) -> (absolute: bool)
    ensures
        absolute == is_absolute(path@),
{
    let chars: Vec<char> = chars_of(path);
    chars.len() > 0 && chars[0] == '/'
}

fn bridge_candidates_exec(app_name: &str, extra_paths: &Vec<String>) -> (candidates: Vec<String>)
    ensures
        string_views(candidates@) == bridge_candidates(app_name@, string_views(extra_paths@)),
{
    let ghost extra = string_views(extra_paths@);
    let ghost derived = seq![
        bridge_path("/mnt/c/Program Files/"@, app_name@),
        bridge_path("/mnt/c/ProgramData/"@, app_name@),
    ];
    let mut candidates: Vec<String> = Vec::new();
    candidates.push(bridge_path_exec("/mnt/c/Program Files/", app_name));
    candidates.push(bridge_path_exec("/mnt/c/ProgramData/", app_name));
    assert(string_views(candidates@) =~= derived + absolute_paths(extra.take(0)));
    let mut i: usize = 0;
    while i < extra_paths.len()
        invariant
            i <= extra_paths@.len(),
            extra == string_views(extra_paths@),
            string_views(candidates@) == derived + absolute_paths(extra.take(i as int)),
        decreases extra_paths@.len() - i,
    {
        let ghost before = candidates@;
        assert(extra.take(i + 1).drop_last() =~= extra.take(i as int));
        assert(extra.take(i + 1).last() == extra[i as int]);
        if is_absolute_exec(extra_paths[i].as_str()) {
            candidates.push(extra_paths[i].as_str().to_owned());
            assert(string_views(candidates@) =~= string_views(before).push(extra[i as int]));
        }
        assert(string_views(candidates@) =~= derived + absolute_paths(extra.take(i + 1)));
        i += 1;
    }
    assert(extra.take(extra.len() as int) =~= extra);
    candidates
}

/// Searches for the bridge from WSL to the TPM of Windows, one step at a time:
/// takes what was found out so far and says what to do next.
///
/// The standard discovery comes first. Then come the paths that follow from the
/// name of the application, and last the absolute ones of the paths that the
/// caller gave. `probed` tells of the first candidates whether they exist.
pub fn find_bridge_executable(
    app_name: &str,
    extra_paths: &Vec<String>,
    discovered: Option<bool>,
    probed: &Vec<bool>,
) -> (step: BridgeStep)
    ensures
        step@ == bridge_step(app_name@, string_views(extra_paths@), discovered, probed@),
{
    match discovered {
        None => {
            return BridgeStep::Discover;
        },
        Some(found) => {
            if found {
                return BridgeStep::UseDiscovered;
            }
        },
    }
    let candidates: Vec<String> = bridge_candidates_exec(app_name, extra_paths);
    let ghost all = string_views(candidates@);
    let mut i: usize = 0;
    while i < candidates.len()
        invariant
            i <= candidates@.len(),
            all == string_views(candidates@),
            all == bridge_candidates(app_name@, string_views(extra_paths@)),
            discovered == Some(false),
            bridge_step_from(all, probed@, i as int) == bridge_step_from(all, probed@, 0),
        decreases candidates@.len() - i,
    {
        if i >= probed.len() {
            return BridgeStep::Probe(candidates[i].as_str().to_owned());
        }
        if probed[i] {
            return BridgeStep::Found(candidates[i].as_str().to_owned());
        }
        i += 1;
    }
    BridgeStep::NotFound
}

/// The store is asked only once the metadata file is known to exist, and only
/// for metadata that exists is anything loaded or written.
pub proof fn store_is_asked_for_existing_metadata_only(
    label: Seq<char>,
    seen: MetaObservations,
    verify_op: Seq<char>,
    missing_op: Seq<char>,
)
    ensures
        ({
            let step = meta_step(label, seen, verify_op, missing_op);
            step is FetchKey || step is LoadMeta || step is MigrateMeta ==> seen.meta_exists == Some(
                true,
            )
        }),
{
}

/// A sidecar is never written for metadata that was found tampered with.
pub proof fn tampered_metadata_is_refused(
    label: Seq<char>,
    seen: MetaObservations,
    text: String,
    verify_op: Seq<char>,
    missing_op: Seq<char>,
)
    requires
        seen.meta_exists == Some(true),
        seen.key_available == Some(true),
        seen.load == Some(Err::<(), String>(text)),
        contains(text@, verify_op),
    ensures
        meta_step(label, seen, verify_op, missing_op) == MetaStepView::Refuse(text@),
{
}

/// A key is refused only where its metadata exists, the store gave the key for
/// it, and holding the metadata against its sidecar failed.
pub proof fn refused_only_if_tampered(
    label: Seq<char>,
    seen: MetaObservations,
    verify_op: Seq<char>,
    missing_op: Seq<char>,
)
    requires
        meta_step(label, seen, verify_op, missing_op) is Refuse,
    ensures
        seen.meta_exists == Some(true),
        seen.key_available == Some(true),
        seen.load matches Some(Err(text)) && contains(text@, verify_op),
{
}

/// Once everything asked for was found out, the verification is over.
pub proof fn verification_ends(
    label: Seq<char>,
    seen: MetaObservations,
    verify_op: Seq<char>,
    missing_op: Seq<char>,
)
    requires
        seen.meta_exists is Some,
        seen.key_available is Some,
        seen.load is Some,
        seen.migration is Some,
    ensures
        ({
            let step = meta_step(label, seen, verify_op, missing_op);
            step is Accept || step is Refuse
        }),
{
}

proof fn lemma_absolute_paths(paths: Seq<Seq<char>>)
    ensures
        forall|i: int|
            0 <= i < absolute_paths(paths).len() ==> is_absolute(#[trigger] absolute_paths(paths)[i]),
    decreases paths.len(),
{
    if paths.len() > 0 {
        let front = absolute_paths(paths.drop_last());
        lemma_absolute_paths(paths.drop_last());
        assert forall|i: int| 0 <= i < absolute_paths(paths).len() implies is_absolute(
            #[trigger] absolute_paths(paths)[i],
        ) by {
            if i < front.len() {
                assert(absolute_paths(paths)[i] == front[i]);
            }
        }
    }
}

/// Only absolute paths are looked at.
pub proof fn candidates_are_absolute(app_name: Seq<char>, extra_paths: Seq<Seq<char>>, i: int)
    requires
        0 <= i < bridge_candidates(app_name, extra_paths).len(),
    ensures
        is_absolute(bridge_candidates(app_name, extra_paths)[i]),
{
    reveal_strlit("/mnt/c/Program Files/");
    reveal_strlit("/mnt/c/ProgramData/");
    lemma_absolute_paths(extra_paths);
}

proof fn lemma_skips_missing(candidates: Seq<Seq<char>>, probed: Seq<bool>, k: int)
    requires
        0 <= k <= candidates.len(),
        k <= probed.len(),
        forall|j: int| 0 <= j < k ==> !#[trigger] probed[j],
    ensures
        bridge_step_from(candidates, probed, 0) == bridge_step_from(candidates, probed, k),
    decreases k,
{
    if k > 0 {
        lemma_skips_missing(candidates, probed, k - 1);
    }
}

/// The first candidate that exists is taken: none before it does.
pub proof fn first_existing_candidate_is_found(candidates: Seq<Seq<char>>, probed: Seq<bool>, k: int)
    requires
        0 <= k < candidates.len(),
        k < probed.len(),
        probed[k],
        forall|j: int| 0 <= j < k ==> !#[trigger] probed[j],
    ensures
        bridge_step_from(candidates, probed, 0) == BridgeStepView::Found(candidates[k]),
{
    lemma_skips_missing(candidates, probed, k);
}

/// The search gives up only after every candidate was looked at in vain, and
/// looks at each before that.
pub proof fn every_candidate_is_looked_at(candidates: Seq<Seq<char>>, probed: Seq<bool>)
    requires
        probed.len() <= candidates.len(),
        forall|j: int| 0 <= j < probed.len() ==> !#[trigger] probed[j],
    ensures
        bridge_step_from(candidates, probed, 0) == if probed.len() == candidates.len() {
            BridgeStepView::NotFound
        } else {
            BridgeStepView::Probe(candidates[probed.len() as int])
        },
{
    lemma_skips_missing(candidates, probed, probed.len() as int);
}

/// What is asked for first, and when the verification is over before the metadata
/// is loaded: the file is the label with `.meta` behind it, without it there is
/// nothing to verify, nor without a key from the store.
pub proof fn steps_before_loading(
    label: Seq<char>,
    seen: MetaObservations,
    verify_op: Seq<char>,
    missing_op: Seq<char>,
    step: MetaStep,
)
    requires
        is_step(step, meta_step(label, seen, verify_op, missing_op)),
    ensures
        seen.meta_exists is None <==> step is ProbeMeta,
        step matches MetaStep::ProbeMeta(file) ==> file@ == label + ".meta"@,
        seen.meta_exists == Some(false) ==> (step matches MetaStep::Done(Ok(()))),
        seen.meta_exists == Some(true) && seen.key_available is None <==> step is FetchKey,
        seen.meta_exists == Some(true) && seen.key_available == Some(false)
            ==> (step matches MetaStep::Done(Ok(()))),
        seen.meta_exists == Some(true) && seen.key_available == Some(true) && seen.load is None
            <==> step is LoadMeta,
{
}

/// What follows from a load that ended, for metadata that exists and a key that
/// is there. The name of the failed comparison anywhere in the text of the error
/// refuses the key with that text. Otherwise the name of the missing sidecar
/// anywhere in it has the sidecar written, once. The key is accepted only where
/// the load went well, neither name is in the text, or writing was tried.
pub proof fn steps_after_loading(
    label: Seq<char>,
    seen: MetaObservations,
    verify_op: Seq<char>,
    missing_op: Seq<char>,
    step: MetaStep,
)
    requires
        seen.meta_exists == Some(true),
        seen.key_available == Some(true),
        seen.load is Some,
        is_step(step, meta_step(label, seen, verify_op, missing_op)),
    ensures
        seen.load->0 is Ok ==> (step matches MetaStep::Done(Ok(()))),
        seen.load->0 matches Err(text) ==> {
            let tampered = exists|before: Seq<char>, after: Seq<char>|
                text@ == #[trigger] (before + verify_op + after);
            let missing = exists|before: Seq<char>, after: Seq<char>|
                text@ == #[trigger] (before + missing_op + after);
            &&& tampered ==> (step matches MetaStep::Done(Err(StorageError::KeyInitFailed(why)))
                && why@ == text@)
            &&& !tampered && missing && seen.migration is None ==> step is MigrateMeta
            &&& !tampered && missing && seen.migration is Some ==> (step matches MetaStep::Done(Ok(())))
            &&& !tampered && !missing ==> (step matches MetaStep::Done(Ok(())))
        },
{
    if let Err(text) = seen.load->0 {
        contains_iff_it_splits(text@, verify_op);
        contains_iff_it_splits(text@, missing_op);
    }
}

proof fn lemma_absolute_paths_are_filtered(paths: Seq<Seq<char>>)
    ensures
        absolute_paths(paths) == paths.filter(|p: Seq<char>| p.len() > 0 && p[0] == '/'),
    decreases paths.len(),
{
    reveal(Seq::filter);
    if paths.len() > 0 {
        lemma_absolute_paths_are_filtered(paths.drop_last());
    }
}

/// The candidates are the two paths that follow from the name of the application
/// and behind them every path of the caller that begins with a slash, in the
/// order given, and no other.
pub proof fn candidates_are_derived_and_absolute_paths(
    app_name: Seq<char>,
    extra_paths: Seq<Seq<char>>,
)
    ensures
        bridge_candidates(app_name, extra_paths) == seq![
            "/mnt/c/Program Files/"@ + app_name + "/"@ + app_name + "-tpm-bridge.exe"@,
            "/mnt/c/ProgramData/"@ + app_name + "/"@ + app_name + "-tpm-bridge.exe"@,
        ] + extra_paths.filter(|p: Seq<char>| p.len() > 0 && p[0] == '/'),
{
    lemma_absolute_paths_are_filtered(extra_paths);
}

/// Every path of the caller that begins with a slash is a candidate, behind the
/// two that follow from the name; a path given later is a later candidate.
pub proof fn every_absolute_path_is_a_candidate(
    app_name: Seq<char>,
    extra_paths: Seq<Seq<char>>,
    i: int,
    path: Seq<char>,
)
    requires
        0 <= i < extra_paths.len(),
        extra_paths[i].len() > 0,
        extra_paths[i][0] == '/',
    ensures
        exists|k: int|
            2 <= k < bridge_candidates(app_name, extra_paths).len() && #[trigger] bridge_candidates(
                app_name,
                extra_paths,
            )[k] == extra_paths[i],
        path.len() > 0 && path[0] == '/' ==> bridge_candidates(app_name, extra_paths.push(path))
            == bridge_candidates(app_name, extra_paths).push(path),
        path.len() == 0 || path[0] != '/' ==> bridge_candidates(app_name, extra_paths.push(path))
            == bridge_candidates(app_name, extra_paths),
{
    let k = lemma_absolute_path_is_kept(extra_paths, i);
    let candidates = bridge_candidates(app_name, extra_paths);
    assert(candidates[k + 2] == extra_paths[i]);
    assert(extra_paths.push(path).drop_last() =~= extra_paths);
    let longer = bridge_candidates(app_name, extra_paths.push(path));
    if path.len() > 0 && path[0] == '/' {
        assert(longer =~= candidates.push(path));
    }
}

proof fn lemma_absolute_path_is_kept(paths: Seq<Seq<char>>, i: int) -> (k: int)
    requires
        0 <= i < paths.len(),
        is_absolute(paths[i]),
    ensures
        0 <= k < absolute_paths(paths).len(),
        absolute_paths(paths)[k] == paths[i],
    decreases paths.len(),
{
    if i == paths.len() - 1 {
        absolute_paths(paths).len() - 1
    } else {
        lemma_absolute_path_is_kept(paths.drop_last(), i)
    }
}

/// What the search does next, told by what was found out: the standard discovery
/// is asked first and taken where it found the bridge. Then the first candidate
/// known to exist is taken. With none known to, the next that was not looked at is
/// looked at, and only without any left is the bridge nowhere.
pub proof fn search_goes_through_the_candidates(
    app_name: Seq<char>,
    extra_paths: Seq<Seq<char>>,
    discovered: Option<bool>,
    probed: Seq<bool>,
    k: int,
    step: BridgeStep,
)
    requires
        step@ == bridge_step(app_name, extra_paths, discovered, probed),
        0 <= k <= probed.len(),
        k <= bridge_candidates(app_name, extra_paths).len(),
        forall|j: int| 0 <= j < k ==> !#[trigger] probed[j],
    ensures
        discovered is None <==> step is Discover,
        discovered == Some(true) <==> step is UseDiscovered,
        discovered == Some(false) ==> {
            let candidates = bridge_candidates(app_name, extra_paths);
            &&& k == candidates.len() ==> step is NotFound
            &&& k < candidates.len() && k == probed.len() ==> (step matches BridgeStep::Probe(path)
                && path@ == candidates[k])
            &&& k < candidates.len() && k < probed.len() && probed[k] ==> (step
                matches BridgeStep::Found(path) && path@ == candidates[k])
        },
{
    let candidates = bridge_candidates(app_name, extra_paths);
    lemma_skips_missing(candidates, probed, k);
    lemma_search_looks(candidates, probed, 0);
}

proof fn lemma_search_looks(candidates: Seq<Seq<char>>, probed: Seq<bool>, i: int)
    ensures
        ({
            let step = bridge_step_from(candidates, probed, i);
            step is NotFound || step is Probe || step is Found
        }),
    decreases candidates.len() - i,
{
    if 0 <= i < candidates.len() && i < probed.len() && !probed[i] {
        lemma_search_looks(candidates, probed, i + 1);
    }
}

/// The key comes from the Keychain, DPAPI or the Secret Service of the three
/// platforms that have one.
pub proof fn stores_of_the_platforms()
    ensures
        store_of(HostOs::MacOs) == Some(MetaStore::Keychain),
        store_of(HostOs::Windows) == Some(MetaStore::Dpapi),
        store_of(HostOs::Linux) == Some(MetaStore::SecretService),
        store_of(HostOs::Other) is None,
{
}

/// The names under which backends are shown.
pub proof fn names_of_the_backends()
    ensures
        backend_name(BackendKind::SecureEnclave) == "Secure Enclave"@,
        backend_name(BackendKind::Tpm) == "TPM 2.0"@,
        backend_name(BackendKind::TpmBridge) == "TPM 2.0 (WSL Bridge)"@,
        backend_name(BackendKind::Keyring) == "Keyring"@,
{
}

/// What the caller is told to do about metadata whose load ended with an error:
/// refuse the key with that text where it names the failed comparison, write the
/// sidecar where it only names a missing one and writing was not tried, and
/// otherwise accept the key.
pub proof fn verify_meta_integrity_tells(
    label: &str,
    seen: &MetaObservations,
    verify_op: &str,
    missing_op: &str,
    step: MetaStep,
)
    requires
        call_ensures(verify_meta_integrity, (label, seen, verify_op, missing_op), step),
    ensures
        step matches MetaStep::ProbeMeta(file) ==> file@ == label@ + ".meta"@,
        step is ProbeMeta <==> seen.meta_exists is None,
        step is FetchKey <==> seen.meta_exists == Some(true) && seen.key_available is None,
        step is LoadMeta <==> seen.meta_exists == Some(true) && seen.key_available == Some(true)
            && seen.load is None,
        step is MigrateMeta <==> seen.meta_exists == Some(true) && seen.key_available == Some(true) && (
        seen.load matches Some(Err(text)) && contains(text@, missing_op@) && !contains(
            text@,
            verify_op@,
        )) && seen.migration is None,
        step matches MetaStep::Done(Err(_)) <==> seen.meta_exists == Some(true) && seen.key_available
            == Some(true) && (seen.load matches Some(Err(text)) && contains(text@, verify_op@)),
        step matches MetaStep::Done(Err(StorageError::KeyInitFailed(why))) ==> (seen.load
            matches Some(Err(text)) && why@ == text@),
{
}

/// What the caller is told to do in the search for the bridge, once the standard
/// discovery found nothing and the first `k` candidates do not exist.
pub proof fn find_bridge_executable_tells(
    app_name: &str,
    extra_paths: &Vec<String>,
    discovered: Option<bool>,
    probed: &Vec<bool>,
    k: int,
    step: BridgeStep,
)
    requires
        call_ensures(find_bridge_executable, (app_name, extra_paths, discovered, probed), step),
        0 <= k <= probed@.len(),
        k <= bridge_candidates(app_name@, string_views(extra_paths@)).len(),
        forall|j: int| 0 <= j < k ==> !#[trigger] probed@[j],
    ensures
        discovered is None <==> step is Discover,
        discovered == Some(true) <==> step is UseDiscovered,
        discovered == Some(false) ==> {
            let candidates = bridge_candidates(app_name@, string_views(extra_paths@));
            &&& k == candidates.len() ==> step is NotFound
            &&& k < candidates.len() && k == probed@.len() ==> (step matches BridgeStep::Probe(path)
                && path@ == candidates[k])
            &&& k < candidates.len() && k < probed@.len() && probed@[k] ==> (step
                matches BridgeStep::Found(path) && path@ == candidates[k])
        },
{
    search_goes_through_the_candidates(
        app_name@,
        string_views(extra_paths@),
        discovered,
        probed@,
        k,
        step,
    );
}

/// The reply of a store is handed on as it is, where the platform has one; a key
/// is removed from the store that holds it, except on Linux.
pub proof fn stores_are_asked_as_they_are(
    host: HostOs,
    reply: Result<Option<ZeroizingBytes>, String>,
    key: Result<Option<ZeroizingBytes>, String>,
    asked: Option<MetaStore>,
    emptied: Option<MetaStore>,
)
    requires
        call_ensures(meta_hmac_key, (host, reply), key),
        call_ensures(meta_store, (host,), asked),
        call_ensures(delete_meta_hmac_key, (host,), emptied),
    ensures
        host != HostOs::Other ==> key == reply,
        host == HostOs::Other ==> (key matches Ok(k) && k is None),
        asked is None <==> host == HostOs::Other,
        host == HostOs::MacOs || host == HostOs::Windows ==> emptied == asked,
        host == HostOs::Linux || host == HostOs::Other ==> emptied is None,
{
}

} // verus!
