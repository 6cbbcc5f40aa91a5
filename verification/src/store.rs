//! The configuration store: a model of the two on-disk locations a
//! profile's configuration can live in (the privileged path and the
//! unprivileged staging path), the read fallback chain over them, and the
//! write transition with its graceful-degradation outcomes.
//!
//! The filesystem itself is outside the library: the caller reads and
//! writes the files and feeds the observed results in; these functions
//! decide what the store's contents become and what outcome is reported.

use vstd::prelude::*;

verus! {

/// The contents of a profile's two storage locations; `None` stands for a
/// file that is absent or unreadable.
pub struct StoreState {
    /// Contents at the privileged configuration path.
    pub privileged: Option<String>,
    /// Contents at the unprivileged staging path.
    pub staging: Option<String>,
}

/// How the elevated copy into the privileged location ended.
pub enum ElevationResult {
    /// The elevation helper ran and the copy succeeded.
    Copied,
    /// The elevation helper ran but the copy exited with failure.
    CopyFailed,
    /// The elevation helper itself could not be invoked.
    NotInvocable,
}

/// The reason a write fell back to the staging copy.
pub enum WriteFallbackReason {
    /// The elevated copy ran and failed.
    PrivilegedCopyFailed,
    /// The elevation helper could not be invoked at all.
    ElevationUnavailable,
}

/// The reported outcome of a write, in the three deliberate classes: full
/// success, partial success (the staging copy survived), and hard failure
/// (not even the temporary file could be written).
pub enum WriteOutcome {
    /// The privileged path holds the normalized configuration.
    FullSuccess {
        /// The privileged path that was written.
        path: String,
    },
    /// Only the staging path holds the normalized configuration; the
    /// user's draft is not lost.
    PartialSuccess {
        /// The staging path that holds the durable copy.
        staged_path: String,
        /// Why the privileged write did not happen.
        reason: WriteFallbackReason,
    },
    /// The temporary file could not be written; nothing was committed to
    /// the privileged path.
    HardFailure {
        /// The underlying I/O error text.
        error: String,
    },
}

/// What a read returns: the privileged contents when present, else the
/// staging contents, else the empty string — a missing configuration is a
/// valid state, not an error.
pub open spec fn spec_store_read(
    privileged: Option<Seq<char>>,
    staging: Option<Seq<char>>,
) -> Seq<char> {
    match privileged {
        Some(c) => c,
        None => match staging {
            Some(c) => c,
            None => Seq::empty(),
        },
    }
}

/// Reads the configuration out of the store, as [`spec_store_read`]
/// describes.
pub fn store_read(state: StoreState) -> (r: String)
    ensures
        r@ == spec_store_read(state.privileged.deep_view(), state.staging.deep_view()),
{
    match state.privileged {
        Some(c) => c,
        None => match state.staging {
            Some(c) => c,
            None => String::new(),
        },
    }
}

/// The store contents after a write of `content`: the staging slot takes
/// the normalized text when the staging write succeeds, and the privileged
/// slot takes it exactly when the temporary file was written and the
/// elevated copy succeeded; a slot not written keeps its old contents.
pub open spec fn spec_store_write_state(
    privileged: Option<Seq<char>>,
    staging: Option<Seq<char>>,
    content: Seq<char>,
    staging_ok: bool,
    temp_ok: bool,
    copied: bool,
) -> (Option<Seq<char>>, Option<Seq<char>>) {
    let norm = crate::config::spec_deactivate_dns(content);
    (
        if temp_ok && copied {
            Some(norm)
        } else {
            privileged
        },
        if staging_ok {
            Some(norm)
        } else {
            staging
        },
    )
}

/// Decides the reported outcome of a write: a failed temporary write is
/// the one hard failure; a failed or unavailable elevation degrades to
/// partial success naming the staging path.
pub fn write_outcome(iface: &str, temp: Result<(), String>, elevation: ElevationResult) -> (r:
    WriteOutcome)
    ensures
        temp is Err ==> (r matches WriteOutcome::HardFailure { error } && error@ == temp->Err_0@),
        temp is Ok && elevation is Copied ==> (r matches WriteOutcome::FullSuccess { path }
            && path@ == crate::profile::spec_config_path(iface@)),
        temp is Ok && elevation is CopyFailed ==> (r matches WriteOutcome::PartialSuccess {
            staged_path,
            reason,
        } && staged_path@ == crate::profile::spec_staging_path(iface@)
            && reason is PrivilegedCopyFailed),
        temp is Ok && elevation is NotInvocable ==> (r matches WriteOutcome::PartialSuccess {
            staged_path,
            reason,
        } && staged_path@ == crate::profile::spec_staging_path(iface@)
            && reason is ElevationUnavailable),
{
    match temp {
        Err(e) => WriteOutcome::HardFailure { error: e },
        Ok(()) => match elevation {
            ElevationResult::Copied => WriteOutcome::FullSuccess {
                path: crate::profile::config_path(iface),
            },
            ElevationResult::CopyFailed => WriteOutcome::PartialSuccess {
                staged_path: crate::profile::staging_path(iface),
                reason: WriteFallbackReason::PrivilegedCopyFailed,
            },
            ElevationResult::NotInvocable => WriteOutcome::PartialSuccess {
                staged_path: crate::profile::staging_path(iface),
                reason: WriteFallbackReason::ElevationUnavailable,
            },
        },
    }
}

/// The write transition over the whole store: normalizes the content,
/// updates the two slots as [`spec_store_write_state`] describes, and
/// reports the outcome as [`write_outcome`] does.
pub fn store_write(
    state: StoreState,
    iface: &str,
    content: &str,
    staging_ok: bool,
    temp: Result<(), String>,
    elevation: ElevationResult,
) -> (r: (StoreState, WriteOutcome))
    ensures
        ({
            let (new_priv, new_staging) = spec_store_write_state(
                state.privileged.deep_view(),
                state.staging.deep_view(),
                content@,
                staging_ok,
                temp is Ok,
                elevation is Copied,
            );
            &&& r.0.privileged.deep_view() == new_priv
            &&& r.0.staging.deep_view() == new_staging
        }),
        temp is Err ==> (r.1 matches WriteOutcome::HardFailure { error } && error@ == temp->Err_0@),
        temp is Ok && elevation is Copied ==> (r.1 matches WriteOutcome::FullSuccess { path }
            && path@ == crate::profile::spec_config_path(iface@)),
        temp is Ok && elevation is CopyFailed ==> (r.1 matches WriteOutcome::PartialSuccess {
            staged_path,
            reason,
        } && staged_path@ == crate::profile::spec_staging_path(iface@)
            && reason is PrivilegedCopyFailed),
        temp is Ok && elevation is NotInvocable ==> (r.1 matches WriteOutcome::PartialSuccess {
            staged_path,
            reason,
        } && staged_path@ == crate::profile::spec_staging_path(iface@)
            && reason is ElevationUnavailable),
{
    let norm = crate::config::deactivate_dns(content);
    let temp_ok = temp.is_ok();
    let copied = match elevation {
        ElevationResult::Copied => true,
        _ => false,
    };
    let new_staging = if staging_ok {
        Some(norm.clone())
    } else {
        state.staging
    };
    let new_privileged = if temp_ok && copied {
        Some(norm)
    } else {
        state.privileged
    };
    let outcome = write_outcome(iface, temp, elevation);
    (StoreState { privileged: new_privileged, staging: new_staging }, outcome)
}

/// A write followed by a read of the same profile returns exactly the
/// normalized form of what was written, whenever both locations were
/// writable and the elevated copy went through.
pub proof fn lemma_write_then_read_roundtrip(
    privileged: Option<Seq<char>>,
    staging: Option<Seq<char>>,
    content: Seq<char>,
)
    ensures
        ({
            let (new_priv, new_staging) = spec_store_write_state(
                privileged,
                staging,
                content,
                true,
                true,
                true,
            );
            spec_store_read(new_priv, new_staging) == crate::config::spec_deactivate_dns(content)
        }),
{
}

/// A read with no file present in either location returns the empty
/// string; by its type it cannot fail.
pub proof fn lemma_read_missing_is_empty()
    ensures
        spec_store_read(None, None) == Seq::<char>::empty(),
{
}

} // verus!
