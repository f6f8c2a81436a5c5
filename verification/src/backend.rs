//! Backend selection. A configuration names either the CardDAV backend
//! this engine drives or the filesystem-backed vdir backend; a build may
//! carry only one of them, and asking for the missing one is an explicit
//! error, never a silent fallback.

use vstd::prelude::*;

use crate::flow::ProtocolError;

verus! {

/// The backends a configuration can name.
#[derive(Clone, Copy, Debug, PartialEq, Eq, Structural)]
pub enum BackendKind {
    CardDav,
    Vdir,
}

impl BackendKind {
    /// The backend's display label.
    pub fn label(&self) -> (r: &'static str)
        ensures
            self is CardDav ==> r@ == "CardDAV"@,
            self is Vdir ==> r@ == "Vdir"@,
    {
        match self {
            BackendKind::CardDav => "CardDAV",
            BackendKind::Vdir => "Vdir",
        }
    }
}

/// Pick the backend for an account: CardDAV configuration wins over
/// vdir, and an account that configures neither is refused.
pub fn select_backend(has_carddav: bool, has_vdir: bool) -> (r: Result<
    BackendKind,
    ProtocolError,
>)
    ensures
        has_carddav ==> r == Ok::<BackendKind, ProtocolError>(BackendKind::CardDav),
        !has_carddav && has_vdir ==> r == Ok::<BackendKind, ProtocolError>(BackendKind::Vdir),
        !has_carddav && !has_vdir ==> r == Err::<BackendKind, ProtocolError>(
            ProtocolError::UnsupportedBackend,
        ),
{
    if has_carddav {
        Ok(BackendKind::CardDav)
    } else if has_vdir {
        Ok(BackendKind::Vdir)
    } else {
        Err(ProtocolError::UnsupportedBackend)
    }
}

/// Stands in for the CardDAV backend in a build compiled without it.
#[derive(Clone, Copy, Debug, PartialEq, Eq, Structural)]
pub struct MissingCarddavFeature;

impl MissingCarddavFeature {
    pub fn message(&self) -> (r: &'static str)
        ensures
            r@ == "missing `carddav` cargo feature"@,
    {
        "missing `carddav` cargo feature"
    }
}

/// Stands in for the vdir backend in a build compiled without it.
#[derive(Clone, Copy, Debug, PartialEq, Eq, Structural)]
pub struct MissingVdirFeature;

impl MissingVdirFeature {
    pub fn message(&self) -> (r: &'static str)
        ensures
            r@ == "missing `vdir` cargo feature"@,
    {
        "missing `vdir` cargo feature"
    }
}

/// Where a vdir backend keeps its collections.
pub struct VdirConfig {
    pub home_dir: String,
}

/// The filesystem-backed client: the engine holds only its target
/// directory; reading and writing that directory belongs to the driver.
pub struct VdirClient {
    pub config: VdirConfig,
}

impl VdirClient {
    pub fn new(config: VdirConfig) -> (r: Self)
        ensures
            r.config.home_dir@ == config.home_dir@,
    {
        VdirClient { config }
    }
}

} // verus!
