//! What is decided on the way to an enabled plugin interface, decision by decision.

use vstd::prelude::*;

use crate::nri_init::containerd::{DEFAULT_CONFIG_PATH, DEFAULT_SOCKET_PATH};
use crate::nri_init::detect::{Detection, DetectionView, EnvKind, EnvView};
use crate::nri_init::error::{NriError, NriErrorView};
use crate::nri_init::k3s::DEFAULT_TEMPLATE_DIR;
use crate::nri_init::opts::{Options, OptionsView};
use crate::nri_init::verify::RestartResult;
use crate::nri_init::version::{version_view, Version, VersionView};

verus! {

/// What came of it all.
#[derive(Debug, Clone)]
pub struct NriOutcome {
    pub env: EnvKind,
    pub containerd_version: Option<Version>,
    pub configured: bool,
    pub restarted: bool,
    pub restart_verified: bool,
    pub socket_available: bool,
}

/// An outcome as a value.
pub ghost struct OutcomeView {
    pub detection: DetectionView,
    pub configured: bool,
    pub restarted: bool,
    pub restart_verified: bool,
    pub socket_available: bool,
}

impl View for NriOutcome {
    type V = OutcomeView;

    open spec fn view(&self) -> OutcomeView {
        OutcomeView {
            detection: DetectionView {
                env: self.env@,
                containerd_version: version_view(self.containerd_version),
            },
            configured: self.configured,
            restarted: self.restarted,
            restart_verified: self.restart_verified,
            socket_available: self.socket_available,
        }
    }
}

/// An answer with an outcome as a value.
pub open spec fn outcome_answer(r: Result<NriOutcome, NriError>) -> Result<
    OutcomeView,
    NriErrorView,
> {
    match r {
        Ok(o) => Ok(o@),
        Err(e) => Err(e@),
    }
}

/// The path of the socket: the given one, or else the default.
pub open spec fn socket_of(o: OptionsView) -> Seq<char> {
    match o.socket_path {
        Some(p) => p,
        None => DEFAULT_SOCKET_PATH@,
    }
}

/// The path of the socket.
pub fn socket_path(opts: &Options) -> (r: &str)
    ensures
        r@ == socket_of(opts@),
{
    match &opts.socket_path {
        Some(p) => p.as_str(),
        None => DEFAULT_SOCKET_PATH,
    }
}

/// Whether a version of containerd has no plugin interface: one before 1.7.0.
pub open spec fn too_old(v: Option<VersionView>) -> bool {
    match v {
        Some(v) => v.before(1, 7, 0),
        None => false,
    }
}

/// Where containerd is too old, how it all ends: nothing is configured, or it is an error.
pub open spec fn gate(o: OptionsView, d: DetectionView, socket_available: bool) -> Option<
    Result<OutcomeView, NriErrorView>,
> {
    if !too_old(d.containerd_version) {
        None
    } else if o.fail_if_unavailable {
        Some(Err(NriErrorView::VersionUnsupported(d.containerd_version.unwrap().text())))
    } else {
        Some(
            Ok(
                OutcomeView {
                    detection: d,
                    configured: false,
                    restarted: false,
                    restart_verified: false,
                    socket_available,
                },
            ),
        )
    }
}

/// What follows from a detection: it all ends where containerd is too old, and else goes on with
/// what was detected.
pub fn version_gate(opts: &Options, detection: Detection, socket_available: bool) -> (r: Result<
    Detection,
    Result<NriOutcome, NriError>,
>)
    ensures
        match gate(opts@, detection@, socket_available) {
            None => r is Ok && r->Ok_0@ == detection@,
            Some(end) => r is Err && outcome_answer(r->Err_0) == end,
        },
{
    let old: Option<String> = match &detection.containerd_version {
        Some(v) => if v.is_before(1, 7, 0) {
            Some(v.to_text())
        } else {
            None
        },
        None => None,
    };
    let version = match old {
        Some(text) => text,
        None => {
            return Ok(detection);
        },
    };
    if opts.fail_if_unavailable {
        return Err(Err(NriError::VersionUnsupported(version)));
    }
    Err(
        Ok(
            NriOutcome {
                env: detection.env,
                containerd_version: detection.containerd_version,
                configured: false,
                restarted: false,
                restart_verified: false,
                socket_available,
            },
        ),
    )
}

/// What is to be configured.
#[derive(Debug)]
pub enum Configuration {
    Nothing,
    /// The templates in a directory.
    K3s { dir: String },
    /// A configuration, for a socket.
    Containerd { path: String, socket_path: String },
}

/// What is to be configured, as a value.
pub ghost enum ConfigurationView {
    Nothing,
    K3s { dir: Seq<char> },
    Containerd { path: Seq<char>, socket_path: Seq<char> },
}

impl View for Configuration {
    type V = ConfigurationView;

    open spec fn view(&self) -> ConfigurationView {
        match *self {
            Configuration::Nothing => ConfigurationView::Nothing,
            Configuration::K3s { dir } => ConfigurationView::K3s { dir: dir@ },
            Configuration::Containerd { path, socket_path } => ConfigurationView::Containerd {
                path: path@,
                socket_path: socket_path@,
            },
        }
    }
}

/// What is to be configured for a runtime.
pub open spec fn configuration_of(o: OptionsView, env: EnvView) -> ConfigurationView {
    if !o.configure {
        ConfigurationView::Nothing
    } else {
        match env {
            EnvView::K3s(_) => ConfigurationView::K3s {
                dir: match o.k3s_template_dir {
                    Some(d) => d,
                    None => DEFAULT_TEMPLATE_DIR@,
                },
            },
            EnvView::Containerd => ConfigurationView::Containerd {
                path: match o.containerd_config_path {
                    Some(p) => p,
                    None => DEFAULT_CONFIG_PATH@,
                },
                socket_path: socket_of(o),
            },
        }
    }
}

/// What is to be configured for a runtime.
pub fn plan_configuration(opts: &Options, env: &EnvKind) -> (r: Configuration)
    ensures
        r@ == configuration_of(opts@, env@),
{
    if !opts.configure {
        return Configuration::Nothing;
    }
    match env {
        EnvKind::K3s { .. } => {
            let dir = match &opts.k3s_template_dir {
                Some(d) => d.clone(),
                None => DEFAULT_TEMPLATE_DIR.to_string(),
            };
            Configuration::K3s { dir }
        },
        EnvKind::Containerd => {
            let path = match &opts.containerd_config_path {
                Some(p) => p.clone(),
                None => DEFAULT_CONFIG_PATH.to_string(),
            };
            Configuration::Containerd { path, socket_path: socket_path(opts).to_string() }
        },
    }
}

/// Whether the runtime is to be restarted: where that is asked for and the configuration was
/// changed.
pub fn wants_restart(opts: &Options, configured: bool) -> (r: bool)
    ensures
        r == (opts@.restart && configured),
{
    opts.restart && configured
}

/// Whether the services of K3s are to be restarted, and not that of containerd.
pub fn restarts_k3s(env: &EnvKind) -> (r: bool)
    ensures
        r == env@ is K3s,
{
    match env {
        EnvKind::K3s { .. } => true,
        EnvKind::Containerd => false,
    }
}

/// Whether the socket is waited for after a restart.
pub open spec fn waits(result: RestartResult) -> bool {
    result == RestartResult::Issued || result == RestartResult::Verified
}

/// Whether the socket is waited for after a restart.
pub fn waits_for_socket(result: RestartResult) -> (r: bool)
    ensures
        r == waits(result),
{
    match result {
        RestartResult::Issued => true,
        RestartResult::Verified => true,
        _ => false,
    }
}

/// Whether the runtime was restarted, and whether that is verified: by the service, or by the
/// socket that appeared.
pub open spec fn restart_flags(result: RestartResult, socket_appeared: bool) -> (bool, bool) {
    (
        waits(result),
        result == RestartResult::Verified || (result == RestartResult::Issued && socket_appeared),
    )
}

/// Whether the runtime was restarted, and whether that is verified.
pub fn after_restart(result: RestartResult, socket_appeared: bool) -> (r: (bool, bool))
    ensures
        r == restart_flags(result, socket_appeared),
{
    match result {
        RestartResult::NotRequested => (false, false),
        RestartResult::NotSupported => (false, false),
        RestartResult::Issued => (true, socket_appeared),
        RestartResult::Verified => (true, true),
    }
}

/// How it all ends: with an error where the socket is not there and has to be.
pub open spec fn conclusion(
    o: OptionsView,
    d: DetectionView,
    configured: bool,
    restart: (bool, bool),
    socket_available: bool,
) -> Result<OutcomeView, NriErrorView> {
    if o.fail_if_unavailable && !socket_available {
        Err(NriErrorView::VerificationFailed("NRI socket unavailable"@))
    } else {
        Ok(
            OutcomeView {
                detection: d,
                configured,
                restarted: restart.0,
                restart_verified: restart.1,
                socket_available,
            },
        )
    }
}

/// How it all ends.
pub fn conclude(
    opts: &Options,
    detection: Detection,
    configured: bool,
    restart: (bool, bool),
    socket_available: bool,
) -> (r: Result<NriOutcome, NriError>)
    ensures
        outcome_answer(r) == conclusion(
            opts@,
            detection@,
            configured,
            restart,
            socket_available,
        ),
{
    if opts.fail_if_unavailable && !socket_available {
        return Err(NriError::VerificationFailed("NRI socket unavailable".to_string()));
    }
    Ok(
        NriOutcome {
            env: detection.env,
            containerd_version: detection.containerd_version,
            configured,
            restarted: restart.0,
            restart_verified: restart.1,
            socket_available,
        },
    )
}

}
