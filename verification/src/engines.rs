//! Engines as the server knows them: who they are and what a probe of them found.
use vstd::prelude::*;
use vstd::string::*;

use crate::duplicate::{duplicate_option, optional, Duplicate};

verus! {

#[derive(Debug)]
pub struct EngineIdentity {
    pub id: String,
    pub display_name: String,
}

#[verifier::ext_equal]
pub struct IdentityView {
    pub id: Seq<char>,
    pub display_name: Seq<char>,
}

impl View for EngineIdentity {
    type V = IdentityView;

    open spec fn view(&self) -> IdentityView {
        IdentityView { id: self.id@, display_name: self.display_name@ }
    }
}

impl Duplicate for EngineIdentity {
    fn duplicate(&self) -> (result: EngineIdentity) {
        EngineIdentity { id: self.id.clone(), display_name: self.display_name.clone() }
    }
}

/// An engine binary that is configured from outside.
#[derive(Debug)]
pub struct EngineInstallation {
    pub binary_path: String,
    pub version: Option<String>,
    pub revision: Option<String>,
}

#[verifier::ext_equal]
pub struct InstallationView {
    pub binary_path: Seq<char>,
    pub version: Option<Seq<char>>,
    pub revision: Option<Seq<char>>,
}

impl View for EngineInstallation {
    type V = InstallationView;

    open spec fn view(&self) -> InstallationView {
        InstallationView {
            binary_path: self.binary_path@,
            version: optional(self.version),
            revision: optional(self.revision),
        }
    }
}

impl Duplicate for EngineInstallation {
    fn duplicate(&self) -> (result: EngineInstallation) {
        EngineInstallation {
            binary_path: self.binary_path.clone(),
            version: duplicate_option(&self.version),
            revision: duplicate_option(&self.revision),
        }
    }
}

#[derive(Debug)]
pub enum InstallationState {
    NotInstalled,
    Installed { installation: EngineInstallation },
    Invalid { reason: String },
}

#[verifier::ext_equal]
pub enum InstallationStateView {
    NotInstalled,
    Installed { installation: InstallationView },
    Invalid { reason: Seq<char> },
}

impl View for InstallationState {
    type V = InstallationStateView;

    open spec fn view(&self) -> InstallationStateView {
        match self {
            InstallationState::NotInstalled => InstallationStateView::NotInstalled,
            InstallationState::Installed { installation } => InstallationStateView::Installed {
                installation: installation@,
            },
            InstallationState::Invalid { reason } => InstallationStateView::Invalid {
                reason: reason@,
            },
        }
    }
}

impl Duplicate for InstallationState {
    fn duplicate(&self) -> (result: InstallationState) {
        match self {
            InstallationState::NotInstalled => InstallationState::NotInstalled,
            InstallationState::Installed { installation } => InstallationState::Installed {
                installation: installation.duplicate(),
            },
            InstallationState::Invalid { reason } => InstallationState::Invalid {
                reason: reason.clone(),
            },
        }
    }
}

/// What looking for an engine found.
#[derive(Debug)]
pub struct EngineProbe {
    pub installation: InstallationState,
    pub healthy: bool,
    pub detail: String,
}

#[verifier::ext_equal]
pub struct ProbeView {
    pub installation: InstallationStateView,
    pub healthy: bool,
    pub detail: Seq<char>,
}

impl View for EngineProbe {
    type V = ProbeView;

    open spec fn view(&self) -> ProbeView {
        ProbeView {
            installation: self.installation@,
            healthy: self.healthy,
            detail: self.detail@,
        }
    }
}

impl Duplicate for EngineProbe {
    fn duplicate(&self) -> (result: EngineProbe) {
        EngineProbe {
            installation: self.installation.duplicate(),
            healthy: self.healthy,
            detail: self.detail.clone(),
        }
    }
}

/// The outcome of a probe: one that failed counts as an invalid, unhealthy installation.
pub open spec fn probe_outcome(probe: Result<ProbeView, Seq<char>>) -> ProbeView {
    match probe {
        Ok(probe) => probe,
        Err(error) => ProbeView {
            installation: InstallationStateView::Invalid { reason: error },
            healthy: false,
            detail: error,
        },
    }
}

pub fn accept_probe(probe: Result<EngineProbe, String>) -> (result: EngineProbe)
    ensures
        result@ == probe_outcome(
            match probe {
                Ok(probe) => Ok(probe@),
                Err(error) => Err(error@),
            },
        ),
{
    match probe {
        Ok(probe) => probe,
        Err(error) => EngineProbe {
            installation: InstallationState::Invalid { reason: error.clone() },
            healthy: false,
            detail: error,
        },
    }
}

#[derive(Debug)]
pub struct EngineStatus {
    pub identity: EngineIdentity,
    pub probe: EngineProbe,
}

#[verifier::ext_equal]
pub struct EngineStatusView {
    pub identity: IdentityView,
    pub probe: ProbeView,
}

impl View for EngineStatus {
    type V = EngineStatusView;

    open spec fn view(&self) -> EngineStatusView {
        EngineStatusView { identity: self.identity@, probe: self.probe@ }
    }
}

impl Duplicate for EngineStatus {
    fn duplicate(&self) -> (result: EngineStatus) {
        EngineStatus { identity: self.identity.duplicate(), probe: self.probe.duplicate() }
    }
}

/// A probe that failed tells of an invalid installation that is not healthy, with the reason of it; one
/// that did not is told as it is.
pub proof fn law_failed_probes_are_not_healthy(probe: ProbeView, error: Seq<char>)
    ensures
        probe_outcome(Ok(probe)) == probe,
        !probe_outcome(Err(error)).healthy,
        probe_outcome(Err(error)).detail == error,
        probe_outcome(Err(error)).installation == (InstallationStateView::Invalid { reason: error }),
{
}

} // verus!
