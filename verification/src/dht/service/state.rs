//! The configuration state of the DHT service and how reconfiguration and
//! warnings change it.
use vstd::prelude::*;

verus! {

/// Something that happened to the service configuration.
#[derive(Debug)]
pub enum DhtServiceAction<C> {
    ReconfigureSucceeded { config: C, warning: Option<String> },
    ReconfigureFailed { warning: String },
    RuntimeWarning { warning: String },
}

/// What the service does in answer.
#[derive(Debug, Clone, Copy, PartialEq, Eq, Structural)]
pub enum DhtServiceEffect {
    ResetDemandPlanner,
    PublishStatus,
    StartDueDemands,
}

/// The effects of one action, in order.
#[derive(Debug, Default, PartialEq, Eq)]
pub struct DhtServiceReduction {
    pub effects: Vec<DhtServiceEffect>,
}

/// The running configuration, its generation and the last warning.
#[derive(Debug)]
pub struct DhtServiceModel<C> {
    config: C,
    generation: u64,
    warning: Option<String>,
}

/// The effects every reconfiguration, successful or not, calls for.
pub open spec fn reconfigure_effects() -> Seq<DhtServiceEffect> {
    seq![
        DhtServiceEffect::ResetDemandPlanner,
        DhtServiceEffect::PublishStatus,
        DhtServiceEffect::StartDueDemands,
    ]
}

impl<C> DhtServiceModel<C> {
    pub closed spec fn spec_config(&self) -> C {
        self.config
    }

    pub closed spec fn spec_generation(&self) -> u64 {
        self.generation
    }

    pub closed spec fn spec_warning(&self) -> Option<String> {
        self.warning
    }

    pub fn new(config: C, generation: u64, warning: Option<String>) -> (r: Self)
        ensures
            r.spec_config() == config,
            r.spec_generation() == generation,
            r.spec_warning() == warning,
    {
        DhtServiceModel { config, generation, warning }
    }

    pub fn config(&self) -> (r: &C)
        ensures
            *r == self.spec_config(),
    {
        &self.config
    }

    pub fn generation(&self) -> (r: u64)
        ensures
            r == self.spec_generation(),
    {
        self.generation
    }

    pub fn warning_owned(&self) -> (r: Option<String>)
        ensures
            r == self.spec_warning(),
    {
        match &self.warning {
            Some(w) => Some(w.clone()),
            None => None,
        }
    }

    /// A successful reconfiguration installs the new configuration, bumps the
    /// generation (saturating) and replaces the warning; a failed one only
    /// records its warning; both reset the planner, publish status and start
    /// due demands. A runtime warning is recorded and published.
    pub fn update(&mut self, action: DhtServiceAction<C>) -> (r: DhtServiceReduction)
        ensures
            match action {
                DhtServiceAction::ReconfigureSucceeded { config, warning } => {
                    &&& final(self).spec_config() == config
                    &&& final(self).spec_generation() == if old(self).spec_generation() == u64::MAX {
                        u64::MAX as int
                    } else {
                        old(self).spec_generation() + 1
                    }
                    &&& final(self).spec_warning() == warning
                    &&& r.effects@ == reconfigure_effects()
                },
                DhtServiceAction::ReconfigureFailed { warning } => {
                    &&& final(self).spec_config() == old(self).spec_config()
                    &&& final(self).spec_generation() == old(self).spec_generation()
                    &&& final(self).spec_warning() == Some(warning)
                    &&& r.effects@ == reconfigure_effects()
                },
                DhtServiceAction::RuntimeWarning { warning } => {
                    &&& final(self).spec_config() == old(self).spec_config()
                    &&& final(self).spec_generation() == old(self).spec_generation()
                    &&& final(self).spec_warning() == Some(warning)
                    &&& r.effects@ == seq![DhtServiceEffect::PublishStatus]
                },
            },
    {
        match action {
            DhtServiceAction::ReconfigureSucceeded { config, warning } => {
                self.config = config;
                self.generation = self.generation.saturating_add(1);
                self.warning = warning;
                DhtServiceReduction {
                    effects: vec![
                        DhtServiceEffect::ResetDemandPlanner,
                        DhtServiceEffect::PublishStatus,
                        DhtServiceEffect::StartDueDemands,
                    ],
                }
            },
            DhtServiceAction::ReconfigureFailed { warning } => {
                self.warning = Some(warning);
                DhtServiceReduction {
                    effects: vec![
                        DhtServiceEffect::ResetDemandPlanner,
                        DhtServiceEffect::PublishStatus,
                        DhtServiceEffect::StartDueDemands,
                    ],
                }
            },
            DhtServiceAction::RuntimeWarning { warning } => {
                self.warning = Some(warning);
                DhtServiceReduction { effects: vec![DhtServiceEffect::PublishStatus] }
            },
        }
    }
}

} // verus!
