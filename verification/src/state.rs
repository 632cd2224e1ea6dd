//! The data the launcher keeps in memory, and its mathematical model.

use vstd::prelude::*;

verus! {

/// One installed copy of the launched external application: a user-visible
/// label and the filesystem path of its executable, both as bytes.
/// Duplicates are allowed; no uniqueness holds over either field.
#[derive(Debug, Clone, PartialEq, Eq)]
pub struct Instance {
    pub name: Vec<u8>,
    pub path: Vec<u8>,
}

/// The persisted settings: a small flat record.
#[derive(Debug, Clone, Copy, PartialEq, Eq, Structural)]
pub struct Settings {
    pub launch_on_system_startup: bool,
}

/// Which screen the presentation layer is showing.
#[derive(Debug, Clone, Copy, PartialEq, Eq, Structural)]
pub enum AppView {
    Instances,
    Settings,
}

/// Mathematical model of one instance record.
#[verifier::ext_equal]
pub struct InstanceModel {
    pub name: Seq<u8>,
    pub path: Seq<u8>,
}

/// Mathematical model of the persisted state: the settings together with the
/// ordered instance list (order is insertion/load order).
#[verifier::ext_equal]
pub struct ConfigModel {
    pub launch_on_system_startup: bool,
    pub instances: Seq<InstanceModel>,
}

impl View for Instance {
    type V = InstanceModel;

    open spec fn view(&self) -> InstanceModel {
        InstanceModel { name: self.name@, path: self.path@ }
    }
}

/// The models of a sequence of instance records, in order.
pub open spec fn instance_models(l: Seq<Instance>) -> Seq<InstanceModel> {
    l.map_values(|i: Instance| i@)
}

/// The persisted state with no instances and default settings.
pub open spec fn default_model() -> ConfigModel {
    ConfigModel { launch_on_system_startup: false, instances: Seq::empty() }
}

/// The settings and the instance list as one value, as the persistence
/// boundary reads and writes them.
#[derive(Debug, Clone, PartialEq, Eq)]
pub struct ConfigData {
    pub settings: Settings,
    pub instances: Vec<Instance>,
}

impl View for ConfigData {
    type V = ConfigModel;

    open spec fn view(&self) -> ConfigModel {
        ConfigModel {
            launch_on_system_startup: self.settings.launch_on_system_startup,
            instances: instance_models(self.instances@),
        }
    }
}

/// The whole in-memory application state: the persisted part plus the
/// current-view discriminant, which is never written to disk.
#[derive(Debug)]
pub struct Application {
    pub settings: Settings,
    pub instances: Vec<Instance>,
    pub current_view: AppView,
}

impl Application {
    /// The part of the state that the configuration document mirrors.
    pub open spec fn persisted_model(&self) -> ConfigModel {
        ConfigModel {
            launch_on_system_startup: self.settings.launch_on_system_startup,
            instances: instance_models(self.instances@),
        }
    }
}

} // verus!
