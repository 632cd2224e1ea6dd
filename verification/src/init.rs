//! First-run decisions: where the configuration document lives and what a
//! fresh one holds. The environment lookup, the storing of the chosen
//! location and the file-existence check are I/O and live in the shell
//! around this library; this module only decides.

use vstd::prelude::*;

use crate::codec::save_config;
use crate::codec::ser_config;
use crate::state::ConfigModel;
use crate::state::Instance;
use crate::state::InstanceModel;
use crate::state::Settings;
use crate::state::default_model;
use crate::state::instance_models;
use crate::registry::SLASH;

verus! {

/// The file name of the configuration document under the home directory:
/// `blender_launcher_config.yaml`.
pub open spec fn config_file_name() -> Seq<u8> {
    seq![98, 108, 101, 110, 100, 101, 114, 95, 108, 97, 117, 110, 99, 104, 101, 114, 95, 99, 111,
        110, 102, 105, 103, 46, 121, 97, 109, 108]
}

/// The resolved location of the configuration document, and whether that
/// choice still has to be remembered for later runs.
#[derive(Debug, Clone, PartialEq, Eq)]
pub struct ConfigLocation {
    pub config_path: Vec<u8>,
    pub must_store: bool,
}

/// Resolves where the configuration document lives. A location that is
/// already known (from the environment) is kept exactly as it is; with none,
/// the document lives under the user's home directory, and that fresh choice
/// must be stored for later runs.
pub fn resolve_config_path(known: Option<Vec<u8>>, home: &Vec<u8>) -> (r: ConfigLocation)
    ensures
        known matches Some(v) ==> r.config_path@ == v@ && !r.must_store,
        known is None ==> r.config_path@ == home@ + seq![SLASH] + config_file_name()
            && r.must_store,
{
    match known {
        Some(v) => ConfigLocation { config_path: v, must_store: false },
        None => {
            let mut p: Vec<u8> = Vec::new();
            let n = home.len();
            let mut i: usize = 0;
            while i < n
                invariant
                    n == home@.len(),
                    i <= n,
                    p@ == home@.take(i as int),
                decreases n - i,
            {
                p.push(home[i]);
                proof {
                    assert(home@.take(i as int + 1) =~= home@.take(i as int) + seq![
                        home@[i as int],
                    ]);
                }
                i = i + 1;
            }
            proof {
                assert(p@ =~= home@);
            }
            p.push(SLASH);
            p.push(98);
            p.push(108);
            p.push(101);
            p.push(110);
            p.push(100);
            p.push(101);
            p.push(114);
            p.push(95);
            p.push(108);
            p.push(97);
            p.push(117);
            p.push(110);
            p.push(99);
            p.push(104);
            p.push(101);
            p.push(114);
            p.push(95);
            p.push(99);
            p.push(111);
            p.push(110);
            p.push(102);
            p.push(105);
            p.push(103);
            p.push(46);
            p.push(121);
            p.push(97);
            p.push(109);
            p.push(108);
            proof {
                assert(p@ =~= home@ + seq![SLASH] + config_file_name());
            }
            ConfigLocation { config_path: p, must_store: true }
        },
    }
}

/// The configuration document of the default state, written on first run
/// when no document exists at the resolved location yet.
pub fn default_document() -> (out: Vec<u8>)
    ensures
        out@ == ser_config(default_model()),
{
    let settings = Settings { launch_on_system_startup: false };
    let instances: Vec<Instance> = Vec::new();
    let out = save_config(&settings, &instances);
    proof {
        assert(instance_models(instances@) =~= Seq::<InstanceModel>::empty());
        assert(ConfigModel {
            launch_on_system_startup: settings.launch_on_system_startup,
            instances: instance_models(instances@),
        } =~= default_model());
    }
    out
}

} // verus!
