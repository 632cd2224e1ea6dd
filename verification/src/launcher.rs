//! Launch preparation: which program is spawned for an instance and with
//! which arguments. The spawn itself is process I/O and lives in the shell
//! around this library, which reports `SpawnError` when the operating system
//! refuses to create the process.

use vstd::prelude::*;

use crate::state::Instance;

verus! {

/// The models of a list of command-line arguments.
pub open spec fn arg_models(l: Seq<Vec<u8>>) -> Seq<Seq<u8>> {
    l.map_values(|v: Vec<u8>| v@)
}

/// What the I/O shell must spawn for one instance: the program and its
/// argument list.
#[derive(Debug, Clone, PartialEq, Eq)]
pub struct LaunchCommand {
    pub program: Vec<u8>,
    pub args: Vec<Vec<u8>>,
}

/// The arguments forwarded to a launched instance: the launcher's own
/// invocation arguments without the leading program name, verbatim and in
/// order.
pub fn forwarded_args(argv: Vec<Vec<u8>>) -> (r: Vec<Vec<u8>>)
    ensures
        argv@.len() == 0 ==> arg_models(r@) == Seq::<Seq<u8>>::empty(),
        argv@.len() > 0 ==> arg_models(r@) == arg_models(argv@).skip(1),
{
    let ghost orig = argv@;
    let mut rest = argv;
    if rest.len() > 0 {
        rest.remove(0);
        proof {
            assert(rest@ =~= orig.skip(1));
            assert(arg_models(rest@) =~= arg_models(orig).skip(1));
        }
    } else {
        proof {
            assert(arg_models(rest@) =~= Seq::<Seq<u8>>::empty());
        }
    }
    rest
}

/// Prepares the launch of one instance: its path becomes the spawned
/// program, and the launcher's own arguments, minus the program name, are
/// forwarded unchanged.
pub fn launch_instance(instance: Instance, argv: Vec<Vec<u8>>) -> (c: LaunchCommand)
    ensures
        c.program@ == instance.path@,
        argv@.len() == 0 ==> arg_models(c.args@) == Seq::<Seq<u8>>::empty(),
        argv@.len() > 0 ==> arg_models(c.args@) == arg_models(argv@).skip(1),
{
    let args = forwarded_args(argv);
    LaunchCommand { program: instance.path, args }
}

} // verus!
