//! The library's laws: what holds of saving, loading and mutating over all
//! states, proved from the contracts and spec functions of the other modules.

use vstd::prelude::*;

use crate::codec::parse_config;
use crate::codec::ser_config;
use crate::codec::lemma_parse_ser_config;
use crate::registry::filter_mask;
use crate::state::ConfigModel;
use crate::state::InstanceModel;

verus! {

/// Serialization is stable and lossless for the modeled fields: a saved
/// document loads back to exactly the state it was saved from, and saving
/// that loaded state writes the very same bytes — save of load of save
/// equals save, for every state.
pub proof fn lemma_save_load_save(c: ConfigModel)
    ensures
        parse_config(ser_config(c)) == Some(c),
        ser_config(parse_config(ser_config(c)).unwrap()) == ser_config(c),
{
    lemma_parse_ser_config(c);
}

/// Loading a document produced by saving yields exactly the saved instances
/// whose executables still exist at load time, in the saved order: with the
/// same existence answers, filtering the loaded list gives the same records
/// as filtering the saved list — the store itself drops, duplicates and
/// reorders nothing.
pub proof fn lemma_load_filters_saved(c: ConfigModel, exists_mask: Seq<bool>)
    ensures
        parse_config(ser_config(c)) matches Some(d) && filter_mask(d.instances, exists_mask)
            == filter_mask(c.instances, exists_mask),
{
    lemma_parse_ser_config(c);
}

/// With every saved executable still present at load time, loading a saved
/// document yields exactly the saved instance list, record for record.
pub proof fn lemma_load_of_saved_all_present(c: ConfigModel, exists_mask: Seq<bool>)
    requires
        exists_mask.len() == c.instances.len(),
        forall|j: int| 0 <= j < exists_mask.len() ==> exists_mask[j],
    ensures
        parse_config(ser_config(c)) matches Some(d) && filter_mask(d.instances, exists_mask)
            == c.instances,
{
    lemma_parse_ser_config(c);
    lemma_filter_mask_all_true(c.instances, exists_mask);
}

/// A mask with every answer true keeps the whole list.
proof fn lemma_filter_mask_all_true(l: Seq<InstanceModel>, m: Seq<bool>)
    requires
        m.len() == l.len(),
        forall|j: int| 0 <= j < m.len() ==> m[j],
    ensures
        filter_mask(l, m) == l,
    decreases l.len(),
{
    if l.len() == 0 {
        assert(filter_mask(l, m) =~= l);
    } else {
        assert(forall|j: int| 0 <= j < m.skip(1).len() ==> m.skip(1)[j]);
        lemma_filter_mask_all_true(l.skip(1), m.skip(1));
        assert(m[0]);
        assert(seq![l[0]] + l.skip(1) =~= l);
    }
}

/// Removing the record at `i` and persisting: the freshly saved document
/// loads back without the removed record, the list is shorter by exactly
/// one, and every other record keeps its relative order.
pub proof fn lemma_remove_then_load(c: ConfigModel, i: int)
    requires
        0 <= i < c.instances.len(),
    ensures
        ({
            let after = ConfigModel {
                launch_on_system_startup: c.launch_on_system_startup,
                instances: c.instances.remove(i),
            };
            &&& parse_config(ser_config(after)) == Some(after)
            &&& after.instances.len() == c.instances.len() - 1
            &&& forall|j: int| 0 <= j < i ==> after.instances[j] == c.instances[j]
            &&& forall|j: int|
                i <= j < after.instances.len() ==> after.instances[j] == c.instances[j + 1]
        }),
{
    let after = ConfigModel {
        launch_on_system_startup: c.launch_on_system_startup,
        instances: c.instances.remove(i),
    };
    lemma_parse_ser_config(after);
    c.instances.remove_ensures(i);
}

/// Renaming the record at `i` and persisting: the freshly saved document
/// shows the new name at the same position with the path unchanged, and
/// every other record untouched.
pub proof fn lemma_rename_then_load(c: ConfigModel, i: int, new_name: Seq<u8>)
    requires
        0 <= i < c.instances.len(),
    ensures
        ({
            let after = ConfigModel {
                launch_on_system_startup: c.launch_on_system_startup,
                instances: c.instances.update(
                    i,
                    InstanceModel { name: new_name, path: c.instances[i].path },
                ),
            };
            &&& parse_config(ser_config(after)) == Some(after)
            &&& after.instances.len() == c.instances.len()
            &&& after.instances[i].name == new_name
            &&& after.instances[i].path == c.instances[i].path
            &&& forall|j: int|
                0 <= j < c.instances.len() && j != i ==> after.instances[j] == c.instances[j]
        }),
{
    let after = ConfigModel {
        launch_on_system_startup: c.launch_on_system_startup,
        instances: c.instances.update(
            i,
            InstanceModel { name: new_name, path: c.instances[i].path },
        ),
    };
    lemma_parse_ser_config(after);
}

} // verus!
