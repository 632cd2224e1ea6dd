//! The instance registry: the mutations the user can apply to the in-memory
//! state. Every mutation is followed by an immediate write of the
//! configuration document; the I/O shell obtains those bytes from
//! `save_configuration` and puts them on disk.

use vstd::prelude::*;

use crate::codec::save_config;
use crate::codec::ser_config;
use crate::error::LauncherError;
use crate::state::AppView;
use crate::state::Application;
use crate::state::ConfigData;
use crate::state::ConfigModel;
use crate::state::Instance;
use crate::state::InstanceModel;
use crate::state::Settings;
use crate::state::default_model;
use crate::state::instance_models;

verus! {

pub const SLASH: u8 = 47;
pub const DOT: u8 = 46;

/// The basename of a path: everything after the last separator, empty for a
/// path that ends in a separator.
pub open spec fn basename(p: Seq<u8>) -> Seq<u8>
    decreases p.len(),
{
    if p.len() == 0 {
        p
    } else if p.last() == SLASH {
        Seq::empty()
    } else {
        basename(p.drop_last()) + seq![p.last()]
    }
}

/// The index of the last dot of `b`, or -1 where `b` has none.
pub open spec fn last_dot(b: Seq<u8>) -> int
    decreases b.len(),
{
    if b.len() == 0 {
        -1
    } else if b.last() == DOT {
        b.len() - 1
    } else {
        last_dot(b.drop_last())
    }
}

/// The stem of a basename: everything before its last dot. A basename with no
/// dot, or whose only leading byte is a dot, is its own stem.
pub open spec fn stem_of_basename(b: Seq<u8>) -> Seq<u8> {
    let d = last_dot(b);
    if d > 0 {
        b.take(d)
    } else {
        b
    }
}

/// The instance name derived from a dropped executable path: the stem of the
/// path's basename.
pub open spec fn derived_name(p: Seq<u8>) -> Seq<u8> {
    stem_of_basename(basename(p))
}

/// `basename` is the suffix that starts right after the last separator.
proof fn lemma_basename_at(p: Seq<u8>, st: int)
    requires
        0 <= st <= p.len(),
        st == 0 || p[st - 1] == SLASH,
        forall|j: int| st <= j < p.len() ==> p[j] != SLASH,
    ensures
        basename(p) == p.skip(st),
    decreases p.len(),
{
    if st == p.len() {
        if p.len() == 0 {
            assert(p.skip(0) =~= p);
        } else {
            assert(p.last() == SLASH);
            assert(p.skip(st) =~= Seq::<u8>::empty());
        }
    } else {
        assert(p[p.len() - 1] != SLASH);
        assert(forall|j: int| st <= j < p.drop_last().len() ==> p.drop_last()[j] != SLASH);
        lemma_basename_at(p.drop_last(), st);
        assert(p.drop_last().skip(st) + seq![p.last()] =~= p.skip(st));
    }
}

/// `last_dot` is the position of the last dot, or -1 with no dot anywhere.
proof fn lemma_last_dot_at(b: Seq<u8>, d: int)
    requires
        -1 <= d < b.len(),
        d >= 0 ==> b[d] == DOT,
        forall|j: int| d < j < b.len() ==> b[j] != DOT,
    ensures
        last_dot(b) == d,
    decreases b.len(),
{
    if b.len() == 0 {
    } else if d == b.len() - 1 {
    } else {
        assert(b[b.len() - 1] != DOT);
        assert(forall|j: int| d < j < b.drop_last().len() ==> b.drop_last()[j] != DOT);
        lemma_last_dot_at(b.drop_last(), d);
    }
}

/// Derives an instance name from an executable path: the basename without its
/// extension.
pub fn derive_instance_name(path: &Vec<u8>) -> (name: Vec<u8>)
    ensures
        name@ == derived_name(path@),
{
    let n = path.len();
    let mut start: usize = 0;
    let mut i: usize = 0;
    while i < n
        invariant
            n == path@.len(),
            start <= i <= n,
            start == 0 || path@[start - 1] == SLASH,
            forall|j: int| start <= j < i ==> path@[j] != SLASH,
        decreases n - i,
    {
        if path[i] == SLASH {
            start = i + 1;
        }
        i = i + 1;
    }
    proof {
        lemma_basename_at(path@, start as int);
    }
    let ghost b = basename(path@);
    let mut has_dot = false;
    let mut dot: usize = 0;
    let mut k: usize = start;
    while k < n
        invariant
            n == path@.len(),
            start <= k <= n,
            has_dot ==> start <= dot < k && path@[dot as int] == DOT,
            has_dot ==> forall|j: int| dot < j < k ==> path@[j] != DOT,
            !has_dot ==> forall|j: int| start <= j < k ==> path@[j] != DOT,
        decreases n - k,
    {
        if path[k] == DOT {
            has_dot = true;
            dot = k;
        }
        k = k + 1;
    }
    proof {
        if has_dot {
            lemma_last_dot_at(b, dot as int - start as int);
        } else {
            lemma_last_dot_at(b, -1);
        }
    }
    let end: usize = if has_dot && dot > start {
        dot
    } else {
        n
    };
    let mut name: Vec<u8> = Vec::new();
    let mut t: usize = start;
    while t < end
        invariant
            n == path@.len(),
            start <= t <= end <= n,
            name@ == path@.subrange(start as int, t as int),
        decreases end - t,
    {
        name.push(path[t]);
        proof {
            assert(path@.subrange(start as int, t as int + 1) =~= path@.subrange(
                start as int,
                t as int,
            ) + seq![path@[t as int]]);
        }
        t = t + 1;
    }
    proof {
        if has_dot && dot > start {
            assert(b.take(dot as int - start as int) =~= path@.subrange(start as int, dot as int));
        } else {
            assert(b =~= path@.subrange(start as int, n as int));
        }
    }
    name
}

impl Default for Application {
    /// The default state: default settings, no instances, the instance list
    /// on screen.
    fn default() -> (a: Self)
        ensures
            a.persisted_model() == default_model(),
            a.current_view == AppView::Instances,
    {
        let a = Application {
            settings: Settings { launch_on_system_startup: false },
            instances: Vec::new(),
            current_view: AppView::Instances,
        };
        proof {
            assert(instance_models(a.instances@) =~= Seq::<InstanceModel>::empty());
            assert(a.persisted_model() =~= default_model());
        }
        a
    }
}

impl Application {
    /// Builds the in-memory state for a freshly loaded configuration, showing
    /// the instance list.
    pub fn with_config(c: ConfigData) -> (a: Application)
        ensures
            a.persisted_model() == c@,
            a.current_view == AppView::Instances,
    {
        let a = Application {
            settings: c.settings,
            instances: c.instances,
            current_view: AppView::Instances,
        };
        proof {
            assert(a.persisted_model() =~= c@);
        }
        a
    }

    /// Appends a dropped executable to the instance list: the record's name
    /// is the path's basename without its extension, its path is the whole
    /// dropped path. Settings and current view stay untouched. The chosen
    /// drop policy is that only files are accepted: the I/O shell rejects a
    /// dropped directory before calling this.
    pub fn add_instance_from_filepath(&mut self, executable_path: Vec<u8>)
        ensures
            final(self).settings == old(self).settings,
            final(self).current_view == old(self).current_view,
            instance_models(final(self).instances@) == instance_models(old(self).instances@).push(
                InstanceModel { name: derived_name(executable_path@), path: executable_path@ },
            ),
    {
        let name = derive_instance_name(&executable_path);
        let ghost prev = instance_models(self.instances@);
        let ghost im = InstanceModel { name: derived_name(executable_path@), path: executable_path@ };
        self.instances.push(Instance { name, path: executable_path });
        proof {
            assert(instance_models(self.instances@) =~= prev.push(im));
        }
    }

    /// Removes the record at `index`. Fails with `IndexError` if and only if
    /// `index` is out of range, and then changes nothing; otherwise the list
    /// loses exactly that record and all others keep their relative order.
    pub fn remove(&mut self, index: usize) -> (r: Result<(), LauncherError>)
        ensures
            index < old(self).instances@.len() ==> r == Ok::<(), LauncherError>(())
                && final(self).settings == old(self).settings && final(self).current_view == old(
                self,
            ).current_view && instance_models(final(self).instances@) == instance_models(
                old(self).instances@,
            ).remove(index as int),
            index >= old(self).instances@.len() ==> r == Err::<(), LauncherError>(
                LauncherError::IndexError,
            ) && *final(self) == *old(self),
    {
        if index < self.instances.len() {
            self.instances.remove(index);
            proof {
                assert(instance_models(self.instances@) =~= instance_models(
                    old(self).instances@,
                ).remove(index as int));
            }
            Ok(())
        } else {
            Err(LauncherError::IndexError)
        }
    }

    /// Replaces the name of the record at `index`, leaving its path alone.
    /// Fails with `IndexError` if and only if `index` is out of range, and
    /// then changes nothing.
    pub fn rename(&mut self, index: usize, new_name: Vec<u8>) -> (r: Result<(), LauncherError>)
        ensures
            index < old(self).instances@.len() ==> r == Ok::<(), LauncherError>(())
                && final(self).settings == old(self).settings && final(self).current_view == old(
                self,
            ).current_view && instance_models(final(self).instances@) == instance_models(
                old(self).instances@,
            ).update(
                index as int,
                InstanceModel {
                    name: new_name@,
                    path: old(self).instances@[index as int].path@,
                },
            ),
            index >= old(self).instances@.len() ==> r == Err::<(), LauncherError>(
                LauncherError::IndexError,
            ) && *final(self) == *old(self),
    {
        if index < self.instances.len() {
            let inst = self.instances.remove(index);
            self.instances.insert(index, Instance { name: new_name, path: inst.path });
            proof {
                assert(instance_models(self.instances@) =~= instance_models(
                    old(self).instances@,
                ).update(
                    index as int,
                    InstanceModel {
                        name: new_name@,
                        path: old(self).instances@[index as int].path@,
                    },
                ));
            }
            Ok(())
        } else {
            Err(LauncherError::IndexError)
        }
    }

    /// Replaces the whole state with the default one: default settings, no
    /// instances, the instance list on screen.
    pub fn reset_to_defaults(&mut self)
        ensures
            final(self).persisted_model() == default_model(),
            final(self).current_view == AppView::Instances,
    {
        self.settings = Settings { launch_on_system_startup: false };
        self.instances = Vec::new();
        self.current_view = AppView::Instances;
        proof {
            assert(instance_models(self.instances@) =~= Seq::<InstanceModel>::empty());
            assert(self.persisted_model() =~= default_model());
        }
    }

    /// Serializes the current state into the configuration document that the
    /// I/O shell writes to disk after every mutation.
    pub fn save_configuration(&self) -> (out: Vec<u8>)
        ensures
            out@ == ser_config(self.persisted_model()),
    {
        let out = save_config(&self.settings, &self.instances);
        proof {
            assert(self.persisted_model() =~= ConfigModel {
                launch_on_system_startup: self.settings.launch_on_system_startup,
                instances: instance_models(self.instances@),
            });
        }
        out
    }
}

/// The records of `l` kept by the mask `m`, in order: record `j` stays if and
/// only if `m[j]` holds.
pub open spec fn filter_mask(l: Seq<InstanceModel>, m: Seq<bool>) -> Seq<InstanceModel>
    decreases l.len(),
{
    if l.len() == 0 || m.len() == 0 {
        Seq::empty()
    } else if m[0] {
        seq![l[0]] + filter_mask(l.skip(1), m.skip(1))
    } else {
        filter_mask(l.skip(1), m.skip(1))
    }
}

/// Keeps the records whose mask entry is true. This is the load-time step
/// that silently drops instances whose executable no longer exists on disk:
/// the I/O shell answers one existence question per record and hands the
/// answers in as `mask`.
pub fn filter_existing(instances: Vec<Instance>, mask: &Vec<bool>) -> (r: Vec<Instance>)
    requires
        mask@.len() == instances@.len(),
    ensures
        instance_models(r@) == filter_mask(instance_models(instances@), mask@),
{
    let ghost all = instance_models(instances@);
    let mut rest = instances;
    let mut out: Vec<Instance> = Vec::new();
    let mut j: usize = 0;
    proof {
        assert(instance_models(out@) =~= Seq::<InstanceModel>::empty());
        assert(mask@.skip(0) =~= mask@);
        assert(instance_models(out@) + filter_mask(instance_models(rest@), mask@.skip(0))
            =~= filter_mask(all, mask@));
    }
    let m = mask.len();
    while rest.len() > 0
        invariant
            m == mask@.len(),
            j + rest@.len() == m,
            instance_models(out@) + filter_mask(instance_models(rest@), mask@.skip(j as int))
                == filter_mask(all, mask@),
        decreases rest@.len(),
    {
        let ghost rest0 = rest@;
        let ghost out0 = out@;
        let inst = rest.remove(0);
        let keep = mask[j];
        proof {
            assert(instance_models(rest@) =~= instance_models(rest0).skip(1));
            assert(mask@.skip(j as int)[0] == mask@[j as int]);
            assert(mask@.skip(j as int).skip(1) =~= mask@.skip(j as int + 1));
            assert(instance_models(rest0)[0] == inst@);
        }
        if keep {
            out.push(inst);
            proof {
                assert(instance_models(out@) =~= instance_models(out0).push(inst@));
                assert(filter_mask(instance_models(rest0), mask@.skip(j as int)) == seq![inst@]
                    + filter_mask(instance_models(rest@), mask@.skip(j as int + 1)));
                assert(instance_models(out@) + filter_mask(
                    instance_models(rest@),
                    mask@.skip(j as int + 1),
                ) =~= instance_models(out0) + filter_mask(
                    instance_models(rest0),
                    mask@.skip(j as int),
                ));
            }
        } else {
            proof {
                assert(filter_mask(instance_models(rest0), mask@.skip(j as int)) == filter_mask(
                    instance_models(rest@),
                    mask@.skip(j as int + 1),
                ));
            }
        }
        j = j + 1;
    }
    proof {
        assert(instance_models(rest@).len() == 0);
        assert(filter_mask(instance_models(rest@), mask@.skip(j as int))
            =~= Seq::<InstanceModel>::empty());
        assert(instance_models(out@) + Seq::<InstanceModel>::empty() =~= instance_models(out@));
    }
    out
}

} // verus!
