//! How a sync is carried out: the native packages in one call of the package
//! manager, then each external package built on its own, in the order given.
use vstd::prelude::*;

use crate::types::{Package, PackageView, pkgs_view};

verus! {

/// One step of a sync.
pub enum SyncStep {
    /// Clone and build one package of the external repository.
    BuildExternal(String),
    /// Install these native packages with one call of the package manager.
    InstallNative(Vec<String>),
}

pub enum SyncStepView {
    Build(Seq<char>),
    Install(Seq<Seq<char>>),
}

impl View for SyncStep {
    type V = SyncStepView;

    open spec fn view(&self) -> SyncStepView {
        match self {
            SyncStep::BuildExternal(n) => SyncStepView::Build(n@),
            SyncStep::InstallNative(ns) => SyncStepView::Install(ns@.map_values(|n: String| n@)),
        }
    }
}

pub open spec fn steps_view(s: Seq<SyncStep>) -> Seq<SyncStepView> {
    s.map_values(|x: SyncStep| x@)
}

/// The names of the native packages, in input order.
pub open spec fn native_names(s: Seq<PackageView>) -> Seq<Seq<char>>
    decreases s.len(),
{
    if s.len() == 0 {
        Seq::empty()
    } else if s.last().aur {
        native_names(s.drop_last())
    } else {
        native_names(s.drop_last()).push(s.last().name)
    }
}

/// One build per external package, in input order.
pub open spec fn builds(s: Seq<PackageView>) -> Seq<SyncStepView>
    decreases s.len(),
{
    if s.len() == 0 {
        Seq::empty()
    } else if s.last().aur {
        builds(s.drop_last()).push(SyncStepView::Build(s.last().name))
    } else {
        builds(s.drop_last())
    }
}

/// The steps for a list of packages: all native packages in one install,
/// when there is any, then each external package built on its own.
pub open spec fn sync_steps(s: Seq<PackageView>) -> Seq<SyncStepView> {
    if native_names(s).len() > 0 {
        seq![SyncStepView::Install(native_names(s))] + builds(s)
    } else {
        builds(s)
    }
}

/// The steps that sync the packages, in order.
pub fn handle_sync(pkgs: &Vec<Package>) -> (r: Vec<SyncStep>)
    ensures
        steps_view(r@) == sync_steps(pkgs_view(pkgs@)),
{
    let ghost pv = pkgs_view(pkgs@);
    let mut natives: Vec<String> = Vec::new();
    let mut external: Vec<SyncStep> = Vec::new();
    let mut i: usize = 0;
    assert(pv.take(0) =~= Seq::<PackageView>::empty());
    assert(natives@.map_values(|n: String| n@) =~= Seq::<Seq<char>>::empty());
    assert(steps_view(external@) =~= Seq::<SyncStepView>::empty());
    while i < pkgs.len()
        invariant
            i <= pkgs@.len(),
            pv == pkgs_view(pkgs@),
            natives@.map_values(|n: String| n@) == native_names(pv.take(i as int)),
            steps_view(external@) == builds(pv.take(i as int)),
        decreases pkgs@.len() - i,
    {
        assert(pv.take(i + 1).drop_last() =~= pv.take(i as int));
        assert(pv.take(i + 1).last() == pkgs@[i as int]@);
        if pkgs[i].aur {
            let ghost prev = external@;
            external.push(SyncStep::BuildExternal(pkgs[i].name.clone()));
            assert(steps_view(external@) =~= steps_view(prev).push(SyncStepView::Build(pkgs@[i as int].name@)));
        } else {
            let ghost prev = natives@;
            natives.push(pkgs[i].name.clone());
            assert(natives@.map_values(|n: String| n@) =~= prev.map_values(|n: String| n@).push(
                pkgs@[i as int].name@,
            ));
        }
        i = i + 1;
    }
    assert(pv.take(i as int) =~= pv);
    let mut steps: Vec<SyncStep> = Vec::new();
    if natives.len() > 0 {
        steps.push(SyncStep::InstallNative(natives));
    }
    let ghost first = steps@;
    steps.append(&mut external);
    assert(steps_view(steps@) =~= steps_view(first) + builds(pv));
    steps
}

} // verus!
