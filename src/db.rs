//! The package database: named groups, each a sorted list of packages with
//! no name twice.
use vstd::prelude::*;

use crate::merge::{
    filter_packages, has_name, lemma_merged_result, lemma_sorted_same_names, lemma_without_contains,
    merge_packages, merge_result, merged, names_of, sorted_unique, without,
};
use crate::order::{lemma_str_lt_irreflexive, str_lt};
use crate::types::{Package, PackageView, duplicate_all, pkgs_view};

verus! {

/// A group as the contracts see it: its name and its packages.
pub type GroupView = (Seq<char>, Seq<PackageView>);

pub open spec fn entries_view(s: Seq<(String, Vec<Package>)>) -> Seq<GroupView> {
    s.map_values(|e: (String, Vec<Package>)| (e.0@, pkgs_view(e.1@)))
}

pub open spec fn names_view(gs: Seq<String>) -> Seq<Seq<char>> {
    gs.map_values(|g: String| g@)
}

pub open spec fn group_names(v: Seq<GroupView>) -> Seq<Seq<char>> {
    v.map_values(|e: GroupView| e.0)
}

/// No two groups share a name.
pub open spec fn keys_unique(v: Seq<GroupView>) -> bool {
    forall|i: int, j: int| 0 <= i < j < v.len() ==> v[i].0 != v[j].0
}

/// A group is acted on when it is named, or when no group is named at all.
pub open spec fn targeted(gs: Seq<Seq<char>>, name: Seq<char>) -> bool {
    gs.len() == 0 || gs.contains(name)
}

/// The named groups that do not exist yet, in the order they are first named.
pub open spec fn fresh(keys: Seq<Seq<char>>, gs: Seq<Seq<char>>) -> Seq<Seq<char>>
    decreases gs.len(),
{
    if gs.len() == 0 {
        gs
    } else {
        let r = fresh(keys, gs.drop_last());
        if keys.contains(gs.last()) || r.contains(gs.last()) {
            r
        } else {
            r.push(gs.last())
        }
    }
}

/// The database that `add` builds from `p` and the groups `gs`: each targeted
/// group gets the merged list, and each named group that did not exist is
/// created, after the others, holding `p` merged into an empty list. Callers
/// are promised only `add_result`, which leaves open the origin kept for a
/// name listed twice.
pub open spec fn added(v: Seq<GroupView>, p: Seq<PackageView>, gs: Seq<Seq<char>>) -> Seq<GroupView> {
    v.map_values(|e: GroupView| if targeted(gs, e.0) { (e.0, merged(e.1, p)) } else { e })
        + fresh(group_names(v), gs).map_values(|g: Seq<char>| (g, merged(Seq::empty(), p)))
}

/// The database after removing the packages named in `p` from the groups
/// `gs`: a targeted group left empty is gone; the order of the rest is kept.
pub open spec fn removed(v: Seq<GroupView>, p: Seq<PackageView>, gs: Seq<Seq<char>>) -> Seq<GroupView>
    decreases v.len(),
{
    if v.len() == 0 {
        v
    } else {
        let r = removed(v.drop_last(), p, gs);
        let e = v.last();
        if targeted(gs, e.0) {
            if without(e.1, p).len() == 0 {
                r
            } else {
                r.push((e.0, without(e.1, p)))
            }
        } else {
            r.push(e)
        }
    }
}

proof fn lemma_entries_update(s: Seq<(String, Vec<Package>)>, i: int, e: (String, Vec<Package>))
    requires
        0 <= i < s.len(),
    ensures
        entries_view(s.update(i, e)) == entries_view(s).update(i, (e.0@, pkgs_view(e.1@))),
{
    assert(entries_view(s.update(i, e)) =~= entries_view(s).update(i, (e.0@, pkgs_view(e.1@))));
}

proof fn lemma_entries_push(s: Seq<(String, Vec<Package>)>, e: (String, Vec<Package>))
    ensures
        entries_view(s.push(e)) == entries_view(s).push((e.0@, pkgs_view(e.1@))),
{
    assert(entries_view(s.push(e)) =~= entries_view(s).push((e.0@, pkgs_view(e.1@))));
}

pub proof fn lemma_fresh(keys: Seq<Seq<char>>, gs: Seq<Seq<char>>)
    ensures
        forall|g: Seq<char>| #[trigger] fresh(keys, gs).contains(g) <==> (gs.contains(g) && !keys.contains(g)),
    decreases gs.len(),
{
    if gs.len() > 0 {
        let d = gs.drop_last();
        lemma_fresh(keys, d);
        let r = fresh(keys, d);
        assert forall|g: Seq<char>| #[trigger] fresh(keys, gs).contains(g) <==> (gs.contains(g) && !keys.contains(g)) by {
            if gs.contains(g) && g != gs.last() {
                let k = choose|k: int| 0 <= k < gs.len() && gs[k] == g;
                assert(d[k] == g);
            }
            if d.contains(g) {
                let k = choose|k: int| 0 <= k < d.len() && d[k] == g;
                assert(gs[k] == g);
            }
            assert(gs[gs.len() - 1] == gs.last());
            if r.push(gs.last()).contains(g) {
                let k = choose|k: int| 0 <= k < r.len() + 1 && r.push(gs.last())[k] == g;
                if k < r.len() {
                    assert(r[k] == g);
                }
            }
            if r.contains(g) {
                let k = choose|k: int| 0 <= k < r.len() && r[k] == g;
                assert(r.push(gs.last())[k] == g);
            }
            assert(r.push(gs.last())[r.len() as int] == gs.last());
        }
    }
}

/// The installed packages, by group.
pub struct PackageDb {
    pub groups: Vec<(String, Vec<Package>)>,
}

impl View for PackageDb {
    type V = Seq<GroupView>;

    open spec fn view(&self) -> Seq<GroupView> {
        entries_view(self.groups@)
    }
}

impl PackageDb {
    pub open spec fn well_formed(&self) -> bool {
        keys_unique(self@)
    }

    /// A database with the one group `default`, holding no package.
    pub fn empty() -> (r: PackageDb)
        ensures
            r@ == seq![(seq!['d', 'e', 'f', 'a', 'u', 'l', 't'], Seq::<PackageView>::empty())],
            r.well_formed(),
    {
        let mut groups: Vec<(String, Vec<Package>)> = Vec::new();
        let name = String::from_str("default");
        proof {
            reveal_strlit("default");
        }
        assert(name@ =~= seq!['d', 'e', 'f', 'a', 'u', 'l', 't']);
        let list: Vec<Package> = Vec::new();
        assert(pkgs_view(list@) =~= Seq::<PackageView>::empty());
        groups.push((name, list));
        let r = PackageDb { groups };
        assert(r@ =~= seq![(seq!['d', 'e', 'f', 'a', 'u', 'l', 't'], Seq::<PackageView>::empty())]);
        r
    }

    /// Adds `pkgs` to the groups named in `groups`, creating those that do not
    /// exist, or to every group when `groups` is empty. Each list it touches
    /// ends sorted by name with no name twice.
    pub fn add(&mut self, pkgs: Vec<Package>, groups: Vec<String>)
        requires
            old(self).well_formed(),
        ensures
            final(self).well_formed(),
            add_result(old(self)@, pkgs_view(pkgs@), names_view(groups@), final(self)@),
    {
        let ghost v = self@;
        let ghost p = pkgs_view(pkgs@);
        let ghost gs = names_view(groups@);
        let ghost ks = group_names(v);
        if groups.len() == 0 {
            let mut i: usize = 0;
            while i < self.groups.len()
                invariant
                    i <= self@.len(),
                    self@.len() == v.len(),
                    p == pkgs_view(pkgs@),
                    forall|k: int| 0 <= k < i ==> #[trigger] self@[k] == (v[k].0, merged(v[k].1, p)),
                    forall|k: int| i <= k < v.len() ==> #[trigger] self@[k] == v[k],
                decreases v.len() - i,
            {
                assert(self@[i as int] == v[i as int]);
                let ghost before = self.groups@;
                let list = merge_packages(&self.groups[i].1, &pkgs);
                let name = self.groups[i].0.clone();
                proof {
                    lemma_entries_update(before, i as int, (name, list));
                }
                self.groups.set(i, (name, list));
                assert(self.groups@[i as int].0@ == v[i as int].0);
                assert(self@[i as int] == (v[i as int].0, merged(v[i as int].1, p)));
                i = i + 1;
            }
            assert(fresh(ks, gs) =~= Seq::<Seq<char>>::empty());
            assert(self@ =~= added(v, p, gs));
            proof {
                lemma_added_result(v, p, gs);
            }
        } else {
            let empty_list: Vec<Package> = Vec::new();
            assert(pkgs_view(empty_list@) =~= Seq::<PackageView>::empty());
            let mut j: usize = 0;
            assert(fresh(ks, gs.take(0)) =~= Seq::<Seq<char>>::empty());
            while j < groups.len()
                invariant
                    j <= groups@.len(),
                    gs == names_view(groups@),
                    p == pkgs_view(pkgs@),
                    pkgs_view(empty_list@) == Seq::<PackageView>::empty(),
                    ks == group_names(v),
                    keys_unique(self@),
                    self@.len() == v.len() + fresh(ks, gs.take(j as int)).len(),
                    forall|k: int| 0 <= k < v.len() ==> #[trigger] self@[k] == if gs.take(j as int).contains(v[k].0) {
                        (v[k].0, merged(v[k].1, p))
                    } else {
                        v[k]
                    },
                    forall|k: int| 0 <= k < fresh(ks, gs.take(j as int)).len() ==> #[trigger] self@[v.len() + k]
                        == (fresh(ks, gs.take(j as int))[k], merged(Seq::empty(), p)),
                decreases groups@.len() - j,
            {
                let ghost t = gs.take(j as int);
                let ghost g = gs[j as int];
                let ghost old_view = self@;
                proof {
                    assert(gs.take(j + 1) =~= t.push(g));
                    assert(gs.take(j + 1).drop_last() =~= t);
                    lemma_fresh(ks, t);
                    assert forall|x: Seq<char>| gs.take(j + 1).contains(x) <==> (t.contains(x) || x == g) by {
                        if t.push(g).contains(x) {
                            let k = choose|k: int| 0 <= k < t.len() + 1 && t.push(g)[k] == x;
                            if k < t.len() {
                                assert(t[k] == x);
                            }
                        }
                        if t.contains(x) {
                            let k = choose|k: int| 0 <= k < t.len() && t[k] == x;
                            assert(t.push(g)[k] == x);
                        }
                        assert(t.push(g)[t.len() as int] == g);
                    }
                }
                if !named_before(&groups, j, &groups[j]) {
                    match find_group(&self.groups, &groups[j]) {
                        Some(i) => {
                            proof {
                                if i >= v.len() {
                                    let f = fresh(ks, t);
                                    let kk = i - v.len();
                                    assert(self@[v.len() + kk] == (f[kk], merged(Seq::empty(), p)));
                                    assert(self@[i as int].0 == f[kk]);
                                    assert(f.contains(f[i - v.len()]));
                                }
                                assert(ks[i as int] == v[i as int].0);
                            }
                            let ghost before = self.groups@;
                            let list = merge_packages(&self.groups[i].1, &pkgs);
                            let name = groups[j].clone();
                            proof {
                                lemma_entries_update(before, i as int, (name, list));
                            }
                            self.groups.set(i, (name, list));
                            proof {
                                assert forall|a: int, b: int| 0 <= a < b < self@.len() implies self@[a].0 != self@[b].0 by {
                                    assert(self@[a].0 == old_view[a].0 && self@[b].0 == old_view[b].0);
                                }
                                assert forall|k: int| 0 <= k < v.len() implies #[trigger] self@[k] == if gs.take(j + 1).contains(v[k].0) {
                                    (v[k].0, merged(v[k].1, p))
                                } else {
                                    v[k]
                                } by {
                                    if k != i {
                                        assert(self@[k] == old_view[k]);
                                    }
                                }
                                assert forall|k: int| 0 <= k < fresh(ks, gs.take(j + 1)).len() implies #[trigger] self@[v.len() + k]
                                    == (fresh(ks, gs.take(j + 1))[k], merged(Seq::empty(), p)) by {
                                    assert(self@[v.len() + k] == old_view[v.len() + k]);
                                }
                            }
                        },
                        None => {
                            proof {
                                if ks.contains(g) {
                                    let k = choose|k: int| 0 <= k < ks.len() && ks[k] == g;
                                    assert(self@[k].0 == v[k].0);
                                    assert(group_names(self@)[k] == g);
                                }
                                assert(!ks.contains(g));
                                assert(!fresh(ks, t).contains(g));
                                assert(gs.take(j + 1).last() == g);
                            }
                            let ghost before = self.groups@;
                            let list = merge_packages(&empty_list, &pkgs);
                            let name = groups[j].clone();
                            proof {
                                lemma_entries_push(before, (name, list));
                            }
                            self.groups.push((name, list));
                            proof {
                                assert forall|a: int, b: int| 0 <= a < b < self@.len() implies self@[a].0 != self@[b].0 by {
                                    if b == old_view.len() {
                                        assert(group_names(old_view)[a] == old_view[a].0);
                                    } else {
                                        assert(self@[a] == old_view[a] && self@[b] == old_view[b]);
                                    }
                                }
                                let f = fresh(ks, t);
                                assert(fresh(ks, gs.take(j + 1)) == f.push(g));
                                assert forall|k: int| 0 <= k < v.len() implies #[trigger] self@[k] == if gs.take(j + 1).contains(v[k].0) {
                                    (v[k].0, merged(v[k].1, p))
                                } else {
                                    v[k]
                                } by {
                                    assert(self@[k] == old_view[k]);
                                    assert(ks[k] == v[k].0);
                                }
                                assert forall|k: int| 0 <= k < fresh(ks, gs.take(j + 1)).len() implies #[trigger] self@[v.len() + k]
                                    == (fresh(ks, gs.take(j + 1))[k], merged(Seq::empty(), p)) by {
                                    if k < f.len() {
                                        assert(self@[v.len() + k] == old_view[v.len() + k]);
                                    }
                                }
                            }
                        },
                    }
                } else {
                    proof {
                        assert forall|k: int| 0 <= k < v.len() implies #[trigger] self@[k] == if gs.take(j + 1).contains(v[k].0) {
                            (v[k].0, merged(v[k].1, p))
                        } else {
                            v[k]
                        } by {
                            assert(self@[k] == old_view[k]);
                        }
                    }
                }
                j = j + 1;
            }
            assert(gs.take(j as int) =~= gs);
            let ghost a = added(v, p, gs);
            let ghost f = fresh(ks, gs);
            assert(gs.len() > 0);
            assert forall|k: int| 0 <= k < a.len() implies #[trigger] a[k] == self@[k] by {
                if k < v.len() {
                    assert(a[k] == (if targeted(gs, v[k].0) { (v[k].0, merged(v[k].1, p)) } else { v[k] }));
                } else {
                    let kk = k - v.len();
                    assert(a[k] == (f[kk], merged(Seq::<PackageView>::empty(), p)));
                    assert(self@[v.len() + kk] == (f[kk], merged(Seq::<PackageView>::empty(), p)));
                }
            }
            assert(self@ =~= a);
            proof {
                lemma_added_result(v, p, gs);
            }
        }
    }

    /// Removes the packages named in `pkgs` from the groups named in `groups`,
    /// or from every group when `groups` is empty. A group left empty is
    /// dropped; the other groups and their order stay as they were.
    pub fn remove(&mut self, pkgs: Vec<Package>, groups: Vec<String>)
        requires
            old(self).well_formed(),
        ensures
            final(self).well_formed(),
            final(self)@ == removed(old(self)@, pkgs_view(pkgs@), names_view(groups@)),
    {
        let ghost v = self@;
        let ghost p = pkgs_view(pkgs@);
        let ghost gs = names_view(groups@);
        let mut out: Vec<(String, Vec<Package>)> = Vec::new();
        let mut i: usize = 0;
        assert(v.take(0) =~= Seq::<GroupView>::empty());
        assert(entries_view(out@) =~= Seq::<GroupView>::empty());
        while i < self.groups.len()
            invariant
                i <= v.len(),
                v == self@,
                keys_unique(v),
                p == pkgs_view(pkgs@),
                gs == names_view(groups@),
                entries_view(out@) == removed(v.take(i as int), p, gs),
                keys_unique(entries_view(out@)),
                forall|k: int| 0 <= k < out@.len() ==> exists|m: int| 0 <= m < i && #[trigger] out@[k].0@ == v[m].0,
            decreases v.len() - i,
        {
            let ghost before = out@;
            let ghost e = v[i as int];
            assert(v.take(i + 1).drop_last() =~= v.take(i as int));
            assert(v.take(i + 1).last() == e);
            let name = self.groups[i].0.clone();
            let is_target = groups.len() == 0 || named_before(&groups, groups.len(), &name);
            assert(gs.take(gs.len() as int) =~= gs);
            assert(is_target == targeted(gs, e.0));
            let mut pushed = false;
            if is_target {
                let f = filter_packages(&self.groups[i].1, &pkgs);
                if f.len() > 0 {
                    proof {
                        lemma_entries_push(before, (name, f));
                    }
                    out.push((name, f));
                    pushed = true;
                }
            } else {
                let list = duplicate_all(&self.groups[i].1);
                proof {
                    lemma_entries_push(before, (name, list));
                }
                out.push((name, list));
                pushed = true;
            }
            proof {
                if pushed {
                    assert forall|a: int, b: int| 0 <= a < b < out@.len() implies entries_view(out@)[a].0 != entries_view(out@)[b].0 by {
                        if b == before.len() {
                            let m = choose|m: int| 0 <= m < i && #[trigger] before[a].0@ == v[m].0;
                            assert(out@[a] == before[a]);
                        } else {
                            assert(out@[a] == before[a] && out@[b] == before[b]);
                        }
                    }
                    assert forall|k: int| 0 <= k < out@.len() implies exists|m: int| 0 <= m < i + 1 && #[trigger] out@[k].0@ == v[m].0 by {
                        if k < before.len() {
                            assert(out@[k] == before[k]);
                            let m = choose|m: int| 0 <= m < i && #[trigger] before[k].0@ == v[m].0;
                        } else {
                            assert(out@[k].0@ == v[i as int].0);
                        }
                    }
                }
            }
            i = i + 1;
        }
        assert(v.take(i as int) =~= v);
        self.groups = out;
    }
}

/// Whether `g` occurs among the first `j` names of `gs`.
fn named_before(gs: &Vec<String>, j: usize, g: &String) -> (r: bool)
    requires
        j <= gs@.len(),
    ensures
        r == names_view(gs@).take(j as int).contains(g@),
{
    let mut k: usize = 0;
    while k < j
        invariant
            k <= j <= gs@.len(),
            forall|m: int| 0 <= m < k ==> gs@[m]@ != g@,
        decreases j - k,
    {
        if gs[k] == *g {
            assert(names_view(gs@).take(j as int)[k as int] == g@);
            return true;
        }
        k = k + 1;
    }
    proof {
        let t = names_view(gs@).take(j as int);
        if t.contains(g@) {
            let m = choose|m: int| 0 <= m < t.len() && t[m] == g@;
            assert(gs@[m]@ == g@);
        }
    }
    false
}

/// The position of the group named `name`, if there is one.
fn find_group(groups: &Vec<(String, Vec<Package>)>, name: &String) -> (r: Option<usize>)
    ensures
        match r {
            Some(i) => i < groups@.len() && entries_view(groups@)[i as int].0 == name@,
            None => !group_names(entries_view(groups@)).contains(name@),
        },
{
    let mut i: usize = 0;
    while i < groups.len()
        invariant
            i <= groups@.len(),
            forall|m: int| 0 <= m < i ==> groups@[m].0@ != name@,
        decreases groups@.len() - i,
    {
        if groups[i].0 == *name {
            return Some(i);
        }
        i = i + 1;
    }
    proof {
        let ks = group_names(entries_view(groups@));
        if ks.contains(name@) {
            let m = choose|m: int| 0 <= m < ks.len() && ks[m] == name@;
            assert(groups@[m].0@ == name@);
        }
    }
    None
}

proof fn lemma_fresh_none(keys: Seq<Seq<char>>, gs: Seq<Seq<char>>)
    requires
        forall|i: int| 0 <= i < gs.len() ==> keys.contains(#[trigger] gs[i]),
    ensures
        fresh(keys, gs) == Seq::<Seq<char>>::empty(),
    decreases gs.len(),
{
    if gs.len() > 0 {
        let d = gs.drop_last();
        assert forall|i: int| 0 <= i < d.len() implies keys.contains(#[trigger] d[i]) by {
            assert(d[i] == gs[i]);
        }
        lemma_fresh_none(keys, d);
        assert(keys.contains(gs[gs.len() - 1]));
    }
}

/// After removing `p` from the named groups `gs`, no group named in `gs`
/// holds a package whose name occurs in `p`, and every group that `gs` does
/// not name is there as it was, and no other.
pub proof fn lemma_remove_clears(v: Seq<GroupView>, p: Seq<PackageView>, gs: Seq<Seq<char>>)
    requires
        gs.len() > 0,
    ensures
        forall|k: int, i: int| 0 <= k < removed(v, p, gs).len() && gs.contains(removed(v, p, gs)[k].0)
            && 0 <= i < removed(v, p, gs)[k].1.len()
            ==> !has_name(p, #[trigger] removed(v, p, gs)[k].1[i].name),
        forall|e: GroupView| !gs.contains(e.0) ==> (#[trigger] removed(v, p, gs).contains(e) <==> v.contains(e)),
    decreases v.len(),
{
    if v.len() > 0 {
        let d = v.drop_last();
        let e = v.last();
        let r = removed(d, p, gs);
        let res = removed(v, p, gs);
        lemma_remove_clears(d, p, gs);
        lemma_without_contains(e.1, p);
        assert forall|k: int, i: int| 0 <= k < res.len() && gs.contains(res[k].0) && 0 <= i < res[k].1.len()
            implies !has_name(p, #[trigger] res[k].1[i].name) by {
            if k < r.len() {
                assert(res[k] == r[k]);
            } else {
                assert(res[k] == (e.0, without(e.1, p)));
                assert(without(e.1, p).contains(res[k].1[i]));
            }
        }
        assert forall|x: GroupView| !gs.contains(x.0) implies (#[trigger] res.contains(x) <==> v.contains(x)) by {
            assert(v[v.len() - 1] == e);
            if res.contains(x) {
                let k = choose|k: int| 0 <= k < res.len() && res[k] == x;
                if k < r.len() {
                    assert(res[k] == r[k]);
                    assert(r.contains(x));
                    let m = choose|m: int| 0 <= m < d.len() && d[m] == x;
                    assert(v[m] == x);
                }
            }
            if v.contains(x) {
                let m = choose|m: int| 0 <= m < v.len() && v[m] == x;
                if m < d.len() {
                    assert(d[m] == x);
                    assert(d.contains(x));
                    assert(r.contains(x) <==> d.contains(x));
                    let k = choose|k: int| 0 <= k < r.len() && r[k] == x;
                    assert(res[k] == x);
                } else {
                    assert(res[r.len() as int] == x);
                }
            }
        }
    }
}

proof fn lemma_removed_append(a: Seq<GroupView>, b: Seq<GroupView>, p: Seq<PackageView>, gs: Seq<Seq<char>>)
    ensures
        removed(a + b, p, gs) == removed(a, p, gs) + removed(b, p, gs),
    decreases b.len(),
{
    if b.len() == 0 {
        assert(a + b =~= a);
        assert(removed(a, p, gs) + removed(b, p, gs) =~= removed(a, p, gs));
    } else {
        assert((a + b).drop_last() =~= a + b.drop_last());
        assert((a + b).last() == b.last());
        lemma_removed_append(a, b.drop_last(), p, gs);
        let x = removed(a, p, gs);
        let y = removed(b.drop_last(), p, gs);
        let e = b.last();
        assert(x + y.push((e.0, without(e.1, p))) =~= (x + y).push((e.0, without(e.1, p))));
        assert(x + y.push(e) =~= (x + y).push(e));
    }
}

/// `w` is `v` after adding `p` to the groups `gs`: each targeted group
/// holds its list with `p` merged in, each named group that did not exist
/// is created after the others with `p` merged into an empty list, and the
/// other groups stay as they were.
pub open spec fn add_result(v: Seq<GroupView>, p: Seq<PackageView>, gs: Seq<Seq<char>>, w: Seq<GroupView>) -> bool {
    let f = fresh(group_names(v), gs);
    &&& w.len() == v.len() + f.len()
    &&& forall|k: int| 0 <= k < v.len() ==> (#[trigger] w[k]).0 == v[k].0 && if targeted(gs, v[k].0) {
        merge_result(v[k].1, p, w[k].1)
    } else {
        w[k] == v[k]
    }
    &&& forall|k: int| 0 <= k < f.len() ==> (#[trigger] w[v.len() + k]).0 == f[k] && merge_result(
        Seq::empty(),
        p,
        w[v.len() + k].1,
    )
}

pub proof fn lemma_added_result(v: Seq<GroupView>, p: Seq<PackageView>, gs: Seq<Seq<char>>)
    ensures
        add_result(v, p, gs, added(v, p, gs)),
{
    let w = added(v, p, gs);
    let f = fresh(group_names(v), gs);
    assert forall|k: int| 0 <= k < v.len() implies (#[trigger] w[k]).0 == v[k].0 && if targeted(gs, v[k].0) {
        merge_result(v[k].1, p, w[k].1)
    } else {
        w[k] == v[k]
    } by {
        lemma_merged_result(v[k].1, p);
    }
    assert forall|k: int| 0 <= k < f.len() implies (#[trigger] w[v.len() + k]).0 == f[k] && merge_result(
        Seq::empty(),
        p,
        w[v.len() + k].1,
    ) by {
        lemma_merged_result(Seq::empty(), p);
    }
}

/// Adding the same packages to the same groups a second time leaves the
/// same groups, in the same order, listing the same names in the same order.
pub proof fn lemma_add_idempotent(
    v: Seq<GroupView>,
    p: Seq<PackageView>,
    gs: Seq<Seq<char>>,
    w1: Seq<GroupView>,
    w2: Seq<GroupView>,
)
    requires
        add_result(v, p, gs, w1),
        add_result(w1, p, gs, w2),
    ensures
        w2.len() == w1.len(),
        forall|k: int| 0 <= k < w1.len() ==> (#[trigger] w2[k]).0 == w1[k].0 && names_of(w2[k].1) == names_of(w1[k].1),
{
    let ks = group_names(v);
    let f = fresh(ks, gs);
    lemma_fresh(ks, gs);
    assert forall|i: int| 0 <= i < gs.len() implies group_names(w1).contains(#[trigger] gs[i]) by {
        let g = gs[i];
        assert(gs.contains(g));
        if ks.contains(g) {
            let k = choose|k: int| 0 <= k < ks.len() && ks[k] == g;
            assert(w1[k].0 == v[k].0);
            assert(group_names(w1)[k] == g);
        } else {
            assert(f.contains(g));
            let k = choose|k: int| 0 <= k < f.len() && f[k] == g;
            assert(w1[v.len() + k].0 == f[k]);
            assert(group_names(w1)[v.len() + k] == g);
        }
    }
    lemma_fresh_none(group_names(w1), gs);
    assert forall|k: int| 0 <= k < w1.len() implies (#[trigger] w2[k]).0 == w1[k].0 && names_of(w2[k].1) == names_of(w1[k].1) by {
        let t = targeted(gs, w1[k].0);
        if k >= v.len() {
            let kk = k - v.len();
            assert(w1[v.len() + kk].0 == f[kk]);
            assert(f.contains(f[kk]));
            assert(gs.contains(w1[k].0));
        }
        if t {
            let old_list = if k < v.len() { v[k].1 } else { Seq::<PackageView>::empty() };
            if k < v.len() {
                assert(w1[k].0 == v[k].0);
            } else {
                let kk = k - v.len();
                assert(merge_result(Seq::empty(), p, w1[v.len() + kk].1));
            }
            assert(merge_result(old_list, p, w1[k].1));
            assert(merge_result(w1[k].1, p, w2[k].1));
            assert forall|n: Seq<char>| has_name(w2[k].1, n) <==> has_name(w1[k].1, n) by {
                assert(has_name(w1[k].1, n) <==> (has_name(old_list, n) || has_name(p, n)));
                assert(has_name(w2[k].1, n) <==> (has_name(w1[k].1, n) || has_name(p, n)));
            }
            lemma_sorted_same_names(w2[k].1, w1[k].1);
        } else {
            assert(k < v.len());
            assert(w2[k] == w1[k]);
        }
    }
}

proof fn lemma_without_sorted(s: Seq<PackageView>, p: Seq<PackageView>)
    requires
        sorted_unique(s),
    ensures
        sorted_unique(without(s, p)),
    decreases s.len(),
{
    if s.len() > 0 {
        let d = s.drop_last();
        assert forall|x: int, y: int| 0 <= x < y < d.len() implies str_lt(d[x].name, d[y].name) by {
            assert(d[x] == s[x] && d[y] == s[y]);
        }
        lemma_without_sorted(d, p);
        lemma_without_contains(d, p);
        let w = without(d, p);
        if !has_name(p, s.last().name) {
            let w2 = w.push(s.last());
            assert forall|x: int, y: int| 0 <= x < y < w2.len() implies str_lt(w2[x].name, w2[y].name) by {
                if y == w.len() {
                    assert(w.contains(w[x]));
                    let m = choose|m: int| 0 <= m < d.len() && d[m] == w[x];
                    assert(s[m] == d[m]);
                    assert(s[s.len() - 1] == s.last());
                } else {
                    assert(w2[x] == w[x] && w2[y] == w[y]);
                }
            }
        }
    }
}

/// Removing `p` from a list that `p` was merged into, where the list was
/// sorted and held none of `p`'s names, gives the list back.
proof fn lemma_without_of_merge(list: Seq<PackageView>, p: Seq<PackageView>, l: Seq<PackageView>)
    requires
        merge_result(list, p, l),
        sorted_unique(list),
        forall|i: int| 0 <= i < list.len() ==> !has_name(p, #[trigger] list[i].name),
    ensures
        without(l, p) == list,
{
    let w = without(l, p);
    lemma_without_contains(l, p);
    lemma_without_sorted(l, p);
    assert forall|n: Seq<char>| has_name(w, n) <==> has_name(list, n) by {
        if has_name(w, n) {
            let k = choose|k: int| 0 <= k < w.len() && w[k].name == n;
            assert(w.contains(w[k]));
            assert(l.contains(w[k]));
            let m = choose|m: int| 0 <= m < l.len() && l[m] == w[k];
            assert(has_name(l, n));
        }
        if has_name(list, n) {
            let k = choose|k: int| 0 <= k < list.len() && list[k].name == n;
            assert(!has_name(p, n));
            assert(has_name(l, n));
            let m = choose|m: int| 0 <= m < l.len() && l[m].name == n;
            assert(l.contains(l[m]));
            assert(w.contains(l[m]));
            let j = choose|j: int| 0 <= j < w.len() && w[j] == l[m];
        }
    }
    lemma_sorted_same_names(w, list);
    assert(names_of(w).len() == w.len() && names_of(list).len() == list.len());
    assert forall|i: int| 0 <= i < w.len() implies #[trigger] w[i] == list[i] by {
        assert(names_of(w)[i] == names_of(list)[i]);
        assert(w[i].name == list[i].name);
        assert(w.contains(w[i]));
        assert(l.contains(w[i]));
        if p.contains(w[i]) {
            let m = choose|m: int| 0 <= m < p.len() && p[m] == w[i];
            assert(has_name(p, w[i].name));
        }
        assert(list.contains(w[i]));
        let j = choose|j: int| 0 <= j < list.len() && list[j] == w[i];
        assert(list[j].name == list[i].name);
        if j < i {
            lemma_str_lt_irreflexive(list[j].name);
        } else if j > i {
            lemma_str_lt_irreflexive(list[i].name);
        }
    }
    assert(names_of(w).len() == names_of(list).len());
    assert(w =~= list);
}

/// Whatever removing leaves of a list that holds only names of `p` is empty.
proof fn lemma_without_all(l: Seq<PackageView>, p: Seq<PackageView>)
    requires
        forall|n: Seq<char>| has_name(l, n) ==> has_name(p, n),
    ensures
        without(l, p).len() == 0,
{
    lemma_without_contains(l, p);
    let w = without(l, p);
    if w.len() > 0 {
        assert(w.contains(w[0]));
        let m = choose|m: int| 0 <= m < l.len() && l[m] == w[0];
        assert(has_name(l, w[0].name));
    }
}

proof fn lemma_removed_back(v: Seq<GroupView>, w: Seq<GroupView>, p: Seq<PackageView>, gs: Seq<Seq<char>>)
    requires
        w.len() == v.len(),
        forall|k: int| 0 <= k < v.len() ==> if targeted(gs, v[k].0) {
            (#[trigger] w[k]).0 == v[k].0 && without(w[k].1, p) == v[k].1 && v[k].1.len() > 0
        } else {
            w[k] == v[k]
        },
    ensures
        removed(w, p, gs) == v,
    decreases v.len(),
{
    if v.len() > 0 {
        let n = v.len() - 1;
        assert(w[n] == w.last() && v[n] == v.last());
        lemma_removed_back(v.drop_last(), w.drop_last(), p, gs);
        assert(v.drop_last().push(v.last()) =~= v);
    } else {
        assert(w =~= v);
    }
}

proof fn lemma_removed_gone(w: Seq<GroupView>, p: Seq<PackageView>, gs: Seq<Seq<char>>)
    requires
        forall|k: int| 0 <= k < w.len() ==> targeted(gs, (#[trigger] w[k]).0) && without(w[k].1, p).len() == 0,
    ensures
        removed(w, p, gs) == Seq::<GroupView>::empty(),
    decreases w.len(),
{
    if w.len() > 0 {
        let n = w.len() - 1;
        assert(w[n] == w.last());
        lemma_removed_gone(w.drop_last(), p, gs);
    }
}

/// Adding packages to groups and then removing them again gives back the
/// database as it was, where each targeted group was sorted, not empty and
/// held none of the packages' names. A group that only the adding created is
/// gone again.
pub proof fn lemma_add_remove_round_trip(v: Seq<GroupView>, p: Seq<PackageView>, gs: Seq<Seq<char>>, w: Seq<GroupView>)
    requires
        add_result(v, p, gs, w),
        forall|k: int| 0 <= k < v.len() && targeted(gs, #[trigger] v[k].0) ==> sorted_unique(v[k].1) && v[k].1.len() > 0
            && forall|i: int| 0 <= i < v[k].1.len() ==> !has_name(p, #[trigger] v[k].1[i].name),
    ensures
        removed(w, p, gs) == v,
{
    let f = fresh(group_names(v), gs);
    let a = w.take(v.len() as int);
    let b = w.skip(v.len() as int);
    assert(a + b =~= w);
    lemma_removed_append(a, b, p, gs);
    assert forall|k: int| 0 <= k < v.len() implies if targeted(gs, v[k].0) {
        (#[trigger] a[k]).0 == v[k].0 && without(a[k].1, p) == v[k].1 && v[k].1.len() > 0
    } else {
        a[k] == v[k]
    } by {
        assert(a[k] == w[k]);
        if targeted(gs, v[k].0) {
            lemma_without_of_merge(v[k].1, p, w[k].1);
        }
    }
    lemma_removed_back(v, a, p, gs);
    lemma_fresh(group_names(v), gs);
    assert forall|k: int| 0 <= k < b.len() implies targeted(gs, (#[trigger] b[k]).0) && without(b[k].1, p).len() == 0 by {
        assert(b[k] == w[v.len() + k]);
        assert(f.contains(f[k]));
        assert(merge_result(Seq::empty(), p, w[v.len() + k].1));
        assert forall|n: Seq<char>| has_name(b[k].1, n) implies has_name(p, n) by {
            assert(has_name(b[k].1, n) <==> (has_name(Seq::<PackageView>::empty(), n) || has_name(p, n)));
        }
        lemma_without_all(b[k].1, p);
    }
    lemma_removed_gone(b, p, gs);
    assert(v + Seq::<GroupView>::empty() =~= v);
}

proof fn lemma_removed_from(w: Seq<GroupView>, p: Seq<PackageView>, gs: Seq<Seq<char>>)
    ensures
        forall|i: int| 0 <= i < removed(w, p, gs).len() ==> exists|k: int| 0 <= k < w.len() && (#[trigger] removed(w, p, gs)[i]).0 == w[k].0
            && (targeted(gs, w[k].0) ==> without(w[k].1, p).len() > 0),
    decreases w.len(),
{
    if w.len() > 0 {
        let d = w.drop_last();
        lemma_removed_from(d, p, gs);
        let r = removed(d, p, gs);
        let res = removed(w, p, gs);
        assert forall|i: int| 0 <= i < res.len() implies exists|k: int| 0 <= k < w.len() && (#[trigger] res[i]).0 == w[k].0
            && (targeted(gs, w[k].0) ==> without(w[k].1, p).len() > 0) by {
            if i < r.len() {
                assert(res[i] == r[i]);
                let k = choose|k: int| 0 <= k < d.len() && (#[trigger] r[i]).0 == d[k].0
                    && (targeted(gs, d[k].0) ==> without(d[k].1, p).len() > 0);
                assert(w[k] == d[k]);
            } else {
                assert(w[w.len() - 1] == w.last());
            }
        }
    }
}

/// A group that only the adding created is gone after removing the same
/// packages from the same groups.
pub proof fn lemma_created_group_dropped(
    v: Seq<GroupView>,
    p: Seq<PackageView>,
    gs: Seq<Seq<char>>,
    w: Seq<GroupView>,
    g: Seq<char>,
)
    requires
        add_result(v, p, gs, w),
        gs.contains(g),
        !group_names(v).contains(g),
        keys_unique(w),
    ensures
        !group_names(removed(w, p, gs)).contains(g),
{
    let res = removed(w, p, gs);
    let f = fresh(group_names(v), gs);
    lemma_removed_from(w, p, gs);
    lemma_fresh(group_names(v), gs);
    if group_names(res).contains(g) {
        let i = choose|i: int| 0 <= i < group_names(res).len() && group_names(res)[i] == g;
        assert(res[i].0 == g);
        let k = choose|k: int| 0 <= k < w.len() && (#[trigger] res[i]).0 == w[k].0
            && (targeted(gs, w[k].0) ==> without(w[k].1, p).len() > 0);
        if k < v.len() {
            assert(w[k].0 == v[k].0);
            assert(group_names(v)[k] == g);
        } else {
            let kk = k - v.len();
            assert(w[v.len() + kk].0 == f[kk]);
            assert(merge_result(Seq::empty(), p, w[v.len() + kk].1));
            assert forall|n: Seq<char>| has_name(w[k].1, n) implies has_name(p, n) by {
                assert(has_name(w[k].1, n) <==> (has_name(Seq::<PackageView>::empty(), n) || has_name(p, n)));
            }
            lemma_without_all(w[k].1, p);
        }
    }
}

} // verus!
