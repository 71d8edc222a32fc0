//! The text that lists the database, group by group.
use vstd::prelude::*;
use vstd::string::StringExecFns;

use crate::db::{GroupView, PackageDb, group_names, keys_unique, names_view};
use crate::types::{Package, PackageView, pkgs_view};

verus! {

/// One line per package: `|  name`, with `, AUR` for an external one.
pub open spec fn pkg_lines(s: Seq<PackageView>) -> Seq<char>
    decreases s.len(),
{
    if s.len() == 0 {
        Seq::empty()
    } else {
        pkg_lines(s.drop_last()) + "|  "@ + s.last().name + (if s.last().aur {
            ", AUR"@
        } else {
            Seq::<char>::empty()
        }) + "\n"@
    }
}

/// A header line with the group's name, its packages, and a blank line.
pub open spec fn group_text(e: GroupView) -> Seq<char> {
    e.0 + ": \n"@ + pkg_lines(e.1) + "\n"@
}

pub open spec fn db_text(v: Seq<GroupView>) -> Seq<char>
    decreases v.len(),
{
    if v.len() == 0 {
        Seq::empty()
    } else {
        db_text(v.drop_last()) + group_text(v.last())
    }
}

/// The packages of the group named `g`, if there is one.
pub open spec fn lookup(v: Seq<GroupView>, g: Seq<char>) -> Option<Seq<PackageView>>
    decreases v.len(),
{
    if v.len() == 0 {
        None
    } else if v[0].0 == g {
        Some(v[0].1)
    } else {
        lookup(v.drop_first(), g)
    }
}

/// The requested groups in the order requested, each followed by a newline,
/// skipping those that do not exist.
pub open spec fn requested_text(v: Seq<GroupView>, gs: Seq<Seq<char>>) -> Seq<char>
    decreases gs.len(),
{
    if gs.len() == 0 {
        Seq::empty()
    } else {
        requested_text(v, gs.drop_last()) + match lookup(v, gs.last()) {
            Some(l) => group_text((gs.last(), l)) + "\n"@,
            None => Seq::empty(),
        }
    }
}

proof fn lemma_lookup(v: Seq<GroupView>, g: Seq<char>)
    requires
        keys_unique(v),
    ensures
        forall|i: int| 0 <= i < v.len() && v[i].0 == g ==> lookup(v, g) == Some(#[trigger] v[i].1),
        !group_names(v).contains(g) ==> lookup(v, g) is None,
    decreases v.len(),
{
    if v.len() > 0 {
        let t = v.drop_first();
        assert forall|a: int, b: int| 0 <= a < b < t.len() implies t[a].0 != t[b].0 by {
            assert(t[a] == v[a + 1] && t[b] == v[b + 1]);
        }
        lemma_lookup(t, g);
        assert forall|i: int| 0 <= i < v.len() && v[i].0 == g implies lookup(v, g) == Some(#[trigger] v[i].1) by {
            if i > 0 {
                assert(t[i - 1] == v[i]);
            }
        }
        if !group_names(v).contains(g) {
            assert(group_names(v)[0] == v[0].0);
            if group_names(t).contains(g) {
                let k = choose|k: int| 0 <= k < group_names(t).len() && group_names(t)[k] == g;
                assert(group_names(v)[k + 1] == g);
            }
        }
    }
}

fn push_group_text(out: &mut String, name: &String, list: &Vec<Package>)
    ensures
        final(out)@ == old(out)@ + group_text((name@, pkgs_view(list@))),
{
    let ghost start = out@;
    out.append(name.as_str());
    out.append(": \n");
    let ghost header = out@;
    let ghost lv = pkgs_view(list@);
    let mut i: usize = 0;
    assert(lv.take(0) =~= Seq::<PackageView>::empty());
    assert(header + pkg_lines(lv.take(0)) =~= header);
    while i < list.len()
        invariant
            i <= list@.len(),
            lv == pkgs_view(list@),
            out@ == header + pkg_lines(lv.take(i as int)),
        decreases list@.len() - i,
    {
        assert(lv.take(i + 1).drop_last() =~= lv.take(i as int));
        assert(lv.take(i + 1).last() == list@[i as int]@);
        out.append("|  ");
        out.append(list[i].name.as_str());
        if list[i].aur {
            out.append(", AUR");
        }
        out.append("\n");
        assert(out@ =~= header + pkg_lines(lv.take(i + 1)));
        i = i + 1;
    }
    assert(lv.take(i as int) =~= lv);
    out.append("\n");
    assert(out@ =~= start + group_text((name@, lv)));
}

impl PackageDb {
    /// The whole database as text, group after group.
    pub fn to_text(&self) -> (r: String)
        ensures
            r@ == db_text(self@),
    {
        let ghost v = self@;
        let mut out = String::new();
        let mut i: usize = 0;
        assert(v.take(0) =~= Seq::<GroupView>::empty());
        while i < self.groups.len()
            invariant
                i <= v.len(),
                v == self@,
                out@ == db_text(v.take(i as int)),
            decreases v.len() - i,
        {
            assert(v.take(i + 1).drop_last() =~= v.take(i as int));
            assert(v.take(i + 1).last() == v[i as int]);
            push_group_text(&mut out, &self.groups[i].0, &self.groups[i].1);
            i = i + 1;
        }
        assert(v.take(i as int) =~= v);
        out
    }
}

/// What listing prints: the groups asked for, in that order and skipping
/// those that do not exist, or the whole database when none is asked for;
/// each printout ends in a newline of its own.
pub fn list_packages(db: &PackageDb, groups: &Vec<String>) -> (r: String)
    requires
        db.well_formed(),
    ensures
        groups@.len() == 0 ==> r@ == db_text(db@) + "\n"@,
        groups@.len() > 0 ==> r@ == requested_text(db@, names_view(groups@)),
{
    if groups.len() == 0 {
        let mut all = db.to_text();
        all.append("\n");
        return all;
    }
    let ghost v = db@;
    let ghost gs = names_view(groups@);
    let mut out = String::new();
    let mut j: usize = 0;
    assert(gs.take(0) =~= Seq::<Seq<char>>::empty());
    while j < groups.len()
        invariant
            j <= groups@.len(),
            v == db@,
            keys_unique(v),
            gs == names_view(groups@),
            out@ == requested_text(v, gs.take(j as int)),
        decreases groups@.len() - j,
    {
        assert(gs.take(j + 1).drop_last() =~= gs.take(j as int));
        assert(gs.take(j + 1).last() == groups@[j as int]@);
        proof {
            lemma_lookup(v, groups@[j as int]@);
        }
        let mut i: usize = 0;
        let mut found = false;
        while i < db.groups.len() && !found
            invariant
                i <= v.len(),
                v == db@,
                j < groups@.len(),
                keys_unique(v),
                gs == names_view(groups@),
                gs.take(j + 1).drop_last() == gs.take(j as int),
                gs.take(j + 1).last() == groups@[j as int]@,
                !found ==> forall|m: int| 0 <= m < i ==> v[m].0 != groups@[j as int]@,
                found ==> i > 0 && v[i - 1].0 == groups@[j as int]@
                    && out@ == requested_text(v, gs.take(j + 1)),
                !found ==> out@ == requested_text(v, gs.take(j as int)),
            decreases v.len() - i, if found { 0int } else { 1int },
        {
            proof {
                lemma_lookup(v, groups@[j as int]@);
            }
            if db.groups[i].0 == groups[j] {
                proof {
                    let g = groups@[j as int]@;
                    assert(v[i as int].1 == pkgs_view(db.groups@[i as int].1@));
                    assert(v[i as int].0 == g);
                    assert(lookup(v, g) == Some(v[i as int].1));
                    assert(requested_text(v, gs.take(j + 1)) == requested_text(v, gs.take(j as int))
                        + group_text((g, v[i as int].1)) + "\n"@);
                }
                push_group_text(&mut out, &groups[j], &db.groups[i].1);
                out.append("\n");
                found = true;
            }
            i = i + 1;
        }
        proof {
            if !found {
                let g = groups@[j as int]@;
                if group_names(v).contains(g) {
                    let k = choose|k: int| 0 <= k < group_names(v).len() && group_names(v)[k] == g;
                    assert(v[k].0 == g);
                }
                assert(out@ =~= requested_text(v, gs.take(j + 1)));
            }
        }
        j = j + 1;
    }
    assert(gs.take(j as int) =~= gs);
    out
}

} // verus!
