//! Deciding what an invocation acts on and how it proceeds: the target
//! packages, the privilege rules, the confirmation gate, the database update
//! and the repair command after a failed save.
use vstd::prelude::*;
use vstd::string::StringExecFns;

use crate::db::{GroupView, PackageDb, add_result, names_view, removed, targeted};
use crate::error::AppError;
use crate::merge::{has_name, insert_all, lemma_insert_all, merge_packages, merged, sorted_unique};
use crate::types::{OpType, Package, PackageView, duplicate_all, pkgs_view};

verus! {

pub const ROOT_BUILD_DENIED: &'static str =
    "Running makepkg as root is not allowed as it can cause permanent, catastrophic damage to your system.";

pub const NOT_ROOT_DENIED: &'static str = "You cannot perform this operation unless you are root.";

/// Packages of the given names, all with the one origin.
pub open spec fn named_pkgs(names: Seq<Seq<char>>, aur: bool) -> Seq<PackageView> {
    names.map_values(|n: Seq<char>| PackageView { name: n, aur })
}

/// The packages that explicit names stand for: one per distinct name,
/// sorted by name, each with the origin `aur`.
pub fn explicit_packages(names: &Vec<String>, aur: bool) -> (r: Vec<Package>)
    ensures
        sorted_unique(pkgs_view(r@)),
        forall|n: Seq<char>| has_name(pkgs_view(r@), n) <==> names_view(names@).contains(n),
        forall|i: int| 0 <= i < r@.len() ==> (#[trigger] r@[i]).aur == aur,
{
    let mut pkgs: Vec<Package> = Vec::new();
    let mut i: usize = 0;
    while i < names.len()
        invariant
            i <= names@.len(),
            pkgs@.len() == i,
            forall|k: int| 0 <= k < i ==> #[trigger] pkgs@[k]@ == (PackageView { name: names@[k]@, aur }),
        decreases names@.len() - i,
    {
        pkgs.push(Package::new(names[i].as_str(), aur));
        i = i + 1;
    }
    let empty: Vec<Package> = Vec::new();
    let r = merge_packages(&empty, &pkgs);
    proof {
        let np = named_pkgs(names_view(names@), aur);
        assert(pkgs_view(pkgs@) =~= np);
        assert(pkgs_view(empty@) =~= Seq::<PackageView>::empty());
        assert(Seq::<PackageView>::empty() + np =~= np);
        lemma_insert_all(Seq::empty(), np);
        assert(merged(Seq::empty(), np) == insert_all(Seq::empty(), np));
        assert forall|n: Seq<char>| has_name(np, n) <==> names_view(names@).contains(n) by {
            if names_view(names@).contains(n) {
                let k = choose|k: int| 0 <= k < names@.len() && names_view(names@)[k] == n;
                assert(np[k].name == n);
            }
            if has_name(np, n) {
                let k = choose|k: int| 0 <= k < np.len() && np[k].name == n;
                assert(names_view(names@)[k] == n);
            }
        }
        assert forall|n: Seq<char>| has_name(pkgs_view(r@), n) <==> names_view(names@).contains(n) by {
            assert(has_name(pkgs_view(r@), n) <==> (has_name(Seq::<PackageView>::empty(), n) || has_name(np, n)));
        }
        assert forall|i: int| 0 <= i < r@.len() implies (#[trigger] r@[i]).aur == aur by {
            let rv = pkgs_view(r@);
            assert(rv.contains(rv[i]));
            assert(np.contains(rv[i]));
        }
    }
    r
}

/// Where the target packages come from.
pub enum Targets {
    /// The packages named on the command line.
    Explicit(Vec<Package>),
    /// No package was named: the targets are read from the database.
    FromDb,
}

/// Explicit packages are the targets as they are; with none, the database
/// must be read, and nothing else decides that.
pub fn use_db_pkgs_if_empty(pkgs: Vec<Package>) -> (r: Targets)
    ensures
        pkgs@.len() > 0 ==> (r matches Targets::Explicit(v) && v@ == pkgs@),
        pkgs@.len() == 0 ==> r is FromDb,
{
    if pkgs.len() > 0 {
        Targets::Explicit(pkgs)
    } else {
        Targets::FromDb
    }
}

/// The packages of the targeted groups, group after group, as listed.
pub open spec fn db_packages(v: Seq<GroupView>, gs: Seq<Seq<char>>) -> Seq<PackageView>
    decreases v.len(),
{
    if v.len() == 0 {
        Seq::empty()
    } else if targeted(gs, v.last().0) {
        db_packages(v.drop_last(), gs) + v.last().1
    } else {
        db_packages(v.drop_last(), gs)
    }
}

/// The targets read from the database: every package of the named groups,
/// or of all groups when none is named; marked as taken from the database.
pub fn use_db_pkgs(db: &PackageDb, groups: &Vec<String>) -> (r: (Vec<Package>, bool))
    ensures
        pkgs_view(r.0@) == db_packages(db@, names_view(groups@)),
        r.1,
{
    let ghost v = db@;
    let ghost gs = names_view(groups@);
    let mut out: Vec<Package> = Vec::new();
    let mut i: usize = 0;
    assert(pkgs_view(out@) =~= Seq::<PackageView>::empty());
    assert(v.take(0) =~= Seq::<GroupView>::empty());
    while i < db.groups.len()
        invariant
            i <= v.len(),
            v == db@,
            gs == names_view(groups@),
            pkgs_view(out@) == db_packages(v.take(i as int), gs),
        decreases v.len() - i,
    {
        assert(v.take(i + 1).drop_last() =~= v.take(i as int));
        assert(v.take(i + 1).last() == v[i as int]);
        let name = &db.groups[i].0;
        if groups.len() == 0 || contains_str(groups, name) {
            let mut more = duplicate_all(&db.groups[i].1);
            let ghost before = out@;
            out.append(&mut more);
            assert(pkgs_view(out@) =~= pkgs_view(before) + v[i as int].1);
        }
        i = i + 1;
    }
    assert(v.take(i as int) =~= v);
    (out, true)
}

/// The targets once the database was read for them: a failed read is the
/// invocation's error, as it came; else every package of the targeted groups.
pub fn targets_from_db(read: Result<PackageDb, AppError>, groups: &Vec<String>) -> (r: Result<(Vec<Package>, bool), AppError>)
    ensures
        match read {
            Err(e) => r == Err::<(Vec<Package>, bool), AppError>(e),
            Ok(db) => r matches Ok(t) && pkgs_view(t.0@) == db_packages(db@, names_view(groups@)) && t.1,
        },
{
    match read {
        Err(e) => Err(e),
        Ok(db) => Ok(use_db_pkgs(&db, groups)),
    }
}

fn contains_str(gs: &Vec<String>, g: &String) -> (r: bool)
    ensures
        r == names_view(gs@).contains(g@),
{
    let mut k: usize = 0;
    while k < gs.len()
        invariant
            k <= gs@.len(),
            forall|m: int| 0 <= m < k ==> gs@[m]@ != g@,
        decreases gs@.len() - k,
    {
        if gs[k] == *g {
            assert(names_view(gs@)[k as int] == g@);
            return true;
        }
        k = k + 1;
    }
    proof {
        if names_view(gs@).contains(g@) {
            let m = choose|m: int| 0 <= m < gs@.len() && names_view(gs@)[m] == g@;
            assert(gs@[m]@ == g@);
        }
    }
    false
}

/// Building external packages as root is refused.
pub open spec fn root_build_refused(op: OpType, aur: bool, is_root: bool, debug: bool, db_only: bool) -> bool {
    !debug && !db_only && aur && is_root && op is Sync
}

/// Installing or removing native packages needs root.
pub open spec fn root_required(op: OpType, aur: bool, is_root: bool, debug: bool, db_only: bool) -> bool {
    !debug && !db_only && !aur && !is_root && (op is Sync || op is Remove)
}

/// The privilege rules for an operation, checked before anything runs.
pub fn check_privileges(op: &OpType, aur: bool, is_root: bool, debug: bool, db_only: bool) -> (r: Result<(), AppError>)
    ensures
        root_build_refused(*op, aur, is_root, debug, db_only) ==> (r matches Err(AppError::AclError(m))
            && m@ == ROOT_BUILD_DENIED@),
        root_required(*op, aur, is_root, debug, db_only) ==> (r matches Err(AppError::AclError(m))
            && m@ == NOT_ROOT_DENIED@),
        !root_build_refused(*op, aur, is_root, debug, db_only) && !root_required(*op, aur, is_root, debug, db_only)
            ==> r is Ok,
{
    let system_op = match op {
        OpType::Sync => true,
        OpType::Remove => true,
        _ => false,
    };
    if debug || db_only || !system_op {
        return Ok(());
    }
    let is_sync = match op {
        OpType::Sync => true,
        _ => false,
    };
    if aur && is_root && is_sync {
        Err(AppError::AclError(String::from_str(ROOT_BUILD_DENIED)))
    } else if !aur && !is_root {
        Err(AppError::AclError(String::from_str(NOT_ROOT_DENIED)))
    } else {
        Ok(())
    }
}

/// Targets read from the database are confirmed before the system is changed.
pub fn needs_confirmation(db_only: bool, sourced_from_db: bool) -> (r: bool)
    ensures
        r == (!db_only && sourced_from_db),
{
    !db_only && sourced_from_db
}

/// Only an answer of `y` or `Y` goes ahead.
pub fn confirmation_accepted(input: Option<u8>) -> (r: bool)
    ensures
        r == (input == Some(121u8) || input == Some(89u8)),
{
    match input {
        Some(b) => b == 121u8 || b == 89u8,
        None => false,
    }
}

/// The word for what the operation does to the system.
pub open spec fn action_word(op: OpType) -> Seq<char> {
    if op is Sync {
        "install"@
    } else {
        "remove"@
    }
}

/// The question asked before acting on packages read from the database.
pub fn confirmation_prompt(op: &OpType) -> (r: String)
    ensures
        r@ == "This will "@ + action_word(*op) + " many packages. Do you want to continue? [y/N]"@,
{
    let mut s = String::from_str("This will ");
    match op {
        OpType::Sync => s.append("install"),
        _ => s.append("remove"),
    }
    s.append(" many packages. Do you want to continue? [y/N]");
    s
}

/// The database after a successful operation: synced packages are added,
/// removed ones removed; other operations leave it as it is.
pub fn update_pkgdb(db: &mut PackageDb, pkgs: Vec<Package>, op: &OpType, groups: Vec<String>)
    requires
        old(db).well_formed(),
    ensures
        final(db).well_formed(),
        op is Sync ==> add_result(old(db)@, pkgs_view(pkgs@), names_view(groups@), final(db)@),
        op is Remove ==> final(db)@ == removed(old(db)@, pkgs_view(pkgs@), names_view(groups@)),
        !(op is Sync) && !(op is Remove) ==> final(db)@ == old(db)@,
{
    match op {
        OpType::Sync => db.add(pkgs, groups),
        OpType::Remove => db.remove(pkgs, groups),
        _ => {},
    }
}

/// The command-line flag of an operation that changes the system.
pub open spec fn op_flag(op: OpType) -> Seq<char> {
    match op {
        OpType::Sync => "-S"@,
        OpType::Remove => "-R"@,
        _ => Seq::empty(),
    }
}

/// Items separated by `sep`.
pub open spec fn joined(ns: Seq<Seq<char>>, sep: Seq<char>) -> Seq<char>
    decreases ns.len(),
{
    if ns.len() == 0 {
        Seq::empty()
    } else if ns.len() == 1 {
        ns[0]
    } else {
        joined(ns.drop_last(), sep) + sep + ns.last()
    }
}

/// The group option of a command line: none when no group is named.
pub open spec fn group_option(gs: Seq<Seq<char>>) -> Seq<char> {
    if gs.len() == 0 {
        Seq::empty()
    } else {
        " -G "@ + joined(gs, ","@)
    }
}

fn append_joined(s: &mut String, items: &Vec<String>, sep: &str)
    ensures
        final(s)@ == old(s)@ + joined(names_view(items@), sep@),
{
    let ghost prefix = s@;
    let ghost ns = names_view(items@);
    let mut i: usize = 0;
    assert(prefix + joined(ns.take(0), sep@) =~= prefix);
    while i < items.len()
        invariant
            i <= items@.len(),
            ns == names_view(items@),
            s@ == prefix + joined(ns.take(i as int), sep@),
        decreases items@.len() - i,
    {
        assert(ns.take(i + 1).drop_last() =~= ns.take(i as int));
        assert(ns.take(i + 1).last() == items@[i as int]@);
        if i > 0 {
            s.append(sep);
        }
        s.append(items[i].as_str());
        proof {
            if i == 0 {
                assert(ns.take(1)[0] == items@[0]@);
            }
        }
        assert(s@ =~= prefix + joined(ns.take(i + 1), sep@));
        i = i + 1;
    }
    assert(ns.take(i as int) =~= ns);
}

/// The command that repeats the operation, with the same packages and
/// groups, on the database alone: for when the system was changed but the
/// database could not be saved.
pub fn recovery_command(op: &OpType, names: &Vec<String>, groups: &Vec<String>) -> (r: String)
    ensures
        r@ == "raurman "@ + op_flag(*op) + " "@ + joined(names_view(names@), " "@) + " --save"@
            + group_option(names_view(groups@)) + " --db-only"@,
{
    let mut s = String::from_str("raurman ");
    match op {
        OpType::Sync => s.append("-S"),
        OpType::Remove => s.append("-R"),
        _ => {},
    }
    s.append(" ");
    append_joined(&mut s, names, " ");
    s.append(" --save");
    if groups.len() > 0 {
        s.append(" -G ");
        append_joined(&mut s, groups, ",");
    }
    s.append(" --db-only");
    s
}

/// Where the database file lies under a home directory.
pub open spec fn pkgdb_file_under(home: Seq<char>) -> Seq<char> {
    home + "/.config/raurman/pkgdb.json"@
}

/// The database path: under the home of the user who elevated, when there
/// is one, else under `home`; none when neither is known.
pub fn pkgdb_path(sudo_user: Option<String>, home: Option<String>) -> (r: Option<String>)
    ensures
        sudo_user matches Some(u) ==> (r matches Some(p) && p@ == pkgdb_file_under("/home/"@ + u@)),
        sudo_user is None ==> (home matches Some(h) ==> (r matches Some(p) && p@ == pkgdb_file_under(h@))),
        sudo_user is None && home is None ==> r is None,
{
    let dir = match sudo_user {
        Some(user) => {
            let mut d = String::from_str("/home/");
            d.append(user.as_str());
            d
        },
        None => match home {
            Some(h) => h,
            None => return None,
        },
    };
    let mut path = dir;
    path.append("/.config/raurman/pkgdb.json");
    Some(path)
}

} // verus!
