//! The data that an invocation works on: packages, the package database and
//! the requested operation.
use vstd::prelude::*;

verus! {

/// What a package is to the contracts: its name and whether it comes from
/// the external repository.
pub struct PackageView {
    pub name: Seq<char>,
    pub aur: bool,
}

/// One installable unit. Two packages are the same entity when their names
/// are equal; the origin tag is metadata.
#[derive(Debug, Clone)]
pub struct Package {
    pub name: String,
    pub aur: bool,
}

impl View for Package {
    type V = PackageView;

    open spec fn view(&self) -> PackageView {
        PackageView { name: self.name@, aur: self.aur }
    }
}

/// The views of a list of packages.
pub open spec fn pkgs_view(s: Seq<Package>) -> Seq<PackageView> {
    s.map_values(|p: Package| p@)
}

impl Package {
    pub fn new(name: &str, aur: bool) -> (r: Package)
        ensures
            r@ == (PackageView { name: name@, aur }),
    {
        Package { name: name.to_owned(), aur }
    }

    /// A copy with the same name and origin.
    pub fn duplicate(&self) -> (r: Package)
        ensures
            r@ == self@,
    {
        Package { name: self.name.clone(), aur: self.aur }
    }
}

/// Copies a list of packages.
pub fn duplicate_all(v: &Vec<Package>) -> (r: Vec<Package>)
    ensures
        pkgs_view(r@) == pkgs_view(v@),
{
    let mut r: Vec<Package> = Vec::new();
    let mut i: usize = 0;
    while i < v.len()
        invariant
            i <= v@.len(),
            r@.len() == i,
            forall|k: int| 0 <= k < i ==> r@[k]@ == v@[k]@,
        decreases v@.len() - i,
    {
        r.push(v[i].duplicate());
        i = i + 1;
    }
    assert(pkgs_view(r@) =~= pkgs_view(v@));
    r
}

/// The parsed command line.
pub struct Cli {
    /// The packages to operate on, by name.
    pub pkgs: Vec<String>,
    pub op: Operation,
    /// Whether the packages come from the external repository.
    pub aur: bool,
    pub db: DbOpts,
    pub verbose: bool,
    pub debug: bool,
}

/// The operation flags, of which exactly one is set.
pub struct Operation {
    pub sync: bool,
    pub remove: bool,
    pub list: bool,
    pub backup: Option<String>,
}

/// The database flags.
pub struct DbOpts {
    /// Record the effect of the operation in the database.
    pub save: bool,
    /// The groups to act on; none means every group.
    pub groups: Vec<String>,
    /// Only change the database, not the system.
    pub db_only: bool,
}

pub enum OpType {
    Sync,
    Remove,
    List,
    Backup(String),
}

impl OpType {
    /// The operation that the flags select, the first set of sync, remove,
    /// list and backup; none when no flag is set.
    pub fn from_operation(op: Operation) -> (r: Option<OpType>)
        ensures
            op.sync ==> r matches Some(OpType::Sync),
            !op.sync && op.remove ==> r matches Some(OpType::Remove),
            !op.sync && !op.remove && op.list ==> r matches Some(OpType::List),
            !op.sync && !op.remove && !op.list ==> match op.backup {
                Some(to) => r matches Some(OpType::Backup(t)) && t@ == to@,
                None => r is None,
            },
    {
        if op.sync {
            Some(OpType::Sync)
        } else if op.remove {
            Some(OpType::Remove)
        } else if op.list {
            Some(OpType::List)
        } else {
            match op.backup {
                Some(to) => Some(OpType::Backup(to)),
                None => None,
            }
        }
    }
}

} // verus!
