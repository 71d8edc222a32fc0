//! Sorted, duplicate-free package lists: merging new packages in, and
//! filtering packages out by name.
use vstd::prelude::*;

use crate::order::{name_lt, str_lt, lemma_str_lt_irreflexive, lemma_str_lt_total, lemma_str_lt_transitive, lemma_str_lt_asymmetric};
use crate::types::{Package, PackageView, pkgs_view};

verus! {

/// Names strictly ascend along the list, so no name occurs twice.
pub open spec fn sorted_unique(s: Seq<PackageView>) -> bool {
    forall|i: int, j: int| 0 <= i < j < s.len() ==> str_lt(s[i].name, s[j].name)
}

pub open spec fn has_name(s: Seq<PackageView>, n: Seq<char>) -> bool {
    exists|i: int| 0 <= i < s.len() && s[i].name == n
}

/// Puts `x` in its place in a sorted list; a package already listed under
/// the same name is kept and `x` dropped.
pub open spec fn insert_sorted(r: Seq<PackageView>, x: PackageView) -> Seq<PackageView>
    decreases r.len(),
{
    if r.len() == 0 {
        seq![x]
    } else if r[0].name == x.name {
        r
    } else if str_lt(x.name, r[0].name) {
        seq![x] + r
    } else {
        seq![r[0]] + insert_sorted(r.drop_first(), x)
    }
}

/// Inserts the packages of `s` one after another, first to last.
pub open spec fn insert_all(r: Seq<PackageView>, s: Seq<PackageView>) -> Seq<PackageView>
    decreases s.len(),
{
    if s.len() == 0 {
        r
    } else {
        insert_all(insert_sorted(r, s[0]), s.drop_first())
    }
}

/// A list with `pkgs` appended, sorted by name and with later duplicates
/// dropped: of two packages with one name, the earlier one stays.
pub open spec fn merged(list: Seq<PackageView>, pkgs: Seq<PackageView>) -> Seq<PackageView> {
    insert_all(Seq::empty(), list + pkgs)
}

/// The list without the packages whose name occurs in `pkgs`, order kept.
pub open spec fn without(s: Seq<PackageView>, pkgs: Seq<PackageView>) -> Seq<PackageView>
    decreases s.len(),
{
    if s.len() == 0 {
        s
    } else if has_name(pkgs, s.last().name) {
        without(s.drop_last(), pkgs)
    } else {
        without(s.drop_last(), pkgs).push(s.last())
    }
}

pub proof fn lemma_insert_sorted(r: Seq<PackageView>, x: PackageView)
    requires
        sorted_unique(r),
    ensures
        sorted_unique(insert_sorted(r, x)),
        forall|n: Seq<char>| has_name(insert_sorted(r, x), n) <==> (has_name(r, n) || n == x.name),
        forall|e: PackageView| insert_sorted(r, x).contains(e) ==> (r.contains(e) || e == x),
        has_name(r, x.name) ==> insert_sorted(r, x) == r,
    decreases r.len(),
{
    let res = insert_sorted(r, x);
    if r.len() == 0 {
        assert(res[0] == x);
    } else if r[0].name == x.name {
    } else if str_lt(x.name, r[0].name) {
        assert forall|i: int, j: int| 0 <= i < j < res.len() implies str_lt(res[i].name, res[j].name) by {
            if i == 0 {
                if j > 1 {
                    lemma_str_lt_transitive(x.name, r[0].name, r[j - 1].name);
                }
            } else {
                assert(res[i] == r[i - 1] && res[j] == r[j - 1]);
            }
        }
        assert forall|n: Seq<char>| has_name(res, n) <==> (has_name(r, n) || n == x.name) by {
            if has_name(r, n) {
                let k = choose|k: int| 0 <= k < r.len() && r[k].name == n;
                assert(res[k + 1] == r[k]);
            }
            if n == x.name {
                assert(res[0] == x);
            }
            if has_name(res, n) {
                let k = choose|k: int| 0 <= k < res.len() && res[k].name == n;
                if k > 0 {
                    assert(res[k] == r[k - 1]);
                }
            }
        }
        assert forall|e: PackageView| res.contains(e) implies (r.contains(e) || e == x) by {
            let k = choose|k: int| 0 <= k < res.len() && res[k] == e;
            if k > 0 {
                assert(res[k] == r[k - 1]);
            }
        }
        if has_name(r, x.name) {
            let k = choose|k: int| 0 <= k < r.len() && r[k].name == x.name;
            assert(k != 0);
            lemma_str_lt_transitive(x.name, r[0].name, r[k].name);
            lemma_str_lt_irreflexive(x.name);
        }
    } else {
        let t = r.drop_first();
        let rest = insert_sorted(t, x);
        lemma_insert_sorted(t, x);
        lemma_str_lt_total(x.name, r[0].name);
        assert(res == seq![r[0]] + rest);
        assert forall|i: int, j: int| 0 <= i < j < res.len() implies str_lt(res[i].name, res[j].name) by {
            if i == 0 {
                let e = rest[j - 1];
                assert(res[j] == e);
                assert(rest.contains(e));
                assert(t.contains(e) || e == x);
                if t.contains(e) {
                    let k = choose|k: int| 0 <= k < t.len() && t[k] == e;
                    assert(t[k] == r[k + 1]);
                }
            } else {
                assert(res[i] == rest[i - 1] && res[j] == rest[j - 1]);
            }
        }
        assert forall|n: Seq<char>| has_name(res, n) <==> (has_name(r, n) || n == x.name) by {
            if has_name(r, n) && n != r[0].name {
                let k = choose|k: int| 0 <= k < r.len() && r[k].name == n;
                assert(t[k - 1] == r[k]);
                assert(has_name(t, n));
                assert(has_name(rest, n));
            }
            if has_name(rest, n) {
                let k = choose|k: int| 0 <= k < rest.len() && rest[k].name == n;
                assert(res[k + 1] == rest[k]);
            }
            if has_name(t, n) {
                let k = choose|k: int| 0 <= k < t.len() && t[k].name == n;
                assert(r[k + 1] == t[k]);
            }
            if has_name(res, n) {
                let k = choose|k: int| 0 <= k < res.len() && res[k].name == n;
                if k > 0 {
                    assert(res[k] == rest[k - 1]);
                } else {
                    assert(res[0] == r[0]);
                }
            }
            assert(res[0] == r[0]);
        }
        assert forall|e: PackageView| res.contains(e) implies (r.contains(e) || e == x) by {
            let k = choose|k: int| 0 <= k < res.len() && res[k] == e;
            if k > 0 {
                assert(res[k] == rest[k - 1]);
                assert(rest.contains(e));
                assert(t.contains(e) || e == x);
                if t.contains(e) {
                    let m = choose|m: int| 0 <= m < t.len() && t[m] == e;
                    assert(r[m + 1] == e);
                }
            } else {
                assert(r[0] == e);
            }
        }
        if has_name(r, x.name) {
            let k = choose|k: int| 0 <= k < r.len() && r[k].name == x.name;
            assert(t[k - 1] == r[k]);
            assert(has_name(t, x.name));
            assert(res =~= r);
        }
    }
}

pub proof fn lemma_insert_all(r: Seq<PackageView>, s: Seq<PackageView>)
    requires
        sorted_unique(r),
    ensures
        sorted_unique(insert_all(r, s)),
        forall|n: Seq<char>| has_name(insert_all(r, s), n) <==> (has_name(r, n) || has_name(s, n)),
        forall|e: PackageView| insert_all(r, s).contains(e) ==> (r.contains(e) || s.contains(e)),
        (forall|i: int| 0 <= i < s.len() ==> has_name(r, #[trigger] s[i].name)) ==> insert_all(r, s) == r,
    decreases s.len(),
{
    if s.len() > 0 {
        let r1 = insert_sorted(r, s[0]);
        let t = s.drop_first();
        lemma_insert_sorted(r, s[0]);
        lemma_insert_all(r1, t);
        assert forall|n: Seq<char>| has_name(insert_all(r, s), n) <==> (has_name(r, n) || has_name(s, n)) by {
            if has_name(s, n) && n != s[0].name {
                let k = choose|k: int| 0 <= k < s.len() && s[k].name == n;
                assert(t[k - 1] == s[k]);
            }
            if has_name(t, n) {
                let k = choose|k: int| 0 <= k < t.len() && t[k].name == n;
                assert(s[k + 1] == t[k]);
            }
            if n == s[0].name {
                assert(has_name(r1, n));
            }
        }
        assert forall|e: PackageView| insert_all(r, s).contains(e) implies (r.contains(e) || s.contains(e)) by {
            assert(r1.contains(e) || t.contains(e));
            if r1.contains(e) {
                assert(r.contains(e) || e == s[0]);
            }
            if t.contains(e) {
                let k = choose|k: int| 0 <= k < t.len() && t[k] == e;
                assert(s[k + 1] == e);
            }
        }
        if forall|i: int| 0 <= i < s.len() ==> has_name(r, #[trigger] s[i].name) {
            assert(has_name(r, s[0].name));
            assert forall|i: int| 0 <= i < t.len() implies has_name(r1, #[trigger] t[i].name) by {
                assert(t[i] == s[i + 1]);
            }
        }
    }
}

/// Inserting the packages of `a + b` is inserting those of `a`, then those of `b`.
pub proof fn lemma_insert_all_append(r: Seq<PackageView>, a: Seq<PackageView>, b: Seq<PackageView>)
    ensures
        insert_all(r, a + b) == insert_all(insert_all(r, a), b),
    decreases a.len(),
{
    if a.len() > 0 {
        assert((a + b).drop_first() =~= a.drop_first() + b);
        assert((a + b)[0] == a[0]);
        lemma_insert_all_append(insert_sorted(r, a[0]), a.drop_first(), b);
    } else {
        assert(a + b =~= b);
    }
}

/// What filtering keeps: exactly the packages whose name is not filtered out.
pub proof fn lemma_without_contains(s: Seq<PackageView>, p: Seq<PackageView>)
    ensures
        forall|e: PackageView| #[trigger] without(s, p).contains(e) <==> (s.contains(e) && !has_name(p, e.name)),
        (forall|i: int| 0 <= i < s.len() ==> !has_name(p, #[trigger] s[i].name)) ==> without(s, p) == s,
    decreases s.len(),
{
    if s.len() > 0 {
        let d = s.drop_last();
        lemma_without_contains(d, p);
        assert(s.last() == s[s.len() - 1]);
        assert(without(s, p) == if has_name(p, s.last().name) {
            without(d, p)
        } else {
            without(d, p).push(s.last())
        });
        assert forall|e: PackageView| #[trigger] without(s, p).contains(e) <==> (s.contains(e) && !has_name(p, e.name)) by {
            if s.contains(e) {
                let k = choose|k: int| 0 <= k < s.len() && s[k] == e;
                if k < s.len() - 1 {
                    assert(d[k] == e);
                }
            }
            if d.contains(e) {
                let k = choose|k: int| 0 <= k < d.len() && d[k] == e;
                assert(s[k] == e);
            }
            if !has_name(p, s.last().name) {
                let w = without(d, p);
                if w.push(s.last()).contains(e) {
                    let k = choose|k: int| 0 <= k < w.len() + 1 && w.push(s.last())[k] == e;
                    if k < w.len() {
                        assert(w[k] == e);
                    }
                }
                if w.contains(e) {
                    let k = choose|k: int| 0 <= k < w.len() && w[k] == e;
                    assert(w.push(s.last())[k] == e);
                }
                assert(w.push(s.last())[w.len() as int] == s.last());
            }
        }
        if forall|i: int| 0 <= i < s.len() ==> !has_name(p, #[trigger] s[i].name) {
            assert(!has_name(p, s[s.len() - 1].name));
            assert forall|i: int| 0 <= i < d.len() implies !has_name(p, #[trigger] d[i].name) by {
                assert(d[i] == s[i]);
            }
            assert(d.push(s.last()) =~= s);
        }
    }
}

pub open spec fn names_of(s: Seq<PackageView>) -> Seq<Seq<char>> {
    s.map_values(|e: PackageView| e.name)
}

/// `new` is `list` with `pkgs` merged in: sorted by name with no name twice,
/// holding exactly the names of both, each entry taken from one of them.
/// Which of two packages with one name stays is left open.
pub open spec fn merge_result(list: Seq<PackageView>, pkgs: Seq<PackageView>, new: Seq<PackageView>) -> bool {
    &&& sorted_unique(new)
    &&& forall|n: Seq<char>| has_name(new, n) <==> (has_name(list, n) || has_name(pkgs, n))
    &&& forall|e: PackageView| new.contains(e) ==> (list.contains(e) || pkgs.contains(e))
}

pub proof fn lemma_merged_result(list: Seq<PackageView>, pkgs: Seq<PackageView>)
    ensures
        merge_result(list, pkgs, merged(list, pkgs)),
{
    let all = list + pkgs;
    lemma_insert_all(Seq::empty(), all);
    assert forall|n: Seq<char>| has_name(all, n) <==> (has_name(list, n) || has_name(pkgs, n)) by {
        if has_name(all, n) {
            let k = choose|k: int| 0 <= k < all.len() && all[k].name == n;
            if k < list.len() {
                assert(list[k] == all[k]);
            } else {
                assert(pkgs[k - list.len()] == all[k]);
            }
        }
        if has_name(list, n) {
            let k = choose|k: int| 0 <= k < list.len() && list[k].name == n;
            assert(all[k] == list[k]);
        }
        if has_name(pkgs, n) {
            let k = choose|k: int| 0 <= k < pkgs.len() && pkgs[k].name == n;
            assert(all[list.len() + k] == pkgs[k]);
        }
    }
    assert forall|e: PackageView| all.contains(e) implies (list.contains(e) || pkgs.contains(e)) by {
        let k = choose|k: int| 0 <= k < all.len() && all[k] == e;
        if k < list.len() {
            assert(list[k] == e);
        } else {
            assert(pkgs[k - list.len()] == e);
        }
    }
    assert forall|n: Seq<char>| has_name(merged(list, pkgs), n) <==> (has_name(list, n) || has_name(pkgs, n)) by {
        assert(has_name(merged(list, pkgs), n) <==> (has_name(Seq::<PackageView>::empty(), n) || has_name(all, n)));
    }
    assert forall|e: PackageView| merged(list, pkgs).contains(e) implies (list.contains(e) || pkgs.contains(e)) by {
        assert(Seq::<PackageView>::empty().contains(e) || all.contains(e));
    }
}

/// Two sorted lists with no name twice and the same names list them in the
/// same order.
pub proof fn lemma_sorted_same_names(a: Seq<PackageView>, b: Seq<PackageView>)
    requires
        sorted_unique(a),
        sorted_unique(b),
        forall|n: Seq<char>| has_name(a, n) <==> has_name(b, n),
    ensures
        names_of(a) == names_of(b),
    decreases a.len(),
{
    if a.len() == 0 {
        if b.len() > 0 {
            assert(has_name(b, b[0].name));
        }
        assert(names_of(a) =~= names_of(b));
    } else {
        assert(has_name(a, a[0].name));
        let j = choose|j: int| 0 <= j < b.len() && b[j].name == a[0].name;
        assert(has_name(b, b[0].name));
        let i = choose|i: int| 0 <= i < a.len() && a[i].name == b[0].name;
        if j > 0 {
            if i > 0 {
                lemma_str_lt_asymmetric(a[0].name, a[i].name);
            } else {
                lemma_str_lt_irreflexive(a[0].name);
            }
        }
        assert(a[0].name == b[0].name);
        let ta = a.drop_first();
        let tb = b.drop_first();
        assert forall|n: Seq<char>| has_name(ta, n) <==> has_name(tb, n) by {
            if has_name(ta, n) {
                let k = choose|k: int| 0 <= k < ta.len() && ta[k].name == n;
                assert(a[k + 1].name == n);
                assert(has_name(b, n));
                let m = choose|m: int| 0 <= m < b.len() && b[m].name == n;
                if m == 0 {
                    lemma_str_lt_irreflexive(n);
                }
                assert(tb[m - 1] == b[m]);
            }
            if has_name(tb, n) {
                let k = choose|k: int| 0 <= k < tb.len() && tb[k].name == n;
                assert(b[k + 1].name == n);
                assert(has_name(a, n));
                let m = choose|m: int| 0 <= m < a.len() && a[m].name == n;
                if m == 0 {
                    lemma_str_lt_irreflexive(n);
                }
                assert(ta[m - 1] == a[m]);
            }
        }
        assert forall|x: int, y: int| 0 <= x < y < ta.len() implies str_lt(ta[x].name, ta[y].name) by {
            assert(ta[x] == a[x + 1] && ta[y] == a[y + 1]);
        }
        assert forall|x: int, y: int| 0 <= x < y < tb.len() implies str_lt(tb[x].name, tb[y].name) by {
            assert(tb[x] == b[x + 1] && tb[y] == b[y + 1]);
        }
        lemma_sorted_same_names(ta, tb);
        assert(names_of(a) =~= seq![a[0].name] + names_of(ta));
        assert(names_of(b) =~= seq![b[0].name] + names_of(tb));
    }
}

/// Whether a package of the list has the given name.
pub fn contains_name(pkgs: &Vec<Package>, name: &String) -> (r: bool)
    ensures
        r == has_name(pkgs_view(pkgs@), name@),
{
    let mut i: usize = 0;
    while i < pkgs.len()
        invariant
            i <= pkgs@.len(),
            forall|k: int| 0 <= k < i ==> pkgs@[k].name@ != name@,
        decreases pkgs@.len() - i,
    {
        if pkgs[i].name == *name {
            assert(pkgs_view(pkgs@)[i as int].name == name@);
            return true;
        }
        i = i + 1;
    }
    proof {
        if has_name(pkgs_view(pkgs@), name@) {
            let k = choose|k: int| 0 <= k < pkgs_view(pkgs@).len() && pkgs_view(pkgs@)[k].name == name@;
            assert(pkgs@[k].name@ == name@);
        }
    }
    false
}

fn insert_package(list: &mut Vec<Package>, x: Package)
    ensures
        pkgs_view(final(list)@) == insert_sorted(pkgs_view(old(list)@), x@),
{
    let ghost v = pkgs_view(list@);
    let mut i: usize = 0;
    assert(v.skip(0) =~= v);
    while i < list.len() && name_lt(list[i].name.as_str(), x.name.as_str())
        invariant
            i <= list@.len(),
            v == pkgs_view(list@),
            insert_sorted(v, x@) == v.take(i as int) + insert_sorted(v.skip(i as int), x@),
        decreases list@.len() - i,
    {
        proof {
            let t = v.skip(i as int);
            assert(t[0] == v[i as int]);
            lemma_str_lt_irreflexive(x@.name);
            lemma_str_lt_asymmetric(v[i as int].name, x@.name);
            assert(t.drop_first() =~= v.skip(i + 1));
            assert(v.take(i as int) + (seq![v[i as int]] + insert_sorted(v.skip(i + 1), x@))
                =~= v.take(i + 1) + insert_sorted(v.skip(i + 1), x@));
        }
        i = i + 1;
    }
    if i < list.len() && list[i].name == x.name {
        assert(v.take(i as int) + v.skip(i as int) =~= v);
        return;
    }
    proof {
        if i < list@.len() {
            lemma_str_lt_total(x@.name, v[i as int].name);
        }
    }
    list.insert(i, x);
    assert(pkgs_view(list@) =~= v.take(i as int) + (seq![x@] + v.skip(i as int)));
}

fn insert_packages(r: &mut Vec<Package>, s: &Vec<Package>)
    ensures
        pkgs_view(final(r)@) == insert_all(pkgs_view(old(r)@), pkgs_view(s@)),
{
    let ghost sv = pkgs_view(s@);
    let mut i: usize = 0;
    assert(sv.skip(0) =~= sv);
    while i < s.len()
        invariant
            i <= s@.len(),
            sv == pkgs_view(s@),
            insert_all(pkgs_view(old(r)@), sv) == insert_all(pkgs_view(r@), sv.skip(i as int)),
        decreases s@.len() - i,
    {
        proof {
            assert(sv.skip(i as int)[0] == s@[i as int]@);
            assert(sv.skip(i as int).drop_first() =~= sv.skip(i + 1));
        }
        insert_package(r, s[i].duplicate());
        i = i + 1;
    }
    assert(sv.skip(i as int) =~= Seq::<PackageView>::empty());
}

/// The merged list of `list` and `pkgs`: sorted by name, each name once.
pub(crate) fn merge_packages(list: &Vec<Package>, pkgs: &Vec<Package>) -> (r: Vec<Package>)
    ensures
        pkgs_view(r@) == merged(pkgs_view(list@), pkgs_view(pkgs@)),
{
    let mut r: Vec<Package> = Vec::new();
    assert(pkgs_view(r@) =~= Seq::<PackageView>::empty());
    insert_packages(&mut r, list);
    insert_packages(&mut r, pkgs);
    proof {
        lemma_insert_all_append(Seq::empty(), pkgs_view(list@), pkgs_view(pkgs@));
    }
    r
}

/// The list without the packages whose name occurs in `pkgs`.
pub fn filter_packages(list: &Vec<Package>, pkgs: &Vec<Package>) -> (r: Vec<Package>)
    ensures
        pkgs_view(r@) == without(pkgs_view(list@), pkgs_view(pkgs@)),
{
    let ghost lv = pkgs_view(list@);
    let mut r: Vec<Package> = Vec::new();
    let mut i: usize = 0;
    assert(lv.take(0) =~= Seq::<PackageView>::empty());
    assert(pkgs_view(r@) =~= Seq::<PackageView>::empty());
    while i < list.len()
        invariant
            i <= list@.len(),
            lv == pkgs_view(list@),
            pkgs_view(r@) == without(lv.take(i as int), pkgs_view(pkgs@)),
        decreases list@.len() - i,
    {
        assert(lv.take(i + 1).drop_last() =~= lv.take(i as int));
        assert(lv.take(i + 1).last() == list@[i as int]@);
        if !contains_name(pkgs, &list[i].name) {
            r.push(list[i].duplicate());
            assert(pkgs_view(r@) =~= without(lv.take(i as int), pkgs_view(pkgs@)).push(list@[i as int]@));
        }
        i = i + 1;
    }
    assert(lv.take(i as int) =~= lv);
    r
}

} // verus!
