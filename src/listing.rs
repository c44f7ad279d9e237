use vstd::prelude::*;

use crate::error::{FsError, PathFault};
use crate::path::{final_component_of, name};

verus! {

broadcast use vstd::seq_lib::group_to_multiset_ensures;

/// Code-point lexicographic order on names: neither locale-aware nor case-folding.
/// A proper prefix comes before the longer name.
pub open spec fn name_lt(a: Seq<char>, b: Seq<char>) -> bool
    decreases a.len(),
{
    if a.len() == 0 {
        b.len() > 0
    } else if b.len() == 0 {
        false
    } else if a[0] != b[0] {
        (a[0] as int) < (b[0] as int)
    } else {
        name_lt(a.drop_first(), b.drop_first())
    }
}

/// A directory entry as the contracts see it: its name and whether it is a directory.
pub type EntryView = (Seq<char>, bool);

/// The listing order: every directory before every file, and within each
/// group by name.
pub open spec fn entry_precedes(a: EntryView, b: EntryView) -> bool {
    (a.1 && !b.1) || (a.1 == b.1 && name_lt(a.0, b.0))
}

pub open spec fn entry_le(a: EntryView, b: EntryView) -> bool {
    a == b || entry_precedes(a, b)
}

pub open spec fn entry_view(e: (String, bool)) -> EntryView {
    (e.0@, e.1)
}

pub open spec fn listing_view(s: Seq<(String, bool)>) -> Seq<EntryView> {
    s.map_values(|e: (String, bool)| entry_view(e))
}

/// Each entry is at or before every later one.
pub open spec fn in_listing_order(s: Seq<EntryView>) -> bool {
    forall|i: int, j: int| 0 <= i < j < s.len() ==> #[trigger] entry_le(s[i], s[j])
}

proof fn lemma_name_lt_irreflexive(a: Seq<char>)
    ensures
        !name_lt(a, a),
    decreases a.len(),
{
    if a.len() > 0 {
        lemma_name_lt_irreflexive(a.drop_first());
    }
}

proof fn lemma_name_lt_transitive(a: Seq<char>, b: Seq<char>, c: Seq<char>)
    requires
        name_lt(a, b),
        name_lt(b, c),
    ensures
        name_lt(a, c),
    decreases a.len(),
{
    if a.len() > 0 && b.len() > 0 && c.len() > 0 {
        if a[0] == b[0] && b[0] == c[0] {
            lemma_name_lt_transitive(a.drop_first(), b.drop_first(), c.drop_first());
        }
    }
}

proof fn lemma_name_lt_total(a: Seq<char>, b: Seq<char>)
    requires
        a != b,
    ensures
        name_lt(a, b) || name_lt(b, a),
    decreases a.len(),
{
    if a.len() > 0 && b.len() > 0 {
        if a[0] == b[0] {
            if a.drop_first() == b.drop_first() {
                assert(a =~= seq![a[0]] + a.drop_first());
                assert(b =~= seq![b[0]] + b.drop_first());
            }
            lemma_name_lt_total(a.drop_first(), b.drop_first());
        } else {
            assert((a[0] as int) != (b[0] as int));
        }
    } else if a.len() == 0 && b.len() == 0 {
        assert(a =~= b);
    }
}

proof fn lemma_name_lt_asymmetric(a: Seq<char>, b: Seq<char>)
    requires
        name_lt(a, b),
    ensures
        !name_lt(b, a),
{
    if name_lt(b, a) {
        lemma_name_lt_transitive(a, b, a);
        lemma_name_lt_irreflexive(a);
    }
}

/// `entry_precedes` is a strict total order.
proof fn lemma_entry_order(a: EntryView, b: EntryView, c: EntryView)
    ensures
        !entry_precedes(a, a),
        entry_precedes(a, b) ==> !entry_precedes(b, a),
        a != b ==> entry_precedes(a, b) || entry_precedes(b, a),
        entry_precedes(a, b) && entry_precedes(b, c) ==> entry_precedes(a, c),
{
    lemma_name_lt_irreflexive(a.0);
    if name_lt(a.0, b.0) {
        lemma_name_lt_asymmetric(a.0, b.0);
    }
    if a != b && a.1 == b.1 {
        lemma_name_lt_total(a.0, b.0);
    }
    if name_lt(a.0, b.0) && name_lt(b.0, c.0) {
        lemma_name_lt_transitive(a.0, b.0, c.0);
    }
}

/// In a listing in listing order every directory comes before every file,
/// and within each group the names ascend.
pub proof fn lemma_directories_first(s: Seq<EntryView>)
    requires
        in_listing_order(s),
    ensures
        forall|i: int, j: int| 0 <= i < j < s.len() && #[trigger] s[j].1 ==> #[trigger] s[i].1,
        forall|i: int, j: int|
            0 <= i < j < s.len() && s[i].1 == s[j].1 ==> #[trigger] s[i].0 == #[trigger] s[j].0
                || name_lt(s[i].0, s[j].0),
{
    assert forall|i: int, j: int| 0 <= i < j < s.len() && #[trigger] s[j].1 implies #[trigger] s[i].1 by {
        assert(entry_le(s[i], s[j]));
    };
    assert forall|i: int, j: int| 0 <= i < j < s.len() && s[i].1 == s[j].1 implies #[trigger] s[i].0
        == #[trigger] s[j].0 || name_lt(s[i].0, s[j].0) by {
        assert(entry_le(s[i], s[j]));
    };
}

proof fn lemma_first_is_least(s: Seq<EntryView>, x: EntryView)
    requires
        in_listing_order(s),
        s.to_multiset().contains(x),
    ensures
        entry_le(s[0], x),
{
    assert(s.contains(x));
    let j = choose|j: int| 0 <= j < s.len() && s[j] == x;
    if j > 0 {
        assert(entry_le(s[0], s[j]));
    }
}

/// Two listings in listing order that hold the same entries are the same
/// listing: the order in which a directory was scanned cannot show in it.
pub proof fn lemma_listing_unique(a: Seq<EntryView>, b: Seq<EntryView>)
    requires
        in_listing_order(a),
        in_listing_order(b),
        a.to_multiset() == b.to_multiset(),
    ensures
        a == b,
    decreases a.len(),
{
    assert(a.to_multiset().len() == a.len());
    assert(b.to_multiset().len() == b.len());
    if a.len() == 0 {
        assert(a =~= b);
    } else {
        assert(a.to_multiset().contains(a[0]));
        assert(b.to_multiset().contains(b[0]));
        lemma_first_is_least(b, a[0]);
        lemma_first_is_least(a, b[0]);
        lemma_entry_order(a[0], b[0], a[0]);
        assert(a[0] == b[0]);
        assert(a.remove(0) =~= a.drop_first());
        assert(b.remove(0) =~= b.drop_first());
        let ta = a.drop_first();
        let tb = b.drop_first();
        assert forall|i: int, j: int| 0 <= i < j < ta.len() implies #[trigger] entry_le(ta[i], ta[j]) by {
            assert(entry_le(a[i + 1], a[j + 1]));
        };
        assert forall|i: int, j: int| 0 <= i < j < tb.len() implies #[trigger] entry_le(tb[i], tb[j]) by {
            assert(entry_le(b[i + 1], b[j + 1]));
        };
        lemma_listing_unique(ta, tb);
        assert forall|i: int| 0 < i < a.len() implies a[i] == b[i] by {
            assert(a[i] == ta[i - 1]);
            assert(b[i] == tb[i - 1]);
        };
        assert(a =~= b);
    }
}

/// Whether name `a` comes strictly before name `b` in code-point order.
pub fn name_precedes(a: &String, b: &String) -> (r: bool)
    ensures
        r == name_lt(a@, b@),
{
    let sa = a.as_str();
    let sb = b.as_str();
    let la = sa.unicode_len();
    let lb = sb.unicode_len();
    let mut i: usize = 0;
    assert(a@.skip(0) =~= a@);
    assert(b@.skip(0) =~= b@);
    while i < la && i < lb
        invariant
            la == a@.len(),
            lb == b@.len(),
            sa@ == a@,
            sb@ == b@,
            i <= la,
            i <= lb,
            name_lt(a@, b@) == name_lt(a@.skip(i as int), b@.skip(i as int)),
        decreases la - i,
    {
        let ca = sa.get_char(i);
        let cb = sb.get_char(i);
        if ca != cb {
            return (ca as u32) < (cb as u32);
        }
        assert(a@.skip(i as int).drop_first() =~= a@.skip(i + 1));
        assert(b@.skip(i as int).drop_first() =~= b@.skip(i + 1));
        i = i + 1;
    }
    i < lb
}

/// Whether entry `a` comes strictly before entry `b`: a directory before a
/// file, and otherwise by name.
pub fn entry_before(a: &(String, bool), b: &(String, bool)) -> (r: bool)
    ensures
        r == entry_precedes(entry_view(*a), entry_view(*b)),
{
    if a.1 && !b.1 {
        true
    } else if !a.1 && b.1 {
        false
    } else {
        name_precedes(&a.0, &b.0)
    }
}

/// Index at which `e` goes into the ordered `sorted` so that the order is kept:
/// after every entry that is not after `e`, before every one that is.
fn insertion_point(sorted: &Vec<(String, bool)>, e: &(String, bool)) -> (k: usize)
    requires
        in_listing_order(listing_view(sorted@)),
    ensures
        k <= sorted@.len(),
        forall|i: int| 0 <= i < k ==> entry_le(entry_view(sorted@[i]), entry_view(*e)),
        forall|j: int| k <= j < sorted@.len() ==> entry_precedes(entry_view(*e), entry_view(sorted@[j])),
{
    let ghost v = listing_view(sorted@);
    let mut k: usize = 0;
    while k < sorted.len()
        invariant
            v == listing_view(sorted@),
            in_listing_order(v),
            k <= sorted@.len(),
            forall|i: int| 0 <= i < k ==> entry_le(entry_view(sorted@[i]), entry_view(*e)),
        decreases sorted.len() - k,
    {
        if entry_before(e, &sorted[k]) {
            assert forall|j: int| k <= j < sorted@.len() implies entry_precedes(
                entry_view(*e),
                entry_view(sorted@[j]),
            ) by {
                if j > k {
                    assert(entry_le(v[k as int], v[j]));
                    lemma_entry_order(entry_view(*e), v[k as int], v[j]);
                }
            };
            return k;
        }
        proof {
            lemma_entry_order(entry_view(sorted@[k as int]), entry_view(*e), entry_view(*e));
        }
        k = k + 1;
    }
    k
}

/// The entries in listing order: all directories, by name, then all files,
/// by name. The result holds the same entries, each as often as given.
pub fn sort_entries(entries: Vec<(String, bool)>) -> (r: Vec<(String, bool)>)
    ensures
        in_listing_order(listing_view(r@)),
        listing_view(r@).to_multiset() == listing_view(entries@).to_multiset(),
{
    let mut rest = entries;
    let mut sorted: Vec<(String, bool)> = Vec::new();
    while rest.len() > 0
        invariant
            in_listing_order(listing_view(sorted@)),
            listing_view(rest@).to_multiset().add(listing_view(sorted@).to_multiset())
                == listing_view(entries@).to_multiset(),
        decreases rest.len(),
    {
        let ghost rest0 = rest@;
        let ghost sorted0 = sorted@;
        let e = rest.pop().unwrap();
        let k = insertion_point(&sorted, &e);
        sorted.insert(k, e);
        proof {
            assert(listing_view(rest0) =~= listing_view(rest@).push(entry_view(e)));
            assert(listing_view(sorted@) =~= listing_view(sorted0).insert(k as int, entry_view(e)));
            let v = listing_view(sorted@);
            assert forall|i: int, j: int| 0 <= i < j < v.len() implies #[trigger] entry_le(
                v[i],
                v[j],
            ) by {
                if j < k {
                    assert(entry_le(listing_view(sorted0)[i], listing_view(sorted0)[j]));
                } else if i > k {
                    assert(entry_le(listing_view(sorted0)[i - 1], listing_view(sorted0)[j - 1]));
                } else if i < k && j > k {
                    lemma_entry_order(v[i], v[k as int], v[j]);
                }
            };
        }
    }
    assert(listing_view(rest@) =~= Seq::<EntryView>::empty());
    sorted
}

/// A child of a directory, given by its path, as the listing shows it:
/// its final component and whether it is a directory.
pub open spec fn resolved_view(child: (String, bool)) -> EntryView {
    (final_component_of(child.0@).unwrap(), child.1)
}

/// The listing of a directory whose children are `children`, each a path and
/// whether it is a directory, in whatever order the scan found them.
/// Every child's name is resolved; the first child without a final component
/// aborts the listing with `InvalidPath`. The names then come in listing
/// order, which does not depend on the order of `children`.
pub fn sorted_names(children: &Vec<(String, bool)>) -> (r: Result<Vec<(String, bool)>, FsError>)
    ensures
        match r {
            Ok(v) => {
                &&& forall|i: int|
                    0 <= i < children@.len() ==> (#[trigger] final_component_of(
                        children@[i].0@,
                    )).is_some()
                &&& in_listing_order(listing_view(v@))
                &&& listing_view(v@).to_multiset() == children@.map_values(
                    |c: (String, bool)| resolved_view(c),
                ).to_multiset()
            },
            Err(e) => exists|k: int|
                {
                    &&& 0 <= k < children@.len()
                    &&& (#[trigger] final_component_of(children@[k].0@)).is_none()
                    &&& forall|i: int|
                        0 <= i < k ==> (#[trigger] final_component_of(children@[i].0@)).is_some()
                    &&& e matches FsError::InvalidPath(p, PathFault::NoFinalComponent) && p@
                        == children@[k].0@
                },
        },
{
    let mut named: Vec<(String, bool)> = Vec::new();
    let mut i: usize = 0;
    while i < children.len()
        invariant
            i <= children@.len(),
            listing_view(named@) == children@.subrange(0, i as int).map_values(
                |c: (String, bool)| resolved_view(c),
            ),
            forall|j: int| 0 <= j < i ==> (#[trigger] final_component_of(children@[j].0@)).is_some(),
        decreases children.len() - i,
    {
        let child = &children[i];
        match name(child.0.as_str()) {
            Ok(n) => {
                let ghost named0 = named@;
                named.push((n, child.1));
                assert(listing_view(named@) =~= listing_view(named0).push(entry_view((n, child.1))));
                assert(children@.subrange(0, i + 1).map_values(|c: (String, bool)| resolved_view(c))
                    =~= children@.subrange(0, i as int).map_values(
                    |c: (String, bool)| resolved_view(c),
                ).push(resolved_view(children@[i as int])));
            },
            Err(e) => {
                return Err(e);
            },
        }
        i = i + 1;
    }
    assert(children@.subrange(0, i as int) =~= children@);
    Ok(sort_entries(named))
}

} // verus!
