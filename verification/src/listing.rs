//! Directory listings: which of the things found in a host directory are
//! listed, and in which order.

use crate::backing::{dot, dot_dot, entry_views, DirEntry, EntryState, FileInfo};
use crate::text::{chars_of, lowercase};
use vstd::prelude::*;

verus! {

/// Something found in a host directory: its name, where that is valid Unicode,
/// and its metadata, where they could be had.
pub struct Found {
    /// The file name.
    pub name: Option<String>,
    /// The metadata.
    pub info: Option<FileInfo>,
}

/// The entries to list among what was found: those with both a name and
/// metadata, in the order found.
pub open spec fn usable(found: Seq<Found>) -> Seq<EntryState>
    decreases found.len(),
{
    if found.len() == 0 {
        Seq::empty()
    } else {
        match (found.last().name, found.last().info) {
            (Some(name), Some(info)) => usable(found.drop_last()).push(
                EntryState { name: name@, info },
            ),
            _ => usable(found.drop_last()),
        }
    }
}

/// Whether `a` stands before `b` in the dictionary order of code points.
pub open spec fn lex_less(a: Seq<char>, b: Seq<char>) -> bool
    decreases a.len(),
{
    if b.len() == 0 {
        false
    } else if a.len() == 0 {
        true
    } else if a[0] != b[0] {
        a[0] < b[0]
    } else {
        lex_less(a.skip(1), b.skip(1))
    }
}

proof fn lemma_lex_asymmetric(a: Seq<char>, b: Seq<char>)
    requires
        lex_less(a, b),
    ensures
        !lex_less(b, a),
        a != b,
    decreases a.len(),
{
    if a.len() != 0 && a[0] == b[0] {
        lemma_lex_asymmetric(a.skip(1), b.skip(1));
    }
}

proof fn lemma_lex_total(a: Seq<char>, b: Seq<char>)
    ensures
        lex_less(a, b) || lex_less(b, a) || a == b,
    decreases a.len(),
{
    if a.len() != 0 && b.len() != 0 && a[0] == b[0] {
        lemma_lex_total(a.skip(1), b.skip(1));
        if a.skip(1) == b.skip(1) {
            assert(a =~= seq![a[0]] + a.skip(1));
            assert(b =~= seq![b[0]] + b.skip(1));
        }
    } else if a.len() == 0 && b.len() == 0 {
        assert(a =~= b);
    }
}

proof fn lemma_lex_transitive(a: Seq<char>, b: Seq<char>, c: Seq<char>)
    requires
        lex_less(a, b),
        lex_less(b, c),
    ensures
        lex_less(a, c),
    decreases a.len(),
{
    if a.len() != 0 && a[0] == b[0] && b[0] == c[0] {
        lemma_lex_transitive(a.skip(1), b.skip(1), c.skip(1));
    }
}

/// The names by which entries are ordered: their own, in ASCII lower case.
pub open spec fn sort_keys(entries: Seq<EntryState>) -> Seq<Seq<char>> {
    Seq::new(entries.len(), |i: int| lowercase(entries[i].name))
}

/// Whether entry `i` is listed before entry `j`: by key, and in the order
/// found among equal keys.
pub open spec fn precedes(keys: Seq<Seq<char>>, i: int, j: int) -> bool {
    lex_less(keys[i], keys[j]) || (keys[i] == keys[j] && i < j)
}

proof fn lemma_precedes_transitive(keys: Seq<Seq<char>>, i: int, j: int, k: int)
    requires
        precedes(keys, i, j),
        precedes(keys, j, k),
    ensures
        precedes(keys, i, k),
{
    if lex_less(keys[i], keys[j]) && lex_less(keys[j], keys[k]) {
        lemma_lex_transitive(keys[i], keys[j], keys[k]);
    }
}

proof fn lemma_precedes_irreflexive(keys: Seq<Seq<char>>, i: int)
    ensures
        !precedes(keys, i, i),
{
    if lex_less(keys[i], keys[i]) {
        lemma_lex_asymmetric(keys[i], keys[i]);
    }
}

/// Whether `order` runs through the indices from `lo` up to `hi`, each once,
/// in listing order.
pub open spec fn orders(keys: Seq<Seq<char>>, order: Seq<int>, lo: int, hi: int) -> bool {
    &&& order.len() == hi - lo
    &&& forall|i: int| 0 <= i < order.len() ==> lo <= #[trigger] order[i] < hi
    &&& forall|i: int, j: int|
        0 <= i < j < order.len() ==> precedes(keys, #[trigger] order[i], #[trigger] order[j])
}

/// Whether `listed` is what was found, less what cannot be listed, in listing
/// order.
pub open spec fn is_sorted_listing(entries: Seq<EntryState>, listed: Seq<EntryState>) -> bool {
    exists|order: Seq<int>| #[trigger]
        orders(sort_keys(entries), order, 0, entries.len() as int) && listed == Seq::new(
            order.len(),
            |i: int| entries[order[i]],
        )
}

spec fn ints(order: Seq<usize>) -> Seq<int> {
    Seq::new(order.len(), |i: int| order[i] as int)
}

fn less(a: &Vec<char>, b: &Vec<char>) -> (r: bool)
    ensures
        r == lex_less(a@, b@),
{
    let mut i: usize = 0;
    assert(a@.skip(0) =~= a@);
    assert(b@.skip(0) =~= b@);
    while i < a.len() && i < b.len()
        invariant
            i <= a@.len(),
            i <= b@.len(),
            lex_less(a@, b@) == lex_less(a@.skip(i as int), b@.skip(i as int)),
        decreases a@.len() - i,
    {
        if a[i] != b[i] {
            return a[i] < b[i];
        }
        assert(a@.skip(i as int).skip(1) =~= a@.skip(i + 1));
        assert(b@.skip(i as int).skip(1) =~= b@.skip(i + 1));
        i = i + 1;
    }
    i < b.len()
}

spec fn char_views(keys: Seq<Vec<char>>) -> Seq<Seq<char>> {
    Seq::new(keys.len(), |i: int| keys[i]@)
}

/// Merges two runs of ordered indices, all of the first run smaller than all
/// of the second.
fn merge(keys: &Vec<Vec<char>>, left: &Vec<usize>, right: &Vec<usize>, lo: usize, mid: usize,
    hi: usize) -> (r: Vec<usize>)
    requires
        lo <= mid <= hi <= keys@.len(),
        orders(char_views(keys@), ints(left@), lo as int, mid as int),
        orders(char_views(keys@), ints(right@), mid as int, hi as int),
    ensures
        orders(char_views(keys@), ints(r@), lo as int, hi as int),
{
    let ghost ks = char_views(keys@);
    let ghost a = ints(left@);
    let ghost b = ints(right@);
    let mut out: Vec<usize> = Vec::new();
    let mut i: usize = 0;
    let mut j: usize = 0;
    while i < left.len() || j < right.len()
        invariant
            lo <= mid <= hi <= keys@.len(),
            ks == char_views(keys@),
            a == ints(left@),
            b == ints(right@),
            orders(ks, a, lo as int, mid as int),
            orders(ks, b, mid as int, hi as int),
            i <= left@.len(),
            j <= right@.len(),
            out@.len() == i + j,
            forall|k: int| 0 <= k < out@.len() ==> lo <= #[trigger] out@[k] < hi,
            forall|k: int, l: int|
                0 <= k < l < out@.len() ==> precedes(
                    ks,
                    #[trigger] out@[k] as int,
                    #[trigger] out@[l] as int,
                ),
            forall|k: int, l: int|
                0 <= k < out@.len() && i <= l < a.len() ==> precedes(
                    ks,
                    #[trigger] out@[k] as int,
                    #[trigger] a[l],
                ),
            forall|k: int, l: int|
                0 <= k < out@.len() && j <= l < b.len() ==> precedes(
                    ks,
                    #[trigger] out@[k] as int,
                    #[trigger] b[l],
                ),
        decreases left@.len() - i + right@.len() - j,
    {
        let take_right = i == left.len() || (j < right.len() && {
            assert(a[i as int] == left@[i as int]);
            assert(b[j as int] == right@[j as int]);
            less(&keys[right[j]], &keys[left[i]])
        });
        let ghost before = out@;
        if take_right {
            proof {
                assert(b[j as int] == right@[j as int]);
                let x = b[j as int];
                assert forall|l: int| i <= l < a.len() implies precedes(
                    ks,
                    x,
                    #[trigger] a[l],
                ) by {
                    assert(lex_less(ks[x], ks[a[i as int]]));
                    if l > i {
                        lemma_precedes_transitive(ks, x, a[i as int], a[l]);
                    }
                }
            }
            out.push(right[j]);
            j = j + 1;
        } else {
            proof {
                assert(a[i as int] == left@[i as int]);
                let x = a[i as int];
                assert forall|l: int| j <= l < b.len() implies precedes(
                    ks,
                    x,
                    #[trigger] b[l],
                ) by {
                    assert(b[j as int] == right@[j as int]);
                    lemma_lex_total(ks[b[j as int]], ks[x]);
                    assert(x < b[j as int]);
                    assert(precedes(ks, x, b[j as int]));
                    if l > j {
                        lemma_precedes_transitive(ks, x, b[j as int], b[l]);
                    }
                }
            }
            out.push(left[i]);
            i = i + 1;
        }
        assert forall|k: int| 0 <= k < before.len() implies out@[k] == before[k] by {}
    }
    out
}

/// Orders the indices from `lo` up to `hi` by their keys.
fn sort_range(keys: &Vec<Vec<char>>, lo: usize, hi: usize) -> (r: Vec<usize>)
    requires
        lo <= hi <= keys@.len(),
    ensures
        orders(char_views(keys@), ints(r@), lo as int, hi as int),
    decreases hi - lo,
{
    if hi - lo <= 1 {
        let mut out: Vec<usize> = Vec::new();
        if lo < hi {
            out.push(lo);
        }
        return out;
    }
    let mid: usize = lo + (hi - lo) / 2;
    let left = sort_range(keys, lo, mid);
    let right = sort_range(keys, mid, hi);
    merge(keys, &left, &right, lo, mid, hi)
}

/// Lists a directory: `.` and `..` first, both with the directory's own
/// metadata, then what was found in it, sorted by name without regard to ASCII
/// case. What has no usable name or no metadata is left out.
pub fn list_directory(self_info: FileInfo, found: &Vec<Found>) -> (r: Vec<DirEntry>)
    ensures
        r@.len() >= 2,
        r@[0]@ == (EntryState { name: dot(), info: self_info }),
        r@[1]@ == (EntryState { name: dot_dot(), info: self_info }),
        is_sorted_listing(usable(found@), entry_views(r@).skip(2)),
{
    let mut names: Vec<&String> = Vec::new();
    let mut infos: Vec<FileInfo> = Vec::new();
    let mut keys: Vec<Vec<char>> = Vec::new();
    let ghost all = usable(found@);
    let mut i: usize = 0;
    assert(found@.take(0) =~= Seq::<Found>::empty());
    while i < found.len()
        invariant
            i <= found@.len(),
            names@.len() == usable(found@.take(i as int)).len(),
            infos@.len() == names@.len(),
            keys@.len() == names@.len(),
            forall|k: int|
                0 <= k < names@.len() ==> (EntryState {
                    name: (#[trigger] names@[k])@,
                    info: infos@[k],
                }) == usable(found@.take(i as int))[k],
            forall|k: int| 0 <= k < names@.len() ==> (#[trigger] keys@[k])@ == lowercase(names@[k]@),
        decreases found@.len() - i,
    {
        let ghost front = found@.take(i as int);
        assert(found@.take(i + 1).drop_last() =~= front);
        assert(found@.take(i + 1).last() == found@[i as int]);
        match (&found[i].name, &found[i].info) {
            (Some(name), Some(info)) => {
                let ghost before = names@;
                let ghost before_keys = keys@;
                let ghost before_infos = infos@;
                let key = chars_of(name.as_str().to_ascii_lowercase().as_str());
                names.push(name);
                infos.push(*info);
                keys.push(key);
                assert(usable(found@.take(i + 1)) == usable(front).push(
                    EntryState { name: name@, info: *info },
                ));
                assert forall|k: int| 0 <= k < names@.len() implies (EntryState {
                    name: (#[trigger] names@[k])@,
                    info: infos@[k],
                }) == usable(found@.take(i + 1))[k] by {
                    if k < before.len() {
                        assert(names@[k] == before[k]);
                        assert(infos@[k] == before_infos[k]);
                    }
                }
            },
            _ => {
                assert(usable(found@.take(i + 1)) == usable(front));
            },
        }
        i = i + 1;
    }
    assert(found@.take(i as int) =~= found@);
    let order = sort_range(&keys, 0, keys.len());
    let ghost p = ints(order@);
    proof {
        assert(char_views(keys@) =~= sort_keys(all)) by {
            assert forall|k: int| 0 <= k < keys@.len() implies char_views(keys@)[k] == sort_keys(
                all,
            )[k] by {
                assert(names@[k]@ == all[k].name);
            }
        }
        assert(orders(sort_keys(all), p, 0, all.len() as int));
    }
    let mut out: Vec<DirEntry> = Vec::new();
    proof {
        reveal_strlit(".");
        reveal_strlit("..");
        assert("."@ =~= dot());
        assert(".."@ =~= dot_dot());
    }
    out.push(DirEntry { name: ".".to_owned(), info: self_info });
    out.push(DirEntry { name: "..".to_owned(), info: self_info });
    let mut k: usize = 0;
    while k < order.len()
        invariant
            p == ints(order@),
            orders(sort_keys(all), p, 0, all.len() as int),
            names@.len() == all.len(),
            infos@.len() == all.len(),
            forall|l: int|
                0 <= l < names@.len() ==> (EntryState {
                    name: (#[trigger] names@[l])@,
                    info: infos@[l],
                }) == all[l],
            k <= order@.len(),
            out@.len() == k + 2,
            out@[0]@ == (EntryState { name: dot(), info: self_info }),
            out@[1]@ == (EntryState { name: dot_dot(), info: self_info }),
            forall|l: int| 0 <= l < k ==> (#[trigger] out@[l + 2])@ == all[p[l]],
        decreases order@.len() - k,
    {
        let at: usize = order[k];
        assert(p[k as int] == at);
        let ghost before = out@;
        assert(names@[at as int]@ == all[at as int].name);
        out.push(DirEntry { name: names[at].clone(), info: infos[at] });
        assert forall|l: int| 0 <= l < k + 1 implies (#[trigger] out@[l + 2])@ == all[p[l]] by {
            if l < k {
                assert(out@[l + 2] == before[l + 2]);
            }
        }
        k = k + 1;
    }
    proof {
        let listed = entry_views(out@).skip(2);
        let wanted = Seq::new(p.len(), |i: int| all[p[i]]);
        assert forall|l: int| 0 <= l < listed.len() implies listed[l] == wanted[l] by {
            assert(listed[l] == out@[l + 2]@);
        }
        assert(listed =~= wanted);
    }
    out
}

/// There is one listing order only: two orders of the same range agree.
proof fn lemma_order_unique(keys: Seq<Seq<char>>, p: Seq<int>, q: Seq<int>, n: int)
    requires
        orders(keys, p, 0, n),
        orders(keys, q, 0, n),
    ensures
        p == q,
{
    lemma_order_onto(keys, p, n);
    lemma_order_onto(keys, q, n);
    assert forall|i: int| 0 <= i < p.len() implies p[i] == q[i] by {
        lemma_order_agrees(keys, p, q, n, i);
    }
    assert(p =~= q);
}

/// Every index of the range has its place in the order.
proof fn lemma_order_onto(keys: Seq<Seq<char>>, p: Seq<int>, n: int)
    requires
        orders(keys, p, 0, n),
    ensures
        forall|x: int| 0 <= x < n ==> #[trigger] p.contains(x),
{
    assert(p.no_duplicates()) by {
        assert forall|i: int, j: int| 0 <= i < p.len() && 0 <= j < p.len() && i != j implies p[i]
            != p[j] by {
            if i < j {
                assert(precedes(keys, p[i], p[j]));
            } else {
                assert(precedes(keys, p[j], p[i]));
            }
            lemma_precedes_irreflexive(keys, p[i]);
        }
    }
    p.unique_seq_to_set();
    let s = p.to_set();
    let full = vstd::set_lib::set_int_range(0, n);
    vstd::set_lib::lemma_int_range(0, n);
    assert(s.subset_of(full));
    vstd::set_lib::lemma_subset_equality(s, full);
    assert forall|x: int| 0 <= x < n implies #[trigger] p.contains(x) by {
        assert(full.contains(x));
        assert(s.contains(x));
    }
}

proof fn lemma_order_agrees(keys: Seq<Seq<char>>, p: Seq<int>, q: Seq<int>, n: int, i: int)
    requires
        orders(keys, p, 0, n),
        orders(keys, q, 0, n),
        forall|x: int| 0 <= x < n ==> #[trigger] p.contains(x),
        forall|x: int| 0 <= x < n ==> #[trigger] q.contains(x),
        0 <= i < n,
    ensures
        p[i] == q[i],
    decreases i,
{
    assert forall|j: int| 0 <= j < i implies p[j] == q[j] by {
        lemma_order_agrees(keys, p, q, n, j);
    }
    if p[i] != q[i] {
        assert(p.contains(q[i]) && q.contains(p[i]));
        let a = choose|a: int| 0 <= a < p.len() && p[a] == q[i];
        let b = choose|b: int| 0 <= b < q.len() && q[b] == p[i];
        if a < i {
            assert(q[a] == q[i]);
            assert(precedes(keys, q[a], q[i]));
            lemma_precedes_irreflexive(keys, q[i]);
        }
        if b < i {
            assert(p[b] == p[i]);
            assert(precedes(keys, p[b], p[i]));
            lemma_precedes_irreflexive(keys, p[i]);
        }
        assert(precedes(keys, p[i], p[a]));
        assert(precedes(keys, q[i], q[b]));
        lemma_precedes_transitive(keys, p[i], q[i], p[i]);
        lemma_precedes_irreflexive(keys, p[i]);
    }
}

/// What is listed after `.` and `..` is determined by what was found.
pub proof fn law_listing_determined(
    entries: Seq<EntryState>,
    a: Seq<EntryState>,
    b: Seq<EntryState>,
)
    requires
        is_sorted_listing(entries, a),
        is_sorted_listing(entries, b),
    ensures
        a == b,
{
    let keys = sort_keys(entries);
    let n = entries.len() as int;
    let p = choose|order: Seq<int>| #[trigger]
        orders(keys, order, 0, n) && a == Seq::new(order.len(), |i: int| entries[order[i]]);
    let q = choose|order: Seq<int>| #[trigger]
        orders(keys, order, 0, n) && b == Seq::new(order.len(), |i: int| entries[order[i]]);
    lemma_order_unique(keys, p, q, n);
}

/// A listing is sorted by name without regard to ASCII case, leaves nothing
/// out, and lists nothing twice.
pub proof fn law_listing_sorted_and_complete(entries: Seq<EntryState>, listed: Seq<EntryState>)
    requires
        is_sorted_listing(entries, listed),
    ensures
        listed.len() == entries.len(),
        forall|i: int, j: int|
            0 <= i < j < listed.len() ==> !lex_less(
                lowercase((#[trigger] listed[j]).name),
                lowercase((#[trigger] listed[i]).name),
            ),
        forall|k: int| 0 <= k < entries.len() ==> listed.contains(#[trigger] entries[k]),
        forall|i: int| 0 <= i < listed.len() ==> entries.contains(#[trigger] listed[i]),
{
    let keys = sort_keys(entries);
    let n = entries.len() as int;
    let p = choose|order: Seq<int>| #[trigger]
        orders(keys, order, 0, n) && listed == Seq::new(order.len(), |i: int| entries[order[i]]);
    lemma_order_onto(keys, p, n);
    assert forall|i: int, j: int| 0 <= i < j < listed.len() implies !lex_less(
        lowercase((#[trigger] listed[j]).name),
        lowercase((#[trigger] listed[i]).name),
    ) by {
        assert(precedes(keys, p[i], p[j]));
        if lex_less(keys[p[j]], keys[p[i]]) {
            lemma_lex_asymmetric(keys[p[j]], keys[p[i]]);
        }
    }
    assert forall|k: int| 0 <= k < entries.len() implies listed.contains(#[trigger] entries[k]) by {
        assert(p.contains(k));
        let a = choose|a: int| 0 <= a < p.len() && p[a] == k;
        assert(listed[a] == entries[k]);
    }
    assert forall|i: int| 0 <= i < listed.len() implies entries.contains(#[trigger] listed[i]) by {
        assert(listed[i] == entries[p[i]]);
    }
}

/// What is listed among what was found: everything with a name and metadata, in the
/// order found, under its own name and with its own metadata.
pub proof fn law_usable(found: Seq<Found>)
    ensures
        usable(found) == found.filter(|f: Found| f.name is Some && f.info is Some).map_values(
            |f: Found| EntryState { name: f.name->0@, info: f.info->0 },
        ),
    decreases found.len(),
{
    reveal(Seq::filter);
    let keep = |f: Found| f.name is Some && f.info is Some;
    let entry = |f: Found| EntryState { name: f.name->0@, info: f.info->0 };
    if found.len() != 0 {
        law_usable(found.drop_last());
        assert(usable(found) =~= found.filter(keep).map_values(entry));
    } else {
        assert(usable(found) =~= found.filter(keep).map_values(entry));
    }
}

/// The dictionary order: one text stands before another where it is the shorter one
/// of the two and starts the other, or where the first character in which they
/// differ has the smaller number.
pub proof fn law_dictionary_order(a: Seq<char>, b: Seq<char>, k: int)
    requires
        0 <= k <= a.len(),
        k <= b.len(),
        a.take(k) == b.take(k),
        k < a.len() && k < b.len() ==> a[k] != b[k],
    ensures
        k == a.len() ==> (lex_less(a, b) <==> k < b.len()),
        k == b.len() ==> !lex_less(a, b),
        k < a.len() && k < b.len() ==> (lex_less(a, b) <==> a[k] < b[k]),
    decreases k,
{
    if k > 0 {
        assert(a[0] == a.take(k)[0] && b[0] == b.take(k)[0]);
        assert(lex_less(a, b) == lex_less(a.skip(1), b.skip(1)));
        assert(a.skip(1).take(k - 1) =~= a.take(k).skip(1));
        assert(b.skip(1).take(k - 1) =~= b.take(k).skip(1));
        law_dictionary_order(a.skip(1), b.skip(1), k - 1);
    }
}

/// In a listing, entries whose names differ only in the case of ASCII letters keep
/// the order in which they were found.
pub proof fn law_listing_is_stable(
    entries: Seq<EntryState>,
    listed: Seq<EntryState>,
    a: int,
    b: int,
)
    requires
        is_sorted_listing(entries, listed),
        0 <= a < b < entries.len(),
        lowercase(entries[a].name) == lowercase(entries[b].name),
    ensures
        exists|i: int, j: int|
            0 <= i < j < listed.len() && #[trigger] listed[i] == entries[a] && #[trigger] listed[j]
                == entries[b],
{
    let keys = sort_keys(entries);
    let n = entries.len() as int;
    let p = choose|order: Seq<int>| #[trigger]
        orders(keys, order, 0, n) && listed == Seq::new(order.len(), |i: int| entries[order[i]]);
    lemma_order_onto(keys, p, n);
    assert(p.contains(a) && p.contains(b));
    let i = choose|i: int| 0 <= i < p.len() && p[i] == a;
    let j = choose|j: int| 0 <= j < p.len() && p[j] == b;
    if j < i {
        assert(precedes(keys, p[j], p[i]));
        assert(lex_less(keys[b], keys[a]));
        lemma_lex_asymmetric(keys[b], keys[a]);
    }
    assert(listed[i] == entries[a] && listed[j] == entries[b]);
}

/// A directory is listed as `.` and `..`, both with its own metadata, and then what
/// was found in it, as much as can be listed, in listing order.
pub proof fn law_directory_listing(self_info: FileInfo, found: Vec<Found>, r: Vec<DirEntry>)
    requires
        call_ensures(list_directory, (self_info, &found), r),
    ensures
        r@.len() == 2 + found@.filter(|f: Found| f.name is Some && f.info is Some).len(),
        r@[0].name@ == seq!['.'] && r@[0].info == self_info,
        r@[1].name@ == seq!['.', '.'] && r@[1].info == self_info,
        is_sorted_listing(usable(found@), entry_views(r@).skip(2)),
{
    law_usable(found@);
    law_listing_sorted_and_complete(usable(found@), entry_views(r@).skip(2));
    assert(r@[0]@.name == seq!['.']);
    assert(r@[1]@.name == seq!['.', '.']);
}

} // verus!
