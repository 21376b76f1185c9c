//! Selecting the directories to delete from what a walk below the root found.

use crate::path::{
    components, has_root, is_absolute, is_node_modules, lemma_components_before_irreflexive,
    lemma_components_before_total, lemma_components_before_transitive, lemma_root_component,
    node_modules, parent_of, parent_text, parts_end_in_node_modules, parts_precede, parts_view,
    path_before, same_part, split_components, terminal_name, Component, PathPart,
};
use crate::patterns::{accepted, any_matches, diagnostics, texts, PatternSet};
use crate::{relative_root_text, CleanupError};
use vstd::prelude::*;
use vstd::seq_lib::*;

verus! {

/// One thing that the walk below the root came upon.
#[derive(Debug)]
pub enum WalkItem {
    /// An entry of the tree, with its full path.
    Entry { path: String, is_dir: bool },
    /// An entry or a directory that could not be read.
    Failure { message: String },
}

/// Whether the terminal component of `path` is the name `node_modules`.
pub open spec fn is_node_modules_dir(path: Seq<char>) -> bool {
    terminal_name(path) == Some(node_modules())
}

/// Whether `path` lies in the tree of `root`: it is the root or below it.
pub open spec fn is_under(root: Seq<char>, path: Seq<char>) -> bool {
    let rs = components(root);
    let cs = components(path);
    rs.len() <= cs.len() && cs.take(rs.len() as int) =~= rs
}

/// Whether a walk from `root` may visit `path`: from the root's own name
/// downward, no component of the path but the last is named `node_modules`.
/// So a `node_modules` directory is visited, and nothing below one; what the
/// directories above the root are called does not matter.
pub open spec fn may_visit(root: Seq<char>, path: Seq<char>) -> bool {
    let k = components(root).len();
    let cs = components(path);
    forall|i: int|
        0 <= i < cs.len() - 1 && i + 1 >= k ==> #[trigger] cs[i] != Component::Normal(
            node_modules(),
        )
}

/// Whether `path` is a directory to delete in a scan of `root` under the
/// given exclusion patterns: in the tree of the root, reachable by the walk,
/// named `node_modules`, matched by no pattern.
pub open spec fn is_target_path(root: Seq<char>, path: Seq<char>, patterns: Seq<Seq<char>>) -> bool {
    &&& is_under(root, path)
    &&& may_visit(root, path)
    &&& is_node_modules_dir(path)
    &&& !any_matches(patterns, path)
}

/// Whether a walk item is a directory to delete.
pub open spec fn is_target(root: Seq<char>, item: WalkItem, patterns: Seq<Seq<char>>) -> bool {
    item matches WalkItem::Entry { path, is_dir } && is_dir && is_target_path(
        root,
        path@,
        patterns,
    )
}

/// The path of a walk item; empty for a failure.
pub open spec fn item_path(item: WalkItem) -> Seq<char> {
    match item {
        WalkItem::Entry { path, .. } => path@,
        WalkItem::Failure { .. } => Seq::<char>::empty(),
    }
}

/// The paths of the directories to delete among the walk items, in the order
/// of the walk.
pub open spec fn selected(root: Seq<char>, items: Seq<WalkItem>, patterns: Seq<Seq<char>>) -> Seq<
    Seq<char>,
>
    decreases items.len(),
{
    if items.len() == 0 {
        Seq::<Seq<char>>::empty()
    } else {
        let before = selected(root, items.drop_last(), patterns);
        if is_target(root, items.last(), patterns) {
            before.push(item_path(items.last()))
        } else {
            before
        }
    }
}

/// The message of the first failure among the walk items, if there is one.
pub open spec fn first_failure(items: Seq<WalkItem>) -> Option<Seq<char>>
    decreases items.len(),
{
    if items.len() == 0 {
        None
    } else {
        match items[0] {
            WalkItem::Failure { message } => Some(message@),
            WalkItem::Entry { .. } => first_failure(items.drop_first()),
        }
    }
}

/// Where `x` goes into the sorted sequence `s`: before the first path that it
/// comes strictly before, so behind every path that compares equal to it.
pub open spec fn insertion_point(s: Seq<Seq<char>>, x: Seq<char>) -> int
    decreases s.len(),
{
    if s.len() == 0 {
        0
    } else if path_before(x, s[0]) {
        0
    } else {
        1 + insertion_point(s.drop_first(), x)
    }
}

/// The paths of `s` in non-decreasing order; paths that compare equal keep
/// the order they had in `s`.
pub open spec fn sorted_paths(s: Seq<Seq<char>>) -> Seq<Seq<char>>
    decreases s.len(),
{
    if s.len() == 0 {
        Seq::<Seq<char>>::empty()
    } else {
        let before = sorted_paths(s.drop_last());
        before.insert(insertion_point(before, s.last()), s.last())
    }
}

/// Whether no path of `s` comes strictly before an earlier one.
pub open spec fn is_sorted(s: Seq<Seq<char>>) -> bool {
    forall|i: int, j: int| 0 <= i < j < s.len() ==> !path_before(#[trigger] s[j], #[trigger] s[i])
}

/// What a scan of `root` returns for the given walk items and exclusion
/// patterns: an error where the root is not absolute, else the first failure
/// of the walk, or else the directories to delete, sorted.
pub open spec fn scan_outcome(root: Seq<char>, items: Seq<WalkItem>, patterns: Seq<Seq<char>>) -> Result<
    Seq<Seq<char>>,
    Seq<char>,
> {
    if !has_root(root) {
        Err(relative_root_text(root))
    } else {
        match first_failure(items) {
            Some(message) => Err(message),
            None => Ok(sorted_paths(selected(root, items, patterns))),
        }
    }
}

/// The parents of the paths that have one, in the paths' order.
pub open spec fn parents(paths: Seq<Seq<char>>) -> Seq<Seq<char>>
    decreases paths.len(),
{
    if paths.len() == 0 {
        Seq::<Seq<char>>::empty()
    } else {
        let before = parents(paths.drop_last());
        match parent_text(paths.last()) {
            Some(parent) => before.push(parent),
            None => before,
        }
    }
}

/// The first path whose terminal component is not `node_modules`, if there is
/// one.
pub open spec fn first_offender(paths: Seq<Seq<char>>) -> Option<Seq<char>>
    decreases paths.len(),
{
    if paths.len() == 0 {
        None
    } else if !is_node_modules_dir(paths[0]) {
        Some(paths[0])
    } else {
        first_offender(paths.drop_first())
    }
}

/// The insertion point lies within the sequence or at its end; no path
/// before it comes after `x`, and the path at it does.
pub proof fn lemma_insertion_point(s: Seq<Seq<char>>, x: Seq<char>)
    ensures
        0 <= insertion_point(s, x) <= s.len(),
        forall|k: int| 0 <= k < insertion_point(s, x) ==> !path_before(x, #[trigger] s[k]),
        insertion_point(s, x) < s.len() ==> path_before(x, s[insertion_point(s, x)]),
    decreases s.len(),
{
    if s.len() > 0 && !path_before(x, s[0]) {
        lemma_insertion_point(s.drop_first(), x);
        let p = insertion_point(s.drop_first(), x);
        assert forall|k: int| 0 <= k < 1 + p implies !path_before(x, #[trigger] s[k]) by {
            if k > 0 {
                assert(s[k] == s.drop_first()[k - 1]);
            }
        }
        if p < s.drop_first().len() {
            assert(s[1 + p] == s.drop_first()[p]);
        }
    }
}

/// Inserting a path at its insertion point keeps a sorted sequence sorted.
pub proof fn lemma_insert_keeps_sorted(s: Seq<Seq<char>>, x: Seq<char>)
    requires
        is_sorted(s),
    ensures
        is_sorted(s.insert(insertion_point(s, x), x)),
{
    lemma_insertion_point(s, x);
    let p = insertion_point(s, x);
    let t = s.insert(p, x);
    assert forall|i: int, j: int| 0 <= i < j < t.len() implies !path_before(
        #[trigger] t[j],
        #[trigger] t[i],
    ) by {
        if j == p {
            assert(t[i] == s[i]);
        } else if i == p {
            assert(t[j] == s[j - 1]);
            if path_before(t[j], x) {
                if j - 1 > p {
                    assert(!path_before(s[j - 1], s[p]));
                }
                lemma_components_before_transitive(
                    components(t[j]),
                    components(x),
                    components(s[p]),
                );
                lemma_components_before_irreflexive(components(s[p]));
            }
        } else {
            let i0 = if i < p { i } else { i - 1 };
            let j0 = if j < p { j } else { j - 1 };
            assert(t[i] == s[i0]);
            assert(t[j] == s[j0]);
        }
    }
}

/// `sorted_paths` yields a sorted sequence.
pub proof fn lemma_sorted_paths_sorted(s: Seq<Seq<char>>)
    ensures
        is_sorted(sorted_paths(s)),
    decreases s.len(),
{
    if s.len() > 0 {
        lemma_sorted_paths_sorted(s.drop_last());
        lemma_insert_keeps_sorted(sorted_paths(s.drop_last()), s.last());
    }
}

/// In a sorted sequence the earlier of two paths comes before the later, or
/// the two have the same components.
pub proof fn lemma_sorted_is_nondecreasing(s: Seq<Seq<char>>)
    requires
        is_sorted(s),
    ensures
        forall|i: int, j: int|
            0 <= i < j < s.len() ==> path_before(#[trigger] s[i], #[trigger] s[j]) || components(
                s[i],
            ) == components(s[j]),
{
    assert forall|i: int, j: int| 0 <= i < j < s.len() implies path_before(
        #[trigger] s[i],
        #[trigger] s[j],
    ) || components(s[i]) == components(s[j]) by {
        lemma_components_before_total(components(s[i]), components(s[j]));
    }
}

/// `sorted_paths` keeps every path, as often as it occurs, and adds none.
pub proof fn lemma_sorted_paths_permutes(s: Seq<Seq<char>>)
    ensures
        sorted_paths(s).to_multiset() == s.to_multiset(),
        sorted_paths(s).len() == s.len(),
    decreases s.len(),
{
    broadcast use vstd::seq_lib::group_to_multiset_ensures;

    if s.len() > 0 {
        let before = sorted_paths(s.drop_last());
        let x = s.last();
        lemma_sorted_paths_permutes(s.drop_last());
        lemma_insertion_point(before, x);
        let p = insertion_point(before, x);
        let head = before.take(p);
        let tail = before.skip(p);
        assert(before =~= head + tail);
        assert(before.insert(p, x) =~= head.push(x) + tail);
        lemma_multiset_commutative(head, tail);
        lemma_multiset_commutative(head.push(x), tail);
        assert(s =~= s.drop_last().push(x));
        assert(before.insert(p, x).to_multiset() =~= before.to_multiset().insert(x));
        assert(s.to_multiset() =~= s.drop_last().to_multiset().insert(x));
    } else {
        assert(s =~= Seq::<Seq<char>>::empty());
    }
}

/// Every selected path is the path of a directory to delete.
pub proof fn lemma_selected_are_targets(
    root: Seq<char>,
    items: Seq<WalkItem>,
    patterns: Seq<Seq<char>>,
)
    ensures
        forall|j: int|
            0 <= j < selected(root, items, patterns).len() ==> is_target_path(
                root,
                #[trigger] selected(root, items, patterns)[j],
                patterns,
            ),
    decreases items.len(),
{
    if items.len() > 0 {
        lemma_selected_are_targets(root, items.drop_last(), patterns);
        let before = selected(root, items.drop_last(), patterns);
        let all = selected(root, items, patterns);
        assert forall|j: int| 0 <= j < all.len() implies is_target_path(
            root,
            #[trigger] all[j],
            patterns,
        ) by {
            if j < before.len() {
                assert(all[j] == before[j]);
            }
        }
    }
}

/// What lies in the tree of an absolute root is absolute.
pub proof fn lemma_under_absolute_root(root: Seq<char>, path: Seq<char>)
    requires
        has_root(root),
        is_under(root, path),
    ensures
        has_root(path),
{
    lemma_root_component(root);
    lemma_root_component(path);
    let k = components(root).len() as int;
    assert(components(path).take(k)[0] == components(path)[0]);
}

/// Every path of a scan's result is the path of a directory to delete: in
/// the tree of the root and absolute, named `node_modules`, below no other
/// `node_modules` from the root downward, matched by no exclusion pattern.
/// The result is sorted and holds each selected path once for each time the
/// walk came upon it.
pub proof fn lemma_scan_outcome(root: Seq<char>, items: Seq<WalkItem>, patterns: Seq<Seq<char>>)
    requires
        has_root(root),
        first_failure(items) is None,
    ensures
        scan_outcome(root, items, patterns) is Ok,
        is_sorted(scan_outcome(root, items, patterns)->Ok_0),
        scan_outcome(root, items, patterns)->Ok_0.to_multiset() == selected(
            root,
            items,
            patterns,
        ).to_multiset(),
        forall|j: int|
            0 <= j < scan_outcome(root, items, patterns)->Ok_0.len() ==> is_target_path(
                root,
                #[trigger] scan_outcome(root, items, patterns)->Ok_0[j],
                patterns,
            ),
        forall|j: int|
            0 <= j < scan_outcome(root, items, patterns)->Ok_0.len() ==> has_root(
                #[trigger] scan_outcome(root, items, patterns)->Ok_0[j],
            ),
{
    broadcast use vstd::seq_lib::group_to_multiset_ensures;

    let chosen = selected(root, items, patterns);
    let out = sorted_paths(chosen);
    lemma_sorted_paths_sorted(chosen);
    lemma_sorted_paths_permutes(chosen);
    lemma_selected_are_targets(root, items, patterns);
    assert forall|j: int| 0 <= j < out.len() implies is_target_path(
        root,
        #[trigger] out[j],
        patterns,
    ) && has_root(out[j]) by {
        assert(out.contains(out[j]));
        assert(out.to_multiset().count(out[j]) > 0);
        assert(chosen.to_multiset().count(out[j]) > 0);
        assert(chosen.contains(out[j]));
        let k = choose|k: int| 0 <= k < chosen.len() && chosen[k] == out[j];
        assert(is_target_path(root, chosen[k], patterns));
        lemma_under_absolute_root(root, out[j]);
    }
}

/// Two scans of the same root and walk with the same patterns return the
/// same.
pub proof fn lemma_scan_deterministic(
    root1: Seq<char>,
    items1: Seq<WalkItem>,
    patterns1: Seq<Seq<char>>,
    root2: Seq<char>,
    items2: Seq<WalkItem>,
    patterns2: Seq<Seq<char>>,
)
    requires
        root1 == root2,
        items1 == items2,
        patterns1 == patterns2,
    ensures
        scan_outcome(root1, items1, patterns1) == scan_outcome(root2, items2, patterns2),
{
}

/// Whether no two paths of `s` differ in their text alone: paths with the
/// same components are the same path.
pub open spec fn distinct_by_components(s: Seq<Seq<char>>) -> bool {
    forall|i: int, j: int|
        0 <= i < s.len() && 0 <= j < s.len() && components(#[trigger] s[i]) == components(
            #[trigger] s[j],
        ) ==> s[i] == s[j]
}

/// Paths of which no two differ in their text alone have one sorted
/// arrangement.
pub proof fn lemma_sorted_arrangement_unique(a: Seq<Seq<char>>, b: Seq<Seq<char>>)
    requires
        is_sorted(a),
        is_sorted(b),
        a.to_multiset() == b.to_multiset(),
        distinct_by_components(a),
    ensures
        a == b,
    decreases a.len(),
{
    broadcast use vstd::seq_lib::group_to_multiset_ensures;

    assert(a.len() == b.len()) by {
        to_multiset_len(a);
        to_multiset_len(b);
    }
    if a.len() == 0 {
        assert(a =~= b);
    } else {
        let x = a[0];
        let y = b[0];
        assert(b.contains(y));
        assert(a.to_multiset().count(y) > 0);
        assert(a.contains(y));
        let k = choose|k: int| 0 <= k < a.len() && a[k] == y;
        assert(a.contains(x));
        assert(b.to_multiset().count(x) > 0);
        assert(b.contains(x));
        let m = choose|m: int| 0 <= m < b.len() && b[m] == x;
        lemma_components_before_irreflexive(components(x));
        if k > 0 {
            assert(!path_before(a[k], a[0]));
        }
        if m > 0 {
            assert(!path_before(b[m], b[0]));
        }
        lemma_components_before_total(components(x), components(y));
        assert(components(a[0]) == components(a[k]));
        assert(x == y);
        let ra = a.drop_first();
        let rb = b.drop_first();
        assert(ra =~= a.remove(0));
        assert(rb =~= b.remove(0));
        assert(ra.to_multiset() == rb.to_multiset());
        assert forall|i: int, j: int| 0 <= i < j < ra.len() implies !path_before(
            #[trigger] ra[j],
            #[trigger] ra[i],
        ) by {
            assert(!path_before(a[j + 1], a[i + 1]));
        }
        assert forall|i: int, j: int| 0 <= i < j < rb.len() implies !path_before(
            #[trigger] rb[j],
            #[trigger] rb[i],
        ) by {
            assert(!path_before(b[j + 1], b[i + 1]));
        }
        assert forall|i: int, j: int|
            0 <= i < ra.len() && 0 <= j < ra.len() && components(#[trigger] ra[i]) == components(
                #[trigger] ra[j],
            ) implies ra[i] == ra[j] by {
            assert(components(a[i + 1]) == components(a[j + 1]));
        }
        lemma_sorted_arrangement_unique(ra, rb);
        assert(a =~= seq![x] + ra);
        assert(b =~= seq![y] + rb);
    }
}

/// The path of a walk item that is a directory to delete is among the
/// selected.
pub proof fn lemma_selected_contains(
    root: Seq<char>,
    items: Seq<WalkItem>,
    k: int,
    patterns: Seq<Seq<char>>,
)
    requires
        0 <= k < items.len(),
        is_target(root, items[k], patterns),
    ensures
        selected(root, items, patterns).to_multiset().count(item_path(items[k])) > 0,
    decreases items.len(),
{
    broadcast use vstd::seq_lib::group_to_multiset_ensures;

    let all = selected(root, items, patterns);
    let before = selected(root, items.drop_last(), patterns);
    if k == items.len() - 1 {
        assert(all == before.push(item_path(items[k])));
        assert(all[all.len() - 1] == item_path(items[k]));
        assert(all.contains(item_path(items[k])));
    } else {
        assert(items.drop_last()[k] == items[k]);
        lemma_selected_contains(root, items.drop_last(), k, patterns);
        assert(before.contains(item_path(items[k])));
        let j = choose|j: int| 0 <= j < before.len() && before[j] == item_path(items[k]);
        if is_target(root, items.last(), patterns) {
            assert(all[j] == before[j]);
        }
        assert(all.contains(item_path(items[k])));
    }
}

/// Without one of the walk items, the selected are the same but for that
/// item's path, where it is a directory to delete.
pub proof fn lemma_selected_remove(
    root: Seq<char>,
    items: Seq<WalkItem>,
    k: int,
    patterns: Seq<Seq<char>>,
)
    requires
        0 <= k < items.len(),
    ensures
        selected(root, items.remove(k), patterns).to_multiset() == if is_target(
            root,
            items[k],
            patterns,
        ) {
            selected(root, items, patterns).to_multiset().remove(item_path(items[k]))
        } else {
            selected(root, items, patterns).to_multiset()
        },
    decreases items.len(),
{
    broadcast use vstd::seq_lib::group_to_multiset_ensures;
    broadcast use vstd::multiset::group_multiset_axioms;

    let all = selected(root, items, patterns);
    let before = selected(root, items.drop_last(), patterns);
    let gone = item_path(items[k]);
    if k == items.len() - 1 {
        assert(items.remove(k) =~= items.drop_last());
        if is_target(root, items[k], patterns) {
            assert(all == before.push(gone));
            assert(before.to_multiset() =~= all.to_multiset().remove(gone));
        }
    } else {
        let shorter = items.drop_last();
        let last = items.last();
        assert(shorter[k] == items[k]);
        lemma_selected_remove(root, shorter, k, patterns);
        assert(items.remove(k).drop_last() =~= shorter.remove(k));
        assert(items.remove(k).last() == last);
        let rest = selected(root, shorter.remove(k), patterns);
        if is_target(root, last, patterns) {
            assert(selected(root, items.remove(k), patterns) == rest.push(item_path(last)));
            assert(all == before.push(item_path(last)));
            if is_target(root, items[k], patterns) {
                lemma_selected_contains(root, shorter, k, patterns);
                assert(rest.push(item_path(last)).to_multiset() =~= before.push(
                    item_path(last),
                ).to_multiset().remove(gone));
            }
        }
    }
}

/// The same walk items in another order select the same directories, each as
/// often.
pub proof fn lemma_selected_permutation(
    root: Seq<char>,
    a: Seq<WalkItem>,
    b: Seq<WalkItem>,
    patterns: Seq<Seq<char>>,
)
    requires
        a.to_multiset() == b.to_multiset(),
    ensures
        selected(root, a, patterns).to_multiset() == selected(root, b, patterns).to_multiset(),
    decreases a.len(),
{
    broadcast use vstd::seq_lib::group_to_multiset_ensures;
    broadcast use vstd::multiset::group_multiset_axioms;

    assert(a.len() == b.len()) by {
        to_multiset_len(a);
        to_multiset_len(b);
    }
    if a.len() == 0 {
        assert(a =~= b);
    } else {
        let x = a.last();
        assert(a[a.len() - 1] == x);
        assert(a.contains(x));
        assert(b.to_multiset().count(x) > 0);
        assert(b.contains(x));
        let k = choose|k: int| 0 <= k < b.len() && b[k] == x;
        let shorter = a.drop_last();
        assert(shorter =~= a.remove(a.len() - 1));
        assert(shorter.to_multiset() == b.remove(k).to_multiset());
        lemma_selected_permutation(root, shorter, b.remove(k), patterns);
        lemma_selected_remove(root, b, k, patterns);
        if is_target(root, x, patterns) {
            lemma_selected_contains(root, b, k, patterns);
            let sb = selected(root, b, patterns).to_multiset();
            assert(selected(root, a, patterns) == selected(root, shorter, patterns).push(
                item_path(x),
            ));
            assert(sb.remove(item_path(x)).insert(item_path(x)) =~= sb);
        }
    }
}

/// A scan returns the same for the same walk items in whatever order, as
/// long as no two of the selected paths differ in their text alone. (Of such
/// paths the one that the walk came upon first stays first.)
pub proof fn lemma_scan_order_independent(
    root: Seq<char>,
    items1: Seq<WalkItem>,
    items2: Seq<WalkItem>,
    patterns: Seq<Seq<char>>,
)
    requires
        has_root(root),
        first_failure(items1) is None,
        first_failure(items2) is None,
        items1.to_multiset() == items2.to_multiset(),
        distinct_by_components(selected(root, items1, patterns)),
    ensures
        scan_outcome(root, items1, patterns) == scan_outcome(root, items2, patterns),
{
    broadcast use vstd::seq_lib::group_to_multiset_ensures;

    let chosen1 = selected(root, items1, patterns);
    let chosen2 = selected(root, items2, patterns);
    let out1 = sorted_paths(chosen1);
    let out2 = sorted_paths(chosen2);
    lemma_selected_permutation(root, items1, items2, patterns);
    lemma_sorted_paths_sorted(chosen1);
    lemma_sorted_paths_sorted(chosen2);
    lemma_sorted_paths_permutes(chosen1);
    lemma_sorted_paths_permutes(chosen2);
    assert forall|i: int, j: int|
        0 <= i < out1.len() && 0 <= j < out1.len() && components(#[trigger] out1[i])
            == components(#[trigger] out1[j]) implies out1[i] == out1[j] by {
        assert(out1.contains(out1[i]));
        assert(chosen1.to_multiset().count(out1[i]) > 0);
        assert(chosen1.contains(out1[i]));
        assert(out1.contains(out1[j]));
        assert(chosen1.to_multiset().count(out1[j]) > 0);
        assert(chosen1.contains(out1[j]));
        let ci = choose|c: int| 0 <= c < chosen1.len() && chosen1[c] == out1[i];
        let cj = choose|c: int| 0 <= c < chosen1.len() && chosen1[c] == out1[j];
        assert(components(chosen1[ci]) == components(chosen1[cj]));
    }
    lemma_sorted_arrangement_unique(out1, out2);
}

/// No path is an offender exactly if every path is named `node_modules`; an
/// offender is the first path that is not.
pub proof fn lemma_first_offender(paths: Seq<Seq<char>>)
    ensures
        first_offender(paths) is None <==> forall|i: int|
            0 <= i < paths.len() ==> is_node_modules_dir(#[trigger] paths[i]),
        first_offender(paths) is Some ==> exists|k: int|
            0 <= k < paths.len() && first_offender(paths) == Some(#[trigger] paths[k])
                && !is_node_modules_dir(paths[k]) && forall|i: int|
                0 <= i < k ==> is_node_modules_dir(#[trigger] paths[i]),
    decreases paths.len(),
{
    if paths.len() > 0 {
        let rest = paths.drop_first();
        lemma_first_offender(rest);
        if is_node_modules_dir(paths[0]) {
            assert forall|i: int| 0 <= i < rest.len() implies rest[i] == paths[i + 1] by {}
            if first_offender(rest) is None {
                assert forall|i: int| 0 <= i < paths.len() implies is_node_modules_dir(
                    #[trigger] paths[i],
                ) by {
                    if i > 0 {
                        assert(is_node_modules_dir(rest[i - 1]));
                    }
                }
            } else {
                let k0 = choose|k: int|
                    0 <= k < rest.len() && first_offender(rest) == Some(#[trigger] rest[k])
                        && !is_node_modules_dir(rest[k]) && forall|i: int|
                        0 <= i < k ==> is_node_modules_dir(#[trigger] rest[i]);
                let k = k0 + 1;
                assert(paths[k] == rest[k0]);
                assert forall|i: int| 0 <= i < k implies is_node_modules_dir(
                    #[trigger] paths[i],
                ) by {
                    if i > 0 {
                        assert(is_node_modules_dir(rest[i - 1]));
                    }
                }
                assert(0 <= k < paths.len() && first_offender(paths) == Some(paths[k])
                    && !is_node_modules_dir(paths[k]));
            }
        } else {
            assert(first_offender(paths) == Some(paths[0]));
        }
    }
}


/// Where the walk items up to `k` are entries and the item at `k` is a
/// failure, that failure is the first.
pub proof fn lemma_first_failure_at(items: Seq<WalkItem>, k: int)
    requires
        0 <= k < items.len(),
        forall|j: int| 0 <= j < k ==> #[trigger] items[j] is Entry,
        items[k] is Failure,
    ensures
        first_failure(items) == Some(items[k]->Failure_message@),
    decreases k,
{
    if k > 0 {
        assert(items[0] is Entry);
        let rest = items.drop_first();
        assert forall|j: int| 0 <= j < k - 1 implies #[trigger] rest[j] is Entry by {
            assert(rest[j] == items[j + 1]);
        }
        assert(rest[k - 1] == items[k]);
        lemma_first_failure_at(rest, k - 1);
    }
}

/// Where every walk item is an entry, there is no failure.
pub proof fn lemma_no_failure(items: Seq<WalkItem>)
    requires
        forall|j: int| 0 <= j < items.len() ==> #[trigger] items[j] is Entry,
    ensures
        first_failure(items) is None,
    decreases items.len(),
{
    if items.len() > 0 {
        assert(items[0] is Entry);
        let rest = items.drop_first();
        assert forall|j: int| 0 <= j < rest.len() implies #[trigger] rest[j] is Entry by {
            assert(rest[j] == items[j + 1]);
        }
        lemma_no_failure(rest);
    }
}

/// Whether, from position `depth - 1` on, no part but the last is named
/// `node_modules`.
fn boundary_free(parts: &Vec<PathPart>, depth: usize) -> (r: bool)
    ensures
        r == forall|i: int|
            0 <= i < parts_view(parts@).len() - 1 && i + 1 >= depth ==> #[trigger] parts_view(
                parts@,
            )[i] != Component::Normal(node_modules()),
{
    let ghost cs = parts_view(parts@);
    if parts.len() == 0 {
        return true;
    }
    let last = parts.len() - 1;
    let mut i: usize = if depth == 0 {
        0
    } else {
        depth - 1
    };
    while i < last
        invariant
            cs == parts_view(parts@),
            last == parts.len() - 1,
            i + 1 >= depth,
            forall|j: int|
                0 <= j < i && j + 1 >= depth ==> #[trigger] cs[j] != Component::Normal(
                    node_modules(),
                ),
        decreases parts.len() - i,
    {
        assert(cs[i as int] == parts@[i as int]@);
        match &parts[i] {
            PathPart::Normal(name) => {
                if is_node_modules(name) {
                    assert(cs[i as int] == Component::Normal(node_modules()));
                    return false;
                }
            },
            _ => {},
        }
        i = i + 1;
    }
    true
}

/// Whether the parts start with the parts of the root.
fn starts_with_parts(parts: &Vec<PathPart>, root: &Vec<PathPart>) -> (r: bool)
    ensures
        r == (parts_view(root@).len() <= parts_view(parts@).len() && parts_view(parts@).take(
            parts_view(root@).len() as int,
        ) =~= parts_view(root@)),
{
    let ghost cs = parts_view(parts@);
    let ghost rs = parts_view(root@);
    if root.len() > parts.len() {
        return false;
    }
    let mut i: usize = 0;
    while i < root.len()
        invariant
            cs == parts_view(parts@),
            rs == parts_view(root@),
            root.len() <= parts.len(),
            i <= root.len(),
            forall|j: int| 0 <= j < i ==> #[trigger] cs[j] == rs[j],
        decreases root.len() - i,
    {
        assert(cs[i as int] == parts@[i as int]@);
        assert(rs[i as int] == root@[i as int]@);
        if !same_part(&parts[i], &root[i]) {
            assert(cs.take(rs.len() as int)[i as int] == cs[i as int]);
            return false;
        }
        i = i + 1;
    }
    true
}

/// Computes `insertion_point` on paths that are given with their parts.
fn insertion_index(
    keys: &Vec<Vec<PathPart>>,
    key: &Vec<PathPart>,
    Ghost(s): Ghost<Seq<Seq<char>>>,
    Ghost(x): Ghost<Seq<char>>,
) -> (p: usize)
    requires
        keys.len() == s.len(),
        forall|j: int| 0 <= j < s.len() ==> parts_view(#[trigger] keys@[j]@) == components(s[j]),
        parts_view(key@) == components(x),
    ensures
        p == insertion_point(s, x),
        p <= keys.len(),
{
    let mut p: usize = 0;
    proof {
        assert(s.skip(0) =~= s);
    }
    while p < keys.len()
        invariant
            p <= keys.len(),
            keys.len() == s.len(),
            forall|j: int|
                0 <= j < s.len() ==> parts_view(#[trigger] keys@[j]@) == components(s[j]),
            parts_view(key@) == components(x),
            insertion_point(s, x) == p + insertion_point(s.skip(p as int), x),
        decreases keys.len() - p,
    {
        proof {
            assert(s.skip(p as int)[0] == s[p as int]);
            assert(s.skip(p as int).drop_first() =~= s.skip(p + 1));
        }
        if parts_precede(key, &keys[p]) {
            return p;
        }
        p = p + 1;
    }
    p
}

/// Finds the `node_modules` directories below a root.
pub struct Scanner {
    root_path: String,
    root_parts: Vec<PathPart>,
    patterns: PatternSet,
}

impl Scanner {
    #[verifier::type_invariant]
    spec fn parts_match(&self) -> bool {
        parts_view(self.root_parts@) == components(self.root_path@)
    }

    /// The root below which the scanner looks.
    pub closed spec fn root(&self) -> Seq<char> {
        self.root_path@
    }

    /// The texts of the exclusion patterns in force.
    pub closed spec fn exclusions(&self) -> Seq<Seq<char>> {
        self.patterns.sources()
    }

    /// The diagnostic lines for the patterns that did not compile.
    pub closed spec fn warning_lines(&self) -> Seq<Seq<char>> {
        self.patterns.warning_lines()
    }

    /// A scanner for the tree below `root_path`. Of the exclusion patterns
    /// those that compile are in force; each of the others is left out and
    /// has a diagnostic line.
    pub fn new(root_path: &str, exclude_patterns: &[String]) -> (scanner: Self)
        ensures
            scanner.root() == root_path@,
            scanner.exclusions() == accepted(texts(exclude_patterns@)),
            scanner.warning_lines() == diagnostics(texts(exclude_patterns@)),
    {
        Scanner {
            root_path: root_path.to_owned(),
            root_parts: split_components(root_path),
            patterns: PatternSet::compile(exclude_patterns),
        }
    }

    /// The root below which the scanner looks.
    pub fn root_path(&self) -> (root: &str)
        ensures
            root@ == self.root(),
    {
        self.root_path.as_str()
    }

    /// The diagnostic lines for the patterns that did not compile, for the
    /// caller to print.
    pub fn warnings(&self) -> (lines: &Vec<String>)
        ensures
            texts(lines@) == self.warning_lines(),
    {
        self.patterns.warnings()
    }

    /// The directories that hold the given paths: the parent of each path
    /// that has one.
    pub fn get_parent_directories(&self, paths: &[String]) -> (dirs: Vec<String>)
        ensures
            texts(dirs@) == parents(texts(paths@)),
    {
        let ghost all = texts(paths@);
        let mut dirs: Vec<String> = Vec::new();
        let mut i: usize = 0;
        proof {
            assert(all.take(0) =~= Seq::<Seq<char>>::empty());
            assert(texts(dirs@) =~= parents(all.take(0)));
        }
        while i < paths.len()
            invariant
                i <= paths.len(),
                all == texts(paths@),
                texts(dirs@) == parents(all.take(i as int)),
            decreases paths.len() - i,
        {
            proof {
                assert(all.take(i + 1).drop_last() =~= all.take(i as int));
                assert(all.take(i + 1).last() == paths@[i as int]@);
            }
            let ghost before = texts(dirs@);
            match parent_of(paths[i].as_str()) {
                Some(parent) => {
                    dirs.push(parent);
                    proof {
                        assert(texts(dirs@) =~= before.push(parent@));
                    }
                },
                None => {},
            }
            i = i + 1;
        }
        proof {
            assert(all.take(paths.len() as int) =~= all);
        }
        dirs
    }

    /// The number of exclusion patterns in force.
    pub fn exclusion_pattern_count(&self) -> (n: usize)
        ensures
            n == self.exclusions().len(),
    {
        self.patterns.len()
    }

    /// Whether the walk may visit `path` and, if it is a directory, what is
    /// below it.
    pub fn should_descend(&self, path: &str) -> (r: bool)
        ensures
            r == may_visit(self.root(), path@),
    {
        proof {
            use_type_invariant(self);
        }
        let parts = split_components(path);
        boundary_free(&parts, self.root_parts.len())
    }

    /// Whether an exclusion pattern matches the text of `path`.
    pub fn should_exclude(&self, path: &str) -> (r: bool)
        ensures
            r == any_matches(self.exclusions(), path@),
    {
        self.patterns.matches_any(path)
    }

    /// From what the walk below the root came upon, the directories to
    /// delete: each directory in the tree of the root that is named
    /// `node_modules`, lies below no other from the root downward, and is
    /// matched by no exclusion pattern, sorted by path. Every path handed back
    /// is absolute: a root that is not fails the scan. A failure of the walk
    /// fails the scan, with the first failure's message.
    pub fn find_node_modules_dirs(&self, walked: &[WalkItem]) -> (r: Result<
        Vec<String>,
        CleanupError,
    >)
        ensures
            match scan_outcome(self.root(), walked@, self.exclusions()) {
                Ok(paths) => r is Ok && texts(r->Ok_0@) == paths,
                Err(message) => r is Err && r->Err_0.text() == message && if has_root(
                    self.root(),
                ) {
                    r->Err_0 is ScanFailed
                } else {
                    r->Err_0 is RelativeRoot && r->Err_0->RelativeRoot_root@ == self.root()
                },
            },
            r is Ok ==> is_sorted(texts(r->Ok_0@)),
            r is Ok ==> forall|j: int|
                0 <= j < r->Ok_0@.len() ==> is_target_path(
                    self.root(),
                    #[trigger] texts(r->Ok_0@)[j],
                    self.exclusions(),
                ),
            r is Ok ==> forall|j: int|
                0 <= j < r->Ok_0@.len() ==> has_root(#[trigger] texts(r->Ok_0@)[j]),
            r is Ok ==> texts(r->Ok_0@).to_multiset() == selected(
                self.root(),
                walked@,
                self.exclusions(),
            ).to_multiset(),
    {
        proof {
            use_type_invariant(self);
        }
        let ghost exclusions = self.exclusions();
        let ghost root = self.root();
        if !is_absolute(self.root_path.as_str()) {
            return Err(CleanupError::RelativeRoot { root: self.root_path.clone() });
        }
        let depth = self.root_parts.len();
        let mut out: Vec<String> = Vec::new();
        let mut keys: Vec<Vec<PathPart>> = Vec::new();
        let mut i: usize = 0;
        proof {
            assert(walked@.take(0) =~= Seq::<WalkItem>::empty());
            assert(texts(out@) =~= sorted_paths(selected(root, walked@.take(0), exclusions)));
        }
        while i < walked.len()
            invariant
                i <= walked.len(),
                exclusions == self.exclusions(),
                root == self.root(),
                has_root(root),
                depth == self.root_parts.len(),
                parts_view(self.root_parts@) == components(root),
                forall|j: int| 0 <= j < i ==> #[trigger] walked@[j] is Entry,
                texts(out@) == sorted_paths(selected(root, walked@.take(i as int), exclusions)),
                keys.len() == out.len(),
                forall|j: int|
                    0 <= j < out.len() ==> parts_view(#[trigger] keys@[j]@) == components(
                        out@[j]@,
                    ),
            decreases walked.len() - i,
        {
            proof {
                assert(walked@.take(i + 1).drop_last() =~= walked@.take(i as int));
                assert(walked@.take(i + 1).last() == walked@[i as int]);
            }
            match &walked[i] {
                WalkItem::Failure { message } => {
                    proof {
                        lemma_first_failure_at(walked@, i as int);
                    }
                    return Err(CleanupError::ScanFailed { message: message.clone() });
                },
                WalkItem::Entry { path, is_dir } => {
                    let key = split_components(path.as_str());
                    if *is_dir && starts_with_parts(&key, &self.root_parts) && boundary_free(
                        &key,
                        depth,
                    ) && parts_end_in_node_modules(&key) && !self.patterns.matches_any(
                        path.as_str(),
                    ) {
                        let ghost before = texts(out@);
                        let ghost old_out = out@;
                        let ghost old_keys = keys@;
                        assert(is_target(root, walked@[i as int], exclusions));
                        assert(selected(root, walked@.take(i + 1), exclusions).drop_last()
                            =~= selected(root, walked@.take(i as int), exclusions));
                        assert forall|j: int| 0 <= j < before.len() implies parts_view(
                            #[trigger] keys@[j]@,
                        ) == components(before[j]) by {}
                        let p = insertion_index(&keys, &key, Ghost(before), Ghost(path@));
                        out.insert(p, path.clone());
                        keys.insert(p, key);
                        proof {
                            assert(texts(out@) =~= before.insert(p as int, path@));
                            assert forall|j: int| 0 <= j < out.len() implies parts_view(
                                #[trigger] keys@[j]@,
                            ) == components(out@[j]@) by {
                                if j < p {
                                    assert(keys@[j] == old_keys[j]);
                                    assert(out@[j] == old_out[j]);
                                } else if j > p {
                                    assert(keys@[j] == old_keys[j - 1]);
                                    assert(out@[j] == old_out[j - 1]);
                                }
                            }
                        }
                    } else {
                        assert(!is_target(root, walked@[i as int], exclusions));
                    }
                },
            }
            i = i + 1;
        }
        proof {
            assert(walked@.take(walked.len() as int) =~= walked@);
            lemma_no_failure(walked@);
            lemma_scan_outcome(root, walked@, exclusions);
        }
        Ok(out)
    }
}

/// Checks that every path handed over for deletion has `node_modules` as its
/// terminal component, and fails with the first that has not.
pub fn validate_targets(paths: &[String]) -> (r: Result<(), CleanupError>)
    ensures
        r is Ok <==> forall|i: int|
            0 <= i < paths@.len() ==> is_node_modules_dir(#[trigger] paths@[i]@),
        match first_offender(texts(paths@)) {
            None => r is Ok,
            Some(offender) => r is Err && r->Err_0 is UnsafeTarget
                && r->Err_0->UnsafeTarget_path@ == offender,
        },
{
    let ghost all = texts(paths@);
    let mut i: usize = 0;
    proof {
        assert(all.skip(0) =~= all);
    }
    while i < paths.len()
        invariant
            i <= paths.len(),
            all == texts(paths@),
            first_offender(all) == first_offender(all.skip(i as int)),
        decreases paths.len() - i,
    {
        proof {
            assert(all.skip(i as int)[0] == paths@[i as int]@);
            assert(all.skip(i as int).drop_first() =~= all.skip(i + 1));
        }
        let parts = split_components(paths[i].as_str());
        if !parts_end_in_node_modules(&parts) {
            proof {
                assert(!is_node_modules_dir(paths@[i as int]@));
            }
            return Err(CleanupError::UnsafeTarget { path: paths[i].clone() });
        }
        proof {
            assert(is_node_modules_dir(paths@[i as int]@));
        }
        i = i + 1;
    }
    proof {
        assert(all.skip(paths.len() as int) =~= Seq::<Seq<char>>::empty());
        lemma_first_offender(all);
        assert forall|i: int| 0 <= i < paths@.len() implies is_node_modules_dir(
            #[trigger] paths@[i]@,
        ) by {
            assert(is_node_modules_dir(all[i]));
        }
    }
    Ok(())
}

} // verus!
