//! Properties that hold across the library's operations.
use vstd::prelude::*;
use crate::text;
use crate::metrics::{self, CountsView, MetricsView};
use crate::tui::{self, FormField, FormView, Key};
use crate::node::{self, NodeView};
use crate::scanner::{self, EntryView};
use crate::render::html;
use crate::report::MappingReport;
use crate::render::markdown as md;
use crate::console;
use crate::cli;
use crate::warning::WarningView;

verus! {

// ---------------------------------------------------------------------------
// Extension counts
// ---------------------------------------------------------------------------

/// Counting a file under key `k` raises the count for `k` by one and leaves
/// every other key's count unchanged.
pub proof fn law_bump_counts_one_key(s: CountsView, k: Seq<char>, j: Seq<char>)
    requires
        metrics::keys_ascending(s),
        metrics::count_for(s, k) < u64::MAX,
    ensures
        metrics::count_for(metrics::bump(s, k), k) == metrics::count_for(s, k) + 1,
        j != k ==> metrics::count_for(metrics::bump(s, k), j) == metrics::count_for(s, j),
    decreases s.len(),
{
    let b = metrics::bump(s, k);
    if s.len() == 0 {
        assert(b.skip(1) =~= Seq::<(Seq<char>, u64)>::empty());
        assert(metrics::lookup(b, k) == Some(1u64));
        assert(metrics::lookup(b.skip(1), j) is None);
    } else if s[0].0 == k {
        assert(metrics::lookup(s, k) == Some(s[0].1));
        assert(b.skip(1) =~= s.skip(1));
        assert(metrics::lookup(b, k) == Some((s[0].1 + 1) as u64));
        if j != k {
            assert(metrics::lookup(b, j) == metrics::lookup(b.skip(1), j));
            assert(metrics::lookup(s, j) == metrics::lookup(s.skip(1), j));
        }
    } else if text::text_lt(k, s[0].0) {
        assert(b.skip(1) =~= s);
        assert(metrics::lookup(s, k) is None) by {
            assert forall|i: int| 0 <= i < s.len() implies (#[trigger] s[i]).0 != k by {
                if i > 0 {
                    text::lemma_text_lt_transitive(k, s[0].0, s[i].0);
                }
                text::lemma_text_lt_irreflexive(k);
            }
            metrics::lemma_lookup_absent(s, k);
        }
        assert(metrics::lookup(b, k) == Some(1u64));
        if j != k {
            assert(metrics::lookup(b, j) == metrics::lookup(b.skip(1), j));
        }
    } else {
        let t = s.skip(1);
        assert(metrics::keys_ascending(t)) by {
            assert forall|a: int, c: int| 0 <= a < c < t.len() implies text::text_lt(#[trigger] t[a].0, #[trigger] t[c].0) by {
                assert(t[a] == s[a + 1] && t[c] == s[c + 1]);
            }
        }
        assert(metrics::lookup(s, k) == metrics::lookup(t, k));
        law_bump_counts_one_key(t, k, j);
        assert(b[0] == s[0]);
        assert(b.skip(1) =~= metrics::bump(t, k));
        assert(metrics::lookup(b, k) == metrics::lookup(metrics::bump(t, k), k));
        if j != k {
            if s[0].0 == j {
                assert(metrics::lookup(b, j) == Some(s[0].1));
                assert(metrics::lookup(s, j) == Some(s[0].1));
            } else {
                assert(metrics::lookup(b, j) == metrics::lookup(metrics::bump(t, k), j));
                assert(metrics::lookup(s, j) == metrics::lookup(t, j));
            }
        }
    }
}

/// Counting a file keeps the extensions in ascending order.
pub proof fn law_bump_keeps_order(s: CountsView, k: Seq<char>)
    requires
        metrics::keys_ascending(s),
    ensures
        metrics::keys_ascending(metrics::bump(s, k)),
    decreases s.len(),
{
    let b = metrics::bump(s, k);
    if s.len() == 0 {
    } else if s[0].0 == k {
        assert forall|a: int, c: int| 0 <= a < c < b.len() implies text::text_lt(#[trigger] b[a].0, #[trigger] b[c].0) by {
            assert(b[c] == s[c]);
            if a > 0 {
                assert(b[a] == s[a]);
            }
        }
    } else if text::text_lt(k, s[0].0) {
        assert forall|a: int, c: int| 0 <= a < c < b.len() implies text::text_lt(#[trigger] b[a].0, #[trigger] b[c].0) by {
            assert(b[c] == s[c - 1]);
            if a > 0 {
                assert(b[a] == s[a - 1]);
            } else if c - 1 > 0 {
                text::lemma_text_lt_transitive(k, s[0].0, s[c - 1].0);
            }
        }
    } else {
        let t = s.skip(1);
        assert(metrics::keys_ascending(t)) by {
            assert forall|a: int, c: int| 0 <= a < c < t.len() implies text::text_lt(#[trigger] t[a].0, #[trigger] t[c].0) by {
                assert(t[a] == s[a + 1] && t[c] == s[c + 1]);
            }
        }
        law_bump_keeps_order(t, k);
        let bt = metrics::bump(t, k);
        lemma_bump_keys(t, k);
        text::lemma_text_lt_total(s[0].0, k);
        assert forall|a: int, c: int| 0 <= a < c < b.len() implies text::text_lt(#[trigger] b[a].0, #[trigger] b[c].0) by {
            assert(b[c] == bt[c - 1]);
            if a > 0 {
                assert(b[a] == bt[a - 1]);
            } else {
                assert(b[0] == s[0]);
                let key = bt[c - 1].0;
                if key == k {
                } else {
                    let m = choose|m: int| 0 <= m < t.len() && t[m].0 == key;
                    assert(t[m] == s[m + 1]);
                }
            }
        }
    }
}

/// Every key after a bump is `k` or one that was there before.
proof fn lemma_bump_keys(s: CountsView, k: Seq<char>)
    ensures
        forall|i: int| 0 <= i < metrics::bump(s, k).len() ==> (#[trigger] metrics::bump(s, k)[i]).0 == k
            || exists|m: int| 0 <= m < s.len() && s[m].0 == metrics::bump(s, k)[i].0,
    decreases s.len(),
{
    let b = metrics::bump(s, k);
    if s.len() > 0 {
        if s[0].0 == k {
            assert forall|i: int| 0 <= i < b.len() implies (#[trigger] b[i]).0 == k
                || exists|m: int| 0 <= m < s.len() && s[m].0 == b[i].0 by {
                if i > 0 {
                    assert(b[i] == s[i]);
                }
            }
        } else if text::text_lt(k, s[0].0) {
            assert forall|i: int| 0 <= i < b.len() implies (#[trigger] b[i]).0 == k
                || exists|m: int| 0 <= m < s.len() && s[m].0 == b[i].0 by {
                if i > 0 {
                    assert(b[i] == s[i - 1]);
                }
            }
        } else {
            let t = s.skip(1);
            lemma_bump_keys(t, k);
            let bt = metrics::bump(t, k);
            assert forall|i: int| 0 <= i < b.len() implies (#[trigger] b[i]).0 == k
                || exists|m: int| 0 <= m < s.len() && s[m].0 == b[i].0 by {
                if i == 0 {
                    assert(b[0] == s[0]);
                } else {
                    assert(b[i] == bt[i - 1]);
                    if bt[i - 1].0 != k {
                        let m = choose|m: int| 0 <= m < t.len() && t[m].0 == bt[i - 1].0;
                        assert(t[m] == s[m + 1]);
                    }
                }
            }
        }
    }
}

/// The counts per extension add up to the number of files.
pub open spec fn files_balanced(m: MetricsView) -> bool {
    metrics::sum_counts(m.by_extension) == m.total_files
}

/// Counting a file raises the sum of the extension counts by one.
pub proof fn law_bump_adds_one(s: CountsView, k: Seq<char>)
    requires
        metrics::count_for(s, k) < u64::MAX,
    ensures
        metrics::sum_counts(metrics::bump(s, k)) == metrics::sum_counts(s) + 1,
    decreases s.len(),
{
    let b = metrics::bump(s, k);
    if s.len() == 0 {
        assert(b.skip(1) =~= Seq::<(Seq<char>, u64)>::empty());
        assert(metrics::sum_counts(b.skip(1)) == 0);
    } else if s[0].0 == k {
        assert(metrics::lookup(s, k) == Some(s[0].1));
        assert(b.skip(1) =~= s.skip(1));
    } else if text::text_lt(k, s[0].0) {
        assert(b.skip(1) =~= s);
    } else {
        assert(metrics::lookup(s, k) == metrics::lookup(s.skip(1), k));
        law_bump_adds_one(s.skip(1), k);
        assert(b.skip(1) =~= metrics::bump(s.skip(1), k));
    }
}

/// The empty metrics are balanced, and registering a directory, a file or a
/// warning keeps the extension counts adding up to the number of files.
pub proof fn law_metrics_stay_balanced(m: MetricsView, extension: Option<Seq<char>>)
    requires
        files_balanced(m),
        m.total_files < u64::MAX,
        metrics::count_for(m.by_extension, metrics::file_key(extension)) < u64::MAX,
    ensures
        files_balanced(metrics::empty_metrics()),
        files_balanced(metrics::after_directory(m)),
        files_balanced(metrics::after_file(m, extension)),
        files_balanced(metrics::after_warning(m)),
{
    law_bump_adds_one(m.by_extension, metrics::file_key(extension));
}

/// Every warning counts one ignored item: registering anything keeps the two
/// counters equal.
pub proof fn law_warnings_match_ignored(m: MetricsView, extension: Option<Seq<char>>)
    requires
        m.warning_count == m.ignored_items,
    ensures
        metrics::empty_metrics().warning_count == metrics::empty_metrics().ignored_items,
        metrics::after_directory(m).warning_count == metrics::after_directory(m).ignored_items,
        metrics::after_file(m, extension).warning_count == metrics::after_file(m, extension).ignored_items,
        metrics::after_warning(m).warning_count == metrics::after_warning(m).ignored_items,
{
}

// ---------------------------------------------------------------------------
// The form
// ---------------------------------------------------------------------------

/// Moving focus forward then back, or back then forward, returns to the
/// same field; four moves forward go round once.
pub proof fn law_focus_round_trip(f: FormField)
    ensures
        tui::field_before(tui::field_after(f)) == f,
        tui::field_after(tui::field_before(f)) == f,
        tui::field_after(tui::field_after(tui::field_after(tui::field_after(f)))) == f,
{
}

/// Removing the character just inserted gives back the original text.
pub proof fn law_remove_undoes_insert(s: Seq<char>, index: int, c: char)
    requires
        0 <= index,
    ensures
        tui::removed(tui::inserted(s, index, c), tui::clamp_index(s, index)) == s,
{
    assert(tui::removed(tui::inserted(s, index, c), tui::clamp_index(s, index)) =~= s);
}

/// Both cursors stand within their texts.
pub open spec fn cursors_in_text(f: FormView) -> bool {
    f.input_cursor <= f.input.len() && f.port_cursor <= f.port.len()
}

/// No key moves a cursor past the end of its text.
pub proof fn law_keys_keep_cursors_in_text(f: FormView, key: Key)
    requires
        cursors_in_text(f),
    ensures
        cursors_in_text(tui::form_step(f, key).0),
{
}

/// No key puts anything but ASCII digits into the port.
pub proof fn law_port_stays_digits(f: FormView, key: Key)
    requires
        tui::all_ascii_digits(f.port),
        f.port_cursor <= f.port.len(),
    ensures
        tui::all_ascii_digits(tui::form_step(f, key).0.port),
{
    let g = tui::form_step(f, key).0;
    assert forall|i: int| 0 <= i < g.port.len() implies '0' <= #[trigger] g.port[i] && g.port[i] <= '9' by {
        if g.port != f.port {
            match key {
                Key::Char(c) => {
                    let at = tui::clamp_index(f.port, f.port_cursor as int);
                    if i < at {
                        assert(g.port[i] == f.port[i]);
                    } else if i > at {
                        assert(g.port[i] == f.port[i - 1]);
                    }
                },
                Key::Backspace => {
                    if i < f.port_cursor - 1 {
                        assert(g.port[i] == f.port[i]);
                    } else {
                        assert(g.port[i] == f.port[i + 1]);
                    }
                },
                Key::Delete => {
                    if i < f.port_cursor {
                        assert(g.port[i] == f.port[i]);
                    } else {
                        assert(g.port[i] == f.port[i + 1]);
                    }
                },
                _ => {},
            }
        }
    }
}

/// The spinner frame index stays below the number of frames.
pub proof fn law_spinner_stays_in_range(index: usize)
    ensures
        (index + 1) % 8 < 8,
{
}

}

verus! {

// ---------------------------------------------------------------------------
// Listing order
// ---------------------------------------------------------------------------

/// "Not listed before" is transitive: if `a` is not before `b` and `b` is
/// not before `c`, then `a` is not before `c`.
pub proof fn law_not_before_transitive(a: NodeView, b: NodeView, c: NodeView)
    requires
        !node::node_before(a, b),
        !node::node_before(b, c),
    ensures
        !node::node_before(a, c),
{
    let (na, nb, nc) = (node::name_of(a), node::name_of(b), node::name_of(c));
    if node::node_before(a, c) {
        text::lemma_text_lt_total(na, nb);
        text::lemma_text_lt_total(nb, nc);
        if text::text_lt(nb, na) && text::text_lt(nc, nb) {
            text::lemma_text_lt_transitive(nc, nb, na);
            text::lemma_text_lt_asymmetric(na, nc);
        } else if text::text_lt(nb, na) {
            text::lemma_text_lt_asymmetric(na, nc);
        } else if text::text_lt(nc, nb) {
            text::lemma_text_lt_asymmetric(na, nc);
        }
    }
}

/// "Listed before" is asymmetric.
pub proof fn law_before_asymmetric(a: NodeView, b: NodeView)
    requires
        node::node_before(a, b),
    ensures
        !node::node_before(b, a),
{
    if node::rank_of(a) == node::rank_of(b) {
        text::lemma_text_lt_asymmetric(node::name_of(a), node::name_of(b));
    }
}

/// No node comes after a node listed later.
pub open spec fn nodes_ordered(s: Seq<NodeView>) -> bool {
    forall|i: int, j: int| 0 <= i < j < s.len() ==> !node::node_before(#[trigger] s[j], #[trigger] s[i])
}

/// Inserting in order adds exactly the inserted node.
pub proof fn law_insert_adds_node(s: Seq<NodeView>, x: NodeView)
    ensures
        scanner::insert_in_order(s, x).to_multiset() =~= s.to_multiset().insert(x),
    decreases s.len(),
{
    broadcast use vstd::seq_lib::to_multiset_build, vstd::multiset::group_multiset_axioms;
    if s.len() == 0 {
        assert(scanner::insert_in_order(s, x) =~= s.push(x));
    } else if node::node_before(x, s.last()) {
        let d = s.drop_last();
        law_insert_adds_node(d, x);
        assert(s =~= d.push(s.last()));
        let q = scanner::insert_in_order(d, x);
        assert(q.push(s.last()).to_multiset() =~= q.to_multiset().insert(s.last()));
        assert(s.to_multiset() =~= d.to_multiset().insert(s.last()));
    }
}

/// Sorting keeps exactly the given nodes.
pub proof fn law_sort_is_permutation(s: Seq<NodeView>)
    ensures
        scanner::sorted_nodes(s).to_multiset() =~= s.to_multiset(),
    decreases s.len(),
{
    broadcast use vstd::seq_lib::to_multiset_build;
    if s.len() > 0 {
        law_sort_is_permutation(s.drop_last());
        law_insert_adds_node(scanner::sorted_nodes(s.drop_last()), s.last());
        assert(s =~= s.drop_last().push(s.last()));
    }
}

/// Every node of a sorted sequence is one of the given nodes.
pub proof fn law_sorted_members(s: Seq<NodeView>, i: int)
    requires
        0 <= i < scanner::sorted_nodes(s).len(),
    ensures
        s.contains(scanner::sorted_nodes(s)[i]),
{
    broadcast use vstd::seq_lib::to_multiset_contains;
    let r = scanner::sorted_nodes(s);
    law_sort_is_permutation(s);
    assert(r.contains(r[i]));
    assert(r.to_multiset().count(r[i]) > 0);
    assert(s.to_multiset().count(r[i]) > 0);
}

/// Inserting in order keeps a sequence ordered.
proof fn lemma_insert_keeps_order(s: Seq<NodeView>, x: NodeView)
    requires
        nodes_ordered(s),
    ensures
        nodes_ordered(scanner::insert_in_order(s, x)),
    decreases s.len(),
{
    broadcast use vstd::seq_lib::to_multiset_contains;
    let r = scanner::insert_in_order(s, x);
    if s.len() == 0 {
    } else if !node::node_before(x, s.last()) {
        assert forall|i: int, j: int| 0 <= i < j < r.len() implies !node::node_before(#[trigger] r[j], #[trigger] r[i]) by {
            if j == s.len() {
                if i < s.len() - 1 {
                    law_not_before_transitive(x, s.last(), s[i]);
                }
            } else {
                assert(r[i] == s[i] && r[j] == s[j]);
            }
        }
    } else {
        let d = s.drop_last();
        assert(nodes_ordered(d)) by {
            assert forall|i: int, j: int| 0 <= i < j < d.len() implies !node::node_before(#[trigger] d[j], #[trigger] d[i]) by {
                assert(d[i] == s[i] && d[j] == s[j]);
            }
        }
        lemma_insert_keeps_order(d, x);
        let q = scanner::insert_in_order(d, x);
        law_insert_adds_node(d, x);
        assert forall|i: int, j: int| 0 <= i < j < r.len() implies !node::node_before(#[trigger] r[j], #[trigger] r[i]) by {
            if j == r.len() - 1 {
                assert(r[j] == s.last());
                assert(r[i] == q[i]);
                assert(q.contains(q[i]));
                assert(q.to_multiset().count(q[i]) > 0);
                if q[i] == x {
                    law_before_asymmetric(x, s.last());
                } else {
                    assert(d.to_multiset().count(q[i]) > 0);
                    assert(d.contains(q[i]));
                    let m = choose|m: int| 0 <= m < d.len() && d[m] == q[i];
                    assert(s[m] == d[m]);
                }
            } else {
                assert(r[i] == q[i] && r[j] == q[j]);
            }
        }
    }
}

/// Sorted nodes are in listing order: no node is listed before one that
/// precedes it.
pub proof fn law_sorted_nodes_ordered(s: Seq<NodeView>)
    ensures
        nodes_ordered(scanner::sorted_nodes(s)),
    decreases s.len(),
{
    if s.len() > 0 {
        law_sorted_nodes_ordered(s.drop_last());
        lemma_insert_keeps_order(scanner::sorted_nodes(s.drop_last()), s.last());
    }
}

}

verus! {

// ---------------------------------------------------------------------------
// What a scan reports
// ---------------------------------------------------------------------------

/// The number of files in a tree.
pub open spec fn tree_files(n: NodeView) -> nat
    decreases n,
{
    match n {
        NodeView::File { .. } => 1,
        NodeView::Directory { children, .. } => nodes_files(children),
    }
}

/// The number of files in sibling trees.
pub open spec fn nodes_files(cs: Seq<NodeView>) -> nat
    decreases cs,
{
    if cs.len() == 0 {
        0
    } else {
        nodes_files(cs.drop_last()) + tree_files(cs.last())
    }
}

/// The number of files that were read, at any depth.
pub open spec fn entry_files(e: EntryView) -> nat
    decreases e,
{
    match e {
        EntryView::File { .. } => 1,
        EntryView::Directory { entries, .. } => entries_files(entries),
        _ => 0,
    }
}

/// The number of files read in a sequence of entries.
pub open spec fn entries_files(es: Seq<EntryView>) -> nat
    decreases es,
{
    if es.len() == 0 {
        0
    } else {
        entries_files(es.drop_last()) + entry_files(es.last())
    }
}

/// Whether every directory of a tree lists its children in listing order.
pub open spec fn tree_ordered(n: NodeView) -> bool
    decreases n,
{
    match n {
        NodeView::File { .. } => true,
        NodeView::Directory { children, .. } => nodes_ordered(children) && all_trees_ordered(children),
    }
}

/// Whether every one of sibling trees is ordered throughout.
pub open spec fn all_trees_ordered(cs: Seq<NodeView>) -> bool
    decreases cs,
{
    if cs.len() == 0 {
        true
    } else {
        all_trees_ordered(cs.drop_last()) && tree_ordered(cs.last())
    }
}

/// `all_trees_ordered` holds exactly when each tree is ordered.
proof fn lemma_all_trees_ordered(cs: Seq<NodeView>)
    ensures
        all_trees_ordered(cs) <==> forall|i: int| 0 <= i < cs.len() ==> tree_ordered(#[trigger] cs[i]),
    decreases cs.len(),
{
    if cs.len() > 0 {
        let d = cs.drop_last();
        lemma_all_trees_ordered(d);
        if all_trees_ordered(cs) {
            assert forall|i: int| 0 <= i < cs.len() implies tree_ordered(#[trigger] cs[i]) by {
                if i < d.len() {
                    assert(cs[i] == d[i]);
                }
            }
        }
        if forall|i: int| 0 <= i < cs.len() ==> tree_ordered(#[trigger] cs[i]) {
            assert forall|i: int| 0 <= i < d.len() implies tree_ordered(#[trigger] d[i]) by {
                assert(cs[i] == d[i]);
            }
        }
    }
}

/// Inserting a node adds its files.
proof fn lemma_insert_files(s: Seq<NodeView>, x: NodeView)
    ensures
        nodes_files(scanner::insert_in_order(s, x)) == nodes_files(s) + tree_files(x),
    decreases s.len(),
{
    let r = scanner::insert_in_order(s, x);
    if s.len() == 0 {
        assert(r.drop_last() =~= s);
    } else if !node::node_before(x, s.last()) {
        assert(r.drop_last() =~= s);
    } else {
        lemma_insert_files(s.drop_last(), x);
        assert(r.drop_last() =~= scanner::insert_in_order(s.drop_last(), x));
    }
}

/// Sorting keeps the number of files.
proof fn lemma_sort_files(s: Seq<NodeView>)
    ensures
        nodes_files(scanner::sorted_nodes(s)) == nodes_files(s),
    decreases s.len(),
{
    if s.len() > 0 {
        lemma_sort_files(s.drop_last());
        lemma_insert_files(scanner::sorted_nodes(s.drop_last()), s.last());
    }
}

/// The tree of an entry holds every file that was read below it.
proof fn lemma_scan_files(e: EntryView)
    ensures
        scanner::scan_node(e) matches Some(t) ==> tree_files(t) == entry_files(e),
    decreases e,
{
    if let EntryView::Directory { entries, .. } = e {
        lemma_scan_files_seq(entries);
        lemma_sort_files(scanner::scan_nodes(entries));
    }
}

/// The trees of entries hold every file that was read in them.
proof fn lemma_scan_files_seq(es: Seq<EntryView>)
    ensures
        nodes_files(scanner::scan_nodes(es)) == entries_files(es),
    decreases es,
{
    if es.len() > 0 {
        lemma_scan_files_seq(es.drop_last());
        lemma_scan_files(es.last());
        let pre = scanner::scan_nodes(es.drop_last());
        if let Some(n) = scanner::scan_node(es.last()) {
            assert(scanner::scan_nodes(es) == pre.push(n));
            assert(pre.push(n).drop_last() =~= pre);
            assert(pre.push(n).last() == n);
            assert(nodes_files(pre.push(n)) == nodes_files(pre) + tree_files(n));
            assert(tree_files(n) == entry_files(es.last()));
        } else {
            assert(scanner::scan_nodes(es) == pre);
            assert(entry_files(es.last()) == 0);
        }
        assert(entries_files(es) == entries_files(es.drop_last()) + entry_files(es.last()));
    }
}

/// Every tree of an entry is ordered throughout.
proof fn lemma_scan_ordered(e: EntryView)
    ensures
        scanner::scan_node(e) matches Some(t) ==> tree_ordered(t),
    decreases e,
{
    if let EntryView::Directory { entries, .. } = e {
        lemma_scan_ordered_seq(entries);
        let s = scanner::scan_nodes(entries);
        let r = scanner::sorted_nodes(s);
        law_sorted_nodes_ordered(s);
        lemma_all_trees_ordered(s);
        lemma_all_trees_ordered(r);
        assert forall|i: int| 0 <= i < r.len() implies tree_ordered(#[trigger] r[i]) by {
            law_sorted_members(s, i);
            let m = choose|m: int| 0 <= m < s.len() && s[m] == r[i];
        }
    }
}

/// Every tree of a sequence of entries is ordered throughout.
proof fn lemma_scan_ordered_seq(es: Seq<EntryView>)
    ensures
        all_trees_ordered(scanner::scan_nodes(es)),
    decreases es,
{
    if es.len() > 0 {
        lemma_scan_ordered_seq(es.drop_last());
        lemma_scan_ordered(es.last());
        let pre = scanner::scan_nodes(es.drop_last());
        if let Some(n) = scanner::scan_node(es.last()) {
            assert(pre.push(n).drop_last() =~= pre);
        }
    }
}

/// Counting an entry adds its files to the file total and its warnings to
/// the warning and ignored-item totals, and keeps the extension counts
/// adding up to the file total.
proof fn lemma_scan_counts(e: EntryView, m: MetricsView)
    requires
        scanner::room(m, scanner::entry_size(e)),
    ensures
        scanner::scan_metrics(e, m).total_files == m.total_files + entry_files(e),
        scanner::scan_metrics(e, m).warning_count == m.warning_count + scanner::scan_warnings(e).len(),
        scanner::scan_metrics(e, m).ignored_items == m.ignored_items + scanner::scan_warnings(e).len(),
        files_balanced(m) ==> files_balanced(scanner::scan_metrics(e, m)),
    decreases e,
{
    match e {
        EntryView::File { extension, .. } => {
            let ext = scanner::recorded_extension(extension);
            scanner::lemma_room_count(m, metrics::file_key(ext));
            if files_balanced(m) {
                law_metrics_stay_balanced(m, ext);
            }
        },
        EntryView::Directory { entries, .. } => {
            lemma_scan_counts_seq(entries, metrics::after_directory(m));
        },
        _ => {},
    }
}

/// Counting entries adds their files and warnings, and keeps the extension
/// counts adding up to the file total.
proof fn lemma_scan_counts_seq(es: Seq<EntryView>, m: MetricsView)
    requires
        scanner::room(m, scanner::entries_size(es)),
    ensures
        scanner::scan_metrics_seq(es, m).total_files == m.total_files + entries_files(es),
        scanner::scan_metrics_seq(es, m).warning_count == m.warning_count + scanner::scan_warnings_seq(es).len(),
        scanner::scan_metrics_seq(es, m).ignored_items == m.ignored_items + scanner::scan_warnings_seq(es).len(),
        files_balanced(m) ==> files_balanced(scanner::scan_metrics_seq(es, m)),
    decreases es,
{
    if es.len() > 0 {
        let d = es.drop_last();
        lemma_scan_counts_seq(d, m);
        scanner::lemma_scan_room_seq(d, m, scanner::entry_size(es.last()));
        lemma_scan_counts(es.last(), scanner::scan_metrics_seq(d, m));
    }
}

/// A successful scan reports consistent numbers: the file total is the
/// number of files in the tree, the extension counts add up to it, there is
/// one warning per ignored item and as many as were listed, and every
/// directory of the tree lists directories first, then files, each by name.
pub proof fn law_scan_report_consistent(root: EntryView)
    requires
        scanner::root_failure(root) is None,
        scanner::entry_size(root) <= u64::MAX,
    ensures
        scanner::scan_node(root) is Some,
        ({
            let t = scanner::scan_node(root)->Some_0;
            let mv = scanner::scan_metrics(root, metrics::empty_metrics());
            &&& mv.total_files == tree_files(t)
            &&& files_balanced(mv)
            &&& mv.warning_count == scanner::scan_warnings(root).len()
            &&& mv.ignored_items == mv.warning_count
            &&& tree_ordered(t)
        }),
{
    lemma_scan_files(root);
    lemma_scan_ordered(root);
    lemma_scan_counts(root, metrics::empty_metrics());
}

/// The number of files in a tree that are counted under key `k`.
pub open spec fn tree_files_with(n: NodeView, k: Seq<char>) -> nat
    decreases n,
{
    match n {
        NodeView::File { extension, .. } => if metrics::file_key(extension) == k { 1 } else { 0 },
        NodeView::Directory { children, .. } => nodes_files_with(children, k),
    }
}

/// The number of files in sibling trees that are counted under key `k`.
pub open spec fn nodes_files_with(cs: Seq<NodeView>, k: Seq<char>) -> nat
    decreases cs,
{
    if cs.len() == 0 {
        0
    } else {
        nodes_files_with(cs.drop_last(), k) + tree_files_with(cs.last(), k)
    }
}

/// The number of files read below an entry that are counted under key `k`.
pub open spec fn entry_files_with(e: EntryView, k: Seq<char>) -> nat
    decreases e,
{
    match e {
        EntryView::File { extension, .. } =>
            if metrics::file_key(scanner::recorded_extension(extension)) == k { 1 } else { 0 },
        EntryView::Directory { entries, .. } => entries_files_with(entries, k),
        _ => 0,
    }
}

/// The number of files read in entries that are counted under key `k`.
pub open spec fn entries_files_with(es: Seq<EntryView>, k: Seq<char>) -> nat
    decreases es,
{
    if es.len() == 0 {
        0
    } else {
        entries_files_with(es.drop_last(), k) + entry_files_with(es.last(), k)
    }
}

/// Inserting a node adds its files under each key.
proof fn lemma_insert_files_with(s: Seq<NodeView>, x: NodeView, k: Seq<char>)
    ensures
        nodes_files_with(scanner::insert_in_order(s, x), k) == nodes_files_with(s, k) + tree_files_with(x, k),
    decreases s.len(),
{
    let r = scanner::insert_in_order(s, x);
    if s.len() == 0 {
        assert(r.drop_last() =~= s);
    } else if !node::node_before(x, s.last()) {
        assert(r.drop_last() =~= s);
    } else {
        lemma_insert_files_with(s.drop_last(), x, k);
        assert(r.drop_last() =~= scanner::insert_in_order(s.drop_last(), x));
    }
}

/// Sorting keeps the number of files under each key.
proof fn lemma_sort_files_with(s: Seq<NodeView>, k: Seq<char>)
    ensures
        nodes_files_with(scanner::sorted_nodes(s), k) == nodes_files_with(s, k),
    decreases s.len(),
{
    if s.len() > 0 {
        lemma_sort_files_with(s.drop_last(), k);
        lemma_insert_files_with(scanner::sorted_nodes(s.drop_last()), s.last(), k);
    }
}

/// The tree of an entry holds, under each key, every file read below it.
proof fn lemma_scan_files_with(e: EntryView, k: Seq<char>)
    ensures
        scanner::scan_node(e) matches Some(t) ==> tree_files_with(t, k) == entry_files_with(e, k),
    decreases e,
{
    if let EntryView::Directory { entries, .. } = e {
        lemma_scan_files_with_seq(entries, k);
        lemma_sort_files_with(scanner::scan_nodes(entries), k);
    }
}

/// The trees of entries hold, under each key, every file read in them.
proof fn lemma_scan_files_with_seq(es: Seq<EntryView>, k: Seq<char>)
    ensures
        nodes_files_with(scanner::scan_nodes(es), k) == entries_files_with(es, k),
    decreases es,
{
    if es.len() > 0 {
        lemma_scan_files_with_seq(es.drop_last(), k);
        lemma_scan_files_with(es.last(), k);
        let pre = scanner::scan_nodes(es.drop_last());
        if let Some(n) = scanner::scan_node(es.last()) {
            assert(scanner::scan_nodes(es) == pre.push(n));
            assert(pre.push(n).drop_last() =~= pre);
            assert(pre.push(n).last() == n);
            assert(nodes_files_with(pre.push(n), k) == nodes_files_with(pre, k) + tree_files_with(n, k));
        } else {
            assert(scanner::scan_nodes(es) == pre);
            assert(entry_files_with(es.last(), k) == 0);
        }
        assert(entries_files_with(es, k) == entries_files_with(es.drop_last(), k) + entry_files_with(es.last(), k));
    }
}

/// Counting an entry keeps the extensions in ascending order and adds, under
/// each key, the files read below the entry that belong to it.
proof fn lemma_scan_counts_with(e: EntryView, m: MetricsView, k: Seq<char>)
    requires
        scanner::room(m, scanner::entry_size(e)),
        metrics::keys_ascending(m.by_extension),
    ensures
        metrics::keys_ascending(scanner::scan_metrics(e, m).by_extension),
        metrics::count_for(scanner::scan_metrics(e, m).by_extension, k)
            == metrics::count_for(m.by_extension, k) + entry_files_with(e, k),
    decreases e,
{
    match e {
        EntryView::File { extension, .. } => {
            let key = metrics::file_key(scanner::recorded_extension(extension));
            scanner::lemma_room_count(m, key);
            law_bump_keeps_order(m.by_extension, key);
            law_bump_counts_one_key(m.by_extension, key, k);
        },
        EntryView::Directory { entries, .. } => {
            lemma_scan_counts_with_seq(entries, metrics::after_directory(m), k);
        },
        _ => {},
    }
}

/// Counting entries keeps the extensions in ascending order and adds, under
/// each key, the files read in them that belong to it.
proof fn lemma_scan_counts_with_seq(es: Seq<EntryView>, m: MetricsView, k: Seq<char>)
    requires
        scanner::room(m, scanner::entries_size(es)),
        metrics::keys_ascending(m.by_extension),
    ensures
        metrics::keys_ascending(scanner::scan_metrics_seq(es, m).by_extension),
        metrics::count_for(scanner::scan_metrics_seq(es, m).by_extension, k)
            == metrics::count_for(m.by_extension, k) + entries_files_with(es, k),
    decreases es,
{
    if es.len() > 0 {
        let d = es.drop_last();
        lemma_scan_counts_with_seq(d, m, k);
        scanner::lemma_scan_room_seq(d, m, scanner::entry_size(es.last()));
        lemma_scan_counts_with(es.last(), scanner::scan_metrics_seq(d, m), k);
    }
}

/// In a successful scan, the count listed for each extension (or for files
/// without one) is the number of files in the tree that carry it.
pub proof fn law_scan_counts_each_extension(root: EntryView, k: Seq<char>)
    requires
        scanner::root_failure(root) is None,
        scanner::entry_size(root) <= u64::MAX,
    ensures
        scanner::scan_node(root) is Some,
        metrics::count_for(scanner::scan_metrics(root, metrics::empty_metrics()).by_extension, k)
            == tree_files_with(scanner::scan_node(root)->Some_0, k),
{
    lemma_scan_files_with(root, k);
    lemma_scan_counts_with(root, metrics::empty_metrics(), k);
}

}

verus! {

// ---------------------------------------------------------------------------
// What the HTML page embeds
// ---------------------------------------------------------------------------

/// Whether `c` has a meaning in HTML markup or attribute values.
pub open spec fn is_markup_char(c: char) -> bool {
    c == '<' || c == '>' || c == '"' || c == '\''
}

/// Escaped text holds no character with a meaning in markup.
pub proof fn law_escaped_has_no_markup(s: Seq<char>)
    ensures
        forall|i: int| 0 <= i < html::escaped(s).len() ==> !is_markup_char(#[trigger] html::escaped(s)[i]),
    decreases s.len(),
{
    if s.len() > 0 {
        law_escaped_has_no_markup(s.drop_last());
        reveal_strlit("&amp;");
        reveal_strlit("&lt;");
        reveal_strlit("&gt;");
        reveal_strlit("&quot;");
        reveal_strlit("&#39;");
        let a = html::escaped(s.drop_last());
        let b = html::escaped_char(s.last());
        assert forall|i: int| 0 <= i < html::escaped(s).len() implies !is_markup_char(#[trigger] html::escaped(s)[i]) by {
            if i < a.len() {
                assert(html::escaped(s)[i] == a[i]);
            } else {
                assert(html::escaped(s)[i] == b[i - a.len()]);
            }
        }
    }
}

/// The pattern that would close the script element.
spec fn closing() -> Seq<char> {
    "</script"@
}

/// What replaces it.
spec fn escaped_closing() -> Seq<char> {
    "<\\/script"@
}

/// If the replaced text starts with a text that has no `<`, the original
/// text starts with it too.
proof fn lemma_prefix_without_lt(t: Seq<char>, w: Seq<char>)
    requires
        forall|k: int| 0 <= k < w.len() ==> w[k] != '<',
        text::has_prefix(text::replace_all(t, closing(), escaped_closing()), w),
    ensures
        text::has_prefix(t, w),
    decreases w.len(),
{
    reveal_strlit("</script");
    reveal_strlit("<\\/script");
    let r = text::replace_all(t, closing(), escaped_closing());
    if w.len() > 0 {
        assert(r[0] == w[0]);
        if t.len() == 0 {
            assert(r.len() == 0);
        } else if text::has_prefix(t, closing()) {
            assert(r[0] == '<');
        } else {
            let rest = text::replace_all(t.drop_first(), closing(), escaped_closing());
            assert(r =~= seq![t[0]] + rest);
            assert(text::has_prefix(rest, w.drop_first())) by {
                assert(rest.take(w.len() - 1) =~= r.take(w.len() as int).drop_first());
            }
            lemma_prefix_without_lt(t.drop_first(), w.drop_first());
            assert(t.take(w.len() as int) =~= seq![t[0]] + t.drop_first().take(w.len() - 1));
            assert(w =~= seq![w[0]] + w.drop_first());
        }
    } else {
        assert(t.take(0) =~= w);
    }
}

/// Made safe for a script element, the tree data never holds `</script`.
pub proof fn law_script_safe_never_closes(json: Seq<char>)
    ensures
        !text::contains_text(html::script_safe(json), "</script"@),
    decreases json.len(),
{
    reveal_strlit("</script");
    reveal_strlit("<\\/script");
    reveal_strlit("/script");
    let p = closing();
    let q = escaped_closing();
    let r = text::replace_all(json, p, q);
    assert(r == html::script_safe(json));
    if json.len() == 0 {
        assert forall|i: int| !text::occurs_at(r, p, i) by {}
        return;
    }
    if text::has_prefix(json, p) {
        let rest = json.skip(8);
        law_script_safe_never_closes(rest);
        let rr = text::replace_all(rest, p, q);
        assert(r =~= q + rr);
        assert forall|i: int| !text::occurs_at(r, p, i) by {
            if text::occurs_at(r, p, i) {
                if i >= 9 {
                    assert(rr.subrange(i - 9, i - 9 + 8) =~= r.subrange(i, i + 8));
                    assert(text::occurs_at(rr, p, i - 9));
                } else if i == 0 {
                    assert(r.subrange(0, 8)[1] == p[1]);
                } else {
                    assert(r.subrange(i, i + 8)[0] == p[0]);
                    assert(r[i] == q[i]);
                }
            }
        }
    } else {
        let rest = json.drop_first();
        law_script_safe_never_closes(rest);
        let rr = text::replace_all(rest, p, q);
        assert(r =~= seq![json[0]] + rr);
        assert forall|i: int| !text::occurs_at(r, p, i) by {
            if text::occurs_at(r, p, i) {
                if i >= 1 {
                    assert(rr.subrange(i - 1, i - 1 + 8) =~= r.subrange(i, i + 8));
                    assert(text::occurs_at(rr, p, i - 1));
                } else {
                    let w = "/script"@;
                    assert(text::has_prefix(rr, w)) by {
                        assert(rr.take(7) =~= r.subrange(0, 8).drop_first());
                        assert(p.drop_first() =~= w);
                    }
                    lemma_prefix_without_lt(rest, w);
                    assert(json.take(8) =~= seq![json[0]] + rest.take(7));
                    assert(json[0] == r[0]);
                    assert(r.subrange(0, 8)[0] == p[0]);
                    assert(json.take(8) =~= p);
                }
            }
        }
    }
}

/// Where a reader of JSON text stands: outside every string, inside a
/// string, or just after a backslash inside a string.
pub enum JsonPlace {
    Outside,
    InString,
    AfterBackslash,
}

/// What a reader of JSON text takes from it: a character outside strings, a
/// quote that opens or closes a string, a character of a string's value, the
/// start of a `\u` escape (whose four digits follow as characters), or an
/// escape that JSON does not have. The value a JSON text holds is read from
/// these units alone, so two texts with the same units hold the same value.
pub enum JsonUnit {
    Bare(char),
    Quote,
    Char(char),
    UnicodeEscape,
    BadEscape(char),
}

/// What the character after a backslash stands for inside a string.
pub open spec fn escaped_unit(c: char) -> JsonUnit {
    if c == '"' || c == '\\' || c == '/' {
        JsonUnit::Char(c)
    } else if c == 'b' {
        JsonUnit::Char('\x08')
    } else if c == 'f' {
        JsonUnit::Char('\x0c')
    } else if c == 'n' {
        JsonUnit::Char('\n')
    } else if c == 'r' {
        JsonUnit::Char('\r')
    } else if c == 't' {
        JsonUnit::Char('\t')
    } else if c == 'u' {
        JsonUnit::UnicodeEscape
    } else {
        JsonUnit::BadEscape(c)
    }
}

/// One character read at place `p`: the units it gives and where the reader
/// stands after it.
pub open spec fn json_step(p: JsonPlace, c: char) -> (Seq<JsonUnit>, JsonPlace) {
    match p {
        JsonPlace::Outside => if c == '"' {
            (seq![JsonUnit::Quote], JsonPlace::InString)
        } else {
            (seq![JsonUnit::Bare(c)], JsonPlace::Outside)
        },
        JsonPlace::InString => if c == '"' {
            (seq![JsonUnit::Quote], JsonPlace::Outside)
        } else if c == '\\' {
            (Seq::empty(), JsonPlace::AfterBackslash)
        } else {
            (seq![JsonUnit::Char(c)], JsonPlace::InString)
        },
        JsonPlace::AfterBackslash => (seq![escaped_unit(c)], JsonPlace::InString),
    }
}

/// The units read from `t`, starting at place `p`.
pub open spec fn json_units(t: Seq<char>, p: JsonPlace) -> Seq<JsonUnit>
    decreases t.len(),
{
    if t.len() == 0 {
        Seq::empty()
    } else {
        json_step(p, t[0]).0 + json_units(t.drop_first(), json_step(p, t[0]).1)
    }
}

/// Where the reader stands after reading `t` from place `p`.
pub open spec fn json_place_after(t: Seq<char>, p: JsonPlace) -> JsonPlace
    decreases t.len(),
{
    if t.len() == 0 {
        p
    } else {
        json_place_after(t.drop_first(), json_step(p, t[0]).1)
    }
}

/// Whether every `<` of `t`, read from place `p`, stands inside a string
/// (as in any valid JSON text, where `<` can only be part of a string).
pub open spec fn lt_only_in_strings(t: Seq<char>, p: JsonPlace) -> bool
    decreases t.len(),
{
    t.len() == 0 || ((t[0] == '<' ==> p != JsonPlace::Outside) && lt_only_in_strings(
        t.drop_first(),
        json_step(p, t[0]).1,
    ))
}

/// Reading two texts one after the other.
proof fn lemma_json_concat(a: Seq<char>, b: Seq<char>, p: JsonPlace)
    ensures
        json_units(a + b, p) == json_units(a, p) + json_units(b, json_place_after(a, p)),
        lt_only_in_strings(a + b, p) == (lt_only_in_strings(a, p) && lt_only_in_strings(
            b,
            json_place_after(a, p),
        )),
    decreases a.len(),
{
    if a.len() == 0 {
        assert(a + b =~= b);
        assert(json_units(a, p) =~= Seq::<JsonUnit>::empty());
        assert(json_units(b, p) =~= Seq::<JsonUnit>::empty() + json_units(b, p));
    } else {
        let q = json_step(p, a[0]).1;
        assert((a + b)[0] == a[0]);
        assert((a + b).drop_first() =~= a.drop_first() + b);
        lemma_json_concat(a.drop_first(), b, q);
        assert(json_units(a + b, p) =~= json_units(a, p) + json_units(b, json_place_after(a, p)));
    }
}

/// Inside a string, `</script` and `<\/script` read the same and leave the
/// reader inside the string.
proof fn lemma_closing_reads_the_same(p: JsonPlace)
    requires
        p != JsonPlace::Outside,
    ensures
        json_units(escaped_closing(), p) == json_units(closing(), p),
        json_place_after(escaped_closing(), p) == JsonPlace::InString,
        json_place_after(closing(), p) == JsonPlace::InString,
        lt_only_in_strings(closing(), p),
{
    reveal_strlit("</script");
    reveal_strlit("<\\/script");
    reveal_with_fuel(json_units, 10);
    reveal_with_fuel(json_place_after, 10);
    reveal_with_fuel(lt_only_in_strings, 10);
    let c = closing();
    let e = escaped_closing();
    assert(c.drop_first() =~= seq!['/', 's', 'c', 'r', 'i', 'p', 't']);
    assert(e.drop_first() =~= seq!['\\', '/', 's', 'c', 'r', 'i', 'p', 't']);
    assert(e.drop_first().drop_first() =~= c.drop_first());
    let rest = c.drop_first();
    assert(json_units(rest, JsonPlace::InString) =~= seq![
        JsonUnit::Char('/'), JsonUnit::Char('s'), JsonUnit::Char('c'), JsonUnit::Char('r'),
        JsonUnit::Char('i'), JsonUnit::Char('p'), JsonUnit::Char('t'),
    ]);
    assert(json_units(e.drop_first(), JsonPlace::InString) == json_units(rest, JsonPlace::InString));
}

/// Made safe for a script element, text read from a place where every `<`
/// stands inside a string gives the same units.
proof fn lemma_script_safe_reads_the_same(t: Seq<char>, p: JsonPlace)
    requires
        lt_only_in_strings(t, p),
    ensures
        json_units(text::replace_all(t, closing(), escaped_closing()), p) == json_units(t, p),
    decreases t.len(),
{
    reveal_strlit("</script");
    reveal_strlit("<\\/script");
    let c = closing();
    let e = escaped_closing();
    let r = text::replace_all(t, c, e);
    if t.len() == 0 {
    } else if text::has_prefix(t, c) {
        let rest = t.skip(8);
        let rr = text::replace_all(rest, c, e);
        assert(t =~= c + rest);
        assert(r =~= e + rr);
        assert(t[0] == '<');
        lemma_json_concat(c, rest, p);
        lemma_json_concat(e, rr, p);
        lemma_closing_reads_the_same(p);
        lemma_script_safe_reads_the_same(rest, JsonPlace::InString);
    } else {
        let rest = t.drop_first();
        let rr = text::replace_all(rest, c, e);
        assert(r =~= seq![t[0]] + rr);
        assert(r[0] == t[0]);
        assert(r.drop_first() =~= rr);
        lemma_script_safe_reads_the_same(rest, json_step(p, t[0]).1);
    }
}

/// In JSON text where every `<` stands inside a string (as a JSON writer such
/// as serde_json produces it), making the text safe for a script element only
/// writes `/` as its escape `\/` inside strings: a JSON reader takes the same
/// units from both texts, so they hold the same value.
pub proof fn law_script_safe_keeps_json(json: Seq<char>)
    requires
        lt_only_in_strings(json, JsonPlace::Outside),
    ensures
        json_units(html::script_safe(json), JsonPlace::Outside) == json_units(json, JsonPlace::Outside),
{
    reveal_strlit("</script");
    reveal_strlit("<\\/script");
    assert(html::script_safe(json) == text::replace_all(json, closing(), escaped_closing()));
    lemma_script_safe_reads_the_same(json, JsonPlace::Outside);
}

}

verus! {

// ---------------------------------------------------------------------------
// Directories in a scan
// ---------------------------------------------------------------------------

/// The number of directories in a tree, itself included.
pub open spec fn tree_dirs(n: NodeView) -> nat
    decreases n,
{
    match n {
        NodeView::File { .. } => 0,
        NodeView::Directory { children, .. } => 1 + nodes_dirs(children),
    }
}

/// The number of directories in sibling trees.
pub open spec fn nodes_dirs(cs: Seq<NodeView>) -> nat
    decreases cs,
{
    if cs.len() == 0 {
        0
    } else {
        nodes_dirs(cs.drop_last()) + tree_dirs(cs.last())
    }
}

/// The number of directories read, listed or not.
pub open spec fn entry_dirs(e: EntryView) -> nat
    decreases e,
{
    match e {
        EntryView::Directory { entries, .. } => 1 + entries_dirs(entries),
        EntryView::DirectoryUnreadable { .. } => 1,
        _ => 0,
    }
}

/// The number of directories read in a sequence of entries.
pub open spec fn entries_dirs(es: Seq<EntryView>) -> nat
    decreases es,
{
    if es.len() == 0 {
        0
    } else {
        entries_dirs(es.drop_last()) + entry_dirs(es.last())
    }
}

/// The number of directories whose listing could not be read.
pub open spec fn entry_unreadable(e: EntryView) -> nat
    decreases e,
{
    match e {
        EntryView::Directory { entries, .. } => entries_unreadable(entries),
        EntryView::DirectoryUnreadable { .. } => 1,
        _ => 0,
    }
}

/// The number of unlisted directories in a sequence of entries.
pub open spec fn entries_unreadable(es: Seq<EntryView>) -> nat
    decreases es,
{
    if es.len() == 0 {
        0
    } else {
        entries_unreadable(es.drop_last()) + entry_unreadable(es.last())
    }
}

/// Inserting a node adds its directories.
proof fn lemma_insert_dirs(s: Seq<NodeView>, x: NodeView)
    ensures
        nodes_dirs(scanner::insert_in_order(s, x)) == nodes_dirs(s) + tree_dirs(x),
    decreases s.len(),
{
    let r = scanner::insert_in_order(s, x);
    if s.len() == 0 || !node::node_before(x, s.last()) {
        assert(r.drop_last() =~= s);
    } else {
        lemma_insert_dirs(s.drop_last(), x);
        assert(r.drop_last() =~= scanner::insert_in_order(s.drop_last(), x));
    }
}

/// Sorting keeps the number of directories.
proof fn lemma_sort_dirs(s: Seq<NodeView>)
    ensures
        nodes_dirs(scanner::sorted_nodes(s)) == nodes_dirs(s),
    decreases s.len(),
{
    if s.len() > 0 {
        lemma_sort_dirs(s.drop_last());
        lemma_insert_dirs(scanner::sorted_nodes(s.drop_last()), s.last());
    }
}

/// The tree of an entry holds every directory read below it whose listing
/// could be read.
proof fn lemma_scan_dirs(e: EntryView)
    ensures
        scanner::scan_node(e) matches Some(t) ==> tree_dirs(t) + entry_unreadable(e) == entry_dirs(e),
    decreases e,
{
    if let EntryView::Directory { entries, .. } = e {
        lemma_scan_dirs_seq(entries);
        lemma_sort_dirs(scanner::scan_nodes(entries));
    }
}

/// The trees of entries hold every listed directory read in them.
proof fn lemma_scan_dirs_seq(es: Seq<EntryView>)
    ensures
        nodes_dirs(scanner::scan_nodes(es)) + entries_unreadable(es) == entries_dirs(es),
    decreases es,
{
    if es.len() > 0 {
        lemma_scan_dirs_seq(es.drop_last());
        lemma_scan_dirs(es.last());
        let pre = scanner::scan_nodes(es.drop_last());
        if let Some(n) = scanner::scan_node(es.last()) {
            assert(scanner::scan_nodes(es) == pre.push(n));
            assert(pre.push(n).drop_last() =~= pre);
            assert(nodes_dirs(pre.push(n)) == nodes_dirs(pre) + tree_dirs(n));
        } else {
            assert(scanner::scan_nodes(es) == pre);
            assert(entry_dirs(es.last()) == entry_unreadable(es.last()));
        }
        assert(entries_dirs(es) == entries_dirs(es.drop_last()) + entry_dirs(es.last()));
        assert(entries_unreadable(es) == entries_unreadable(es.drop_last()) + entry_unreadable(es.last()));
    }
}

/// Counting an entry adds every directory read below it.
proof fn lemma_scan_dir_count(e: EntryView, m: MetricsView)
    requires
        scanner::room(m, scanner::entry_size(e)),
    ensures
        scanner::scan_metrics(e, m).total_directories == m.total_directories + entry_dirs(e),
    decreases e,
{
    if let EntryView::Directory { entries, .. } = e {
        lemma_scan_dir_count_seq(entries, metrics::after_directory(m));
    }
}

/// Counting entries adds every directory read in them.
proof fn lemma_scan_dir_count_seq(es: Seq<EntryView>, m: MetricsView)
    requires
        scanner::room(m, scanner::entries_size(es)),
    ensures
        scanner::scan_metrics_seq(es, m).total_directories == m.total_directories + entries_dirs(es),
    decreases es,
{
    if es.len() > 0 {
        let d = es.drop_last();
        lemma_scan_dir_count_seq(d, m);
        scanner::lemma_scan_room_seq(d, m, scanner::entry_size(es.last()));
        lemma_scan_dir_count(es.last(), scanner::scan_metrics_seq(d, m));
    }
}

/// A successful scan counts every directory it read: those in the tree, and
/// those whose listing could not be read (which the tree leaves out).
pub proof fn law_scan_counts_directories(root: EntryView)
    requires
        scanner::root_failure(root) is None,
        scanner::entry_size(root) <= u64::MAX,
    ensures
        scanner::scan_metrics(root, metrics::empty_metrics()).total_directories
            == tree_dirs(scanner::scan_node(root)->Some_0) + entry_unreadable(root),
{
    lemma_scan_dirs(root);
    lemma_scan_dir_count(root, metrics::empty_metrics());
}

// ---------------------------------------------------------------------------
// Ports
// ---------------------------------------------------------------------------

/// The digits of a decimal text have the value written.
proof fn lemma_decimal_value(n: nat)
    ensures
        tui::digits_value(text::decimal_digits(n)) == n,
        tui::all_ascii_digits(text::decimal_digits(n)),
        text::decimal_digits(n).len() > 0,
    decreases n,
{
    let d = text::decimal_digits(n);
    let c = text::digit_char(n % 10);
    assert((c as u32) == 48 + n % 10) by {
        vstd::utf8::char_u32_cast(c, (48 + n % 10) as u32);
    }
    if n < 10 {
        assert(d.drop_last() =~= Seq::<char>::empty());
        assert(d.last() == c);
        assert(tui::digits_value(d.drop_last()) == 0);
        assert(tui::digits_value(d) == tui::digits_value(d.drop_last()) * 10 + ((d.last() as u32) - 48) as nat);
    } else {
        lemma_decimal_value(n / 10);
        assert(d.drop_last() =~= text::decimal_digits(n / 10));
        assert(d.last() == c);
        let p = text::decimal_digits(n / 10);
        assert forall|i: int| 0 <= i < d.len() implies '0' <= #[trigger] d[i] && d[i] <= '9' by {
            if i < p.len() {
                assert(d[i] == p[i]);
            }
        }
        assert(n == (n / 10) * 10 + n % 10);
        assert(tui::digits_value(d) == tui::digits_value(d.drop_last()) * 10 + ((d.last() as u32) - 48) as nat);
        assert(tui::digits_value(d.drop_last()) == n / 10);
    }
}

/// A port written in decimal reads back as the same port.
pub proof fn law_port_text_round_trip(port: u16)
    ensures
        tui::parsed_u16(text::decimal_digits(port as nat)) == Some(port),
{
    lemma_decimal_value(port as nat);
    let d = text::decimal_digits(port as nat);
    assert(d[0] != '+');
}

}

verus! {

// ---------------------------------------------------------------------------
// Escaping can be undone
// ---------------------------------------------------------------------------

/// The entity for `&`.
pub open spec fn amp_entity() -> Seq<char> {
    seq!['&', 'a', 'm', 'p', ';']
}

/// The entity for `<`.
pub open spec fn lt_entity() -> Seq<char> {
    seq!['&', 'l', 't', ';']
}

/// The entity for `>`.
pub open spec fn gt_entity() -> Seq<char> {
    seq!['&', 'g', 't', ';']
}

/// The entity for `"`.
pub open spec fn quot_entity() -> Seq<char> {
    seq!['&', 'q', 'u', 'o', 't', ';']
}

/// The entity for `'`.
pub open spec fn apos_entity() -> Seq<char> {
    seq!['&', '#', '3', '9', ';']
}

/// Whether `t` starts with one of the five entities that escaping writes.
pub open spec fn starts_with_entity(t: Seq<char>) -> bool {
    ||| text::has_prefix(t, amp_entity())
    ||| text::has_prefix(t, lt_entity())
    ||| text::has_prefix(t, gt_entity())
    ||| text::has_prefix(t, quot_entity())
    ||| text::has_prefix(t, apos_entity())
}

/// Escaped text read back: each of the five entities becomes its character
/// again, every other character stands for itself.
pub open spec fn unescaped(t: Seq<char>) -> Seq<char>
    decreases t.len(),
{
    if t.len() == 0 {
        t
    } else if text::has_prefix(t, amp_entity()) {
        seq!['&'] + unescaped(t.skip(5))
    } else if text::has_prefix(t, lt_entity()) {
        seq!['<'] + unescaped(t.skip(4))
    } else if text::has_prefix(t, gt_entity()) {
        seq!['>'] + unescaped(t.skip(4))
    } else if text::has_prefix(t, quot_entity()) {
        seq!['"'] + unescaped(t.skip(6))
    } else if text::has_prefix(t, apos_entity()) {
        seq!['\''] + unescaped(t.skip(5))
    } else {
        seq![t[0]] + unescaped(t.drop_first())
    }
}

/// The entities of `escaped_char` are the five entities above.
proof fn lemma_entity_texts()
    ensures
        "&amp;"@ == amp_entity(),
        "&lt;"@ == lt_entity(),
        "&gt;"@ == gt_entity(),
        "&quot;"@ == quot_entity(),
        "&#39;"@ == apos_entity(),
{
    reveal_strlit("&amp;");
    reveal_strlit("&lt;");
    reveal_strlit("&gt;");
    reveal_strlit("&quot;");
    reveal_strlit("&#39;");
    assert("&amp;"@ =~= amp_entity());
    assert("&lt;"@ =~= lt_entity());
    assert("&gt;"@ =~= gt_entity());
    assert("&quot;"@ =~= quot_entity());
    assert("&#39;"@ =~= apos_entity());
}

/// Whether escaping changes `c`.
pub open spec fn is_escaped_char(c: char) -> bool {
    c == '&' || c == '<' || c == '>' || c == '"' || c == '\''
}

/// Escaping a text that starts with `c` starts with the escape of `c`.
proof fn lemma_escaped_front(c: char, s: Seq<char>)
    ensures
        html::escaped(seq![c] + s) == html::escaped_char(c) + html::escaped(s),
    decreases s.len(),
{
    let t = seq![c] + s;
    if s.len() == 0 {
        assert(t.drop_last() =~= Seq::<char>::empty());
        assert(html::escaped(Seq::<char>::empty()) =~= Seq::<char>::empty());
        assert(html::escaped(t) =~= html::escaped_char(c) + html::escaped(s));
    } else {
        lemma_escaped_front(c, s.drop_last());
        assert(t.drop_last() =~= seq![c] + s.drop_last());
        assert(t.last() == s.last());
        assert(html::escaped(t) =~= html::escaped_char(c) + html::escaped(s));
    }
}

/// Reading back the escape of `c` followed by any text gives `c` followed by
/// that text read back.
proof fn lemma_unescape_front(c: char, t: Seq<char>)
    ensures
        unescaped(html::escaped_char(c) + t) == seq![c] + unescaped(t),
{
    lemma_entity_texts();
    let u = html::escaped_char(c) + t;
    if c == '&' {
        assert(u.take(5) =~= amp_entity());
        assert(u.skip(5) =~= t);
    } else if c == '<' {
        assert(u.take(4) =~= lt_entity());
        assert(u.skip(4) =~= t);
        assert(u[1] != amp_entity()[1]);
    } else if c == '>' {
        assert(u.take(4) =~= gt_entity());
        assert(u.skip(4) =~= t);
        assert(u[1] != amp_entity()[1]);
        assert(u[1] != lt_entity()[1]);
    } else if c == '"' {
        assert(u.take(6) =~= quot_entity());
        assert(u.skip(6) =~= t);
        assert(u[1] != amp_entity()[1]);
        assert(u[1] != lt_entity()[1]);
        assert(u[1] != gt_entity()[1]);
    } else if c == '\'' {
        assert(u.take(5) =~= apos_entity());
        assert(u.skip(5) =~= t);
        assert(u[1] != amp_entity()[1]);
        assert(u[1] != lt_entity()[1]);
        assert(u[1] != gt_entity()[1]);
        assert(u[1] != quot_entity()[1]);
    } else {
        assert(u =~= seq![c] + t);
        assert(u[0] != amp_entity()[0]);
        assert(u.drop_first() =~= t);
    }
}

/// Escaped text reads back as the original text.
pub proof fn law_unescape_undoes_escape(s: Seq<char>)
    ensures
        unescaped(html::escaped(s)) == s,
    decreases s.len(),
{
    if s.len() == 0 {
        assert(html::escaped(s) =~= Seq::<char>::empty());
    } else {
        let rest = s.drop_first();
        assert(s =~= seq![s[0]] + rest);
        lemma_escaped_front(s[0], rest);
        lemma_unescape_front(s[0], html::escaped(rest));
        law_unescape_undoes_escape(rest);
    }
}

/// In escaped text, every `&` starts one of the five entities.
pub proof fn law_escaped_ampersands_start_entities(s: Seq<char>)
    ensures
        forall|i: int| 0 <= i < html::escaped(s).len() && #[trigger] html::escaped(s)[i] == '&'
            ==> starts_with_entity(html::escaped(s).skip(i)),
    decreases s.len(),
{
    lemma_entity_texts();
    let e = html::escaped(s);
    if s.len() == 0 {
        assert(e =~= Seq::<char>::empty());
    } else {
        let rest = s.drop_first();
        assert(s =~= seq![s[0]] + rest);
        lemma_escaped_front(s[0], rest);
        law_escaped_ampersands_start_entities(rest);
        let head = html::escaped_char(s[0]);
        let er = html::escaped(rest);
        assert forall|i: int| 0 <= i < e.len() && #[trigger] e[i] == '&' implies starts_with_entity(e.skip(i)) by {
            if i < head.len() {
                assert(e[i] == head[i]);
                if is_escaped_char(s[0]) {
                    assert(i == 0);
                    assert(e.take(head.len() as int) =~= head);
                    assert(e.skip(0) =~= e);
                } else {
                    assert(head =~= seq![s[0]]);
                }
            } else {
                assert(e[i] == er[i - head.len()]);
                assert(e.skip(i) =~= er.skip(i - head.len()));
            }
        }
    }
}

/// Escaped text read back by plain replacements, one entity after the
/// other: `&lt;`, `&gt;`, `&quot;`, `&#39;`, and `&amp;` last.
pub open spec fn unescape_by_replacing(t: Seq<char>) -> Seq<char> {
    let a = text::replace_all(t, "&lt;"@, "<"@);
    let b = text::replace_all(a, "&gt;"@, ">"@);
    let c = text::replace_all(b, "&quot;"@, "\""@);
    let d = text::replace_all(c, "&#39;"@, "'"@);
    text::replace_all(d, "&amp;"@, "&"@)
}

/// The character that the `k`-th replacement gives back.
spec fn stage_char(k: int) -> char {
    if k == 0 {
        '<'
    } else if k == 1 {
        '>'
    } else if k == 2 {
        '"'
    } else if k == 3 {
        '\''
    } else {
        '&'
    }
}

/// The replacement that gives `c` back.
spec fn stage_of(c: char) -> int {
    if c == '<' {
        0
    } else if c == '>' {
        1
    } else if c == '"' {
        2
    } else if c == '\'' {
        3
    } else {
        4
    }
}

/// The text for `c` after the first `k` replacements.
spec fn partly_read_back(c: char, k: int) -> Seq<char> {
    if is_escaped_char(c) && stage_of(c) < k {
        seq![c]
    } else {
        html::escaped_char(c)
    }
}

/// The text for `s` after the first `k` replacements.
spec fn partly_read_back_text(s: Seq<char>, k: int) -> Seq<char>
    decreases s.len(),
{
    if s.len() == 0 {
        Seq::empty()
    } else {
        partly_read_back(s[0], k) + partly_read_back_text(s.drop_first(), k)
    }
}

/// Replacing leaves alone a text with no `&` in front of anything.
proof fn lemma_replace_passes(w: Seq<char>, x: Seq<char>, p: Seq<char>, r: Seq<char>)
    requires
        p.len() > 0,
        p[0] == '&',
        forall|i: int| 0 <= i < w.len() ==> w[i] != '&',
    ensures
        text::replace_all(w + x, p, r) == w + text::replace_all(x, p, r),
    decreases w.len(),
{
    if w.len() == 0 {
        assert(w + x =~= x);
    } else {
        let t = w + x;
        assert(t[0] == w[0]);
        assert(!text::has_prefix(t, p)) by {
            if text::has_prefix(t, p) {
                assert(t.take(p.len() as int)[0] == p[0]);
            }
        }
        assert(t.drop_first() =~= w.drop_first() + x);
        lemma_replace_passes(w.drop_first(), x, p, r);
        assert(text::replace_all(t, p, r) =~= w + text::replace_all(x, p, r));
    }
}

/// What the `k`-th replacement meets at the text of one character.
proof fn lemma_stage_facts(c: char, k: int)
    requires
        0 <= k < 5,
    ensures
        partly_read_back(c, k).len() > 0,
        forall|i: int| 1 <= i < partly_read_back(c, k).len() ==> partly_read_back(c, k)[i] != '&',
        partly_read_back(c, k) == html::escaped_char(stage_char(k)) || partly_read_back(c, k)[0] != '&' || (
        partly_read_back(c, k).len() > 1 && partly_read_back(c, k)[1] != html::escaped_char(stage_char(k))[1]),
        partly_read_back(c, k + 1) == (if partly_read_back(c, k) == html::escaped_char(stage_char(k)) {
            seq![stage_char(k)]
        } else {
            partly_read_back(c, k)
        }),
        html::escaped_char(stage_char(k)).len() > 1,
        html::escaped_char(stage_char(k))[0] == '&',
{
    lemma_entity_texts();
    let f = partly_read_back(c, k);
    let p = html::escaped_char(stage_char(k));
    if is_escaped_char(c) && stage_of(c) < k {
        assert(f[0] != '&');
    } else if is_escaped_char(c) {
        if c != stage_char(k) {
            assert(f.len() > 1 && f[1] != p[1]);
            assert(f != p);
        }
    } else {
        assert(f[0] != '&');
    }
}

/// The `k`-th replacement turns the text after `k` replacements into the
/// text after `k + 1`.
proof fn lemma_stage_step(s: Seq<char>, k: int)
    requires
        0 <= k < 5,
    ensures
        text::replace_all(partly_read_back_text(s, k), html::escaped_char(stage_char(k)), seq![stage_char(k)])
            == partly_read_back_text(s, k + 1),
    decreases s.len(),
{
    let p = html::escaped_char(stage_char(k));
    let r = seq![stage_char(k)];
    if s.len() == 0 {
    } else {
        let c = s[0];
        let f = partly_read_back(c, k);
        let x = partly_read_back_text(s.drop_first(), k);
        let t = f + x;
        lemma_stage_facts(c, k);
        lemma_stage_step(s.drop_first(), k);
        if f == p {
            assert(text::has_prefix(t, p)) by {
                assert(t.take(p.len() as int) =~= p);
            }
            assert(t.skip(p.len() as int) =~= x);
        } else {
            assert(!text::has_prefix(t, p)) by {
                if text::has_prefix(t, p) {
                    assert(t.take(p.len() as int)[0] == p[0]);
                    assert(t.take(p.len() as int)[1] == p[1]);
                }
            }
            assert(t[0] == f[0]);
            assert(t.drop_first() =~= f.drop_first() + x);
            lemma_replace_passes(f.drop_first(), x, p, r);
            assert(text::replace_all(t, p, r) =~= f + text::replace_all(x, p, r));
        }
    }
}

/// Before any replacement, the text is the escaped text.
proof fn lemma_stage_start(s: Seq<char>)
    ensures
        partly_read_back_text(s, 0) == html::escaped(s),
    decreases s.len(),
{
    if s.len() == 0 {
        assert(html::escaped(s) =~= Seq::<char>::empty());
    } else {
        let rest = s.drop_first();
        assert(s =~= seq![s[0]] + rest);
        lemma_escaped_front(s[0], rest);
        lemma_stage_start(rest);
    }
}

/// After all five replacements, the text is the original text.
proof fn lemma_stage_end(s: Seq<char>)
    ensures
        partly_read_back_text(s, 5) == s,
    decreases s.len(),
{
    if s.len() > 0 {
        lemma_stage_end(s.drop_first());
        assert(s =~= seq![s[0]] + s.drop_first());
    }
}

/// Escaped text read back by replacing `&lt;`, `&gt;`, `&quot;` and `&#39;`,
/// then `&amp;`, one after the other, is the original text.
pub proof fn law_replacing_entities_undoes_escape(s: Seq<char>)
    ensures
        unescape_by_replacing(html::escaped(s)) == s,
{
    lemma_entity_texts();
    reveal_strlit("<");
    reveal_strlit(">");
    reveal_strlit("\"");
    reveal_strlit("'");
    reveal_strlit("&");
    assert("<"@ =~= seq![stage_char(0)]);
    assert(">"@ =~= seq![stage_char(1)]);
    assert("\""@ =~= seq![stage_char(2)]);
    assert("'"@ =~= seq![stage_char(3)]);
    assert("&"@ =~= seq![stage_char(4)]);
    lemma_stage_start(s);
    lemma_stage_step(s, 0);
    lemma_stage_step(s, 1);
    lemma_stage_step(s, 2);
    lemma_stage_step(s, 3);
    lemma_stage_step(s, 4);
    lemma_stage_end(s);
}

/// Text with nothing to escape is left as it is.
pub proof fn law_escape_keeps_plain_text(s: Seq<char>)
    requires
        forall|i: int| 0 <= i < s.len() ==> !is_escaped_char(#[trigger] s[i]),
    ensures
        html::escaped(s) == s,
    decreases s.len(),
{
    if s.len() > 0 {
        law_escape_keeps_plain_text(s.drop_last());
        assert(!is_escaped_char(s[s.len() - 1]));
        assert(html::escaped(s) =~= s.drop_last() + seq![s.last()]);
        assert(s =~= s.drop_last() + seq![s.last()]);
    } else {
        assert(html::escaped(s) =~= s);
    }
}

}

verus! {

// ---------------------------------------------------------------------------
// What the rendered pages show
// ---------------------------------------------------------------------------

/// A text placed between two others occurs in the whole.
proof fn lemma_contains_between(a: Seq<char>, p: Seq<char>, b: Seq<char>)
    ensures
        text::contains_text(a + p + b, p),
{
    let s = a + p + b;
    assert(s.subrange(a.len() as int, (a.len() + p.len()) as int) =~= p);
    assert(text::occurs_at(s, p, a.len() as int));
}

/// A text ending with `p` contains `p`.
proof fn lemma_contains_end(x: Seq<char>, p: Seq<char>)
    ensures
        text::contains_text(x + p, p),
{
    assert((x + p).subrange(x.len() as int, (x.len() + p.len()) as int) =~= p);
    assert(text::occurs_at(x + p, p, x.len() as int));
}

/// Whatever a text contains, it still contains with more text after it.
proof fn lemma_contains_extend(u: Seq<char>, v: Seq<char>, p: Seq<char>)
    requires
        text::contains_text(u, p),
    ensures
        text::contains_text(u + v, p),
{
    let i = choose|i: int| text::occurs_at(u, p, i);
    assert((u + v).subrange(i, i + p.len()) =~= u.subrange(i, i + p.len()));
    assert(text::occurs_at(u + v, p, i));
}

/// Five texts appended one by one after `x` are `x` followed by them together.
proof fn lemma_regroup5(x: Seq<char>, a: Seq<char>, b: Seq<char>, c: Seq<char>, d: Seq<char>, e: Seq<char>)
    ensures
        x + a + b + c + d + e == x + (a + b + c + d + e),
{
    assert(x + a + b + c + d + e =~= x + (a + b + c + d + e));
}

/// Six texts appended one by one after `x` are `x` followed by them together.
proof fn lemma_regroup6(
    x: Seq<char>,
    a: Seq<char>,
    b: Seq<char>,
    c: Seq<char>,
    d: Seq<char>,
    e: Seq<char>,
    f: Seq<char>,
)
    ensures
        x + a + b + c + d + e + f == x + (a + b + c + d + e + f),
{
    assert(x + a + b + c + d + e + f =~= x + (a + b + c + d + e + f));
}

/// The interactive page, served or standalone, shows the report's origin
/// and then its generation time (both escaped) after their labels, the
/// number of directories on the `Pastas` card followed by the number of
/// files on the `Arquivos` card, and the origin again in the tree's title
/// just before the tree data, made safe for a script element.
pub proof fn law_page_shows_the_report(r: MappingReport, tree_json: Seq<char>, m: Option<(Seq<char>, Seq<char>)>)
    ensures
        text::contains_text(
            html::html_page(r, tree_json, m),
            html::PAGE_AFTER_HEAD_ASSETS@ + html::escaped(r.source@) + html::PAGE_AFTER_SOURCE@
                + html::escaped(r.generated_at@) + html::PAGE_AFTER_GENERATED@,
        ),
        text::contains_text(
            html::html_page(r, tree_json, m),
            html::PAGE_BEFORE_DIRECTORIES@ + text::decimal_digits(r.summary.total_directories as nat)
                + html::PAGE_AFTER_DIRECTORIES@ + text::decimal_digits(r.summary.total_files as nat)
                + html::PAGE_AFTER_FILES@,
        ),
        text::contains_text(
            html::html_page(r, tree_json, m),
            "Mapeamento do Diretorio <code>"@ + html::escaped(r.source@) + "</code>"@ + html::PAGE_AFTER_TITLE@
                + html::script_safe(tree_json) + html::PAGE_AFTER_TREE@,
        ),
{
    let p0 = html::PAGE_START@;
    let p1 = p0 + html::head_assets(m);
    let p2 = p1 + html::PAGE_AFTER_HEAD_ASSETS@;
    let p3 = p2 + html::escaped(r.source@);
    let p4 = p3 + html::PAGE_AFTER_SOURCE@;
    let p5 = p4 + html::escaped(r.generated_at@);
    let p6 = p5 + html::PAGE_AFTER_GENERATED@;
    let p7 = p6 + html::controls(m);
    let p8 = p7 + html::PAGE_BEFORE_DIRECTORIES@;
    let p9 = p8 + text::decimal_digits(r.summary.total_directories as nat);
    let p10 = p9 + html::PAGE_AFTER_DIRECTORIES@;
    let p11 = p10 + text::decimal_digits(r.summary.total_files as nat);
    let p12 = p11 + html::PAGE_AFTER_FILES@;
    let p13 = p12 + html::extensions_section(r.summary.by_extension@);
    let p14 = p13 + html::PAGE_AFTER_EXTENSIONS@;
    let p15 = p14 + "Mapeamento do Diretorio <code>"@;
    let p16 = p15 + html::escaped(r.source@);
    let p17 = p16 + "</code>"@;
    let p18 = p17 + html::PAGE_AFTER_TITLE@;
    let p19 = p18 + html::script_safe(tree_json);
    let p20 = p19 + html::PAGE_AFTER_TREE@;
    let p21 = p20 + html::script_assets(m);
    let p22 = p21 + html::PAGE_END@;
    assert(html::html_page(r, tree_json, m) == p22);
    let meta = html::PAGE_AFTER_HEAD_ASSETS@ + html::escaped(r.source@) + html::PAGE_AFTER_SOURCE@ + html::escaped(r.generated_at@) + html::PAGE_AFTER_GENERATED@;
    lemma_regroup5(p1, html::PAGE_AFTER_HEAD_ASSETS@, html::escaped(r.source@), html::PAGE_AFTER_SOURCE@, html::escaped(r.generated_at@), html::PAGE_AFTER_GENERATED@);
    lemma_contains_end(p1, meta);
    lemma_contains_extend(p6, html::controls(m), meta);
    lemma_contains_extend(p7, html::PAGE_BEFORE_DIRECTORIES@, meta);
    lemma_contains_extend(p8, text::decimal_digits(r.summary.total_directories as nat), meta);
    lemma_contains_extend(p9, html::PAGE_AFTER_DIRECTORIES@, meta);
    lemma_contains_extend(p10, text::decimal_digits(r.summary.total_files as nat), meta);
    lemma_contains_extend(p11, html::PAGE_AFTER_FILES@, meta);
    lemma_contains_extend(p12, html::extensions_section(r.summary.by_extension@), meta);
    lemma_contains_extend(p13, html::PAGE_AFTER_EXTENSIONS@, meta);
    lemma_contains_extend(p14, "Mapeamento do Diretorio <code>"@, meta);
    lemma_contains_extend(p15, html::escaped(r.source@), meta);
    lemma_contains_extend(p16, "</code>"@, meta);
    lemma_contains_extend(p17, html::PAGE_AFTER_TITLE@, meta);
    lemma_contains_extend(p18, html::script_safe(tree_json), meta);
    lemma_contains_extend(p19, html::PAGE_AFTER_TREE@, meta);
    lemma_contains_extend(p20, html::script_assets(m), meta);
    lemma_contains_extend(p21, html::PAGE_END@, meta);
    let cards = html::PAGE_BEFORE_DIRECTORIES@ + text::decimal_digits(r.summary.total_directories as nat) + html::PAGE_AFTER_DIRECTORIES@ + text::decimal_digits(r.summary.total_files as nat) + html::PAGE_AFTER_FILES@;
    lemma_regroup5(p7, html::PAGE_BEFORE_DIRECTORIES@, text::decimal_digits(r.summary.total_directories as nat), html::PAGE_AFTER_DIRECTORIES@, text::decimal_digits(r.summary.total_files as nat), html::PAGE_AFTER_FILES@);
    lemma_contains_end(p7, cards);
    lemma_contains_extend(p12, html::extensions_section(r.summary.by_extension@), cards);
    lemma_contains_extend(p13, html::PAGE_AFTER_EXTENSIONS@, cards);
    lemma_contains_extend(p14, "Mapeamento do Diretorio <code>"@, cards);
    lemma_contains_extend(p15, html::escaped(r.source@), cards);
    lemma_contains_extend(p16, "</code>"@, cards);
    lemma_contains_extend(p17, html::PAGE_AFTER_TITLE@, cards);
    lemma_contains_extend(p18, html::script_safe(tree_json), cards);
    lemma_contains_extend(p19, html::PAGE_AFTER_TREE@, cards);
    lemma_contains_extend(p20, html::script_assets(m), cards);
    lemma_contains_extend(p21, html::PAGE_END@, cards);
    let title = "Mapeamento do Diretorio <code>"@ + html::escaped(r.source@) + "</code>"@ + html::PAGE_AFTER_TITLE@ + html::script_safe(tree_json) + html::PAGE_AFTER_TREE@;
    lemma_regroup6(p14, "Mapeamento do Diretorio <code>"@, html::escaped(r.source@), "</code>"@, html::PAGE_AFTER_TITLE@, html::script_safe(tree_json), html::PAGE_AFTER_TREE@);
    lemma_contains_end(p14, title);
    lemma_contains_extend(p20, html::script_assets(m), title);
    lemma_contains_extend(p21, html::PAGE_END@, title);
}

/// The Markdown report names the origin in its heading, and its statistics
/// give the generation time, then the number of directories on the
/// `Total de Diretorios` line and the number of files on the
/// `Total de Arquivos` line.
pub proof fn law_markdown_shows_the_report(r: MappingReport)
    ensures
        text::has_prefix(crate::render::markdown::markdown_of(r), "# Mapeamento do Diretorio: `"@ + r.source@ + "`\n\n"@),
        text::contains_text(
            crate::render::markdown::markdown_of(r),
            "- **Data de geracao:** "@ + r.generated_at@ + "\n"@
                + "- **Total de Diretorios:** "@ + text::decimal_digits(r.summary.total_directories as nat) + "\n"@
                + "- **Total de Arquivos:** "@ + text::decimal_digits(r.summary.total_files as nat) + "\n\n"@,
        ),
{
    let md = crate::render::markdown::markdown_of(r);
    let heading = "# Mapeamento do Diretorio: `"@ + r.source@ + "`\n\n"@;
    let before = heading + "## Arvore de Arquivos\n\n"@ + crate::render::markdown::tree_markdown(r.tree@, 0)
        + "\n---\n\n"@ + "## Relatorio Estatistico Quantitativo\n\n"@;
    let stats = "- **Data de geracao:** "@ + r.generated_at@ + "\n"@
        + "- **Total de Diretorios:** "@ + text::decimal_digits(r.summary.total_directories as nat) + "\n"@
        + "- **Total de Arquivos:** "@ + text::decimal_digits(r.summary.total_files as nat) + "\n\n"@;
    let after = "### Quantitativo por Extensao/Formato\n\n"@ + "| Extensao / Formato | Quantidade de Arquivos |\n"@
        + "| :--- | ---: |\n"@ + crate::render::markdown::extension_table(r.summary.by_extension@);
    assert(md =~= before + stats + after);
    lemma_contains_between(before, stats, after);
    assert(md.take(heading.len() as int) =~= heading);
}

/// The server's start page opens with the report's origin after the
/// `Origem analisada:` label, gives the generation time after the
/// `Gerado em:` label, then the number of directories and of files.
pub proof fn law_start_page_shows_the_report(r: MappingReport)
    ensures
        text::has_prefix(
            crate::server::index_page(r),
            crate::server::INDEX_START@ + r.source@ + crate::server::INDEX_AFTER_SOURCE@,
        ),
        text::contains_text(
            crate::server::index_page(r),
            crate::server::INDEX_AFTER_SOURCE@ + r.generated_at@ + crate::server::INDEX_AFTER_GENERATED@,
        ),
        text::contains_text(
            crate::server::index_page(r),
            crate::server::INDEX_AFTER_GENERATED@ + text::decimal_digits(r.summary.total_directories as nat)
                + crate::server::INDEX_AFTER_DIRECTORIES@ + text::decimal_digits(r.summary.total_files as nat)
                + crate::server::INDEX_END@,
        ),
{
    let page = crate::server::index_page(r);
    let opening = crate::server::INDEX_START@ + r.source@ + crate::server::INDEX_AFTER_SOURCE@;
    let time = crate::server::INDEX_AFTER_SOURCE@ + r.generated_at@ + crate::server::INDEX_AFTER_GENERATED@;
    let totals = crate::server::INDEX_AFTER_GENERATED@ + text::decimal_digits(r.summary.total_directories as nat)
        + crate::server::INDEX_AFTER_DIRECTORIES@ + text::decimal_digits(r.summary.total_files as nat)
        + crate::server::INDEX_END@;
    let rest = text::decimal_digits(r.summary.total_directories as nat) + crate::server::INDEX_AFTER_DIRECTORIES@
        + text::decimal_digits(r.summary.total_files as nat) + crate::server::INDEX_END@;
    assert(page =~= (crate::server::INDEX_START@ + r.source@) + time + rest);
    lemma_contains_between(crate::server::INDEX_START@ + r.source@, time, rest);
    assert(page =~= (crate::server::INDEX_START@ + r.source@ + crate::server::INDEX_AFTER_SOURCE@ + r.generated_at@)
        + totals + Seq::<char>::empty());
    lemma_contains_between(
        crate::server::INDEX_START@ + r.source@ + crate::server::INDEX_AFTER_SOURCE@ + r.generated_at@,
        totals,
        Seq::<char>::empty(),
    );
    assert(page.take(opening.len() as int) =~= opening);
}

// ---------------------------------------------------------------------------
// The form's focus and the start of a session
// ---------------------------------------------------------------------------

/// Focus goes through the form in screen order: directory, port, browser
/// option, start button. Tab and Down move one field forward, BackTab and Up
/// one field back, wrapping round at both ends; a move back undoes a move
/// forward and the other way round, and nothing but the focus changes.
pub proof fn law_focus_keys_follow_screen_order(f: FormView)
    ensures
        f.field == FormField::Input ==> tui::form_step(f, Key::Tab).0.field == FormField::Port,
        f.field == FormField::Port ==> tui::form_step(f, Key::Tab).0.field == FormField::Open,
        f.field == FormField::Open ==> tui::form_step(f, Key::Tab).0.field == FormField::Start,
        f.field == FormField::Start ==> tui::form_step(f, Key::Tab).0.field == FormField::Input,
        f.field == FormField::Input ==> tui::form_step(f, Key::BackTab).0.field == FormField::Start,
        f.field == FormField::Port ==> tui::form_step(f, Key::BackTab).0.field == FormField::Input,
        f.field == FormField::Open ==> tui::form_step(f, Key::BackTab).0.field == FormField::Port,
        f.field == FormField::Start ==> tui::form_step(f, Key::BackTab).0.field == FormField::Open,
        tui::form_step(f, Key::Down) == tui::form_step(f, Key::Tab),
        tui::form_step(f, Key::Up) == tui::form_step(f, Key::BackTab),
        tui::form_step(tui::form_step(f, Key::Tab).0, Key::BackTab).0 == f,
        tui::form_step(tui::form_step(f, Key::BackTab).0, Key::Tab).0 == f,
        tui::form_step(f, Key::Tab).1 == tui::FormOutcome::Stay,
        tui::form_step(f, Key::BackTab).1 == tui::FormOutcome::Stay,
        (FormView { field: f.field, ..tui::form_step(f, Key::Tab).0 }) == f,
        (FormView { field: f.field, ..tui::form_step(f, Key::BackTab).0 }) == f,
{
}

/// Enter on the start button of the form asks for a session with what the
/// form holds: the path without surrounding white space, the port its text
/// reads as, and the browser option exactly as the user left it. When the
/// port text is not a port, nothing starts and the error screen shows. No
/// other key on the form starts a session.
pub proof fn law_start_uses_the_form(s: tui::TuiView, key: Key)
    requires
        s.screen == tui::Screen::Form,
    ensures
        (tui::key_step(s, key).1 matches tui::ActionView::StartSession { input, port, open_browser } ==> {
            &&& key == Key::Enter
            &&& s.form.field == FormField::Start
            &&& open_browser == s.form.open_browser
            &&& input == tui::trimmed(s.form.input)
            &&& tui::parsed_u16(s.form.port) == Some(port)
        }),
        key == Key::Enter && s.form.field == FormField::Start && tui::parsed_u16(s.form.port) is Some
            ==> tui::key_step(s, key).1 is StartSession && tui::key_step(s, key).0.screen == tui::Screen::Loading,
        key == Key::Enter && s.form.field == FormField::Start && tui::parsed_u16(s.form.port) is None
            ==> tui::key_step(s, key).1 is Nothing && tui::key_step(s, key).0.screen == tui::Screen::Error,
{
}


// ---------------------------------------------------------------------------
// Screens, worker messages and editing keys
// ---------------------------------------------------------------------------

/// Esc or `q` leaves from every screen but the form (where `q` is typed
/// into the focused text and Esc leaves); Enter on the splash opens the form;
/// on the result screen `o` asks to open the browser at the session's
/// address and `n` clears the session and returns to the form with both
/// cursors at the ends of their texts; on the error screen Enter clears the
/// error and returns to the form; the loading screen ignores every other key.
pub proof fn law_screens_follow_keys(s: tui::TuiView, key: Key)
    requires
        s.form.input.len() <= usize::MAX,
        s.form.port.len() <= usize::MAX,
    ensures
        s.screen != tui::Screen::Form && tui::is_quit(key) ==> tui::key_step(s, key).0.should_exit,
        s.screen == tui::Screen::Form && key == Key::Esc ==> tui::key_step(s, key).0.should_exit,
        s.screen == tui::Screen::Splash && key == Key::Enter ==> tui::key_step(s, key).0.screen == tui::Screen::Form,
        s.screen == tui::Screen::Result && key == Key::Char('o') ==> match s.session {
            Some(session) => tui::key_step(s, key).1 == tui::ActionView::OpenBrowser(session.local_url@),
            None => tui::key_step(s, key).1 is Nothing,
        },
        s.screen == tui::Screen::Result && key == Key::Char('n') ==> {
            let t = tui::key_step(s, key).0;
            &&& t.screen == tui::Screen::Form
            &&& t.session is None
            &&& t.error_message is None
            &&& t.status_lines == seq![tui::waiting_line()]
            &&& t.form.input == s.form.input && t.form.port == s.form.port
            &&& t.form.input_cursor == s.form.input.len() && t.form.port_cursor == s.form.port.len()
            &&& t.form.open_browser == s.form.open_browser
        },
        s.screen == tui::Screen::Error && key == Key::Enter ==> {
            let t = tui::key_step(s, key).0;
            &&& t.screen == tui::Screen::Form
            &&& t.error_message is None
            &&& t.status_lines == seq![tui::waiting_line()]
            &&& t.form == s.form
        },
        s.screen == tui::Screen::Loading && !tui::is_quit(key) ==> tui::key_step(s, key) == (s, tui::ActionView::Nothing),
        s.screen != tui::Screen::Form && !(s.screen == tui::Screen::Result && key == Key::Char('n')) ==> tui::key_step(
            s,
            key,
        ).0.form == s.form,
{
}


/// A status line from the worker is added after the others; the end of the
/// mapping shows the result screen with the started session, or the error
/// screen with the failure's message, and says that the mapping ended.
pub proof fn law_worker_messages(s: tui::TuiView, m: tui::WorkerMessage)
    ensures
        m matches tui::WorkerMessage::Status(line) ==> {
            &&& tui::message_step(s, m).0.status_lines == s.status_lines.push(line@)
            &&& tui::message_step(s, m).0.screen == s.screen
            &&& !tui::message_step(s, m).1
        },
        m matches tui::WorkerMessage::Finished(Ok(session)) ==> {
            &&& tui::message_step(s, m).0.screen == tui::Screen::Result
            &&& tui::message_step(s, m).0.session == Some(session)
            &&& tui::message_step(s, m).1
        },
        m matches tui::WorkerMessage::Finished(Err(error)) ==> {
            &&& tui::message_step(s, m).0.screen == tui::Screen::Error
            &&& tui::message_step(s, m).0.error_message == Some(error@)
            &&& tui::message_step(s, m).1
        },
        tui::message_step(s, m).0.form == s.form,
{
}

/// Editing keys on a text whose cursor stands within it: Home and End put
/// the cursor at the start and the end, Left and Right move it one place
/// without leaving the text, and none of them changes the text; a typed
/// character lands at the cursor, which moves past it; Backspace removes the
/// character before the cursor and Delete the one at it, each leaving the
/// rest in order.
pub proof fn law_editing_keys(t: Seq<char>, cursor: usize, c: char)
    requires
        cursor <= t.len(),
        t.len() < usize::MAX,
    ensures
        tui::edit_step(t, cursor, Key::Home) == (t, 0usize),
        tui::edit_step(t, cursor, Key::End).0 == t && tui::edit_step(t, cursor, Key::End).1 == t.len(),
        tui::edit_step(t, cursor, Key::Left).0 == t,
        tui::edit_step(t, cursor, Key::Left).1 == if cursor > 0 { cursor - 1 } else { 0 },
        tui::edit_step(t, cursor, Key::Right).0 == t,
        tui::edit_step(t, cursor, Key::Right).1 == if cursor < t.len() { cursor + 1 } else { cursor as int },
        ({
            let (u, k) = tui::edit_step(t, cursor, Key::Char(c));
            &&& u.len() == t.len() + 1
            &&& k == cursor + 1
            &&& u[cursor as int] == c
            &&& u.take(cursor as int) == t.take(cursor as int)
            &&& u.skip(cursor + 1) == t.skip(cursor as int)
        }),
        cursor > 0 ==> ({
            let (u, k) = tui::edit_step(t, cursor, Key::Backspace);
            &&& k == cursor - 1
            &&& u == t.take(cursor - 1) + t.skip(cursor as int)
        }),
        cursor == 0 ==> tui::edit_step(t, cursor, Key::Backspace) == (t, cursor),
        cursor < t.len() ==> ({
            let (u, k) = tui::edit_step(t, cursor, Key::Delete);
            &&& k == cursor
            &&& u == t.take(cursor as int) + t.skip(cursor + 1)
        }),
        cursor == t.len() ==> tui::edit_step(t, cursor, Key::Delete) == (t, cursor),
{
    let (u, k) = tui::edit_step(t, cursor, Key::Char(c));
    assert(u.take(cursor as int) =~= t.take(cursor as int));
    assert(u.skip(cursor + 1) =~= t.skip(cursor as int));
    if cursor > 0 {
        let (v, _) = tui::edit_step(t, cursor, Key::Backspace);
        assert(v =~= t.take(cursor - 1) + t.skip(cursor as int));
    }
    if cursor < t.len() {
        let (v, _) = tui::edit_step(t, cursor, Key::Delete);
        assert(v =~= t.take(cursor as int) + t.skip(cursor + 1));
    }
}


/// A text contains itself.
proof fn lemma_contains_self(p: Seq<char>)
    ensures
        text::contains_text(p, p),
{
    assert(p.subrange(0, p.len() as int) =~= p);
    assert(text::occurs_at(p, p, 0));
}

/// Whatever a text contains, it still contains with more text before it.
proof fn lemma_contains_after(u: Seq<char>, v: Seq<char>, p: Seq<char>)
    requires
        text::contains_text(v, p),
    ensures
        text::contains_text(u + v, p),
{
    let i = choose|i: int| text::occurs_at(v, p, i);
    assert((u + v).subrange(u.len() + i, u.len() + i + p.len()) =~= v.subrange(i, i + p.len()));
    assert(text::occurs_at(u + v, p, u.len() + i));
}

/// The list item of the page for one extension and its count.
pub open spec fn extension_item(e: (Seq<char>, u64)) -> Seq<char> {
    "<li><code>"@ + html::escaped(e.0) + "</code><span>"@ + text::decimal_digits(e.1 as nat) + "</span></li>"@
}

/// The extension list holds the item of every extension.
proof fn lemma_items_contain(s: CountsView, i: int)
    requires
        0 <= i < s.len(),
    ensures
        text::contains_text(html::extension_items(s), extension_item(s[i])),
    decreases s.len(),
{
    let d = s.drop_last();
    let e = s.last();
    lemma_regroup5(
        html::extension_items(d),
        "<li><code>"@,
        html::escaped(e.0),
        "</code><span>"@,
        text::decimal_digits(e.1 as nat),
        "</span></li>"@,
    );
    if i == s.len() - 1 {
        lemma_contains_self(extension_item(e));
        lemma_contains_after(html::extension_items(d), extension_item(e), extension_item(e));
    } else {
        lemma_items_contain(d, i);
        assert(d[i] == s[i]);
        lemma_contains_extend(html::extension_items(d), extension_item(e), extension_item(s[i]));
    }
}

/// The served page links the stylesheet and the script and offers the
/// downloads; the standalone page holds the given stylesheet and script and
/// says that it stands alone. Either page lists every extension with its
/// count, in an item of its own, or says that there is none.
pub proof fn law_page_assets_and_extensions(r: MappingReport, tree_json: Seq<char>, m: Option<(Seq<char>, Seq<char>)>)
    ensures
        m is None ==> {
            &&& text::contains_text(html::html_page(r, tree_json, m), html::STYLE_LINK@)
            &&& text::contains_text(html::html_page(r, tree_json, m), html::SCRIPT_LINK@)
            &&& text::contains_text(html::html_page(r, tree_json, m), html::DOWNLOAD_CONTROLS@)
        },
        m matches Some((css, js)) ==> {
            &&& text::contains_text(html::html_page(r, tree_json, m), "<style>"@ + css + "</style>"@)
            &&& text::contains_text(html::html_page(r, tree_json, m), "<script>"@ + js + "</script>"@)
            &&& text::contains_text(html::html_page(r, tree_json, m), html::STANDALONE_CONTROLS@)
        },
        r.summary.by_extension@.len() == 0 ==> text::contains_text(html::html_page(r, tree_json, m), html::NO_EXTENSIONS@),
        forall|i: int| 0 <= i < r.summary.by_extension@.len() ==> text::contains_text(
            html::html_page(r, tree_json, m),
            #[trigger] extension_item(r.summary.by_extension@[i]),
        ),
{
    let p0 = html::PAGE_START@;
    let p1 = p0 + html::head_assets(m);
    let p2 = p1 + html::PAGE_AFTER_HEAD_ASSETS@;
    let p3 = p2 + html::escaped(r.source@);
    let p4 = p3 + html::PAGE_AFTER_SOURCE@;
    let p5 = p4 + html::escaped(r.generated_at@);
    let p6 = p5 + html::PAGE_AFTER_GENERATED@;
    let p7 = p6 + html::controls(m);
    let p8 = p7 + html::PAGE_BEFORE_DIRECTORIES@;
    let p9 = p8 + text::decimal_digits(r.summary.total_directories as nat);
    let p10 = p9 + html::PAGE_AFTER_DIRECTORIES@;
    let p11 = p10 + text::decimal_digits(r.summary.total_files as nat);
    let p12 = p11 + html::PAGE_AFTER_FILES@;
    let p13 = p12 + html::extensions_section(r.summary.by_extension@);
    let p14 = p13 + html::PAGE_AFTER_EXTENSIONS@;
    let p15 = p14 + "Mapeamento do Diretorio <code>"@;
    let p16 = p15 + html::escaped(r.source@);
    let p17 = p16 + "</code>"@;
    let p18 = p17 + html::PAGE_AFTER_TITLE@;
    let p19 = p18 + html::script_safe(tree_json);
    let p20 = p19 + html::PAGE_AFTER_TREE@;
    let p21 = p20 + html::script_assets(m);
    let p22 = p21 + html::PAGE_END@;
    assert(html::html_page(r, tree_json, m) == p22);
    if m is None {
        lemma_contains_self(html::STYLE_LINK@);
        lemma_contains_after(p0, html::head_assets(m), html::STYLE_LINK@);
        lemma_contains_extend(p1, html::PAGE_AFTER_HEAD_ASSETS@, html::STYLE_LINK@);
        lemma_contains_extend(p2, html::escaped(r.source@), html::STYLE_LINK@);
        lemma_contains_extend(p3, html::PAGE_AFTER_SOURCE@, html::STYLE_LINK@);
        lemma_contains_extend(p4, html::escaped(r.generated_at@), html::STYLE_LINK@);
        lemma_contains_extend(p5, html::PAGE_AFTER_GENERATED@, html::STYLE_LINK@);
        lemma_contains_extend(p6, html::controls(m), html::STYLE_LINK@);
        lemma_contains_extend(p7, html::PAGE_BEFORE_DIRECTORIES@, html::STYLE_LINK@);
        lemma_contains_extend(p8, text::decimal_digits(r.summary.total_directories as nat), html::STYLE_LINK@);
        lemma_contains_extend(p9, html::PAGE_AFTER_DIRECTORIES@, html::STYLE_LINK@);
        lemma_contains_extend(p10, text::decimal_digits(r.summary.total_files as nat), html::STYLE_LINK@);
        lemma_contains_extend(p11, html::PAGE_AFTER_FILES@, html::STYLE_LINK@);
        lemma_contains_extend(p12, html::extensions_section(r.summary.by_extension@), html::STYLE_LINK@);
        lemma_contains_extend(p13, html::PAGE_AFTER_EXTENSIONS@, html::STYLE_LINK@);
        lemma_contains_extend(p14, "Mapeamento do Diretorio <code>"@, html::STYLE_LINK@);
        lemma_contains_extend(p15, html::escaped(r.source@), html::STYLE_LINK@);
        lemma_contains_extend(p16, "</code>"@, html::STYLE_LINK@);
        lemma_contains_extend(p17, html::PAGE_AFTER_TITLE@, html::STYLE_LINK@);
        lemma_contains_extend(p18, html::script_safe(tree_json), html::STYLE_LINK@);
        lemma_contains_extend(p19, html::PAGE_AFTER_TREE@, html::STYLE_LINK@);
        lemma_contains_extend(p20, html::script_assets(m), html::STYLE_LINK@);
        lemma_contains_extend(p21, html::PAGE_END@, html::STYLE_LINK@);
        lemma_contains_self(html::DOWNLOAD_CONTROLS@);
        lemma_contains_after(p6, html::controls(m), html::DOWNLOAD_CONTROLS@);
        lemma_contains_extend(p7, html::PAGE_BEFORE_DIRECTORIES@, html::DOWNLOAD_CONTROLS@);
        lemma_contains_extend(p8, text::decimal_digits(r.summary.total_directories as nat), html::DOWNLOAD_CONTROLS@);
        lemma_contains_extend(p9, html::PAGE_AFTER_DIRECTORIES@, html::DOWNLOAD_CONTROLS@);
        lemma_contains_extend(p10, text::decimal_digits(r.summary.total_files as nat), html::DOWNLOAD_CONTROLS@);
        lemma_contains_extend(p11, html::PAGE_AFTER_FILES@, html::DOWNLOAD_CONTROLS@);
        lemma_contains_extend(p12, html::extensions_section(r.summary.by_extension@), html::DOWNLOAD_CONTROLS@);
        lemma_contains_extend(p13, html::PAGE_AFTER_EXTENSIONS@, html::DOWNLOAD_CONTROLS@);
        lemma_contains_extend(p14, "Mapeamento do Diretorio <code>"@, html::DOWNLOAD_CONTROLS@);
        lemma_contains_extend(p15, html::escaped(r.source@), html::DOWNLOAD_CONTROLS@);
        lemma_contains_extend(p16, "</code>"@, html::DOWNLOAD_CONTROLS@);
        lemma_contains_extend(p17, html::PAGE_AFTER_TITLE@, html::DOWNLOAD_CONTROLS@);
        lemma_contains_extend(p18, html::script_safe(tree_json), html::DOWNLOAD_CONTROLS@);
        lemma_contains_extend(p19, html::PAGE_AFTER_TREE@, html::DOWNLOAD_CONTROLS@);
        lemma_contains_extend(p20, html::script_assets(m), html::DOWNLOAD_CONTROLS@);
        lemma_contains_extend(p21, html::PAGE_END@, html::DOWNLOAD_CONTROLS@);
        lemma_contains_self(html::SCRIPT_LINK@);
        lemma_contains_after(p20, html::script_assets(m), html::SCRIPT_LINK@);
        lemma_contains_extend(p21, html::PAGE_END@, html::SCRIPT_LINK@);
    }
    if let Some((css, js)) = m {
        lemma_contains_self(("<style>"@ + css + "</style>"@));
        lemma_contains_after(p0, html::head_assets(m), ("<style>"@ + css + "</style>"@));
        lemma_contains_extend(p1, html::PAGE_AFTER_HEAD_ASSETS@, ("<style>"@ + css + "</style>"@));
        lemma_contains_extend(p2, html::escaped(r.source@), ("<style>"@ + css + "</style>"@));
        lemma_contains_extend(p3, html::PAGE_AFTER_SOURCE@, ("<style>"@ + css + "</style>"@));
        lemma_contains_extend(p4, html::escaped(r.generated_at@), ("<style>"@ + css + "</style>"@));
        lemma_contains_extend(p5, html::PAGE_AFTER_GENERATED@, ("<style>"@ + css + "</style>"@));
        lemma_contains_extend(p6, html::controls(m), ("<style>"@ + css + "</style>"@));
        lemma_contains_extend(p7, html::PAGE_BEFORE_DIRECTORIES@, ("<style>"@ + css + "</style>"@));
        lemma_contains_extend(p8, text::decimal_digits(r.summary.total_directories as nat), ("<style>"@ + css + "</style>"@));
        lemma_contains_extend(p9, html::PAGE_AFTER_DIRECTORIES@, ("<style>"@ + css + "</style>"@));
        lemma_contains_extend(p10, text::decimal_digits(r.summary.total_files as nat), ("<style>"@ + css + "</style>"@));
        lemma_contains_extend(p11, html::PAGE_AFTER_FILES@, ("<style>"@ + css + "</style>"@));
        lemma_contains_extend(p12, html::extensions_section(r.summary.by_extension@), ("<style>"@ + css + "</style>"@));
        lemma_contains_extend(p13, html::PAGE_AFTER_EXTENSIONS@, ("<style>"@ + css + "</style>"@));
        lemma_contains_extend(p14, "Mapeamento do Diretorio <code>"@, ("<style>"@ + css + "</style>"@));
        lemma_contains_extend(p15, html::escaped(r.source@), ("<style>"@ + css + "</style>"@));
        lemma_contains_extend(p16, "</code>"@, ("<style>"@ + css + "</style>"@));
        lemma_contains_extend(p17, html::PAGE_AFTER_TITLE@, ("<style>"@ + css + "</style>"@));
        lemma_contains_extend(p18, html::script_safe(tree_json), ("<style>"@ + css + "</style>"@));
        lemma_contains_extend(p19, html::PAGE_AFTER_TREE@, ("<style>"@ + css + "</style>"@));
        lemma_contains_extend(p20, html::script_assets(m), ("<style>"@ + css + "</style>"@));
        lemma_contains_extend(p21, html::PAGE_END@, ("<style>"@ + css + "</style>"@));
        lemma_contains_self(html::STANDALONE_CONTROLS@);
        lemma_contains_after(p6, html::controls(m), html::STANDALONE_CONTROLS@);
        lemma_contains_extend(p7, html::PAGE_BEFORE_DIRECTORIES@, html::STANDALONE_CONTROLS@);
        lemma_contains_extend(p8, text::decimal_digits(r.summary.total_directories as nat), html::STANDALONE_CONTROLS@);
        lemma_contains_extend(p9, html::PAGE_AFTER_DIRECTORIES@, html::STANDALONE_CONTROLS@);
        lemma_contains_extend(p10, text::decimal_digits(r.summary.total_files as nat), html::STANDALONE_CONTROLS@);
        lemma_contains_extend(p11, html::PAGE_AFTER_FILES@, html::STANDALONE_CONTROLS@);
        lemma_contains_extend(p12, html::extensions_section(r.summary.by_extension@), html::STANDALONE_CONTROLS@);
        lemma_contains_extend(p13, html::PAGE_AFTER_EXTENSIONS@, html::STANDALONE_CONTROLS@);
        lemma_contains_extend(p14, "Mapeamento do Diretorio <code>"@, html::STANDALONE_CONTROLS@);
        lemma_contains_extend(p15, html::escaped(r.source@), html::STANDALONE_CONTROLS@);
        lemma_contains_extend(p16, "</code>"@, html::STANDALONE_CONTROLS@);
        lemma_contains_extend(p17, html::PAGE_AFTER_TITLE@, html::STANDALONE_CONTROLS@);
        lemma_contains_extend(p18, html::script_safe(tree_json), html::STANDALONE_CONTROLS@);
        lemma_contains_extend(p19, html::PAGE_AFTER_TREE@, html::STANDALONE_CONTROLS@);
        lemma_contains_extend(p20, html::script_assets(m), html::STANDALONE_CONTROLS@);
        lemma_contains_extend(p21, html::PAGE_END@, html::STANDALONE_CONTROLS@);
        lemma_contains_self(("<script>"@ + js + "</script>"@));
        lemma_contains_after(p20, html::script_assets(m), ("<script>"@ + js + "</script>"@));
        lemma_contains_extend(p21, html::PAGE_END@, ("<script>"@ + js + "</script>"@));
    }
    let counts = r.summary.by_extension@;
    if counts.len() == 0 {
        lemma_contains_self(html::NO_EXTENSIONS@);
        lemma_contains_after(p12, html::extensions_section(r.summary.by_extension@), html::NO_EXTENSIONS@);
        lemma_contains_extend(p13, html::PAGE_AFTER_EXTENSIONS@, html::NO_EXTENSIONS@);
        lemma_contains_extend(p14, "Mapeamento do Diretorio <code>"@, html::NO_EXTENSIONS@);
        lemma_contains_extend(p15, html::escaped(r.source@), html::NO_EXTENSIONS@);
        lemma_contains_extend(p16, "</code>"@, html::NO_EXTENSIONS@);
        lemma_contains_extend(p17, html::PAGE_AFTER_TITLE@, html::NO_EXTENSIONS@);
        lemma_contains_extend(p18, html::script_safe(tree_json), html::NO_EXTENSIONS@);
        lemma_contains_extend(p19, html::PAGE_AFTER_TREE@, html::NO_EXTENSIONS@);
        lemma_contains_extend(p20, html::script_assets(m), html::NO_EXTENSIONS@);
        lemma_contains_extend(p21, html::PAGE_END@, html::NO_EXTENSIONS@);
    }
    assert forall|i: int| 0 <= i < counts.len() implies text::contains_text(p22, #[trigger] extension_item(counts[i])) by {
        lemma_items_contain(counts, i);
        lemma_contains_after(html::EXTENSIONS_START@, html::extension_items(counts), extension_item(counts[i]));
        lemma_contains_extend(html::EXTENSIONS_START@ + html::extension_items(counts), html::EXTENSIONS_END@, extension_item(counts[i]));
        lemma_contains_after(p12, html::extensions_section(r.summary.by_extension@), extension_item(counts[i]));
        lemma_contains_extend(p13, html::PAGE_AFTER_EXTENSIONS@, extension_item(counts[i]));
        lemma_contains_extend(p14, "Mapeamento do Diretorio <code>"@, extension_item(counts[i]));
        lemma_contains_extend(p15, html::escaped(r.source@), extension_item(counts[i]));
        lemma_contains_extend(p16, "</code>"@, extension_item(counts[i]));
        lemma_contains_extend(p17, html::PAGE_AFTER_TITLE@, extension_item(counts[i]));
        lemma_contains_extend(p18, html::script_safe(tree_json), extension_item(counts[i]));
        lemma_contains_extend(p19, html::PAGE_AFTER_TREE@, extension_item(counts[i]));
        lemma_contains_extend(p20, html::script_assets(m), extension_item(counts[i]));
        lemma_contains_extend(p21, html::PAGE_END@, extension_item(counts[i]));
    }
}


/// The row of the Markdown table for one extension and its count.
pub open spec fn extension_row(e: (Seq<char>, u64)) -> Seq<char> {
    "| `"@ + e.0 + "` | "@ + text::decimal_digits(e.1 as nat) + " |\n"@
}

/// The table rows hold the row of every extension.
proof fn lemma_rows_contain(s: CountsView, i: int)
    requires
        0 <= i < s.len(),
    ensures
        text::contains_text(md::extension_rows(s), extension_row(s[i])),
    decreases s.len(),
{
    let d = s.drop_last();
    let e = s.last();
    lemma_regroup5(md::extension_rows(d), "| `"@, e.0, "` | "@, text::decimal_digits(e.1 as nat), " |\n"@);
    if i == s.len() - 1 {
        lemma_contains_self(extension_row(e));
        lemma_contains_after(md::extension_rows(d), extension_row(e), extension_row(e));
    } else {
        lemma_rows_contain(d, i);
        assert(d[i] == s[i]);
        lemma_contains_extend(md::extension_rows(d), extension_row(e), extension_row(s[i]));
    }
}

/// The list item of a node without its indentation: a file by its name, a
/// directory by its name in bold with a slash.
pub open spec fn tree_line(n: NodeView) -> Seq<char> {
    match n {
        NodeView::File { name, .. } => "* "@ + name + "\n"@,
        NodeView::Directory { name, .. } => "* **"@ + name + "/**\n"@,
    }
}

/// A node's Markdown starts with its own item at its level.
proof fn lemma_tree_line(n: NodeView, level: nat)
    ensures
        text::has_prefix(md::tree_markdown(n, level), md::indentation(level) + tree_line(n)),
{
    let t = md::tree_markdown(n, level);
    let head = md::indentation(level) + tree_line(n);
    if let NodeView::Directory { name, children } = n {
        assert(t =~= head + md::children_markdown(children, level + 1));
    }
    assert(t.take(head.len() as int) =~= head);
}

/// Sibling nodes' Markdown holds the Markdown of each of them.
proof fn lemma_children_contain(cs: Seq<NodeView>, level: nat, i: int)
    requires
        0 <= i < cs.len(),
    ensures
        text::contains_text(md::children_markdown(cs, level), md::tree_markdown(cs[i], level)),
    decreases cs.len(),
{
    let d = cs.drop_last();
    if i == cs.len() - 1 {
        lemma_contains_self(md::tree_markdown(cs.last(), level));
        lemma_contains_after(md::children_markdown(d, level), md::tree_markdown(cs.last(), level), md::tree_markdown(cs[i], level));
    } else {
        lemma_children_contain(d, level, i);
        assert(d[i] == cs[i]);
        lemma_contains_extend(md::children_markdown(d, level), md::tree_markdown(cs.last(), level), md::tree_markdown(cs[i], level));
    }
}

/// In the Markdown tree, a directory's item is followed by the items of its
/// children, each one level deeper: the Markdown of a directory holds the
/// Markdown of every child at the next level.
pub proof fn law_markdown_tree_nests_children(name: Seq<char>, children: Seq<NodeView>, level: nat, i: int)
    requires
        0 <= i < children.len(),
    ensures
        text::contains_text(
            md::tree_markdown(NodeView::Directory { name, children }, level),
            md::tree_markdown(children[i], level + 1),
        ),
        text::has_prefix(
            md::tree_markdown(children[i], level + 1),
            text::repeat_text("  "@, level + 1) + tree_line(children[i]),
        ),
{
    let n = NodeView::Directory { name, children };
    lemma_children_contain(children, level + 1, i);
    lemma_contains_after(md::indentation(level) + tree_line(n), md::children_markdown(children, level + 1), md::tree_markdown(children[i], level + 1));
    assert(md::tree_markdown(n, level) =~= md::indentation(level) + tree_line(n) + md::children_markdown(children, level + 1));
    lemma_tree_line(children[i], level + 1);
}

/// The Markdown report's tree starts with the root's item right under the
/// tree's heading, and its table lists every extension with its count in a
/// row of its own, or a single row with zero files without extension when
/// nothing was counted.
pub proof fn law_markdown_tree_and_table(r: MappingReport)
    ensures
        text::contains_text(md::markdown_of(r), "## Arvore de Arquivos\n\n"@ + tree_line(r.tree@)),
        r.summary.by_extension@.len() == 0 ==> text::contains_text(md::markdown_of(r), "| `[sem extensao]` | 0 |\n"@),
        forall|i: int| 0 <= i < r.summary.by_extension@.len() ==> text::contains_text(
            md::markdown_of(r),
            #[trigger] extension_row(r.summary.by_extension@[i]),
        ),
{
    let p0 = "# Mapeamento do Diretorio: `"@;
    let p1 = p0 + r.source@;
    let p2 = p1 + "`\n\n"@;
    let p3 = p2 + "## Arvore de Arquivos\n\n"@;
    let p4 = p3 + md::tree_markdown(r.tree@, 0);
    let p5 = p4 + "\n---\n\n"@;
    let p6 = p5 + "## Relatorio Estatistico Quantitativo\n\n"@;
    let p7 = p6 + "- **Data de geracao:** "@;
    let p8 = p7 + r.generated_at@;
    let p9 = p8 + "\n"@;
    let p10 = p9 + "- **Total de Diretorios:** "@;
    let p11 = p10 + text::decimal_digits(r.summary.total_directories as nat);
    let p12 = p11 + "\n"@;
    let p13 = p12 + "- **Total de Arquivos:** "@;
    let p14 = p13 + text::decimal_digits(r.summary.total_files as nat);
    let p15 = p14 + "\n\n"@;
    let p16 = p15 + "### Quantitativo por Extensao/Formato\n\n"@;
    let p17 = p16 + "| Extensao / Formato | Quantidade de Arquivos |\n"@;
    let p18 = p17 + "| :--- | ---: |\n"@;
    let p19 = p18 + md::extension_table(r.summary.by_extension@);
    assert(md::markdown_of(r) == p19);
    let counts = r.summary.by_extension@;
    if counts.len() == 0 {
        lemma_contains_self("| `[sem extensao]` | 0 |\n"@);
        lemma_contains_after(p18, md::extension_table(r.summary.by_extension@), "| `[sem extensao]` | 0 |\n"@);
    }
    assert forall|i: int| 0 <= i < counts.len() implies text::contains_text(p19, #[trigger] extension_row(counts[i])) by {
        lemma_rows_contain(counts, i);
        lemma_contains_after(p18, md::extension_table(r.summary.by_extension@), extension_row(counts[i]));
    }
    lemma_tree_line(r.tree@, 0);
    let x = "## Arvore de Arquivos\n\n"@ + tree_line(r.tree@);
    let tm = md::tree_markdown(r.tree@, 0);
    assert(md::indentation(0) =~= Seq::<char>::empty());
    assert(tm =~= tree_line(r.tree@) + tm.skip(tree_line(r.tree@).len() as int));
    assert(p4 =~= p2 + x + tm.skip(tree_line(r.tree@).len() as int));
    lemma_contains_between(p2, x, tm.skip(tree_line(r.tree@).len() as int));
    lemma_contains_extend(p4, "\n---\n\n"@, x);
    lemma_contains_extend(p5, "## Relatorio Estatistico Quantitativo\n\n"@, x);
    lemma_contains_extend(p6, "- **Data de geracao:** "@, x);
    lemma_contains_extend(p7, r.generated_at@, x);
    lemma_contains_extend(p8, "\n"@, x);
    lemma_contains_extend(p9, "- **Total de Diretorios:** "@, x);
    lemma_contains_extend(p10, text::decimal_digits(r.summary.total_directories as nat), x);
    lemma_contains_extend(p11, "\n"@, x);
    lemma_contains_extend(p12, "- **Total de Arquivos:** "@, x);
    lemma_contains_extend(p13, text::decimal_digits(r.summary.total_files as nat), x);
    lemma_contains_extend(p14, "\n\n"@, x);
    lemma_contains_extend(p15, "### Quantitativo por Extensao/Formato\n\n"@, x);
    lemma_contains_extend(p16, "| Extensao / Formato | Quantidade de Arquivos |\n"@, x);
    lemma_contains_extend(p17, "| :--- | ---: |\n"@, x);
    lemma_contains_extend(p18, md::extension_table(r.summary.by_extension@), x);
}


/// Whether the lines `p` stand one after the other in `s` from position `i`.
pub open spec fn lines_at(s: Seq<console::LineView>, p: Seq<console::LineView>, i: int) -> bool {
    0 <= i && i + p.len() <= s.len() && s.subrange(i, i + p.len()) == p
}

/// Whether the lines `p` stand one after the other somewhere in `s`.
pub open spec fn lines_contain(s: Seq<console::LineView>, p: Seq<console::LineView>) -> bool {
    exists|i: int| lines_at(s, p, i)
}

/// Lines placed between others stand in the whole.
proof fn lemma_lines_between(a: Seq<console::LineView>, p: Seq<console::LineView>, b: Seq<console::LineView>)
    ensures
        lines_contain(a + p + b, p),
{
    let s = a + p + b;
    assert(s.subrange(a.len() as int, (a.len() + p.len()) as int) =~= p);
    assert(lines_at(s, p, a.len() as int));
}

/// The `serve` command first prints the origin after its label, then the
/// generation time after its label, then the server's address after its
/// label; it prints the number of directories and then of files on
/// consecutive lines, one line per extension with its count, the warnings'
/// and ignored items' numbers and one error line per warning when there
/// were warnings, the browser's failure as an error line when it was to be
/// opened, and it ends with the six routes under the address.
pub proof fn law_serve_console_shows_the_report(
    source: Seq<char>,
    generated_at: Seq<char>,
    url: Seq<char>,
    open_browser: bool,
    browser_error: Option<Seq<char>>,
    m: MetricsView,
    ws: Seq<WarningView>,
)
    ensures
        ({
            let c = console::serve_console(source, generated_at, url, open_browser, browser_error, m, ws);
            &&& c[2] == console::out("Origem analisada:"@) && c[3] == console::out(source)
            &&& c[5] == console::out("Data de geracao:"@) && c[6] == console::out(generated_at)
            &&& c[8] == console::out("Servidor local:"@) && c[9] == console::out(url)
            &&& c.len() >= 16
            &&& c[c.len() - 6] == console::out(url + "/"@)
            &&& c[c.len() - 5] == console::out(url + "/api/tree"@)
            &&& c[c.len() - 4] == console::out(url + "/api/summary"@)
            &&& c[c.len() - 3] == console::out(url + "/download/html"@)
            &&& c[c.len() - 2] == console::out(url + "/download/json"@)
            &&& c[c.len() - 1] == console::out(url + "/download/markdown"@)
            &&& lines_contain(c, seq![
                console::out("Diretorios: "@ + text::decimal_digits(m.total_directories as nat)),
                console::out("Arquivos: "@ + text::decimal_digits(m.total_files as nat)),
            ])
            &&& forall|i: int| 0 <= i < m.by_extension.len() ==> lines_contain(c, seq![console::out(
                "  "@ + (#[trigger] m.by_extension[i]).0 + ": "@ + text::decimal_digits(m.by_extension[i].1 as nat),
            )])
            &&& m.warning_count > 0 ==> lines_contain(c, seq![
                console::out("Avisos de leitura: "@ + text::decimal_digits(m.warning_count as nat)),
                console::out("Itens ignorados: "@ + text::decimal_digits(m.ignored_items as nat)),
            ])
            &&& m.warning_count > 0 ==> forall|i: int| 0 <= i < ws.len() ==> lines_contain(c, seq![console::err(
                "[aviso:"@ + (#[trigger] ws[i]).kind + "] "@ + ws[i].path + " -> "@ + ws[i].message,
            )])
            &&& (open_browser && browser_error is Some) ==> lines_contain(c, seq![console::err(
                "Falha ao abrir o navegador automaticamente: "@ + browser_error->Some_0,
            )])
        }),
{
    lemma_console_ends(source, generated_at, url, open_browser, browser_error, m, ws);
    lemma_console_totals(source, generated_at, url, open_browser, browser_error, m, ws);
    lemma_console_extensions(source, generated_at, url, open_browser, browser_error, m, ws);
    lemma_console_warnings(source, generated_at, url, open_browser, browser_error, m, ws);
    lemma_console_browser(source, generated_at, url, open_browser, browser_error, m, ws);
}

proof fn lemma_console_ends(
    source: Seq<char>,
    generated_at: Seq<char>,
    url: Seq<char>,
    open_browser: bool,
    browser_error: Option<Seq<char>>,
    m: MetricsView,
    ws: Seq<WarningView>,
)
    ensures
        ({
            let c = console::serve_console(source, generated_at, url, open_browser, browser_error, m, ws);
            &&& c[2] == console::out("Origem analisada:"@) && c[3] == console::out(source)
            &&& c[5] == console::out("Data de geracao:"@) && c[6] == console::out(generated_at)
            &&& c[8] == console::out("Servidor local:"@) && c[9] == console::out(url)
            &&& c.len() >= 16
            &&& c[c.len() - 6] == console::out(url + "/"@)
            &&& c[c.len() - 5] == console::out(url + "/api/tree"@)
            &&& c[c.len() - 4] == console::out(url + "/api/summary"@)
            &&& c[c.len() - 3] == console::out(url + "/download/html"@)
            &&& c[c.len() - 2] == console::out(url + "/download/json"@)
            &&& c[c.len() - 1] == console::out(url + "/download/markdown"@)
        }),
{
    let h = console::header_lines(source, generated_at, url);
    let mid = console::browser_lines(open_browser, browser_error) + console::metrics_lines(m)
        + console::warning_section(m, ws);
    let rt = console::route_lines(url);
    let c = console::serve_console(source, generated_at, url, open_browser, browser_error, m, ws);
    assert(c =~= h + mid + rt);
    assert(h.len() == 10 && rt.len() == 8);
    assert(c[2] == h[2] && c[3] == h[3] && c[5] == h[5] && c[6] == h[6] && c[8] == h[8] && c[9] == h[9]);
    let n = c.len() as int;
    assert(c[n - 6] == rt[2] && c[n - 5] == rt[3] && c[n - 4] == rt[4]);
    assert(c[n - 3] == rt[5] && c[n - 2] == rt[6] && c[n - 1] == rt[7]);
}

proof fn lemma_console_totals(
    source: Seq<char>,
    generated_at: Seq<char>,
    url: Seq<char>,
    open_browser: bool,
    browser_error: Option<Seq<char>>,
    m: MetricsView,
    ws: Seq<WarningView>,
)
    ensures
        lines_contain(console::serve_console(source, generated_at, url, open_browser, browser_error, m, ws), seq![
            console::out("Diretorios: "@ + text::decimal_digits(m.total_directories as nat)),
            console::out("Arquivos: "@ + text::decimal_digits(m.total_files as nat)),
        ]),
{
    let before = console::header_lines(source, generated_at, url) + console::browser_lines(open_browser, browser_error);
    let after = console::warning_section(m, ws) + console::route_lines(url);
    let ml = console::metrics_lines(m);
    let totals = seq![
        console::out("Diretorios: "@ + text::decimal_digits(m.total_directories as nat)),
        console::out("Arquivos: "@ + text::decimal_digits(m.total_files as nat)),
    ];
    let ml_head = seq![console::out(console::blank()), console::out("Metricas iniciais:"@)];
    let ext = ml.skip(4);
    assert(ml =~= ml_head + totals + ext);
    let c = console::serve_console(source, generated_at, url, open_browser, browser_error, m, ws);
    assert(c == before + ml + after);
    assert(c =~= (before + ml_head) + totals + (ext + after));
    lemma_lines_between(before + ml_head, totals, ext + after);
}

proof fn lemma_console_extensions(
    source: Seq<char>,
    generated_at: Seq<char>,
    url: Seq<char>,
    open_browser: bool,
    browser_error: Option<Seq<char>>,
    m: MetricsView,
    ws: Seq<WarningView>,
)
    ensures
        forall|i: int| 0 <= i < m.by_extension.len() ==> lines_contain(
            console::serve_console(source, generated_at, url, open_browser, browser_error, m, ws),
            seq![console::out(
                "  "@ + (#[trigger] m.by_extension[i]).0 + ": "@ + text::decimal_digits(m.by_extension[i].1 as nat),
            )],
        ),
{
    let c = console::serve_console(source, generated_at, url, open_browser, browser_error, m, ws);
    let before = console::header_lines(source, generated_at, url) + console::browser_lines(open_browser, browser_error);
    let after = console::warning_section(m, ws) + console::route_lines(url);
    let ml = console::metrics_lines(m);
    assert(c == before + ml + after);
    assert forall|i: int| 0 <= i < m.by_extension.len() implies lines_contain(c, seq![console::out(
        "  "@ + (#[trigger] m.by_extension[i]).0 + ": "@ + text::decimal_digits(m.by_extension[i].1 as nat),
    )]) by {
        let mapped = m.by_extension.map_values(|e: (Seq<char>, u64)| console::extension_line(e));
        let one = seq![console::extension_line(m.by_extension[i])];
        assert(mapped[i] == console::extension_line(m.by_extension[i]));
        let head = ml.take(5);
        assert(ml =~= head + mapped);
        let pre = before + head + mapped.take(i);
        let post = mapped.skip(i + 1) + after;
        assert(c =~= pre + one + post);
        lemma_lines_between(pre, one, post);
    }
}

proof fn lemma_console_warnings(
    source: Seq<char>,
    generated_at: Seq<char>,
    url: Seq<char>,
    open_browser: bool,
    browser_error: Option<Seq<char>>,
    m: MetricsView,
    ws: Seq<WarningView>,
)
    ensures
        m.warning_count > 0 ==> lines_contain(
            console::serve_console(source, generated_at, url, open_browser, browser_error, m, ws),
            seq![
                console::out("Avisos de leitura: "@ + text::decimal_digits(m.warning_count as nat)),
                console::out("Itens ignorados: "@ + text::decimal_digits(m.ignored_items as nat)),
            ],
        ),
        m.warning_count > 0 ==> forall|i: int| 0 <= i < ws.len() ==> lines_contain(
            console::serve_console(source, generated_at, url, open_browser, browser_error, m, ws),
            seq![console::err("[aviso:"@ + (#[trigger] ws[i]).kind + "] "@ + ws[i].path + " -> "@ + ws[i].message)],
        ),
{
    if m.warning_count > 0 {
        let c = console::serve_console(source, generated_at, url, open_browser, browser_error, m, ws);
        let before = console::header_lines(source, generated_at, url) + console::browser_lines(open_browser, browser_error)
            + console::metrics_lines(m);
        let w = console::warning_section(m, ws);
        let rt = console::route_lines(url);
        assert(c == before + w + rt);
        let counts = seq![
            console::out("Avisos de leitura: "@ + text::decimal_digits(m.warning_count as nat)),
            console::out("Itens ignorados: "@ + text::decimal_digits(m.ignored_items as nat)),
        ];
        let blank = seq![console::out(console::blank())];
        let wl = ws.map_values(|x: WarningView| console::warning_console_line(x));
        assert(w =~= blank + counts + wl);
        assert(c =~= (before + blank) + counts + (wl + rt));
        lemma_lines_between(before + blank, counts, wl + rt);
        assert forall|i: int| 0 <= i < ws.len() implies lines_contain(c, seq![console::err(
            "[aviso:"@ + (#[trigger] ws[i]).kind + "] "@ + ws[i].path + " -> "@ + ws[i].message,
        )]) by {
            let one = seq![console::warning_console_line(ws[i])];
            assert(wl[i] == console::warning_console_line(ws[i]));
            let pre = before + blank + counts + wl.take(i);
            let post = wl.skip(i + 1) + rt;
            assert(c =~= pre + one + post);
            lemma_lines_between(pre, one, post);
        }
    }
}

proof fn lemma_console_browser(
    source: Seq<char>,
    generated_at: Seq<char>,
    url: Seq<char>,
    open_browser: bool,
    browser_error: Option<Seq<char>>,
    m: MetricsView,
    ws: Seq<WarningView>,
)
    ensures
        (open_browser && browser_error is Some) ==> lines_contain(
            console::serve_console(source, generated_at, url, open_browser, browser_error, m, ws),
            seq![console::err("Falha ao abrir o navegador automaticamente: "@ + browser_error->Some_0)],
        ),
{
    if open_browser && browser_error is Some {
        let c = console::serve_console(source, generated_at, url, open_browser, browser_error, m, ws);
        let h = console::header_lines(source, generated_at, url);
        let b = console::browser_lines(open_browser, browser_error);
        let rest = console::metrics_lines(m) + console::warning_section(m, ws) + console::route_lines(url);
        assert(c =~= h + b + rest);
        let one = seq![console::err("Falha ao abrir o navegador automaticamente: "@ + browser_error->Some_0)];
        let on = seq![console::out(console::blank()), console::out("Abertura automatica do navegador: habilitada"@)];
        assert(b =~= on + one);
        assert(c =~= (h + on) + one + rest);
        lemma_lines_between(h + on, one, rest);
    }
}


// ---------------------------------------------------------------------------
// Names, order, input checks and what the screens list
// ---------------------------------------------------------------------------

/// In a listing, every directory comes before every file; two directories,
/// or two files, come in the order of their names.
pub proof fn law_directories_before_files(a: NodeView, b: NodeView)
    ensures
        (a is Directory && b is File) ==> node::node_before(a, b) && !node::node_before(b, a),
        (a is File && b is File) || (a is Directory && b is Directory) ==> (node::node_before(a, b)
            <==> text::text_lt(node::name_of(a), node::name_of(b))),
{
}

/// A file read by the scan becomes a file node named by its file name (the
/// whole path when it has none, or an empty one) whose extension is a dot
/// followed by the platform's extension with ASCII capitals made small and
/// every other character kept.
pub proof fn law_scanned_file_node(path: Seq<char>, file_name: Option<Seq<char>>, extension: Option<Seq<char>>)
    ensures
        ({
            let n = scanner::scan_node(EntryView::File { path, file_name, extension });
            &&& n is Some && n->Some_0 is File
            &&& (file_name is Some && file_name->Some_0.len() > 0) ==> node::name_of(n->Some_0) == file_name->Some_0
            &&& !(file_name is Some && file_name->Some_0.len() > 0) ==> node::name_of(n->Some_0) == path
            &&& extension is None ==> n->Some_0->File_extension is None
            &&& extension matches Some(e) ==> {
                let x = n->Some_0->File_extension->Some_0;
                &&& n->Some_0->File_extension is Some
                &&& x.len() == e.len() + 1
                &&& x[0] == '.'
                &&& forall|j: int| 0 <= j < e.len() ==> {
                    &&& ('A' <= #[trigger] e[j] && e[j] <= 'Z') ==> x[j + 1] as u32 == e[j] as u32 + 32
                    &&& !('A' <= e[j] && e[j] <= 'Z') ==> x[j + 1] == e[j]
                }
            }
        }),
{
    if let Some(e) = extension {
        let x = scanner::recorded_extension(extension)->Some_0;
        assert forall|j: int| 0 <= j < e.len() implies {
            &&& ('A' <= #[trigger] e[j] && e[j] <= 'Z') ==> x[j + 1] as u32 == e[j] as u32 + 32
            &&& !('A' <= e[j] && e[j] <= 'Z') ==> x[j + 1] == e[j]
        } by {
            assert(x[j + 1] == text::ascii_lower(e[j]));
            if 'A' <= e[j] && e[j] <= 'Z' {
                assert((e[j] as u32 + 32) as char as u32 == e[j] as u32 + 32);
            }
        }
    }
}

/// A path that does not exist, or is not a directory, is refused with a
/// message that says which and ends with the path; an existing directory is
/// accepted.
pub proof fn law_input_check(path: Seq<char>, probe: cli::PathProbe)
    ensures
        !probe.exists ==> cli::input_problem(path, probe) == Some("o caminho informado nao existe: "@ + path),
        probe.exists && !probe.is_dir ==> cli::input_problem(path, probe) == Some(
            "o caminho informado nao e um diretorio: "@ + path,
        ),
        probe.exists && probe.is_dir ==> cli::input_problem(path, probe) is None,
{
}

/// The loading screen shows the last twelve status lines (all of them when
/// there are fewer), oldest first.
pub proof fn law_recent_lines_are_the_last(lines: Seq<Seq<char>>)
    ensures
        tui::recent_lines(lines).len() == if lines.len() > 12 { 12 } else { lines.len() as int },
        forall|k: int| 0 <= k < tui::recent_lines(lines).len() ==> #[trigger] tui::recent_lines(lines)[k]
            == lines[lines.len() - tui::recent_lines(lines).len() + k],
{
}

/// The warnings panel lists the first warnings, at most eight, in order, each
/// as its kind, path and message; with no warning it says so; the browser's
/// failure, if any, comes last.
pub proof fn law_warning_panel_lists_first_warnings(ws: Seq<WarningView>, browser_error: Option<Seq<char>>)
    ensures
        ({
            let l = tui::warning_lines(ws, browser_error);
            let n = if ws.len() > 8 { 8 } else { ws.len() as int };
            &&& ws.len() > 0 ==> forall|k: int| 0 <= k < n ==> #[trigger] l[k] == (ws[k].kind + " | "@ + ws[k].path
                + " | "@ + ws[k].message)
            &&& ws.len() > 0 ==> l.len() == n + if browser_error is Some { 1int } else { 0 }
            &&& ws.len() == 0 ==> l[0] == "Nenhum aviso registrado durante o mapeamento."@
            &&& ws.len() == 0 ==> l.len() == 1 + if browser_error is Some { 1int } else { 0 }
            &&& browser_error matches Some(e) ==> l[l.len() - 1] == "Falha ao abrir navegador: "@ + e
        }),
{
}

/// Content centred in an area keeps inside it, is no larger than the
/// content (but at least one cell), and leaves equal margins on both sides,
/// give or take one cell on the far side.
pub proof fn law_centered_area(area: tui::Area, width: u16, height: u16)
    requires
        area.x + area.width <= u16::MAX,
        area.y + area.height <= u16::MAX,
    ensures
        ({
            let c = tui::centered(area, width, height);
            &&& 1 <= c.width && (c.width <= width || width == 0) && (c.width <= area.width || area.width == 0)
            &&& 1 <= c.height && (c.height <= height || height == 0) && (c.height <= area.height || area.height == 0)
            &&& (width <= area.width && width > 0) ==> c.width == width
            &&& (height <= area.height && height > 0) ==> c.height == height
            &&& area.x <= c.x && area.y <= c.y
            &&& c.width <= area.width ==> {
                let left = c.x - area.x;
                let right = area.x + area.width - (c.x + c.width);
                left <= right <= left + 1
            }
            &&& c.height <= area.height ==> {
                let top = c.y - area.y;
                let bottom = area.y + area.height - (c.y + c.height);
                top <= bottom <= top + 1
            }
        }),
{
}


/// Where the text left after dropping leading white space starts.
proof fn lemma_trim_start_at(s: Seq<char>) -> (i: int)
    ensures
        0 <= i <= s.len(),
        tui::trim_start(s) == s.skip(i),
        forall|k: int| 0 <= k < i ==> tui::is_white_space(#[trigger] s[k]),
        i < s.len() ==> !tui::is_white_space(s[i]),
    decreases s.len(),
{
    if s.len() > 0 && tui::is_white_space(s[0]) {
        let i = lemma_trim_start_at(s.drop_first());
        assert(s.drop_first().skip(i) =~= s.skip(i + 1));
        assert forall|k: int| 0 <= k < i + 1 implies tui::is_white_space(#[trigger] s[k]) by {
            if k > 0 {
                assert(s[k] == s.drop_first()[k - 1]);
            }
        }
        i + 1
    } else {
        assert(s.skip(0) =~= s);
        0
    }
}

/// Where the text left after dropping trailing white space ends.
proof fn lemma_trim_end_at(s: Seq<char>) -> (j: int)
    ensures
        0 <= j <= s.len(),
        tui::trim_end(s) == s.take(j),
        forall|k: int| j <= k < s.len() ==> tui::is_white_space(#[trigger] s[k]),
        j > 0 ==> !tui::is_white_space(s[j - 1]),
    decreases s.len(),
{
    if s.len() > 0 && tui::is_white_space(s.last()) {
        let j = lemma_trim_end_at(s.drop_last());
        assert(s.drop_last().take(j) =~= s.take(j));
        assert forall|k: int| j <= k < s.len() implies tui::is_white_space(#[trigger] s[k]) by {
            if k < s.len() - 1 {
                assert(s[k] == s.drop_last()[k]);
            }
        }
        j
    } else {
        assert(s.take(s.len() as int) =~= s);
        s.len() as int
    }
}

/// Trimming keeps the part of the text between its leading and trailing
/// white space: everything dropped is white space, and what is kept is empty
/// or neither starts nor ends with white space.
pub proof fn law_trim_keeps_the_middle(s: Seq<char>)
    ensures
        exists|i: int, j: int| {
            &&& 0 <= i <= j <= s.len()
            &&& tui::trimmed(s) == s.subrange(i, j)
            &&& forall|k: int| 0 <= k < i ==> tui::is_white_space(#[trigger] s[k])
            &&& forall|k: int| j <= k < s.len() ==> tui::is_white_space(#[trigger] s[k])
        },
        tui::trimmed(s).len() > 0 ==> !tui::is_white_space(tui::trimmed(s)[0]) && !tui::is_white_space(
            tui::trimmed(s).last(),
        ),
{
    let i = lemma_trim_start_at(s);
    let t = s.skip(i);
    let j = lemma_trim_end_at(t);
    assert(tui::trimmed(s) == t.take(j));
    assert(t.take(j) =~= s.subrange(i, i + j));
    assert forall|k: int| i + j <= k < s.len() implies tui::is_white_space(#[trigger] s[k]) by {
        assert(s[k] == t[k - i]);
    }
    if j > 0 {
        assert(tui::trimmed(s)[0] == s[i]);
        assert(tui::trimmed(s).last() == t[j - 1]);
    }
    assert(0 <= i <= i + j <= s.len());
}


/// A report shows a path without the `\\?\` prefix that marks verbatim
/// Windows paths, and any other path as it is.
pub proof fn law_shown_path_drops_verbatim_prefix(p: Seq<char>)
    ensures
        crate::report::shown_path(seq!['\\', '\\', '?', '\\'] + p) == p,
        !text::has_prefix(p, seq!['\\', '\\', '?', '\\']) ==> crate::report::shown_path(p) == p,
{
    reveal_strlit(r"\\?\");
    let v = crate::report::verbatim_prefix();
    assert(v =~= seq!['\\', '\\', '?', '\\']);
    assert((v + p).take(v.len() as int) =~= v);
    assert((v + p).skip(v.len() as int) =~= p);
}

/// Building a report fails first on an input path that is missing or not a
/// directory, then on a root that could not be read, with the system's
/// message after the path; otherwise it succeeds. The scan of a root fails
/// with the system's message when its metadata or listing cannot be read.
pub proof fn law_report_problems(input: Seq<char>, probe: cli::PathProbe, root: EntryView)
    ensures
        !probe.exists || !probe.is_dir ==> crate::session::report_problem(input, probe, root) == cli::input_problem(
            input,
            probe,
        ),
        probe.exists && probe.is_dir && scanner::root_failure(root) is Some ==> crate::session::report_problem(
            input,
            probe,
            root,
        ) == Some("falha ao mapear o diretorio '"@ + input + "': "@ + scanner::root_failure(root)->Some_0),
        probe.exists && probe.is_dir && scanner::root_failure(root) is None ==> crate::session::report_problem(
            input,
            probe,
            root,
        ) is None,
        root matches EntryView::MetadataFailed { message, .. } ==> scanner::root_failure(root) == Some(message),
        root matches EntryView::DirectoryUnreadable { message, .. } ==> scanner::root_failure(root) == Some(message),
        (root is File || root is Directory) ==> scanner::root_failure(root) is None,
{
}


/// Whether `s` ends with `p`.
pub open spec fn has_suffix(s: Seq<char>, p: Seq<char>) -> bool {
    p.len() <= s.len() && s.skip(s.len() - p.len()) == p
}

/// Whether the text `s` ends with `label`.
proof fn lemma_ends_with(s: Seq<char>, label: Seq<char>, rest: Seq<char>)
    requires
        s == rest + label,
    ensures
        has_suffix(s, label),
{
    assert(s.skip(s.len() - label.len()) =~= label);
}

/// The labels stand right before the values the pages put after them: on
/// the interactive page the origin, the generation time, the `Pastas` card
/// and the `Arquivos` card; on the server's start page the origin, the
/// generation time, the number of directories and the number of files.
pub proof fn law_labels_precede_values()
    ensures
        has_suffix(html::PAGE_AFTER_HEAD_ASSETS@, "Origem analisada</span><p class=\"meta-value\"><code>"@),
        has_suffix(html::PAGE_AFTER_SOURCE@, "Data de geracao</span><p class=\"meta-value\"><code>"@),
        has_suffix(html::PAGE_BEFORE_DIRECTORIES@, ">Pastas</span><span class=\"stat-value\">"@),
        has_suffix(html::PAGE_AFTER_DIRECTORIES@, ">Arquivos</span><span class=\"stat-value\">"@),
        has_suffix(crate::server::INDEX_START@, "Origem analisada:</strong><br><code>"@),
        has_suffix(crate::server::INDEX_AFTER_SOURCE@, "Gerado em:</strong><br><code>"@),
        has_suffix(crate::server::INDEX_AFTER_GENERATED@, "Total de diretorios: "@),
        has_suffix(crate::server::INDEX_AFTER_DIRECTORIES@, "Total de arquivos: "@),
{
    assert(html::PAGE_AFTER_HEAD_ASSETS@ == "</head><body><div class=\"layout\"><aside class=\"panel sidebar\"><h1>Atlas Mapper</h1><p class=\"subtitle\">Visualizacao tecnica interativa da arvore de diretorios e arquivos mapeada pelo live server local do projeto Atlas.</p><div class=\"meta-list\"><div class=\"meta-item\"><span class=\"meta-label\">"@ + "Origem analisada</span><p class=\"meta-value\"><code>"@) by {
        reveal_strlit("</head><body><div class=\"layout\"><aside class=\"panel sidebar\"><h1>Atlas Mapper</h1><p class=\"subtitle\">Visualizacao tecnica interativa da arvore de diretorios e arquivos mapeada pelo live server local do projeto Atlas.</p><div class=\"meta-list\"><div class=\"meta-item\"><span class=\"meta-label\">Origem analisada</span><p class=\"meta-value\"><code>");
        reveal_strlit("</head><body><div class=\"layout\"><aside class=\"panel sidebar\"><h1>Atlas Mapper</h1><p class=\"subtitle\">Visualizacao tecnica interativa da arvore de diretorios e arquivos mapeada pelo live server local do projeto Atlas.</p><div class=\"meta-list\"><div class=\"meta-item\"><span class=\"meta-label\">");
        reveal_strlit("Origem analisada</span><p class=\"meta-value\"><code>");
        assert(html::PAGE_AFTER_HEAD_ASSETS@ =~= "</head><body><div class=\"layout\"><aside class=\"panel sidebar\"><h1>Atlas Mapper</h1><p class=\"subtitle\">Visualizacao tecnica interativa da arvore de diretorios e arquivos mapeada pelo live server local do projeto Atlas.</p><div class=\"meta-list\"><div class=\"meta-item\"><span class=\"meta-label\">"@ + "Origem analisada</span><p class=\"meta-value\"><code>"@);
    }
    lemma_ends_with(html::PAGE_AFTER_HEAD_ASSETS@, "Origem analisada</span><p class=\"meta-value\"><code>"@, "</head><body><div class=\"layout\"><aside class=\"panel sidebar\"><h1>Atlas Mapper</h1><p class=\"subtitle\">Visualizacao tecnica interativa da arvore de diretorios e arquivos mapeada pelo live server local do projeto Atlas.</p><div class=\"meta-list\"><div class=\"meta-item\"><span class=\"meta-label\">"@);
    assert(html::PAGE_AFTER_SOURCE@ == "</code></p></div><div class=\"meta-item\"><span class=\"meta-label\">"@ + "Data de geracao</span><p class=\"meta-value\"><code>"@) by {
        reveal_strlit("</code></p></div><div class=\"meta-item\"><span class=\"meta-label\">Data de geracao</span><p class=\"meta-value\"><code>");
        reveal_strlit("</code></p></div><div class=\"meta-item\"><span class=\"meta-label\">");
        reveal_strlit("Data de geracao</span><p class=\"meta-value\"><code>");
        assert(html::PAGE_AFTER_SOURCE@ =~= "</code></p></div><div class=\"meta-item\"><span class=\"meta-label\">"@ + "Data de geracao</span><p class=\"meta-value\"><code>"@);
    }
    lemma_ends_with(html::PAGE_AFTER_SOURCE@, "Data de geracao</span><p class=\"meta-value\"><code>"@, "</code></p></div><div class=\"meta-item\"><span class=\"meta-label\">"@);
    assert(html::PAGE_BEFORE_DIRECTORIES@ == "<div class=\"stats\"><div class=\"stat-card\"><span class=\"stat-label\""@ + ">Pastas</span><span class=\"stat-value\">"@) by {
        reveal_strlit("<div class=\"stats\"><div class=\"stat-card\"><span class=\"stat-label\">Pastas</span><span class=\"stat-value\">");
        reveal_strlit("<div class=\"stats\"><div class=\"stat-card\"><span class=\"stat-label\"");
        reveal_strlit(">Pastas</span><span class=\"stat-value\">");
        assert(html::PAGE_BEFORE_DIRECTORIES@ =~= "<div class=\"stats\"><div class=\"stat-card\"><span class=\"stat-label\""@ + ">Pastas</span><span class=\"stat-value\">"@);
    }
    lemma_ends_with(html::PAGE_BEFORE_DIRECTORIES@, ">Pastas</span><span class=\"stat-value\">"@, "<div class=\"stats\"><div class=\"stat-card\"><span class=\"stat-label\""@);
    assert(html::PAGE_AFTER_DIRECTORIES@ == "</span></div><div class=\"stat-card\"><span class=\"stat-label\""@ + ">Arquivos</span><span class=\"stat-value\">"@) by {
        reveal_strlit("</span></div><div class=\"stat-card\"><span class=\"stat-label\">Arquivos</span><span class=\"stat-value\">");
        reveal_strlit("</span></div><div class=\"stat-card\"><span class=\"stat-label\"");
        reveal_strlit(">Arquivos</span><span class=\"stat-value\">");
        assert(html::PAGE_AFTER_DIRECTORIES@ =~= "</span></div><div class=\"stat-card\"><span class=\"stat-label\""@ + ">Arquivos</span><span class=\"stat-value\">"@);
    }
    lemma_ends_with(html::PAGE_AFTER_DIRECTORIES@, ">Arquivos</span><span class=\"stat-value\">"@, "</span></div><div class=\"stat-card\"><span class=\"stat-label\""@);
    assert(crate::server::INDEX_START@ == "<!DOCTYPE html><html lang=\"pt-BR\"><head><meta charset=\"utf-8\"><meta name=\"viewport\" content=\"width=device-width, initial-scale=1\"><title>Atlas Mapper</title><style>body { font-family: Segoe UI, Arial, sans-serif; margin: 0; background: #0f172a; color: #e2e8f0; }main { max-width: 960px; margin: 0 auto; padding: 32px 20px 48px; }.panel { background: #111827; border: 1px solid #334155; border-radius: 16px; padding: 20px; margin-top: 20px; }h1, h2 { margin-top: 0; }code { color: #93c5fd; }ul { padding-left: 20px; }a { color: #93c5fd; }</style></head><body><main><h1>Atlas Mapper iniciado.</h1><div class=\"panel\"><p><strong>"@ + "Origem analisada:</strong><br><code>"@) by {
        reveal_strlit("<!DOCTYPE html><html lang=\"pt-BR\"><head><meta charset=\"utf-8\"><meta name=\"viewport\" content=\"width=device-width, initial-scale=1\"><title>Atlas Mapper</title><style>body { font-family: Segoe UI, Arial, sans-serif; margin: 0; background: #0f172a; color: #e2e8f0; }main { max-width: 960px; margin: 0 auto; padding: 32px 20px 48px; }.panel { background: #111827; border: 1px solid #334155; border-radius: 16px; padding: 20px; margin-top: 20px; }h1, h2 { margin-top: 0; }code { color: #93c5fd; }ul { padding-left: 20px; }a { color: #93c5fd; }</style></head><body><main><h1>Atlas Mapper iniciado.</h1><div class=\"panel\"><p><strong>Origem analisada:</strong><br><code>");
        reveal_strlit("<!DOCTYPE html><html lang=\"pt-BR\"><head><meta charset=\"utf-8\"><meta name=\"viewport\" content=\"width=device-width, initial-scale=1\"><title>Atlas Mapper</title><style>body { font-family: Segoe UI, Arial, sans-serif; margin: 0; background: #0f172a; color: #e2e8f0; }main { max-width: 960px; margin: 0 auto; padding: 32px 20px 48px; }.panel { background: #111827; border: 1px solid #334155; border-radius: 16px; padding: 20px; margin-top: 20px; }h1, h2 { margin-top: 0; }code { color: #93c5fd; }ul { padding-left: 20px; }a { color: #93c5fd; }</style></head><body><main><h1>Atlas Mapper iniciado.</h1><div class=\"panel\"><p><strong>");
        reveal_strlit("Origem analisada:</strong><br><code>");
        assert(crate::server::INDEX_START@ =~= "<!DOCTYPE html><html lang=\"pt-BR\"><head><meta charset=\"utf-8\"><meta name=\"viewport\" content=\"width=device-width, initial-scale=1\"><title>Atlas Mapper</title><style>body { font-family: Segoe UI, Arial, sans-serif; margin: 0; background: #0f172a; color: #e2e8f0; }main { max-width: 960px; margin: 0 auto; padding: 32px 20px 48px; }.panel { background: #111827; border: 1px solid #334155; border-radius: 16px; padding: 20px; margin-top: 20px; }h1, h2 { margin-top: 0; }code { color: #93c5fd; }ul { padding-left: 20px; }a { color: #93c5fd; }</style></head><body><main><h1>Atlas Mapper iniciado.</h1><div class=\"panel\"><p><strong>"@ + "Origem analisada:</strong><br><code>"@);
    }
    lemma_ends_with(crate::server::INDEX_START@, "Origem analisada:</strong><br><code>"@, "<!DOCTYPE html><html lang=\"pt-BR\"><head><meta charset=\"utf-8\"><meta name=\"viewport\" content=\"width=device-width, initial-scale=1\"><title>Atlas Mapper</title><style>body { font-family: Segoe UI, Arial, sans-serif; margin: 0; background: #0f172a; color: #e2e8f0; }main { max-width: 960px; margin: 0 auto; padding: 32px 20px 48px; }.panel { background: #111827; border: 1px solid #334155; border-radius: 16px; padding: 20px; margin-top: 20px; }h1, h2 { margin-top: 0; }code { color: #93c5fd; }ul { padding-left: 20px; }a { color: #93c5fd; }</style></head><body><main><h1>Atlas Mapper iniciado.</h1><div class=\"panel\"><p><strong>"@);
    assert(crate::server::INDEX_AFTER_SOURCE@ == "</code></p><p><strong>"@ + "Gerado em:</strong><br><code>"@) by {
        reveal_strlit("</code></p><p><strong>Gerado em:</strong><br><code>");
        reveal_strlit("</code></p><p><strong>");
        reveal_strlit("Gerado em:</strong><br><code>");
        assert(crate::server::INDEX_AFTER_SOURCE@ =~= "</code></p><p><strong>"@ + "Gerado em:</strong><br><code>"@);
    }
    lemma_ends_with(crate::server::INDEX_AFTER_SOURCE@, "Gerado em:</strong><br><code>"@, "</code></p><p><strong>"@);
    assert(crate::server::INDEX_AFTER_GENERATED@ == "</code></p></div><div class=\"panel\"><h2>Resumo inicial</h2><ul><li>"@ + "Total de diretorios: "@) by {
        reveal_strlit("</code></p></div><div class=\"panel\"><h2>Resumo inicial</h2><ul><li>Total de diretorios: ");
        reveal_strlit("</code></p></div><div class=\"panel\"><h2>Resumo inicial</h2><ul><li>");
        reveal_strlit("Total de diretorios: ");
        assert(crate::server::INDEX_AFTER_GENERATED@ =~= "</code></p></div><div class=\"panel\"><h2>Resumo inicial</h2><ul><li>"@ + "Total de diretorios: "@);
    }
    lemma_ends_with(crate::server::INDEX_AFTER_GENERATED@, "Total de diretorios: "@, "</code></p></div><div class=\"panel\"><h2>Resumo inicial</h2><ul><li>"@);
    assert(crate::server::INDEX_AFTER_DIRECTORIES@ == "</li><li>"@ + "Total de arquivos: "@) by {
        reveal_strlit("</li><li>Total de arquivos: ");
        reveal_strlit("</li><li>");
        reveal_strlit("Total de arquivos: ");
        assert(crate::server::INDEX_AFTER_DIRECTORIES@ =~= "</li><li>"@ + "Total de arquivos: "@);
    }
    lemma_ends_with(crate::server::INDEX_AFTER_DIRECTORIES@, "Total de arquivos: "@, "</li><li>"@);
}


/// The item of a node in the compact list, without its indentation: a page
/// mark and the name for a file, a folder mark and the name in bold with a
/// slash for a directory.
pub open spec fn marked_line(n: NodeView) -> Seq<char> {
    match n {
        NodeView::File { name, .. } => "* \u{1F4C4} "@ + name + "\n"@,
        NodeView::Directory { name, .. } => "* \u{1F4C1} **"@ + name + "/**\n"@,
    }
}

/// Sibling nodes' compact list holds the list of each of them.
proof fn lemma_marked_children_contain(cs: Seq<NodeView>, level: nat, i: int)
    requires
        0 <= i < cs.len(),
    ensures
        text::contains_text(md::marked_children_markdown(cs, level), md::marked_markdown(cs[i], level)),
    decreases cs.len(),
{
    let d = cs.drop_last();
    if i == cs.len() - 1 {
        lemma_contains_self(md::marked_markdown(cs.last(), level));
        lemma_contains_after(md::marked_children_markdown(d, level), md::marked_markdown(cs.last(), level), md::marked_markdown(cs[i], level));
    } else {
        lemma_marked_children_contain(d, level, i);
        assert(d[i] == cs[i]);
        lemma_contains_extend(md::marked_children_markdown(d, level), md::marked_markdown(cs.last(), level), md::marked_markdown(cs[i], level));
    }
}

/// In the compact list, a node starts with its own marked item at its level
/// (two spaces per level), and a directory's list holds the list of every
/// child one level deeper.
pub proof fn law_marked_list_nests_children(n: NodeView, level: nat, i: int)
    ensures
        text::has_prefix(md::marked_markdown(n, level), text::repeat_text("  "@, level) + marked_line(n)),
        (n matches NodeView::Directory { children, .. } && 0 <= i < children.len()) ==> text::contains_text(
            md::marked_markdown(n, level),
            md::marked_markdown(n->Directory_children[i], level + 1),
        ),
{
    let t = md::marked_markdown(n, level);
    let head = md::indentation(level) + marked_line(n);
    if let NodeView::Directory { name, children } = n {
        assert(t =~= head + md::marked_children_markdown(children, level + 1));
        if 0 <= i < children.len() {
            lemma_marked_children_contain(children, level + 1, i);
            lemma_contains_after(head, md::marked_children_markdown(children, level + 1), md::marked_markdown(children[i], level + 1));
        }
    }
    assert(t.take(head.len() as int) =~= head);
}


/// The session panel says `falhou` when opening the browser failed, else
/// `sim` when it was to be opened, else `nao`.
pub proof fn law_browser_label(failed: bool, open_browser: bool)
    ensures
        failed ==> tui::browser_label(failed, open_browser) == "falhou"@,
        !failed && open_browser ==> tui::browser_label(failed, open_browser) == "sim"@,
        !failed && !open_browser ==> tui::browser_label(failed, open_browser) == "nao"@,
{
}

/// The spinner turns through `-`, `\`, `|` and `/`, and starts over every
/// four frames.
pub proof fn law_spinner_frames(index: int)
    requires
        0 <= index,
    ensures
        tui::spinner_frame_text(index) == tui::spinner_frame_text(index + 4),
        tui::spinner_frame_text(0) == "-"@,
        tui::spinner_frame_text(1) == "\\"@,
        tui::spinner_frame_text(2) == "|"@,
        tui::spinner_frame_text(3) == "/"@,
{
}

/// In a text box (one border cell all round), the cursor stands on the first
/// line inside the box, at the cursor's position from the first inner
/// column, and never to the right of the last inner column.
pub proof fn law_cursor_inside_box(area: tui::Area, cursor: usize)
    requires
        area.x + area.width <= u16::MAX,
        area.y + 1 <= u16::MAX,
        area.width >= 3,
    ensures
        ({
            let (x, y) = tui::cursor_cell(area, cursor);
            &&& y == area.y + 1
            &&& area.x + 1 <= x <= area.x + area.width - 2
            &&& area.x + 1 + cursor <= area.x + area.width - 2 ==> x == area.x + 1 + cursor
        }),
{
    let (x, y) = tui::cursor_cell(area, cursor);
    if area.x + 1 + cursor <= area.x + area.width - 2 {
        assert(cursor % 65536 == cursor);
    }
}


/// A port text is read as a port only when, after an optional `+`, it is one
/// or more ASCII digits whose value is at most 65535, and then as that value;
/// any other character, an empty text or a larger value gives no port.
pub proof fn law_port_text_reading(s: Seq<char>)
    ensures
        ({
            let d = if s.len() > 0 && s[0] == '+' { s.skip(1) } else { s };
            &&& tui::parsed_u16(s) is Some <==> (d.len() > 0 && tui::all_ascii_digits(d) && tui::digits_value(d)
                <= 65535)
            &&& tui::parsed_u16(s) matches Some(p) ==> p == tui::digits_value(d)
        }),
        (exists|i: int| 0 <= i < s.len() && s[i] != '+' && !('0' <= #[trigger] s[i] && s[i] <= '9'))
            ==> tui::parsed_u16(s) is None,
        s.len() == 0 ==> tui::parsed_u16(s) is None,
{
    let d = if s.len() > 0 && s[0] == '+' { s.skip(1) } else { s };
    if exists|i: int| 0 <= i < s.len() && s[i] != '+' && !('0' <= #[trigger] s[i] && s[i] <= '9') {
        let i = choose|i: int| 0 <= i < s.len() && s[i] != '+' && !('0' <= #[trigger] s[i] && s[i] <= '9');
        if s.len() > 0 && s[0] == '+' {
            assert(d[i - 1] == s[i]);
        } else {
            assert(d[i] == s[i]);
        }
    }
}

/// A file read gives no warning; a failure below the root gives exactly one
/// warning, for its path and with its message, of the kind that says what
/// could not be read: the metadata, the directory's listing, or the entry.
pub proof fn law_scan_warning_kinds(path: Seq<char>, message: Seq<char>, file_name: Option<Seq<char>>, extension: Option<Seq<char>>)
    ensures
        scanner::scan_warnings(EntryView::File { path, file_name, extension }).len() == 0,
        scanner::scan_warnings(EntryView::MetadataFailed { path, message }) == seq![
            crate::warning::WarningView { path, kind: "read_metadata"@, message },
        ],
        scanner::scan_warnings(EntryView::DirectoryUnreadable { path, message }) == seq![
            crate::warning::WarningView { path, kind: "read_directory"@, message },
        ],
        scanner::scan_warnings(EntryView::EntryFailed { path, message }) == seq![
            crate::warning::WarningView { path, kind: "read_entry"@, message },
        ],
        scanner::scan_node(EntryView::MetadataFailed { path, message }) is None,
        scanner::scan_node(EntryView::DirectoryUnreadable { path, message }) is None,
        scanner::scan_node(EntryView::EntryFailed { path, message }) is None,
{
}


/// A directory read by the scan becomes a directory node named by its file
/// name (the whole path when it has none, or an empty one).
pub proof fn law_scanned_directory_name(path: Seq<char>, file_name: Option<Seq<char>>, entries: Seq<EntryView>)
    ensures
        ({
            let n = scanner::scan_node(EntryView::Directory { path, file_name, entries });
            &&& n is Some && n->Some_0 is Directory
            &&& (file_name is Some && file_name->Some_0.len() > 0) ==> node::name_of(n->Some_0) == file_name->Some_0
            &&& !(file_name is Some && file_name->Some_0.len() > 0) ==> node::name_of(n->Some_0) == path
        }),
{
}

}
