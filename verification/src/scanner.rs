//! Turning what was read from the file system into the mapped tree, its
//! metrics and its warnings.
use vstd::prelude::*;
use core::cmp::Ordering;
use crate::text;
use crate::node::{FileNode, NodeView};
use crate::node;
use crate::metrics::{self, MetricsView, RelatorioMetricas};
use crate::warning::{self, ScanWarning, WarningView};

verus! {

// ---------------------------------------------------------------------------
// Order of sibling nodes
// ---------------------------------------------------------------------------

/// Orders two nodes for listing: directories before files, and nodes of the
/// same kind by name.
pub fn compare_nodes(left: &FileNode, right: &FileNode) -> (r: Ordering)
    ensures
        (r == Ordering::Less) == node::node_before(left@, right@),
        (r == Ordering::Greater) == node::node_before(right@, left@),
        (r == Ordering::Equal) == (node::rank_of(left@) == node::rank_of(right@)
            && node::name_of(left@) == node::name_of(right@)),
{
    let ld = left.is_directory();
    let rd = right.is_directory();
    if ld && !rd {
        return Ordering::Less;
    }
    if !ld && rd {
        return Ordering::Greater;
    }
    let ln = left.name().as_str();
    let rn = right.name().as_str();
    proof {
        text::lemma_text_lt_total(ln@, rn@);
        if text::text_lt(ln@, rn@) {
            text::lemma_text_lt_asymmetric(ln@, rn@);
            text::lemma_text_lt_irreflexive(ln@);
        }
        if text::text_lt(rn@, ln@) {
            text::lemma_text_lt_irreflexive(rn@);
        }
        if ln@ == rn@ {
            text::lemma_text_lt_irreflexive(ln@);
        }
    }
    if text::text_less(ln, rn) {
        Ordering::Less
    } else if text::text_equal(ln, rn) {
        Ordering::Equal
    } else {
        Ordering::Greater
    }
}

/// `x` placed into `s` after the last element that it does not come before
/// (scanning from the end), so that elements listed as equal keep their order.
pub open spec fn insert_in_order(s: Seq<NodeView>, x: NodeView) -> Seq<NodeView>
    decreases s.len(),
{
    if s.len() == 0 {
        seq![x]
    } else if !node::node_before(x, s.last()) {
        s.push(x)
    } else {
        insert_in_order(s.drop_last(), x).push(s.last())
    }
}

/// The stable sort of `s` in listing order (directories first, then by name).
pub open spec fn sorted_nodes(s: Seq<NodeView>) -> Seq<NodeView>
    decreases s.len(),
{
    if s.len() == 0 {
        s
    } else {
        insert_in_order(sorted_nodes(s.drop_last()), s.last())
    }
}

/// Where `insert_in_order` puts `x`: at `j`, when everything from `j` on
/// comes after `x` and the element before `j` does not.
proof fn lemma_insert_at(s: Seq<NodeView>, x: NodeView, j: int)
    requires
        0 <= j <= s.len(),
        forall|m: int| j <= m < s.len() ==> node::node_before(x, #[trigger] s[m]),
        j > 0 ==> !node::node_before(x, s[j - 1]),
    ensures
        insert_in_order(s, x) == s.take(j).push(x) + s.skip(j),
    decreases s.len(),
{
    if s.len() == 0 {
        assert(s.take(j).push(x) + s.skip(j) =~= seq![x]);
    } else if j == s.len() {
        assert(s.take(j) =~= s);
        assert(s.take(j).push(x) + s.skip(j) =~= s.push(x));
    } else {
        let t = s.drop_last();
        assert forall|m: int| j <= m < t.len() implies node::node_before(x, #[trigger] t[m]) by {
            assert(t[m] == s[m]);
        }
        lemma_insert_at(t, x, j);
        assert(t.take(j) =~= s.take(j));
        assert(t.skip(j).push(s.last()) =~= s.skip(j));
        assert(insert_in_order(s, x) =~= s.take(j).push(x) + s.skip(j));
    }
}

/// Sorts sibling nodes into listing order: directories first, then by name,
/// keeping the given order among nodes listed as equal.
pub fn sort_nodes(v: Vec<FileNode>) -> (r: Vec<FileNode>)
    ensures
        node::nodes_view(r@) == sorted_nodes(node::nodes_view(v@)),
{
    let ghost input = node::nodes_view(v@);
    let mut out: Vec<FileNode> = Vec::new();
    assert(node::nodes_view(out@) =~= sorted_nodes(input.take(0)));
    for x in it: v.into_iter()
        invariant
            input == node::nodes_view(v@),
            it.seq() == v@,
            node::nodes_view(out@) == sorted_nodes(input.take(it.index() as int)),
    {
        let ghost k = it.index();
        assert(x == v@[k as int]);
        let ghost before = node::nodes_view(out@);
        let mut j: usize = out.len();
        while j > 0 && node::node_before_exec(&x, &out[j - 1])
            invariant
                j <= out.len(),
                before == node::nodes_view(out@),
                forall|m: int| j <= m < out.len() ==> node::node_before(x@, #[trigger] before[m]),
            decreases j,
        {
            j = j - 1;
        }
        proof {
            lemma_insert_at(before, x@, j as int);
            assert(input.take(k + 1).drop_last() =~= input.take(k as int));
            assert(input.take(k + 1).last() == x@);
        }
        out.insert(j, x);
        assert(node::nodes_view(out@) =~= before.take(j as int).push(x@) + before.skip(j as int));
    }
    assert(input.take(v.len() as int) =~= input);
    out
}

}

verus! {

// ---------------------------------------------------------------------------
// What was read, and what the scan makes of it
// ---------------------------------------------------------------------------

/// What reading one path of the file system gave. `path` is the path as
/// displayed; `file_name` its last component, if it has one; `extension`
/// the path's extension as the platform splits it off the file name, when it
/// is valid Unicode.
pub enum ScanEntry {
    /// A file.
    File { path: String, file_name: Option<String>, extension: Option<String> },
    /// A directory whose listing could be read, with what its entries gave,
    /// in listing order.
    Directory { path: String, file_name: Option<String>, entries: Vec<ScanEntry> },
    /// The path's metadata could not be read.
    MetadataFailed { path: String, message: String },
    /// The path is a directory whose listing could not be read.
    DirectoryUnreadable { path: String, message: String },
    /// One entry of the listing of the directory at `path` could not be read.
    EntryFailed { path: String, message: String },
}

/// The mathematical value of a [`ScanEntry`].
pub enum EntryView {
    File { path: Seq<char>, file_name: Option<Seq<char>>, extension: Option<Seq<char>> },
    Directory { path: Seq<char>, file_name: Option<Seq<char>>, entries: Seq<EntryView> },
    MetadataFailed { path: Seq<char>, message: Seq<char> },
    DirectoryUnreadable { path: Seq<char>, message: Seq<char> },
    EntryFailed { path: Seq<char>, message: Seq<char> },
}

/// The view of an entry.
pub open spec fn entry_view(e: ScanEntry) -> EntryView
    decreases e,
{
    match e {
        ScanEntry::File { path, file_name, extension } => EntryView::File {
            path: path@,
            file_name: node::opt_text(file_name),
            extension: node::opt_text(extension),
        },
        ScanEntry::Directory { path, file_name, entries } => EntryView::Directory {
            path: path@,
            file_name: node::opt_text(file_name),
            entries: Seq::new(
                entries@.len(),
                |i: int|
                    if 0 <= i < entries@.len() {
                        entry_view(entries@[i])
                    } else {
                        EntryView::EntryFailed { path: Seq::empty(), message: Seq::empty() }
                    },
            ),
        },
        ScanEntry::MetadataFailed { path, message } => EntryView::MetadataFailed {
            path: path@,
            message: message@,
        },
        ScanEntry::DirectoryUnreadable { path, message } => EntryView::DirectoryUnreadable {
            path: path@,
            message: message@,
        },
        ScanEntry::EntryFailed { path, message } => EntryView::EntryFailed {
            path: path@,
            message: message@,
        },
    }
}

impl View for ScanEntry {
    type V = EntryView;

    open spec fn view(&self) -> EntryView {
        entry_view(*self)
    }
}

/// The name shown for a node: its file name when it has a non-empty one,
/// else the whole path as displayed.
pub open spec fn shown_name(file_name: Option<Seq<char>>, path: Seq<char>) -> Seq<char> {
    match file_name {
        Some(n) => if n.len() > 0 { n } else { path },
        None => path,
    }
}

/// The extension recorded for a file: a dot and the platform's extension in
/// ASCII lower case.
pub open spec fn recorded_extension(extension: Option<Seq<char>>) -> Option<Seq<char>> {
    match extension {
        Some(e) => Some(seq!['.'] + text::ascii_lower_text(e)),
        None => None,
    }
}

/// The node that an entry contributes to the tree, if any.
pub open spec fn scan_node(e: EntryView) -> Option<NodeView>
    decreases e,
{
    match e {
        EntryView::File { path, file_name, extension } => Some(NodeView::File {
            name: shown_name(file_name, path),
            extension: recorded_extension(extension),
        }),
        EntryView::Directory { path, file_name, entries } => Some(NodeView::Directory {
            name: shown_name(file_name, path),
            children: sorted_nodes(scan_nodes(entries)),
        }),
        _ => None,
    }
}

/// The nodes that a sequence of entries contributes, in order.
pub open spec fn scan_nodes(es: Seq<EntryView>) -> Seq<NodeView>
    decreases es,
{
    if es.len() == 0 {
        Seq::empty()
    } else {
        match scan_node(es.last()) {
            Some(n) => scan_nodes(es.drop_last()).push(n),
            None => scan_nodes(es.drop_last()),
        }
    }
}

}

verus! {

/// The metrics after counting an entry, starting from `m`: a file counts under
/// its recorded extension; a directory counts, then its entries in order; a
/// failure counts as a warning, and an unreadable directory also as a
/// directory.
pub open spec fn scan_metrics(e: EntryView, m: MetricsView) -> MetricsView
    decreases e,
{
    match e {
        EntryView::File { extension, .. } => metrics::after_file(m, recorded_extension(extension)),
        EntryView::Directory { entries, .. } => scan_metrics_seq(entries, metrics::after_directory(m)),
        EntryView::MetadataFailed { .. } => metrics::after_warning(m),
        EntryView::DirectoryUnreadable { .. } => metrics::after_warning(metrics::after_directory(m)),
        EntryView::EntryFailed { .. } => metrics::after_warning(m),
    }
}

/// The metrics after counting a sequence of entries in order.
pub open spec fn scan_metrics_seq(es: Seq<EntryView>, m: MetricsView) -> MetricsView
    decreases es,
{
    if es.len() == 0 {
        m
    } else {
        scan_metrics(es.last(), scan_metrics_seq(es.drop_last(), m))
    }
}

/// The warnings that an entry gives, in the order they are met.
pub open spec fn scan_warnings(e: EntryView) -> Seq<WarningView>
    decreases e,
{
    match e {
        EntryView::File { .. } => Seq::empty(),
        EntryView::Directory { entries, .. } => scan_warnings_seq(entries),
        EntryView::MetadataFailed { path, message } => seq![
            WarningView { path, kind: "read_metadata"@, message },
        ],
        EntryView::DirectoryUnreadable { path, message } => seq![
            WarningView { path, kind: "read_directory"@, message },
        ],
        EntryView::EntryFailed { path, message } => seq![
            WarningView { path, kind: "read_entry"@, message },
        ],
    }
}

/// The warnings that a sequence of entries gives, in order.
pub open spec fn scan_warnings_seq(es: Seq<EntryView>) -> Seq<WarningView>
    decreases es,
{
    if es.len() == 0 {
        Seq::empty()
    } else {
        scan_warnings_seq(es.drop_last()) + scan_warnings(es.last())
    }
}

/// The number of entries in an entry, itself included.
pub open spec fn entry_size(e: EntryView) -> nat
    decreases e,
{
    match e {
        EntryView::Directory { entries, .. } => 1 + entries_size(entries),
        _ => 1,
    }
}

/// The number of entries in a sequence of entries, nested ones included.
pub open spec fn entries_size(es: Seq<EntryView>) -> nat
    decreases es,
{
    if es.len() == 0 {
        0
    } else {
        entries_size(es.drop_last()) + entry_size(es.last())
    }
}

/// Every counter of `m` can grow by `n` without passing `u64::MAX`.
pub open spec fn room(m: MetricsView, n: nat) -> bool {
    &&& m.total_files + n <= u64::MAX
    &&& m.total_directories + n <= u64::MAX
    &&& m.ignored_items + n <= u64::MAX
    &&& m.warning_count + n <= u64::MAX
    &&& forall|i: int| 0 <= i < m.by_extension.len() ==> (#[trigger] m.by_extension[i]).1 + n <= u64::MAX
}

/// A bump raises no count by more than one.
proof fn lemma_bump_room(s: metrics::CountsView, k: Seq<char>, n: nat)
    requires
        n + 1 <= u64::MAX,
        forall|i: int| 0 <= i < s.len() ==> (#[trigger] s[i]).1 + n + 1 <= u64::MAX,
    ensures
        forall|i: int| 0 <= i < metrics::bump(s, k).len() ==> (#[trigger] metrics::bump(s, k)[i]).1 + n <= u64::MAX,
    decreases s.len(),
{
    let b = metrics::bump(s, k);
    if s.len() > 0 && s[0].0 != k && !text::text_lt(k, s[0].0) {
        let t = s.skip(1);
        assert forall|i: int| 0 <= i < t.len() implies (#[trigger] t[i]).1 + n + 1 <= u64::MAX by {
            assert(t[i] == s[i + 1]);
        }
        lemma_bump_room(t, k, n);
        assert forall|i: int| 0 <= i < b.len() implies (#[trigger] b[i]).1 + n <= u64::MAX by {
            if i > 0 {
                assert(b[i] == metrics::bump(t, k)[i - 1]);
            }
        }
    } else if s.len() > 0 {
        assert forall|i: int| 0 <= i < b.len() implies (#[trigger] b[i]).1 + n <= u64::MAX by {
            if i > 0 && s[0].0 == k {
                assert(b[i] == s[i]);
            } else if i > 0 {
                assert(b[i] == s[i - 1]);
            }
        }
    }
}

/// With room for one more, the count under any key is below `u64::MAX`.
pub proof fn lemma_room_count(m: MetricsView, k: Seq<char>)
    requires
        room(m, 1),
    ensures
        metrics::count_for(m.by_extension, k) < u64::MAX,
{
    if metrics::lookup(m.by_extension, k) is Some {
        metrics::lemma_lookup_some(m.by_extension, k);
    }
}

/// Counting an entry uses at most as much room as the entry's size.
pub proof fn lemma_scan_room(e: EntryView, m: MetricsView, n: nat)
    requires
        room(m, entry_size(e) + n),
    ensures
        room(scan_metrics(e, m), n),
    decreases e,
{
    match e {
        EntryView::File { extension, .. } => {
            lemma_bump_room(m.by_extension, metrics::file_key(recorded_extension(extension)), n);
        },
        EntryView::Directory { entries, .. } => {
            lemma_scan_room_seq(entries, metrics::after_directory(m), n);
        },
        _ => {},
    }
}

/// Counting entries uses at most as much room as their total size.
pub proof fn lemma_scan_room_seq(es: Seq<EntryView>, m: MetricsView, n: nat)
    requires
        room(m, entries_size(es) + n),
    ensures
        room(scan_metrics_seq(es, m), n),
    decreases es,
{
    if es.len() > 0 {
        lemma_scan_room_seq(es.drop_last(), m, entry_size(es.last()) + n);
        lemma_scan_room(es.last(), scan_metrics_seq(es.drop_last(), m), n);
    }
}

}

verus! {

/// The view of an optional string slice.
pub open spec fn opt_str(o: Option<&str>) -> Option<Seq<char>> {
    match o {
        Some(s) => Some(s@),
        None => None,
    }
}

/// An optional `String` as an optional slice.
fn as_opt_str(o: &Option<String>) -> (r: Option<&str>)
    ensures
        opt_str(r) == node::opt_text(*o),
{
    match o {
        Some(s) => Some(s.as_str()),
        None => None,
    }
}

/// The name shown for a path: its non-empty file name, else the displayed
/// path.
pub fn node_name(file_name: Option<&str>, path: &str) -> (r: String)
    ensures
        r@ == shown_name(opt_str(file_name), path@),
{
    match file_name {
        Some(n) => {
            if n.is_empty() {
                text::owned(path)
            } else {
                text::owned(n)
            }
        },
        None => text::owned(path),
    }
}

/// The extension recorded for a file: a dot followed by the platform's
/// extension in ASCII lower case.
pub fn file_extension(extension: Option<&str>) -> (r: Option<String>)
    ensures
        node::opt_text(r) == recorded_extension(opt_str(extension)),
{
    match extension {
        Some(e) => {
            let mut s = String::new();
            text::push_char(&mut s, '.');
            text::push_ascii_lower(&mut s, e);
            assert(s@ =~= seq!['.'] + text::ascii_lower_text(e@));
            Some(s)
        },
        None => None,
    }
}

/// Records a warning: counts it (and the item it made the scan ignore) and
/// appends it to the list.
pub fn register_warning(
    metrics: &mut RelatorioMetricas,
    warnings: &mut Vec<ScanWarning>,
    path: &str,
    kind: &str,
    message: String,
)
    requires
        old(metrics).warning_count < u64::MAX,
        old(metrics).ignored_items < u64::MAX,
    ensures
        final(metrics)@ == metrics::after_warning(old(metrics)@),
        warning::warnings_view(final(warnings)@) == warning::warnings_view(old(warnings)@).push(
            WarningView { path: path@, kind: kind@, message: message@ },
        ),
{
    metrics.register_warning();
    let w = ScanWarning::new(text::owned(path), kind, message);
    warnings.push(w);
    assert(warning::warnings_view(warnings@) =~= warning::warnings_view(old(warnings)@).push(w@));
}

/// The optional view of an optional node.
pub open spec fn opt_node(o: Option<FileNode>) -> Option<NodeView> {
    match o {
        Some(n) => Some(n@),
        None => None,
    }
}

/// Scans one entry below the root: counts it, records its warnings, and
/// gives its node, if it has one.
fn scan_path(entry: &ScanEntry, metrics: &mut RelatorioMetricas, warnings: &mut Vec<ScanWarning>) -> (r: Option<FileNode>)
    requires
        room(old(metrics)@, entry_size(entry@)),
    ensures
        opt_node(r) == scan_node(entry@),
        final(metrics)@ == scan_metrics(entry@, old(metrics)@),
        warning::warnings_view(final(warnings)@) == warning::warnings_view(old(warnings)@) + scan_warnings(entry@),
    decreases entry,
{
    match entry {
        ScanEntry::File { path, file_name, extension } => {
            let name = node_name(as_opt_str(file_name), path.as_str());
            let ext = file_extension(as_opt_str(extension));
            proof {
                lemma_room_count(metrics@, metrics::file_key(node::opt_text(ext)));
            }
            metrics.register_file(as_opt_str(&ext));
            assert(warning::warnings_view(warnings@) =~= warning::warnings_view(old(warnings)@) + Seq::<WarningView>::empty());
            Some(FileNode::file(name, ext))
        },
        ScanEntry::Directory { path, file_name, entries } => {
            let name = node_name(as_opt_str(file_name), path.as_str());
            metrics.register_directory();
            let ghost es = entry@->Directory_entries;
            assert(es.len() == entries.len());
            let mut children: Vec<FileNode> = Vec::new();
            let mut i: usize = 0;
            assert(es.take(0) =~= Seq::<EntryView>::empty());
            assert(warning::warnings_view(warnings@) =~= warning::warnings_view(old(warnings)@) + scan_warnings_seq(es.take(0)));
            assert(node::nodes_view(children@) =~= scan_nodes(es.take(0)));
            assert(entries_size(es.take(0)) == 0);
            while i < entries.len()
                invariant
                    i <= entries.len(),
                    es == entry@->Directory_entries,
                    *entry is Directory,
                    entry->Directory_entries == *entries,
                    es.len() == entries.len(),
                    forall|m: int| 0 <= m < entries.len() ==> #[trigger] es[m] == entries@[m]@,
                    entry_size(entry@) == 1 + entries_size(es),
                    room(old(metrics)@, entry_size(entry@)),
                    metrics@ == scan_metrics_seq(es.take(i as int), metrics::after_directory(old(metrics)@)),
                    room(metrics@, (entries_size(es) - entries_size(es.take(i as int))) as nat),
                    entries_size(es.take(i as int)) <= entries_size(es),
                    node::nodes_view(children@) == scan_nodes(es.take(i as int)),
                    warning::warnings_view(warnings@) == warning::warnings_view(old(warnings)@) + scan_warnings_seq(es.take(i as int)),
                decreases entries.len() - i,
            {
                let ghost before_m = metrics@;
                let ghost before_c = node::nodes_view(children@);
                proof {
                    assert(es.take(i + 1).drop_last() =~= es.take(i as int));
                    assert(es.take(i + 1).last() == es[i as int]);
                    lemma_entries_size_prefix(es, i as int + 1);
                    assert(entries_size(es.take(i + 1)) == entries_size(es.take(i as int)) + entry_size(es[i as int]));
                    assert(decreases_to!(*entry => entry->Directory_entries));
                    assert(decreases_to!(entry->Directory_entries => entry->Directory_entries@));
                    assert(decreases_to!(entry->Directory_entries@ => entry->Directory_entries@[i as int]));
                    assert(decreases_to!(*entry => entry->Directory_entries@[i as int]));
                    lemma_room_shrink(metrics@, (entries_size(es) - entries_size(es.take(i as int))) as nat, entry_size(es[i as int]) + (entries_size(es) - entries_size(es.take(i + 1))) as nat);
                }
                let child = scan_path(&entries[i], metrics, warnings);
                proof {
                    lemma_scan_room(es[i as int], before_m, (entries_size(es) - entries_size(es.take(i + 1))) as nat);
                }
                match child {
                    Some(c) => {
                        children.push(c);
                        assert(node::nodes_view(children@) =~= before_c.push(c@));
                    },
                    None => {},
                }
                i = i + 1;
                assert(warning::warnings_view(warnings@) =~= warning::warnings_view(old(warnings)@) + scan_warnings_seq(es.take(i as int)));
            }
            assert(es.take(i as int) =~= es);
            let sorted = sort_nodes(children);
            Some(FileNode::directory(name, sorted))
        },
        ScanEntry::MetadataFailed { path, message } => {
            register_warning(metrics, warnings, path.as_str(), "read_metadata", text::owned(message.as_str()));
            None
        },
        ScanEntry::DirectoryUnreadable { path, message } => {
            metrics.register_directory();
            register_warning(metrics, warnings, path.as_str(), "read_directory", text::owned(message.as_str()));
            None
        },
        ScanEntry::EntryFailed { path, message } => {
            register_warning(metrics, warnings, path.as_str(), "read_entry", text::owned(message.as_str()));
            None
        },
    }
}

/// The size of a prefix of entries grows by the size of the next entry.
proof fn lemma_entries_size_prefix(es: Seq<EntryView>, k: int)
    requires
        0 < k <= es.len(),
    ensures
        entries_size(es.take(k)) == entries_size(es.take(k - 1)) + entry_size(es[k - 1]),
        entries_size(es.take(k)) <= entries_size(es),
    decreases es.len(),
{
    assert(es.take(k).drop_last() =~= es.take(k - 1));
    if k < es.len() {
        lemma_entries_size_prefix(es.drop_last(), k);
        assert(es.drop_last().take(k) =~= es.take(k));
    } else {
        assert(es.take(k) =~= es);
    }
}

/// Room for `n` is room for anything up to `n`.
proof fn lemma_room_shrink(m: MetricsView, n: nat, k: nat)
    requires
        room(m, n),
        k <= n,
    ensures
        room(m, k),
{
}

}

verus! {

/// The tree, metrics and warnings of a scan.
pub struct ScanResult {
    pub tree: FileNode,
    pub metrics: RelatorioMetricas,
    pub warnings: Vec<ScanWarning>,
}

/// Why a scan of `root` fails, if it does: the system's message when the
/// root's metadata or listing cannot be read, and a message of the scanner's
/// own when the root yields no node.
pub open spec fn root_failure(root: EntryView) -> Option<Seq<char>> {
    match root {
        EntryView::MetadataFailed { message, .. } => Some(message),
        EntryView::DirectoryUnreadable { message, .. } => Some(message),
        EntryView::EntryFailed { .. } => Some("falha ao mapear o diretorio raiz"@),
        _ => None,
    }
}

/// Scans what was read from the root path: the root's own read failures are
/// errors; below the root, failures become warnings and the scan goes on.
pub fn scan_directory(root: &ScanEntry) -> (r: Result<ScanResult, String>)
    requires
        entry_size(root@) <= u64::MAX,
    ensures
        r is Ok <==> root_failure(root@) is None,
        r matches Ok(res) ==> {
            &&& scan_node(root@) == Some(res.tree@)
            &&& res.metrics@ == scan_metrics(root@, metrics::empty_metrics())
            &&& warning::warnings_view(res.warnings@) == scan_warnings(root@)
        },
        r matches Err(msg) ==> root_failure(root@) == Some(msg@),
{
    match root {
        ScanEntry::MetadataFailed { message, .. } => {
            return Err(text::owned(message.as_str()));
        },
        ScanEntry::DirectoryUnreadable { message, .. } => {
            return Err(text::owned(message.as_str()));
        },
        _ => {},
    }
    let mut metrics = RelatorioMetricas::default();
    let mut warnings: Vec<ScanWarning> = Vec::new();
    assert(warning::warnings_view(warnings@) =~= Seq::<WarningView>::empty());
    let tree = scan_path(root, &mut metrics, &mut warnings);
    assert(warning::warnings_view(warnings@) =~= scan_warnings(root@));
    match tree {
        Some(tree) => Ok(ScanResult { tree, metrics, warnings }),
        None => Err(text::owned("falha ao mapear o diretorio raiz")),
    }
}

}
