//! Quantitative summary of a scan: totals and files per extension.
use vstd::prelude::*;
use crate::text;

verus! {

/// Counts per extension, as a sequence of (extension, count) pairs.
pub type CountsView = Seq<(Seq<char>, u64)>;

/// The keys appear in strictly ascending text order (hence each at most once),
/// which is also the order in which the counts are listed.
pub open spec fn keys_ascending(s: CountsView) -> bool {
    forall|i: int, j: int| 0 <= i < j < s.len() ==> text::text_lt(#[trigger] s[i].0, #[trigger] s[j].0)
}

/// The count stored for key `k`, if any.
pub open spec fn lookup(s: CountsView, k: Seq<char>) -> Option<u64>
    decreases s.len(),
{
    if s.len() == 0 {
        None
    } else if s[0].0 == k {
        Some(s[0].1)
    } else {
        lookup(s.skip(1), k)
    }
}

/// The count for key `k`, zero when it is absent.
pub open spec fn count_for(s: CountsView, k: Seq<char>) -> nat {
    match lookup(s, k) {
        Some(c) => c as nat,
        None => 0,
    }
}

/// The counts after one more file with key `k`: the key's count grows by one,
/// or the key is added with count one at its place in the order.
pub open spec fn bump(s: CountsView, k: Seq<char>) -> CountsView
    decreases s.len(),
{
    if s.len() == 0 {
        seq![(k, 1u64)]
    } else if s[0].0 == k {
        seq![(k, (s[0].1 + 1) as u64)] + s.skip(1)
    } else if text::text_lt(k, s[0].0) {
        seq![(k, 1u64)] + s
    } else {
        seq![s[0]] + bump(s.skip(1), k)
    }
}

/// The sum of all counts.
pub open spec fn sum_counts(s: CountsView) -> nat
    decreases s.len(),
{
    if s.len() == 0 {
        0
    } else {
        s[0].1 as nat + sum_counts(s.skip(1))
    }
}

/// Where `bump` acts: `i` is the first position whose key is not below `k`.
proof fn lemma_bump_at(s: CountsView, k: Seq<char>, i: int)
    requires
        0 <= i <= s.len(),
        forall|m: int| 0 <= m < i ==> text::text_lt(#[trigger] s[m].0, k),
        i < s.len() ==> !text::text_lt(s[i].0, k),
    ensures
        i < s.len() && s[i].0 == k ==> bump(s, k) == s.take(i) + seq![(k, (s[i].1 + 1) as u64)] + s.skip(i + 1),
        !(i < s.len() && s[i].0 == k) ==> bump(s, k) == s.take(i) + seq![(k, 1u64)] + s.skip(i),
    decreases i,
{
    if i == 0 {
        assert(s.take(0) =~= Seq::<(Seq<char>, u64)>::empty());
        if s.len() > 0 {
            if s[0].0 != k {
                text::lemma_text_lt_total(s[0].0, k);
            }
            assert(s.skip(0) =~= s);
            assert(seq![(k, 1u64)] + s =~= Seq::<(Seq<char>, u64)>::empty() + seq![(k, 1u64)] + s.skip(0));
        } else {
            assert(s.skip(0) =~= s);
        }
        assert(Seq::<(Seq<char>, u64)>::empty() + seq![(k, 1u64)] + s.skip(0) =~= seq![(k, 1u64)] + s);
    } else {
        let t = s.skip(1);
        assert forall|m: int| 0 <= m < i - 1 implies text::text_lt(#[trigger] t[m].0, k) by {
            assert(t[m] == s[m + 1]);
        }
        lemma_bump_at(t, k, i - 1);
        assert(s[0].0 != k) by {
            text::lemma_text_lt_irreflexive(k);
        }
        assert(!text::text_lt(k, s[0].0)) by {
            text::lemma_text_lt_asymmetric(s[0].0, k);
        }
        assert(s.take(i) =~= seq![s[0]] + t.take(i - 1));
        assert(t.skip(i - 1) =~= s.skip(i));
        if i < s.len() && s[i].0 == k {
            assert(t.skip(i - 1 + 1) =~= s.skip(i + 1));
            assert(bump(s, k) =~= s.take(i) + seq![(k, (s[i].1 + 1) as u64)] + s.skip(i + 1));
        } else {
            assert(bump(s, k) =~= s.take(i) + seq![(k, 1u64)] + s.skip(i));
        }
    }
}

/// `lookup` reads the entry at the position of its key.
proof fn lemma_lookup_at(s: CountsView, i: int)
    requires
        keys_ascending(s),
        0 <= i < s.len(),
    ensures
        lookup(s, s[i].0) == Some(s[i].1),
    decreases i,
{
    if i > 0 {
        assert(s[0].0 != s[i].0) by {
            assert(text::text_lt(s[0].0, s[i].0));
            text::lemma_text_lt_irreflexive(s[i].0);
        }
        let t = s.skip(1);
        assert(keys_ascending(t)) by {
            assert forall|a: int, b: int| 0 <= a < b < t.len() implies text::text_lt(#[trigger] t[a].0, #[trigger] t[b].0) by {
                assert(t[a] == s[a + 1] && t[b] == s[b + 1]);
            }
        }
        lemma_lookup_at(t, i - 1);
    }
}

/// `lookup` finds nothing for a key that no entry has.
pub proof fn lemma_lookup_absent(s: CountsView, k: Seq<char>)
    requires
        forall|i: int| 0 <= i < s.len() ==> (#[trigger] s[i]).0 != k,
    ensures
        lookup(s, k) is None,
    decreases s.len(),
{
    if s.len() > 0 {
        let t = s.skip(1);
        assert forall|i: int| 0 <= i < t.len() implies (#[trigger] t[i]).0 != k by {
            assert(t[i] == s[i + 1]);
        }
        lemma_lookup_absent(t, k);
    }
}

/// Every key that `lookup` finds belongs to some entry.
pub proof fn lemma_lookup_some(s: CountsView, k: Seq<char>)
    requires
        lookup(s, k) is Some,
    ensures
        exists|i: int| 0 <= i < s.len() && (#[trigger] s[i]).0 == k && lookup(s, k) == Some(s[i].1),
    decreases s.len(),
{
    if s[0].0 != k {
        let t = s.skip(1);
        lemma_lookup_some(t, k);
        let i = choose|i: int| 0 <= i < t.len() && (#[trigger] t[i]).0 == k && lookup(t, k) == Some(t[i].1);
        assert(s[i + 1] == t[i]);
    }
}

/// The sum of counts over a concatenation.
proof fn lemma_sum_concat(a: CountsView, b: CountsView)
    ensures
        sum_counts(a + b) == sum_counts(a) + sum_counts(b),
    decreases a.len(),
{
    if a.len() == 0 {
        assert(a + b =~= b);
    } else {
        assert((a + b).skip(1) =~= a.skip(1) + b);
        lemma_sum_concat(a.skip(1), b);
    }
}

/// Counts per file extension, kept in ascending order of extension (the
/// order in which they are listed).
pub struct ExtensionCounts {
    entries: Vec<(String, u64)>,
}

/// The view of a list of (text, count) entries.
pub open spec fn entries_view(v: Seq<(String, u64)>) -> CountsView {
    v.map_values(|e: (String, u64)| (e.0@, e.1))
}

impl View for ExtensionCounts {
    type V = CountsView;

    closed spec fn view(&self) -> CountsView {
        entries_view(self.entries@)
    }
}

impl ExtensionCounts {
    #[verifier::type_invariant]
    spec fn ordered(self) -> bool {
        keys_ascending(entries_view(self.entries@))
    }

    /// No counts.
    pub fn new() -> (r: Self)
        ensures
            r@ == Seq::<(Seq<char>, u64)>::empty(),
    {
        let r = ExtensionCounts { entries: Vec::new() };
        assert(entries_view(r.entries@) =~= Seq::<(Seq<char>, u64)>::empty());
        r
    }

    /// Counts given as entries; `None` unless the extensions are in strictly
    /// ascending order.
    pub fn from_sorted(entries: Vec<(String, u64)>) -> (r: Option<Self>)
        ensures
            r is Some <==> keys_ascending(entries_view(entries@)),
            r matches Some(c) ==> c@ == entries_view(entries@),
    {
        let ghost s = entries_view(entries@);
        let mut i: usize = 1;
        while i < entries.len()
            invariant
                s == entries_view(entries@),
                1 <= i,
                forall|a: int, b: int| 0 <= a < b < i && b < s.len() ==> text::text_lt(#[trigger] s[a].0, #[trigger] s[b].0),
            decreases entries.len() - i,
        {
            if !text::text_less(entries[i - 1].0.as_str(), entries[i].0.as_str()) {
                assert(s[i - 1].0 == entries@[i - 1].0@ && s[i as int].0 == entries@[i as int].0@);
                assert(!keys_ascending(s)) by {
                    if keys_ascending(s) {
                        assert(text::text_lt(s[i - 1].0, s[i as int].0));
                    }
                }
                return None;
            }
            proof {
                assert forall|a: int, b: int| 0 <= a < b < i + 1 && b < s.len() implies text::text_lt(#[trigger] s[a].0, #[trigger] s[b].0) by {
                    if b == i && a < i - 1 {
                        text::lemma_text_lt_transitive(s[a].0, s[i - 1].0, s[b].0);
                    }
                }
            }
            i = i + 1;
        }
        Some(ExtensionCounts { entries })
    }

    /// The (extension, count) entries in ascending order of extension.
    pub fn entries(&self) -> (r: &Vec<(String, u64)>)
        ensures
            entries_view(r@) == self@,
            keys_ascending(self@),
    {
        proof {
            use_type_invariant(self);
        }
        &self.entries
    }

    /// The number of distinct extensions.
    pub fn len(&self) -> (r: usize)
        ensures
            r == self@.len(),
    {
        self.entries.len()
    }

    /// Whether no extension has been counted.
    pub fn is_empty(&self) -> (r: bool)
        ensures
            r == (self@.len() == 0),
    {
        self.entries.len() == 0
    }

    /// The count recorded for `key`.
    pub fn get(&self, key: &str) -> (r: Option<u64>)
        ensures
            r == lookup(self@, key@),
    {
        proof {
            use_type_invariant(self);
        }
        let mut i: usize = 0;
        while i < self.entries.len()
            invariant
                i <= self.entries.len(),
                keys_ascending(self@),
                self@ == entries_view(self.entries@),
                forall|m: int| 0 <= m < i ==> (#[trigger] self@[m]).0 != key@,
            decreases self.entries.len() - i,
        {
            if text::text_equal(self.entries[i].0.as_str(), key) {
                proof {
                    lemma_lookup_at(self@, i as int);
                }
                return Some(self.entries[i].1);
            }
            i = i + 1;
        }
        proof {
            lemma_lookup_absent(self@, key@);
        }
        None
    }

    /// Counts one more file with extension `key`.
    pub fn increment(&mut self, key: &str)
        requires
            count_for(old(self)@, key@) < u64::MAX,
        ensures
            final(self)@ == bump(old(self)@, key@),
    {
        proof {
            use_type_invariant(&*self);
        }
        let ghost s = self@;
        let mut entries: Vec<(String, u64)> = Vec::new();
        std::mem::swap(&mut entries, &mut self.entries);
        let mut i: usize = 0;
        while i < entries.len() && text::text_less(entries[i].0.as_str(), key)
            invariant
                i <= entries.len(),
                s == entries_view(entries@),
                keys_ascending(s),
                forall|m: int| 0 <= m < i ==> text::text_lt(#[trigger] s[m].0, key@),
            decreases entries.len() - i,
        {
            i = i + 1;
        }
        proof {
            lemma_bump_at(s, key@, i as int);
        }
        if i < entries.len() && text::text_equal(entries[i].0.as_str(), key) {
            proof {
                lemma_lookup_at(s, i as int);
            }
            let c = entries[i].1;
            let name = text::owned(entries[i].0.as_str());
            entries.set(i, (name, c + 1));
            proof {
                assert(entries_view(entries@) =~= s.take(i as int) + seq![(key@, (s[i as int].1 + 1) as u64)] + s.skip(i + 1));
            }
        } else {
            proof {
                if i < s.len() {
                    text::lemma_text_lt_total(s[i as int].0, key@);
                }
            }
            entries.insert(i, (text::owned(key), 1));
            proof {
                let t = entries_view(entries@);
                assert(t =~= s.take(i as int) + seq![(key@, 1u64)] + s.skip(i as int));
                assert forall|a: int, b: int| 0 <= a < b < t.len() implies text::text_lt(#[trigger] t[a].0, #[trigger] t[b].0) by {
                    if b > i {
                        assert(t[b] == s[b - 1]);
                        assert(text::text_lt(key@, s[i as int].0));
                        if b - 1 > i {
                            text::lemma_text_lt_transitive(key@, s[i as int].0, s[b - 1].0);
                        }
                        if a < i {
                            text::lemma_text_lt_transitive(t[a].0, key@, t[b].0);
                        } else if a > i {
                            assert(t[a] == s[a - 1]);
                        }
                    } else if b < i {
                        assert(t[a] == s[a] && t[b] == s[b]);
                    }
                }
            }
        }
        self.entries = entries;
    }
}

/// The key under which a file is counted: its extension, or the marker for
/// files without one.
pub open spec fn file_key(extension: Option<Seq<char>>) -> Seq<char> {
    match extension {
        Some(e) => e,
        None => "[sem extensao]"@,
    }
}

/// The mathematical value of [`RelatorioMetricas`].
pub struct MetricsView {
    pub total_files: u64,
    pub total_directories: u64,
    pub ignored_items: u64,
    pub warning_count: u64,
    pub by_extension: CountsView,
}

/// Metrics after one more directory.
pub open spec fn after_directory(m: MetricsView) -> MetricsView {
    MetricsView { total_directories: (m.total_directories + 1) as u64, ..m }
}

/// Metrics after one more file with the given extension.
pub open spec fn after_file(m: MetricsView, extension: Option<Seq<char>>) -> MetricsView {
    MetricsView {
        total_files: (m.total_files + 1) as u64,
        by_extension: bump(m.by_extension, file_key(extension)),
        ..m
    }
}

/// Metrics after one more warning (the item it concerns is ignored).
pub open spec fn after_warning(m: MetricsView) -> MetricsView {
    MetricsView {
        warning_count: (m.warning_count + 1) as u64,
        ignored_items: (m.ignored_items + 1) as u64,
        ..m
    }
}

/// Metrics of an empty scan.
pub open spec fn empty_metrics() -> MetricsView {
    MetricsView {
        total_files: 0,
        total_directories: 0,
        ignored_items: 0,
        warning_count: 0,
        by_extension: Seq::empty(),
    }
}

/// Totals of a scan: files, directories, ignored items and warnings, and the
/// number of files per extension.
pub struct RelatorioMetricas {
    pub total_files: u64,
    pub total_directories: u64,
    pub ignored_items: u64,
    pub warning_count: u64,
    pub by_extension: ExtensionCounts,
}

impl View for RelatorioMetricas {
    type V = MetricsView;

    open spec fn view(&self) -> MetricsView {
        MetricsView {
            total_files: self.total_files,
            total_directories: self.total_directories,
            ignored_items: self.ignored_items,
            warning_count: self.warning_count,
            by_extension: self.by_extension@,
        }
    }
}

impl Default for RelatorioMetricas {
    fn default() -> (r: Self)
        ensures
            r@ == empty_metrics(),
    {
        RelatorioMetricas {
            total_files: 0,
            total_directories: 0,
            ignored_items: 0,
            warning_count: 0,
            by_extension: ExtensionCounts::new(),
        }
    }
}

impl RelatorioMetricas {
    /// Counts one more directory.
    pub fn register_directory(&mut self)
        requires
            old(self).total_directories < u64::MAX,
        ensures
            final(self)@ == after_directory(old(self)@),
    {
        self.total_directories = self.total_directories + 1;
    }

    /// Counts one more file, under its extension or under the marker for
    /// files without one.
    pub fn register_file(&mut self, extension: Option<&str>)
        requires
            old(self).total_files < u64::MAX,
            count_for(old(self)@.by_extension, file_key(match extension { Some(e) => Some(e@), None => None })) < u64::MAX,
        ensures
            final(self)@ == after_file(old(self)@, match extension { Some(e) => Some(e@), None => None }),
    {
        self.total_files = self.total_files + 1;
        let key: &str = match extension {
            Some(e) => e,
            None => "[sem extensao]",
        };
        self.by_extension.increment(key);
    }

    /// Counts one more warning and the item it made the scan ignore.
    pub fn register_warning(&mut self)
        requires
            old(self).warning_count < u64::MAX,
            old(self).ignored_items < u64::MAX,
        ensures
            final(self)@ == after_warning(old(self)@),
    {
        self.warning_count = self.warning_count + 1;
        self.ignored_items = self.ignored_items + 1;
    }
}

}
