//! Change detection and planning: which source files a run copies, and
//! which destination files a clean-up removes.
use vstd::prelude::*;
use crate::ignore::{includes, FilterView, IgnoreFilter};
use crate::text::same_text;

verus! {

/// A file seen during traversal: its path relative to the tree's root
/// (`/`-separated), its size in bytes and its modification time in
/// nanoseconds since the Unix epoch.
#[derive(Debug, Clone)]
pub struct FileInfo {
    pub path: String,
    pub size: u64,
    pub modified: i128,
}

pub struct FileView {
    pub path: Seq<char>,
    pub size: u64,
    pub modified: i128,
}

impl View for FileInfo {
    type V = FileView;

    open spec fn view(&self) -> FileView {
        FileView { path: self.path@, size: self.size, modified: self.modified }
    }
}

pub open spec fn file_views(v: Seq<FileInfo>) -> Seq<FileView> {
    v.map_values(|f: FileInfo| f@)
}

impl FileInfo {
    pub fn new(path: String, size: u64, modified: i128) -> (r: FileInfo)
        ensures
            r@ == (FileView { path: path@, size, modified }),
    {
        FileInfo { path, size, modified }
    }

    fn copied(&self) -> (r: FileInfo)
        ensures
            r@ == self@,
    {
        FileInfo { path: self.path.clone(), size: self.size, modified: self.modified }
    }
}

/// A tree as a map from relative path to record; where a listing names a
/// path twice, the later record stands.
pub open spec fn tree_of(listing: Seq<FileView>) -> Map<Seq<char>, FileView>
    decreases listing.len(),
{
    if listing.len() == 0 {
        Map::empty()
    } else {
        tree_of(listing.drop_last()).insert(listing.last().path, listing.last())
    }
}

pub open spec fn record_at(tree: Map<Seq<char>, FileView>, path: Seq<char>) -> Option<FileView> {
    if tree.contains_key(path) {
        Some(tree[path])
    } else {
        None
    }
}

/// The destination copy is up to date: same size, and not older.
pub open spec fn unchanged(source: FileView, dest: FileView) -> bool {
    source.size == dest.size && source.modified <= dest.modified
}

/// The source file must be copied: the destination lacks it, or its copy
/// differs in size or is older.
pub open spec fn differs(source: FileView, dest: Option<FileView>) -> bool {
    match dest {
        Some(d) => !unchanged(source, d),
        None => true,
    }
}

pub open spec fn info_view(f: Option<&FileInfo>) -> Option<FileView> {
    match f {
        Some(i) => Some(i@),
        None => None,
    }
}

/// Whether `source` must be copied over `dest` (absent where the
/// destination has no such file).
pub fn files_differ(source: &FileInfo, dest: Option<&FileInfo>) -> (r: bool)
    ensures
        r == differs(source@, info_view(dest)),
{
    match dest {
        None => true,
        Some(d) => {
            if source.size != d.size {
                true
            } else {
                source.modified > d.modified
            }
        },
    }
}

/// The record of `listing` at `path`, as `tree_of` has it.
pub fn find_record<'a>(listing: &'a Vec<FileInfo>, path: &str) -> (r: Option<&'a FileInfo>)
    ensures
        info_view(r) == record_at(tree_of(file_views(listing@)), path@),
{
    let ghost all = file_views(listing@);
    let mut i: usize = listing.len();
    assert(all.take(i as int) =~= all);
    while i > 0
        invariant
            all == file_views(listing@),
            i <= listing@.len(),
            record_at(tree_of(all), path@) == record_at(tree_of(all.take(i as int)), path@),
        decreases i,
    {
        assert(all.take(i as int).drop_last() =~= all.take(i - 1));
        assert(all.take(i as int).last() == listing@[i - 1]@);
        if same_text(listing[i - 1].path.as_str(), path) {
            return Some(&listing[i - 1]);
        }
        i = i - 1;
    }
    None
}

/// `source` belongs in the plan: the filter includes it and, in incremental
/// mode, it differs from its destination copy.
pub open spec fn planned(
    filter: FilterView,
    dest: Map<Seq<char>, FileView>,
    incremental: bool,
    source: FileView,
) -> bool {
    includes(filter.rules, filter.force, source.path, false) && (!incremental || differs(
        source,
        record_at(dest, source.path),
    ))
}

/// The copy plan: the planned source files, in traversal order.
pub open spec fn plan_of(
    filter: FilterView,
    sources: Seq<FileView>,
    dest: Seq<FileView>,
    incremental: bool,
) -> Seq<FileView> {
    sources.filter(|s: FileView| planned(filter, tree_of(dest), incremental, s))
}

/// The files of `sources` that a run copies onto the destination listed
/// by `dest`: those that `filter` includes and, in incremental mode, that
/// differ from their destination copy. Nothing is read or written.
pub fn plan_sync(
    sources: &Vec<FileInfo>,
    dest: &Vec<FileInfo>,
    filter: &IgnoreFilter,
    incremental: bool,
) -> (r: Vec<FileInfo>)
    ensures
        file_views(r@) == plan_of(filter@, file_views(sources@), file_views(dest@), incremental),
{
    let ghost srcs = file_views(sources@);
    let ghost pred = |s: FileView| planned(filter@, tree_of(file_views(dest@)), incremental, s);
    let mut r: Vec<FileInfo> = Vec::new();
    let mut i: usize = 0;
    while i < sources.len()
        invariant
            srcs == file_views(sources@),
            pred == (|s: FileView| planned(filter@, tree_of(file_views(dest@)), incremental, s)),
            i <= sources@.len(),
            file_views(r@) == srcs.take(i as int).filter(pred),
        decreases sources@.len() - i,
    {
        let s = &sources[i];
        assert(srcs.take(i + 1).drop_last() =~= srcs.take(i as int));
        assert(srcs.take(i + 1).last() == s@);
        let mut keep = filter.decide(s.path.as_str(), false).included;
        if keep && incremental {
            keep = files_differ(s, find_record(dest, s.path.as_str()));
        }
        assert(pred(s@) == keep);
        proof {
            lemma_filter_step(srcs, pred, i as int);
        }
        if keep {
            let ghost before = r@;
            r.push(s.copied());
            assert(file_views(r@) =~= file_views(before).push(s@));
        }
        i = i + 1;
    }
    assert(srcs.take(i as int) =~= srcs);
    r
}

proof fn lemma_filter_step(s: Seq<FileView>, pred: spec_fn(FileView) -> bool, i: int)
    requires
        0 <= i < s.len(),
    ensures
        s.take(i + 1).filter(pred) == if pred(s[i]) {
            s.take(i).filter(pred).push(s[i])
        } else {
            s.take(i).filter(pred)
        },
{
    let t = s.take(i + 1);
    assert(t.drop_last() =~= s.take(i));
    assert(t.last() == s[i]);
    reveal_with_fuel(Seq::filter, 1);
}

/// The paths of the incremental plan: included files that differ from
/// their destination copy.
pub fn has_changes(sources: &Vec<FileInfo>, dest: &Vec<FileInfo>, filter: &IgnoreFilter) -> (r: Vec<
    String,
>)
    ensures
        r@.len() == plan_of(filter@, file_views(sources@), file_views(dest@), true).len(),
        forall|k: int|
            0 <= k < r@.len() ==> #[trigger] r@[k]@ == plan_of(
                filter@,
                file_views(sources@),
                file_views(dest@),
                true,
            )[k].path,
{
    let plan = plan_sync(sources, dest, filter, true);
    let mut r: Vec<String> = Vec::new();
    let mut i: usize = 0;
    while i < plan.len()
        invariant
            i <= plan@.len(),
            r@.len() == i,
            forall|k: int| 0 <= k < i ==> #[trigger] r@[k]@ == plan@[k].path@,
        decreases plan@.len() - i,
    {
        r.push(plan[i].path.clone());
        i = i + 1;
    }
    proof {
        assert forall|k: int| 0 <= k < r@.len() implies #[trigger] r@[k]@ == plan_of(
            filter@,
            file_views(sources@),
            file_views(dest@),
            true,
        )[k].path by {
            assert(file_views(plan@)[k] == plan@[k]@);
        }
    }
    r
}

/// A destination file goes in a clean-up: the source has no file at its
/// path, or the filter excludes it.
pub open spec fn stale(filter: FilterView, sources: Map<Seq<char>, FileView>, d: FileView) -> bool {
    !sources.contains_key(d.path) || !includes(filter.rules, filter.force, d.path, false)
}

pub open spec fn prune_of(filter: FilterView, sources: Seq<FileView>, dest: Seq<FileView>) -> Seq<
    FileView,
> {
    dest.filter(|d: FileView| stale(filter, tree_of(sources), d))
}

/// The destination files that a clean-up removes so that the destination
/// mirrors the filtered source tree, in listing order.
pub fn prune_plan(sources: &Vec<FileInfo>, dest: &Vec<FileInfo>, filter: &IgnoreFilter) -> (r: Vec<
    FileInfo,
>)
    ensures
        file_views(r@) == prune_of(filter@, file_views(sources@), file_views(dest@)),
{
    let ghost ds = file_views(dest@);
    let ghost pred = |d: FileView| stale(filter@, tree_of(file_views(sources@)), d);
    let mut r: Vec<FileInfo> = Vec::new();
    let mut i: usize = 0;
    while i < dest.len()
        invariant
            ds == file_views(dest@),
            pred == (|d: FileView| stale(filter@, tree_of(file_views(sources@)), d)),
            i <= dest@.len(),
            file_views(r@) == ds.take(i as int).filter(pred),
        decreases dest@.len() - i,
    {
        let d = &dest[i];
        assert(ds.take(i + 1).drop_last() =~= ds.take(i as int));
        assert(ds.take(i + 1).last() == d@);
        let remove = match find_record(sources, d.path.as_str()) {
            None => true,
            Some(_) => !filter.decide(d.path.as_str(), false).included,
        };
        assert(pred(d@) == remove);
        proof {
            lemma_filter_step(ds, pred, i as int);
        }
        if remove {
            let ghost before = r@;
            r.push(d.copied());
            assert(file_views(r@) =~= file_views(before).push(d@));
        }
        i = i + 1;
    }
    assert(ds.take(i as int) =~= ds);
    r
}

proof fn lemma_filter_filter(
    s: Seq<FileView>,
    p: spec_fn(FileView) -> bool,
    q: spec_fn(FileView) -> bool,
    pq: spec_fn(FileView) -> bool,
)
    requires
        forall|x: FileView| #[trigger] pq(x) == (p(x) && q(x)),
    ensures
        s.filter(pq) == s.filter(p).filter(q),
    decreases s.len(),
{
    reveal_with_fuel(Seq::filter, 1);
    if s.len() > 0 {
        let init = s.drop_last();
        let x = s.last();
        lemma_filter_filter(init, p, q, pq);
        if p(x) {
            let a = init.filter(p);
            assert(a.push(x).drop_last() =~= a);
            assert(a.push(x).last() == x);
        }
    }
}

/// The incremental plan is the full plan for the same inputs with the files
/// that the diff oracle judges unchanged left out, in the same order; so
/// every file of it is in the full plan.
pub proof fn lemma_incremental_plan_within_full(
    filter: FilterView,
    sources: Seq<FileView>,
    dest: Seq<FileView>,
)
    ensures
        plan_of(filter, sources, dest, true) == plan_of(filter, sources, dest, false).filter(
            |s: FileView| differs(s, record_at(tree_of(dest), s.path)),
        ),
        forall|k: int|
            0 <= k < plan_of(filter, sources, dest, true).len() ==> plan_of(
                filter,
                sources,
                dest,
                false,
            ).contains(#[trigger] plan_of(filter, sources, dest, true)[k]),
{
    let t = tree_of(dest);
    let p = |s: FileView| planned(filter, t, false, s);
    let q = |s: FileView| differs(s, record_at(t, s.path));
    let pq = |s: FileView| planned(filter, t, true, s);
    lemma_filter_filter(sources, p, q, pq);
    let full = plan_of(filter, sources, dest, false);
    let inc = plan_of(filter, sources, dest, true);
    assert(inc == full.filter(q));
    assert forall|k: int| 0 <= k < inc.len() implies full.contains(#[trigger] inc[k]) by {
        assert(inc.contains(inc[k]));
        full.lemma_filter_contains_rev(q, inc[k]);
    }
}

/// What a complete run leaves at the destination: every planned file
/// copied, with the source's size and modification time.
pub open spec fn deployed(tree: Map<Seq<char>, FileView>, plan: Seq<FileView>) -> Map<
    Seq<char>,
    FileView,
>
    decreases plan.len(),
{
    if plan.len() == 0 {
        tree
    } else {
        deployed(tree, plan.drop_last()).insert(plan.last().path, plan.last())
    }
}

/// No two records of a listing share a path, as in a real tree.
pub open spec fn distinct_paths(s: Seq<FileView>) -> bool {
    forall|i: int, j: int|
        0 <= i < s.len() && 0 <= j < s.len() && i != j ==> #[trigger] s[i].path != #[trigger] s[j].path
}

proof fn lemma_deployed_hit(tree: Map<Seq<char>, FileView>, plan: Seq<FileView>, i: int)
    requires
        distinct_paths(plan),
        0 <= i < plan.len(),
    ensures
        deployed(tree, plan).contains_key(plan[i].path),
        deployed(tree, plan)[plan[i].path] == plan[i],
    decreases plan.len(),
{
    if i < plan.len() - 1 {
        let init = plan.drop_last();
        assert(distinct_paths(init)) by {
            assert forall|a: int, b: int|
                0 <= a < init.len() && 0 <= b < init.len() && a != b implies #[trigger] init[a].path
                != #[trigger] init[b].path by {
                assert(init[a] == plan[a] && init[b] == plan[b]);
            }
        }
        assert(init[i] == plan[i]);
        lemma_deployed_hit(tree, init, i);
        assert(plan[plan.len() - 1].path != plan[i].path);
    }
}

proof fn lemma_deployed_miss(tree: Map<Seq<char>, FileView>, plan: Seq<FileView>, k: Seq<char>)
    requires
        forall|i: int| 0 <= i < plan.len() ==> #[trigger] plan[i].path != k,
    ensures
        deployed(tree, plan).contains_key(k) == tree.contains_key(k),
        tree.contains_key(k) ==> deployed(tree, plan)[k] == tree[k],
    decreases plan.len(),
{
    if plan.len() > 0 {
        let init = plan.drop_last();
        assert forall|i: int| 0 <= i < init.len() implies #[trigger] init[i].path != k by {
            assert(init[i] == plan[i]);
        }
        lemma_deployed_miss(tree, init, k);
        assert(plan[plan.len() - 1].path != k);
    }
}

proof fn lemma_filter_distinct(s: Seq<FileView>, pred: spec_fn(FileView) -> bool)
    requires
        distinct_paths(s),
    ensures
        distinct_paths(s.filter(pred)),
    decreases s.len(),
{
    reveal_with_fuel(Seq::filter, 1);
    if s.len() > 0 {
        let init = s.drop_last();
        assert(distinct_paths(init)) by {
            assert forall|a: int, b: int|
                0 <= a < init.len() && 0 <= b < init.len() && a != b implies #[trigger] init[a].path
                != #[trigger] init[b].path by {
                assert(init[a] == s[a] && init[b] == s[b]);
            }
        }
        lemma_filter_distinct(init, pred);
        let f = init.filter(pred);
        if pred(s.last()) {
            let g = f.push(s.last());
            assert forall|a: int, b: int|
                0 <= a < g.len() && 0 <= b < g.len() && a != b implies #[trigger] g[a].path
                != #[trigger] g[b].path by {
                if a == f.len() || b == f.len() {
                    let other = if a == f.len() {
                        b
                    } else {
                        a
                    };
                    assert(f.contains(f[other]));
                    init.lemma_filter_contains_rev(pred, f[other]);
                    let w = choose|w: int| 0 <= w < init.len() && init[w] == f[other];
                    assert(init[w] == s[w]);
                    assert(s[w].path != s[s.len() - 1].path);
                }
            }
        }
    }
}

/// Idempotence: a second non-incremental run over an unmodified source
/// plans the same files whatever the destination holds, and copying them
/// again leaves the destination as the first run left it; the diff oracle
/// then judges every planned file unchanged, and an incremental run would
/// copy nothing.
pub proof fn lemma_sync_idempotent(
    filter: FilterView,
    sources: Seq<FileView>,
    dest: Seq<FileView>,
    dest_after: Seq<FileView>,
)
    requires
        distinct_paths(sources),
        tree_of(dest_after) == deployed(tree_of(dest), plan_of(filter, sources, dest, false)),
    ensures
        plan_of(filter, sources, dest_after, false) == plan_of(filter, sources, dest, false),
        deployed(tree_of(dest_after), plan_of(filter, sources, dest, false)) == tree_of(dest_after),
        forall|k: int|
            0 <= k < plan_of(filter, sources, dest, false).len() ==> !differs(
                #[trigger] plan_of(filter, sources, dest, false)[k],
                record_at(tree_of(dest_after), plan_of(filter, sources, dest, false)[k].path),
            ),
        plan_of(filter, sources, dest_after, true).len() == 0,
{
    let plan = plan_of(filter, sources, dest, false);
    let after = tree_of(dest_after);
    let p1 = |s: FileView| planned(filter, tree_of(dest), false, s);
    let p2 = |s: FileView| planned(filter, tree_of(dest_after), false, s);
    assert(p1 =~= p2);
    lemma_filter_distinct(sources, p1);
    assert forall|k: int| 0 <= k < plan.len() implies !differs(
        #[trigger] plan[k],
        record_at(after, plan[k].path),
    ) by {
        lemma_deployed_hit(tree_of(dest), plan, k);
    }
    assert(deployed(after, plan) =~= after) by {
        assert forall|key: Seq<char>| #[trigger] deployed(after, plan).contains_key(key)
            == after.contains_key(key) && (after.contains_key(key) ==> deployed(after, plan)[key]
            == after[key]) by {
            if exists|i: int| 0 <= i < plan.len() && plan[i].path == key {
                let i = choose|i: int| 0 <= i < plan.len() && plan[i].path == key;
                lemma_deployed_hit(after, plan, i);
                lemma_deployed_hit(tree_of(dest), plan, i);
            } else {
                lemma_deployed_miss(after, plan, key);
            }
        }
    }
    let inc = |s: FileView| planned(filter, after, true, s);
    let again = plan_of(filter, sources, dest_after, true);
    if again.len() > 0 {
        sources.lemma_filter_pred(inc, 0);
        assert(again.contains(again[0]));
        sources.lemma_filter_contains_rev(inc, again[0]);
        let w = choose|w: int| 0 <= w < sources.len() && sources[w] == again[0];
        sources.lemma_filter_contains(p1, w);
        let i = choose|i: int| 0 <= i < plan.len() && plan[i] == sources[w];
        lemma_deployed_hit(tree_of(dest), plan, i);
    }
}

} // verus!
