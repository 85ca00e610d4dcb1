//! Cleaning the cache.
//!
//! First downloads that were left unfinished go, then assets that no scene needs soon, and then, as
//! long as the cache is above its limit, those that were not used for longest. Assets that a scene
//! needs soon are never deleted.

use vstd::prelude::*;

use crate::config::{SCHEDULE_END_GRACE_MS, STALE_PART_MAX_AGE_MS};
use crate::sort::{
    precedes, sorted_by_keys, stable_order, stable_order_is_stable, stable_sort, SortKey,
};
use crate::text::{contains_text, ends_with, has_suffix, slice_text, texts, to_chars};

verus! {

/// What a cleaning did.
#[derive(Debug, Clone, Copy, PartialEq, Eq, Structural)]
pub struct CacheCleanupResult {
    pub deleted_files: usize,
    pub deleted_bytes: u64,
    pub remaining_bytes: u64,
}

impl Default for CacheCleanupResult {
    fn default() -> (r: Self)
        ensures
            r == (CacheCleanupResult { deleted_files: 0, deleted_bytes: 0, remaining_bytes: 0 }),
    {
        CacheCleanupResult { deleted_files: 0, deleted_bytes: 0, remaining_bytes: 0 }
    }
}

/// A file in the cache.
#[derive(Debug)]
pub struct CacheFile {
    pub name: String,
    pub size: u64,
    /// When it was last used, where that is known: milliseconds since the epoch.
    pub modified: Option<i64>,
}

/// Model of a [`CacheFile`].
#[verifier::ext_equal]
pub struct CacheFileView {
    pub name: Seq<char>,
    pub size: u64,
    pub modified: Option<i64>,
}

impl View for CacheFile {
    type V = CacheFileView;

    open spec fn view(&self) -> CacheFileView {
        CacheFileView { name: self.name@, size: self.size, modified: self.modified }
    }
}

/// The models of a list of files.
pub open spec fn file_views(files: Seq<CacheFile>) -> Seq<CacheFileView> {
    Seq::new(files.len(), |i: int| files[i]@)
}

/// Whether a file is an asset: something and the ending of assets.
pub open spec fn asset_file(name: Seq<char>) -> bool {
    has_suffix(name, ".bin"@) && name.len() > ".bin"@.len()
}

/// Where the last dot of a name stands.
pub open spec fn last_dot(name: Seq<char>) -> Option<int>
    decreases name.len(),
{
    if name.len() == 0 {
        None
    } else if name.last() == '.' {
        Some(name.len() - 1)
    } else {
        last_dot(name.drop_last())
    }
}

/// The name that the asset in a file is kept under: the file's name without its ending. A dot at the
/// start is no start of an ending.
pub open spec fn key_of_file(name: Seq<char>) -> Seq<char> {
    match last_dot(name) {
        Some(i) => if i > 0 {
            name.take(i)
        } else {
            name
        },
        None => name,
    }
}

/// Whether a file is an asset.
pub fn is_bin(name: &str) -> (r: bool)
    ensures
        r == asset_file(name@),
{
    let chars: Vec<char> = to_chars(name);
    let ending: Vec<char> = to_chars(".bin");
    ends_with(name, ".bin") && chars.len() > ending.len()
}

/// The name that the asset in a file is kept under.
pub fn cache_key_of(name: &str) -> (r: String)
    ensures
        r@ == key_of_file(name@),
{
    let chars: Vec<char> = to_chars(name);
    let mut i: usize = chars.len();
    assert(name@.take(i as int) =~= name@);
    while i > 0
        invariant
            chars@ == name@,
            i <= chars@.len(),
            last_dot(name@) == last_dot(name@.take(i as int)),
        decreases i,
    {
        let ghost head = name@.take(i as int);
        assert(head.drop_last() =~= name@.take(i - 1));
        assert(head.last() == chars@[i - 1]);
        if chars[i - 1] == '.' {
            if i > 1 {
                let key: String = slice_text(&chars, 0, i - 1);
                assert(key@ =~= name@.take(i - 1));
                return key;
            }
            return name.to_owned();
        }
        i = i - 1;
    }
    name.to_owned()
}

/// The key of an asset's file is what stands before its ending.
pub proof fn asset_files_are_named_by_key(key: Seq<char>)
    requires
        key.len() > 0,
    ensures
        asset_file(key + ".bin"@),
        key_of_file(key + ".bin"@) == key,
{
    reveal_strlit(".bin");
    let name = key + ".bin"@;
    assert(name.subrange(name.len() - 4, name.len() as int) =~= ".bin"@);
    reveal_with_fuel(last_dot, 4);
    assert(name.drop_last().drop_last().drop_last().last() == '.');
    assert(name.take(key.len() as int) =~= key);
}

/// Whether a file was last used more than `limit` ago; one of which that is not known was not.
pub open spec fn older_than(file: CacheFileView, now: int, limit: int) -> bool {
    file.modified matches Some(m) && now - m > limit
}

fn is_older(file: &CacheFile, now: i64, limit: i64) -> (r: bool)
    ensures
        r == older_than(file@, now as int, limit as int),
{
    match file.modified {
        Some(m) => now as i128 - m as i128 > limit as i128,
        None => false,
    }
}

/// Whether a file is a download that was left unfinished.
pub open spec fn stale_part(file: CacheFileView, now: int) -> bool {
    has_suffix(file.name, ".part"@) && older_than(file, now, STALE_PART_MAX_AGE_MS as int)
}

/// Whether a file is an asset that no scene needs soon, not used for some time.
pub open spec fn expired(file: CacheFileView, protected: Seq<Seq<char>>, now: int) -> bool {
    asset_file(file.name) && !protected.contains(key_of_file(file.name)) && older_than(
        file,
        now,
        SCHEDULE_END_GRACE_MS as int,
    )
}

/// The indices of the files that satisfy `p`, in ascending order.
pub open spec fn indices_where(files: Seq<CacheFileView>, p: spec_fn(CacheFileView) -> bool) -> Seq<
    usize,
>
    decreases files.len(),
{
    if files.len() == 0 {
        Seq::empty()
    } else {
        let before = indices_where(files.drop_last(), p);
        if p(files.last()) {
            before.push((files.len() - 1) as usize)
        } else {
            before
        }
    }
}

/// The predicate that holds of downloads that were left unfinished.
pub open spec fn stale_parts_at(now: int) -> spec_fn(CacheFileView) -> bool {
    |f: CacheFileView| stale_part(f, now)
}

/// The predicate that holds of assets that no scene needs soon, not used for some time.
pub open spec fn expired_at(protected: Seq<Seq<char>>, now: int) -> spec_fn(CacheFileView) -> bool {
    |f: CacheFileView| expired(f, protected, now)
}

/// The downloads that were left unfinished.
pub fn stale_part_files(files: &Vec<CacheFile>, now_millis: i64) -> (r: Vec<usize>)
    ensures
        r@ == indices_where(file_views(files@), stale_parts_at(now_millis as int)),
{
    let ghost views = file_views(files@);
    let ghost p = stale_parts_at(now_millis as int);
    let mut out: Vec<usize> = Vec::new();
    let mut i: usize = 0;
    assert(indices_where(views.take(0), p) =~= Seq::empty());
    while i < files.len()
        invariant
            i <= files@.len(),
            views == file_views(files@),
            p == stale_parts_at(now_millis as int),
            out@ == indices_where(views.take(i as int), p),
        decreases files@.len() - i,
    {
        proof {
            assert(views.take(i + 1).drop_last() =~= views.take(i as int));
            assert(views[i as int] == files@[i as int]@);
        }
        if ends_with(files[i].name.as_str(), ".part") && is_older(
            &files[i],
            now_millis,
            STALE_PART_MAX_AGE_MS,
        ) {
            out.push(i);
        }
        i = i + 1;
    }
    assert(views.take(i as int) =~= views);
    out
}

/// The assets that no scene needs soon, not used for some time.
pub fn expired_bins(files: &Vec<CacheFile>, protected: &Vec<String>, now_millis: i64) -> (r: Vec<
    usize,
>)
    ensures
        r@ == indices_where(
            file_views(files@),
            expired_at(texts(protected@), now_millis as int),
        ),
{
    let ghost views = file_views(files@);
    let ghost p = expired_at(texts(protected@), now_millis as int);
    let mut out: Vec<usize> = Vec::new();
    let mut i: usize = 0;
    assert(indices_where(views.take(0), p) =~= Seq::empty());
    while i < files.len()
        invariant
            i <= files@.len(),
            views == file_views(files@),
            p == expired_at(texts(protected@), now_millis as int),
            out@ == indices_where(views.take(i as int), p),
        decreases files@.len() - i,
    {
        proof {
            assert(views.take(i + 1).drop_last() =~= views.take(i as int));
            assert(views[i as int] == files@[i as int]@);
        }
        let name: &str = files[i].name.as_str();
        if is_bin(name) && is_older(&files[i], now_millis, SCHEDULE_END_GRACE_MS) && !contains_text(
            protected,
            cache_key_of(name).as_str(),
        ) {
            out.push(i);
        }
        i = i + 1;
    }
    assert(views.take(i as int) =~= views);
    out
}

/// The sum of the sizes of the files at some indices.
pub open spec fn total_size(files: Seq<CacheFileView>, indices: Seq<usize>) -> int
    decreases indices.len(),
{
    if indices.len() == 0 {
        0
    } else {
        total_size(files, indices.drop_last()) + files[indices.last() as int].size
    }
}

/// The predicate that holds of assets.
pub open spec fn assets_only() -> spec_fn(CacheFileView) -> bool {
    |f: CacheFileView| asset_file(f.name)
}

/// The keys by which files come in order of when they were last used.
pub open spec fn use_keys(files: Seq<CacheFileView>, indices: Seq<usize>) -> Seq<SortKey> {
    Seq::new(
        indices.len(),
        |i: int|
            (match files[indices[i] as int].modified {
                Some(m) => m,
                None => 0i64,
            }, 0i64, 0i64),
    )
}

/// The assets in order of when they were last used.
pub open spec fn least_recent(files: Seq<CacheFileView>) -> Seq<usize> {
    let assets = indices_where(files, assets_only());
    sorted_by_keys(assets, use_keys(files, assets))
}

/// Model of a [`LimitRun`].
#[verifier::ext_equal]
pub struct LimitView {
    pub order: Seq<usize>,
    pub next: int,
    pub total: u64,
    pub limit: u64,
}

/// From `next` on, the place in the order of the file that is deleted next: the first one that no
/// scene needs soon, as long as the cache is above its limit.
pub open spec fn victim_from(
    state: LimitView,
    files: Seq<CacheFileView>,
    protected: Seq<Seq<char>>,
    next: int,
) -> Option<int>
    decreases state.order.len() - next,
{
    if state.total <= state.limit || next >= state.order.len() {
        None
    } else if protected.contains(key_of_file(files[state.order[next] as int].name)) {
        victim_from(state, files, protected, next + 1)
    } else {
        Some(next)
    }
}

/// Cuts the cache to its limit: deletes assets, the one that was not used for longest first.
#[derive(Debug)]
pub struct LimitRun {
    order: Vec<usize>,
    next: usize,
    total: u64,
    limit: u64,
}

impl View for LimitRun {
    type V = LimitView;

    closed spec fn view(&self) -> LimitView {
        LimitView {
            order: self.order@,
            next: self.next as int,
            total: self.total,
            limit: self.limit,
        }
    }
}

proof fn lemma_indices(files: Seq<CacheFileView>, p: spec_fn(CacheFileView) -> bool)
    requires
        files.len() <= usize::MAX,
    ensures
        forall|k: int|
            0 <= k < indices_where(files, p).len() ==> (#[trigger] indices_where(files, p)[k])
                < files.len() && p(files[indices_where(files, p)[k] as int]),
    decreases files.len(),
{
    if files.len() > 0 {
        let shorter = files.drop_last();
        lemma_indices(shorter, p);
        let before = indices_where(shorter, p);
        let out = indices_where(files, p);
        assert forall|k: int| 0 <= k < out.len() implies (#[trigger] out[k]) < files.len() && p(
            files[out[k] as int],
        ) by {
            if k < before.len() {
                assert(out[k] == before[k]);
                assert(shorter[before[k] as int] == files[before[k] as int]);
            }
        }
    }
}

proof fn lemma_order(files: Seq<CacheFileView>)
    requires
        files.len() <= usize::MAX,
    ensures
        least_recent(files).len() == indices_where(files, assets_only()).len(),
        forall|k: int|
            0 <= k < least_recent(files).len() ==> (#[trigger] least_recent(files)[k]) < files.len()
                && asset_file(files[least_recent(files)[k] as int].name),
{
    lemma_indices(files, assets_only());
    let assets = indices_where(files, assets_only());
    let keys = use_keys(files, assets);
    stable_order_is_stable(keys);
    let order = stable_order(keys);
    assert forall|k: int| 0 <= k < least_recent(files).len() implies (
    #[trigger] least_recent(files)[k]) < files.len() && asset_file(
        files[least_recent(files)[k] as int].name,
    ) by {
        assert(0 <= order[k] < assets.len());
        assert(least_recent(files)[k] == assets[order[k]]);
        assert(assets_only()(files[assets[order[k]] as int]));
    }
}

impl LimitRun {
    /// Whether the run is one over these files.
    pub open spec fn valid(self, files: Seq<CacheFileView>) -> bool {
        &&& 0 <= self@.next <= self@.order.len()
        &&& self@.order == least_recent(files)
    }

    /// Begins to cut the cache, which holds `files`, to its limit.
    pub fn new(files: &Vec<CacheFile>, max_cache_size_bytes: u64) -> (r: LimitRun)
        requires
            total_size(
                file_views(files@),
                indices_where(file_views(files@), assets_only()),
            ) <= u64::MAX,
        ensures
            r@.order == least_recent(file_views(files@)),
            r@.next == 0,
            r@.total == total_size(
                file_views(files@),
                indices_where(file_views(files@), assets_only()),
            ),
            r@.limit == max_cache_size_bytes,
            r.valid(file_views(files@)),
    {
        let ghost views = file_views(files@);
        let ghost p = assets_only();
        let mut assets: Vec<usize> = Vec::new();
        let mut keys: Vec<SortKey> = Vec::new();
        let mut total: u64 = 0;
        let mut i: usize = 0;
        assert(indices_where(views.take(0), p) =~= Seq::empty());
        while i < files.len()
            invariant
                i <= files@.len(),
                views == file_views(files@),
                p == assets_only(),
                assets@ == indices_where(views.take(i as int), p),
                forall|k: int| 0 <= k < assets@.len() ==> (#[trigger] assets@[k]) < i,
                keys@ == use_keys(views, assets@),
                total == total_size(views, assets@),
                total_size(views, indices_where(views, p)) <= u64::MAX,
            decreases files@.len() - i,
        {
            proof {
                assert(views.take(i + 1).drop_last() =~= views.take(i as int));
                assert(views[i as int] == files@[i as int]@);
            }
            if is_bin(files[i].name.as_str()) {
                let ghost before = assets@;
                proof {
                    lemma_total_grows(views, p, i + 1);
                    assert(indices_where(views.take(i + 1), p) == before.push(i));
                    assert(before.push(i).drop_last() =~= before);
                }
                total = total + files[i].size;
                keys.push(
                    (match files[i].modified {
                        Some(m) => m,
                        None => 0i64,
                    }, 0i64, 0i64),
                );
                assets.push(i);
                assert(keys@ =~= use_keys(views, assets@));
            }
            i = i + 1;
        }
        proof {
            assert(views.take(i as int) =~= views);
        }
        let order: Vec<usize> = stable_sort(assets, &keys);
        LimitRun { order, next: 0, total, limit: max_cache_size_bytes }
    }

    /// The file that is deleted next, if any.
    pub fn next_victim(&mut self, files: &Vec<CacheFile>, protected: &Vec<String>) -> (r: Option<
        usize,
    >)
        requires
            old(self).valid(file_views(files@)),
        ensures
            final(self).valid(file_views(files@)),
            ({
                let found = victim_from(
                    old(self)@,
                    file_views(files@),
                    texts(protected@),
                    old(self)@.next,
                );
                match r {
                    Some(i) => found matches Some(k) && i == old(self)@.order[k] && i < files@.len()
                        && final(self)@ == (LimitView { next: k, ..old(self)@ }),
                    None => found is None && final(self)@.total == old(self)@.total
                        && final(self)@.limit == old(self)@.limit && final(self)@.order
                        == old(self)@.order,
                }
            }),
    {
        let ghost views = file_views(files@);
        let ghost start = self@;
        let count: usize = files.len();
        proof {
            lemma_order(views);
        }
        while self.total > self.limit && self.next < self.order.len()
            invariant
                views == file_views(files@),
                count == files@.len(),
                start == old(self)@,
                self.valid(views),
                self@.order == start.order,
                self@.total == start.total,
                self@.limit == start.limit,
                forall|k: int|
                    0 <= k < self@.order.len() ==> (#[trigger] self@.order[k]) < count && asset_file(
                        views[self@.order[k] as int].name,
                    ),
                victim_from(start, views, texts(protected@), start.next) == victim_from(
                    start,
                    views,
                    texts(protected@),
                    self@.next,
                ),
            decreases self.order@.len() - self.next,
        {
            let index: usize = self.order[self.next];
            assert(views[index as int] == files@[index as int]@);
            assert(self@.order[self.next as int] == index);
            let key: String = cache_key_of(files[index].name.as_str());
            if !contains_text(protected, key.as_str()) {
                assert(self@ =~= (LimitView { next: self@.next, ..start }));
                return Some(index);
            }
            self.next = self.next + 1;
        }
        None
    }

    /// Tells whether the file that was to be deleted next is.
    pub fn report(&mut self, files: &Vec<CacheFile>, deleted: bool)
        requires
            old(self).valid(file_views(files@)),
            old(self)@.next < old(self)@.order.len(),
        ensures
            final(self).valid(file_views(files@)),
            final(self)@ == (LimitView {
                next: old(self)@.next + 1,
                total: if !deleted {
                    old(self)@.total
                } else if old(self)@.total >= file_views(files@)[old(self)@.order[old(
                    self,
                )@.next] as int].size {
                    (old(self)@.total - file_views(files@)[old(self)@.order[old(
                        self,
                    )@.next] as int].size) as u64
                } else {
                    0
                },
                ..old(self)@
            }),
    {
        let count: usize = files.len();
        let places: usize = self.order.len();
        proof {
            assert(self.next < places);
            lemma_order(file_views(files@));
            assert(self@.order[self.next as int] < count);
        }
        let index: usize = self.order[self.next];
        if deleted {
            let size: u64 = files[index].size;
            self.total = if self.total >= size {
                self.total - size
            } else {
                0
            };
        }
        self.next = self.next + 1;
    }

    /// The bytes that are left.
    pub fn remaining_bytes(&self) -> (r: u64)
        ensures
            r == self@.total,
    {
        self.total
    }
}

proof fn lemma_total_grows(files: Seq<CacheFileView>, p: spec_fn(CacheFileView) -> bool, n: int)
    requires
        0 <= n <= files.len() <= usize::MAX,
    ensures
        total_size(files, indices_where(files.take(n), p)) <= total_size(
            files,
            indices_where(files, p),
        ),
    decreases files.len() - n,
{
    if n == files.len() {
        assert(files.take(n) =~= files);
    } else {
        lemma_total_grows(files, p, n + 1);
        assert(files.take(n + 1).drop_last() =~= files.take(n));
        let before = indices_where(files.take(n), p);
        if p(files[n]) {
            assert(before.push(n as usize).drop_last() =~= before);
        }
    }
}

proof fn lemma_victim(
    state: LimitView,
    files: Seq<CacheFileView>,
    protected: Seq<Seq<char>>,
    next: int,
)
    requires
        0 <= next,
    ensures
        victim_from(state, files, protected, next) matches Some(k) ==> {
            &&& next <= k < state.order.len()
            &&& state.total > state.limit
            &&& !protected.contains(key_of_file(files[state.order[k] as int].name))
            &&& forall|j: int|
                next <= j < k ==> protected.contains(
                    key_of_file(files[#[trigger] state.order[j] as int].name),
                )
        },
        victim_from(state, files, protected, next) is None && state.total > state.limit
            ==> forall|j: int|
            next <= j < state.order.len() ==> protected.contains(
                key_of_file(files[#[trigger] state.order[j] as int].name),
            ),
    decreases state.order.len() - next,
{
    if state.total > state.limit && next < state.order.len() && protected.contains(
        key_of_file(files[state.order[next] as int].name),
    ) {
        lemma_victim(state, files, protected, next + 1);
    }
}

/// Cleaning never deletes an asset that a scene needs soon, neither because it is old nor to make
/// room. To make room it deletes only while the cache is above its limit, and passes over nothing
/// but what is protected.
pub proof fn protected_assets_stay(
    state: LimitView,
    files: Seq<CacheFileView>,
    protected: Seq<Seq<char>>,
    now: int,
    k: int,
)
    requires
        files.len() <= usize::MAX,
        0 <= state.next,
    ensures
        0 <= k < indices_where(files, expired_at(protected, now)).len() ==> !protected.contains(
            key_of_file(files[indices_where(files, expired_at(protected, now))[k] as int].name),
        ),
        victim_from(state, files, protected, state.next) matches Some(v) ==> {
            &&& state.total > state.limit
            &&& !protected.contains(key_of_file(files[state.order[v] as int].name))
            &&& forall|j: int|
                state.next <= j < v ==> protected.contains(
                    key_of_file(files[#[trigger] state.order[j] as int].name),
                )
        },
{
    lemma_indices(files, expired_at(protected, now));
    lemma_victim(state, files, protected, state.next);
    if 0 <= k < indices_where(files, expired_at(protected, now)).len() {
        let i = indices_where(files, expired_at(protected, now))[k];
        assert(expired_at(protected, now)(files[i as int]));
    }
}

/// Cutting the cache ends only when it is within its limit or nothing but protected assets is left
/// to look at.
pub proof fn cutting_ends_within_the_limit(
    state: LimitView,
    files: Seq<CacheFileView>,
    protected: Seq<Seq<char>>,
)
    requires
        0 <= state.next,
        victim_from(state, files, protected, state.next) is None,
    ensures
        state.total <= state.limit || forall|j: int|
            state.next <= j < state.order.len() ==> protected.contains(
                key_of_file(files[#[trigger] state.order[j] as int].name),
            ),
{
    lemma_victim(state, files, protected, state.next);
}

/// Assets are deleted in order of when they were last used.
pub proof fn least_recently_used_go_first(files: Seq<CacheFileView>, a: int, b: int)
    requires
        files.len() <= usize::MAX,
        0 <= a < b < least_recent(files).len(),
    ensures
        ({
            let x = files[least_recent(files)[a] as int].modified;
            let y = files[least_recent(files)[b] as int].modified;
            (if x is Some {
                x->0
            } else {
                0
            }) <= (if y is Some {
                y->0
            } else {
                0
            })
        }),
{
    let assets = indices_where(files, assets_only());
    let keys = use_keys(files, assets);
    stable_order_is_stable(keys);
    let order = stable_order(keys);
    assert(precedes(keys, order[a], order[b]));
    assert(0 <= order[a] < assets.len() && 0 <= order[b] < assets.len());
    assert(least_recent(files)[a] == assets[order[a]]);
    assert(least_recent(files)[b] == assets[order[b]]);
}

/// Adds a deleted file to what a cleaning did.
pub fn count_deleted(result: CacheCleanupResult, size: u64) -> (r: CacheCleanupResult)
    requires
        result.deleted_files < usize::MAX,
        result.deleted_bytes + size <= u64::MAX,
    ensures
        r == (CacheCleanupResult {
            deleted_files: (result.deleted_files + 1) as usize,
            deleted_bytes: (result.deleted_bytes + size) as u64,
            ..result
        }),
{
    CacheCleanupResult {
        deleted_files: result.deleted_files + 1,
        deleted_bytes: result.deleted_bytes + size,
        remaining_bytes: result.remaining_bytes,
    }
}

proof fn lemma_indices_hold(files: Seq<CacheFileView>, p: spec_fn(CacheFileView) -> bool, i: int)
    requires
        files.len() <= usize::MAX,
        0 <= i < files.len(),
        p(files[i]),
    ensures
        indices_where(files, p).contains(i as usize),
    decreases files.len(),
{
    let shorter = files.drop_last();
    let before = indices_where(shorter, p);
    let out = indices_where(files, p);
    if i < shorter.len() {
        assert(shorter[i] == files[i]);
        lemma_indices_hold(shorter, p, i);
        let k = choose|k: int| 0 <= k < before.len() && before[k] == i;
        assert(out[k] == i);
    } else {
        assert(out[before.len() as int] == i);
    }
}

/// Downloads that were left unfinished go when they were not touched for more than thirty minutes:
/// those whose names end in `.part`, and no other file.
pub proof fn unfinished_downloads_go_after_half_an_hour(
    files: Seq<CacheFileView>,
    now: int,
    i: int,
)
    requires
        files.len() <= usize::MAX,
        0 <= i < files.len(),
    ensures
        indices_where(files, stale_parts_at(now)).contains(i as usize) <==> has_suffix(
            files[i].name,
            ".part"@,
        ) && (files[i].modified matches Some(m) && now - m > 1_800_000),
{
    let p = stale_parts_at(now);
    lemma_indices(files, p);
    if p(files[i]) {
        lemma_indices_hold(files, p, i);
    }
    let out = indices_where(files, p);
    if out.contains(i as usize) {
        let k = choose|k: int| 0 <= k < out.len() && out[k] == i as usize;
        assert(p(files[out[k] as int]));
    }
}

/// Assets that no scene needs soon go when they were not used for more than five minutes, and no
/// other file.
pub proof fn unneeded_assets_go_after_five_minutes(
    files: Seq<CacheFileView>,
    protected: Seq<Seq<char>>,
    now: int,
    i: int,
)
    requires
        files.len() <= usize::MAX,
        0 <= i < files.len(),
    ensures
        indices_where(files, expired_at(protected, now)).contains(i as usize) <==> asset_file(
            files[i].name,
        ) && !protected.contains(key_of_file(files[i].name)) && (files[i].modified matches Some(m)
            && now - m > 300_000),
{
    let p = expired_at(protected, now);
    lemma_indices(files, p);
    if p(files[i]) {
        lemma_indices_hold(files, p, i);
    }
    let out = indices_where(files, p);
    if out.contains(i as usize) {
        let k = choose|k: int| 0 <= k < out.len() && out[k] == i as usize;
        assert(p(files[out[k] as int]));
    }
}

/// A file is an asset exactly where its name is something and `.bin`.
pub proof fn assets_are_told_by_their_ending(name: Seq<char>)
    ensures
        asset_file(name) <==> name.len() > 4 && name.subrange(name.len() - 4, name.len() as int)
            == ".bin"@,
{
    reveal_strlit(".bin");
}

/// Cutting the cache looks at every asset in it, and at nothing else.
pub proof fn every_asset_may_be_cut(files: Seq<CacheFileView>, i: int)
    requires
        files.len() <= usize::MAX,
        0 <= i < files.len(),
    ensures
        least_recent(files).contains(i as usize) <==> asset_file(files[i].name),
{
    let assets = indices_where(files, assets_only());
    let keys = use_keys(files, assets);
    let order = stable_order(keys);
    let out = least_recent(files);
    lemma_order(files);
    stable_order_is_stable(keys);
    if asset_file(files[i].name) {
        assert(assets_only()(files[i]));
        lemma_indices_hold(files, assets_only(), i);
        let k = choose|k: int| 0 <= k < assets.len() && assets[k] == i as usize;
        assert(order.contains(k));
        let j = choose|j: int| 0 <= j < order.len() && order[j] == k;
        assert(out[j] == i as usize);
    }
    if out.contains(i as usize) {
        let j = choose|j: int| 0 <= j < out.len() && out[j] == i as usize;
        assert(asset_file(files[out[j] as int].name));
    }
}

/// The size of some files is the sum of the sizes of each.
pub proof fn sizes_add_up(files: Seq<CacheFileView>, indices: Seq<usize>, i: usize)
    ensures
        total_size(files, Seq::empty()) == 0,
        total_size(files, indices.push(i)) == total_size(files, indices) + files[i as int].size,
{
    assert(indices.push(i).drop_last() =~= indices);
}

/// While the cache is above its limit, the first asset in the order of use that no scene needs soon is
/// deleted; within the limit, none is.
pub proof fn the_least_recent_unneeded_asset_goes(
    state: LimitView,
    files: Seq<CacheFileView>,
    protected: Seq<Seq<char>>,
    k: int,
)
    requires
        0 <= state.next <= k < state.order.len(),
        !protected.contains(key_of_file(files[state.order[k] as int].name)),
        forall|j: int|
            state.next <= j < k ==> protected.contains(
                key_of_file(files[#[trigger] state.order[j] as int].name),
            ),
    ensures
        victim_from(state, files, protected, state.next) == if state.total > state.limit {
            Some(k)
        } else {
            None
        },
{
    lemma_victim(state, files, protected, state.next);
    if state.total > state.limit {
        match victim_from(state, files, protected, state.next) {
            Some(v) => {
                if k < v {
                    assert(protected.contains(
                        key_of_file(files[state.order[k] as int].name),
                    ));
                } else if v < k {
                    assert(protected.contains(
                        key_of_file(files[state.order[v] as int].name),
                    ));
                }
            },
            None => {
                assert(protected.contains(key_of_file(files[state.order[k] as int].name)));
            },
        }
    }
}

/// Files are modelled one by one: by their name, their size and when they were last used.
pub proof fn file_models_are_faithful(files: Seq<CacheFile>)
    ensures
        file_views(files).len() == files.len(),
        forall|i: int|
            0 <= i < files.len() ==> {
                let f = #[trigger] file_views(files)[i];
                &&& f.name == files[i].name@
                &&& f.size == files[i].size
                &&& f.modified == files[i].modified
            },
{
}
} // verus!
