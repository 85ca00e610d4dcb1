//! Where assets are kept, and when they are ready.

use vstd::prelude::*;
use vstd::string::*;

use super::fsutil::{checksum_form, normalize_checksum};
use crate::cms::client::{bearer, bearer_header, request_token, token_of};
use crate::settings::{AppSettings, DataPath, DataPathView};
use crate::text::{
    before_first, before_first_is_before, ends_with, has_prefix, has_suffix, i64_text, opt_text,
    same_text, signed_decimal, slice_text, starts_with, text_before, to_chars, trim_leading,
    trim_trailing, without_leading, without_trailing,
};
use crate::timeline::models::{asset_views, AssetRefView};
use crate::timeline::AssetRef;

verus! {

/// The host of the content management system: its address without the name of its interface.
pub open spec fn origin_of(base_url: Seq<char>) -> Seq<char> {
    let base = without_trailing(base_url, '/');
    if has_suffix(base, "/api"@) {
        base.subrange(0, base.len() - "/api"@.len())
    } else {
        base
    }
}

/// The host of the content management system: its address without the name of its interface.
pub fn cms_origin(base_url: &str) -> (r: String)
    ensures
        r@ == origin_of(base_url@),
{
    let base: String = trim_trailing(base_url, '/');
    if ends_with(base.as_str(), "/api") {
        let chars: Vec<char> = to_chars(base.as_str());
        let suffix: Vec<char> = to_chars("/api");
        slice_text(&chars, 0, chars.len() - suffix.len())
    } else {
        base
    }
}

/// Where a download is found: an absolute URL as it is, an absolute path at the host, and a
/// relative path below the address.
pub open spec fn resolved_url(base_url: Seq<char>, download_url: Seq<char>) -> Seq<char> {
    if has_prefix(download_url, "http://"@) || has_prefix(download_url, "https://"@) {
        download_url
    } else if has_prefix(download_url, "/"@) {
        origin_of(base_url) + download_url
    } else {
        without_trailing(base_url, '/') + "/"@ + without_leading(download_url, '/')
    }
}

/// Where a download is found.
pub fn resolve_url(base_url: &str, download_url: &str) -> (r: String)
    ensures
        r@ == resolved_url(base_url@, download_url@),
{
    if starts_with(download_url, "http://") || starts_with(download_url, "https://") {
        return download_url.to_owned();
    }
    if starts_with(download_url, "/") {
        let mut url: String = cms_origin(base_url);
        url.append(download_url);
        return url;
    }
    let mut url: String = trim_trailing(base_url, '/');
    url.append("/");
    url.append(trim_leading(download_url, '/').as_str());
    url
}

/// Where an asset comes from: the ids of auctioned files are negative.
pub fn asset_source(asset: &AssetRef) -> (r: &'static str)
    ensures
        r@ == (if asset@.file_id < 0 {
            "rtb"@
        } else {
            "cms"@
        }),
{
    if asset.file_id < 0 {
        "rtb"
    } else {
        "cms"
    }
}

/// A URL without its query, for logs.
pub fn url_without_query(url: &str) -> (r: String)
    ensures
        r@ == before_first(url@, '?'),
{
    text_before(url, '?')
}

/// What is logged of a URL holds nothing of its query.
pub proof fn queries_are_not_logged(url: Seq<char>)
    ensures
        !before_first(url, '?').contains('?'),
        has_prefix(url, before_first(url, '?')),
{
    before_first_is_before(url, '?');
}

/// What has to be looked at to tell whether an asset is ready.
#[derive(Debug, Clone, Copy, PartialEq, Eq, Structural)]
pub enum ReadyCheck {
    Ready,
    NotReady,
    /// The digest of the file decides.
    CompareDigest,
    /// The mark of a complete download decides.
    CheckMarker,
}

/// A size in the metadata of an asset as a number of bytes; a negative one is none that a file has.
pub open spec fn size_in_bytes(size: i64) -> int {
    if size >= 0 {
        size as int
    } else {
        size + 0x1_0000_0000_0000_0000
    }
}

fn size_matches(size: i64, len: u64) -> (r: bool)
    ensures
        r == (len == size_in_bytes(size)),
{
    if size >= 0 {
        len == size as u64
    } else {
        len as i128 == size as i128 + 0x1_0000_0000_0000_0000i128
    }
}

/// What tells whether an asset is ready whose file has this many bytes, if it is there: its size
/// where that is known, else its checksum, else the mark of a complete download.
pub open spec fn ready_check(asset: AssetRefView, len: Option<u64>) -> ReadyCheck {
    match len {
        None => ReadyCheck::NotReady,
        Some(n) => if n == 0 {
            ReadyCheck::NotReady
        } else {
            match asset.size_bytes {
                Some(size) => if n == size_in_bytes(size) {
                    ReadyCheck::Ready
                } else {
                    ReadyCheck::NotReady
                },
                None => if asset.checksum is Some {
                    ReadyCheck::CompareDigest
                } else {
                    ReadyCheck::CheckMarker
                },
            }
        },
    }
}

/// Whether an asset is ready: its file has bytes, and as many as it should where that is known; else
/// the digest that it should, where that is known; else the mark of a complete download.
pub open spec fn asset_ready(
    asset: AssetRefView,
    len: Option<u64>,
    digest: Option<Seq<char>>,
    marked: bool,
) -> bool {
    match ready_check(asset, len) {
        ReadyCheck::Ready => true,
        ReadyCheck::NotReady => false,
        ReadyCheck::CompareDigest => digest == Some(checksum_form(asset.checksum->0)),
        ReadyCheck::CheckMarker => marked,
    }
}

/// Keeps assets.
#[derive(Debug)]
pub struct AssetStore {
    asset_dir: DataPath,
    cms_base_url: String,
    auth_token: Option<String>,
    max_cache_size_bytes: u64,
}

/// Model of an [`AssetStore`].
#[verifier::ext_equal]
pub struct AssetStoreView {
    pub asset_dir: DataPathView,
    pub cms_base_url: Seq<char>,
    pub auth_token: Option<Seq<char>>,
    pub max_cache_size_bytes: u64,
}

impl View for AssetStore {
    type V = AssetStoreView;

    closed spec fn view(&self) -> AssetStoreView {
        AssetStoreView {
            asset_dir: self.asset_dir@,
            cms_base_url: self.cms_base_url@,
            auth_token: opt_text(self.auth_token),
            max_cache_size_bytes: self.max_cache_size_bytes,
        }
    }
}

/// Copies a path.
pub fn copy_path(path: &DataPath) -> (r: DataPath)
    ensures
        r@ == path@,
{
    let mut segments: Vec<String> = Vec::new();
    let mut i: usize = 0;
    while i < path.segments.len()
        invariant
            i <= path.segments@.len(),
            segments@.len() == i,
            forall|j: int| 0 <= j < i ==> (#[trigger] segments@[j])@ == path.segments@[j]@,
        decreases path.segments@.len() - i,
    {
        segments.push(path.segments[i].clone());
        i = i + 1;
    }
    let r: DataPath = DataPath { root: path.root.clone(), segments };
    assert(r@.segments =~= path@.segments);
    r
}

impl AssetStore {
    /// Keeps assets in `asset_dir`, with these settings.
    pub fn new(settings: &AppSettings, asset_dir: DataPath) -> (r: AssetStore)
        ensures
            r@.asset_dir == asset_dir@,
            r@.cms_base_url == without_trailing(settings@.cms_base_url, '/'),
            r@.auth_token == token_of(settings@.auth_token),
            r@.max_cache_size_bytes == ({
                let bytes = settings.max_cache_size_mb * 1024 * 1024;
                if bytes > u64::MAX {
                    u64::MAX as int
                } else if bytes < 1024 {
                    1024
                } else {
                    bytes
                }
            }),
    {
        AssetStore {
            asset_dir,
            cms_base_url: trim_trailing(settings.cms_base_url.as_str(), '/'),
            auth_token: request_token(settings.auth_token.as_str()),
            max_cache_size_bytes: settings.max_cache_size_bytes(),
        }
    }

    /// Where assets are kept.
    pub fn asset_dir(&self) -> (r: &DataPath)
        ensures
            r@ == self@.asset_dir,
    {
        &self.asset_dir
    }

    /// The limit of the cache in bytes.
    pub fn max_cache_size_bytes(&self) -> (r: u64)
        ensures
            r == self@.max_cache_size_bytes,
    {
        self.max_cache_size_bytes
    }

    fn path_of(&self, asset: &AssetRef, ending: &str) -> (r: DataPath)
        ensures
            r@ == self@.asset_dir.with(asset@.key() + ending@),
    {
        let mut name: String = asset.cache_key();
        name.append(ending);
        copy_path(&self.asset_dir).join(name.as_str())
    }

    /// The file of an asset.
    pub fn local_path(&self, asset: &AssetRef) -> (r: DataPath)
        ensures
            r@ == self@.asset_dir.with(asset@.key() + ".bin"@),
    {
        self.path_of(asset, ".bin")
    }

    /// The mark of a complete download.
    pub fn marker_path(&self, asset: &AssetRef) -> (r: DataPath)
        ensures
            r@ == self@.asset_dir.with(asset@.key() + ".complete"@),
    {
        self.path_of(asset, ".complete")
    }

    /// The file of an asset while it is downloaded.
    pub fn part_path(&self, asset: &AssetRef) -> (r: DataPath)
        ensures
            r@ == self@.asset_dir.with(asset@.key() + ".part"@),
    {
        self.path_of(asset, ".part")
    }

    /// Where an asset is downloaded from.
    pub fn download_url(&self, asset: &AssetRef) -> (r: String)
        ensures
            r@ == resolved_url(self@.cms_base_url, asset@.download_url),
    {
        resolve_url(self.cms_base_url.as_str(), asset.download_url.as_str())
    }

    /// The value of the header that authorises downloads.
    pub fn authorization(&self) -> (r: Option<String>)
        ensures
            opt_text(r) == bearer(self@.auth_token),
    {
        bearer_header(&self.auth_token)
    }
}

/// What tells whether an asset is ready whose file has this many bytes, if it is there.
pub fn check_ready(asset: &AssetRef, len: Option<u64>) -> (r: ReadyCheck)
    ensures
        r == ready_check(asset@, len),
{
    match len {
        None => ReadyCheck::NotReady,
        Some(n) => {
            if n == 0 {
                return ReadyCheck::NotReady;
            }
            match asset.size_bytes {
                Some(size) => if size_matches(size, n) {
                    ReadyCheck::Ready
                } else {
                    ReadyCheck::NotReady
                },
                None => if asset.checksum.is_some() {
                    ReadyCheck::CompareDigest
                } else {
                    ReadyCheck::CheckMarker
                },
            }
        },
    }
}

/// Whether an asset is ready, from what is on disk: the length of its file, the digest of the file,
/// and whether the mark of a complete download is there.
pub fn is_ready(asset: &AssetRef, len: Option<u64>, digest: Option<String>, marked: bool) -> (r: bool)
    ensures
        r == asset_ready(asset@, len, opt_text(digest), marked),
{
    match check_ready(asset, len) {
        ReadyCheck::Ready => true,
        ReadyCheck::NotReady => false,
        ReadyCheck::CheckMarker => marked,
        ReadyCheck::CompareDigest => match (&asset.checksum, &digest) {
            (Some(checksum), Some(actual)) => {
                let expected: String = normalize_checksum(checksum.as_str());
                same_text(expected.as_str(), actual.as_str())
            },
            _ => false,
        },
    }
}

/// Most assets that a report of missing ones names.
pub const REPORTED_MISSING: usize = 5;

/// How an asset is named in a report.
pub open spec fn missing_name(asset: AssetRefView) -> Seq<char> {
    signed_decimal(asset.file_id as int) + "/"@ + asset.key()
}

/// The assets that are not ready, each once, in order.
pub open spec fn missing_of(assets: Seq<AssetRefView>, ready: Seq<bool>) -> Seq<AssetRefView>
    decreases assets.len(),
{
    if assets.len() == 0 {
        Seq::empty()
    } else {
        let before = missing_of(assets.drop_last(), ready);
        if ready[assets.len() - 1] || before.contains(assets.last()) {
            before
        } else {
            before.push(assets.last())
        }
    }
}

/// The names of assets, with commas between them.
pub open spec fn names_of(assets: Seq<AssetRefView>) -> Seq<char>
    decreases assets.len(),
{
    if assets.len() == 0 {
        Seq::empty()
    } else if assets.len() == 1 {
        missing_name(assets[0])
    } else {
        names_of(assets.drop_last()) + ", "@ + missing_name(assets.last())
    }
}

fn same_option_text(a: &Option<String>, b: &Option<String>) -> (r: bool)
    ensures
        r == (opt_text(*a) == opt_text(*b)),
{
    match (a, b) {
        (Some(x), Some(y)) => same_text(x.as_str(), y.as_str()),
        (None, None) => true,
        _ => false,
    }
}

/// Whether two assets are the same in every respect.
pub fn same_asset(a: &AssetRef, b: &AssetRef) -> (r: bool)
    ensures
        r == (a@ == b@),
{
    let sizes: bool = match (a.size_bytes, b.size_bytes) {
        (Some(x), Some(y)) => x == y,
        (None, None) => true,
        _ => false,
    };
    a.file_id == b.file_id && same_text(a.revision.as_str(), b.revision.as_str()) && same_text(
        a.download_url.as_str(),
        b.download_url.as_str(),
    ) && same_option_text(&a.mime_type, &b.mime_type) && sizes && same_option_text(
        &a.checksum,
        &b.checksum,
    )
}

fn holds_asset(assets: &Vec<AssetRef>, asset: &AssetRef) -> (r: bool)
    ensures
        r == asset_views(assets@).contains(asset@),
{
    let ghost views = asset_views(assets@);
    let mut i: usize = 0;
    while i < assets.len()
        invariant
            i <= assets@.len(),
            views == asset_views(assets@),
            forall|j: int| 0 <= j < i ==> #[trigger] views[j] != asset@,
        decreases assets@.len() - i,
    {
        assert(views[i as int] == assets@[i as int]@);
        if same_asset(&assets[i], asset) {
            return true;
        }
        i = i + 1;
    }
    false
}

fn missing_assets(assets: &Vec<AssetRef>, ready: &Vec<bool>) -> (r: Vec<AssetRef>)
    requires
        assets@.len() == ready@.len(),
    ensures
        asset_views(r@) == missing_of(asset_views(assets@), ready@),
{
    let ghost views = asset_views(assets@);
    let mut out: Vec<AssetRef> = Vec::new();
    let mut i: usize = 0;
    assert(asset_views(out@) =~= missing_of(views.take(0), ready@));
    while i < assets.len()
        invariant
            i <= assets@.len(),
            assets@.len() == ready@.len(),
            views == asset_views(assets@),
            asset_views(out@) == missing_of(views.take(i as int), ready@),
        decreases assets@.len() - i,
    {
        let ghost before = asset_views(out@);
        proof {
            assert(views.take(i + 1).drop_last() =~= views.take(i as int));
            assert(views[i as int] == assets@[i as int]@);
        }
        if !ready[i] && !holds_asset(&out, &assets[i]) {
            out.push(assets[i].clone());
            assert(asset_views(out@) =~= before.push(views[i as int]));
        }
        i = i + 1;
    }
    assert(views.take(i as int) =~= views);
    out
}

/// Whether all assets are ready; else a report that names the first of those that are not.
/// `ready` says of each asset whether it is.
pub fn verify_all_ready(assets: &Vec<AssetRef>, ready: &Vec<bool>) -> (r: Result<(), String>)
    requires
        assets@.len() == ready@.len(),
    ensures
        ({
            let missing = missing_of(asset_views(assets@), ready@);
            match r {
                Ok(_) => missing.len() == 0,
                Err(text) => missing.len() > 0 && text@ == "assets not ready: "@ + names_of(
                    if missing.len() > REPORTED_MISSING {
                        missing.take(REPORTED_MISSING as int)
                    } else {
                        missing
                    },
                ),
            }
        }),
{
    let missing: Vec<AssetRef> = missing_assets(assets, ready);
    let ghost views = asset_views(missing@);
    if missing.len() == 0 {
        return Ok(());
    }
    let n: usize = if missing.len() > REPORTED_MISSING {
        REPORTED_MISSING
    } else {
        missing.len()
    };
    let mut names: String = String::new();
    let mut i: usize = 0;
    assert(names_of(views.take(0)) =~= Seq::empty());
    while i < n
        invariant
            i <= n <= missing@.len(),
            views == asset_views(missing@),
            names@ == names_of(views.take(i as int)),
        decreases n - i,
    {
        proof {
            assert(views.take(i + 1).drop_last() =~= views.take(i as int));
            assert(views[i as int] == missing@[i as int]@);
        }
        if i > 0 {
            names.append(", ");
        }
        names.append(i64_text(missing[i].file_id).as_str());
        names.append("/");
        names.append(missing[i].cache_key().as_str());
        i = i + 1;
        assert(names@ =~= names_of(views.take(i as int)));
    }
    proof {
        if missing.len() <= REPORTED_MISSING {
            assert(views.take(n as int) =~= views);
        }
    }
    let mut text: String = "assets not ready: ".to_owned();
    text.append(names.as_str());
    Err(text)
}

proof fn lemma_missing(assets: Seq<AssetRefView>, ready: Seq<bool>)
    requires
        assets.len() == ready.len(),
    ensures
        missing_of(assets, ready).len() == 0 <==> forall|i: int|
            0 <= i < assets.len() ==> #[trigger] ready[i],
    decreases assets.len(),
{
    if assets.len() > 0 {
        let n = assets.len() - 1;
        let shorter = ready.drop_last();
        lemma_missing_prefix(assets.drop_last(), ready, shorter);
        lemma_missing(assets.drop_last(), shorter);
        let before = missing_of(assets.drop_last(), ready);
        assert forall|i: int| 0 <= i < n implies shorter[i] == #[trigger] ready[i] by {}
        if before.len() == 0 && ready[n] {
            assert forall|i: int| 0 <= i < assets.len() implies #[trigger] ready[i] by {
                if i < n {
                    assert(shorter[i]);
                }
            }
        }
        if forall|i: int| 0 <= i < assets.len() ==> #[trigger] ready[i] {
            assert(ready[n]);
            assert forall|i: int| 0 <= i < shorter.len() implies #[trigger] shorter[i] by {
                assert(ready[i]);
            }
        }
    }
}

proof fn lemma_missing_prefix(assets: Seq<AssetRefView>, a: Seq<bool>, b: Seq<bool>)
    requires
        assets.len() <= a.len(),
        assets.len() <= b.len(),
        forall|i: int| 0 <= i < assets.len() ==> a[i] == #[trigger] b[i],
    ensures
        missing_of(assets, a) == missing_of(assets, b),
    decreases assets.len(),
{
    if assets.len() > 0 {
        lemma_missing_prefix(assets.drop_last(), a, b);
        assert(a[assets.len() - 1] == b[assets.len() - 1]);
    }
}

/// All assets are reported ready exactly where each of them is.
pub proof fn all_ready_means_each_ready(assets: Seq<AssetRefView>, ready: Seq<bool>)
    requires
        assets.len() == ready.len(),
    ensures
        missing_of(assets, ready).len() == 0 <==> forall|i: int|
            0 <= i < assets.len() ==> #[trigger] ready[i],
{
    lemma_missing(assets, ready);
}

/// Where a download is found. An absolute URL is where it says. An absolute path is at the host, with
/// the name of the interface taken off the address; a relative one is below the address. Slashes at
/// the end of the address make no difference.
pub proof fn downloads_are_found_at_the_host(host: Seq<char>, path: Seq<char>)
    requires
        host.len() > 0,
        host.last() != '/',
    ensures
        has_prefix(path, "http://"@) || has_prefix(path, "https://"@) ==> forall|base: Seq<char>|
            #[trigger] resolved_url(base, path) == path,
        path.len() > 0 && path[0] == '/' ==> {
            &&& resolved_url(host + "/api"@, path) == host + path
            &&& resolved_url(host + "/api/"@, path) == host + path
            &&& !has_suffix(host, "/api"@) ==> resolved_url(host, path) == host + path
        },
        path.len() > 0 && path[0] != '/' && !has_prefix(path, "http://"@) && !has_prefix(
            path,
            "https://"@,
        ) ==> {
            &&& resolved_url(host, path) == host + "/"@ + path
            &&& resolved_url(host + "/"@, path) == host + "/"@ + path
        },
{
    reveal_strlit("http://");
    reveal_strlit("https://");
    reveal_strlit("/api");
    reveal_strlit("/api/");
    reveal_strlit("/");
    let root = host + "/api"@;
    let slashed = host + "/api/"@;
    let ended = host + "/"@;
    assert(root.last() == 'i');
    assert(slashed.drop_last() =~= root);
    assert(ended.drop_last() =~= host);
    assert(without_trailing(root, '/') == root);
    assert(without_trailing(slashed, '/') == without_trailing(slashed.drop_last(), '/'));
    assert(without_trailing(host, '/') == host);
    assert(without_trailing(ended, '/') == without_trailing(ended.drop_last(), '/'));
    assert(root.subrange(root.len() - 4, root.len() as int) =~= "/api"@);
    assert(root.subrange(0, root.len() - 4) =~= host);
    if path.len() > 0 {
        if path[0] == '/' {
            assert(path.subrange(0, 1) =~= "/"@);
            if has_prefix(path, "http://"@) {
                assert(path.subrange(0, 7)[0] == 'h');
            }
            if has_prefix(path, "https://"@) {
                assert(path.subrange(0, 8)[0] == 'h');
            }
        } else {
            if has_prefix(path, "/"@) {
                assert(path.subrange(0, 1)[0] == '/');
            }
            assert(without_leading(path, '/') == path);
        }
    }
}

/// When an asset is ready. One whose file is not there or empty never is. Where its size is known,
/// exactly that many bytes make it ready; where only its checksum is known, exactly a file of that
/// digest; and else the mark of a complete download.
pub proof fn assets_are_ready_when_complete(
    asset: AssetRefView,
    len: Option<u64>,
    digest: Option<Seq<char>>,
    marked: bool,
)
    ensures
        len is None ==> !asset_ready(asset, len, digest, marked),
        len == Some(0u64) ==> !asset_ready(asset, len, digest, marked),
        len matches Some(n) ==> (n > 0 ==> {
            &&& asset.size_bytes matches Some(size) ==> (size >= 0 ==> (asset_ready(
                asset,
                len,
                digest,
                marked,
            ) <==> n == size))
            &&& asset.size_bytes is None ==> {
                &&& asset.checksum matches Some(sum) ==> (asset_ready(asset, len, digest, marked)
                    <==> digest == Some(checksum_form(sum)))
                &&& asset.checksum is None ==> (asset_ready(asset, len, digest, marked) <==> marked)
            }
        }),
{
}

/// What is reported as missing are the assets that are not ready, and no others.
pub proof fn missing_assets_are_those_not_ready(
    assets: Seq<AssetRefView>,
    ready: Seq<bool>,
    asset: AssetRefView,
)
    requires
        assets.len() <= ready.len(),
    ensures
        missing_of(assets, ready).contains(asset) <==> exists|i: int|
            0 <= i < assets.len() && #[trigger] assets[i] == asset && !ready[i],
    decreases assets.len(),
{
    if assets.len() > 0 {
        let shorter = assets.drop_last();
        let n = assets.len() - 1;
        let before = missing_of(shorter, ready);
        let out = missing_of(assets, ready);
        missing_assets_are_those_not_ready(shorter, ready, asset);
        if before.contains(asset) {
            let k = choose|k: int| 0 <= k < before.len() && before[k] == asset;
            assert(out[k] == asset);
            let i = choose|i: int|
                0 <= i < shorter.len() && #[trigger] shorter[i] == asset && !ready[i];
            assert(assets[i] == asset);
        }
        if out.contains(asset) && !before.contains(asset) {
            let k = choose|k: int| 0 <= k < out.len() && out[k] == asset;
            if k < before.len() {
                assert(before[k] == asset);
            }
            assert(assets[n] == asset && !ready[n]);
        }
        if exists|i: int| 0 <= i < assets.len() && #[trigger] assets[i] == asset && !ready[i] {
            let i = choose|i: int|
                0 <= i < assets.len() && #[trigger] assets[i] == asset && !ready[i];
            if i < n {
                assert(shorter[i] == asset);
            } else if !before.contains(asset) {
                assert(out[before.len() as int] == asset);
            }
        }
    }
}

/// Missing assets are named one after the other, each by its file and its key, with commas between
/// them. No more than five are named.
pub proof fn missing_assets_are_named_in_order(assets: Seq<AssetRefView>, next: AssetRefView)
    ensures
        REPORTED_MISSING == 5,
        names_of(seq![next]) == signed_decimal(next.file_id as int) + "/"@ + next.key(),
        assets.len() > 0 ==> names_of(assets.push(next)) == names_of(assets) + ", "@ + (
        signed_decimal(next.file_id as int) + "/"@ + next.key()),
{
    assert(assets.push(next).drop_last() =~= assets);
}
} // verus!
