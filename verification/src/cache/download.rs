//! Getting assets into the cache.

use vstd::prelude::*;
use vstd::string::*;

use super::store::size_in_bytes;
use crate::cms::client::status_ok;
use crate::text::{contains_text, i64_text, signed_decimal, texts, u64_text};
use crate::timeline::models::{asset_views, AssetRefView};
use crate::timeline::AssetRef;

verus! {

/// Where making assets ready stands. Each step is about the asset at an index.
#[derive(Debug, Clone, Copy, PartialEq, Eq, Structural)]
pub enum EnsurePhase {
    /// Is the asset ready?
    Check(usize),
    /// The asset is downloaded.
    Download(usize),
    /// Is the asset ready now?
    Verify(usize),
    /// The files of the asset are marked as used.
    Touch(usize),
    /// All assets are ready.
    Done,
    /// The download failed.
    DownloadFailed(usize),
    /// The asset is not ready though it was downloaded.
    VerifyFailed(usize),
    /// The files could not be marked.
    TouchFailed(usize),
}

/// Model of an [`EnsureRun`].
#[verifier::ext_equal]
pub struct EnsureView {
    pub assets: Seq<AssetRefView>,
    pub done: Seq<Seq<char>>,
    pub phase: EnsurePhase,
}

/// The first asset from `from` on that is not done.
pub open spec fn next_undone(assets: Seq<AssetRefView>, done: Seq<Seq<char>>, from: int) -> int
    decreases assets.len() - from,
{
    if from >= assets.len() {
        from
    } else if done.contains(assets[from].key()) {
        next_undone(assets, done, from + 1)
    } else {
        from
    }
}

/// The step about the first asset from `from` on that is not done.
pub open spec fn check_from(assets: Seq<AssetRefView>, done: Seq<Seq<char>>, from: int) -> EnsurePhase {
    let i = next_undone(assets, done, from);
    if i < assets.len() {
        EnsurePhase::Check(i as usize)
    } else {
        EnsurePhase::Done
    }
}

/// The course of making assets ready: an asset that is not ready is downloaded; every asset is
/// looked at before it counts as done; and one of the same name as one that is done is skipped.
pub open spec fn ensure_next(state: EnsureView, ok: bool) -> EnsureView {
    match state.phase {
        EnsurePhase::Check(i) => EnsureView {
            phase: if ok {
                EnsurePhase::Verify(i)
            } else {
                EnsurePhase::Download(i)
            },
            ..state
        },
        EnsurePhase::Download(i) => EnsureView {
            phase: if ok {
                EnsurePhase::Verify(i)
            } else {
                EnsurePhase::DownloadFailed(i)
            },
            ..state
        },
        EnsurePhase::Verify(i) => EnsureView {
            phase: if ok {
                EnsurePhase::Touch(i)
            } else {
                EnsurePhase::VerifyFailed(i)
            },
            ..state
        },
        EnsurePhase::Touch(i) => if ok {
            let done = state.done.push(state.assets[i as int].key());
            EnsureView { done, phase: check_from(state.assets, done, i + 1), ..state }
        } else {
            EnsureView { phase: EnsurePhase::TouchFailed(i), ..state }
        },
        _ => state,
    }
}

/// The asset that a step is about.
pub open spec fn asset_of(phase: EnsurePhase) -> Option<usize> {
    match phase {
        EnsurePhase::Check(i) => Some(i),
        EnsurePhase::Download(i) => Some(i),
        EnsurePhase::Verify(i) => Some(i),
        EnsurePhase::Touch(i) => Some(i),
        EnsurePhase::DownloadFailed(i) => Some(i),
        EnsurePhase::VerifyFailed(i) => Some(i),
        EnsurePhase::TouchFailed(i) => Some(i),
        EnsurePhase::Done => None,
    }
}

/// Whether every asset before the one that a step is about is done, and all are at the end.
pub open spec fn ensure_valid(state: EnsureView) -> bool {
    match asset_of(state.phase) {
        Some(i) => i < state.assets.len() && forall|j: int|
            0 <= j < i ==> state.done.contains((#[trigger] state.assets[j]).key()),
        None => forall|j: int|
            0 <= j < state.assets.len() ==> state.done.contains((#[trigger] state.assets[j]).key()),
    }
}

/// Makes assets ready.
#[derive(Debug)]
pub struct EnsureRun {
    assets: Vec<AssetRef>,
    done: Vec<String>,
    phase: EnsurePhase,
}

impl View for EnsureRun {
    type V = EnsureView;

    closed spec fn view(&self) -> EnsureView {
        EnsureView {
            assets: asset_views(self.assets@),
            done: texts(self.done@),
            phase: self.phase,
        }
    }
}

proof fn lemma_next_undone(assets: Seq<AssetRefView>, done: Seq<Seq<char>>, from: int)
    requires
        0 <= from <= assets.len(),
    ensures
        from <= next_undone(assets, done, from) <= assets.len(),
        forall|j: int|
            from <= j < next_undone(assets, done, from) ==> done.contains(
                (#[trigger] assets[j]).key(),
            ),
    decreases assets.len() - from,
{
    if from < assets.len() && done.contains(assets[from].key()) {
        lemma_next_undone(assets, done, from + 1);
    }
}

impl EnsureRun {
    fn check_phase(assets: &Vec<AssetRef>, done: &Vec<String>, from: usize) -> (r: EnsurePhase)
        requires
            from <= assets@.len(),
        ensures
            r == check_from(asset_views(assets@), texts(done@), from as int),
    {
        let ghost views = asset_views(assets@);
        let mut i: usize = from;
        while i < assets.len() && contains_text(done, assets[i].cache_key().as_str())
            invariant
                from <= i <= assets@.len(),
                views == asset_views(assets@),
                next_undone(views, texts(done@), from as int) == next_undone(
                    views,
                    texts(done@),
                    i as int,
                ),
            decreases assets@.len() - i,
        {
            assert(views[i as int] == assets@[i as int]@);
            i = i + 1;
        }
        if i < assets.len() {
            assert(views[i as int] == assets@[i as int]@);
            EnsurePhase::Check(i)
        } else {
            EnsurePhase::Done
        }
    }

    /// Begins to make `assets` ready.
    pub fn new(assets: Vec<AssetRef>) -> (r: EnsureRun)
        ensures
            r@.assets == asset_views(assets@),
            r@.done == Seq::<Seq<char>>::empty(),
            r@.phase == check_from(r@.assets, r@.done, 0),
            ensure_valid(r@),
    {
        let done: Vec<String> = Vec::new();
        let phase: EnsurePhase = Self::check_phase(&assets, &done, 0);
        let run: EnsureRun = EnsureRun { assets, done, phase };
        proof {
            assert(run@.done =~= Seq::empty());
            lemma_next_undone(run@.assets, run@.done, 0);
        }
        run
    }

    /// The step that has to be done.
    pub fn phase(&self) -> (r: EnsurePhase)
        ensures
            r == self@.phase,
    {
        self.phase
    }

    /// The asset at an index.
    pub fn asset(&self, i: usize) -> (r: &AssetRef)
        requires
            i < self@.assets.len(),
        ensures
            r@ == self@.assets[i as int],
    {
        &self.assets[i]
    }

    /// The names of the assets that are done.
    pub fn done(&self) -> (r: &Vec<String>)
        ensures
            texts(r@) == self@.done,
    {
        &self.done
    }

    /// Tells what came of the step: of a question whether the answer was yes, of anything else
    /// whether it went well.
    pub fn report(&mut self, ok: bool) -> (r: EnsurePhase)
        requires
            ensure_valid(old(self)@),
        ensures
            final(self)@ == ensure_next(old(self)@, ok),
            ensure_valid(final(self)@),
            r == final(self)@.phase,
    {
        let ghost before = self@;
        match self.phase {
            EnsurePhase::Check(i) => {
                self.phase = if ok {
                    EnsurePhase::Verify(i)
                } else {
                    EnsurePhase::Download(i)
                };
            },
            EnsurePhase::Download(i) => {
                self.phase = if ok {
                    EnsurePhase::Verify(i)
                } else {
                    EnsurePhase::DownloadFailed(i)
                };
            },
            EnsurePhase::Verify(i) => {
                self.phase = if ok {
                    EnsurePhase::Touch(i)
                } else {
                    EnsurePhase::VerifyFailed(i)
                };
            },
            EnsurePhase::Touch(i) => {
                if !ok {
                    self.phase = EnsurePhase::TouchFailed(i);
                } else {
                    let count: usize = self.assets.len();
                    let key: String = self.assets[i].cache_key();
                    let ghost name = key@;
                    assert(before.assets[i as int] == self.assets@[i as int]@);
                    self.done.push(key);
                    assert(texts(self.done@) =~= before.done.push(name));
                    assert(i < count);
                    self.phase = Self::check_phase(&self.assets, &self.done, i + 1);
                    proof {
                        let done = self@.done;
                        lemma_next_undone(before.assets, done, i + 1);
                        assert forall|j: int|
                            0 <= j < next_undone(before.assets, done, i + 1) implies done.contains(
                            (#[trigger] before.assets[j]).key(),
                        ) by {
                            if j < i {
                                assert(before.done.contains(before.assets[j].key()));
                                let k = choose|k: int|
                                    0 <= k < before.done.len() && before.done[k]
                                        == before.assets[j].key();
                                assert(done[k] == before.assets[j].key());
                            } else if j == i {
                                assert(done[before.done.len() as int] == name);
                            }
                        }
                    }
                }
            },
            _ => {},
        }
        self.phase
    }
}

/// Where making `assets` ready stands after some answers.
pub open spec fn ensure_after(assets: Seq<AssetRefView>, answers: Seq<bool>) -> EnsureView
    decreases answers.len(),
{
    if answers.len() == 0 {
        EnsureView { assets, done: Seq::empty(), phase: check_from(assets, Seq::empty(), 0) }
    } else {
        ensure_next(ensure_after(assets, answers.drop_last()), answers.last())
    }
}

/// Whether the `k`th answer said that an asset of this name is ready, after it was downloaded or
/// found to be there.
pub open spec fn verified_by(
    assets: Seq<AssetRefView>,
    answers: Seq<bool>,
    key: Seq<char>,
    k: int,
) -> bool {
    &&& 0 <= k < answers.len()
    &&& answers[k]
    &&& ensure_after(assets, answers.take(k)).phase matches EnsurePhase::Verify(i)
        && assets[i as int].key() == key
}

/// Whether some answer said that an asset of this name is ready.
pub open spec fn verified(assets: Seq<AssetRefView>, answers: Seq<bool>, key: Seq<char>) -> bool {
    exists|k: int| verified_by(assets, answers, key, k)
}

proof fn lemma_verified_stays(assets: Seq<AssetRefView>, answers: Seq<bool>, key: Seq<char>)
    requires
        answers.len() > 0,
        verified(assets, answers.drop_last(), key),
    ensures
        verified(assets, answers, key),
{
    let before = answers.drop_last();
    let k = choose|k: int| verified_by(assets, before, key, k);
    assert(answers.take(k) =~= before.take(k));
    assert(verified_by(assets, answers, key, k));
}

proof fn lemma_done_was_verified(assets: Seq<AssetRefView>, answers: Seq<bool>)
    requires
        assets.len() <= usize::MAX,
    ensures
        ({
            let state = ensure_after(assets, answers);
            &&& state.assets == assets
            &&& ensure_valid(state)
            &&& forall|n: int|
                0 <= n < state.done.len() ==> verified(assets, answers, #[trigger] state.done[n])
            &&& state.phase matches EnsurePhase::Touch(i) ==> verified(
                assets,
                answers,
                assets[i as int].key(),
            )
        }),
    decreases answers.len(),
{
    if answers.len() == 0 {
        lemma_next_undone(assets, Seq::empty(), 0);
    } else {
        let shorter = answers.drop_last();
        let before = ensure_after(assets, shorter);
        let state = ensure_after(assets, answers);
        lemma_done_was_verified(assets, shorter);
        assert(answers.take(answers.len() - 1) =~= shorter);
        match before.phase {
            EnsurePhase::Verify(i) => {
                if answers.last() {
                    assert(verified_by(assets, answers, assets[i as int].key(), answers.len() - 1));
                }
            },
            EnsurePhase::Touch(i) => {
                lemma_verified_stays(assets, answers, assets[i as int].key());
                if answers.last() {
                    lemma_next_undone(assets, state.done, i + 1);
                    assert forall|j: int|
                        0 <= j < next_undone(assets, state.done, i + 1) implies state.done.contains(
                        (#[trigger] assets[j]).key(),
                    ) by {
                        if j < i {
                            let n = choose|n: int|
                                0 <= n < before.done.len() && before.done[n] == assets[j].key();
                            assert(state.done[n] == assets[j].key());
                        } else if j == i {
                            assert(state.done[before.done.len() as int] == assets[j].key());
                        }
                    }
                }
            },
            _ => {},
        }
        assert forall|n: int| 0 <= n < state.done.len() implies verified(
            assets,
            answers,
            #[trigger] state.done[n],
        ) by {
            if n < before.done.len() {
                assert(state.done[n] == before.done[n]);
                lemma_verified_stays(assets, answers, before.done[n]);
            }
        }
    }
}

/// Where making assets ready is done, each of them was looked at and found ready, whether it had
/// been downloaded or not.
pub proof fn done_means_all_ready(assets: Seq<AssetRefView>, answers: Seq<bool>)
    requires
        assets.len() <= usize::MAX,
        ensure_after(assets, answers).phase == EnsurePhase::Done,
    ensures
        forall|j: int|
            0 <= j < assets.len() ==> verified(assets, answers, (#[trigger] assets[j]).key()),
{
    lemma_done_was_verified(assets, answers);
    let done = ensure_after(assets, answers).done;
    assert forall|j: int| 0 <= j < assets.len() implies verified(
        assets,
        answers,
        (#[trigger] assets[j]).key(),
    ) by {
        let n = choose|n: int| 0 <= n < done.len() && done[n] == assets[j].key();
        assert(verified(assets, answers, done[n]));
    }
}

/// What is reported of an asset that is not ready though it was downloaded.
pub fn verify_failure(asset: &AssetRef) -> (r: String)
    ensures
        r@ == "asset verification failed after download file_id="@ + signed_decimal(
            asset@.file_id as int,
        ) + " key="@ + asset@.key(),
{
    let mut text: String = "asset verification failed after download file_id=".to_owned();
    text.append(i64_text(asset.file_id).as_str());
    text.append(" key=");
    text.append(asset.cache_key().as_str());
    text
}

/// What an answer to a download means. `status` is how the status `code` is written.
pub fn check_download_answer(asset: &AssetRef, code: u16, status: &str) -> (r: Result<(), String>)
    ensures
        match r {
            Ok(_) => status_ok(code),
            Err(text) => !status_ok(code) && text@ == "asset download failed: "@ + status@ + " "@
                + signed_decimal(asset@.file_id as int),
        },
{
    if 200 <= code && code < 300 {
        return Ok(());
    }
    let mut text: String = "asset download failed: ".to_owned();
    text.append(status);
    text.append(" ");
    text.append(i64_text(asset.file_id).as_str());
    Err(text)
}

/// What is reported of a download with the wrong number of bytes.
pub open spec fn size_failure(asset: AssetRefView, expected: i64, actual: u64) -> Seq<char> {
    "asset size mismatch file_id="@ + signed_decimal(asset.file_id as int) + " expected="@
        + signed_decimal(expected as int) + " actual="@ + crate::text::decimal(actual as nat)
}

/// Whether a download has as many bytes as it should, where that is known.
pub fn check_download_size(asset: &AssetRef, actual: u64) -> (r: Result<(), String>)
    ensures
        match r {
            Ok(_) => asset@.size_bytes matches Some(size) ==> actual == size_in_bytes(size),
            Err(text) => asset@.size_bytes matches Some(size) && actual != size_in_bytes(size)
                && text@ == size_failure(asset@, size, actual),
        },
{
    match asset.size_bytes {
        Some(size) => {
            let same: bool = if size >= 0 {
                actual == size as u64
            } else {
                actual as i128 == size as i128 + 0x1_0000_0000_0000_0000i128
            };
            if same {
                return Ok(());
            }
            let mut text: String = "asset size mismatch file_id=".to_owned();
            text.append(i64_text(asset.file_id).as_str());
            text.append(" expected=");
            text.append(i64_text(size).as_str());
            text.append(" actual=");
            text.append(u64_text(actual).as_str());
            Err(text)
        },
        None => Ok(()),
    }
}

/// Where a download stands.
#[derive(Debug, Clone, Copy, PartialEq, Eq, Structural)]
pub enum DownloadPhase {
    /// The file is asked for.
    Request,
    /// What came is written under a name of its own, down to the disk.
    Write,
    /// Its number of bytes is compared.
    CheckSize,
    /// It gets its final name.
    Publish,
    /// It gets the mark of a complete download.
    Mark,
    /// It is there.
    Done,
    /// It has the wrong number of bytes and is thrown away.
    Discard,
    /// It is not there.
    Failed,
}

/// The course of a download: it gets its final name only once it was written and has the right
/// number of bytes.
pub open spec fn download_next(phase: DownloadPhase, ok: bool) -> DownloadPhase {
    match phase {
        DownloadPhase::Request => if ok {
            DownloadPhase::Write
        } else {
            DownloadPhase::Failed
        },
        DownloadPhase::Write => if ok {
            DownloadPhase::CheckSize
        } else {
            DownloadPhase::Failed
        },
        DownloadPhase::CheckSize => if ok {
            DownloadPhase::Publish
        } else {
            DownloadPhase::Discard
        },
        DownloadPhase::Publish => if ok {
            DownloadPhase::Mark
        } else {
            DownloadPhase::Failed
        },
        DownloadPhase::Mark => if ok {
            DownloadPhase::Done
        } else {
            DownloadPhase::Failed
        },
        DownloadPhase::Discard => DownloadPhase::Failed,
        DownloadPhase::Done => DownloadPhase::Done,
        DownloadPhase::Failed => DownloadPhase::Failed,
    }
}

/// The step of a download after `phase`, which went well or not.
pub fn advance_download(phase: DownloadPhase, ok: bool) -> (r: DownloadPhase)
    ensures
        r == download_next(phase, ok),
{
    match phase {
        DownloadPhase::Request => if ok {
            DownloadPhase::Write
        } else {
            DownloadPhase::Failed
        },
        DownloadPhase::Write => if ok {
            DownloadPhase::CheckSize
        } else {
            DownloadPhase::Failed
        },
        DownloadPhase::CheckSize => if ok {
            DownloadPhase::Publish
        } else {
            DownloadPhase::Discard
        },
        DownloadPhase::Publish => if ok {
            DownloadPhase::Mark
        } else {
            DownloadPhase::Failed
        },
        DownloadPhase::Mark => if ok {
            DownloadPhase::Done
        } else {
            DownloadPhase::Failed
        },
        DownloadPhase::Discard => DownloadPhase::Failed,
        DownloadPhase::Done => DownloadPhase::Done,
        DownloadPhase::Failed => DownloadPhase::Failed,
    }
}

/// Where a download stands after some steps, each of which went well or not.
pub open spec fn download_after(results: Seq<bool>) -> DownloadPhase
    decreases results.len(),
{
    if results.len() == 0 {
        DownloadPhase::Request
    } else {
        download_next(download_after(results.drop_last()), results.last())
    }
}

/// A file gets its final name only once it was fetched, written and has the right number of bytes;
/// a download that failed at one of these never does.
pub proof fn only_complete_files_are_published(results: Seq<bool>)
    ensures
        ({
            let phase = download_after(results);
            &&& phase is Publish || phase is Mark || phase is Done ==> results.len() >= 3
                && results[0] && results[1] && results[2]
            &&& results.len() >= 3 && !(results[0] && results[1] && results[2]) ==> phase is Discard
                || phase is Failed
        }),
    decreases results.len(),
{
    reveal_with_fuel(download_after, 4);
    if results.len() > 3 {
        let shorter = results.drop_last();
        only_complete_files_are_published(shorter);
        assert(shorter[0] == results[0] && shorter[1] == results[1] && shorter[2] == results[2]);
    } else if results.len() == 3 {
        assert(results.drop_last().drop_last().drop_last() =~= Seq::empty());
        assert(results.drop_last().drop_last().last() == results[0]);
        assert(results.drop_last().last() == results[1]);
    } else if results.len() == 2 {
        assert(results.drop_last().drop_last() =~= Seq::empty());
    } else if results.len() == 1 {
        assert(results.drop_last() =~= Seq::empty());
    }
}

/// An asset that is there is not downloaded, and one that is not is. What was downloaded is looked at
/// before its files are marked as used, and whatever goes wrong ends the run at that asset.
pub proof fn only_missing_assets_are_downloaded(state: EnsureView, i: usize)
    ensures
        state.phase == EnsurePhase::Check(i) ==> {
            &&& ensure_next(state, true).phase == EnsurePhase::Verify(i)
            &&& ensure_next(state, false).phase == EnsurePhase::Download(i)
        },
        state.phase == EnsurePhase::Download(i) ==> {
            &&& ensure_next(state, true).phase == EnsurePhase::Verify(i)
            &&& ensure_next(state, false).phase == EnsurePhase::DownloadFailed(i)
        },
        state.phase == EnsurePhase::Verify(i) ==> {
            &&& ensure_next(state, true).phase == EnsurePhase::Touch(i)
            &&& ensure_next(state, false).phase == EnsurePhase::VerifyFailed(i)
        },
        state.phase == EnsurePhase::Touch(i) ==> ensure_next(state, false).phase
            == EnsurePhase::TouchFailed(i),
        forall|ok: bool| (#[trigger] ensure_next(state, ok)).assets == state.assets,
        forall|ok: bool|
            state.phase != EnsurePhase::Touch(i) && !(state.phase is Touch) ==> (
            #[trigger] ensure_next(state, ok)).done == state.done,
{
}

proof fn lemma_undone(assets: Seq<AssetRefView>, done: Seq<Seq<char>>, from: int)
    requires
        0 <= from <= assets.len(),
    ensures
        next_undone(assets, done, from) < assets.len() ==> !done.contains(
            assets[next_undone(assets, done, from)].key(),
        ),
    decreases assets.len() - from,
{
    if from < assets.len() && done.contains(assets[from].key()) {
        lemma_undone(assets, done, from + 1);
    }
}

/// Once an asset is ready, the next one that is looked at is the first behind it whose name is not
/// done; there is none only where all names are.
pub proof fn the_next_asset_is_the_first_not_done(state: EnsureView, i: usize)
    requires
        state.phase == EnsurePhase::Touch(i),
        i < state.assets.len() <= usize::MAX,
    ensures
        ({
            let next = ensure_next(state, true);
            &&& next.done == state.done.push(state.assets[i as int].key())
            &&& match next.phase {
                EnsurePhase::Check(k) => {
                    &&& i < k < state.assets.len()
                    &&& !next.done.contains(state.assets[k as int].key())
                    &&& forall|j: int|
                        i < j < k ==> next.done.contains((#[trigger] state.assets[j]).key())
                },
                EnsurePhase::Done => forall|j: int|
                    i < j < state.assets.len() ==> next.done.contains(
                        (#[trigger] state.assets[j]).key(),
                    ),
                _ => false,
            }
        }),
{
    let done = state.done.push(state.assets[i as int].key());
    lemma_next_undone(state.assets, done, i + 1);
    lemma_undone(state.assets, done, i + 1);
}

/// A download asks for the file, writes it, compares its size, gives it its final name, and marks it
/// as complete, in this order, each step only where the one before went well. One of the wrong size is
/// thrown away; whatever else goes wrong ends it.
pub proof fn downloads_go_in_order()
    ensures
        download_next(DownloadPhase::Request, true) == DownloadPhase::Write,
        download_next(DownloadPhase::Write, true) == DownloadPhase::CheckSize,
        download_next(DownloadPhase::CheckSize, true) == DownloadPhase::Publish,
        download_next(DownloadPhase::Publish, true) == DownloadPhase::Mark,
        download_next(DownloadPhase::Mark, true) == DownloadPhase::Done,
        download_next(DownloadPhase::CheckSize, false) == DownloadPhase::Discard,
        forall|phase: DownloadPhase|
            phase != DownloadPhase::CheckSize && phase != DownloadPhase::Done
                ==> #[trigger] download_next(phase, false) == DownloadPhase::Failed,
        forall|ok: bool|
            #[trigger] download_next(DownloadPhase::Discard, ok) == DownloadPhase::Failed,
        forall|ok: bool|
            #[trigger] download_next(DownloadPhase::Failed, ok) == DownloadPhase::Failed,
        forall|ok: bool| #[trigger] download_next(DownloadPhase::Done, ok) == DownloadPhase::Done,
{
}

/// The size that an asset should have is compared as it is told, and no file has a negative one of
/// those that can be told apart from a positive one.
pub proof fn sizes_are_compared_as_told(size: i64)
    ensures
        size >= 0 ==> size_in_bytes(size) == size,
        size < 0 ==> size_in_bytes(size) > i64::MAX,
{
}

/// What is said of a file of the wrong size names the file, the size that was told and the size that
/// it has, in this order.
pub proof fn size_failures_tell_both_sizes(asset: AssetRefView, expected: i64, actual: u64)
    ensures
        size_failure(asset, expected, actual) == "asset size mismatch file_id="@ + signed_decimal(
            asset.file_id as int,
        ) + " expected="@ + signed_decimal(expected as int) + " actual="@ + crate::text::decimal(
            actual as nat,
        ),
{
}
} // verus!
