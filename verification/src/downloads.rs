//! File downloads shown in the downloads UI.

use indexmap::IndexMap;
use vstd::prelude::*;

use vstd::string::StringExecFns;

use crate::config::hex_char;
use crate::engine::{EngineId, EngineIdView};
use crate::text::string_from_chars;

verus! {

/// Unique identifier for a file download.
#[derive(PartialEq, Eq, Structural, Copy, Clone, Debug, Hash)]
pub struct DownloadId {
    engine_id: EngineId,
    id: usize,
}

/// Key of a download: its engine's window, tab group and number, and its own
/// number.
pub type DownloadKey = (usize, u128, usize, usize);

impl DownloadId {
    /// Download number `id` of an engine; the caller numbers downloads from a
    /// process-wide counter.
    pub fn new(engine_id: EngineId, id: usize) -> (d: Self)
        ensures
            d.key() == (engine_id@.window_id, engine_id@.group_uuid, engine_id@.id, id),
    {
        DownloadId { engine_id, id }
    }

    /// Key identifying the download.
    pub closed spec fn key(&self) -> DownloadKey {
        (self.engine_id@.window_id, self.engine_id@.group_uuid, self.engine_id@.id, self.id)
    }

    /// Get the download's origin engine ID.
    pub fn engine_id(&self) -> (e: EngineId)
        ensures
            (e@.window_id, e@.group_uuid, e@.id) == (self.key().0, self.key().1, self.key().2),
    {
        self.engine_id
    }

    /// Get the download's window ID.
    pub fn window_id(&self) -> (w: usize)
        ensures
            w == self.key().0,
    {
        self.engine_id.window_id()
    }

    /// Key identifying the download.
    fn key_value(&self) -> (k: DownloadKey)
        ensures
            k == self.key(),
    {
        let engine = self.engine_id;
        (engine.window_id(), engine.group_id().uuid(), engine.number(), self.id)
    }
}

/// Abstract form of a download.
pub struct DownloadView {
    pub key: DownloadKey,
    pub destination: Seq<char>,
    pub progress: u8,
    pub failed: bool,
    pub uri: Seq<char>,
}

/// Browser file download.
pub struct Download {
    pub id: DownloadId,
    pub destination: String,
    pub progress: u8,
    pub failed: bool,
    pub uri: String,
}

impl View for Download {
    type V = DownloadView;

    open spec fn view(&self) -> DownloadView {
        DownloadView {
            key: self.id.key(),
            destination: self.destination@,
            progress: self.progress,
            failed: self.failed,
            uri: self.uri@,
        }
    }
}

impl Download {
    /// Copy of the download.
    pub fn duplicate(&self) -> (d: Self)
        ensures
            d@ == self@,
    {
        Download {
            id: self.id,
            destination: self.destination.clone(),
            progress: self.progress,
            failed: self.failed,
            uri: self.uri.clone(),
        }
    }
}

/// Whether a download has not finished yet.
pub open spec fn in_progress(d: DownloadView) -> bool {
    d.progress < 100
}

/// Whether a download has not finished yet.
fn download_in_progress(d: &Download) -> (r: bool)
    ensures
        r == in_progress(d@),
{
    d.progress < 100
}

/// The `indexmap` crate's insertion-ordered map, declared so that it can be
/// held and passed around; its contents are only known through the trusted
/// operations below.
#[verifier::external_type_specification]
#[verifier::external_body]
#[verifier::reject_recursive_types(K)]
#[verifier::reject_recursive_types(V)]
#[verifier::reject_recursive_types(S)]
pub struct ExIndexMap<K, V, S>(IndexMap<K, V, S>);

/// Key-value pairs an index map holds, in its order.
pub uninterp spec fn map_entries(m: IndexMap<DownloadKey, Download>) -> Seq<(DownloadKey, DownloadView)>;

/// Keys of map entries.
pub open spec fn entry_keys(e: Seq<(DownloadKey, DownloadView)>) -> Seq<DownloadKey> {
    e.map_values(|p: (DownloadKey, DownloadView)| p.0)
}

/// Entries after inserting: an existing key keeps its place and takes the new
/// value, a new key goes last.
pub open spec fn inserted(e: Seq<(DownloadKey, DownloadView)>, key: DownloadKey, v: DownloadView) -> Seq<(DownloadKey, DownloadView)> {
    if entry_keys(e).contains(key) {
        e.update(entry_keys(e).index_of(key), (key, v))
    } else {
        e.push((key, v))
    }
}

/// Entries that are still in progress, in order.
pub open spec fn unfinished(e: Seq<(DownloadKey, DownloadView)>) -> Seq<(DownloadKey, DownloadView)>
    decreases e.len(),
{
    if e.len() == 0 {
        Seq::empty()
    } else if in_progress(e.last().1) {
        unfinished(e.drop_last()).push(e.last())
    } else {
        unfinished(e.drop_last())
    }
}

/// `IndexMap::new`.
///
/// Trusted: a new map holds no entries.
#[verifier::external_body]
fn map_new() -> (m: IndexMap<DownloadKey, Download>)
    ensures
        map_entries(m) == Seq::<(DownloadKey, DownloadView)>::empty(),
{
    IndexMap::new()
}

/// `IndexMap::len`.
///
/// Trusted: the number of entries held.
#[verifier::external_body]
fn map_len(m: &IndexMap<DownloadKey, Download>) -> (n: usize)
    ensures
        n == map_entries(*m).len(),
{
    m.len()
}

/// `IndexMap::insert`.
///
/// Trusted: as the `indexmap` documentation states, an existing key keeps its
/// place and takes the new value, otherwise the pair goes last; keys stay
/// unique.
#[verifier::external_body]
fn map_insert(m: &mut IndexMap<DownloadKey, Download>, key: DownloadKey, value: Download)
    requires
        entry_keys(map_entries(*old(m))).no_duplicates(),
    ensures
        map_entries(*final(m)) == inserted(map_entries(*old(m)), key, value@),
        entry_keys(map_entries(*final(m))).no_duplicates(),
{
    m.insert(key, value);
}

/// `IndexMap::get_index_of`.
///
/// Trusted: the position of the key among the entries, if it is held.
#[verifier::external_body]
fn map_index_of(m: &IndexMap<DownloadKey, Download>, key: &DownloadKey) -> (i: Option<usize>)
    ensures
        match i {
            Some(i) => i < map_entries(*m).len() && map_entries(*m)[i as int].0 == *key,
            None => !entry_keys(map_entries(*m)).contains(*key),
        },
{
    m.get_index_of(key)
}

/// `IndexMap::get_index`.
///
/// Trusted: the entry at a valid position, `None` past the end.
#[verifier::external_body]
fn map_get_index(m: &IndexMap<DownloadKey, Download>, index: usize) -> (r: Option<(&DownloadKey, &Download)>)
    ensures
        match r {
            Some((k, v)) => index < map_entries(*m).len() && map_entries(*m)[index as int] == (*k, v@),
            None => index >= map_entries(*m).len(),
        },
{
    m.get_index(index)
}

/// `IndexMap::shift_remove`.
///
/// Trusted: removes the key's entry, keeping the order of the others, and
/// returns its value; without the key the map is unchanged.
#[verifier::external_body]
fn map_shift_remove(m: &mut IndexMap<DownloadKey, Download>, key: &DownloadKey) -> (r: Option<Download>)
    requires
        entry_keys(map_entries(*old(m))).no_duplicates(),
    ensures
        entry_keys(map_entries(*old(m))).contains(*key) ==> {
            let i = entry_keys(map_entries(*old(m))).index_of(*key);
            &&& r matches Some(v) && v@ == map_entries(*old(m))[i].1
            &&& map_entries(*final(m)) == map_entries(*old(m)).remove(i)
        },
        !entry_keys(map_entries(*old(m))).contains(*key) ==> r is None && map_entries(*final(m))
            == map_entries(*old(m)),
        entry_keys(map_entries(*final(m))).no_duplicates(),
{
    m.shift_remove(key)
}

/// `IndexMap::retain`, keeping the downloads still in progress.
///
/// Trusted: the entries whose download is in progress remain, in order.
#[verifier::external_body]
fn map_retain_unfinished(m: &mut IndexMap<DownloadKey, Download>)
    requires
        entry_keys(map_entries(*old(m))).no_duplicates(),
    ensures
        map_entries(*final(m)) == unfinished(map_entries(*old(m))),
        entry_keys(map_entries(*final(m))).no_duplicates(),
{
    m.retain(|_, download| download_in_progress(download));
}

/// What the downloads list asks of the browser after a change.
#[derive(PartialEq, Eq, Structural, Copy, Clone, Debug)]
pub enum DownloadsAction {
    /// Nothing to do.
    Nothing,
    /// Show or hide the downloads button of the tabs UI.
    SetButtonVisible(bool),
    /// Ask the engine to stop the download.
    Cancel(DownloadId),
}

/// Downloads of a window, in the order they started.
pub struct DownloadList {
    entries: IndexMap<DownloadKey, Download>,
}

impl View for DownloadList {
    type V = Seq<(DownloadKey, DownloadView)>;

    closed spec fn view(&self) -> Seq<(DownloadKey, DownloadView)> {
        map_entries(self.entries)
    }
}

/// Well-formedness: no key twice, and each download stored under its own key.
pub open spec fn list_wf(e: Seq<(DownloadKey, DownloadView)>) -> bool {
    &&& entry_keys(e).no_duplicates()
    &&& forall|i: int| 0 <= i < e.len() ==> (#[trigger] e[i]).0 == e[i].1.key
}

/// Entries after a download's progress update; `None` marks it failed and
/// finished.
pub open spec fn with_progress(e: Seq<(DownloadKey, DownloadView)>, key: DownloadKey, progress: Option<u8>) -> Seq<(DownloadKey, DownloadView)> {
    if entry_keys(e).contains(key) {
        let i = entry_keys(e).index_of(key);
        let d = e[i].1;
        let updated = match progress {
            Some(p) => DownloadView { progress: p, ..d },
            None => DownloadView { progress: 100, failed: true, ..d },
        };
        e.update(i, (key, updated))
    } else {
        e
    }
}

/// Position of `key` in the entries.
proof fn lemma_index_of_key(e: Seq<(DownloadKey, DownloadView)>, key: DownloadKey, i: int)
    requires
        entry_keys(e).no_duplicates(),
        0 <= i < e.len(),
        e[i].0 == key,
    ensures
        entry_keys(e).contains(key),
        entry_keys(e).index_of(key) == i,
{
    let keys = entry_keys(e);
    assert(keys[i] == key);
    let j = keys.index_of(key);
    assert(keys[j] == key);
}

impl DownloadList {
    /// Empty list.
    pub fn new() -> (l: Self)
        ensures
            l@ == Seq::<(DownloadKey, DownloadView)>::empty(),
            list_wf(l@),
    {
        let l = DownloadList { entries: map_new() };
        assert(entry_keys(l@) =~= Seq::<DownloadKey>::empty());
        l
    }

    /// Number of downloads.
    pub fn len(&self) -> (n: usize)
        ensures
            n == self@.len(),
    {
        map_len(&self.entries)
    }

    /// Download at a position of the list.
    pub fn get_index(&self, index: usize) -> (d: Option<&Download>)
        ensures
            match d {
                Some(d) => index < self@.len() && d@ == self@[index as int].1,
                None => index >= self@.len(),
            },
    {
        match map_get_index(&self.entries, index) {
            Some((_, d)) => Some(d),
            None => None,
        }
    }

    /// Add a new download, showing the downloads button.
    pub fn add_download(&mut self, download: Download) -> (action: DownloadsAction)
        requires
            list_wf(old(self)@),
        ensures
            list_wf(final(self)@),
            final(self)@ == inserted(old(self)@, download@.key, download@),
            action == DownloadsAction::SetButtonVisible(true),
    {
        let key = download.id.key_value();
        let ghost v = download@;
        map_insert(&mut self.entries, key, download);
        proof {
            let e = old(self)@;
            let n = self@;
            if entry_keys(e).contains(key) {
                let i = entry_keys(e).index_of(key);
                assert forall|j: int| 0 <= j < n.len() implies (#[trigger] n[j]).0 == n[j].1.key by {
                    if j != i {
                        assert(n[j] == e[j]);
                    }
                }
            } else {
                assert forall|j: int| 0 <= j < n.len() implies (#[trigger] n[j]).0 == n[j].1.key by {
                    if j < e.len() {
                        assert(n[j] == e[j]);
                    }
                }
            }
        }
        DownloadsAction::SetButtonVisible(true)
    }

    /// Update a download's progress.
    ///
    /// A progress value of `None` indicates that the download has failed and
    /// will not make any further progress.
    pub fn set_download_progress(&mut self, download_id: DownloadId, progress: Option<u8>)
        requires
            list_wf(old(self)@),
        ensures
            list_wf(final(self)@),
            final(self)@ == with_progress(old(self)@, download_id.key(), progress),
    {
        let key = download_id.key_value();
        let index = match map_index_of(&self.entries, &key) {
            Some(i) => i,
            None => return,
        };
        let updated = match map_get_index(&self.entries, index) {
            Some((_, d)) => {
                let mut d = d.duplicate();
                match progress {
                    Some(p) => d.progress = p,
                    None => {
                        d.progress = 100;
                        d.failed = true;
                    },
                }
                d
            },
            None => return,
        };
        proof {
            lemma_index_of_key(self@, key, index as int);
        }
        let ghost e = self@;
        map_insert(&mut self.entries, key, updated);
        proof {
            let n = self@;
            assert forall|j: int| 0 <= j < n.len() implies (#[trigger] n[j]).0 == n[j].1.key by {
                if j != index {
                    assert(n[j] == e[j]);
                }
            }
            assert(n =~= with_progress(e, key, progress));
        }
    }

    /// Tap on a download's close button: a running download is marked failed
    /// and cancelled, a finished one is removed, hiding the downloads button
    /// when it was the last.
    pub fn close_entry(&mut self, index: usize) -> (action: DownloadsAction)
        requires
            list_wf(old(self)@),
        ensures
            list_wf(final(self)@),
            index >= old(self)@.len() ==> final(self)@ == old(self)@ && action == DownloadsAction::Nothing,
            index < old(self)@.len() ==> {
                let (key, d) = old(self)@[index as int];
                if in_progress(d) {
                    &&& final(self)@ == with_progress(old(self)@, key, None)
                    &&& action matches DownloadsAction::Cancel(id) && id.key() == key
                } else {
                    &&& final(self)@ == old(self)@.remove(index as int)
                    &&& action == (if final(self)@.len() == 0 {
                        DownloadsAction::SetButtonVisible(false)
                    } else {
                        DownloadsAction::Nothing
                    })
                }
            },
    {
        let (id, running) = match map_get_index(&self.entries, index) {
            Some((_, d)) => (d.id, download_in_progress(d)),
            None => return DownloadsAction::Nothing,
        };
        if running {
            self.set_download_progress(id, None);
            DownloadsAction::Cancel(id)
        } else {
            let key = id.key_value();
            proof {
                lemma_index_of_key(self@, key, index as int);
            }
            let ghost e = self@;
            map_shift_remove(&mut self.entries, &key);
            proof {
                let n = self@;
                assert forall|j: int| 0 <= j < n.len() implies (#[trigger] n[j]).0 == n[j].1.key by {
                    if j < index {
                        assert(n[j] == e[j]);
                    } else {
                        assert(n[j] == e[j + 1]);
                    }
                }
            }
            if map_len(&self.entries) == 0 {
                DownloadsAction::SetButtonVisible(false)
            } else {
                DownloadsAction::Nothing
            }
        }
    }

    /// Remove all finished downloads, hiding the downloads button when none
    /// is left.
    pub fn clear_finished(&mut self) -> (action: DownloadsAction)
        requires
            list_wf(old(self)@),
        ensures
            list_wf(final(self)@),
            final(self)@ == unfinished(old(self)@),
            action == (if final(self)@.len() == 0 {
                DownloadsAction::SetButtonVisible(false)
            } else {
                DownloadsAction::Nothing
            }),
    {
        let ghost e = self@;
        map_retain_unfinished(&mut self.entries);
        proof {
            lemma_unfinished_keys(e);
        }
        if map_len(&self.entries) == 0 {
            DownloadsAction::SetButtonVisible(false)
        } else {
            DownloadsAction::Nothing
        }
    }
}

/// Unfinished entries are entries of the list, so they keep their keys.
proof fn lemma_unfinished_keys(e: Seq<(DownloadKey, DownloadView)>)
    requires
        forall|i: int| 0 <= i < e.len() ==> (#[trigger] e[i]).0 == e[i].1.key,
    ensures
        forall|i: int| 0 <= i < unfinished(e).len() ==> (#[trigger] unfinished(e)[i]).0 == unfinished(e)[i].1.key,
        forall|i: int| 0 <= i < unfinished(e).len() ==> in_progress((#[trigger] unfinished(e)[i]).1),
    decreases e.len(),
{
    if e.len() > 0 {
        assert forall|i: int| 0 <= i < e.drop_last().len() implies (#[trigger] e.drop_last()[i]).0
            == e.drop_last()[i].1.key by {
            assert(e.drop_last()[i] == e[i]);
        }
        lemma_unfinished_keys(e.drop_last());
        let u0 = unfinished(e.drop_last());
        let u = unfinished(e);
        if in_progress(e.last().1) {
            assert(u == u0.push(e.last()));
            assert(e.last() == e[e.len() - 1]);
            assert forall|i: int| 0 <= i < u.len() implies (#[trigger] u[i]).0 == u[i].1.key && in_progress(
                u[i].1,
            ) by {
                if i < u0.len() {
                    assert(u[i] == u0[i]);
                }
            }
        } else {
            assert(u == u0);
        }
    }
}

/// Clearing finished downloads leaves only running ones, and a progress
/// update of `None` always finishes a held download as failed.
pub proof fn law_clear_and_fail(e: Seq<(DownloadKey, DownloadView)>, key: DownloadKey)
    requires
        list_wf(e),
    ensures
        forall|i: int| 0 <= i < unfinished(e).len() ==> in_progress((#[trigger] unfinished(e)[i]).1),
        entry_keys(e).contains(key) ==> {
            let d = with_progress(e, key, None)[entry_keys(e).index_of(key)].1;
            &&& d.progress == 100
            &&& d.failed
            &&& !in_progress(d)
        },
{
    lemma_unfinished_keys(e);
    if entry_keys(e).contains(key) {
        let i = entry_keys(e).index_of(key);
        assert(0 <= i < e.len());
    }
}

/// Lowercase hexadecimal digits of a number, without leading zeros.
pub open spec fn hex_text(n: nat) -> Seq<char>
    decreases n,
{
    if n < 16 {
        seq![hex_char(n)]
    } else {
        hex_text(n / 16).push(hex_char(n % 16))
    }
}

/// Lowercase hexadecimal digit.
fn hex_digit_char(n: u32) -> (c: char)
    requires
        n < 16,
    ensures
        c == hex_char(n as nat),
{
    if n < 10 {
        ((48 + n) as u8) as char
    } else {
        ((87 + n) as u8) as char
    }
}

/// Hexadecimal text of a number.
fn hex_string(n: u32) -> (s: Vec<char>)
    ensures
        s@ == hex_text(n as nat),
    decreases n,
{
    if n < 16 {
        let mut s: Vec<char> = Vec::new();
        s.push(hex_digit_char(n));
        assert(s@ =~= hex_text(n as nat));
        s
    } else {
        let mut s = hex_string(n / 16);
        s.push(hex_digit_char(n % 16));
        s
    }
}

/// File name tried for a download: the suggested name first, then the name
/// with `_` and the attempt number in hexadecimal appended.
pub open spec fn download_name_candidate(suggested: Seq<char>, attempt: nat) -> Seq<char> {
    if attempt == 0 {
        suggested
    } else {
        suggested + seq!['_'] + hex_text(attempt)
    }
}

/// File name to try for a download on the given attempt, counting from 0,
/// until one is found that does not exist yet.
pub fn download_file_name(suggested: &str, attempt: u32) -> (name: String)
    ensures
        name@ == download_name_candidate(suggested@, attempt as nat),
{
    let mut name = String::from_str(suggested);
    if attempt == 0 {
        return name;
    }
    let mut suffix: Vec<char> = Vec::new();
    suffix.push('_');
    let digits = hex_string(attempt);
    let mut i: usize = 0;
    while i < digits.len()
        invariant
            i <= digits.len(),
            suffix@ == seq!['_'] + digits@.take(i as int),
        decreases digits.len() - i,
    {
        suffix.push(digits[i]);
        i = i + 1;
        assert(suffix@ =~= seq!['_'] + digits@.take(i as int));
    }
    assert(digits@.take(digits.len() as int) =~= digits@);
    let suffix_text = string_from_chars(&suffix);
    name.append(suffix_text.as_str());
    assert(name@ =~= download_name_candidate(suggested@, attempt as nat));
    name
}

} // verus!
