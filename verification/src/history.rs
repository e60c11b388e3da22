//! Browser history: URI normalization, completion and relevance search.

use smallvec::SmallVec;
use vstd::prelude::*;
use vstd::string::StringExecFns;

use crate::text::{
    any_uppercase, contains, contains_seq, count_matches, count_occurrences, is_uppercase, lowercase,
    to_lowercase, chars_of, find_char, find_vec, leading_count, leading_vec, rfind_char, rfind_vec, split_on,
    split_vec, starts_with, string_from_chars, string_views, sub_vec,
};

verus! {

broadcast use vstd::string::group_string_axioms;

/// Maximum scored history matches compared.
pub const MAX_MATCHES: usize = 25;

/// Mathematical value of a [`HistoryUri`].
pub struct HistoryUriView {
    pub scheme: Seq<char>,
    pub base: Seq<char>,
    pub path: Seq<Seq<char>>,
}

/// URI split into scheme, base, and path.
#[derive(Clone, Hash, Eq, PartialEq, Default, Debug)]
pub struct HistoryUri {
    /// Scheme without trailing colons or slashes.
    pub scheme: String,
    pub base: String,
    /// Path segments without query parameters.
    pub path: Vec<String>,
}

impl View for HistoryUri {
    type V = HistoryUriView;

    open spec fn view(&self) -> HistoryUriView {
        HistoryUriView { scheme: self.scheme@, base: self.base@, path: string_views(self.path@) }
    }
}

/// The text before the last `?`, or all of it without a `?`.
pub open spec fn strip_query(u: Seq<char>) -> Seq<char> {
    match rfind_char(u, '?') {
        Some(q) => u.take(q),
        None => u,
    }
}

/// Split into the part before the first `:` and the part after it; without a
/// `:` the scheme is empty and the whole text remains.
pub open spec fn split_scheme(u: Seq<char>) -> (Seq<char>, Seq<char>) {
    match find_char(u, ':') {
        Some(c) => (u.take(c), u.skip(c + 1)),
        None => (Seq::empty(), u),
    }
}

/// Whether the text of a URI splits back into its parts: no `:` in the
/// scheme, and no `/` in the base or in any path segment. Every parsed URI
/// has this shape.
pub open spec fn separable(u: HistoryUriView) -> bool {
    &&& forall|j: int| 0 <= j < u.scheme.len() ==> u.scheme[j] != ':'
    &&& forall|j: int| 0 <= j < u.base.len() ==> u.base[j] != '/'
    &&& forall|k: int, j: int|
        0 <= k < u.path.len() && 0 <= j < u.path[k].len() ==> #[trigger] u.path[k][j] != '/'
}

/// Parsed form of a URI: query parameters dropped, scheme split off at the
/// first colon, leading slashes removed, and the rest split on slashes into a
/// base and path segments.
pub open spec fn parse_history_uri(u: Seq<char>) -> HistoryUriView {
    let (scheme, rest) = split_scheme(strip_query(u));
    let trimmed = rest.skip(leading_count(rest, '/') as int);
    let parts = split_on(trimmed, '/');
    HistoryUriView { scheme, base: parts[0], path: parts.skip(1) }
}

/// `/`-prefixed concatenation of path segments.
pub open spec fn join_segments(path: Seq<Seq<char>>) -> Seq<char>
    decreases path.len(),
{
    if path.len() == 0 {
        Seq::empty()
    } else {
        join_segments(path.drop_last()) + seq!['/'] + path.last()
    }
}

/// Text form of a URI, optionally with its scheme and `://`.
pub open spec fn uri_text(u: HistoryUriView, include_scheme: bool) -> Seq<char> {
    (if include_scheme {
        u.scheme + seq![':', '/', '/']
    } else {
        Seq::empty()
    }) + u.base + join_segments(u.path)
}

/// Path segments that are not empty, in order.
pub open spec fn non_empty_segments(path: Seq<Seq<char>>) -> Seq<Seq<char>>
    decreases path.len(),
{
    if path.len() == 0 {
        Seq::empty()
    } else if path.last().len() == 0 {
        non_empty_segments(path.drop_last())
    } else {
        non_empty_segments(path.drop_last()).push(path.last())
    }
}

/// Normalized form of a URI: no empty path segments.
pub open spec fn normalized(u: HistoryUriView) -> HistoryUriView {
    HistoryUriView { scheme: u.scheme, base: u.base, path: non_empty_segments(u.path) }
}

/// Whether `uri` is a completion candidate for the typed `input`.
pub open spec fn completes(uri: HistoryUriView, input: HistoryUriView) -> bool {
    if uri.base == input.base && uri.path == input.path {
        false
    } else if input.scheme.len() != 0 && uri.scheme != input.scheme {
        false
    } else if uri.base != input.base {
        input.path.len() == 0 && input.base.is_prefix_of(uri.base)
    } else if uri.path.len() < input.path.len() {
        false
    } else {
        forall|i: int| 0 <= i < input.path.len() ==> #[trigger] segment_completes(uri, input, i)
    }
}

/// Whether the `i`-th typed path segment is completed by the URI's segment:
/// a prefix of it, and equal to it unless it is the last typed segment.
pub open spec fn segment_completes(uri: HistoryUriView, input: HistoryUriView, i: int) -> bool {
    &&& input.path[i].is_prefix_of(uri.path[i])
    &&& (input.path[i] == uri.path[i] || i + 1 == input.path.len())
}

/// Whether two lists of strings hold the same text.
fn same_segments(a: &Vec<String>, b: &Vec<String>) -> (res: bool)
    ensures
        res == (string_views(a@) == string_views(b@)),
{
    if a.len() != b.len() {
        assert(string_views(a@).len() != string_views(b@).len());
        return false;
    }
    let mut i: usize = 0;
    while i < a.len()
        invariant
            a.len() == b.len(),
            i <= a.len(),
            forall|j: int| 0 <= j < i ==> a@[j]@ == b@[j]@,
        decreases a.len() - i,
    {
        if !(a[i] == b[i]) {
            assert(string_views(a@)[i as int] != string_views(b@)[i as int]);
            return false;
        }
        i = i + 1;
    }
    assert(string_views(a@) =~= string_views(b@));
    true
}

/// Copy of a list of strings.
fn copy_strings(v: &Vec<String>) -> (r: Vec<String>)
    ensures
        string_views(r@) == string_views(v@),
{
    let mut r: Vec<String> = Vec::new();
    let mut i: usize = 0;
    while i < v.len()
        invariant
            i <= v.len(),
            string_views(r@) == string_views(v@).take(i as int),
        decreases v.len() - i,
    {
        let ghost old_r = r@;
        let item = v[i].clone();
        r.push(item);
        assert(r@ == old_r.push(item));
        assert(string_views(r@) =~= string_views(old_r).push(v@[i as int]@));
        i = i + 1;
        assert(string_views(r@) =~= string_views(v@).take(i as int));
    }
    assert(string_views(v@).take(v.len() as int) =~= string_views(v@));
    r
}

impl HistoryUri {
    /// Parse a URI, dropping query parameters.
    pub fn new(uri: &str) -> (r: Self)
        ensures
            r@ == parse_history_uri(uri@),
            separable(r@),
    {
        proof {
            crate::history_laws::law_parsed_uri_separable(uri@);
        }
        let chars = chars_of(uri);

        // Remove query parameters.
        let end = match rfind_vec(&chars, '?') {
            Some(q) => q,
            None => chars.len(),
        };
        let unqueried = sub_vec(&chars, 0, end);
        assert(unqueried@ =~= strip_query(uri@));

        // Extract scheme.
        let (scheme, rest) = match find_vec(&unqueried, ':') {
            Some(c) => (sub_vec(&unqueried, 0, c), sub_vec(&unqueried, c + 1, unqueried.len())),
            None => (Vec::new(), unqueried),
        };
        assert(scheme@ =~= split_scheme(strip_query(uri@)).0);
        assert(rest@ =~= split_scheme(strip_query(uri@)).1);

        // Remove leading slashes.
        let skip = leading_vec(&rest, '/');
        let trimmed = sub_vec(&rest, skip, rest.len());
        assert(trimmed@ =~= rest@.skip(leading_count(rest@, '/') as int));

        // Extract base and path segments.
        let mut parts = split_vec(&trimmed, '/');
        proof {
            lemma_split_nonempty(trimmed@, '/');
        }
        let base = parts.remove(0);
        let ghost expected = split_on(trimmed@, '/');
        assert(string_views(parts@) =~= expected.skip(1));

        HistoryUri { scheme: string_from_chars(&scheme), base, path: parts }
    }

    /// Convert the URI back to its string representation.
    pub fn to_string(&self, include_scheme: bool) -> (r: String)
        ensures
            r@ == uri_text(self@, include_scheme),
    {
        let mut uri = String::new();

        if include_scheme {
            uri.append(self.scheme.as_str());
            proof {
                reveal_strlit("://");
            }
            uri.append("://");
        }

        uri.append(self.base.as_str());
        assert(uri@ =~= (if include_scheme {
            self@.scheme + seq![':', '/', '/']
        } else {
            Seq::empty()
        }) + self@.base);

        let mut i: usize = 0;
        while i < self.path.len()
            invariant
                i <= self.path.len(),
                uri@ == (if include_scheme {
                    self@.scheme + seq![':', '/', '/']
                } else {
                    Seq::empty()
                }) + self@.base + join_segments(self@.path.take(i as int)),
            decreases self.path.len() - i,
        {
            proof {
                reveal_strlit("/");
            }
            uri.append("/");
            uri.append(self.path[i].as_str());
            proof {
                assert(self@.path.take(i + 1).drop_last() =~= self@.path.take(i as int));
            }
            i = i + 1;
        }
        assert(self@.path.take(self.path.len() as int) =~= self@.path);
        uri
    }

    /// Whether this URI is an autocomplete suggestion for the typed input.
    pub fn autocomplete(&self, input_uri: &HistoryUri) -> (res: bool)
        ensures
            res == completes(self@, input_uri@),
    {
        let same_path = same_segments(&self.path, &input_uri.path);

        // Ignore exact matches, since there's nothing to complete.
        if self.base == input_uri.base && same_path {
            return false;
        }
        // Ensure scheme matches if present.
        if !input_uri.scheme.as_str().is_empty() && !(self.scheme == input_uri.scheme) {
            return false;
        }
        // Check if input is submatch of base without any path segments.
        if !(self.base == input_uri.base) {
            let base = chars_of(self.base.as_str());
            let input_base = chars_of(input_uri.base.as_str());
            return input_uri.path.len() == 0 && starts_with(&base, &input_base);
        }
        // Abort if input is longer than URI.
        let input_path_len = input_uri.path.len();
        if self.path.len() < input_path_len {
            return false;
        }
        // Check for difference in path segments.
        let mut i: usize = 0;
        while i < input_path_len
            invariant
                input_path_len == input_uri.path.len() <= self.path.len(),
                i <= input_path_len,
                forall|j: int| 0 <= j < i ==> #[trigger] segment_completes(self@, input_uri@, j),
            decreases input_path_len - i,
        {
            assert(self@.path[i as int] == self.path@[i as int]@);
            assert(input_uri@.path[i as int] == input_uri.path@[i as int]@);
            let segment = chars_of(self.path[i].as_str());
            let input_segment = chars_of(input_uri.path[i].as_str());
            let is_prefix = starts_with(&segment, &input_segment);
            let equal = input_uri.path[i] == self.path[i];
            if !is_prefix || (!equal && i + 1 != input_path_len) {
                assert(!segment_completes(self@, input_uri@, i as int));
                return false;
            }
            assert(input_uri@.path[i as int] == self@.path[i as int] || i + 1 == input_path_len);
            assert(segment_completes(self@, input_uri@, i as int));
            i = i + 1;
        }
        true
    }

    /// Trim redundant path segments.
    ///
    /// This removes path segments like double slashes or trailing slashes to
    /// avoid bloating the history with multiple URIs per target resource.
    pub fn normalize(&mut self)
        ensures
            final(self)@ == normalized(old(self)@),
    {
        let mut kept: Vec<String> = Vec::new();
        let mut i: usize = 0;
        while i < self.path.len()
            invariant
                i <= self.path.len(),
                string_views(kept@) == non_empty_segments(string_views(self.path@).take(i as int)),
            decreases self.path.len() - i,
        {
            let ghost before = string_views(self.path@).take(i as int);
            proof {
                assert(string_views(self.path@).take(i + 1).drop_last() =~= before);
            }
            if !self.path[i].as_str().is_empty() {
                let ghost old_kept = kept@;
                kept.push(self.path[i].clone());
                assert(string_views(kept@) =~= string_views(old_kept).push(self@.path[i as int]));
            }
            i = i + 1;
        }
        assert(string_views(self.path@).take(self.path.len() as int) =~= string_views(self.path@));
        self.path = kept;
    }

    /// Copy of this URI.
    pub fn duplicate(&self) -> (r: Self)
        ensures
            r@ == self@,
    {
        HistoryUri {
            scheme: self.scheme.clone(),
            base: self.base.clone(),
            path: copy_strings(&self.path),
        }
    }
}

impl<'a> From<&'a str> for HistoryUri {
    fn from(s: &'a str) -> (r: Self)
        ensures
            r@ == parse_history_uri(s@),
    {
        Self::new(s)
    }
}

impl<'a> vstd::std_specs::convert::FromSpecImpl<&'a str> for HistoryUri {
    open spec fn obeys_from_spec() -> bool {
        false
    }

    open spec fn from_spec(v: &'a str) -> Self {
        vstd::pervasive::arbitrary()
    }
}

/// Mathematical value of a [`HistoryEntry`].
pub struct HistoryEntryView {
    pub title: Seq<char>,
    pub views: u32,
    pub last_access: i64,
}

/// Single entry in the browser history.
#[derive(Clone, Default, Debug)]
pub struct HistoryEntry {
    pub title: String,
    pub views: u32,
    pub last_access: i64,
}

impl View for HistoryEntry {
    type V = HistoryEntryView;

    open spec fn view(&self) -> HistoryEntryView {
        HistoryEntryView { title: self.title@, views: self.views, last_access: self.last_access }
    }
}

impl HistoryEntry {
    /// Copy of this entry.
    pub fn duplicate(&self) -> (r: Self)
        ensures
            r@ == self@,
    {
        HistoryEntry { title: self.title.clone(), views: self.views, last_access: self.last_access }
    }
}

/// A history record: normalized URI and its entry.
pub type Record = (HistoryUriView, HistoryEntryView);

/// Whether no URI occurs twice among the records.
pub open spec fn unique_keys(r: Seq<Record>) -> bool {
    forall|i: int, j: int| 0 <= i < r.len() && 0 <= j < r.len() && i != j ==> r[i].0 != r[j].0
}

/// Position of the record for `key`.
pub open spec fn index_of_key(r: Seq<Record>, key: HistoryUriView) -> Option<int> {
    if exists|i: int| 0 <= i < r.len() && r[i].0 == key {
        Some(choose|i: int| 0 <= i < r.len() && r[i].0 == key)
    } else {
        None
    }
}

/// Entry stored for `key`.
pub open spec fn lookup(r: Seq<Record>, key: HistoryUriView) -> Option<HistoryEntryView> {
    match index_of_key(r, key) {
        Some(i) => Some(r[i].1),
        None => None,
    }
}

/// Records after inserting `entry` for `key`, replacing an earlier entry for
/// the same key in place.
pub open spec fn upsert(r: Seq<Record>, key: HistoryUriView, entry: HistoryEntryView) -> Seq<Record> {
    match index_of_key(r, key) {
        Some(i) => r.update(i, (r[i].0, entry)),
        None => r.push((key, entry)),
    }
}

/// Records built from loaded rows, a later row for the same URI replacing the
/// entry of an earlier one.
pub open spec fn collect_records(rows: Seq<Record>) -> Seq<Record>
    decreases rows.len(),
{
    if rows.len() == 0 {
        Seq::empty()
    } else {
        upsert(collect_records(rows.drop_last()), rows.last().0, rows.last().1)
    }
}

/// Key under which a visited URI is stored.
pub open spec fn history_key(uri: Seq<char>) -> HistoryUriView {
    normalized(parse_history_uri(uri))
}

/// Entry after one more visit.
pub open spec fn visited_entry(entry: Option<HistoryEntryView>) -> HistoryEntryView {
    match entry {
        Some(e) => HistoryEntryView { title: e.title, views: (e.views + 1) as u32, last_access: e.last_access },
        None => HistoryEntryView { title: Seq::empty(), views: 1, last_access: 0 },
    }
}

/// Whether two URIs are equal.
fn same_uri(a: &HistoryUri, b: &HistoryUri) -> (res: bool)
    ensures
        res == (a@ == b@),
{
    let path = same_segments(&a.path, &b.path);
    a.scheme == b.scheme && a.base == b.base && path
}

/// Index in `r` of the record for a key that occurs at position `i`.
proof fn lemma_index_of_key(r: Seq<Record>, key: HistoryUriView, i: int)
    requires
        unique_keys(r),
        0 <= i < r.len(),
        r[i].0 == key,
    ensures
        index_of_key(r, key) == Some(i),
{
}

/// Updating a value keeps keys unique; pushing a new key keeps them unique.
pub(crate) proof fn lemma_upsert_unique(r: Seq<Record>, key: HistoryUriView, entry: HistoryEntryView)
    requires
        unique_keys(r),
    ensures
        unique_keys(upsert(r, key, entry)),
        lookup(upsert(r, key, entry), key) == Some(entry),
        forall|k: HistoryUriView| k != key ==> lookup(upsert(r, key, entry), k) == lookup(r, k),
{
    let u = upsert(r, key, entry);
    match index_of_key(r, key) {
        Some(i) => {
            assert(unique_keys(u));
            lemma_index_of_key(u, key, i);
            assert forall|k: HistoryUriView| k != key implies lookup(u, k) == lookup(r, k) by {
                if exists|j: int| 0 <= j < r.len() && r[j].0 == k {
                    let j = choose|j: int| 0 <= j < r.len() && r[j].0 == k;
                    lemma_index_of_key(r, k, j);
                    lemma_index_of_key(u, k, j);
                } else {
                    assert(!exists|j: int| 0 <= j < u.len() && u[j].0 == k);
                }
            }
        },
        None => {
            assert(unique_keys(u));
            lemma_index_of_key(u, key, r.len() as int);
            assert forall|k: HistoryUriView| k != key implies lookup(u, k) == lookup(r, k) by {
                if exists|j: int| 0 <= j < r.len() && r[j].0 == k {
                    let j = choose|j: int| 0 <= j < r.len() && r[j].0 == k;
                    lemma_index_of_key(r, k, j);
                    lemma_index_of_key(u, k, j);
                } else {
                    assert(!exists|j: int| 0 <= j < u.len() && u[j].0 == k);
                }
            }
        },
    }
}

/// Inserting under a key of parsed shape keeps every key of parsed shape.
proof fn lemma_upsert_separable(r: Seq<Record>, key: HistoryUriView, entry: HistoryEntryView)
    requires
        separable_keys(r),
        separable(key),
    ensures
        separable_keys(upsert(r, key, entry)),
{
    let u = upsert(r, key, entry);
    assert forall|i: int| 0 <= i < u.len() implies separable(#[trigger] u[i].0) by {
        if i < r.len() {
            match index_of_key(r, key) {
                Some(j) => {
                    if i == j {
                        assert(u[i].0 == r[j].0);
                    } else {
                        assert(u[i] == r[i]);
                    }
                },
                None => {
                    assert(u[i] == r[i]);
                },
            }
        }
    }
}

/// Browser history held in memory.
///
/// Persisting the history is up to the caller: every operation that changes a
/// stored URI returns the URI's text as it is persisted.
pub struct History {
    uris: Vec<HistoryUri>,
    entries: Vec<HistoryEntry>,
}

impl History {
    /// The records, in storage order.
    pub closed spec fn records(&self) -> Seq<Record> {
        Seq::new(self.uris.len() as nat, |i: int| (self.uris@[i]@, self.entries@[i]@))
    }

    /// Well-formedness: one entry per URI, no URI twice, and every URI with
    /// the shape of a parsed one.
    pub closed spec fn wf(&self) -> bool {
        &&& self.uris.len() == self.entries.len()
        &&& unique_keys(self.records())
        &&& separable_keys(self.records())
    }

    /// Position of the record whose URI equals `key`.
    fn position(&self, key: &HistoryUri) -> (r: Option<usize>)
        requires
            self.wf(),
        ensures
            match r {
                Some(i) => i < self.uris.len() && index_of_key(self.records(), key@) == Some(i as int),
                None => index_of_key(self.records(), key@) is None,
            },
    {
        let mut i: usize = 0;
        while i < self.uris.len()
            invariant
                self.wf(),
                i <= self.uris.len(),
                forall|j: int| 0 <= j < i ==> self.records()[j].0 != key@,
            decreases self.uris.len() - i,
        {
            if same_uri(&self.uris[i], key) {
                proof {
                    lemma_index_of_key(self.records(), key@, i as int);
                }
                return Some(i);
            }
            i = i + 1;
        }
        None
    }

    /// Insert or replace the entry for `key`.
    fn upsert_entry(&mut self, key: HistoryUri, entry: HistoryEntry)
        requires
            old(self).wf(),
            separable(key@),
        ensures
            final(self).wf(),
            final(self).records() == upsert(old(self).records(), key@, entry@),
    {
        let ghost r = self.records();
        proof {
            lemma_upsert_unique(r, key@, entry@);
            lemma_upsert_separable(r, key@, entry@);
        }
        match self.position(&key) {
            Some(i) => {
                self.entries.set(i, entry);
                assert(self.records() =~= upsert(r, key@, entry@));
            },
            None => {
                self.uris.push(key);
                self.entries.push(entry);
                assert(self.records() =~= upsert(r, key@, entry@));
            },
        }
    }

    /// History holding the loaded records, each stored URI text parsed, a
    /// later record for the same parsed URI replacing the entry of an earlier
    /// one.
    pub fn new(loaded: Vec<(String, HistoryEntry)>) -> (h: Self)
        ensures
            h.wf(),
            h.records() == collect_records(loaded@.map_values(|e: (String, HistoryEntry)| (parse_history_uri(e.0@), e.1@))),
    {
        let ghost rows = loaded@.map_values(|e: (String, HistoryEntry)| (parse_history_uri(e.0@), e.1@));
        let mut h = History { uris: Vec::new(), entries: Vec::new() };
        assert(h.records() =~= collect_records(rows.take(0)));
        let mut i: usize = 0;
        while i < loaded.len()
            invariant
                i <= loaded.len(),
                rows == loaded@.map_values(|e: (String, HistoryEntry)| (parse_history_uri(e.0@), e.1@)),
                h.wf(),
                h.records() == collect_records(rows.take(i as int)),
            decreases loaded.len() - i,
        {
            let uri = HistoryUri::new(loaded[i].0.as_str());
            let entry = loaded[i].1.duplicate();
            h.upsert_entry(uri, entry);
            proof {
                assert(rows.take(i + 1).drop_last() =~= rows.take(i as int));
                assert(rows.take(i + 1).last() == rows[i as int]);
            }
            i = i + 1;
        }
        assert(rows.take(loaded.len() as int) =~= rows);
        h
    }

    /// Number of stored URIs.
    pub fn len(&self) -> (n: usize)
        requires
            self.wf(),
        ensures
            n == self.records().len(),
    {
        self.uris.len()
    }

    /// Copy of the stored records, in storage order.
    pub fn snapshot(&self) -> (rows: Vec<(HistoryUri, HistoryEntry)>)
        requires
            self.wf(),
        ensures
            row_views(rows@) == self.records(),
    {
        let mut rows: Vec<(HistoryUri, HistoryEntry)> = Vec::new();
        let mut i: usize = 0;
        while i < self.uris.len()
            invariant
                self.wf(),
                i <= self.uris.len(),
                row_views(rows@) == self.records().take(i as int),
            decreases self.uris.len() - i,
        {
            let ghost before = rows@;
            let uri = self.uris[i].duplicate();
            let entry = self.entries[i].duplicate();
            let ghost pair = (uri@, entry@);
            rows.push((uri, entry));
            proof {
                assert(rows@ == before.push((uri, entry)));
                assert(pair == self.records()[i as int]);
                assert(row_views(rows@) =~= row_views(before).push(pair));
            }
            i = i + 1;
            assert(row_views(rows@) =~= self.records().take(i as int));
        }
        assert(self.records().take(self.uris.len() as int) =~= self.records());
        rows
    }

    /// Entry stored for a URI, looked up by its normalized form.
    pub fn entry(&self, uri: &str) -> (e: Option<&HistoryEntry>)
        requires
            self.wf(),
        ensures
            match e {
                Some(e) => lookup(self.records(), history_key(uri@)) == Some(e@),
                None => lookup(self.records(), history_key(uri@)) is None,
            },
    {
        let mut history_uri = HistoryUri::new(uri);
        history_uri.normalize();
        match self.position(&history_uri) {
            Some(i) => Some(&self.entries[i]),
            None => None,
        }
    }

    /// Increment URI visit count for history.
    ///
    /// Returns the normalized URI text to persist, or `None` when the URI is
    /// ignored for lacking a base.
    pub fn visit(&mut self, uri: &str) -> (persisted: Option<String>)
        requires
            old(self).wf(),
            lookup(old(self).records(), history_key(uri@)) matches Some(e) ==> e.views < u32::MAX,
        ensures
            final(self).wf(),
            history_key(uri@).base.len() == 0 ==> {
                &&& persisted is None
                &&& final(self).records() == old(self).records()
            },
            history_key(uri@).base.len() != 0 ==> {
                &&& persisted matches Some(p) && p@ == uri_text(history_key(uri@), true)
                &&& final(self).records() == upsert(
                    old(self).records(),
                    history_key(uri@),
                    visited_entry(lookup(old(self).records(), history_key(uri@))),
                )
            },
    {
        let mut history_uri = HistoryUri::new(uri);
        history_uri.normalize();
        proof {
            crate::history_laws::law_parsed_uri_separable(uri@);
        }

        // Ignore invalid URIs.
        if history_uri.base.as_str().is_empty() {
            return None;
        }

        let normalized_uri = history_uri.to_string(true);

        let entry = match self.position(&history_uri) {
            Some(i) => {
                let old_entry = &self.entries[i];
                HistoryEntry {
                    title: old_entry.title.clone(),
                    views: old_entry.views + 1,
                    last_access: old_entry.last_access,
                }
            },
            None => HistoryEntry { title: String::new(), views: 1, last_access: 0 },
        };
        self.upsert_entry(history_uri, entry);

        Some(normalized_uri)
    }

    /// Set the title for a URI.
    ///
    /// Returns the normalized URI text to persist, or `None` when the URI is
    /// ignored for lacking a base.
    pub fn set_title(&mut self, uri: &str, title: String) -> (persisted: Option<String>)
        requires
            old(self).wf(),
        ensures
            final(self).wf(),
            history_key(uri@).base.len() == 0 ==> {
                &&& persisted is None
                &&& final(self).records() == old(self).records()
            },
            history_key(uri@).base.len() != 0 ==> {
                &&& persisted matches Some(p) && p@ == uri_text(history_key(uri@), true)
                &&& final(self).records() == match lookup(old(self).records(), history_key(uri@)) {
                    Some(e) => upsert(
                        old(self).records(),
                        history_key(uri@),
                        HistoryEntryView { title: title@, views: e.views, last_access: e.last_access },
                    ),
                    None => old(self).records(),
                }
            },
    {
        let mut history_uri = HistoryUri::new(uri);
        history_uri.normalize();
        proof {
            crate::history_laws::law_parsed_uri_separable(uri@);
        }

        // Ignore invalid URIs.
        if history_uri.base.as_str().is_empty() {
            return None;
        }

        let normalized_uri = history_uri.to_string(true);

        match self.position(&history_uri) {
            Some(i) => {
                let views = self.entries[i].views;
                let last_access = self.entries[i].last_access;
                self.upsert_entry(history_uri, HistoryEntry { title, views, last_access });
            },
            None => {},
        }

        Some(normalized_uri)
    }

    /// Delete an entry from the history.
    ///
    /// Returns the normalized URI text to delete from persistent storage, or
    /// `None` when the URI is ignored for lacking a base.
    pub fn delete(&mut self, uri: &str) -> (persisted: Option<String>)
        requires
            old(self).wf(),
        ensures
            final(self).wf(),
            history_key(uri@).base.len() == 0 ==> {
                &&& persisted is None
                &&& final(self).records() == old(self).records()
            },
            history_key(uri@).base.len() != 0 ==> {
                &&& persisted matches Some(p) && p@ == uri_text(history_key(uri@), true)
                &&& final(self).records() == match index_of_key(old(self).records(), history_key(uri@)) {
                    Some(i) => old(self).records().remove(i),
                    None => old(self).records(),
                }
            },
    {
        let mut history_uri = HistoryUri::new(uri);
        history_uri.normalize();

        // Ignore invalid URIs.
        if history_uri.base.as_str().is_empty() {
            return None;
        }

        let normalized_uri = history_uri.to_string(true);

        match self.position(&history_uri) {
            Some(i) => {
                let ghost r = self.records();
                self.uris.remove(i);
                self.entries.remove(i);
                assert(self.records() =~= r.remove(i as int));
            },
            None => {},
        }

        Some(normalized_uri)
    }
}

/// Whether a record's URI text or title contains the filter text.
pub open spec fn record_matches_filter(rec: Record, filter: Seq<char>) -> bool {
    contains_seq(uri_text(rec.0, true), filter) || contains_seq(rec.1.title, filter)
}

/// Records that do not match the filter, in order.
pub open spec fn without_matching(r: Seq<Record>, filter: Seq<char>) -> Seq<Record>
    decreases r.len(),
{
    if r.len() == 0 {
        Seq::empty()
    } else if record_matches_filter(r.last(), filter) {
        without_matching(r.drop_last(), filter)
    } else {
        without_matching(r.drop_last(), filter).push(r.last())
    }
}

/// Records that match the filter, in order.
pub open spec fn only_matching(r: Seq<Record>, filter: Seq<char>) -> Seq<Record>
    decreases r.len(),
{
    if r.len() == 0 {
        Seq::empty()
    } else if record_matches_filter(r.last(), filter) {
        only_matching(r.drop_last(), filter).push(r.last())
    } else {
        only_matching(r.drop_last(), filter)
    }
}

/// Views of loaded history rows.
pub open spec fn row_views(rows: Seq<(HistoryUri, HistoryEntry)>) -> Seq<Record> {
    rows.map_values(|e: (HistoryUri, HistoryEntry)| (e.0@, e.1@))
}

/// History rows whose URI text or title contains the filter text, in their
/// loaded order.
pub fn filter_rows(rows: &Vec<(HistoryUri, HistoryEntry)>, filter: &str) -> (kept: Vec<(HistoryUri, HistoryEntry)>)
    ensures
        row_views(kept@) == only_matching(row_views(rows@), filter@),
{
    let ghost r = row_views(rows@);
    let filter_chars = chars_of(filter);
    let mut kept: Vec<(HistoryUri, HistoryEntry)> = Vec::new();
    let mut i: usize = 0;
    while i < rows.len()
        invariant
            r == row_views(rows@),
            filter_chars@ == filter@,
            i <= rows.len(),
            row_views(kept@) == only_matching(r.take(i as int), filter@),
        decreases rows.len() - i,
    {
        let ghost before = row_views(kept@);
        proof {
            assert(r.take(i + 1).drop_last() =~= r.take(i as int));
            assert(r.take(i + 1).last() == r[i as int]);
        }
        let uri_text_chars = chars_of(rows[i].0.to_string(true).as_str());
        let title_chars = chars_of(rows[i].1.title.as_str());
        let matched = contains(&uri_text_chars, &filter_chars) || contains(&title_chars, &filter_chars);
        if matched {
            let uri = rows[i].0.duplicate();
            let entry = rows[i].1.duplicate();
            kept.push((uri, entry));
            assert(row_views(kept@) =~= before.push(r[i as int]));
        }
        i = i + 1;
    }
    assert(r.take(rows.len() as int) =~= r);
    kept
}

/// Every record kept by `without_matching` is one of the given records.
proof fn lemma_without_matching_subset(r: Seq<Record>, filter: Seq<char>)
    ensures
        forall|k: int|
            0 <= k < without_matching(r, filter).len() ==> exists|j: int|
                0 <= j < r.len() && r[j] == #[trigger] without_matching(r, filter)[k],
    decreases r.len(),
{
    if r.len() > 0 {
        lemma_without_matching_subset(r.drop_last(), filter);
        let w = without_matching(r, filter);
        let w0 = without_matching(r.drop_last(), filter);
        assert forall|k: int| 0 <= k < w.len() implies exists|j: int|
            0 <= j < r.len() && r[j] == #[trigger] w[k] by {
            if k < w0.len() {
                let j = choose|j: int| 0 <= j < r.drop_last().len() && r.drop_last()[j] == w0[k];
                assert(r[j] == w[k]);
            } else {
                assert(r[r.len() - 1] == w[k]);
            }
        }
    }
}

/// Text suggested for completing typed input with a stored URI: the scheme
/// only when one was typed, and a trailing slash for a URI without path.
pub open spec fn suggestion_text(key: HistoryUriView, input: HistoryUriView) -> Seq<char> {
    uri_text(key, input.scheme.len() != 0) + (if key.path.len() == 0 {
        seq!['/']
    } else {
        Seq::empty()
    })
}

/// Whether a stored record is a completion candidate for the input.
pub open spec fn is_candidate(r: Seq<Record>, input: HistoryUriView, i: int) -> bool {
    0 <= i < r.len() && completes(r[i].0, input)
}

/// Whether the `i`-th record is a candidate with the most views among all.
pub open spec fn is_best_candidate(r: Seq<Record>, input: HistoryUriView, i: int) -> bool {
    &&& is_candidate(r, input, i)
    &&& forall|j: int| #[trigger] is_candidate(r, input, j) ==> r[j].1.views <= r[i].1.views
}

/// Whether autocompletion is attempted for the typed text: no `?` in it and a
/// non-empty base.
pub open spec fn completable_input(input: Seq<char>) -> bool {
    find_char(input, '?') is None && parse_history_uri(input).base.len() != 0
}

/// Whether the typed text asks for case-sensitive search.
pub open spec fn case_sensitive(input: Seq<char>) -> bool {
    exists|i: int| 0 <= i < input.len() && is_uppercase(#[trigger] input[i])
}

/// Text compared against the input: unchanged for case-sensitive search, else
/// lowercased.
pub open spec fn folded(s: Seq<char>, sensitive: bool) -> Seq<char> {
    if sensitive {
        s
    } else {
        lowercase(s)
    }
}

/// Score of compared texts for the input: occurrences of the input in the
/// URI text and in the title, plus 1000 when the base or the title starts
/// with the input.
pub open spec fn text_score(uri: Seq<char>, title: Seq<char>, base: Seq<char>, input: Seq<char>) -> nat {
    count_occurrences(uri, input) + count_occurrences(title, input) + (if input.is_prefix_of(base)
        || input.is_prefix_of(title) {
        1000nat
    } else {
        0nat
    })
}

/// A score as a `usize` holds it: one beyond the largest `usize` is held as
/// the largest.
pub open spec fn capped(n: nat) -> nat {
    if n <= usize::MAX {
        n
    } else {
        usize::MAX as nat
    }
}

/// Relevance of a record for a search: the score of its URI text and title,
/// both lowercased unless the search is case-sensitive, and of its base as
/// it is.
pub open spec fn match_score(rec: Record, input: Seq<char>) -> nat {
    let sensitive = case_sensitive(input);
    text_score(
        folded(uri_text(rec.0, true), sensitive),
        folded(rec.1.title, sensitive),
        rec.0.base,
        input,
    )
}

/// Mathematical value of a [`HistoryMatch`].
pub struct HistoryMatchView {
    pub uri: Seq<char>,
    pub title: Seq<char>,
    pub score: nat,
}

/// Matches for all records with a non-zero score, in storage order.
pub open spec fn scored_matches(r: Seq<Record>, input: Seq<char>) -> Seq<HistoryMatchView>
    decreases r.len(),
{
    if r.len() == 0 {
        Seq::empty()
    } else {
        let rest = scored_matches(r.drop_last(), input);
        let score = capped(match_score(r.last(), input));
        if score == 0 {
            rest
        } else {
            rest.push(
                HistoryMatchView { uri: uri_text(r.last().0, true), title: r.last().1.title, score },
            )
        }
    }
}

/// The first `n` items, or all of them when there are fewer.
pub open spec fn first_n<A>(s: Seq<A>, n: nat) -> Seq<A> {
    if s.len() <= n {
        s
    } else {
        s.take(n as int)
    }
}

/// Whether matches are in ascending score order.
pub open spec fn ascending(m: Seq<HistoryMatchView>) -> bool {
    forall|i: int, j: int| 0 <= i <= j < m.len() ==> m[i].score <= m[j].score
}

/// Whether no two matches share a URI text.
pub open spec fn distinct_uris(m: Seq<HistoryMatchView>) -> bool {
    forall|i: int, j: int| 0 <= i < m.len() && 0 <= j < m.len() && i != j ==> m[i].uri != m[j].uri
}

/// Whether every stored URI has parts that its text splits back into, as
/// every parsed URI has.
pub open spec fn separable_keys(r: Seq<Record>) -> bool {
    forall|i: int| 0 <= i < r.len() ==> separable(#[trigger] r[i].0)
}

/// Each scored match carries the URI text of a record.
proof fn lemma_scored_from_records(r: Seq<Record>, input: Seq<char>)
    ensures
        forall|k: int|
            0 <= k < scored_matches(r, input).len() ==> exists|j: int|
                0 <= j < r.len() && (#[trigger] scored_matches(r, input)[k]).uri == uri_text(r[j].0, true),
    decreases r.len(),
{
    if r.len() > 0 {
        lemma_scored_from_records(r.drop_last(), input);
        let m = scored_matches(r, input);
        let m0 = scored_matches(r.drop_last(), input);
        assert forall|k: int| 0 <= k < m.len() implies exists|j: int|
            0 <= j < r.len() && (#[trigger] m[k]).uri == uri_text(r[j].0, true) by {
            if k < m0.len() {
                assert(m[k] == m0[k]);
                let j = choose|j: int| 0 <= j < r.drop_last().len() && m0[k].uri == uri_text(r.drop_last()[j].0, true);
                assert(r[j] == r.drop_last()[j]);
            } else {
                assert(m[k].uri == uri_text(r[r.len() - 1].0, true));
            }
        }
    }
}

/// Scored matches of records with distinct, separable URIs have distinct
/// URI texts.
proof fn lemma_scored_distinct(r: Seq<Record>, input: Seq<char>)
    requires
        unique_keys(r),
        separable_keys(r),
    ensures
        distinct_uris(scored_matches(r, input)),
    decreases r.len(),
{
    if r.len() > 0 {
        let r0 = r.drop_last();
        assert(unique_keys(r0));
        assert(separable_keys(r0)) by {
            assert forall|i: int| 0 <= i < r0.len() implies separable(#[trigger] r0[i].0) by {
                assert(r0[i] == r[i]);
            }
        }
        lemma_scored_distinct(r0, input);
        lemma_scored_from_records(r0, input);
        let m = scored_matches(r, input);
        let m0 = scored_matches(r0, input);
        if capped(match_score(r.last(), input)) != 0 {
            assert forall|a: int, b: int| 0 <= a < m.len() && 0 <= b < m.len() && a != b implies m[a].uri != m[b].uri by {
                if a < m0.len() && b < m0.len() {
                    assert(m[a] == m0[a]);
                    assert(m[b] == m0[b]);
                } else {
                    let k = if a < m0.len() { a } else { b };
                    assert(m[k] == m0[k]);
                    let j = choose|j: int| 0 <= j < r0.len() && (#[trigger] m0[k]).uri == uri_text(r0[j].0, true);
                    assert(r0[j] == r[j]);
                    let last = r.len() - 1;
                    assert(m[m0.len() as int].uri == uri_text(r[last].0, true));
                    if uri_text(r[j].0, true) == uri_text(r[last].0, true) {
                        assert(separable(r[j].0));
                        assert(separable(r[last].0));
                        crate::history_laws::law_uri_text_injective(r[j].0, r[last].0);
                    }
                }
            }
        }
    }
}

/// Match for a history query.
pub struct HistoryMatch {
    pub uri: String,
    pub title: String,
    pub score: usize,
}

impl View for HistoryMatch {
    type V = HistoryMatchView;

    open spec fn view(&self) -> HistoryMatchView {
        HistoryMatchView { uri: self.uri@, title: self.title@, score: self.score as nat }
    }
}

/// Views of a list of matches.
pub open spec fn match_views(m: Seq<HistoryMatch>) -> Seq<HistoryMatchView> {
    m.map_values(|x: HistoryMatch| x@)
}

/// History search results, held in a `smallvec::SmallVec` with inline room
/// for [`MAX_MATCHES`] matches.
#[verifier::external_body]
pub struct HistoryMatches {
    items: SmallVec<[HistoryMatch; 25]>,
}

/// Items of the search results, in order.
pub uninterp spec fn match_items(m: HistoryMatches) -> Seq<HistoryMatch>;

/// Search results holding the given matches.
///
/// Trusted: calls `smallvec::SmallVec::from_vec`, which moves the vector's
/// elements, in order, into the new small vector; the contract claims its
/// items are the vector's items.
#[verifier::external_body]
fn matches_from_vec(v: Vec<HistoryMatch>) -> (r: HistoryMatches)
    ensures
        match_items(r) == v@,
{
    HistoryMatches { items: SmallVec::from_vec(v) }
}

/// Number of matches held.
///
/// Trusted: calls `smallvec::SmallVec::len`, the number of items held.
#[verifier::external_body]
fn matches_len(m: &HistoryMatches) -> (n: usize)
    ensures
        n == match_items(*m).len(),
{
    m.items.len()
}

/// The matches held, as a slice.
///
/// Trusted: calls `smallvec::SmallVec::as_slice`, the items held, in order.
#[verifier::external_body]
fn matches_slice(m: &HistoryMatches) -> (s: &[HistoryMatch])
    ensures
        s@ == match_items(*m),
{
    m.items.as_slice()
}

impl HistoryMatches {
    /// Number of matches.
    pub fn len(&self) -> (n: usize)
        ensures
            n == match_items(*self).len(),
    {
        matches_len(self)
    }

    /// The matches, in ascending relevance.
    pub fn as_slice(&self) -> (s: &[HistoryMatch])
        ensures
            s@ == match_items(*self),
    {
        matches_slice(self)
    }
}

/// Score of a URI text and a title, as they are compared, and of a URI's
/// base for a non-empty input: occurrences of the input in the URI text and
/// in the title, plus 1000 when the base or the title starts with the input;
/// a sum beyond the largest `usize` is held as the largest.
pub fn score_text(uri: &str, title: &str, base: &str, input: &str) -> (score: usize)
    requires
        input@.len() > 0,
    ensures
        score == capped(text_score(uri@, title@, base@, input@)),
{
    let uri_chars = chars_of(uri);
    let title_chars = chars_of(title);
    let base_chars = chars_of(base);
    let input_chars = chars_of(input);

    // Score match by number of occurrences, preferring a match at the start.
    let uri_count = count_matches(&uri_chars, &input_chars);
    let title_count = count_matches(&title_chars, &input_chars);
    let mut score = uri_count.saturating_add(title_count);
    if starts_with(&base_chars, &input_chars) || starts_with(&title_chars, &input_chars) {
        score = score.saturating_add(1000);
    }
    score
}

/// A non-empty input that starts a text occurs in it at least once.
proof fn lemma_prefix_occurs(hay: Seq<char>, needle: Seq<char>)
    requires
        needle.len() > 0,
        needle.is_prefix_of(hay),
    ensures
        count_occurrences(hay, needle) >= 1,
{
}

/// A title or a base that starts with the input earns the bonus of 1000,
/// whatever the other texts hold; a title that starts with it also counts
/// one occurrence. Without such a start the score is the number of
/// occurrences in the URI text and the title alone.
pub proof fn law_prefix_bonus(uri: Seq<char>, title: Seq<char>, base: Seq<char>, input: Seq<char>)
    requires
        input.len() > 0,
    ensures
        input.is_prefix_of(title) ==> text_score(uri, title, base, input) >= 1001,
        input.is_prefix_of(title) ==> capped(text_score(uri, title, base, input)) >= 1001,
        input.is_prefix_of(base) ==> text_score(uri, title, base, input) >= 1000,
        input.is_prefix_of(base) ==> capped(text_score(uri, title, base, input)) >= 1000,
        !input.is_prefix_of(title) && !input.is_prefix_of(base) ==> text_score(uri, title, base, input)
            == count_occurrences(uri, input) + count_occurrences(title, input),
{
    if input.is_prefix_of(title) {
        lemma_prefix_occurs(title, input);
    }
}

/// URI text of a record and its score for the input.
fn score_record(uri: &HistoryUri, entry: &HistoryEntry, input: &str, sensitive: bool) -> (r: (String, usize))
    requires
        input@.len() > 0,
        sensitive == case_sensitive(input@),
    ensures
        r.0@ == uri_text(uri@, true),
        r.1 == capped(match_score((uri@, entry@), input@)),
{
    let uri_str = uri.to_string(true);

    // Convert to lowercase for case-insensitive search.
    let score = if sensitive {
        score_text(uri_str.as_str(), entry.title.as_str(), uri.base.as_str(), input)
    } else {
        let lower_uri = to_lowercase(uri_str.as_str());
        let lower_title = to_lowercase(entry.title.as_str());
        score_text(lower_uri.as_str(), lower_title.as_str(), uri.base.as_str(), input)
    };
    (uri_str, score)
}

impl History {
    /// Bulk delete history entries: all of them without a filter, else those
    /// whose URI text or title contains the filter.
    pub fn bulk_delete(&mut self, filter: Option<&str>)
        requires
            old(self).wf(),
        ensures
            final(self).wf(),
            final(self).records() == match filter {
                Some(f) => without_matching(old(self).records(), f@),
                None => Seq::empty(),
            },
    {
        let filter = match filter {
            Some(filter) => filter,
            None => {
                self.uris = Vec::new();
                self.entries = Vec::new();
                assert(self.records() =~= Seq::<Record>::empty());
                return ;
            },
        };
        let ghost r = self.records();
        let filter_chars = chars_of(filter);
        let mut uris: Vec<HistoryUri> = Vec::new();
        let mut entries: Vec<HistoryEntry> = Vec::new();
        let mut i: usize = 0;
        while i < self.uris.len()
            invariant
                self.wf(),
                r == self.records(),
                filter_chars@ == filter@,
                i <= self.uris.len(),
                uris.len() == entries.len(),
                Seq::new(uris.len() as nat, |k: int| (uris@[k]@, entries@[k]@)) == without_matching(
                    r.take(i as int),
                    filter@,
                ),
            decreases self.uris.len() - i,
        {
            let ghost kept = Seq::new(uris.len() as nat, |k: int| (uris@[k]@, entries@[k]@));
            proof {
                assert(r.take(i + 1).drop_last() =~= r.take(i as int));
                assert(r.take(i + 1).last() == r[i as int]);
            }
            let uri_text_chars = chars_of(self.uris[i].to_string(true).as_str());
            let title_chars = chars_of(self.entries[i].title.as_str());
            let matched = contains(&uri_text_chars, &filter_chars) || contains(&title_chars, &filter_chars);
            if !matched {
                uris.push(self.uris[i].duplicate());
                entries.push(self.entries[i].duplicate());
                assert(Seq::new(uris.len() as nat, |k: int| (uris@[k]@, entries@[k]@)) =~= kept.push(r[i as int]));
            } else {
                assert(Seq::new(uris.len() as nat, |k: int| (uris@[k]@, entries@[k]@)) =~= kept);
            }
            i = i + 1;
        }
        assert(r.take(self.uris.len() as int) =~= r);
        let ghost w = without_matching(r, filter@);
        self.uris = uris;
        self.entries = entries;
        assert(self.records() =~= w);
        proof {
            lemma_without_matching_subset(r, filter@);
            assert forall|a: int, b: int| 0 <= a < w.len() && 0 <= b < w.len() && a != b implies w[a].0 != w[b].0 by {
                lemma_without_matching_indices(r, filter@, a, b);
            }
        }
    }

    /// Get autocomplete suggestion for an input.
    pub fn autocomplete(&self, input: &str) -> (suggestion: Option<String>)
        requires
            self.wf(),
        ensures
            !completable_input(input@) ==> suggestion is None,
            completable_input(input@) ==> (suggestion is None <==> !exists|i: int|
                is_candidate(self.records(), parse_history_uri(input@), i)),
            suggestion matches Some(s) ==> exists|i: int|
                #![trigger self.records()[i]]
                is_best_candidate(self.records(), parse_history_uri(input@), i) && s@
                    == suggestion_text(self.records()[i].0, parse_history_uri(input@)),
    {
        // Question marks suggest query parameters or search engine query, neither has
        // sensible autocomplete suggestions.
        let input_chars = chars_of(input);
        if find_vec(&input_chars, '?').is_some() {
            return None;
        }

        // Ignore empty input and scheme-only.
        let input_uri = HistoryUri::new(input);
        if input_uri.base.as_str().is_empty() {
            return None;
        }

        // Find matching URI with most views.
        let ghost r = self.records();
        let mut best: Option<usize> = None;
        let mut i: usize = 0;
        while i < self.uris.len()
            invariant
                self.wf(),
                r == self.records(),
                i <= self.uris.len(),
                best is None ==> forall|j: int| 0 <= j < i ==> !#[trigger] is_candidate(r, input_uri@, j),
                best matches Some(b) ==> {
                    &&& b < i
                    &&& is_candidate(r, input_uri@, b as int)
                    &&& forall|j: int| 0 <= j < i && #[trigger] is_candidate(r, input_uri@, j) ==> r[j].1.views <= r[b as int].1.views
                },
            decreases self.uris.len() - i,
        {
            if self.uris[i].autocomplete(&input_uri) {
                match best {
                    Some(b) => {
                        if self.entries[i].views >= self.entries[b].views {
                            best = Some(i);
                        }
                    },
                    None => {
                        best = Some(i);
                    },
                }
            }
            i = i + 1;
        }

        let b = match best {
            Some(b) => b,
            None => return None,
        };
        let uri = &self.uris[b];
        let mut uri_str = uri.to_string(!input_uri.scheme.as_str().is_empty());

        // Add trailing slash for base-only URIs, to help future autocompletions.
        if uri.path.len() == 0 {
            proof {
                reveal_strlit("/");
            }
            uri_str.append("/");
        }
        assert(is_best_candidate(r, input_uri@, b as int));
        assert(uri_str@ =~= suggestion_text(r[b as int].0, input_uri@));
        Some(uri_str)
    }

    /// Get history matches for the input in ascending relevance.
    ///
    /// Up to [`MAX_MATCHES`] records whose score is not zero are compared, in
    /// storage order.
    pub fn matches(&self, input: &str) -> (found: HistoryMatches)
        requires
            self.wf(),
        ensures
            input@.len() == 0 ==> match_items(found).len() == 0,
            input@.len() != 0 ==> {
                &&& ascending(match_views(match_items(found)))
                &&& match_views(match_items(found)).to_multiset() == first_n(
                    scored_matches(self.records(), input@),
                    MAX_MATCHES as nat,
                ).to_multiset()
                &&& distinct_uris(match_views(match_items(found)))
            },
    {
        let input_chars = chars_of(input);

        // Empty input always results in no matches.
        if input_chars.len() == 0 {
            return matches_from_vec(Vec::new());
        }

        // Perform case-sensitive search if any uppercase characters are in the query.
        let sensitive = any_uppercase(&input_chars);

        let ghost r = self.records();
        let mut candidates: Vec<HistoryMatch> = Vec::new();
        let mut i: usize = 0;
        assert(scored_matches(r.take(0), input@) =~= Seq::<HistoryMatchView>::empty());
        while i < self.uris.len()
            invariant
                self.wf(),
                r == self.records(),
                input_chars@ == input@,
                input@.len() > 0,
                sensitive == case_sensitive(input@),
                i <= self.uris.len(),
                match_views(candidates@) == scored_matches(r.take(i as int), input@),
            decreases self.uris.len() - i,
        {
            proof {
                assert(r.take(i + 1).drop_last() =~= r.take(i as int));
                assert(r.take(i + 1).last() == r[i as int]);
                assert(r[i as int] == (self.uris@[i as int]@, self.entries@[i as int]@));
            }
            let (uri_str, score) = score_record(&self.uris[i], &self.entries[i], input, sensitive);
            if score != 0 {
                let ghost old_c = candidates@;
                candidates.push(HistoryMatch { score, title: self.entries[i].title.clone(), uri: uri_str });
                assert(match_views(candidates@) =~= match_views(old_c).push(candidates@.last()@));
            }
            i = i + 1;
        }
        assert(r.take(self.uris.len() as int) =~= r);
        let ghost all = match_views(candidates@);
        let ghost before = candidates@;
        candidates.truncate(MAX_MATCHES);
        assert(match_views(candidates@) =~= first_n(all, MAX_MATCHES as nat));
        proof {
            lemma_scored_distinct(r, input@);
            assert(distinct_uris(match_views(candidates@))) by {
                let c = match_views(candidates@);
                assert forall|a: int, b: int| 0 <= a < c.len() && 0 <= b < c.len() && a != b implies c[a].uri != c[b].uri by {
                    assert(c[a] == all[a]);
                    assert(c[b] == all[b]);
                }
            }
        }

        // Sort matches based on their score.
        let sorted = sort_by_score(candidates);
        matches_from_vec(sorted)
    }
}

/// Indices kept by `without_matching` hold distinct keys when the given
/// keys are distinct.
proof fn lemma_without_matching_indices(r: Seq<Record>, filter: Seq<char>, a: int, b: int)
    requires
        unique_keys(r),
        0 <= a < without_matching(r, filter).len(),
        0 <= b < without_matching(r, filter).len(),
        a != b,
    ensures
        without_matching(r, filter)[a].0 != without_matching(r, filter)[b].0,
    decreases r.len(),
{
    let w = without_matching(r, filter);
    let w0 = without_matching(r.drop_last(), filter);
    assert(unique_keys(r.drop_last()));
    if record_matches_filter(r.last(), filter) {
        lemma_without_matching_indices(r.drop_last(), filter, a, b);
    } else if a < w0.len() && b < w0.len() {
        lemma_without_matching_indices(r.drop_last(), filter, a, b);
    } else {
        lemma_without_matching_subset(r.drop_last(), filter);
        let k = if a < w0.len() { a } else { b };
        let j = choose|j: int| 0 <= j < r.drop_last().len() && r.drop_last()[j] == #[trigger] w0[k];
        assert(r[j] == w[k]);
        assert(r[r.len() - 1] == w[w0.len() as int]);
    }
}

/// Copy of a match.
fn copy_match(m: &HistoryMatch) -> (r: HistoryMatch)
    ensures
        r@ == m@,
{
    HistoryMatch { uri: m.uri.clone(), title: m.title.clone(), score: m.score }
}

/// Stable insertion sort of matches by ascending score.
fn sort_by_score(v: Vec<HistoryMatch>) -> (sorted: Vec<HistoryMatch>)
    ensures
        ascending(match_views(sorted@)),
        match_views(sorted@).to_multiset() == match_views(v@).to_multiset(),
        distinct_uris(match_views(v@)) ==> distinct_uris(match_views(sorted@)),
{
    let ghost input_views = match_views(v@);
    let mut sorted: Vec<HistoryMatch> = Vec::new();
    assert(match_views(sorted@) =~= input_views.take(0));
    let mut taken: usize = 0;
    while taken < v.len()
        invariant
            input_views == match_views(v@),
            taken <= v.len(),
            ascending(match_views(sorted@)),
            match_views(sorted@).to_multiset() == input_views.take(taken as int).to_multiset(),
            forall|k: int|
                0 <= k < sorted.len() ==> exists|t: int|
                    0 <= t < taken && #[trigger] match_views(sorted@)[k] == input_views[t],
            distinct_uris(input_views) ==> distinct_uris(match_views(sorted@)),
        decreases v.len() - taken,
    {
        let x = copy_match(&v[taken]);
        assert(x@ == input_views[taken as int]);

        // Insert behind all matches with a score not above `x`'s.
        let mut pos: usize = 0;
        while pos < sorted.len() && sorted[pos].score <= x.score
            invariant
                pos <= sorted.len(),
                forall|k: int| 0 <= k < pos ==> #[trigger] match_views(sorted@)[k].score <= x.score,
            decreases sorted.len() - pos,
        {
            pos = pos + 1;
        }
        let ghost old_sorted = sorted@;
        sorted.insert(pos, x);
        proof {
            assert(match_views(sorted@) =~= match_views(old_sorted).insert(pos as int, x@));
            vstd::seq_lib::to_multiset_insert(match_views(old_sorted), pos as int, x@);
            assert(input_views.take(taken + 1) =~= input_views.take(taken as int).push(x@));
            vstd::seq_lib::to_multiset_build(input_views.take(taken as int), x@);
            let m = match_views(sorted@);
            let mo = match_views(old_sorted);
            assert forall|i: int, j: int| 0 <= i <= j < m.len() implies m[i].score <= m[j].score by {
                if pos < mo.len() {
                    assert(mo[pos as int].score > x.score);
                }
                if i < pos && j > pos {
                    assert(m[i] == mo[i]);
                    assert(m[j] == mo[j - 1]);
                } else if i < pos && j == pos {
                } else if i == pos && j > pos {
                    assert(m[j] == mo[j - 1]);
                    assert(mo[pos as int].score <= mo[j - 1].score);
                } else if i > pos {
                    assert(m[i] == mo[i - 1]);
                    assert(m[j] == mo[j - 1]);
                } else if j < pos {
                    assert(m[i] == mo[i]);
                    assert(m[j] == mo[j]);
                }
            }
            assert forall|k: int| 0 <= k < m.len() implies exists|t: int|
                0 <= t < taken + 1 && #[trigger] m[k] == input_views[t] by {
                if k < pos {
                    assert(m[k] == mo[k]);
                    let t = choose|t: int| 0 <= t < taken && #[trigger] mo[k] == input_views[t];
                } else if k > pos {
                    assert(m[k] == mo[k - 1]);
                    let t = choose|t: int| 0 <= t < taken && #[trigger] mo[k - 1] == input_views[t];
                } else {
                    assert(m[k] == input_views[taken as int]);
                }
            }
            if distinct_uris(input_views) {
                assert forall|a: int, b: int| 0 <= a < m.len() && 0 <= b < m.len() && a != b implies m[a].uri != m[b].uri by {
                    if a != pos && b != pos {
                        let a0 = if a < pos { a } else { a - 1 };
                        let b0 = if b < pos { b } else { b - 1 };
                        assert(m[a] == mo[a0]);
                        assert(m[b] == mo[b0]);
                    } else {
                        let k = if a == pos { b } else { a };
                        let k0 = if k < pos { k } else { k - 1 };
                        assert(m[k] == mo[k0]);
                        let t = choose|t: int| 0 <= t < taken && #[trigger] mo[k0] == input_views[t];
                        assert(m[pos as int] == input_views[taken as int]);
                    }
                }
            }
        }
        taken = taken + 1;
    }
    assert(input_views.take(v.len() as int) =~= input_views);
    sorted
}

/// Splitting always yields at least one piece.
pub proof fn lemma_split_nonempty(s: Seq<char>, sep: char)
    ensures
        split_on(s, sep).len() >= 1,
    decreases s.len(),
{
    match find_char(s, sep) {
        Some(i) => {
            if 0 <= i < s.len() {
                lemma_split_nonempty(s.skip(i + 1), sep);
            }
        },
        None => {},
    }
}

} // verus!
