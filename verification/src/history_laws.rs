//! Laws of the browser history: normalization, persistence round trips and
//! what each operation does to the stored records.

use vstd::prelude::*;

use crate::history::{
    history_key, join_segments, lookup, non_empty_segments, normalized, parse_history_uri,
    record_matches_filter, separable, split_scheme, strip_query, unique_keys, upsert, uri_text,
    without_matching, only_matching, completes, segment_completes, suggestion_text, HistoryEntryView,
    HistoryUriView, Record,
};
use crate::text::{find_char, leading_count, lemma_find_char, lemma_split_step, rfind_char, split_on};

verus! {

/// Normalizing twice is the same as normalizing once.
pub proof fn law_normalize_idempotent(u: HistoryUriView)
    ensures
        normalized(normalized(u)) == normalized(u),
{
    lemma_non_empty_segments_idempotent(u.path);
}

/// Dropping empty segments a second time changes nothing.
proof fn lemma_non_empty_segments_idempotent(p: Seq<Seq<char>>)
    ensures
        non_empty_segments(non_empty_segments(p)) == non_empty_segments(p),
    decreases p.len(),
{
    if p.len() > 0 {
        lemma_non_empty_segments_idempotent(p.drop_last());
        let q = non_empty_segments(p.drop_last());
        if p.last().len() != 0 {
            assert(q.push(p.last()).drop_last() =~= q);
        }
    }
}

/// Every kept segment is non-empty and is one of the given segments.
proof fn lemma_non_empty_segments_members(p: Seq<Seq<char>>)
    ensures
        forall|k: int|
            0 <= k < non_empty_segments(p).len() ==> (#[trigger] non_empty_segments(p)[k]).len() > 0
                && exists|j: int| 0 <= j < p.len() && p[j] == non_empty_segments(p)[k],
    decreases p.len(),
{
    if p.len() > 0 {
        lemma_non_empty_segments_members(p.drop_last());
        let q = non_empty_segments(p.drop_last());
        assert forall|k: int| 0 <= k < non_empty_segments(p).len() implies (
        #[trigger] non_empty_segments(p)[k]).len() > 0 && exists|j: int|
            0 <= j < p.len() && p[j] == non_empty_segments(p)[k] by {
            if k < q.len() {
                let j = choose|j: int| 0 <= j < p.drop_last().len() && p.drop_last()[j] == q[k];
                assert(p[j] == non_empty_segments(p)[k]);
            } else {
                assert(p[p.len() - 1] == non_empty_segments(p)[k]);
            }
        }
    }
}

/// Segments that are all non-empty are kept as they are.
proof fn lemma_non_empty_segments_keep(p: Seq<Seq<char>>)
    requires
        forall|k: int| 0 <= k < p.len() ==> (#[trigger] p[k]).len() > 0,
    ensures
        non_empty_segments(p) == p,
    decreases p.len(),
{
    if p.len() > 0 {
        lemma_non_empty_segments_keep(p.drop_last());
        assert(p.drop_last().push(p.last()) =~= p);
    }
}

/// The first occurrence found has no earlier occurrence before it.
proof fn lemma_find_char_first(s: Seq<char>, c: char)
    ensures
        find_char(s, c) matches Some(i) ==> 0 <= i < s.len() && s[i] == c && forall|j: int|
            0 <= j < i ==> s[j] != c,
        find_char(s, c) is None ==> forall|j: int| 0 <= j < s.len() ==> s[j] != c,
    decreases s.len(),
{
    if s.len() > 0 && s[0] != c {
        lemma_find_char_first(s.drop_first(), c);
        assert forall|j: int| 0 < j < s.len() implies s[j] == s.drop_first()[j - 1] by {}
    }
}

/// The last occurrence found has no later occurrence after it.
proof fn lemma_rfind_char_none(s: Seq<char>, c: char)
    ensures
        rfind_char(s, c) is None ==> forall|j: int| 0 <= j < s.len() ==> s[j] != c,
    decreases s.len(),
{
    if s.len() > 0 && s.last() != c {
        lemma_rfind_char_none(s.drop_last(), c);
        assert forall|j: int| 0 <= j < s.len() - 1 implies s[j] == s.drop_last()[j] by {}
    }
}

/// No piece of a split holds the separator, and the first piece is a prefix.
proof fn lemma_split_pieces(s: Seq<char>, sep: char)
    ensures
        split_on(s, sep).len() >= 1,
        forall|k: int, j: int|
            0 <= k < split_on(s, sep).len() && 0 <= j < split_on(s, sep)[k].len() ==> #[trigger] split_on(s, sep)[k][j] != sep,
        split_on(s, sep)[0].is_prefix_of(s),
        split_on(s, sep)[0].len() == 0 ==> (s.len() == 0 || s[0] == sep),
    decreases s.len(),
{
    lemma_find_char_first(s, sep);
    match find_char(s, sep) {
        Some(i) => {
            lemma_split_pieces(s.skip(i + 1), sep);
            let rest = split_on(s.skip(i + 1), sep);
            let all = split_on(s, sep);
            assert(all == seq![s.take(i)] + rest);
            assert forall|k: int, j: int| 0 <= k < all.len() && 0 <= j < all[k].len() implies #[trigger] all[k][j] != sep by {
                if k > 0 {
                    assert(all[k] == rest[k - 1]);
                }
            }
        },
        None => {},
    }
}

/// Splitting a piece followed by `/`-joined segments gives back the pieces.
proof fn lemma_split_join(a: Seq<char>, p: Seq<Seq<char>>)
    requires
        forall|j: int| 0 <= j < a.len() ==> a[j] != '/',
        forall|k: int, j: int| 0 <= k < p.len() && 0 <= j < p[k].len() ==> #[trigger] p[k][j] != '/',
    ensures
        split_on(a + join_segments(p), '/') == seq![a] + p,
    decreases p.len(),
{
    if p.len() == 0 {
        assert(a + join_segments(p) =~= a);
        lemma_find_char(a, '/', a.len() as int);
        assert(seq![a] + p =~= seq![a]);
    } else {
        lemma_join_front(p);
        let rest = p.drop_first();
        assert forall|k: int, j: int| 0 <= k < rest.len() && 0 <= j < rest[k].len() implies #[trigger] rest[k][j] != '/' by {
            assert(rest[k] == p[k + 1]);
        }
        assert(forall|j: int| 0 <= j < p[0].len() ==> p[0][j] != '/');
        lemma_split_join(p[0], rest);
        assert(a + join_segments(p) =~= a + seq!['/'] + (p[0] + join_segments(rest)));
        lemma_split_step(a, '/', p[0] + join_segments(rest));
        assert(seq![a] + (seq![p[0]] + rest) =~= seq![a] + p);
    }
}

/// Joining from the front: the first segment follows the first `/`.
proof fn lemma_join_front(p: Seq<Seq<char>>)
    requires
        p.len() > 0,
    ensures
        join_segments(p) == seq!['/'] + p[0] + join_segments(p.drop_first()),
    decreases p.len(),
{
    if p.len() == 1 {
        assert(p.drop_last() =~= Seq::<Seq<char>>::empty());
        assert(p.drop_first() =~= Seq::<Seq<char>>::empty());
        assert(join_segments(p.drop_last()) == Seq::<char>::empty());
        assert(join_segments(p) == join_segments(p.drop_last()) + seq!['/'] + p.last());
        assert(p.last() == p[0]);
        assert(join_segments(p) =~= seq!['/'] + p[0]);
        assert(seq!['/'] + p[0] + Seq::<char>::empty() =~= seq!['/'] + p[0]);
    } else {
        lemma_join_front(p.drop_last());
        assert(p.drop_last().drop_first() =~= p.drop_first().drop_last());
        assert(p.drop_first().last() == p.last());
        assert(join_segments(p) =~= seq!['/'] + p[0] + join_segments(p.drop_first()));
    }
}

/// No piece of a split holds a character that the text does not hold.
proof fn lemma_split_avoids(s: Seq<char>, sep: char, c: char)
    requires
        forall|j: int| 0 <= j < s.len() ==> s[j] != c,
    ensures
        forall|k: int, j: int|
            0 <= k < split_on(s, sep).len() && 0 <= j < split_on(s, sep)[k].len() ==> #[trigger] split_on(s, sep)[k][j] != c,
    decreases s.len(),
{
    lemma_find_char_first(s, sep);
    match find_char(s, sep) {
        Some(i) => {
            assert forall|j: int| 0 <= j < s.skip(i + 1).len() implies #[trigger] s.skip(i + 1)[j] != c by {
                assert(s.skip(i + 1)[j] == s[i + 1 + j]);
            }
            lemma_split_avoids(s.skip(i + 1), sep, c);
            let rest = split_on(s.skip(i + 1), sep);
            let all = split_on(s, sep);
            assert(all == seq![s.take(i)] + rest);
            assert forall|k: int, j: int| 0 <= k < all.len() && 0 <= j < all[k].len() implies #[trigger] all[k][j] != c by {
                if k > 0 {
                    assert(all[k] == rest[k - 1]);
                } else {
                    assert(all[0][j] == s[j]);
                }
            }
        },
        None => {},
    }
}

/// Facts about a parsed URI: its parts separate, a URI without base has no
/// path, and without a `?` in the text none is in any part.
proof fn lemma_parse_shape(s: Seq<char>)
    ensures
        separable(parse_history_uri(s)),
        parse_history_uri(s).base.len() == 0 ==> parse_history_uri(s).path.len() == 0,
        find_char(s, '?') is None ==> no_question_mark(parse_history_uri(s)),
{
    let u1 = strip_query(s);
    let (scheme, rest) = split_scheme(u1);
    lemma_find_char_first(u1, ':');
    let trimmed = rest.skip(leading_count(rest, '/') as int);
    lemma_leading_count_stop(rest, '/');
    let parts = split_on(trimmed, '/');
    lemma_split_pieces(trimmed, '/');
    let raw = parse_history_uri(s);
    assert(raw.base == parts[0]);
    assert(raw.path =~= parts.skip(1));
    assert forall|k: int, j: int| 0 <= k < raw.path.len() && 0 <= j < raw.path[k].len() implies #[trigger] raw.path[k][j] != '/' by {
        assert(raw.path[k] == parts[k + 1]);
    }
    if raw.base.len() == 0 {
        // The trimmed rest cannot start with a slash, so it is empty.
        assert(trimmed.len() == 0);
        lemma_find_char(trimmed, '/', 0);
        assert(parts =~= seq![trimmed]);
        assert(raw.path.len() == 0);
    }
    if find_char(s, '?') is None {
        lemma_find_char_first(s, '?');
        lemma_rfind_none_from_find(s, '?');
        assert(u1 == s);
        assert forall|j: int| 0 <= j < scheme.len() implies scheme[j] != '?' by {
            assert(scheme[j] == s[j]);
        }
        assert forall|j: int| 0 <= j < trimmed.len() implies trimmed[j] != '?' by {
            match find_char(u1, ':') {
                Some(c) => {
                    assert(trimmed[j] == s[c + 1 + leading_count(rest, '/') + j]);
                },
                None => {
                    assert(trimmed[j] == s[leading_count(rest, '/') + j]);
                },
            }
        }
        lemma_split_avoids(trimmed, '/', '?');
        assert forall|k: int, j: int| 0 <= k < raw.path.len() && 0 <= j < raw.path[k].len() implies #[trigger] raw.path[k][j] != '?' by {
            assert(raw.path[k] == parts[k + 1]);
        }
    }
}

/// Whether no part of a URI holds a `?`.
pub open spec fn no_question_mark(u: HistoryUriView) -> bool {
    &&& forall|j: int| 0 <= j < u.scheme.len() ==> u.scheme[j] != '?'
    &&& forall|j: int| 0 <= j < u.base.len() ==> u.base[j] != '?'
    &&& forall|k: int, j: int|
        0 <= k < u.path.len() && 0 <= j < u.path[k].len() ==> #[trigger] u.path[k][j] != '?'
}

/// Structural facts about a stored key.
proof fn lemma_key_shape(s: Seq<char>)
    ensures
        separable(history_key(s)),
        forall|k: int| 0 <= k < history_key(s).path.len() ==> (#[trigger] history_key(s).path[k]).len() > 0,
        history_key(s).base.len() == 0 ==> history_key(s).path.len() == 0,
{
    lemma_parse_shape(s);
    let raw = parse_history_uri(s);
    lemma_non_empty_segments_members(raw.path);
    let key = history_key(s);
    assert forall|k: int, j: int| 0 <= k < key.path.len() && 0 <= j < key.path[k].len() implies #[trigger] key.path[k][j] != '/' by {
        let m = choose|m: int| 0 <= m < raw.path.len() && raw.path[m] == key.path[k];
    }
    if raw.path.len() == 0 {
        assert(key.path =~= Seq::<Seq<char>>::empty());
    }
}

/// Every parsed URI, and every key under which the history stores a visited
/// URI, has parts that its text splits back into.
pub proof fn law_parsed_uri_separable(s: Seq<char>)
    ensures
        separable(parse_history_uri(s)),
        separable(history_key(s)),
{
    lemma_parse_shape(s);
    lemma_key_shape(s);
}

/// Two URIs whose parts separate are equal when their texts with scheme are
/// equal: the text names one URI.
pub proof fn law_uri_text_injective(a: HistoryUriView, b: HistoryUriView)
    requires
        separable(a),
        separable(b),
        uri_text(a, true) == uri_text(b, true),
    ensures
        a == b,
{
    let text = uri_text(a, true);
    assert(text =~= a.scheme + (seq![':', '/', '/'] + (a.base + join_segments(a.path))));
    assert(text =~= b.scheme + (seq![':', '/', '/'] + (b.base + join_segments(b.path))));
    lemma_find_char(text, ':', a.scheme.len() as int);
    lemma_find_char(text, ':', b.scheme.len() as int);
    assert(a.scheme =~= text.take(a.scheme.len() as int));
    assert(b.scheme =~= text.take(b.scheme.len() as int));
    let n = a.scheme.len() as int + 3;
    assert(a.base + join_segments(a.path) =~= text.skip(n));
    assert(b.base + join_segments(b.path) =~= text.skip(n));
    lemma_split_join(a.base, a.path);
    lemma_split_join(b.base, b.path);
    let pa = seq![a.base] + a.path;
    let pb = seq![b.base] + b.path;
    assert(pa == pb);
    assert(a.base == pa[0]);
    assert(b.base == pb[0]);
    assert(a.path =~= pa.skip(1));
    assert(b.path =~= pb.skip(1));
}

/// Joined segments hold no character other than `/` that no segment holds.
proof fn lemma_join_avoids(p: Seq<Seq<char>>, c: char)
    requires
        c != '/',
        forall|k: int, j: int| 0 <= k < p.len() && 0 <= j < p[k].len() ==> #[trigger] p[k][j] != c,
    ensures
        forall|j: int| 0 <= j < join_segments(p).len() ==> join_segments(p)[j] != c,
    decreases p.len(),
{
    if p.len() > 0 {
        lemma_join_avoids(p.drop_last(), c);
        let front = join_segments(p.drop_last());
        assert forall|j: int| 0 <= j < join_segments(p).len() implies join_segments(p)[j] != c by {
            if j < front.len() {
                assert(join_segments(p)[j] == front[j]);
            } else if j > front.len() {
                assert(join_segments(p)[j] == p[p.len() - 1][j - front.len() - 1]);
            }
        }
    }
}

/// The text of a URI whose parts separate, that has no path without a base
/// and no `?` in its text, parses back to the URI.
proof fn lemma_text_reparse(key: HistoryUriView)
    requires
        separable(key),
        key.base.len() == 0 ==> key.path.len() == 0,
        find_char(uri_text(key, true), '?') is None,
    ensures
        parse_history_uri(uri_text(key, true)) == key,
{
    let text = uri_text(key, true);
    lemma_find_char_first(text, '?');
    // No `?`: the query stripping keeps the whole text.
    lemma_rfind_none_from_find(text, '?');
    assert(strip_query(text) == text);
    // The first `:` ends the scheme.
    assert(text =~= key.scheme + (seq![':', '/', '/'] + key.base + join_segments(key.path)));
    lemma_find_char(text, ':', key.scheme.len() as int);
    let rest = text.skip(key.scheme.len() + 1 as int);
    assert(rest =~= seq!['/', '/'] + (key.base + join_segments(key.path)));
    let body = key.base + join_segments(key.path);
    // Exactly the two slashes after the colon are leading.
    if key.base.len() == 0 {
        assert(key.path.len() == 0);
        assert(body =~= Seq::<char>::empty());
        lemma_leading_exact(rest, '/', 2);
    } else {
        assert(body[0] == key.base[0]);
        lemma_leading_exact(rest, '/', 2);
    }
    assert(rest.skip(2) =~= body);
    lemma_split_join(key.base, key.path);
    let reparsed = parse_history_uri(text);
    assert(reparsed.scheme =~= key.scheme);
    assert(reparsed.base == key.base);
    assert((seq![key.base] + key.path).skip(1) =~= key.path);
    assert(reparsed.path == key.path);
}

/// Writing a parsed URI as text with its scheme and parsing that text again
/// gives the same parse, empty scheme and empty path segments included, for
/// every text without a `?`.
pub proof fn law_parse_text_round_trip(s: Seq<char>)
    requires
        find_char(s, '?') is None,
    ensures
        parse_history_uri(uri_text(parse_history_uri(s), true)) == parse_history_uri(s),
{
    let u = parse_history_uri(s);
    lemma_parse_shape(s);
    let text = uri_text(u, true);
    lemma_join_avoids(u.path, '?');
    assert(text =~= u.scheme + seq![':', '/', '/'] + u.base + join_segments(u.path));
    assert forall|j: int| 0 <= j < text.len() implies text[j] != '?' by {
        let a = u.scheme.len() as int;
        let b = a + 3 + u.base.len();
        if j < a {
            assert(text[j] == u.scheme[j]);
        } else if j < a + 3 {
        } else if j < b {
            assert(text[j] == u.base[j - a - 3]);
        } else {
            assert(text[j] == join_segments(u.path)[j - b]);
        }
    }
    lemma_find_char(text, '?', text.len() as int);
    lemma_text_reparse(u);
}

/// After skipping the leading run, the next character is not the skipped one.
proof fn lemma_leading_count_stop(s: Seq<char>, c: char)
    ensures
        leading_count(s, c) <= s.len(),
        leading_count(s, c) < s.len() ==> s[leading_count(s, c) as int] != c,
        forall|j: int| 0 <= j < leading_count(s, c) ==> s[j] == c,
    decreases s.len(),
{
    if s.len() > 0 && s[0] == c {
        lemma_leading_count_stop(s.drop_first(), c);
        assert forall|j: int| 0 < j < s.len() implies s[j] == s.drop_first()[j - 1] by {}
    }
}

/// Storing a visited URI as text and parsing that text back gives the same
/// key: what the history persists is what it loads again. This holds unless
/// the stored text itself contains a question mark, which parsing would take
/// for the start of query parameters.
pub proof fn law_persisted_text_round_trip(uri: Seq<char>)
    requires
        find_char(uri_text(history_key(uri), true), '?') is None,
    ensures
        history_key(uri_text(history_key(uri), true)) == history_key(uri),
{
    let key = history_key(uri);
    lemma_key_shape(uri);
    lemma_text_reparse(key);
    lemma_non_empty_segments_keep(key.path);
    assert(normalized(key) == key);
}

/// Without a first occurrence there is no last occurrence either.
proof fn lemma_rfind_none_from_find(s: Seq<char>, c: char)
    requires
        find_char(s, c) is None,
    ensures
        rfind_char(s, c) is None,
{
    lemma_find_char_first(s, c);
    crate::text::lemma_rfind_char(s, c, 0);
}

/// A run of exactly `n` leading `c` characters.
proof fn lemma_leading_exact(s: Seq<char>, c: char, n: int)
    requires
        0 <= n <= s.len(),
        forall|j: int| 0 <= j < n ==> s[j] == c,
        n < s.len() ==> s[n] != c,
    ensures
        leading_count(s, c) == n,
{
    crate::text::lemma_leading_count(s, c, n);
}

/// Reading a key after writing it gives what was written, and other keys are
/// unaffected; the records keep one entry per URI.
pub proof fn law_upsert_read_back(r: Seq<Record>, key: HistoryUriView, entry: HistoryEntryView)
    requires
        unique_keys(r),
    ensures
        unique_keys(upsert(r, key, entry)),
        lookup(upsert(r, key, entry), key) == Some(entry),
        forall|k: HistoryUriView| k != key ==> lookup(upsert(r, key, entry), k) == lookup(r, k),
{
    crate::history::lemma_upsert_unique(r, key, entry);
}

/// After a bulk delete with a filter, no remaining record matches the filter,
/// and every record that did not match remains.
pub proof fn law_bulk_delete_filter(r: Seq<Record>, filter: Seq<char>)
    ensures
        forall|k: int|
            0 <= k < without_matching(r, filter).len() ==> !record_matches_filter(
                #[trigger] without_matching(r, filter)[k],
                filter,
            ),
        forall|j: int|
            0 <= j < r.len() && !record_matches_filter(#[trigger] r[j], filter) ==> without_matching(
                r,
                filter,
            ).contains(r[j]),
    decreases r.len(),
{
    if r.len() > 0 {
        law_bulk_delete_filter(r.drop_last(), filter);
        let w = without_matching(r, filter);
        let w0 = without_matching(r.drop_last(), filter);
        assert forall|k: int| 0 <= k < w.len() implies !record_matches_filter(#[trigger] w[k], filter) by {
            if k < w0.len() {
                assert(w[k] == w0[k]);
            }
        }
        assert forall|j: int| 0 <= j < r.len() && !record_matches_filter(#[trigger] r[j], filter) implies w.contains(r[j]) by {
            if j < r.len() - 1 {
                assert(r[j] == r.drop_last()[j]);
                let k = choose|k: int| 0 <= k < w0.len() && w0[k] == r[j];
                assert(w[k] == w0[k]);
            } else {
                assert(w[w.len() - 1] == r[j]);
            }
        }
    }
}

/// Deleting the entries that a history filter shows leaves that filter
/// showing nothing.
pub proof fn law_bulk_delete_empties_filtered_view(r: Seq<Record>, filter: Seq<char>)
    ensures
        only_matching(without_matching(r, filter), filter) == Seq::<Record>::empty(),
{
    law_bulk_delete_filter(r, filter);
    lemma_only_matching_none(without_matching(r, filter), filter);
}

/// A filter matching no record shows nothing.
proof fn lemma_only_matching_none(r: Seq<Record>, filter: Seq<char>)
    requires
        forall|k: int| 0 <= k < r.len() ==> !record_matches_filter(#[trigger] r[k], filter),
    ensures
        only_matching(r, filter) == Seq::<Record>::empty(),
    decreases r.len(),
{
    if r.len() > 0 {
        assert(!record_matches_filter(r[r.len() - 1], filter));
        assert forall|k: int| 0 <= k < r.drop_last().len() implies !record_matches_filter(
            #[trigger] r.drop_last()[k],
            filter,
        ) by {
            assert(r.drop_last()[k] == r[k]);
        }
        lemma_only_matching_none(r.drop_last(), filter);
    }
}

/// Joining segments one list after another joins the concatenated list.
proof fn lemma_join_concat(a: Seq<Seq<char>>, b: Seq<Seq<char>>)
    ensures
        join_segments(a + b) == join_segments(a) + join_segments(b),
    decreases b.len(),
{
    if b.len() == 0 {
        assert(a + b =~= a);
        assert(join_segments(a) + join_segments(b) =~= join_segments(a));
    } else {
        lemma_join_concat(a, b.drop_last());
        assert((a + b).drop_last() =~= a + b.drop_last());
        assert((a + b).last() == b.last());
        assert(join_segments(a + b) =~= join_segments(a) + join_segments(b));
    }
}

/// Typed path segments that a stored path completes join to a prefix of the
/// stored path's text.
proof fn lemma_join_completed_prefix(typed: Seq<Seq<char>>, stored: Seq<Seq<char>>)
    requires
        typed.len() <= stored.len(),
        forall|i: int|
            0 <= i < typed.len() ==> #[trigger] typed[i].is_prefix_of(stored[i]) && (typed[i]
                == stored[i] || i + 1 == typed.len()),
    ensures
        join_segments(typed).is_prefix_of(join_segments(stored)),
{
    let n = typed.len() as int;
    let front = stored.take(n);
    lemma_join_concat(front, stored.skip(n));
    assert(front + stored.skip(n) =~= stored);
    if n > 0 {
        assert(typed.drop_last() =~= front.drop_last()) by {
            assert forall|i: int| 0 <= i < n - 1 implies typed.drop_last()[i] == front.drop_last()[i] by {
                assert(typed[i].is_prefix_of(stored[i]));
            }
        }
        assert(typed.last().is_prefix_of(front.last())) by {
            assert(typed[n - 1].is_prefix_of(stored[n - 1]));
        }
        let j = join_segments(typed.drop_last()) + seq!['/'];
        assert(join_segments(typed) == j + typed.last());
        assert(join_segments(front) == j + front.last());
        assert(join_segments(typed) =~= join_segments(front).subrange(0, join_segments(typed).len() as int));
    } else {
        assert(join_segments(typed) =~= Seq::<char>::empty());
    }
    assert(join_segments(typed) =~= join_segments(stored).subrange(0, join_segments(typed).len() as int));
}

/// An autocompletion extends what was typed: the canonical text of the typed
/// URI is a prefix of the text suggested for any stored URI completing it.
pub proof fn law_completion_extends_input(key: HistoryUriView, input: HistoryUriView)
    requires
        completes(key, input),
    ensures
        uri_text(input, input.scheme.len() != 0).is_prefix_of(suggestion_text(key, input)),
{
    let with_scheme = input.scheme.len() != 0;
    let head = if with_scheme {
        input.scheme + seq![':', '/', '/']
    } else {
        Seq::<char>::empty()
    };
    let key_head = if with_scheme {
        key.scheme + seq![':', '/', '/']
    } else {
        Seq::<char>::empty()
    };
    assert(head == key_head);
    let typed = uri_text(input, with_scheme);
    let suggested = suggestion_text(key, input);
    let tail = if key.path.len() == 0 {
        seq!['/']
    } else {
        Seq::<char>::empty()
    };
    assert(suggested =~= head + key.base + join_segments(key.path) + tail);
    if key.base != input.base {
        assert(input.path.len() == 0);
        assert(join_segments(input.path) =~= Seq::<char>::empty());
        assert(typed =~= head + input.base);
        assert(input.base =~= key.base.subrange(0, input.base.len() as int));
        assert(typed =~= suggested.subrange(0, typed.len() as int));
    } else {
        assert forall|i: int| 0 <= i < input.path.len() implies #[trigger] input.path[i].is_prefix_of(key.path[i])
            && (input.path[i] == key.path[i] || i + 1 == input.path.len()) by {
            assert(segment_completes(key, input, i));
        }
        lemma_join_completed_prefix(input.path, key.path);
        assert(typed =~= head + input.base + join_segments(input.path));
        assert(typed =~= suggested.subrange(0, typed.len() as int));
    }
}

} // verus!
