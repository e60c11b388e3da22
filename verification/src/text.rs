//! Character-sequence helpers shared by the URI and text handling code.

use vstd::prelude::*;
use vstd::std_specs::iter::IteratorSpec;

verus! {

broadcast use vstd::string::group_string_axioms;

/// Collect the characters of a string slice.
pub fn chars_of(s: &str) -> (v: Vec<char>)
    ensures
        v@ == s@,
{
    let mut it = s.chars();
    let mut v: Vec<char> = Vec::new();
    loop
        invariant
            v@ + it.remaining() == s@,
        ensures
            v@ == s@,
        decreases s@.len() - v@.len(),
    {
        match it.next() {
            Some(c) => {
                proof {
                    assert(v@.push(c) + it.remaining() =~= s@);
                }
                v.push(c);
            },
            None => {
                assert(v@ =~= s@);
                break;
            },
        }
    }
    v
}


/// Build a string holding exactly the given characters, in order.
///
/// Trusted: calls `FromIterator<&char> for String` (std), which pushes each
/// character of the iterator in turn; the contract claims the resulting
/// string's characters are the input characters.
#[verifier::external_body]
pub(crate) fn string_from_chars(chars: &Vec<char>) -> (s: String)
    ensures
        s@ == chars@,
{
    chars.iter().collect()
}

/// Whether `needle` occurs in `hay` starting at index `i`.
pub open spec fn occurs_at(hay: Seq<char>, needle: Seq<char>, i: int) -> bool {
    0 <= i && i + needle.len() <= hay.len() && hay.subrange(i, i + needle.len()) == needle
}

/// Whether `needle` occurs anywhere in `hay` (the empty needle occurs in every
/// sequence).
pub open spec fn contains_seq(hay: Seq<char>, needle: Seq<char>) -> bool {
    exists|i: int| occurs_at(hay, needle, i)
}

/// Number of non-overlapping occurrences of a non-empty `needle` in `hay`,
/// scanning from the front and resuming after each occurrence.
pub open spec fn count_occurrences(hay: Seq<char>, needle: Seq<char>) -> nat
    decreases hay.len(),
{
    if needle.len() == 0 || hay.len() < needle.len() {
        0
    } else if needle.is_prefix_of(hay) {
        1 + count_occurrences(hay.skip(needle.len() as int), needle)
    } else {
        count_occurrences(hay.skip(1), needle)
    }
}

/// Whether `prefix` is a prefix of `s`.
pub fn starts_with(s: &Vec<char>, prefix: &Vec<char>) -> (res: bool)
    ensures
        res == prefix@.is_prefix_of(s@),
{
    if prefix.len() > s.len() {
        return false;
    }
    let mut i: usize = 0;
    while i < prefix.len()
        invariant
            prefix.len() <= s.len(),
            i <= prefix.len(),
            forall|j: int| 0 <= j < i ==> prefix@[j] == s@[j],
        decreases prefix.len() - i,
    {
        if prefix[i] != s[i] {
            return false;
        }
        i = i + 1;
    }
    true
}

/// Whether `needle` occurs at index `i` of `hay`.
fn matches_at(hay: &Vec<char>, needle: &Vec<char>, i: usize) -> (res: bool)
    requires
        i + needle.len() <= hay.len(),
    ensures
        res == occurs_at(hay@, needle@, i as int),
{
    let mut j: usize = 0;
    while j < needle.len()
        invariant
            i + needle.len() <= hay.len(),
            j <= needle.len(),
            forall|k: int| 0 <= k < j ==> hay@[i + k] == needle@[k],
        decreases needle.len() - j,
    {
        if hay[i + j] != needle[j] {
            assert(hay@.subrange(i as int, i + needle.len())[j as int] != needle@[j as int]);
            return false;
        }
        j = j + 1;
    }
    assert(hay@.subrange(i as int, i + needle.len()) =~= needle@);
    true
}

/// Whether `needle` occurs in `hay`.
pub fn contains(hay: &Vec<char>, needle: &Vec<char>) -> (res: bool)
    ensures
        res == contains_seq(hay@, needle@),
{
    if needle.len() > hay.len() {
        assert forall|i: int| !occurs_at(hay@, needle@, i) by {}
        return false;
    }
    let last = hay.len() - needle.len();
    let mut i: usize = 0;
    while i < last
        invariant
            last + needle.len() == hay.len(),
            i <= last,
            forall|k: int| 0 <= k < i ==> !occurs_at(hay@, needle@, k),
        decreases last - i,
    {
        if matches_at(hay, needle, i) {
            return true;
        }
        i = i + 1;
    }
    if matches_at(hay, needle, last) {
        return true;
    }
    assert forall|k: int| !occurs_at(hay@, needle@, k) by {
        if occurs_at(hay@, needle@, k) {
            assert(k <= last);
        }
    }
    false
}

/// Count the non-overlapping occurrences of a non-empty `needle` in `hay`.
pub fn count_matches(hay: &Vec<char>, needle: &Vec<char>) -> (count: usize)
    requires
        needle.len() > 0,
    ensures
        count == count_occurrences(hay@, needle@),
        count <= hay.len(),
{
    let mut count: usize = 0;
    let mut i: usize = 0;
    assert(hay@.skip(0) =~= hay@);
    while needle.len() <= hay.len() - i
        invariant
            needle.len() > 0,
            i <= hay.len(),
            count <= i,
            count + count_occurrences(hay@.skip(i as int), needle@) == count_occurrences(hay@, needle@),
        decreases hay.len() - i,
    {
        let ghost rest = hay@.skip(i as int);
        proof {
            assert(rest.subrange(0, needle.len() as int) =~= hay@.subrange(i as int, i + needle.len()));
        }
        if matches_at(hay, needle, i) {
            assert(needle@.is_prefix_of(rest));
            assert(rest.skip(needle.len() as int) =~= hay@.skip(i + needle.len()));
            count = count + 1;
            i = i + needle.len();
        } else {
            assert(!needle@.is_prefix_of(rest));
            assert(rest.skip(1) =~= hay@.skip(i + 1));
            i = i + 1;
        }
    }
    count
}


/// Index of the first occurrence of `c` in `s`.
pub open spec fn find_char(s: Seq<char>, c: char) -> Option<int>
    decreases s.len(),
{
    if s.len() == 0 {
        None
    } else if s[0] == c {
        Some(0)
    } else {
        match find_char(s.drop_first(), c) {
            Some(i) => Some(i + 1),
            None => None,
        }
    }
}

/// Index of the last occurrence of `c` in `s`.
pub open spec fn rfind_char(s: Seq<char>, c: char) -> Option<int>
    decreases s.len(),
{
    if s.len() == 0 {
        None
    } else if s.last() == c {
        Some(s.len() - 1)
    } else {
        rfind_char(s.drop_last(), c)
    }
}

/// Number of leading characters of `s` equal to `c`.
pub open spec fn leading_count(s: Seq<char>, c: char) -> nat
    decreases s.len(),
{
    if s.len() > 0 && s[0] == c {
        1 + leading_count(s.drop_first(), c)
    } else {
        0
    }
}

/// Pieces of `s` between occurrences of `sep` (always at least one piece).
pub open spec fn split_on(s: Seq<char>, sep: char) -> Seq<Seq<char>>
    decreases s.len(),
{
    match find_char(s, sep) {
        Some(i) => {
            if 0 <= i < s.len() {
                seq![s.take(i)] + split_on(s.skip(i + 1), sep)
            } else {
                seq![s]
            }
        },
        None => seq![s],
    }
}

/// `find_char` is determined by the first matching position.
pub proof fn lemma_find_char(s: Seq<char>, c: char, i: int)
    requires
        0 <= i <= s.len(),
        forall|j: int| 0 <= j < i ==> s[j] != c,
        i < s.len() ==> s[i] == c,
    ensures
        find_char(s, c) == (if i < s.len() { Some(i) } else { None::<int> }),
    decreases i,
{
    if i > 0 {
        lemma_find_char(s.drop_first(), c, i - 1);
    }
}

/// `rfind_char` is determined by the last matching position.
pub proof fn lemma_rfind_char(s: Seq<char>, c: char, i: int)
    requires
        0 <= i <= s.len(),
        forall|j: int| i <= j < s.len() ==> s[j] != c,
        i > 0 ==> s[i - 1] == c,
    ensures
        rfind_char(s, c) == (if i > 0 { Some(i - 1) } else { None::<int> }),
    decreases s.len() - i,
{
    if s.len() > 0 && i < s.len() {
        assert(s.drop_last().len() == s.len() - 1);
        lemma_rfind_char(s.drop_last(), c, i);
    }
}

/// `leading_count` is the length of the maximal prefix of `c` characters.
pub proof fn lemma_leading_count(s: Seq<char>, c: char, i: int)
    requires
        0 <= i <= s.len(),
        forall|j: int| 0 <= j < i ==> s[j] == c,
        i < s.len() ==> s[i] != c,
    ensures
        leading_count(s, c) == i,
    decreases i,
{
    if i > 0 {
        lemma_leading_count(s.drop_first(), c, i - 1);
    }
}

/// A piece without separators followed by a separator splits off as one piece.
pub proof fn lemma_split_step(cur: Seq<char>, sep: char, rest: Seq<char>)
    requires
        forall|j: int| 0 <= j < cur.len() ==> cur[j] != sep,
    ensures
        split_on(cur + seq![sep] + rest, sep) == seq![cur] + split_on(rest, sep),
{
    let s = cur + seq![sep] + rest;
    lemma_find_char(s, sep, cur.len() as int);
    assert(s.take(cur.len() as int) =~= cur);
    assert(s.skip(cur.len() + 1 as int) =~= rest);
}

/// A sequence without separators is a single piece.
pub proof fn lemma_split_single(cur: Seq<char>, sep: char)
    requires
        forall|j: int| 0 <= j < cur.len() ==> cur[j] != sep,
    ensures
        split_on(cur, sep) == seq![cur],
{
    lemma_find_char(cur, sep, cur.len() as int);
}

/// Copy of `v[start..end]`.
pub fn sub_vec(v: &Vec<char>, start: usize, end: usize) -> (r: Vec<char>)
    requires
        start <= end <= v.len(),
    ensures
        r@ == v@.subrange(start as int, end as int),
{
    let mut r: Vec<char> = Vec::new();
    let mut i = start;
    while i < end
        invariant
            start <= i <= end <= v.len(),
            r@ == v@.subrange(start as int, i as int),
        decreases end - i,
    {
        r.push(v[i]);
        i = i + 1;
        assert(r@ =~= v@.subrange(start as int, i as int));
    }
    r
}


/// Views of a list of strings.
pub open spec fn string_views(v: Seq<String>) -> Seq<Seq<char>> {
    v.map_values(|s: String| s@)
}

/// Position of the first `c` in `v`.
pub fn find_vec(v: &Vec<char>, c: char) -> (r: Option<usize>)
    ensures
        match r {
            Some(i) => find_char(v@, c) == Some(i as int) && i < v.len(),
            None => find_char(v@, c) is None,
        },
{
    let mut i: usize = 0;
    while i < v.len()
        invariant
            i <= v.len(),
            forall|j: int| 0 <= j < i ==> v@[j] != c,
        decreases v.len() - i,
    {
        if v[i] == c {
            proof {
                lemma_find_char(v@, c, i as int);
            }
            return Some(i);
        }
        i = i + 1;
    }
    proof {
        lemma_find_char(v@, c, v.len() as int);
    }
    None
}

/// Position of the last `c` in `v`.
pub fn rfind_vec(v: &Vec<char>, c: char) -> (r: Option<usize>)
    ensures
        match r {
            Some(i) => rfind_char(v@, c) == Some(i as int) && i < v.len(),
            None => rfind_char(v@, c) is None,
        },
{
    let mut i: usize = v.len();
    while i > 0
        invariant
            i <= v.len(),
            forall|j: int| i <= j < v.len() ==> v@[j] != c,
        decreases i,
    {
        if v[i - 1] == c {
            proof {
                lemma_rfind_char(v@, c, i as int);
            }
            return Some(i - 1);
        }
        i = i - 1;
    }
    proof {
        lemma_rfind_char(v@, c, 0);
    }
    None
}

/// Number of leading `c` characters in `v`.
pub fn leading_vec(v: &Vec<char>, c: char) -> (r: usize)
    ensures
        r == leading_count(v@, c),
        r <= v.len(),
{
    let mut i: usize = 0;
    while i < v.len() && v[i] == c
        invariant
            i <= v.len(),
            forall|j: int| 0 <= j < i ==> v@[j] == c,
        decreases v.len() - i,
    {
        i = i + 1;
    }
    proof {
        lemma_leading_count(v@, c, i as int);
    }
    i
}

/// Split `v` on every `sep` character.
pub fn split_vec(v: &Vec<char>, sep: char) -> (parts: Vec<String>)
    ensures
        string_views(parts@) == split_on(v@, sep),
{
    let mut parts: Vec<String> = Vec::new();
    let mut cur: Vec<char> = Vec::new();
    let mut i: usize = 0;
    assert(v@.skip(0) =~= v@);
    assert(cur@ + v@.skip(0) =~= v@);
    while i < v.len()
        invariant
            i <= v.len(),
            forall|j: int| 0 <= j < cur@.len() ==> cur@[j] != sep,
            string_views(parts@) + split_on(cur@ + v@.skip(i as int), sep) == split_on(v@, sep),
        decreases v.len() - i,
    {
        let c = v[i];
        if c == sep {
            proof {
                let rest = v@.skip(i + 1);
                assert(cur@ + v@.skip(i as int) =~= cur@ + seq![sep] + rest);
                lemma_split_step(cur@, sep, rest);
                assert(seq![].add(rest) =~= rest);
            }
            let piece = string_from_chars(&cur);
            let ghost old_parts = parts@;
            parts.push(piece);
            proof {
                assert(string_views(parts@) =~= string_views(old_parts).push(cur@));
                assert(Seq::<char>::empty() + v@.skip(i + 1) =~= v@.skip(i + 1));
            }
            cur = Vec::new();
            proof {
                assert(string_views(parts@) + split_on(cur@ + v@.skip(i + 1), sep) =~= string_views(
                    old_parts,
                ) + (seq![piece@] + split_on(v@.skip(i + 1), sep)));
            }
        } else {
            let ghost old_cur = cur@;
            cur.push(c);
            proof {
                assert(old_cur + v@.skip(i as int) =~= cur@ + v@.skip(i + 1));
            }
        }
        i = i + 1;
    }
    proof {
        assert(cur@ + v@.skip(i as int) =~= cur@);
        lemma_split_single(cur@, sep);
    }
    let piece = string_from_chars(&cur);
    let ghost old_parts = parts@;
    parts.push(piece);
    proof {
        assert(string_views(parts@) =~= string_views(old_parts).push(cur@));
        assert(string_views(old_parts) + seq![cur@] =~= string_views(parts@));
    }
    parts
}


/// Lowercase mapping of a text, as `str::to_lowercase` computes it.
pub uninterp spec fn lowercase(s: Seq<char>) -> Seq<char>;

/// Whether a character has the Unicode `Uppercase` property, as
/// `char::is_uppercase` computes it.
pub uninterp spec fn is_uppercase(c: char) -> bool;

/// Lowercase copy of a text.
///
/// Trusted: calls `str::to_lowercase` (std), whose result depends on the text
/// alone; the contract names that result `lowercase`.
#[verifier::external_body]
pub(crate) fn to_lowercase(s: &str) -> (r: String)
    ensures
        r@ == lowercase(s@),
{
    s.to_lowercase()
}

/// Whether a character is uppercase.
///
/// Trusted: calls `char::is_uppercase` (std), whose result depends on the
/// character alone; the contract names that result `is_uppercase`.
#[verifier::external_body]
pub(crate) fn char_is_uppercase(c: char) -> (r: bool)
    ensures
        r == is_uppercase(c),
{
    c.is_uppercase()
}

/// Whether any character of `s` is uppercase.
pub fn any_uppercase(s: &Vec<char>) -> (r: bool)
    ensures
        r == exists|i: int| 0 <= i < s@.len() && is_uppercase(#[trigger] s@[i]),
{
    let mut i: usize = 0;
    while i < s.len()
        invariant
            i <= s.len(),
            forall|j: int| 0 <= j < i ==> !is_uppercase(#[trigger] s@[j]),
        decreases s.len() - i,
    {
        if char_is_uppercase(s[i]) {
            return true;
        }
        i = i + 1;
    }
    false
}

} // verus!
