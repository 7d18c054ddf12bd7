//! Plain-text scanning primitives: first occurrence of a substring, and
//! splitting a text into lines on `'\n'`.
//!
//! The extractor works line by line on the raw report and keys every field
//! on the first occurrence of a marker substring, so both operations come
//! with a specification of "the first match" that the rest of the library
//! builds on.

use vstd::prelude::*;

verus! {

/// `needle` occurs in `hay` starting at position `i`.
pub open spec fn match_at(hay: Seq<char>, needle: Seq<char>, i: int) -> bool {
    0 <= i && i + needle.len() <= hay.len() && hay.subrange(i, i + needle.len() as int) == needle
}

/// Position of the first occurrence of `needle` in `hay`, if any.
pub open spec fn spec_find(hay: Seq<char>, needle: Seq<char>) -> Option<int>
    decreases hay.len(),
{
    if hay.len() < needle.len() {
        None
    } else if needle.len() == 0 {
        Some(0)
    } else if hay.subrange(0, needle.len() as int) == needle {
        Some(0)
    } else {
        match spec_find(hay.skip(1), needle) {
            None => None,
            Some(i) => Some(i + 1),
        }
    }
}

/// `needle` occurs somewhere in `hay`.
pub open spec fn contains_sub(hay: Seq<char>, needle: Seq<char>) -> bool {
    spec_find(hay, needle) is Some
}

/// `spec_find` returns exactly the first match: a match position with no
/// match before it, or nothing when no position matches.
pub proof fn lemma_spec_find(hay: Seq<char>, needle: Seq<char>)
    ensures
        match spec_find(hay, needle) {
            Some(i) => match_at(hay, needle, i) && (forall|j: int|
                0 <= j < i ==> !match_at(hay, needle, j)),
            None => forall|j: int| !match_at(hay, needle, j),
        },
    decreases hay.len(),
{
    if hay.len() < needle.len() {
        assert forall|j: int| !match_at(hay, needle, j) by {
            if match_at(hay, needle, j) {
                assert(j + needle.len() <= hay.len());
            }
        }
    } else if needle.len() == 0 {
        assert(hay.subrange(0, 0) =~= needle);
        assert(match_at(hay, needle, 0));
    } else if hay.subrange(0, needle.len() as int) == needle {
        assert(match_at(hay, needle, 0));
    } else {
        lemma_spec_find(hay.skip(1), needle);
        let n = needle.len() as int;
        assert forall|j: int| 1 <= j && match_at(hay, needle, j) implies match_at(
            hay.skip(1),
            needle,
            j - 1,
        ) by {
            assert(j + n <= hay.len());
            assert(hay.skip(1).len() == hay.len() - 1);
            assert forall|m: int| 0 <= m < n implies hay.skip(1).subrange(j - 1, j - 1 + n)[m]
                == needle[m] by {
                assert(hay.skip(1).subrange(j - 1, j - 1 + n)[m] == hay[j + m]);
                assert(hay.subrange(j, j + n)[m] == hay[j + m]);
            }
            assert(hay.skip(1).subrange(j - 1, j - 1 + n) =~= needle);
        }
        assert forall|j: int| match_at(hay.skip(1), needle, j) implies match_at(
            hay,
            needle,
            j + 1,
        ) by {
            assert(j + n <= hay.skip(1).len());
            assert(hay.skip(1).len() == hay.len() - 1);
            assert forall|m: int| 0 <= m < n implies hay.subrange(j + 1, j + 1 + n)[m]
                == needle[m] by {
                assert(hay.subrange(j + 1, j + 1 + n)[m] == hay[j + 1 + m]);
                assert(hay.skip(1).subrange(j, j + n)[m] == hay[j + 1 + m]);
            }
            assert(hay.subrange(j + 1, j + 1 + n) =~= needle);
        }
        match spec_find(hay.skip(1), needle) {
            None => {
                assert forall|j: int| !match_at(hay, needle, j) by {
                    if match_at(hay, needle, j) {
                        if j == 0 {
                            assert(hay.subrange(0, needle.len() as int) == needle);
                        } else {
                            assert(match_at(hay.skip(1), needle, j - 1));
                        }
                    }
                }
            },
            Some(i) => {
                assert(match_at(hay, needle, i + 1));
                assert forall|j: int| 0 <= j < i + 1 implies !match_at(hay, needle, j) by {
                    if match_at(hay, needle, j) {
                        if j == 0 {
                            assert(hay.subrange(0, needle.len() as int) == needle);
                        } else {
                            assert(match_at(hay.skip(1), needle, j - 1));
                        }
                    }
                }
            },
        }
    }
}

/// First occurrence of `needle` in `hay`, scanning left to right.
pub fn find_sub(hay: &str, needle: &str) -> (r: Option<usize>)
    ensures
        match r {
            Some(i) => spec_find(hay@, needle@) == Some(i as int),
            None => spec_find(hay@, needle@) is None,
        },
{
    let hn = hay.unicode_len();
    let nn = needle.unicode_len();
    if nn > hn {
        return None;
    }
    if nn == 0 {
        proof {
            assert(hay@.subrange(0, 0) =~= needle@);
        }
        return Some(0);
    }
    let mut i: usize = 0;
    while i <= hn - nn
        invariant
            1 <= nn <= hn,
            hn == hay@.len(),
            nn == needle@.len(),
            i <= hn - nn + 1,
            forall|j: int| 0 <= j < i ==> !match_at(hay@, needle@, j),
        decreases hn - nn - i + 1,
    {
        let mut k: usize = 0;
        let mut matched = true;
        while k < nn
            invariant
                nn <= hn,
                hn == hay@.len(),
                nn == needle@.len(),
                i <= hn - nn,
                k <= nn,
                matched ==> forall|m: int| 0 <= m < k ==> hay@[i + m] == needle@[m],
                !matched ==> !match_at(hay@, needle@, i as int),
            decreases nn - k,
        {
            if hay.get_char(i + k) != needle.get_char(k) {
                proof {
                    if match_at(hay@, needle@, i as int) {
                        assert(hay@.subrange(i as int, i + nn as int)[k as int] == hay@[i + k]);
                    }
                }
                matched = false;
                k = nn;
            } else {
                k = k + 1;
            }
        }
        if matched {
            proof {
                assert(hay@.subrange(i as int, i + nn as int) =~= needle@);
                lemma_spec_find(hay@, needle@);
                match spec_find(hay@, needle@) {
                    None => {
                        assert(!match_at(hay@, needle@, i as int));
                    },
                    Some(f) => {
                        if f < i {
                            assert(!match_at(hay@, needle@, f));
                        }
                        if f > i {
                            assert(!match_at(hay@, needle@, i as int));
                        }
                    },
                }
            }
            return Some(i);
        }
        i = i + 1;
    }
    proof {
        lemma_spec_find(hay@, needle@);
        match spec_find(hay@, needle@) {
            Some(f) => {
                assert(!match_at(hay@, needle@, f));
            },
            None => {},
        }
    }
    None
}

/// Whether `needle` occurs anywhere in `hay`.
pub fn str_contains(hay: &str, needle: &str) -> (r: bool)
    ensures
        r == contains_sub(hay@, needle@),
{
    find_sub(hay, needle).is_some()
}

/// The lines of `text`, split on `'\n'`; the separator belongs to no line,
/// and a trailing separator yields a final empty line.
pub open spec fn split_lines(text: Seq<char>) -> Seq<Seq<char>>
    decreases text.len(),
{
    if text.len() == 0 {
        seq![Seq::<char>::empty()]
    } else if text[0] == '\n' {
        seq![Seq::<char>::empty()] + split_lines(text.skip(1))
    } else {
        let rest = split_lines(text.skip(1));
        seq![seq![text[0]] + rest[0]] + rest.skip(1)
    }
}

pub proof fn lemma_split_lines_nonempty(text: Seq<char>)
    ensures
        split_lines(text).len() >= 1,
    decreases text.len(),
{
    if text.len() != 0 {
        lemma_split_lines_nonempty(text.skip(1));
    }
}

/// A text without `'\n'` is a single line.
pub proof fn lemma_split_whole(line: Seq<char>)
    requires
        forall|k: int| 0 <= k < line.len() ==> line[k] != '\n',
    ensures
        split_lines(line) == seq![line],
    decreases line.len(),
{
    if line.len() == 0 {
        assert(line =~= Seq::<char>::empty());
        assert(split_lines(line) =~= seq![line]);
    } else {
        lemma_split_whole(line.skip(1));
        let rest = split_lines(line.skip(1));
        assert(rest[0] == line.skip(1));
        assert(seq![line[0]] + line.skip(1) =~= line);
        assert(split_lines(line) =~= seq![line]);
    }
}

/// Splitting off a first line: the text up to the first separator is one
/// line, and the remainder splits on its own.
pub proof fn lemma_split_step(line: Seq<char>, text: Seq<char>)
    requires
        forall|k: int| 0 <= k < line.len() ==> line[k] != '\n',
    ensures
        split_lines(line + seq!['\n'] + text) == seq![line] + split_lines(text),
    decreases line.len(),
{
    let whole = line + seq!['\n'] + text;
    if line.len() == 0 {
        assert(line =~= Seq::<char>::empty());
        assert(whole[0] == '\n');
        assert(whole.skip(1) =~= text);
        assert(split_lines(whole) =~= seq![line] + split_lines(text));
    } else {
        lemma_split_step(line.skip(1), text);
        assert(whole[0] == line[0]);
        assert(whole[0] != '\n');
        assert(whole.skip(1) =~= line.skip(1) + seq!['\n'] + text);
        let rest = split_lines(whole.skip(1));
        assert(rest == seq![line.skip(1)] + split_lines(text));
        lemma_split_lines_nonempty(whole.skip(1));
        assert(rest[0] == line.skip(1));
        assert(seq![whole[0]] + rest[0] =~= line);
        assert(rest.skip(1) =~= split_lines(text));
        assert(split_lines(whole) == seq![seq![whole[0]] + rest[0]] + rest.skip(1));
        assert(split_lines(whole) =~~= seq![line] + split_lines(text));
    }
}

/// Character-for-character equality of two text slices.
pub fn str_eq(a: &str, b: &str) -> (r: bool)
    ensures
        r == (a@ == b@),
{
    let n = a.unicode_len();
    if n != b.unicode_len() {
        return false;
    }
    let mut i: usize = 0;
    while i < n
        invariant
            n == a@.len(),
            n == b@.len(),
            i <= n,
            forall|j: int| 0 <= j < i ==> a@[j] == b@[j],
        decreases n - i,
    {
        if a.get_char(i) != b.get_char(i) {
            return false;
        }
        i = i + 1;
    }
    proof {
        assert(a@ =~= b@);
    }
    true
}

/// The views of a vector of owned lines.
pub open spec fn line_views(lines: Seq<String>) -> Seq<Seq<char>> {
    lines.map_values(|l: String| l@)
}

/// Split `text` into its lines on `'\n'`.
pub fn split_lines_exec(text: &str) -> (r: Vec<String>)
    ensures
        line_views(r@) == split_lines(text@),
{
    let n = text.unicode_len();
    let mut out: Vec<String> = Vec::new();
    let mut start: usize = 0;
    let mut i: usize = 0;
    proof {
        assert(text@.skip(0) =~= text@);
        assert(line_views(out@) + split_lines(text@) =~= split_lines(text@));
    }
    while i < n
        invariant
            start <= i <= n,
            n == text@.len(),
            split_lines(text@) == line_views(out@) + split_lines(text@.skip(start as int)),
            forall|k: int| start <= k < i ==> text@[k] != '\n',
        decreases n - i,
    {
        if text.get_char(i) == '\n' {
            let line = text.substring_char(start, i);
            let ghost old_out = out@;
            out.push(String::from_str(line));
            proof {
                assert(text@.skip(start as int) =~= line@ + seq!['\n'] + text@.skip(i + 1));
                lemma_split_step(line@, text@.skip(i + 1));
                assert(line_views(out@) =~= line_views(old_out) + seq![line@]);
                assert(line_views(out@) + split_lines(text@.skip(i + 1)) =~= line_views(old_out)
                    + split_lines(text@.skip(start as int)));
            }
            start = i + 1;
        }
        i = i + 1;
    }
    let last = text.substring_char(start, n);
    let ghost old_out = out@;
    out.push(String::from_str(last));
    proof {
        assert(text@.skip(start as int) =~= last@);
        lemma_split_whole(last@);
        assert(line_views(out@) =~= line_views(old_out) + seq![last@]);
        assert(line_views(out@) =~= split_lines(text@));
    }
    out
}

} // verus!
