//! Parsing the focused application out of the window-manager dump.
//!
//! Each surface line of the dump carries `(name=...)`; the first line
//! whose parenthesised name holds a `/` names the focused application as
//! `package/activity`.  A line without `(name=` or without `)` ends the
//! scan with no result, as does a `)` that closes before the name opens.

use vstd::prelude::*;

use crate::policy::FocusedActivity;
use crate::textscan::{
    find_sub, lemma_spec_find, line_views, match_at, spec_find, split_lines, split_lines_exec,
};

verus! {

/// ASCII whitespace, as trimmed from the extracted names.
pub open spec fn is_space(c: char) -> bool {
    c == ' ' || c == '\t' || c == '\r' || c == '\n'
}

/// `s` without leading whitespace.
pub open spec fn trim_start(s: Seq<char>) -> Seq<char>
    decreases s.len(),
{
    if s.len() > 0 && is_space(s[0]) {
        trim_start(s.skip(1))
    } else {
        s
    }
}

/// `s` without trailing whitespace.
pub open spec fn trim_end(s: Seq<char>) -> Seq<char>
    decreases s.len(),
{
    if s.len() > 0 && is_space(s.last()) {
        trim_end(s.drop_last())
    } else {
        s
    }
}

/// `s` without leading and trailing whitespace.
pub open spec fn spec_trim(s: Seq<char>) -> Seq<char> {
    trim_end(trim_start(s))
}

/// Whether `c` is ASCII whitespace.
fn is_space_exec(c: char) -> (r: bool)
    ensures
        r == is_space(c),
{
    c == ' ' || c == '\t' || c == '\r' || c == '\n'
}

/// Strip leading and trailing whitespace.
fn trim_exec(s: &str) -> (r: String)
    ensures
        r@ == spec_trim(s@),
{
    let n = s.unicode_len();
    let mut i: usize = 0;
    proof {
        assert(s@.skip(0) =~= s@);
    }
    while i < n && is_space_exec(s.get_char(i))
        invariant
            i <= n,
            n == s@.len(),
            trim_start(s@) == trim_start(s@.skip(i as int)),
        decreases n - i,
    {
        proof {
            assert(s@.skip(i as int)[0] == s@[i as int]);
            assert(s@.skip(i as int).skip(1) =~= s@.skip(i + 1));
        }
        i = i + 1;
    }
    proof {
        if i == n {
            assert(s@.skip(i as int) =~= Seq::<char>::empty());
        }
        assert(trim_start(s@) == s@.skip(i as int));
        assert(s@.skip(i as int) =~= s@.subrange(i as int, n as int));
    }
    let mut j: usize = n;
    while j > i && is_space_exec(s.get_char(j - 1))
        invariant
            i <= j <= n,
            n == s@.len(),
            i < n ==> !is_space(s@[i as int]),
            trim_end(s@.subrange(i as int, n as int)) == trim_end(s@.subrange(i as int, j as int)),
        decreases j,
    {
        proof {
            assert(s@.subrange(i as int, j as int).last() == s@[j - 1]);
            assert(s@.subrange(i as int, j as int).drop_last() =~= s@.subrange(i as int, j - 1));
        }
        j = j - 1;
    }
    proof {
        if j == i {
            assert(s@.subrange(i as int, j as int) =~= Seq::<char>::empty());
        } else {
            assert(s@.subrange(i as int, j as int).last() == s@[j - 1]);
        }
        assert(trim_end(s@.subrange(i as int, j as int)) == s@.subrange(i as int, j as int));
    }
    String::from_str(s.substring_char(i, j))
}

/// The focused `package` and `activity` named by the dump lines, if any:
/// from the first line whose `(name=...)` text holds a `/`, the trimmed
/// pieces before and after that `/` (up to a second `/`, if one occurs).
/// A line without both markers, or whose `)` closes before the name
/// starts, ends the scan with no result.
pub open spec fn spec_focused(lines: Seq<Seq<char>>) -> Option<(Seq<char>, Seq<char>)>
    decreases lines.len(),
{
    if lines.len() == 0 {
        None
    } else {
        let line = lines[0];
        match spec_find(line, ("(name=")@) {
            None => None,
            Some(a) => match spec_find(line, (")")@) {
                None => None,
                Some(b) => if b < a + 6 {
                    None
                } else {
                    let inside = line.subrange(a + 6, b);
                    match spec_find(inside, ("/")@) {
                        None => spec_focused(lines.skip(1)),
                        Some(cut) => {
                            let pkg = inside.subrange(0, cut);
                            let rest = inside.skip(cut + 1);
                            let act = match spec_find(rest, ("/")@) {
                                None => rest,
                                Some(cut2) => rest.subrange(0, cut2),
                            };
                            Some((spec_trim(pkg), spec_trim(act)))
                        },
                    }
                },
            },
        }
    }
}

/// Parse the window-manager dump for the focused application.
pub fn find_focused_activity(output: &str) -> (r: Option<FocusedActivity>)
    ensures
        r is Some ==> spec_focused(split_lines(output@)) == Some(
            ((r->Some_0).package@, (r->Some_0).activity@),
        ),
        r is None ==> spec_focused(split_lines(output@)) is None,
{
    let lines = split_lines_exec(output);
    let ghost views = split_lines(output@);
    let n = lines.len();
    let mut idx: usize = 0;
    proof {
        assert(views.skip(0) =~= views);
    }
    while idx < n
        invariant
            views == split_lines(output@),
            n == lines.len(),
            n == views.len(),
            line_views(lines@) == views,
            idx <= n,
            spec_focused(views) == spec_focused(views.skip(idx as int)),
        decreases n - idx,
    {
        proof {
            assert(views.skip(idx as int)[0] == views[idx as int]);
            assert(views.skip(idx as int).skip(1) =~= views.skip(idx + 1));
            assert(views[idx as int] == lines@[idx as int]@);
        }
        let line = lines[idx].as_str();
        let a = match find_sub(line, "(name=") {
            None => {
                return None;
            },
            Some(a) => a,
        };
        let b = match find_sub(line, ")") {
            None => {
                return None;
            },
            Some(b) => b,
        };
        proof {
            lemma_spec_find(line@, ("(name=")@);
            assert(match_at(line@, ("(name=")@, a as int));
            reveal_strlit("(name=");
            lemma_spec_find(line@, (")")@);
            assert(match_at(line@, (")")@, b as int));
            reveal_strlit(")");
        }
        if b < 6 || b - 6 < a {
            return None;
        }
        let inside = line.substring_char(a + 6, b);
        proof {
            assert(inside@ == line@.subrange(a + 6, b as int));
        }
        match find_sub(inside, "/") {
            None => {},
            Some(cut) => {
                proof {
                    lemma_spec_find(inside@, ("/")@);
                    assert(match_at(inside@, ("/")@, cut as int));
                    reveal_strlit("/");
                }
                let pkg = inside.substring_char(0, cut);
                let rest = inside.substring_char(cut + 1, inside.unicode_len());
                proof {
                    assert(rest@ =~= inside@.skip(cut + 1));
                }
                let act = match find_sub(rest, "/") {
                    None => rest,
                    Some(cut2) => {
                        proof {
                            lemma_spec_find(rest@, ("/")@);
                            assert(match_at(rest@, ("/")@, cut2 as int));
                        }
                        rest.substring_char(0, cut2)
                    },
                };
                let package = trim_exec(pkg);
                let activity = trim_exec(act);
                return Some(FocusedActivity { activity, package });
            },
        }
        idx = idx + 1;
    }
    proof {
        assert(views.skip(idx as int) =~= Seq::<Seq<char>>::empty());
    }
    None
}

} // verus!
