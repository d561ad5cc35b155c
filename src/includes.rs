//! The inclusion directives `\input{name}` and `\include{name}` of a LaTeX
//! file, and the text with each directive replaced by what it includes.
use vstd::prelude::*;
use crate::text::{chars_of, find_from, find_from_exec, matches_at, matches_at_exec, string_of,
    subvec, append_chars, lemma_find_from_bounds};

verus! {

/// An inclusion directive starting at `j`: the positions of the braces
/// around its non-empty file name.
pub open spec fn include_at(s: Seq<char>, j: int) -> Option<(int, int)> {
    let o = if 0 <= j < s.len() && s[j] == '\\' && matches_at(
        s,
        seq!['i', 'n', 'p', 'u', 't', '{'],
        j + 1,
    ) {
        j + 6
    } else if 0 <= j < s.len() && s[j] == '\\' && matches_at(
        s,
        seq!['i', 'n', 'c', 'l', 'u', 'd', 'e', '{'],
        j + 1,
    ) {
        j + 8
    } else {
        -1
    };
    if o < 0 {
        None
    } else {
        match find_from(s, seq!['}'], o + 1) {
            Some(c) => if c > o + 1 {
                Some((o, c))
            } else {
                None
            },
            None => None,
        }
    }
}

/// The first directive starting at or after `i`.
pub open spec fn next_include(s: Seq<char>, i: int) -> Option<int>
    decreases s.len() - i,
{
    if i < 0 || i >= s.len() {
        None
    } else if include_at(s, i) is Some {
        Some(i)
    } else {
        next_include(s, i + 1)
    }
}

pub proof fn lemma_next_include_bounds(s: Seq<char>, i: int)
    ensures
        next_include(s, i) matches Some(j) ==> (i <= j && (include_at(s, j) matches Some((o, c))
            && j < o < c < s.len() && o + 1 < c)),
    decreases s.len() - i,
{
    if 0 <= i < s.len() {
        if include_at(s, i) is Some {
            let o = if matches_at(s, seq!['i', 'n', 'p', 'u', 't', '{'], i + 1) {
                i + 6
            } else {
                i + 8
            };
            lemma_find_from_bounds(s, seq!['}'], o + 1);
        } else {
            lemma_next_include_bounds(s, i + 1);
        }
    }
}

/// The file names of the directives of `s` from `i` on, in order.
pub open spec fn include_names_from(s: Seq<char>, i: int) -> Seq<Seq<char>>
    decreases s.len() - i,
    via include_names_decreases
{
    if i < 0 || i > s.len() {
        seq![]
    } else {
        match next_include(s, i) {
            None => seq![],
            Some(j) => match include_at(s, j) {
                Some((o, c)) => seq![s.subrange(o + 1, c)] + include_names_from(s, c + 1),
                None => seq![],
            },
        }
    }
}

#[via_fn]
proof fn include_names_decreases(s: Seq<char>, i: int) {
    lemma_next_include_bounds(s, i);
}

/// `s` from `i` on with its directives replaced, in order, by the texts
/// `rs` from position `k` on (by nothing once they run out).
pub open spec fn spliced_from(s: Seq<char>, rs: Seq<Seq<char>>, i: int, k: int) -> Seq<char>
    decreases s.len() - i,
    via spliced_decreases
{
    if i < 0 || i > s.len() {
        seq![]
    } else {
        match next_include(s, i) {
            None => s.subrange(i, s.len() as int),
            Some(j) => match include_at(s, j) {
                Some((o, c)) => s.subrange(i, j) + (if 0 <= k < rs.len() {
                    rs[k]
                } else {
                    seq![]
                }) + spliced_from(s, rs, c + 1, k + 1),
                None => seq![],
            },
        }
    }
}

#[via_fn]
proof fn spliced_decreases(s: Seq<char>, rs: Seq<Seq<char>>, i: int, k: int) {
    lemma_next_include_bounds(s, i);
}

fn include_at_exec(s: &Vec<char>, j: usize) -> (r: Option<(usize, usize)>)
    ensures
        match r {
            Some((o, c)) => include_at(s@, j as int) == Some((o as int, c as int)),
            None => include_at(s@, j as int) is None,
        },
{
    if j >= s.len() || s[j] != '\\' {
        return None;
    }
    let p1 = vec!['i', 'n', 'p', 'u', 't', '{'];
    let p2 = vec!['i', 'n', 'c', 'l', 'u', 'd', 'e', '{'];
    let close = vec!['}'];
    proof {
        assert(p1@ =~= seq!['i', 'n', 'p', 'u', 't', '{']);
        assert(p2@ =~= seq!['i', 'n', 'c', 'l', 'u', 'd', 'e', '{']);
        assert(close@ =~= seq!['}']);
    }
    let o = if matches_at_exec(s, &p1, j + 1) {
        j + 6
    } else if matches_at_exec(s, &p2, j + 1) {
        j + 8
    } else {
        return None;
    };
    match find_from_exec(s, &close, o + 1) {
        Some(c) => if c > o + 1 {
            Some((o, c))
        } else {
            None
        },
        None => None,
    }
}

fn next_include_exec(s: &Vec<char>, i: usize) -> (r: Option<(usize, usize, usize)>)
    ensures
        match r {
            Some((j, o, c)) => next_include(s@, i as int) == Some(j as int) && include_at(
                s@,
                j as int,
            ) == Some((o as int, c as int)),
            None => next_include(s@, i as int) is None,
        },
{
    let mut j = i;
    while j < s.len()
        invariant
            i <= j,
            next_include(s@, i as int) == next_include(s@, j as int),
        decreases s.len() - j,
    {
        if let Some((o, c)) = include_at_exec(s, j) {
            return Some((j, o, c));
        }
        j = j + 1;
    }
    None
}

/// The file names that the directives of `content` include, in order.
pub fn include_names(content: &str) -> (r: Vec<String>)
    ensures
        r@.map_values(|x: String| x@) == include_names_from(content@, 0),
{
    let s = chars_of(content);
    let mut r: Vec<String> = Vec::new();
    let mut i: usize = 0;
    loop
        invariant
            s@ == content@,
            i <= s.len(),
            r@.map_values(|x: String| x@) + include_names_from(s@, i as int) == include_names_from(
                s@,
                0,
            ),
        decreases s.len() - i,
    {
        proof {
            lemma_next_include_bounds(s@, i as int);
        }
        match next_include_exec(&s, i) {
            None => {
                proof {
                    assert(include_names_from(s@, i as int) =~= seq![]);
                    assert(r@.map_values(|x: String| x@) =~= r@.map_values(|x: String| x@)
                        + include_names_from(s@, i as int));
                }
                return r;
            },
            Some((j, o, c)) => {
                let name = string_of(&subvec(&s, o + 1, c));
                let ghost bp = r@;
                r.push(name);
                proof {
                    assert(r@.map_values(|x: String| x@) =~= bp.map_values(|x: String| x@).push(
                        name@,
                    ));
                    assert(r@.map_values(|x: String| x@) + include_names_from(s@, c + 1) =~= bp.map_values(
                        |x: String| x@,
                    ) + include_names_from(s@, i as int));
                }
                i = c + 1;
            },
        }
    }
}

/// `content` with its directives replaced, in order, by `included`; a
/// directive past the end of `included` is dropped.
pub fn splice_includes(content: &str, included: &Vec<String>) -> (r: String)
    ensures
        r@ == spliced_from(content@, included@.map_values(|x: String| x@), 0, 0),
{
    let s = chars_of(content);
    let ghost rs = included@.map_values(|x: String| x@);
    let mut out: Vec<char> = Vec::new();
    let mut i: usize = 0;
    let mut k: usize = 0;
    loop
        invariant
            s@ == content@,
            rs == included@.map_values(|x: String| x@),
            i <= s.len(),
            k <= i,
            out@ + spliced_from(s@, rs, i as int, k as int) == spliced_from(s@, rs, 0, 0),
        decreases s.len() - i,
    {
        proof {
            lemma_next_include_bounds(s@, i as int);
        }
        match next_include_exec(&s, i) {
            None => {
                append_chars(&mut out, &subvec(&s, i, s.len()));
                return string_of(&out);
            },
            Some((j, o, c)) => {
                let ghost old_out = out@;
                append_chars(&mut out, &subvec(&s, i, j));
                if k < included.len() {
                    append_chars(&mut out, &chars_of(included[k].as_str()));
                }
                proof {
                    let piece = if 0 <= k < rs.len() {
                        rs[k as int]
                    } else {
                        seq![]
                    };
                    assert(out@ =~= old_out + s@.subrange(i as int, j as int) + piece);
                    assert(spliced_from(s@, rs, i as int, k as int) == s@.subrange(i as int, j as int)
                        + piece + spliced_from(s@, rs, c + 1, k + 1));
                    assert(out@ + spliced_from(s@, rs, c + 1, k + 1) =~= old_out + spliced_from(
                        s@,
                        rs,
                        i as int,
                        k as int,
                    ));
                }
                i = c + 1;
                k = k + 1;
            },
        }
    }
}

/// The files to try for an included name: the name itself, then the name
/// with `.tex` added where it does not end so.
pub fn input_candidates(filename: &str) -> (r: Vec<String>)
    ensures
        r@.len() >= 1,
        r@[0]@ == filename@,
        r@.len() == 2 <==> !(filename@.len() >= 4 && filename@.subrange(
            filename@.len() - 4,
            filename@.len() as int,
        ) == ".tex"@),
        r@.len() == 2 ==> r@[1]@ == filename@ + ".tex"@,
        r@.len() <= 2,
{
    let f = chars_of(filename);
    let ext = chars_of(".tex");
    proof {
        reveal_strlit(".tex");
    }
    let mut r: Vec<String> = Vec::new();
    r.push(filename.to_owned());
    let ends = f.len() >= 4 && matches_at_exec(&f, &ext, f.len() - 4);
    if !ends {
        let mut g = subvec(&f, 0, f.len());
        append_chars(&mut g, &ext);
        proof {
            assert(f@.subrange(0, f.len() as int) =~= f@);
        }
        r.push(string_of(&g));
    }
    r
}

} // verus!
