//! Character-level primitives shared by the parsers: whitespace, search,
//! splitting, trimming and ordering over `Seq<char>`.
use vstd::prelude::*;
use vstd::std_specs::iter::IteratorSpec;

verus! {

broadcast use vstd::string::group_string_axioms;

/// The Unicode `White_Space` property.
pub open spec fn is_ws(c: char) -> bool {
    let u = c as u32;
    (9 <= u && u <= 13) || u == 32 || u == 0x85 || u == 0xa0 || u == 0x1680 || (0x2000 <= u
        && u <= 0x200a) || u == 0x2028 || u == 0x2029 || u == 0x202f || u == 0x205f || u == 0x3000
}

pub fn is_whitespace(c: char) -> (r: bool)
    ensures
        r == is_ws(c),
{
    let u = c as u32;
    (9 <= u && u <= 13) || u == 32 || u == 0x85 || u == 0xa0 || u == 0x1680 || (0x2000 <= u
        && u <= 0x200a) || u == 0x2028 || u == 0x2029 || u == 0x202f || u == 0x205f || u == 0x3000
}

/// Lexicographic order on character sequences, by code point; this is the
/// order of `str`'s `Ord`, since UTF-8 keeps code point order.
pub open spec fn seq_lt(a: Seq<char>, b: Seq<char>) -> bool
    decreases a.len(),
{
    if b.len() == 0 {
        false
    } else if a.len() == 0 {
        true
    } else if a[0] != b[0] {
        (a[0] as int) < (b[0] as int)
    } else {
        seq_lt(a.drop_first(), b.drop_first())
    }
}

pub proof fn lemma_lt_irreflexive(a: Seq<char>)
    ensures
        !seq_lt(a, a),
    decreases a.len(),
{
    if a.len() > 0 {
        lemma_lt_irreflexive(a.drop_first());
    }
}

pub proof fn lemma_lt_asymmetric(a: Seq<char>, b: Seq<char>)
    ensures
        !(seq_lt(a, b) && seq_lt(b, a)),
    decreases a.len(),
{
    if a.len() > 0 && b.len() > 0 && a[0] == b[0] {
        lemma_lt_asymmetric(a.drop_first(), b.drop_first());
    }
}

pub proof fn lemma_lt_transitive(a: Seq<char>, b: Seq<char>, c: Seq<char>)
    requires
        seq_lt(a, b),
        seq_lt(b, c),
    ensures
        seq_lt(a, c),
    decreases a.len(),
{
    if a.len() > 0 && a[0] == b[0] && b[0] == c[0] {
        lemma_lt_transitive(a.drop_first(), b.drop_first(), c.drop_first());
    }
}

pub proof fn lemma_lt_total(a: Seq<char>, b: Seq<char>)
    ensures
        a == b || seq_lt(a, b) || seq_lt(b, a),
    decreases a.len(),
{
    if a.len() > 0 && b.len() > 0 && a[0] == b[0] {
        lemma_lt_total(a.drop_first(), b.drop_first());
        if a.drop_first() == b.drop_first() {
            assert(a =~= seq![a[0]] + a.drop_first());
            assert(b =~= seq![b[0]] + b.drop_first());
        }
    } else if a.len() == 0 && b.len() == 0 {
        assert(a =~= b);
    }
}

/// `a` precedes `b`.
pub fn chars_lt(a: &Vec<char>, b: &Vec<char>) -> (r: bool)
    ensures
        r == seq_lt(a@, b@),
{
    let mut i: usize = 0;
    proof {
        assert(a@.skip(0) =~= a@);
        assert(b@.skip(0) =~= b@);
    }
    while i < a.len() && i < b.len() && a[i] == b[i]
        invariant
            i <= a.len(),
            i <= b.len(),
            seq_lt(a@, b@) == seq_lt(a@.skip(i as int), b@.skip(i as int)),
        decreases a.len() - i,
    {
        proof {
            let sa = a@.skip(i as int);
            let sb = b@.skip(i as int);
            assert(sa.drop_first() =~= a@.skip(i + 1));
            assert(sb.drop_first() =~= b@.skip(i + 1));
        }
        i = i + 1;
    }
    if i >= b.len() {
        false
    } else if i >= a.len() {
        true
    } else {
        let x = a[i];
        let y = b[i];
        x < y
    }
}

/// The characters of `s`.
pub fn chars_of(s: &str) -> (r: Vec<char>)
    ensures
        r@ == s@,
{
    let mut v: Vec<char> = Vec::new();
    let mut it = s.chars();
    loop
        invariant
            it.obeys_prophetic_iter_laws(),
            v@ + it.remaining() == s@,
            it.decrease() is Some,
        decreases it.decrease()->0,
    {
        match it.next() {
            Some(c) => {
                v.push(c);
            },
            None => {
                assert(v@ =~= s@);
                return v;
            },
        }
    }
}


/// The lowercase mapping of a text, as `str::to_lowercase` computes it.
pub uninterp spec fn lower_of(s: Seq<char>) -> Seq<char>;

/// Unicode `Alphabetic` or `Numeric`, as `char::is_alphanumeric` decides it.
pub uninterp spec fn alphanumeric(c: char) -> bool;

/// Unicode `Numeric`, as `char::is_numeric` decides it.
pub uninterp spec fn numeric(c: char) -> bool;

/// Relies on `str::to_lowercase`, whose result depends on the characters alone.
#[verifier::external_body]
pub(crate) fn lowercase(s: &str) -> (r: String)
    ensures
        r@ == lower_of(s@),
{
    s.to_lowercase()
}

/// The lowercase mapping of the characters.
pub(crate) fn to_lower(s: &Vec<char>) -> (r: Vec<char>)
    ensures
        r@ == lower_of(s@),
{
    chars_of(lowercase(string_of(s).as_str()).as_str())
}

/// Relies on `char::is_alphanumeric`.
#[verifier::external_body]
pub(crate) fn is_alphanumeric(c: char) -> (r: bool)
    ensures
        r == alphanumeric(c),
{
    c.is_alphanumeric()
}

/// Relies on `char::is_numeric`.
#[verifier::external_body]
pub(crate) fn is_numeric(c: char) -> (r: bool)
    ensures
        r == numeric(c),
{
    c.is_numeric()
}

/// Relies on `String: FromIterator<&char>`, which appends the characters in order.
#[verifier::external_body]
pub(crate) fn string_of(v: &Vec<char>) -> (r: String)
    ensures
        r@ == v@,
{
    v.iter().collect()
}

pub open spec fn views(vs: Seq<Vec<char>>) -> Seq<Seq<char>> {
    vs.map_values(|v: Vec<char>| v@)
}

pub fn subvec(s: &Vec<char>, lo: usize, hi: usize) -> (r: Vec<char>)
    requires
        lo <= hi <= s.len(),
    ensures
        r@ == s@.subrange(lo as int, hi as int),
{
    let mut r: Vec<char> = Vec::new();
    let mut i = lo;
    while i < hi
        invariant
            lo <= i <= hi <= s.len(),
            r@ == s@.subrange(lo as int, i as int),
        decreases hi - i,
    {
        r.push(s[i]);
        proof {
            assert(r@ =~= s@.subrange(lo as int, i + 1));
        }
        i = i + 1;
    }
    r
}

/// Appends `b` to `a`.
pub fn append_chars(a: &mut Vec<char>, b: &Vec<char>)
    ensures
        final(a)@ == old(a)@ + b@,
{
    let mut i: usize = 0;
    while i < b.len()
        invariant
            i <= b.len(),
            a@ == old(a)@ + b@.subrange(0, i as int),
        decreases b.len() - i,
    {
        a.push(b[i]);
        proof {
            assert(a@ =~= old(a)@ + b@.subrange(0, i + 1));
        }
        i = i + 1;
    }
    proof {
        assert(b@.subrange(0, b.len() as int) =~= b@);
    }
}

pub open spec fn matches_at(s: Seq<char>, p: Seq<char>, i: int) -> bool {
    0 <= i && i + p.len() <= s.len() && s.subrange(i, i + p.len()) == p
}

/// The first position at or after `i` where `p` occurs in `s`.
pub open spec fn find_from(s: Seq<char>, p: Seq<char>, i: int) -> Option<int>
    decreases s.len() + 1 - i,
{
    if i < 0 || i + p.len() > s.len() {
        None
    } else if matches_at(s, p, i) {
        Some(i)
    } else {
        find_from(s, p, i + 1)
    }
}

pub open spec fn contains(s: Seq<char>, p: Seq<char>) -> bool {
    find_from(s, p, 0) is Some
}

pub proof fn lemma_find_from_bounds(s: Seq<char>, p: Seq<char>, i: int)
    ensures
        find_from(s, p, i) matches Some(j) ==> i <= j && j + p.len() <= s.len() && matches_at(
            s,
            p,
            j,
        ),
        0 <= i && find_from(s, p, i) is None ==> forall|j: int| i <= j ==> !matches_at(s, p, j),
    decreases s.len() + 1 - i,
{
    if i < 0 || i + p.len() > s.len() {
    } else if matches_at(s, p, i) {
    } else {
        lemma_find_from_bounds(s, p, i + 1);
        if find_from(s, p, i) is None {
            assert forall|j: int| i <= j implies !matches_at(s, p, j) by {
                if j > i {
                    assert(i + 1 <= j);
                }
            }
        }
    }
}

pub fn matches_at_exec(s: &Vec<char>, p: &Vec<char>, i: usize) -> (r: bool)
    ensures
        r == matches_at(s@, p@, i as int),
{
    if i > s.len() || p.len() > s.len() - i {
        return false;
    }
    let mut k: usize = 0;
    while k < p.len()
        invariant
            i + p.len() <= s.len(),
            k <= p.len(),
            s@.subrange(i as int, i + k) == p@.subrange(0, k as int),
        decreases p.len() - k,
    {
        if s[i + k] != p[k] {
            proof {
                assert(s@.subrange(i as int, i + p.len())[k as int] != p@[k as int]);
            }
            return false;
        }
        proof {
            assert(s@.subrange(i as int, i + k + 1) =~= p@.subrange(0, k + 1));
        }
        k = k + 1;
    }
    proof {
        assert(p@.subrange(0, p.len() as int) =~= p@);
    }
    true
}

pub fn find_from_exec(s: &Vec<char>, p: &Vec<char>, i: usize) -> (r: Option<usize>)
    ensures
        match r {
            Some(j) => find_from(s@, p@, i as int) == Some(j as int),
            None => find_from(s@, p@, i as int) is None,
        },
{
    let mut j = i;
    loop
        invariant
            i <= j,
            find_from(s@, p@, i as int) == find_from(s@, p@, j as int),
        decreases s.len() + 1 - j,
    {
        if j > s.len() || p.len() > s.len() - j {
            return None;
        }
        if matches_at_exec(s, p, j) {
            return Some(j);
        }
        if j == s.len() {
            proof {
                assert(s@.subrange(j as int, j as int) =~= p@);
            }
            return None;
        }
        j = j + 1;
    }
}

/// The pieces of `s` from `i` on between the occurrences of `p`, as `str::split` gives them.
pub open spec fn split_from(s: Seq<char>, p: Seq<char>, i: int) -> Seq<Seq<char>>
    decreases s.len() - i,
    via split_from_decreases
{
    if p.len() == 0 || i < 0 || i > s.len() {
        seq![]
    } else {
        match find_from(s, p, i) {
            None => seq![s.subrange(i, s.len() as int)],
            Some(j) => seq![s.subrange(i, j)] + split_from(s, p, j + p.len()),
        }
    }
}

#[via_fn]
proof fn split_from_decreases(s: Seq<char>, p: Seq<char>, i: int) {
    lemma_find_from_bounds(s, p, i);
}

pub open spec fn split(s: Seq<char>, p: Seq<char>) -> Seq<Seq<char>> {
    split_from(s, p, 0)
}

pub fn split_exec(s: &Vec<char>, p: &Vec<char>) -> (r: Vec<Vec<char>>)
    requires
        p.len() > 0,
    ensures
        views(r@) == split(s@, p@),
{
    let mut r: Vec<Vec<char>> = Vec::new();
    let mut i: usize = 0;
    loop
        invariant
            p.len() > 0,
            i <= s.len(),
            views(r@) + split_from(s@, p@, i as int) == split(s@, p@),
        decreases s.len() - i,
    {
        proof {
            lemma_find_from_bounds(s@, p@, i as int);
        }
        match find_from_exec(s, p, i) {
            None => {
                let piece = subvec(s, i, s.len());
                let ghost old_r = r@;
                r.push(piece);
                proof {
                    assert(views(r@) =~= views(old_r).push(piece@));
                    assert(views(r@) =~= views(old_r) + split_from(s@, p@, i as int));
                }
                return r;
            },
            Some(j) => {
                let piece = subvec(s, i, j);
                let ghost old_r = r@;
                r.push(piece);
                proof {
                    assert(views(r@) =~= views(old_r).push(piece@));
                    assert(split_from(s@, p@, i as int) =~= seq![piece@] + split_from(
                        s@,
                        p@,
                        j + p.len(),
                    ));
                    assert(views(r@) + split_from(s@, p@, j + p.len()) =~= views(old_r)
                        + split_from(s@, p@, i as int));
                }
                i = j + p.len();
            },
        }
    }
}

/// `s` without its leading whitespace.
pub open spec fn trim_start(s: Seq<char>) -> Seq<char>
    decreases s.len(),
{
    if s.len() > 0 && is_ws(s[0]) {
        trim_start(s.drop_first())
    } else {
        s
    }
}

/// `s` without its trailing whitespace.
pub open spec fn trim_end(s: Seq<char>) -> Seq<char>
    decreases s.len(),
{
    if s.len() > 0 && is_ws(s.last()) {
        trim_end(s.drop_last())
    } else {
        s
    }
}

/// `s` without leading and trailing whitespace, as `str::trim` gives it.
pub open spec fn trim(s: Seq<char>) -> Seq<char> {
    trim_end(trim_start(s))
}

/// The bounds of `trim` of the window `lo..hi` of `s`.
pub fn trim_range(s: &Vec<char>, lo: usize, hi: usize) -> (r: (usize, usize))
    requires
        lo <= hi <= s.len(),
    ensures
        lo <= r.0 <= r.1 <= hi,
        s@.subrange(r.0 as int, r.1 as int) == trim(s@.subrange(lo as int, hi as int)),
        s@.subrange(r.0 as int, hi as int) == trim_start(s@.subrange(lo as int, hi as int)),
{
    let mut a = lo;
    while a < hi && is_whitespace(s[a])
        invariant
            lo <= a <= hi <= s.len(),
            trim_start(s@.subrange(lo as int, hi as int)) == trim_start(
                s@.subrange(a as int, hi as int),
            ),
        decreases hi - a,
    {
        proof {
            assert(s@.subrange(a as int, hi as int).drop_first() =~= s@.subrange(
                a + 1,
                hi as int,
            ));
        }
        a = a + 1;
    }
    let mut b = hi;
    while b > a && is_whitespace(s[b - 1])
        invariant
            lo <= a <= b <= hi <= s.len(),
            trim_end(s@.subrange(a as int, hi as int)) == trim_end(
                s@.subrange(a as int, b as int),
            ),
        decreases b - a,
    {
        proof {
            assert(s@.subrange(a as int, b as int).drop_last() =~= s@.subrange(
                a as int,
                b - 1,
            ));
        }
        b = b - 1;
    }
    (a, b)
}

pub fn trim_vec(s: &Vec<char>) -> (r: Vec<char>)
    ensures
        r@ == trim(s@),
{
    let (a, b) = trim_range(s, 0, s.len());
    proof {
        assert(s@.subrange(0, s.len() as int) =~= s@);
    }
    subvec(s, a, b)
}

/// The parts joined by `sep`, as `join` on a slice of strings gives it.
pub open spec fn join(parts: Seq<Seq<char>>, sep: Seq<char>) -> Seq<char>
    decreases parts.len(),
{
    if parts.len() == 0 {
        seq![]
    } else if parts.len() == 1 {
        parts[0]
    } else {
        join(parts.drop_last(), sep) + sep + parts.last()
    }
}

pub fn join_exec(parts: &Vec<Vec<char>>, sep: &Vec<char>) -> (r: Vec<char>)
    ensures
        r@ == join(views(parts@), sep@),
{
    let mut r: Vec<char> = Vec::new();
    let mut i: usize = 0;
    while i < parts.len()
        invariant
            i <= parts.len(),
            r@ == join(views(parts@).subrange(0, i as int), sep@),
        decreases parts.len() - i,
    {
        proof {
            let ps = views(parts@).subrange(0, i + 1);
            assert(ps.drop_last() =~= views(parts@).subrange(0, i as int));
            assert(ps.last() == parts@[i as int]@);
        }
        if i > 0 {
            append_chars(&mut r, sep);
        }
        append_chars(&mut r, &parts[i]);
        i = i + 1;
    }
    proof {
        assert(views(parts@).subrange(0, parts.len() as int) =~= views(parts@));
    }
    r
}


/// A line without the carriage return of a `\r\n` ending.
pub open spec fn strip_cr(l: Seq<char>) -> Seq<char> {
    if l.len() > 0 && l.last() == '\r' {
        l.drop_last()
    } else {
        l
    }
}

/// The lines of `s`, as `str::lines` gives them.
pub open spec fn lines(s: Seq<char>) -> Seq<Seq<char>> {
    let ps = split(s, seq!['\n']);
    let n = ps.len() as int;
    let head = ps.subrange(0, n - 1).map_values(|l: Seq<char>| strip_cr(l));
    if n == 0 {
        seq![]
    } else if ps[n - 1].len() == 0 {
        head
    } else {
        head.push(ps[n - 1])
    }
}

pub fn strip_cr_exec(l: Vec<char>) -> (r: Vec<char>)
    ensures
        r@ == strip_cr(l@),
{
    let ghost g = l@;
    let mut l = l;
    if l.len() > 0 && l[l.len() - 1] == '\r' {
        l.pop();
        proof {
            assert(l@ =~= g.drop_last());
        }
    }
    l
}

pub fn lines_exec(s: &Vec<char>) -> (r: Vec<Vec<char>>)
    ensures
        views(r@) == lines(s@),
{
    let nl = vec!['\n'];
    proof {
        assert(nl@ =~= seq!['\n']);
    }
    let ps = split_exec(s, &nl);
    let ghost gps = split(s@, seq!['\n']);
    let n = ps.len();
    assert(views(ps@).len() == ps@.len());
    let mut r: Vec<Vec<char>> = Vec::new();
    if n == 0 {
        proof {
            assert(views(r@) =~= lines(s@));
        }
        return r;
    }
    let mut i: usize = 0;
    while i + 1 < n
        invariant
            n == ps.len() == gps.len(),
            views(ps@) == gps,
            gps == split(s@, seq!['\n']),
            i + 1 <= n,
            views(r@) == gps.subrange(0, i as int).map_values(|l: Seq<char>| strip_cr(l)),
        decreases n - i,
    {
        let mut l: Vec<char> = Vec::new();
        append_chars(&mut l, &ps[i]);
        let l = strip_cr_exec(l);
        let ghost old_r = r@;
        r.push(l);
        proof {
            assert(views(r@) =~= views(old_r).push(l@));
            assert(views(r@) =~= gps.subrange(0, i + 1).map_values(|l: Seq<char>| strip_cr(l)));
        }
        i = i + 1;
    }
    if ps[n - 1].len() > 0 {
        let mut l: Vec<char> = Vec::new();
        append_chars(&mut l, &ps[n - 1]);
        let ghost old_r = r@;
        r.push(l);
        proof {
            assert(views(r@) =~= views(old_r).push(l@));
        }
    }
    proof {
        assert(views(r@) =~= lines(s@));
    }
    r
}

/// Separators of tokens: any whitespace, or (with `tilde`) a space or a tilde.
pub open spec fn is_sep(c: char, tilde: bool) -> bool {
    if tilde {
        c == ' ' || c == '~'
    } else {
        is_ws(c)
    }
}

pub fn is_sep_exec(c: char, tilde: bool) -> (r: bool)
    ensures
        r == is_sep(c, tilde),
{
    if tilde {
        c == ' ' || c == '~'
    } else {
        is_whitespace(c)
    }
}

/// The first position at or after `i` that holds no separator.
pub open spec fn skip_sep(s: Seq<char>, i: int, tilde: bool) -> int
    decreases s.len() - i,
{
    if i < s.len() && is_sep(s[i], tilde) {
        skip_sep(s, i + 1, tilde)
    } else {
        i
    }
}

/// The first position at or after `i` that holds a separator.
pub open spec fn skip_word(s: Seq<char>, i: int, tilde: bool) -> int
    decreases s.len() - i,
{
    if i < s.len() && !is_sep(s[i], tilde) {
        skip_word(s, i + 1, tilde)
    } else {
        i
    }
}

pub proof fn lemma_skip_bounds(s: Seq<char>, i: int, tilde: bool)
    ensures
        i <= s.len() ==> i <= skip_sep(s, i, tilde) <= s.len(),
        i <= s.len() ==> i <= skip_word(s, i, tilde) <= s.len(),
        i > s.len() ==> skip_sep(s, i, tilde) == i && skip_word(s, i, tilde) == i,
        i < s.len() && !is_sep(s[i], tilde) ==> skip_word(s, i, tilde) > i,
    decreases s.len() - i,
{
    if i < s.len() {
        lemma_skip_bounds(s, i + 1, tilde);
    }
}

/// The maximal runs of non-separators in `s` from `i` on.
pub open spec fn tokens_from(s: Seq<char>, i: int, tilde: bool) -> Seq<Seq<char>>
    decreases s.len() - i,
    via tokens_from_decreases
{
    if i < 0 || i >= s.len() {
        seq![]
    } else {
        let a = skip_sep(s, i, tilde);
        if a >= s.len() {
            seq![]
        } else {
            let b = skip_word(s, a, tilde);
            seq![s.subrange(a, b)] + tokens_from(s, b, tilde)
        }
    }
}

#[via_fn]
proof fn tokens_from_decreases(s: Seq<char>, i: int, tilde: bool) {
    lemma_skip_bounds(s, i, tilde);
    let a = skip_sep(s, i, tilde);
    if 0 <= i < s.len() && a < s.len() {
        lemma_skip_bounds(s, a, tilde);
        if is_sep(s[a], tilde) {
            lemma_skip_sep_stops(s, i, tilde);
        }
    }
}

pub proof fn lemma_skip_sep_stops(s: Seq<char>, i: int, tilde: bool)
    ensures
        skip_sep(s, i, tilde) < s.len() ==> !is_sep(s[skip_sep(s, i, tilde)], tilde),
    decreases s.len() - i,
{
    if i < s.len() && is_sep(s[i], tilde) {
        lemma_skip_sep_stops(s, i + 1, tilde);
    }
}

/// Whitespace-separated words, as `str::split_whitespace` gives them.
pub open spec fn words(s: Seq<char>) -> Seq<Seq<char>> {
    tokens_from(s, 0, false)
}

pub fn tokens_exec(s: &Vec<char>, tilde: bool) -> (r: Vec<Vec<char>>)
    ensures
        views(r@) == tokens_from(s@, 0, tilde),
{
    let mut r: Vec<Vec<char>> = Vec::new();
    let mut i: usize = 0;
    while i < s.len()
        invariant
            i <= s.len(),
            views(r@) + tokens_from(s@, i as int, tilde) == tokens_from(s@, 0, tilde),
        decreases s.len() - i,
    {
        let ghost gi = i;
        let mut a = i;
        while a < s.len() && is_sep_exec(s[a], tilde)
            invariant
                gi <= a <= s.len(),
                skip_sep(s@, gi as int, tilde) == skip_sep(s@, a as int, tilde),
            decreases s.len() - a,
        {
            a = a + 1;
        }
        if a >= s.len() {
            proof {
                assert(tokens_from(s@, gi as int, tilde) =~= seq![]);
                assert(views(r@) =~= views(r@) + tokens_from(s@, gi as int, tilde));
            }
            return r;
        }
        let mut b = a;
        while b < s.len() && !is_sep_exec(s[b], tilde)
            invariant
                a <= b <= s.len(),
                skip_word(s@, a as int, tilde) == skip_word(s@, b as int, tilde),
            decreases s.len() - b,
        {
            b = b + 1;
        }
        let piece = subvec(s, a, b);
        let ghost old_r = r@;
        r.push(piece);
        proof {
            lemma_skip_bounds(s@, a as int, tilde);
            assert(views(r@) =~= views(old_r).push(piece@));
            assert(tokens_from(s@, gi as int, tilde) =~= seq![piece@] + tokens_from(
                s@,
                b as int,
                tilde,
            ));
            assert(views(r@) + tokens_from(s@, b as int, tilde) =~= views(old_r) + tokens_from(
                s@,
                gi as int,
                tilde,
            ));
        }
        i = b;
    }
    proof {
        assert(views(r@) =~= views(r@) + tokens_from(s@, i as int, tilde));
    }
    r
}


pub fn chars_eq(a: &Vec<char>, b: &Vec<char>) -> (r: bool)
    ensures
        r == (a@ == b@),
{
    if a.len() != b.len() {
        return false;
    }
    let mut i: usize = 0;
    while i < a.len()
        invariant
            a.len() == b.len(),
            i <= a.len(),
            a@.subrange(0, i as int) == b@.subrange(0, i as int),
        decreases a.len() - i,
    {
        if a[i] != b[i] {
            return false;
        }
        proof {
            assert(a@.subrange(0, i + 1) =~= b@.subrange(0, i + 1)) by {
                assert(a@.subrange(0, i + 1) =~= a@.subrange(0, i as int).push(a@[i as int]));
                assert(b@.subrange(0, i + 1) =~= b@.subrange(0, i as int).push(b@[i as int]));
            }
        }
        i = i + 1;
    }
    proof {
        assert(a@ =~= a@.subrange(0, i as int));
        assert(b@ =~= b@.subrange(0, i as int));
    }
    true
}

} // verus!
