//! What to ask the two remote services, and what their answers mean.
use vstd::prelude::*;
use crate::text::{chars_of, contains, find_from_exec, string_of, append_chars};
use crate::entry::{BibEntry, EntryView, field};
use crate::bibliography::{Bibliography, BibView, with_entry};
use crate::bbl::{is_digit, all_digits};

verus! {

/// The title as a search query: braces and asterisks dropped, spaces made `+`.
pub open spec fn query_text(t: Seq<char>) -> Seq<char>
    decreases t.len(),
{
    if t.len() == 0 {
        t
    } else {
        let c = t.last();
        let r = query_text(t.drop_last());
        if c == '{' || c == '}' || c == '*' {
            r
        } else if c == ' ' {
            r.push('+')
        } else {
            r.push(c)
        }
    }
}

/// The search query for an entry: its title as a query, where it has one.
pub open spec fn query_for(e: EntryView) -> Option<Seq<char>> {
    match field(e, "title"@) {
        Some(t) => Some(query_text(t)),
        None => None,
    }
}

/// The search query for `entry`; an entry without a title gives none, and
/// the index is then not asked.
pub fn dblp_query(entry: &BibEntry) -> (r: Option<String>)
    ensures
        match r {
            Some(q) => query_for(entry@) == Some(q@),
            None => query_for(entry@) is None,
        },
{
    let t = match entry.get("title") {
        Some(t) => chars_of(t.as_str()),
        None => {
            return None;
        },
    };
    let mut q: Vec<char> = Vec::new();
    let mut i: usize = 0;
    while i < t.len()
        invariant
            i <= t.len(),
            q@ == query_text(t@.subrange(0, i as int)),
        decreases t.len() - i,
    {
        proof {
            assert(t@.subrange(0, i + 1).drop_last() =~= t@.subrange(0, i as int));
        }
        let c = t[i];
        if c == '{' || c == '}' || c == '*' {
        } else if c == ' ' {
            q.push('+');
        } else {
            q.push(c);
        }
        i = i + 1;
    }
    proof {
        assert(t@.subrange(0, i as int) =~= t@);
    }
    Some(string_of(&q))
}

/// The search URL of the index at `base` for `entry`, where it has a title.
pub fn dblp_search_url(base: &str, entry: &BibEntry) -> (r: Option<String>)
    ensures
        match r {
            Some(u) => query_for(entry@) matches Some(q) && u@ == base@ + "/search/publ/api?q="@
                + q + "&format=json"@,
            None => query_for(entry@) is None,
        },
{
    match dblp_query(entry) {
        Some(q) => {
            let mut u = chars_of(base);
            append_chars(&mut u, &chars_of("/search/publ/api?q="));
            append_chars(&mut u, &chars_of(q.as_str()));
            append_chars(&mut u, &chars_of("&format=json"));
            Some(string_of(&u))
        },
        None => None,
    }
}

/// The URL of the archive's record for an identifier, at `base`.
pub fn arxiv_record_url(base: &str, arxiv_id: &str) -> (r: String)
    ensures
        r@ == base@ + "/bibtex/"@ + arxiv_id@,
{
    let mut u = chars_of(base);
    append_chars(&mut u, &chars_of("/bibtex/"));
    append_chars(&mut u, &chars_of(arxiv_id));
    string_of(&u)
}

/// What an answer of a remote service means.
#[derive(Debug, PartialEq, Eq, Structural, Clone, Copy)]
pub enum Answer {
    /// The payload is worth using.
    Usable,
    /// No candidate from this source; not asked again.
    NoMatch,
    /// A transient failure; asked again under the backoff policy.
    Retry,
}

pub open spec fn is_success(status: u16) -> bool {
    200 <= status && status <= 299
}

/// A client error: no candidate, and no retry.
pub open spec fn is_client_error(status: u16) -> bool {
    400 <= status && status <= 499
}

/// The meaning of a failed status: a client error means no match, any other
/// failure is retried.
pub open spec fn failure_answer(status: u16) -> Answer {
    if is_client_error(status) {
        Answer::NoMatch
    } else {
        Answer::Retry
    }
}

/// A record of the archive: it has an entry marker, an author and a title.
pub open spec fn usable_record(body: Seq<char>) -> bool {
    contains(body, "@"@) && contains(body, "author"@) && contains(body, "title"@)
}

pub open spec fn arxiv_answer_of(status: u16, body: Seq<char>) -> Answer {
    if is_success(status) {
        if usable_record(body) {
            Answer::Usable
        } else {
            Answer::NoMatch
        }
    } else {
        failure_answer(status)
    }
}

/// The meaning of the archive's answer with this status and body.
pub fn arxiv_answer(status: u16, body: &str) -> (r: Answer)
    ensures
        r == arxiv_answer_of(status, body@),
{
    if 200 <= status && status <= 299 {
        let b = chars_of(body);
        if find_from_exec(&b, &chars_of("@"), 0).is_some() && find_from_exec(
            &b,
            &chars_of("author"),
            0,
        ).is_some() && find_from_exec(&b, &chars_of("title"), 0).is_some() {
            Answer::Usable
        } else {
            Answer::NoMatch
        }
    } else if 400 <= status && status <= 499 {
        Answer::NoMatch
    } else {
        Answer::Retry
    }
}

/// The decimal value of a digit string.
pub open spec fn dec_value(s: Seq<char>) -> int
    decreases s.len(),
{
    if s.len() == 0 {
        0
    } else {
        dec_value(s.drop_last()) * 10 + (s.last() as int - '0' as int)
    }
}

/// A text that reads as a positive `i32`: an optional `+`, then digits whose
/// value is at least 1 and fits.
pub open spec fn positive_count(s: Seq<char>) -> bool {
    let d = if s.len() > 0 && s[0] == '+' {
        s.drop_first()
    } else {
        s
    };
    d.len() > 0 && all_digits(d) && 0 < dec_value(d) <= 2147483647
}

pub open spec fn dblp_answer_of(status: u16, total: Option<Seq<char>>, hit_count: nat) -> Answer {
    if is_success(status) {
        match total {
            Some(t) => if positive_count(t) && hit_count > 0 {
                Answer::Usable
            } else {
                Answer::NoMatch
            },
            None => Answer::NoMatch,
        }
    } else {
        failure_answer(status)
    }
}

proof fn lemma_dec_value_grows(s: Seq<char>, k: int)
    requires
        0 <= k <= s.len(),
        all_digits(s),
    ensures
        dec_value(s.subrange(0, k)) <= dec_value(s),
        dec_value(s) >= 0,
    decreases s.len(),
{
    if s.len() > 0 {
        let t = s.drop_last();
        assert(is_digit(s.last()));
        if k == s.len() {
            assert(s.subrange(0, k) =~= s);
            lemma_dec_value_grows(t, 0);
        } else {
            assert(t.subrange(0, k) =~= s.subrange(0, k));
            lemma_dec_value_grows(t, k);
        }
        assert(dec_value(t) >= 0);
        assert(dec_value(t) * 10 >= dec_value(t)) by (nonlinear_arith)
            requires
                dec_value(t) >= 0,
        ;
    } else {
        assert(s.subrange(0, k) =~= s);
    }
}

/// The meaning of the index's answer: its status, its total hit count as
/// the payload gives it, and the number of hits it lists.
pub fn dblp_answer(status: u16, total: Option<&str>, hit_count: usize) -> (r: Answer)
    ensures
        r == dblp_answer_of(
            status,
            match total {
                Some(t) => Some(t@),
                None => None,
            },
            hit_count as nat,
        ),
{
    if !(200 <= status && status <= 299) {
        return if 400 <= status && status <= 499 {
            Answer::NoMatch
        } else {
            Answer::Retry
        };
    }
    let t = match total {
        Some(t) => chars_of(t),
        None => {
            return Answer::NoMatch;
        },
    };
    let start: usize = if t.len() > 0 && t[0] == '+' {
        1
    } else {
        0
    };
    let ghost d = if t@.len() > 0 && t@[0] == '+' {
        t@.drop_first()
    } else {
        t@
    };
    proof {
        assert(d =~= t@.subrange(start as int, t.len() as int));
    }
    if start >= t.len() {
        return Answer::NoMatch;
    }
    let mut v: u64 = 0;
    let mut i = start;
    while i < t.len()
        invariant
            start <= i <= t.len(),
            200 <= status <= 299,
            total matches Some(x) && x@ == t@,
            d == (if t@.len() > 0 && t@[0] == '+' {
                t@.drop_first()
            } else {
                t@
            }),
            d == t@.subrange(start as int, t.len() as int),
            v <= 2147483647,
            v == dec_value(t@.subrange(start as int, i as int)),
            forall|k: int| start <= k < i ==> is_digit(#[trigger] t@[k]),
        decreases t.len() - i,
    {
        let c = t[i];
        if !('0' <= c && c <= '9') {
            proof {
                assert(!is_digit(d[i - start]));
            }
            return Answer::NoMatch;
        }
        proof {
            assert(t@.subrange(start as int, i + 1).drop_last() =~= t@.subrange(
                start as int,
                i as int,
            ));
        }
        let digit = (c as u32 - '0' as u32) as u64;
        v = v * 10 + digit;
        if v > 2147483647 {
            proof {
                let j = i + 1;
                assert forall|k: int| 0 <= k < j - start implies is_digit(
                    #[trigger] t@.subrange(start as int, j as int)[k],
                ) by {
                    assert(t@.subrange(start as int, j as int)[k] == t@[start + k]);
                }
                if all_digits(d) {
                    assert(d.subrange(0, j - start) =~= t@.subrange(start as int, j as int));
                    lemma_dec_value_grows(d, j - start);
                }
            }
            return Answer::NoMatch;
        }
        i = i + 1;
    }
    proof {
        assert(t@.subrange(start as int, i as int) =~= d);
        assert forall|k: int| 0 <= k < d.len() implies is_digit(#[trigger] d[k]) by {
            assert(d[k] == t@[start + k]);
        }
    }
    if v > 0 && hit_count > 0 {
        Answer::Usable
    } else {
        Answer::NoMatch
    }
}

/// `b` with each verified entry put in place of the entry with its key,
/// where there is one, and the number of entries so replaced.
pub open spec fn store_verified(b: BibView, es: Seq<EntryView>) -> (BibView, nat)
    decreases es.len(),
{
    if es.len() == 0 {
        (b, 0)
    } else {
        let (b2, n) = store_verified(b, es.drop_last());
        if crate::entry::lookup(b2, es.last().key) is Some {
            (with_entry(b2, es.last()), n + 1)
        } else {
            (b2, n)
        }
    }
}

impl Bibliography {
    /// Writes verified entries back, each in place of the entry with its
    /// key; returns how many were written.
    pub fn apply_verified(&mut self, verified: Vec<BibEntry>) -> (r: usize)
        ensures
            (final(self)@, r as nat) == store_verified(
                old(self)@,
                verified@.map_values(|e: BibEntry| e@),
            ),
    {
        let ghost es = verified@.map_values(|e: BibEntry| e@);
        let ghost start = self@;
        let mut n: usize = 0;
        let mut i: usize = 0;
        while i < verified.len()
            invariant
                i <= verified.len(),
                es == verified@.map_values(|e: BibEntry| e@),
                (self@, n as nat) == store_verified(start, es.subrange(0, i as int)),
                n <= i,
            decreases verified.len() - i,
        {
            proof {
                assert(es.subrange(0, i + 1).drop_last() =~= es.subrange(0, i as int));
            }
            let present = self.get(verified[i].key.as_str()).is_some();
            if present {
                proof {
                    crate::entry::lemma_lookup_index(self@, verified@[i as int].key@);
                }
                self.insert(verified[i].clone());
                n = n + 1;
            }
            i = i + 1;
        }
        proof {
            assert(es.subrange(0, i as int) =~= es);
        }
        n
    }
}

} // verus!
