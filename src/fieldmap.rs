//! The fields of an entry seen as a map from names to values.
use vstd::prelude::*;
use crate::text::{seq_lt, lemma_lt_irreflexive};
use crate::entry::{EntryView, sorted_keys, insert_sorted, lookup, lemma_insert_sorted,
    set_fields};

verus! {

/// The map that an association list stands for.
pub open spec fn fields_map(s: Seq<(Seq<char>, Seq<char>)>) -> Map<Seq<char>, Seq<char>> {
    Map::new(|n: Seq<char>| lookup(s, n) is Some, |n: Seq<char>| lookup(s, n)->0)
}

/// The map of pairs inserted in turn, a later pair winning.
pub open spec fn pairs_map(ps: Seq<(Seq<char>, Seq<char>)>) -> Map<Seq<char>, Seq<char>>
    decreases ps.len(),
{
    if ps.len() == 0 {
        Map::empty()
    } else {
        pairs_map(ps.drop_last()).insert(ps.last().0, ps.last().1)
    }
}

pub proof fn lemma_fields_map_insert(s: Seq<(Seq<char>, Seq<char>)>, k: Seq<char>, v: Seq<char>)
    requires
        sorted_keys(s),
    ensures
        fields_map(insert_sorted(s, k, v)) == fields_map(s).insert(k, v),
        sorted_keys(insert_sorted(s, k, v)),
{
    lemma_insert_sorted(s, k, v);
    assert(fields_map(insert_sorted(s, k, v)) =~= fields_map(s).insert(k, v));
}

pub proof fn lemma_set_fields(e: EntryView, ps: Seq<(Seq<char>, Seq<char>)>)
    requires
        sorted_keys(e.fields),
    ensures
        sorted_keys(set_fields(e, ps).fields),
        fields_map(set_fields(e, ps).fields) == fields_map(e.fields).union_prefer_right(
            pairs_map(ps),
        ),
        set_fields(e, ps).key == e.key,
        set_fields(e, ps).entry_type == e.entry_type,
    decreases ps.len(),
{
    if ps.len() == 0 {
        assert(fields_map(e.fields).union_prefer_right(pairs_map(ps)) =~= fields_map(e.fields));
    } else {
        lemma_set_fields(e, ps.drop_last());
        let prev = set_fields(e, ps.drop_last());
        lemma_fields_map_insert(prev.fields, ps.last().0, ps.last().1);
        assert(fields_map(set_fields(e, ps).fields) =~= fields_map(e.fields).union_prefer_right(
            pairs_map(ps),
        ));
    }
}

/// A lookup in a list with one more pair at its end.
pub proof fn lemma_lookup_push(s: Seq<(Seq<char>, Seq<char>)>, p: (Seq<char>, Seq<char>), n: Seq<char>)
    ensures
        lookup(s.push(p), n) == if lookup(s, n) is Some {
            lookup(s, n)
        } else if p.0 == n {
            Some(p.1)
        } else {
            None
        },
    decreases s.len(),
{
    if s.len() > 0 {
        assert(s.push(p).drop_first() =~= s.drop_first().push(p));
        lemma_lookup_push(s.drop_first(), p, n);
    } else {
        assert(s.push(p).drop_first() =~= s);
    }
}

/// The map of a sorted list grows by its last pair.
pub proof fn lemma_fields_map_prefix(s: Seq<(Seq<char>, Seq<char>)>, i: int)
    requires
        sorted_keys(s),
        0 <= i < s.len(),
    ensures
        fields_map(s.subrange(0, i + 1)) == fields_map(s.subrange(0, i)).insert(s[i].0, s[i].1),
{
    let pre = s.subrange(0, i);
    assert(s.subrange(0, i + 1) =~= pre.push(s[i]));
    assert forall|n: Seq<char>| #[trigger] lookup(s.subrange(0, i + 1), n) == if n == s[i].0 {
        Some(s[i].1)
    } else {
        lookup(pre, n)
    } by {
        lemma_lookup_push(pre, s[i], n);
        if n == s[i].0 {
            assert forall|j: int| 0 <= j < pre.len() implies seq_lt(#[trigger] pre[j].0, s[i].0) by {
                assert(pre[j] == s[j]);
            }
            lemma_lookup_none(pre, s[i].0);
        }
    }
    assert(fields_map(s.subrange(0, i + 1)) =~= fields_map(pre).insert(s[i].0, s[i].1));
}

/// No key of a list that precedes `k` in every pair is `k`.
proof fn lemma_lookup_none(pre: Seq<(Seq<char>, Seq<char>)>, k: Seq<char>)
    requires
        forall|j: int| 0 <= j < pre.len() ==> seq_lt(#[trigger] pre[j].0, k),
    ensures
        lookup(pre, k) is None,
    decreases pre.len(),
{
    if pre.len() > 0 {
        lemma_lt_irreflexive(k);
        let t = pre.drop_first();
        assert forall|j: int| 0 <= j < t.len() implies seq_lt(#[trigger] t[j].0, k) by {
            assert(t[j] == pre[j + 1]);
        }
        lemma_lookup_none(t, k);
    }
}

} // verus!
