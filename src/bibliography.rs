//! A bibliography: entries by citation key, kept sorted by key.
use vstd::prelude::*;
use crate::entry::{BibEntry, EntryView, sorted_keys, insert_sorted, lookup, lemma_insert_at,
    lemma_insert_sorted, lemma_lookup_index, lemma_elem_of_insert};
use crate::text::{chars_of, chars_lt, chars_eq, seq_lt, lemma_lt_irreflexive, lemma_lt_total,
    lemma_lt_transitive};

verus! {

/// The entries of a bibliography, keyed by their citation keys.
pub type BibView = Seq<(Seq<char>, EntryView)>;

#[derive(Debug)]
pub struct Bibliography {
    entries: Vec<BibEntry>,
}

impl View for Bibliography {
    type V = BibView;

    closed spec fn view(&self) -> BibView {
        self.entries@.map_values(|e: BibEntry| (e.key@, e@))
    }
}

/// Every pair holds the entry's own key, and no key is empty.
pub open spec fn well_keyed(b: BibView) -> bool {
    forall|i: int| 0 <= i < b.len() ==> (#[trigger] b[i]).0 == b[i].1.key && b[i].0.len() > 0
}

/// The bibliography with `e` added under its key; an entry with the same key
/// is replaced.
pub open spec fn with_entry(b: BibView, e: EntryView) -> BibView {
    insert_sorted(b, e.key, e)
}

pub proof fn lemma_with_entry(b: BibView, e: EntryView)
    requires
        sorted_keys(b),
        well_keyed(b),
        e.key.len() > 0,
    ensures
        sorted_keys(with_entry(b, e)),
        well_keyed(with_entry(b, e)),
{
    lemma_insert_sorted(b, e.key, e);
    let r = with_entry(b, e);
    assert forall|i: int| 0 <= i < r.len() implies (#[trigger] r[i]).0 == r[i].1.key
        && r[i].0.len() > 0 by {
        lemma_elem_of_insert(b, e.key, e, i);
        if r[i].0 != e.key {
            let m = choose|m: int| 0 <= m < b.len() && b[m] == r[i];
            assert(b[m].0 == b[m].1.key);
        } else {
            lemma_insert_at_key(b, e, i);
        }
    }
}

/// The pair stored under the inserted key is the inserted entry.
proof fn lemma_insert_at_key(b: BibView, e: EntryView, i: int)
    requires
        sorted_keys(b),
        0 <= i < with_entry(b, e).len(),
        with_entry(b, e)[i].0 == e.key,
    ensures
        with_entry(b, e)[i] == (e.key, e),
    decreases b.len(),
{
    let r = with_entry(b, e);
    if b.len() == 0 {
    } else if b[0].0 == e.key {
        if i > 0 {
            assert(r[i] == b[i]);
            assert(seq_lt(b[0].0, b[i].0));
            lemma_lt_irreflexive(e.key);
        }
    } else if seq_lt(e.key, b[0].0) {
        if i > 0 {
            assert(r[i] == b[i - 1]);
            if i > 1 {
                assert(seq_lt(b[0].0, b[i - 1].0));
                lemma_lt_transitive(e.key, b[0].0, b[i - 1].0);
            }
            lemma_lt_irreflexive(e.key);
        }
    } else {
        let t = b.drop_first();
        assert forall|a: int, c: int| 0 <= a < c < t.len() implies seq_lt(
            #[trigger] t[a].0,
            #[trigger] t[c].0,
        ) by {
            assert(t[a] == b[a + 1] && t[c] == b[c + 1]);
        }
        if i > 0 {
            assert(r[i] == with_entry(t, e)[i - 1]);
            lemma_insert_at_key(t, e, i - 1);
        }
    }
}

impl Bibliography {
    #[verifier::type_invariant]
    spec fn inv(&self) -> bool {
        sorted_keys(self@) && well_keyed(self@)
    }

    /// An empty bibliography.
    pub fn new() -> (r: Bibliography)
        ensures
            r@ == BibView::empty(),
    {
        let r = Bibliography { entries: Vec::new() };
        assert(r@ =~= BibView::empty());
        r
    }

    pub fn len(&self) -> (r: usize)
        ensures
            r == self@.len(),
            sorted_keys(self@),
            well_keyed(self@),
    {
        proof {
            use_type_invariant(self);
        }
        self.entries.len()
    }

    /// The entry at position `i` in key order.
    pub fn entry_at(&self, i: usize) -> (r: &BibEntry)
        requires
            i < self@.len(),
        ensures
            r@ == self@[i as int].1,
    {
        &self.entries[i]
    }

    /// The entries in key order.
    pub fn entries(&self) -> (r: &[BibEntry])
        ensures
            r@.len() == self@.len(),
            forall|i: int| 0 <= i < r@.len() ==> (#[trigger] r@[i])@ == self@[i].1,
    {
        self.entries.as_slice()
    }

    /// An iterator over the entries in key order.
    pub fn iter(&self) -> (r: std::slice::Iter<'_, BibEntry>)
        ensures
            vstd::std_specs::slice::into_iter_elts(r).map_values(|e: BibEntry| e@)
                == self@.map_values(|p: (Seq<char>, EntryView)| p.1),
    {
        proof {
            broadcast use vstd::std_specs::slice::axiom_spec_slice_iter;
        }
        let r = self.entries.as_slice().iter();
        proof {
            assert(vstd::std_specs::slice::into_iter_elts(r) =~= self.entries@);
            assert(self.entries@.map_values(|e: BibEntry| e@) =~= self@.map_values(
                |p: (Seq<char>, EntryView)| p.1,
            ));
        }
        r
    }

    /// The first position whose key does not precede `k`.
    fn position(&self, k: &Vec<char>) -> (r: usize)
        ensures
            r <= self@.len(),
            forall|j: int| 0 <= j < r ==> seq_lt(#[trigger] self@[j].0, k@),
            r < self@.len() ==> !seq_lt(self@[r as int].0, k@),
    {
        let mut i: usize = 0;
        while i < self.entries.len()
            invariant
                i <= self@.len(),
                self@.len() == self.entries.len(),
                forall|j: int| 0 <= j < i ==> seq_lt(#[trigger] self@[j].0, k@),
            decreases self.entries.len() - i,
        {
            let name = chars_of(self.entries[i].key.as_str());
            if !chars_lt(&name, k) {
                return i;
            }
            i = i + 1;
        }
        i
    }

    /// The entry with citation key `key`.
    pub fn get(&self, key: &str) -> (r: Option<&BibEntry>)
        ensures
            match r {
                Some(e) => lookup(self@, key@) == Some(e@),
                None => lookup(self@, key@) is None,
            },
            sorted_keys(self@),
            well_keyed(self@),
    {
        proof {
            use_type_invariant(self);
            lemma_lookup_index(self@, key@);
        }
        let kc = chars_of(key);
        let i = self.position(&kc);
        if i < self.entries.len() {
            let name = chars_of(self.entries[i].key.as_str());
            if chars_eq(&name, &kc) {
                return Some(&self.entries[i]);
            }
            proof {
                assert forall|j: int| 0 <= j < self@.len() implies #[trigger] self@[j].0
                    != key@ by {
                    if j > i {
                        lemma_lt_total(self@[i as int].0, key@);
                        lemma_lt_transitive(key@, self@[i as int].0, self@[j].0);
                        lemma_lt_irreflexive(key@);
                    } else if j < i {
                        lemma_lt_irreflexive(key@);
                    }
                }
            }
        } else {
            proof {
                assert forall|j: int| 0 <= j < self@.len() implies #[trigger] self@[j].0
                    != key@ by {
                    lemma_lt_irreflexive(key@);
                }
            }
        }
        None
    }

    /// Adds `entry` under its key; an entry with the same key is replaced.
    pub fn insert(&mut self, entry: BibEntry)
        requires
            entry.key@.len() > 0,
        ensures
            final(self)@ == with_entry(old(self)@, entry@),
    {
        proof {
            use_type_invariant(&*self);
        }
        let ghost old_view = self@;
        let ghost ev = entry@;
        let kc = chars_of(entry.key.as_str());
        let i = self.position(&kc);
        proof {
            lemma_insert_at(old_view, ev.key, ev, i as int);
            lemma_with_entry(old_view, ev);
        }
        let mut taken = Bibliography { entries: Vec::new() };
        proof {
            assert(taken@ =~= BibView::empty());
        }
        std::mem::swap(self, &mut taken);
        let Bibliography { mut entries } = taken;
        if i < entries.len() && entries[i].key == entry.key {
            entries.set(i, entry);
            proof {
                assert(entries@.map_values(|e: BibEntry| (e.key@, e@)) =~= old_view.update(
                    i as int,
                    (ev.key, ev),
                ));
            }
        } else {
            entries.insert(i, entry);
            proof {
                assert(entries@.map_values(|e: BibEntry| (e.key@, e@)) =~= old_view.insert(
                    i as int,
                    (ev.key, ev),
                ));
            }
        }
        *self = Bibliography { entries };
    }
}


/// `b` with the entries of `ps` added in turn, a later one replacing an
/// earlier one with the same key.
pub open spec fn add_entries(b: BibView, ps: BibView) -> BibView
    decreases ps.len(),
{
    if ps.len() == 0 {
        b
    } else {
        with_entry(add_entries(b, ps.drop_last()), ps.last().1)
    }
}

impl Bibliography {
    /// Adds every entry of `other`, in key order; an entry with the same key
    /// is replaced.
    pub fn merge_from(&mut self, other: &Bibliography)
        ensures
            final(self)@ == add_entries(old(self)@, other@),
    {
        let n = other.len();
        let ghost start = self@;
        let mut j: usize = 0;
        while j < n
            invariant
                n == other@.len(),
                well_keyed(other@),
                j <= n,
                self@ == add_entries(start, other@.subrange(0, j as int)),
            decreases n - j,
        {
            proof {
                assert(other@.subrange(0, j + 1).drop_last() =~= other@.subrange(0, j as int));
            }
            let e = other.entry_at(j).clone();
            self.insert(e);
            j = j + 1;
        }
        proof {
            assert(other@.subrange(0, j as int) =~= other@);
        }
    }
}

} // verus!
