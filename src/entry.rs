//! Bibliography entries and the bibliography itself, both kept as
//! association lists sorted strictly by key.
use vstd::prelude::*;
use crate::text::{chars_of, chars_lt, seq_lt, lemma_lt_irreflexive, lemma_lt_asymmetric,
    lemma_lt_transitive, lemma_lt_total};

verus! {

/// Keys strictly increasing.
pub open spec fn sorted_keys<V>(s: Seq<(Seq<char>, V)>) -> bool {
    forall|i: int, j: int| 0 <= i < j < s.len() ==> seq_lt(#[trigger] s[i].0, #[trigger] s[j].0)
}

/// `s` with `k` bound to `v`: the pair replaces the one with the same key, or
/// stands where the order puts it.
pub open spec fn insert_sorted<V>(s: Seq<(Seq<char>, V)>, k: Seq<char>, v: V) -> Seq<
    (Seq<char>, V),
>
    decreases s.len(),
{
    if s.len() == 0 {
        seq![(k, v)]
    } else if s[0].0 == k {
        seq![(k, v)] + s.drop_first()
    } else if seq_lt(k, s[0].0) {
        seq![(k, v)] + s
    } else {
        seq![s[0]] + insert_sorted(s.drop_first(), k, v)
    }
}

/// The value bound to `k`.
pub open spec fn lookup<V>(s: Seq<(Seq<char>, V)>, k: Seq<char>) -> Option<V>
    decreases s.len(),
{
    if s.len() == 0 {
        None
    } else if s[0].0 == k {
        Some(s[0].1)
    } else {
        lookup(s.drop_first(), k)
    }
}

/// Where `insert_sorted` puts a key, found by a scan up to position `i`.
pub proof fn lemma_insert_at<V>(s: Seq<(Seq<char>, V)>, k: Seq<char>, v: V, i: int)
    requires
        sorted_keys(s),
        0 <= i <= s.len(),
        forall|j: int| 0 <= j < i ==> seq_lt(#[trigger] s[j].0, k),
        i < s.len() ==> !seq_lt(s[i].0, k),
    ensures
        i < s.len() && s[i].0 == k ==> insert_sorted(s, k, v) == s.update(i, (k, v)),
        !(i < s.len() && s[i].0 == k) ==> insert_sorted(s, k, v) == s.insert(i, (k, v)),
    decreases i,
{
    if s.len() == 0 {
        assert(seq![(k, v)] =~= s.insert(0, (k, v)));
    } else if i == 0 {
        if s[0].0 == k {
            assert(seq![(k, v)] + s.drop_first() =~= s.update(0, (k, v)));
        } else {
            lemma_lt_total(s[0].0, k);
            assert(seq![(k, v)] + s =~= s.insert(0, (k, v)));
        }
    } else {
        let t = s.drop_first();
        assert(s[0].0 != k) by {
            lemma_lt_irreflexive(k);
        }
        assert(!seq_lt(k, s[0].0)) by {
            lemma_lt_asymmetric(k, s[0].0);
        }
        assert forall|a: int, b: int| 0 <= a < b < t.len() implies seq_lt(
            #[trigger] t[a].0,
            #[trigger] t[b].0,
        ) by {
            assert(t[a] == s[a + 1] && t[b] == s[b + 1]);
        }
        assert forall|j: int| 0 <= j < i - 1 implies seq_lt(#[trigger] t[j].0, k) by {
            assert(t[j] == s[j + 1]);
        }
        lemma_insert_at(t, k, v, i - 1);
        if i < s.len() && s[i].0 == k {
            assert(seq![s[0]] + t.update(i - 1, (k, v)) =~= s.update(i, (k, v)));
        } else {
            assert(seq![s[0]] + t.insert(i - 1, (k, v)) =~= s.insert(i, (k, v)));
        }
    }
}

pub proof fn lemma_insert_sorted<V>(s: Seq<(Seq<char>, V)>, k: Seq<char>, v: V)
    requires
        sorted_keys(s),
    ensures
        sorted_keys(insert_sorted(s, k, v)),
        forall|q: Seq<char>|
            #[trigger] lookup(insert_sorted(s, k, v), q) == if q == k {
                Some(v)
            } else {
                lookup(s, q)
            },
    decreases s.len(),
{
    let r = insert_sorted(s, k, v);
    if s.len() == 0 {
        assert(r.drop_first() =~= s);
    } else {
        let t = s.drop_first();
        assert forall|a: int, b: int| 0 <= a < b < t.len() implies seq_lt(
            #[trigger] t[a].0,
            #[trigger] t[b].0,
        ) by {
            assert(t[a] == s[a + 1] && t[b] == s[b + 1]);
        }
        if s[0].0 == k {
            assert forall|a: int, b: int| 0 <= a < b < r.len() implies seq_lt(
                #[trigger] r[a].0,
                #[trigger] r[b].0,
            ) by {
                if a > 0 {
                    assert(r[a] == s[a] && r[b] == s[b]);
                } else {
                    assert(r[b] == s[b]);
                }
            }
            assert forall|q: Seq<char>| #[trigger]
                lookup(r, q) == if q == k {
                    Some(v)
                } else {
                    lookup(s, q)
                } by {
                assert(r.drop_first() =~= t);
            }
        } else if seq_lt(k, s[0].0) {
            assert forall|a: int, b: int| 0 <= a < b < r.len() implies seq_lt(
                #[trigger] r[a].0,
                #[trigger] r[b].0,
            ) by {
                if a > 0 {
                    assert(r[a] == s[a - 1] && r[b] == s[b - 1]);
                } else {
                    assert(r[b] == s[b - 1]);
                    if b > 1 {
                        lemma_lt_transitive(k, s[0].0, s[b - 1].0);
                    }
                }
            }
            assert forall|q: Seq<char>| #[trigger]
                lookup(r, q) == if q == k {
                    Some(v)
                } else {
                    lookup(s, q)
                } by {
                assert(r.drop_first() =~= s);
            }
        } else {
            lemma_insert_sorted(t, k, v);
            let rt = insert_sorted(t, k, v);
            lemma_lt_total(k, s[0].0);
            assert(r == seq![s[0]] + rt);
            assert forall|a: int, b: int| 0 <= a < b < r.len() implies seq_lt(
                #[trigger] r[a].0,
                #[trigger] r[b].0,
            ) by {
                if a > 0 {
                    assert(r[a] == rt[a - 1] && r[b] == rt[b - 1]);
                } else {
                    assert(r[b] == rt[b - 1]);
                    lemma_elem_of_insert(t, k, v, b - 1);
                    if rt[b - 1].0 != k {
                        let m = choose|m: int| 0 <= m < t.len() && t[m] == rt[b - 1];
                        assert(t[m] == s[m + 1]);
                    }
                }
            }
            assert forall|q: Seq<char>| #[trigger]
                lookup(r, q) == if q == k {
                    Some(v)
                } else {
                    lookup(s, q)
                } by {
                assert(r.drop_first() =~= rt);
                assert(r[0] == s[0]);
                assert(lookup(rt, q) == if q == k {
                    Some(v)
                } else {
                    lookup(t, q)
                });
            }
        }
    }
}

/// Every pair of an insertion is the inserted one or one that was there.
pub proof fn lemma_elem_of_insert<V>(s: Seq<(Seq<char>, V)>, k: Seq<char>, v: V, x: int)
    requires
        0 <= x < insert_sorted(s, k, v).len(),
    ensures
        insert_sorted(s, k, v)[x].0 == k || exists|m: int|
            0 <= m < s.len() && s[m] == insert_sorted(s, k, v)[x],
    decreases s.len(),
{
    let r = insert_sorted(s, k, v);
    if s.len() == 0 {
    } else if s[0].0 == k {
        if x > 0 {
            assert(s[x] == r[x]);
        }
    } else if seq_lt(k, s[0].0) {
        if x > 0 {
            assert(s[x - 1] == r[x]);
        }
    } else {
        if x == 0 {
            assert(s[0] == r[0]);
        } else {
            let t = s.drop_first();
            lemma_elem_of_insert(t, k, v, x - 1);
            if r[x].0 != k {
                let m = choose|m: int| 0 <= m < t.len() && t[m] == insert_sorted(t, k, v)[x - 1];
                assert(s[m + 1] == r[x]);
            }
        }
    }
}

pub proof fn lemma_lookup_index<V>(s: Seq<(Seq<char>, V)>, k: Seq<char>)
    requires
        sorted_keys(s),
    ensures
        lookup(s, k) is None <==> forall|i: int| 0 <= i < s.len() ==> #[trigger] s[i].0 != k,
        forall|i: int| 0 <= i < s.len() && #[trigger] s[i].0 == k ==> lookup(s, k) == Some(s[i].1),
    decreases s.len(),
{
    if s.len() > 0 {
        let t = s.drop_first();
        assert forall|a: int, b: int| 0 <= a < b < t.len() implies seq_lt(
            #[trigger] t[a].0,
            #[trigger] t[b].0,
        ) by {
            assert(t[a] == s[a + 1] && t[b] == s[b + 1]);
        }
        lemma_lookup_index(t, k);
        assert forall|i: int| 0 <= i < s.len() && #[trigger] s[i].0 == k implies lookup(s, k)
            == Some(s[i].1) by {
            if i > 0 && s[0].0 == k {
                lemma_lt_irreflexive(k);
                assert(seq_lt(s[0].0, s[i].0));
            }
            if i > 0 {
                assert(t[i - 1] == s[i]);
            }
        }
        if lookup(s, k) is None {
            assert forall|i: int| 0 <= i < s.len() implies #[trigger] s[i].0 != k by {
                if i > 0 {
                    assert(t[i - 1] == s[i]);
                }
            }
        }
    }
}


/// A map from names to texts, kept sorted by name.
#[derive(Debug)]
pub struct StrMap {
    items: Vec<(String, String)>,
}

impl View for StrMap {
    type V = Seq<(Seq<char>, Seq<char>)>;

    closed spec fn view(&self) -> Seq<(Seq<char>, Seq<char>)> {
        self.items@.map_values(|p: (String, String)| (p.0@, p.1@))
    }
}

impl StrMap {
    #[verifier::type_invariant]
    spec fn inv(&self) -> bool {
        sorted_keys(self@)
    }

    pub fn new() -> (r: StrMap)
        ensures
            r@ == Seq::<(Seq<char>, Seq<char>)>::empty(),
    {
        let r = StrMap { items: Vec::new() };
        assert(r@ =~= Seq::<(Seq<char>, Seq<char>)>::empty());
        r
    }

    pub fn len(&self) -> (r: usize)
        ensures
            r == self@.len(),
            sorted_keys(self@),
    {
        proof {
            use_type_invariant(self);
        }
        self.items.len()
    }

    pub fn name_at(&self, i: usize) -> (r: &String)
        requires
            i < self@.len(),
        ensures
            r@ == self@[i as int].0,
    {
        &self.items[i].0
    }

    pub fn value_at(&self, i: usize) -> (r: &String)
        requires
            i < self@.len(),
        ensures
            r@ == self@[i as int].1,
    {
        &self.items[i].1
    }

    /// The first position whose name does not precede `k`.
    fn position(&self, k: &Vec<char>) -> (r: usize)
        ensures
            r <= self@.len(),
            forall|j: int| 0 <= j < r ==> seq_lt(#[trigger] self@[j].0, k@),
            r < self@.len() ==> !seq_lt(self@[r as int].0, k@),
    {
        let mut i: usize = 0;
        while i < self.items.len()
            invariant
                i <= self@.len(),
                self@.len() == self.items.len(),
                forall|j: int| 0 <= j < i ==> seq_lt(#[trigger] self@[j].0, k@),
            decreases self.items.len() - i,
        {
            let name = chars_of(self.items[i].0.as_str());
            if !chars_lt(&name, k) {
                return i;
            }
            i = i + 1;
        }
        i
    }

    /// The value bound to `k`.
    pub fn get(&self, k: &str) -> (r: Option<&String>)
        ensures
            match r {
                Some(v) => lookup(self@, k@) == Some(v@),
                None => lookup(self@, k@) is None,
            },
            sorted_keys(self@),
    {
        proof {
            use_type_invariant(self);
            lemma_lookup_index(self@, k@);
        }
        let kc = chars_of(k);
        let i = self.position(&kc);
        if i < self.items.len() {
            let name = chars_of(self.items[i].0.as_str());
            if crate::text::chars_eq(&name, &kc) {
                return Some(&self.items[i].1);
            }
            proof {
                assert forall|j: int| 0 <= j < self@.len() implies #[trigger] self@[j].0 != k@ by {
                    if j > i {
                        lemma_lt_total(self@[i as int].0, k@);
                        lemma_lt_transitive(k@, self@[i as int].0, self@[j].0);
                        lemma_lt_irreflexive(k@);
                    } else if j < i {
                        lemma_lt_irreflexive(k@);
                    }
                }
            }
        } else {
            proof {
                assert forall|j: int| 0 <= j < self@.len() implies #[trigger] self@[j].0 != k@ by {
                    lemma_lt_irreflexive(k@);
                }
            }
        }
        None
    }

    /// Binds `k` to `v`.
    pub fn set(&mut self, k: String, v: String)
        ensures
            final(self)@ == insert_sorted(old(self)@, k@, v@),
            sorted_keys(old(self)@),
            sorted_keys(final(self)@),
    {
        proof {
            use_type_invariant(&*self);
        }
        let ghost old_view = self@;
        let kc = chars_of(k.as_str());
        let i = self.position(&kc);
        proof {
            lemma_insert_at(old_view, k@, v@, i as int);
            lemma_insert_sorted(old_view, k@, v@);
        }
        let mut taken = StrMap { items: Vec::new() };
        proof {
            assert(taken@ =~= Seq::<(Seq<char>, Seq<char>)>::empty());
        }
        std::mem::swap(self, &mut taken);
        let StrMap { mut items } = taken;
        if i < items.len() && items[i].0 == k {
            items.set(i, (k, v));
            proof {
                assert(items@.map_values(|p: (String, String)| (p.0@, p.1@)) =~= old_view.update(
                    i as int,
                    (k@, v@),
                ));
            }
        } else {
            items.insert(i, (k, v));
            proof {
                assert(items@.map_values(|p: (String, String)| (p.0@, p.1@)) =~= old_view.insert(
                    i as int,
                    (k@, v@),
                ));
            }
        }
        *self = StrMap { items };
    }

    pub fn copy(&self) -> (r: StrMap)
        ensures
            r@ == self@,
    {
        proof {
            use_type_invariant(self);
        }
        let mut items: Vec<(String, String)> = Vec::new();
        let mut i: usize = 0;
        while i < self.items.len()
            invariant
                i <= self.items.len(),
                self@.len() == self.items.len(),
                items@.map_values(|p: (String, String)| (p.0@, p.1@)) == self@.subrange(
                    0,
                    i as int,
                ),
            decreases self.items.len() - i,
        {
            let n = self.items[i].0.clone();
            let w = self.items[i].1.clone();
            let ghost before = items@;
            items.push((n, w));
            proof {
                assert(items@ == before.push((n, w)));
                assert(self@[i as int] == (self.items@[i as int].0@, self.items@[i as int].1@));
                assert(items@.map_values(|p: (String, String)| (p.0@, p.1@)) =~= before.map_values(
                    |p: (String, String)| (p.0@, p.1@),
                ).push((n@, w@)));
                assert(items@.map_values(|p: (String, String)| (p.0@, p.1@)) =~= self@.subrange(
                    0,
                    i + 1,
                ));
            }
            i = i + 1;
        }
        proof {
            assert(self@.subrange(0, i as int) =~= self@);
        }
        StrMap { items }
    }
}


/// What an entry is: its citation key, its type, and its fields sorted by name.
pub struct EntryView {
    pub key: Seq<char>,
    pub entry_type: Seq<char>,
    pub fields: Seq<(Seq<char>, Seq<char>)>,
}

/// The value of a field of an entry.
pub open spec fn field(e: EntryView, name: Seq<char>) -> Option<Seq<char>> {
    lookup(e.fields, name)
}

/// An entry with one field set.
pub open spec fn with_field(e: EntryView, name: Seq<char>, value: Seq<char>) -> EntryView {
    EntryView { fields: insert_sorted(e.fields, name, value), ..e }
}

/// One bibliography entry: the citation key that the paper uses, its type (such as
/// `article`) and its fields (`author`, `title`, `year`, `raw`, ...).
#[derive(Debug)]
pub struct BibEntry {
    pub key: String,
    pub entry_type: String,
    pub fields: StrMap,
}

impl View for BibEntry {
    type V = EntryView;

    open spec fn view(&self) -> EntryView {
        EntryView { key: self.key@, entry_type: self.entry_type@, fields: self.fields@ }
    }
}

impl Clone for BibEntry {
    fn clone(&self) -> (r: Self)
        ensures
            r@ == self@,
    {
        BibEntry {
            key: self.key.clone(),
            entry_type: self.entry_type.clone(),
            fields: self.fields.copy(),
        }
    }
}

impl BibEntry {
    pub fn new(key: String, entry_type: String) -> (r: BibEntry)
        ensures
            r@ == (EntryView { key: key@, entry_type: entry_type@, fields: seq![] }),
    {
        BibEntry { key, entry_type, fields: StrMap::new() }
    }

    /// A builder for an entry with this key and type.
    pub fn builder(key: &str, entry_type: &str) -> (r: BibEntryBuilder)
        ensures
            r@ == (EntryView { key: key@, entry_type: entry_type@, fields: seq![] }),
    {
        BibEntryBuilder::new(key, entry_type)
    }

    pub fn set(&mut self, field: &str, value: String)
        ensures
            final(self)@ == with_field(old(self)@, field@, value@),
            sorted_keys(old(self)@.fields),
            sorted_keys(final(self)@.fields),
    {
        self.fields.set(field.to_owned(), value);
    }

    pub fn get(&self, name: &str) -> (r: Option<&String>)
        ensures
            match r {
                Some(v) => field(self@, name@) == Some(v@),
                None => field(self@, name@) is None,
            },
            sorted_keys(self@.fields),
    {
        self.fields.get(name)
    }
}

/// Builds an entry field by field.
#[derive(Debug)]
pub struct BibEntryBuilder {
    key: String,
    entry_type: String,
    fields: StrMap,
}

impl View for BibEntryBuilder {
    type V = EntryView;

    closed spec fn view(&self) -> EntryView {
        EntryView { key: self.key@, entry_type: self.entry_type@, fields: self.fields@ }
    }
}

impl BibEntryBuilder {
    /// A builder with the key and type and no fields.
    pub fn new(key: &str, entry_type: &str) -> (r: BibEntryBuilder)
        ensures
            r@ == (EntryView { key: key@, entry_type: entry_type@, fields: seq![] }),
    {
        BibEntryBuilder {
            key: key.to_owned(),
            entry_type: entry_type.to_owned(),
            fields: StrMap::new(),
        }
    }

    /// Sets one field.
    pub fn field(self, name: &str, value: &str) -> (r: BibEntryBuilder)
        ensures
            r@ == with_field(self@, name@, value@),
    {
        let mut b = self;
        b.fields.set(name.to_owned(), value.to_owned());
        b
    }

    /// Sets each field of `pairs`, in order.
    pub fn fields(self, pairs: Vec<(String, String)>) -> (r: BibEntryBuilder)
        ensures
            r@ == set_fields(self@, pairs@.map_values(|p: (String, String)| (p.0@, p.1@))),
    {
        let mut b = self;
        let ghost start = b@;
        let ghost ps = pairs@.map_values(|p: (String, String)| (p.0@, p.1@));
        let mut i: usize = 0;
        while i < pairs.len()
            invariant
                i <= pairs.len(),
                ps == pairs@.map_values(|p: (String, String)| (p.0@, p.1@)),
                b@ == set_fields(start, ps.subrange(0, i as int)),
            decreases pairs.len() - i,
        {
            let n = pairs[i].0.clone();
            let v = pairs[i].1.clone();
            b.fields.set(n, v);
            proof {
                assert(ps.subrange(0, i + 1).drop_last() =~= ps.subrange(0, i as int));
            }
            i = i + 1;
        }
        proof {
            assert(ps.subrange(0, i as int) =~= ps);
        }
        b
    }

    /// The entry.
    pub fn build(self) -> (r: BibEntry)
        ensures
            r@ == self@,
    {
        BibEntry { key: self.key, entry_type: self.entry_type, fields: self.fields }
    }
}

/// An entry with each of the pairs set in turn.
pub open spec fn set_fields(e: EntryView, ps: Seq<(Seq<char>, Seq<char>)>) -> EntryView
    decreases ps.len(),
{
    if ps.len() == 0 {
        e
    } else {
        with_field(set_fields(e, ps.drop_last()), ps.last().0, ps.last().1)
    }
}

} // verus!
