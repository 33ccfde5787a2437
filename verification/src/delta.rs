use vstd::prelude::*;
use crate::state::{
    StateKey, DeltaEntry, KeyModel, EntryModel, key_lt, lemma_key_lt_connex, lemma_key_lt_irrefl,
    lemma_key_lt_trans,
};
use crate::codec::{wf_pair, wf_pairs};

verus! {

/// The pairs stand in strictly increasing key order. This is the store's
/// canonical form: it makes the persisted document a function of the
/// key→entry mapping alone, whatever order the entries arrived in.
pub open spec fn sorted_keys(s: Seq<(KeyModel, EntryModel)>) -> bool {
    forall|i: int, j: int| 0 <= i < j < s.len() ==> key_lt((#[trigger] s[i]).0, (#[trigger] s[j]).0)
}

/// A strictly ordered pair list holds each key at most once.
pub proof fn lemma_sorted_unique(s: Seq<(KeyModel, EntryModel)>)
    requires
        sorted_keys(s),
    ensures
        unique_keys(s),
{
    assert forall|i: int, j: int| 0 <= i < j < s.len() implies (#[trigger] s[i]).0 != (#[trigger] s[j]).0 by {
        lemma_key_lt_irrefl(s[i].0);
    }
}

/// Strict order between every adjacent pair orders the whole list.
pub proof fn lemma_sorted_from_adjacent(s: Seq<(KeyModel, EntryModel)>)
    requires
        forall|i: int| 0 <= i < s.len() - 1 ==> key_lt((#[trigger] s[i]).0, s[i + 1].0),
    ensures
        sorted_keys(s),
{
    assert forall|i: int, j: int| 0 <= i < j < s.len() implies key_lt((#[trigger] s[i]).0, (#[trigger] s[j]).0) by {
        lemma_key_chain(s, i, j);
    }
}

proof fn lemma_key_chain(s: Seq<(KeyModel, EntryModel)>, i: int, j: int)
    requires
        forall|a: int| 0 <= a < s.len() - 1 ==> key_lt((#[trigger] s[a]).0, s[a + 1].0),
        0 <= i < j < s.len(),
    ensures
        key_lt(s[i].0, s[j].0),
    decreases j - i,
{
    if j == i + 1 {
        assert(key_lt(s[i].0, s[i + 1].0));
    } else {
        lemma_key_chain(s, i, j - 1);
        assert(key_lt(s[j - 1].0, s[j].0));
        lemma_key_lt_trans(s[i].0, s[j - 1].0, s[j].0);
    }
}

/// Inserting a fresh key anywhere adds exactly that pair to the mapping.
pub proof fn lemma_entries_map_insert_mid(s: Seq<(KeyModel, EntryModel)>, i: int, p: (KeyModel, EntryModel))
    requires
        unique_keys(s),
        !has_key(s, p.0),
        0 <= i <= s.len(),
    ensures
        entries_map(s.insert(i, p)) =~= entries_map(s).insert(p.0, p.1),
{
    let s2 = s.insert(i, p);
    s.insert_ensures(i, p);
    assert(unique_keys(s2)) by {
        assert forall|a: int, b: int| 0 <= a < b < s2.len() implies (#[trigger] s2[a]).0 != (#[trigger] s2[b]).0 by {
            if a == i || b == i {
                let other = if a == i { if b < i { s[b] } else { s[b - 1] } }
                    else { if a < i { s[a] } else { s[a - 1] } };
                if other.0 == p.0 {
                    assert(has_key(s, p.0));
                }
            }
        }
    }
    let m2 = entries_map(s2);
    let mr = entries_map(s).insert(p.0, p.1);
    assert forall|kk: KeyModel| #[trigger] m2.contains_key(kk) implies mr.contains_key(kk) && m2[kk] == mr[kk] by {
        lemma_entries_map_domain(s2, kk);
        let j = choose|j: int| 0 <= j < s2.len() && (#[trigger] s2[j]).0 == kk;
        lemma_entries_map_at(s2, j);
        if j == i {
            assert(m2[kk] == p.1);
        } else {
            let j0 = if j < i { j } else { j - 1 };
            assert(s2[j] == s[j0]);
            assert(kk != p.0);
            lemma_entries_map_at(s, j0);
            lemma_entries_map_domain(s, kk);
        }
    }
    assert forall|kk: KeyModel| #[trigger] mr.contains_key(kk) implies m2.contains_key(kk) by {
        if kk == p.0 {
            assert(s2[i].0 == kk);
            lemma_entries_map_domain(s2, kk);
        } else {
            lemma_entries_map_domain(s, kk);
            let j0 = choose|j0: int| 0 <= j0 < s.len() && (#[trigger] s[j0]).0 == kk;
            let j = if j0 < i { j0 } else { j0 + 1 };
            assert(s2[j] == s[j0]);
            lemma_entries_map_domain(s2, kk);
        }
    }
}

/// Two strictly ordered pair lists with the same key→entry mapping are the
/// same list: the canonical form is unique.
pub proof fn lemma_sorted_canonical(s1: Seq<(KeyModel, EntryModel)>, s2: Seq<(KeyModel, EntryModel)>)
    requires
        sorted_keys(s1),
        sorted_keys(s2),
        entries_map(s1) == entries_map(s2),
    ensures
        s1 == s2,
    decreases s1.len(),
{
    lemma_sorted_unique(s1);
    lemma_sorted_unique(s2);
    let m = entries_map(s1);
    if s1.len() == 0 {
        if s2.len() > 0 {
            lemma_entries_map_at(s2, s2.len() - 1);
            lemma_entries_map_domain(s1, s2.last().0);
        }
        assert(s1 =~= s2);
    } else if s2.len() == 0 {
        lemma_entries_map_at(s1, s1.len() - 1);
        lemma_entries_map_domain(s2, s1.last().0);
        assert(s1 =~= s2);
    } else {
        let k1 = s1.last().0;
        let k2 = s2.last().0;
        lemma_entries_map_at(s1, s1.len() - 1);
        lemma_entries_map_at(s2, s2.len() - 1);
        lemma_entries_map_domain(s2, k1);
        lemma_entries_map_domain(s1, k2);
        let j = choose|j: int| 0 <= j < s2.len() && (#[trigger] s2[j]).0 == k1;
        let i = choose|i: int| 0 <= i < s1.len() && (#[trigger] s1[i]).0 == k2;
        if j < s2.len() - 1 {
            assert(key_lt(k1, k2));
            if i < s1.len() - 1 {
                assert(key_lt(k2, k1));
                lemma_key_lt_trans(k1, k2, k1);
            }
            lemma_key_lt_irrefl(k1);
        }
        assert(k1 == k2);
        assert(s1.last().1 == m[k1]);
        assert(s2.last().1 == m[k1]);
        let d1 = s1.drop_last();
        let d2 = s2.drop_last();
        assert(forall|a: int| 0 <= a < d1.len() ==> (#[trigger] d1[a]) == s1[a]);
        assert(forall|a: int| 0 <= a < d2.len() ==> (#[trigger] d2[a]) == s2[a]);
        assert(!has_key(d1, k1)) by {
            if has_key(d1, k1) {
                let a = choose|a: int| 0 <= a < d1.len() && (#[trigger] d1[a]).0 == k1;
                assert(s1[a].0 == s1[s1.len() - 1].0);
            }
        }
        assert(!has_key(d2, k1)) by {
            if has_key(d2, k1) {
                let a = choose|a: int| 0 <= a < d2.len() && (#[trigger] d2[a]).0 == k1;
                assert(s2[a].0 == s2[s2.len() - 1].0);
            }
        }
        lemma_entries_map_domain(d1, k1);
        lemma_entries_map_domain(d2, k1);
        assert(entries_map(d1) =~= entries_map(d2)) by {
            assert(entries_map(d1) =~= m.remove(k1));
            assert(entries_map(d2) =~= m.remove(k1));
        }
        assert(sorted_keys(d1));
        assert(sorted_keys(d2));
        lemma_sorted_canonical(d1, d2);
        assert(s1.last() == s2.last());
        assert(s1.len() == s2.len());
        assert forall|a: int| 0 <= a < s1.len() implies s1[a] == s2[a] by {
            if a < s1.len() - 1 {
                assert(s1[a] == d1[a]);
                assert(s2[a] == d2[a]);
            } else {
                assert(s1[a] == s1.last());
                assert(s2[a] == s2.last());
            }
        }
        assert(s1 =~= s2);
    }
}

/// Model pairs: the delta's entries as (key model, entry model), in store order.
pub open spec fn pair_models(s: Seq<(StateKey, DeltaEntry)>) -> Seq<(KeyModel, EntryModel)> {
    s.map_values(|p: (StateKey, DeltaEntry)| (p.0@, p.1@))
}

/// No two pairs share a key.
pub open spec fn unique_keys(s: Seq<(KeyModel, EntryModel)>) -> bool {
    forall|i: int, j: int| 0 <= i < j < s.len() ==> (#[trigger] s[i]).0 != (#[trigger] s[j]).0
}

pub open spec fn has_key(s: Seq<(KeyModel, EntryModel)>, k: KeyModel) -> bool {
    exists|i: int| 0 <= i < s.len() && (#[trigger] s[i]).0 == k
}

/// The key→entry mapping held by an ordered pair list; later pairs win.
pub open spec fn entries_map(s: Seq<(KeyModel, EntryModel)>) -> Map<KeyModel, EntryModel>
    decreases s.len(),
{
    if s.len() == 0 {
        Map::<KeyModel, EntryModel>::empty()
    } else {
        entries_map(s.drop_last()).insert(s.last().0, s.last().1)
    }
}

pub proof fn lemma_entries_map_domain(s: Seq<(KeyModel, EntryModel)>, k: KeyModel)
    ensures
        entries_map(s).contains_key(k) <==> has_key(s, k),
    decreases s.len(),
{
    if s.len() > 0 {
        lemma_entries_map_domain(s.drop_last(), k);
        if s.last().0 == k {
            assert(s[s.len() - 1].0 == k);
        } else if has_key(s, k) {
            let i = choose|i: int| 0 <= i < s.len() && (#[trigger] s[i]).0 == k;
            assert(i < s.len() - 1);
            assert(s.drop_last()[i].0 == k);
        } else {
            assert(forall|i: int| 0 <= i < s.len() - 1 ==> (#[trigger] s.drop_last()[i]) == s[i]);
        }
    }
}

/// Under unique keys, the map holds each pair's entry at its key.
pub proof fn lemma_entries_map_at(s: Seq<(KeyModel, EntryModel)>, i: int)
    requires
        unique_keys(s),
        0 <= i < s.len(),
    ensures
        entries_map(s).contains_key(s[i].0),
        entries_map(s)[s[i].0] == s[i].1,
    decreases s.len(),
{
    if i == s.len() - 1 {
    } else {
        assert(unique_keys(s.drop_last())) by {
            assert(forall|a: int, b: int| 0 <= a < b < s.len() - 1 ==>
                (#[trigger] s.drop_last()[a]) == s[a] && (#[trigger] s.drop_last()[b]) == s[b]);
        }
        lemma_entries_map_at(s.drop_last(), i);
        assert(s.drop_last()[i] == s[i]);
        assert(s[i].0 != s.last().0);
    }
}

/// Overwrite a map with a pair list, later pairs winning.
pub open spec fn overwrite(m: Map<KeyModel, EntryModel>, ws: Seq<(KeyModel, EntryModel)>) -> Map<KeyModel, EntryModel>
    decreases ws.len(),
{
    if ws.len() == 0 {
        m
    } else {
        overwrite(m, ws.drop_last()).insert(ws.last().0, ws.last().1)
    }
}

/// The mutable, persisted key-value overlay: a value or tombstone per key,
/// with each key held at most once.
pub struct Delta {
    entries: Vec<(StateKey, DeltaEntry)>,
}

impl View for Delta {
    type V = Map<KeyModel, EntryModel>;

    open spec fn view(&self) -> Map<KeyModel, EntryModel> {
        entries_map(self.models())
    }
}

impl Delta {
    /// The store's pair list, in persisted order.
    pub closed spec fn models(&self) -> Seq<(KeyModel, EntryModel)> {
        pair_models(self.entries@)
    }

    /// Well-formed: the pairs stand in strictly increasing key order — the
    /// store's canonical form, so in particular no key occurs twice — and
    /// every length fits the persisted form's length prefixes.
    pub open spec fn wf(&self) -> bool {
        sorted_keys(self.models()) && wf_pairs(self.models())
    }

    pub fn new() -> (r: Delta)
        ensures
            r.wf(),
            r@ == Map::<KeyModel, EntryModel>::empty(),
            r.models() =~= Seq::<(KeyModel, EntryModel)>::empty(),
    {
        let r = Delta { entries: Vec::new() };
        proof {
            assert(r.models() =~= Seq::<(KeyModel, EntryModel)>::empty());
        }
        r
    }

    /// Index of the pair holding `k`, if any.
    fn find_index(&self, k: &StateKey) -> (r: Option<usize>)
        ensures
            match r {
                Some(i) => i < self.models().len() && self.models()[i as int].0 == k@,
                None => !has_key(self.models(), k@),
            },
    {
        let n = self.entries.len();
        let mut i: usize = 0;
        while i < n
            invariant
                n == self.entries@.len(),
                0 <= i <= n,
                forall|j: int| 0 <= j < i ==> (#[trigger] self.models()[j]).0 != k@,
            decreases n - i,
        {
            if self.entries[i].0.key_eq(k) {
                return Some(i);
            }
            i = i + 1;
        }
        None
    }

    /// The overlay's answer for `k`: a value, a tombstone, or nothing.
    pub fn get(&self, k: &StateKey) -> (r: Option<&DeltaEntry>)
        requires
            self.wf(),
        ensures
            match r {
                Some(e) => self@.contains_key(k@) && self@[k@] == e@,
                None => !self@.contains_key(k@),
            },
    {
        match self.find_index(k) {
            Some(i) => {
                proof {
                    lemma_sorted_unique(self.models());
                    lemma_entries_map_at(self.models(), i as int);
                }
                Some(&self.entries[i].1)
            },
            None => {
                proof {
                    lemma_entries_map_domain(self.models(), k@);
                }
                None
            },
        }
    }

    /// First index whose key does not come before `k`; the end when all do.
    fn insert_pos(&self, k: &StateKey) -> (r: usize)
        ensures
            r <= self.models().len(),
            forall|j: int| 0 <= j < r ==> key_lt((#[trigger] self.models()[j]).0, k@),
            r < self.models().len() ==> !key_lt(self.models()[r as int].0, k@),
    {
        let n = self.entries.len();
        let mut i: usize = 0;
        while i < n
            invariant
                n == self.entries@.len(),
                0 <= i <= n,
                forall|j: int| 0 <= j < i ==> key_lt((#[trigger] self.models()[j]).0, k@),
            decreases n - i,
        {
            if !self.entries[i].0.key_before(k) {
                return i;
            }
            proof {
                assert(self.models()[i as int] == (self.entries@[i as int].0@, self.entries@[i as int].1@));
            }
            i = i + 1;
        }
        n
    }

    /// Insert or replace: afterwards the overlay maps `k` to `e`, and the
    /// pairs stay in canonical key order.
    pub fn set_entry(&mut self, k: StateKey, e: DeltaEntry)
        requires
            old(self).wf(),
        ensures
            final(self).wf(),
            final(self)@ == old(self)@.insert(k@, e@),
    {
        observe_pair_bounds(&k, &e);
        let ghost old_models = self.models();
        let ghost km = k@;
        proof {
            lemma_sorted_unique(old_models);
        }
        match self.find_index(&k) {
            Some(i) => {
                let ghost old_entries = self.entries@;
                proof {
                    lemma_remove_key_is_remove(old_models, i as int);
                }
                self.entries.remove(i);
                proof {
                    assert forall|j: int| 0 <= j < self.models().len() implies
                        #[trigger] self.models()[j] == old_models.remove(i as int)[j] by {
                        assert(self.entries@[j] == old_entries.remove(i as int)[j]);
                        if j < i {
                            assert(old_entries.remove(i as int)[j] == old_entries[j]);
                        } else {
                            assert(old_entries.remove(i as int)[j] == old_entries[j + 1]);
                        }
                    }
                    assert(self.models() =~= remove_key(old_models, km));
                    let rem = old_models.remove(i as int);
                    assert forall|a: int, b: int| 0 <= a < b < rem.len() implies
                        key_lt((#[trigger] rem[a]).0, (#[trigger] rem[b]).0) by {
                        if a < i && b < i {
                            assert(rem[a] == old_models[a] && rem[b] == old_models[b]);
                        } else if a < i {
                            assert(rem[a] == old_models[a] && rem[b] == old_models[b + 1]);
                        } else {
                            assert(rem[a] == old_models[a + 1] && rem[b] == old_models[b + 1]);
                        }
                    }
                    assert(sorted_keys(self.models()));
                    assert forall|j: int| 0 <= j < self.models().len() implies
                        wf_pair(#[trigger] self.models()[j]) by {
                        if j < i {
                            assert(old_models.remove(i as int)[j] == old_models[j]);
                        } else {
                            assert(old_models.remove(i as int)[j] == old_models[j + 1]);
                        }
                    }
                    assert(wf_pairs(self.models()));
                }
            },
            None => {
                proof {
                    lemma_remove_key_absent(old_models, km);
                    assert(self.models() =~= remove_key(old_models, km));
                    assert(wf_pairs(self.models()));
                }
            },
        }
        let ghost mid_models = self.models();
        let ghost mid_entries = self.entries@;
        proof {
            lemma_sorted_unique(mid_models);
            lemma_remove_key_no_key(old_models, km);
        }
        let pos = self.insert_pos(&k);
        self.entries.insert(pos, (k, e));
        let n2: usize = self.entries.len();
        proof {
            mid_entries.insert_ensures(pos as int, (k, e));
            let ins = mid_models.insert(pos as int, (km, e@));
            mid_models.insert_ensures(pos as int, (km, e@));
            assert forall|j: int| 0 <= j < self.models().len() implies
                #[trigger] self.models()[j] == ins[j] by {
                assert(self.entries@[j] == mid_entries.insert(pos as int, (k, e))[j]);
                if j < pos {
                    assert(self.entries@[j] == mid_entries[j]);
                    assert(ins[j] == mid_models[j]);
                } else if j == pos {
                } else {
                    assert(self.entries@[j] == mid_entries[j - 1]);
                    assert(ins[j] == mid_models[j - 1]);
                }
            }
            assert(self.models() =~= ins);
            assert forall|j: int| pos <= j < mid_models.len() implies
                key_lt(km, (#[trigger] mid_models[j]).0) by {
                if mid_models[pos as int].0 == km {
                    assert(has_key(mid_models, km));
                }
                lemma_key_lt_connex(km, mid_models[pos as int].0);
                assert(key_lt(km, mid_models[pos as int].0));
                if j > pos {
                    lemma_key_lt_trans(km, mid_models[pos as int].0, mid_models[j].0);
                }
            }
            assert forall|a: int, b: int| 0 <= a < b < ins.len() implies
                key_lt((#[trigger] ins[a]).0, (#[trigger] ins[b]).0) by {
                if a < pos && b < pos {
                } else if b == pos {
                    assert(ins[a] == mid_models[a]);
                } else if a == pos {
                    assert(ins[b] == mid_models[b - 1]);
                } else if a < pos {
                    assert(ins[a] == mid_models[a] && ins[b] == mid_models[b - 1]);
                } else {
                    assert(ins[a] == mid_models[a - 1] && ins[b] == mid_models[b - 1]);
                }
            }
            assert(sorted_keys(self.models()));
            assert(ins.len() == n2);
            assert forall|j: int| 0 <= j < ins.len() implies wf_pair(#[trigger] ins[j]) by {
                if j < pos {
                    assert(ins[j] == mid_models[j]);
                } else if j > pos {
                    assert(ins[j] == mid_models[j - 1]);
                }
            }
            assert(wf_pairs(self.models()));
            lemma_entries_map_insert_mid(mid_models, pos as int, (km, e@));
            lemma_entries_map_remove_key(old_models, km);
            assert(entries_map(mid_models) == entries_map(old_models).remove(km));
            assert(entries_map(old_models).remove(km).insert(km, e@)
                =~= entries_map(old_models).insert(km, e@));
        }
    }

    /// Record a concrete value for `k`.
    pub fn put(&mut self, k: StateKey, v: Vec<u8>)
        requires
            old(self).wf(),
        ensures
            final(self).wf(),
            final(self)@ == old(self)@.insert(k@, EntryModel::Value(v@)),
    {
        self.set_entry(k, DeltaEntry::Value(v));
    }

    /// Record an explicit deletion marker for `k`.
    pub fn delete(&mut self, k: StateKey)
        requires
            old(self).wf(),
        ensures
            final(self).wf(),
            final(self)@ == old(self)@.insert(k@, EntryModel::Tombstone),
    {
        self.set_entry(k, DeltaEntry::Tombstone);
    }

    /// Apply a batch of changes; later entries win over earlier ones.
    /// An empty batch leaves the store, and hence its persisted form,
    /// exactly as it was.
    pub fn apply_write_set(&mut self, ws: &Vec<(StateKey, DeltaEntry)>)
        requires
            old(self).wf(),
        ensures
            final(self).wf(),
            final(self)@ == overwrite(old(self)@, pair_models(ws@)),
            ws@.len() == 0 ==> final(self).models() == old(self).models(),
    {
        let ghost ws_models = pair_models(ws@);
        let n = ws.len();
        let mut i: usize = 0;
        while i < n
            invariant
                n == ws@.len(),
                0 <= i <= n,
                ws_models == pair_models(ws@),
                self.wf(),
                self@ == overwrite(old(self)@, ws_models.take(i as int)),
                n == 0 ==> self.models() == old(self).models(),
            decreases n - i,
        {
            let key = ws[i].0.duplicate();
            let ent = ws[i].1.duplicate();
            proof {
                assert(ws_models.len() == ws@.len());
                assert(ws_models.take((i as int) + 1).len() == (i as int) + 1);
                assert(ws_models.take((i as int) + 1).drop_last() =~= ws_models.take(i as int));
                assert(ws_models.take((i as int) + 1)[i as int] == ws_models[i as int]);
                assert(ws_models[i as int] == (ws@[i as int].0@, ws@[i as int].1@));
            }
            self.set_entry(key, ent);
            i = i + 1;
        }
        proof {
            assert(ws_models.take(n as int) =~= ws_models);
        }
    }

    /// How many keys the overlay holds.
    pub fn entry_count(&self) -> (r: usize)
        ensures
            r == self.models().len(),
    {
        self.entries.len()
    }

    /// The stored pairs, read-only, in persisted order.
    pub fn pairs(&self) -> (r: &Vec<(StateKey, DeltaEntry)>)
        ensures
            pair_models(r@) == self.models(),
    {
        &self.entries
    }

    /// Build a store from parsed pairs, refusing any list that is not in
    /// the canonical strictly increasing key order.
    pub fn from_pairs(pairs: Vec<(StateKey, DeltaEntry)>) -> (r: Option<Delta>)
        ensures
            match r {
                Some(d) => d.wf() && d.models() == pair_models(pairs@),
                None => !sorted_keys(pair_models(pairs@)),
            },
    {
        let ghost ms = pair_models(pairs@);
        let n = pairs.len();
        let mut w: usize = 0;
        while w < n
            invariant
                n == pairs@.len(),
                ms == pair_models(pairs@),
                0 <= w <= n,
                forall|j: int| 0 <= j < w ==> wf_pair(#[trigger] ms[j]),
            decreases n - w,
        {
            observe_pair_bounds(&pairs[w].0, &pairs[w].1);
            proof {
                assert(ms[w as int] == (pairs@[w as int].0@, pairs@[w as int].1@));
            }
            w = w + 1;
        }
        proof {
            assert(wf_pairs(ms));
        }
        if n > 0 {
            let mut i: usize = 0;
            while i < n - 1
                invariant
                    n == pairs@.len(),
                    1 <= n,
                    ms == pair_models(pairs@),
                    0 <= i <= n - 1,
                    forall|a: int| 0 <= a < i ==> key_lt((#[trigger] ms[a]).0, ms[a + 1].0),
                decreases n - 1 - i,
            {
                let in_order = pairs[i].0.key_before(&pairs[i + 1].0);
                proof {
                    assert(ms[i as int] == (pairs@[i as int].0@, pairs@[i as int].1@));
                    assert(ms[i as int + 1] == (pairs@[i as int + 1].0@, pairs@[i as int + 1].1@));
                }
                if !in_order {
                    proof {
                        assert(!key_lt(ms[i as int].0, ms[i as int + 1].0));
                    }
                    return None;
                }
                i = i + 1;
            }
            proof {
                lemma_sorted_from_adjacent(ms);
            }
        }
        Some(Delta { entries: pairs })
    }
}

/// Bring a pair's lengths into scope: a stored tag or value fits its
/// length prefix because it is held in a vector.
fn observe_pair_bounds(k: &StateKey, e: &DeltaEntry)
    ensures
        wf_pair((k@, e@)),
{
    let _tl: usize = k.tag.len();
    match e {
        DeltaEntry::Value(v) => {
            let _vl: usize = v.len();
        },
        DeltaEntry::Tombstone => {},
    }
}

/// The pair list without any pair whose key is `k`.
pub open spec fn remove_key(s: Seq<(KeyModel, EntryModel)>, k: KeyModel) -> Seq<(KeyModel, EntryModel)>
    decreases s.len(),
{
    if s.len() == 0 {
        s
    } else if s.last().0 == k {
        remove_key(s.drop_last(), k)
    } else {
        remove_key(s.drop_last(), k).push(s.last())
    }
}

pub proof fn lemma_remove_key_absent(s: Seq<(KeyModel, EntryModel)>, k: KeyModel)
    requires
        !has_key(s, k),
    ensures
        remove_key(s, k) =~= s,
    decreases s.len(),
{
    if s.len() > 0 {
        assert(s[s.len() - 1].0 != k);
        assert(!has_key(s.drop_last(), k)) by {
            assert(forall|i: int| 0 <= i < s.len() - 1 ==> (#[trigger] s.drop_last()[i]) == s[i]);
        }
        lemma_remove_key_absent(s.drop_last(), k);
    }
}

/// Under unique keys, removing the pair at the index holding `k` is
/// exactly `remove_key`.
pub proof fn lemma_remove_key_is_remove(s: Seq<(KeyModel, EntryModel)>, i: int)
    requires
        unique_keys(s),
        0 <= i < s.len(),
    ensures
        remove_key(s, s[i].0) =~= s.remove(i),
    decreases s.len(),
{
    let k = s[i].0;
    if i == s.len() - 1 {
        assert(!has_key(s.drop_last(), k)) by {
            assert(forall|j: int| 0 <= j < s.len() - 1 ==> (#[trigger] s.drop_last()[j]) == s[j]);
        }
        lemma_remove_key_absent(s.drop_last(), k);
        assert(s.remove(i) =~= s.drop_last());
    } else {
        assert(s.last().0 != k);
        assert(unique_keys(s.drop_last()) && s.drop_last()[i] == s[i]) by {
            assert(forall|a: int| 0 <= a < s.len() - 1 ==> (#[trigger] s.drop_last()[a]) == s[a]);
        }
        lemma_remove_key_is_remove(s.drop_last(), i);
        assert(s.remove(i) =~= s.drop_last().remove(i).push(s.last()));
    }
}

pub proof fn lemma_remove_key_no_key(s: Seq<(KeyModel, EntryModel)>, k: KeyModel)
    ensures
        !has_key(remove_key(s, k), k),
    decreases s.len(),
{
    if s.len() > 0 {
        lemma_remove_key_no_key(s.drop_last(), k);
        if s.last().0 != k {
            let rd = remove_key(s.drop_last(), k);
            assert forall|i: int| 0 <= i < rd.push(s.last()).len() implies
                (#[trigger] rd.push(s.last())[i]).0 != k by {
                if i < rd.len() {
                    assert(rd.push(s.last())[i] == rd[i]);
                }
            }
        }
    }
}

/// Removing a key from the pair list removes it from the mapping.
pub proof fn lemma_entries_map_remove_key(s: Seq<(KeyModel, EntryModel)>, k: KeyModel)
    ensures
        entries_map(remove_key(s, k)) =~= entries_map(s).remove(k),
    decreases s.len(),
{
    if s.len() > 0 {
        lemma_entries_map_remove_key(s.drop_last(), k);
        if s.last().0 == k {
        } else {
            let r = remove_key(s.drop_last(), k);
            assert(remove_key(s, k) == r.push(s.last()));
            assert(r.push(s.last()).drop_last() =~= r);
            assert(r.push(s.last()).last() == s.last());
        }
    }
}

} // verus!
