//! An in-memory map from instruction identifiers to their computed results,
//! used to thread dataflow between batches of a resumed workflow.

use vstd::prelude::*;
use crate::receipt::InstructionResult;
use crate::receipt::InstructionResultModel;
use crate::workflow::Cid;

verus! {

/// The map an entry list denotes: later entries win over earlier ones with
/// the same key.
pub open spec fn entries_map(s: Seq<(Cid, InstructionResult)>) -> Map<
    Seq<u8>,
    InstructionResultModel,
>
    decreases s.len(),
{
    if s.len() == 0 {
        Map::empty()
    } else {
        entries_map(s.drop_last()).insert(s.last().0@, s.last().1@)
    }
}

/// No two entries of the list carry the same key.
pub open spec fn entries_unique(s: Seq<(Cid, InstructionResult)>) -> bool {
    forall|p: int, q: int| 0 <= p < q < s.len() ==> s[p].0@ != s[q].0@
}

/// An entry's key is in the denoted map.
pub proof fn lemma_entries_map_contains(s: Seq<(Cid, InstructionResult)>, i: int)
    requires
        0 <= i < s.len(),
    ensures
        entries_map(s).dom().contains(s[i].0@),
    decreases s.len(),
{
    if i < s.len() - 1 {
        lemma_entries_map_contains(s.drop_last(), i);
        assert(s.drop_last()[i] == s[i]);
    }
}

/// A key no entry carries is not in the denoted map.
pub proof fn lemma_entries_map_absent(s: Seq<(Cid, InstructionResult)>, k: Seq<u8>)
    requires
        forall|i: int| 0 <= i < s.len() ==> s[i].0@ != k,
    ensures
        !entries_map(s).dom().contains(k),
    decreases s.len(),
{
    if s.len() > 0 {
        assert(forall|i: int| 0 <= i < s.len() - 1 ==> s.drop_last()[i] == s[i]);
        lemma_entries_map_absent(s.drop_last(), k);
    }
}

/// With distinct keys, taking an entry out takes exactly its key out of the
/// denoted map.
proof fn lemma_entries_map_remove(s: Seq<(Cid, InstructionResult)>, i: int)
    requires
        0 <= i < s.len(),
        entries_unique(s),
    ensures
        entries_map(s.remove(i)) == entries_map(s).remove(s[i].0@),
    decreases s.len(),
{
    let k = s[i].0@;
    assert(forall|j: int| 0 <= j < s.len() - 1 ==> s.drop_last()[j] == s[j]);
    if i == s.len() - 1 {
        assert(s.remove(i) =~= s.drop_last());
        lemma_entries_map_absent(s.drop_last(), k);
        assert(entries_map(s).remove(k) =~= entries_map(s.drop_last()));
    } else {
        lemma_entries_map_remove(s.drop_last(), i);
        assert(s.remove(i).drop_last() =~= s.drop_last().remove(i));
        assert(s.remove(i).last() == s.last());
        assert(s.last().0@ != k);
        assert(entries_map(s.drop_last()).remove(k).insert(s.last().0@, s.last().1@)
            =~= entries_map(s.drop_last()).insert(s.last().0@, s.last().1@).remove(k));
    }
}

/// With distinct keys, the denoted map has exactly one key per entry.
proof fn lemma_entries_map_card(s: Seq<(Cid, InstructionResult)>)
    requires
        entries_unique(s),
    ensures
        entries_map(s).dom().finite(),
        entries_map(s).dom().len() == s.len(),
    decreases s.len(),
{
    broadcast use vstd::set::group_set_axioms;

    if s.len() > 0 {
        assert(forall|j: int| 0 <= j < s.len() - 1 ==> s.drop_last()[j] == s[j]);
        lemma_entries_map_card(s.drop_last());
        lemma_entries_map_absent(s.drop_last(), s.last().0@);
        assert(entries_map(s).dom() =~= entries_map(s.drop_last()).dom().insert(s.last().0@));
    }
}

/// A mapping from instruction identifiers to the results those instructions
/// computed, in insertion order; inserting under a key already held replaces
/// the recorded result.
#[derive(Debug, PartialEq, Eq)]
pub struct LinkMap {
    entries: Vec<(Cid, InstructionResult)>,
}

impl View for LinkMap {
    type V = Map<Seq<u8>, InstructionResultModel>;

    closed spec fn view(&self) -> Map<Seq<u8>, InstructionResultModel> {
        entries_map(self.entries@)
    }
}

impl LinkMap {
    /// How many entries the map holds.
    pub closed spec fn spec_len(&self) -> nat {
        self.entries@.len()
    }

    /// Each identifier has at most one entry.
    pub closed spec fn wf(&self) -> bool {
        entries_unique(self.entries@)
    }

    /// A well-formed map holds exactly one entry per recorded identifier.
    pub proof fn lemma_len_is_key_count(&self)
        requires
            self.wf(),
        ensures
            self.spec_len() == self@.dom().len(),
    {
        lemma_entries_map_card(self.entries@);
    }

    /// An empty map.
    pub fn new() -> (r: LinkMap)
        ensures
            r@ == Map::<Seq<u8>, InstructionResultModel>::empty(),
            r.spec_len() == 0,
            r.wf(),
    {
        LinkMap { entries: Vec::new() }
    }

    /// How many entries the map holds.
    pub fn len(&self) -> (n: usize)
        ensures
            n == self.spec_len(),
    {
        self.entries.len()
    }

    /// Whether the map holds no entry.
    pub fn is_empty(&self) -> (r: bool)
        ensures
            r == (self.spec_len() == 0),
            r ==> self@ == Map::<Seq<u8>, InstructionResultModel>::empty(),
            self.wf() ==> r == (self@.dom().len() == 0),
    {
        proof {
            if self.wf() {
                self.lemma_len_is_key_count();
            }
        }
        self.entries.len() == 0
    }

    /// Record the result computed for an instruction: a result already
    /// recorded under the same identifier is replaced, anything else is a
    /// fresh entry.
    pub fn insert(&mut self, key: Cid, value: InstructionResult)
        requires
            old(self).wf(),
        ensures
            final(self).wf(),
            final(self)@ == old(self)@.insert(key@, value@),
            final(self).spec_len() == (if old(self)@.dom().contains(key@) {
                old(self).spec_len()
            } else {
                old(self).spec_len() + 1
            }),
    {
        let ghost pre = self.entries@;
        let mut i: usize = 0;
        let mut existing: Option<usize> = None;
        while i < self.entries.len()
            invariant
                i <= pre.len(),
                self.entries@ == pre,
                match existing {
                    Some(e) => e < i && pre[e as int].0@ == key@,
                    None => forall|j: int| 0 <= j < i ==> pre[j].0@ != key@,
                },
            decreases pre.len() - i,
        {
            if existing.is_none() && self.entries[i].0.eq_cid(&key) {
                existing = Some(i);
            }
            i = i + 1;
        }
        match existing {
            Some(e) => {
                proof {
                    lemma_entries_map_contains(pre, e as int);
                    lemma_entries_map_remove(pre, e as int);
                }
                self.entries.remove(e);
                let ghost mid = self.entries@;
                proof {
                    assert forall|p: int, q: int| 0 <= p < q < mid.len() implies mid[p].0@
                        != mid[q].0@ by {
                        let p2: int = if p < e { p } else { p + 1 };
                        let q2: int = if q < e { q } else { q + 1 };
                        assert(mid[p] == pre[p2] && mid[q] == pre[q2]);
                    }
                    assert forall|j: int| 0 <= j < mid.len() implies mid[j].0@ != key@ by {
                        let j2: int = if j < e { j } else { j + 1 };
                        assert(mid[j] == pre[j2]);
                    }
                }
                self.entries.push((key, value));
                proof {
                    assert(self.entries@.drop_last() =~= mid);
                    assert(entries_map(pre).remove(key@).insert(key@, value@) =~= entries_map(
                        pre,
                    ).insert(key@, value@));
                }
            },
            None => {
                proof {
                    lemma_entries_map_absent(pre, key@);
                }
                self.entries.push((key, value));
                proof {
                    assert(self.entries@.drop_last() =~= pre);
                }
            },
        }
    }

    /// Whether a result is recorded under this identifier.
    pub fn contains_key(&self, key: &Cid) -> (r: bool)
        ensures
            r == self@.dom().contains(key@),
    {
        let mut i: usize = 0;
        while i < self.entries.len()
            invariant
                i <= self.entries@.len(),
                forall|j: int| 0 <= j < i ==> self.entries@[j].0@ != key@,
            decreases self.entries@.len() - i,
        {
            if self.entries[i].0.eq_cid(key) {
                proof {
                    lemma_entries_map_contains(self.entries@, i as int);
                }
                return true;
            }
            i = i + 1;
        }
        proof {
            lemma_entries_map_absent(self.entries@, key@);
        }
        false
    }

    /// The result recorded under this identifier, if any.
    pub fn get(&self, key: &Cid) -> (r: Option<&InstructionResult>)
        ensures
            match r {
                Some(v) => self@.dom().contains(key@) && self@[key@] == v@,
                None => !self@.dom().contains(key@),
            },
    {
        let mut i: usize = self.entries.len();
        proof {
            assert(self.entries@.take(i as int) =~= self.entries@);
        }
        while i > 0
            invariant
                i <= self.entries@.len(),
                entries_map(self.entries@).dom().contains(key@) <==> entries_map(
                    self.entries@.take(i as int),
                ).dom().contains(key@),
                entries_map(self.entries@).dom().contains(key@) ==> entries_map(
                    self.entries@.take(i as int),
                )[key@] == entries_map(self.entries@)[key@],
            decreases i,
        {
            proof {
                assert(self.entries@.take(i as int).drop_last() =~= self.entries@.take(
                    i as int - 1,
                ));
                assert(self.entries@.take(i as int).last() == self.entries@[i as int - 1]);
            }
            i = i - 1;
            if self.entries[i].0.eq_cid(key) {
                return Some(&self.entries[i].1);
            }
        }
        proof {
            assert(self.entries@.take(0int) =~= Seq::<(Cid, InstructionResult)>::empty());
        }
        None
    }
}

} // verus!
