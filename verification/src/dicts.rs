//! The protocol dictionaries: sum dict, seed dict and mask dict.
//!
//! Each is an association list in first-insertion order with unique keys, so
//! every statement about it can be made over the sequence of its entries.

use crate::bignum::{bytes_eq, copy_bytes};
use crate::mask::{MaskObject, MaskObjectV};
use vstd::prelude::*;

verus! {

/// The entries of a byte-keyed dictionary, as key/value limb pairs.
pub open spec fn pairs_view(entries: Seq<(Vec<u8>, Vec<u8>)>) -> Seq<(Seq<u8>, Seq<u8>)> {
    Seq::new(entries.len(), |i: int| (entries[i].0@, entries[i].1@))
}

/// Whether the key occurs among the pairs.
pub open spec fn pairs_has_key(s: Seq<(Seq<u8>, Seq<u8>)>, k: Seq<u8>) -> bool {
    exists|i: int| 0 <= i < s.len() && (#[trigger] s[i]).0 == k
}

/// No key occurs twice.
pub open spec fn pairs_unique(s: Seq<(Seq<u8>, Seq<u8>)>) -> bool {
    forall|i: int, j: int| 0 <= i < j < s.len() ==> (#[trigger] s[i]).0 != (#[trigger] s[j]).0
}

/// The value stored under a key that occurs among the pairs.
pub open spec fn pairs_get(s: Seq<(Seq<u8>, Seq<u8>)>, k: Seq<u8>) -> Seq<u8> {
    s[choose|i: int| 0 <= i < s.len() && (#[trigger] s[i]).0 == k].1
}

/// Finds the index of a key in a byte-keyed entry list.
pub fn find_key(entries: &Vec<(Vec<u8>, Vec<u8>)>, k: &Vec<u8>) -> (r: Option<usize>)
    ensures
        match r {
            Some(i) => i < entries@.len() && pairs_view(entries@)[i as int].0 == k@,
            None => !pairs_has_key(pairs_view(entries@), k@),
        },
{
    let n = entries.len();
    let mut i: usize = 0;
    while i < n
        invariant
            i <= n,
            n == entries@.len(),
            forall|j: int| 0 <= j < i ==> (#[trigger] pairs_view(entries@)[j]).0 != k@,
        decreases n - i,
    {
        if bytes_eq(&entries[i].0, k) {
            return Some(i);
        }
        i += 1;
    }
    None
}

/// Checks that no key occurs twice among the entries.
pub fn pairs_unique_exec(entries: &Vec<(Vec<u8>, Vec<u8>)>) -> (r: bool)
    ensures
        r == pairs_unique(pairs_view(entries@)),
{
    let n = entries.len();
    let mut i: usize = 1;
    while i < n
        invariant
            1 <= i <= n || n == 0,
            n == entries@.len(),
            forall|a: int, b: int|
                0 <= a < b < i ==> (#[trigger] pairs_view(entries@)[a]).0 != (#[trigger] pairs_view(
                    entries@,
                )[b]).0,
        decreases n - i,
    {
        let mut j: usize = 0;
        while j < i
            invariant
                j <= i < n,
                n == entries@.len(),
                forall|b: int|
                    0 <= b < j ==> (#[trigger] pairs_view(entries@)[b]).0 != pairs_view(
                        entries@,
                    )[i as int].0,
            decreases i - j,
        {
            if bytes_eq(&entries[j].0, &entries[i].0) {
                proof {
                    assert(pairs_view(entries@)[j as int].0 == entries@[j as int].0@);
                    assert(pairs_view(entries@)[i as int].0 == entries@[i as int].0@);
                }
                return false;
            }
            j += 1;
        }
        i += 1;
    }
    true
}

/// Mapping from sum participant to ephemeral encryption key, built during the
/// sum phase and frozen at its exit. A duplicate insertion overwrites: the
/// last writer wins.
#[derive(Debug, Clone, PartialEq, Eq)]
pub struct SumDict {
    pub entries: Vec<(Vec<u8>, Vec<u8>)>,
}

impl View for SumDict {
    type V = Seq<(Seq<u8>, Seq<u8>)>;

    open spec fn view(&self) -> Seq<(Seq<u8>, Seq<u8>)> {
        pairs_view(self.entries@)
    }
}

impl SumDict {
    /// All keys are distinct.
    pub open spec fn wf(&self) -> bool {
        pairs_unique(self@)
    }

    /// The sequence of sum participant keys, in insertion order.
    pub open spec fn key_seq(&self) -> Seq<Seq<u8>> {
        Seq::new(self@.len(), |i: int| self@[i].0)
    }

    /// Creates an empty dictionary.
    pub fn new() -> (r: Self)
        ensures
            r@ =~= Seq::<(Seq<u8>, Seq<u8>)>::empty(),
            r.wf(),
    {
        SumDict { entries: Vec::new() }
    }

    /// How many sum participants are registered.
    pub fn len(&self) -> (r: usize)
        ensures
            r == self@.len(),
    {
        self.entries.len()
    }

    /// Whether the participant is registered.
    pub fn contains_key(&self, pk: &Vec<u8>) -> (r: bool)
        ensures
            r == pairs_has_key(self@, pk@),
    {
        match find_key(&self.entries, pk) {
            Some(_) => true,
            None => false,
        }
    }

    /// The ephemeral key of a registered participant.
    pub fn get(&self, pk: &Vec<u8>) -> (r: Option<Vec<u8>>)
        requires
            self.wf(),
        ensures
            match r {
                Some(v) => pairs_has_key(self@, pk@) && v@ == pairs_get(self@, pk@),
                None => !pairs_has_key(self@, pk@),
            },
    {
        match find_key(&self.entries, pk) {
            Some(i) => {
                let v = copy_bytes(&self.entries[i].1);
                proof {
                    let j = choose|j: int| 0 <= j < self@.len() && (#[trigger] self@[j]).0 == pk@;
                    assert(j == i as int);
                }
                Some(v)
            },
            None => None,
        }
    }

    /// Registers a participant with its ephemeral key. A duplicate overwrites
    /// the stored key: the last write wins.
    pub fn insert(&mut self, pk: Vec<u8>, ephm_pk: Vec<u8>)
        requires
            old(self).wf(),
        ensures
            final(self).wf(),
            pairs_has_key(old(self)@, pk@) ==> final(self)@ =~= old(self)@.update(
                (choose|i: int| 0 <= i < old(self)@.len() && (#[trigger] old(self)@[i]).0 == pk@),
                (pk@, ephm_pk@),
            ),
            !pairs_has_key(old(self)@, pk@) ==> final(self)@ =~= old(self)@.push((pk@, ephm_pk@)),
    {
        match find_key(&self.entries, &pk) {
            Some(i) => {
                self.entries.remove(i);
                self.entries.insert(i, (pk, ephm_pk));
                proof {
                    let j = choose|j: int|
                        0 <= j < old(self)@.len() && (#[trigger] old(self)@[j]).0 == pk@;
                    assert(j == i as int);
                    assert(self@ =~= old(self)@.update(i as int, (pk@, ephm_pk@)));
                }
            },
            None => {
                self.entries.push((pk, ephm_pk));
                proof {
                    assert(self@ =~= old(self)@.push((pk@, ephm_pk@)));
                }
            },
        }
    }
}

/// The seeds one update participant sends: one encrypted mask seed per sum
/// participant.
#[derive(Debug, Clone, PartialEq, Eq)]
pub struct LocalSeedDict {
    pub entries: Vec<(Vec<u8>, Vec<u8>)>,
}

impl View for LocalSeedDict {
    type V = Seq<(Seq<u8>, Seq<u8>)>;

    open spec fn view(&self) -> Seq<(Seq<u8>, Seq<u8>)> {
        pairs_view(self.entries@)
    }
}

impl LocalSeedDict {
    /// Creates an empty local seed dictionary.
    pub fn new() -> (r: Self)
        ensures
            r@ =~= Seq::<(Seq<u8>, Seq<u8>)>::empty(),
    {
        LocalSeedDict { entries: Vec::new() }
    }

    /// Adds a seed for one sum participant. The caller keeps keys unique.
    pub fn insert(&mut self, sum_pk: Vec<u8>, seed: Vec<u8>)
        ensures
            final(self)@ =~= old(self)@.push((sum_pk@, seed@)),
    {
        self.entries.push((sum_pk, seed));
    }
}

/// The global seed dictionary: for every sum participant, the seeds received
/// from each update participant, in arrival order.
#[derive(Debug, Clone, PartialEq, Eq)]
pub struct SeedDict {
    pub entries: Vec<(Vec<u8>, Vec<(Vec<u8>, Vec<u8>)>)>,
}

/// The view of the seed dictionary: sum key and inner updater/seed pairs.
pub open spec fn seed_dict_view(
    entries: Seq<(Vec<u8>, Vec<(Vec<u8>, Vec<u8>)>)>,
) -> Seq<(Seq<u8>, Seq<(Seq<u8>, Seq<u8>)>)> {
    Seq::new(entries.len(), |i: int| (entries[i].0@, pairs_view(entries[i].1@)))
}

impl View for SeedDict {
    type V = Seq<(Seq<u8>, Seq<(Seq<u8>, Seq<u8>)>)>;

    open spec fn view(&self) -> Seq<(Seq<u8>, Seq<(Seq<u8>, Seq<u8>)>)> {
        seed_dict_view(self.entries@)
    }
}

/// The updater keys of one inner dictionary, in arrival order.
pub open spec fn inner_keys(inner: Seq<(Seq<u8>, Seq<u8>)>) -> Seq<Seq<u8>> {
    Seq::new(inner.len(), |i: int| inner[i].0)
}

impl SeedDict {
    /// The sequence of sum participant keys.
    pub open spec fn key_seq(&self) -> Seq<Seq<u8>> {
        Seq::new(self@.len(), |i: int| self@[i].0)
    }

    /// Every inner dictionary holds the seeds of the same updaters, in the
    /// same arrival order.
    pub open spec fn uniform(&self) -> bool {
        forall|i: int, j: int|
            0 <= i < self@.len() && 0 <= j < self@.len() ==> inner_keys((#[trigger] self@[i]).1)
                =~= inner_keys((#[trigger] self@[j]).1)
    }

    /// Sum keys are distinct.
    pub open spec fn keys_unique(&self) -> bool {
        forall|i: int, j: int| 0 <= i < j < self@.len() ==> self@[i].0 != self@[j].0
    }

    /// Each inner dictionary holds at most one seed per updater.
    pub open spec fn inners_unique(&self) -> bool {
        forall|i: int| 0 <= i < self@.len() ==> pairs_unique((#[trigger] self@[i]).1)
    }

    /// Creates an empty seed dictionary.
    pub fn new() -> (r: Self)
        ensures
            r@ =~= Seq::<(Seq<u8>, Seq<(Seq<u8>, Seq<u8>)>)>::empty(),
            r.uniform(),
            r.keys_unique(),
    {
        SeedDict { entries: Vec::new() }
    }

    /// Creates the dictionary with one empty inner map per sum participant of
    /// the frozen sum dictionary, so the update handler only ever fills
    /// existing inner maps.
    pub fn prepopulated(sum_dict: &SumDict) -> (r: Self)
        requires
            sum_dict.wf(),
        ensures
            r@.len() == sum_dict@.len(),
            r.key_seq() =~= sum_dict.key_seq(),
            forall|i: int| 0 <= i < r@.len() ==> (#[trigger] r@[i]).1.len() == 0,
            r.uniform(),
            r.keys_unique(),
    {
        let mut entries: Vec<(Vec<u8>, Vec<(Vec<u8>, Vec<u8>)>)> = Vec::new();
        let n = sum_dict.entries.len();
        let mut i: usize = 0;
        while i < n
            invariant
                i <= n,
                n == sum_dict@.len(),
                entries@.len() == i,
                forall|j: int|
                    0 <= j < i ==> (#[trigger] entries@[j]).0@ == sum_dict@[j].0 && entries@[j].1@.len()
                        == 0,
            decreases n - i,
        {
            let key = copy_bytes(&sum_dict.entries[i].0);
            entries.push((key, Vec::new()));
            i += 1;
        }
        let r = SeedDict { entries };
        proof {
            assert forall|j: int| 0 <= j < n implies (#[trigger] r@[j]).0 == sum_dict@[j].0
                && r@[j].1.len() == 0 by {
                assert(r@[j] == (entries@[j].0@, pairs_view(entries@[j].1@)));
            }
            assert(r.key_seq() =~= sum_dict.key_seq());
            assert forall|i2: int, j2: int|
                0 <= i2 < r@.len() && 0 <= j2 < r@.len() implies inner_keys(
                (#[trigger] r@[i2]).1,
            ) =~= inner_keys((#[trigger] r@[j2]).1) by {
                assert(r@[i2].1.len() == 0);
                assert(r@[j2].1.len() == 0);
            }
        }
        r
    }

    /// How many sum participants have an inner dictionary.
    pub fn len(&self) -> (r: usize)
        ensures
            r == self@.len(),
    {
        self.entries.len()
    }

    /// How many updaters contributed so far: the size of any inner
    /// dictionary (they are all equal when the dictionary is uniform).
    pub fn updater_count(&self) -> (r: usize)
        ensures
            self@.len() == 0 ==> r == 0,
            self@.len() > 0 ==> r == self@[0].1.len(),
    {
        if self.entries.len() == 0 {
            0
        } else {
            self.entries[0].1.len()
        }
    }

    /// Whether any inner dictionary already holds a seed from this updater.
    /// Only the first is inspected; by uniformity they all agree.
    pub fn contains_updater(&self, pk: &Vec<u8>) -> (r: bool)
        ensures
            self@.len() == 0 ==> r == false,
            self@.len() > 0 ==> r == pairs_has_key(self@[0].1, pk@),
    {
        if self.entries.len() == 0 {
            return false;
        }
        match find_key(&self.entries[0].1, pk) {
            Some(_) => true,
            None => false,
        }
    }

    /// Appends a seed from `updater_pk` to the inner dictionary of `sum_pk`.
    pub fn insert_seed(&mut self, index: usize, updater_pk: Vec<u8>, seed: Vec<u8>)
        requires
            index < old(self)@.len(),
        ensures
            final(self)@.len() == old(self)@.len(),
            final(self)@[index as int].0 == old(self)@[index as int].0,
            final(self)@[index as int].1 =~= old(self)@[index as int].1.push(
                (updater_pk@, seed@),
            ),
            forall|j: int|
                0 <= j < old(self)@.len() && j != index ==> final(self)@[j] == old(self)@[j],
    {
        let (key, mut inner) = self.entries.remove(index);
        inner.push((updater_pk, seed));
        self.entries.insert(index, (key, inner));
        proof {
            assert(final(self)@[index as int].1 =~= old(self)@[index as int].1.push(
                (updater_pk@, seed@),
            ));
            assert forall|j: int|
                0 <= j < old(self)@.len() && j != index implies final(self)@[j] == old(
                self,
            )@[j] by {
                assert(final(self).entries@[j] == old(self).entries@[j]);
            }
        }
    }

    /// Finds the position of a sum participant's inner dictionary.
    pub fn find_sum_pk(&self, sum_pk: &Vec<u8>) -> (r: Option<usize>)
        ensures
            match r {
                Some(i) => i < self@.len() && self@[i as int].0 == sum_pk@,
                None => forall|i: int| 0 <= i < self@.len() ==> (#[trigger] self@[i]).0 != sum_pk@,
            },
    {
        let n = self.entries.len();
        let mut i: usize = 0;
        while i < n
            invariant
                i <= n,
                n == self@.len(),
                forall|j: int| 0 <= j < i ==> (#[trigger] self@[j]).0 != sum_pk@,
            decreases n - i,
        {
            if bytes_eq(&self.entries[i].0, sum_pk) {
                return Some(i);
            }
            i += 1;
        }
        None
    }
}

/// The votes cast during the sum2 phase: each distinct mask object with the
/// number of participants that submitted it, in first-seen order.
#[derive(Debug, Clone, PartialEq, Eq)]
pub struct MaskDict {
    pub entries: Vec<(MaskObject, usize)>,
}

/// The view of the mask dictionary: mask object views with their counts.
pub open spec fn mask_dict_view(entries: Seq<(MaskObject, usize)>) -> Seq<(MaskObjectV, nat)> {
    Seq::new(entries.len(), |i: int| (entries[i].0@, entries[i].1 as nat))
}

impl View for MaskDict {
    type V = Seq<(MaskObjectV, nat)>;

    open spec fn view(&self) -> Seq<(MaskObjectV, nat)> {
        mask_dict_view(self.entries@)
    }
}

/// Whether a mask object occurs among the votes.
pub open spec fn mask_dict_has(s: Seq<(MaskObjectV, nat)>, o: MaskObjectV) -> bool {
    exists|i: int| 0 <= i < s.len() && (#[trigger] s[i]).0 == o
}

impl MaskDict {
    /// Distinct mask objects per entry.
    pub open spec fn wf(&self) -> bool {
        forall|i: int, j: int| 0 <= i < j < self@.len() ==> (#[trigger] self@[i]).0 != (
        #[trigger] self@[j]).0
    }

    /// Creates an empty mask dictionary.
    pub fn new() -> (r: Self)
        ensures
            r@ =~= Seq::<(MaskObjectV, nat)>::empty(),
            r.wf(),
    {
        MaskDict { entries: Vec::new() }
    }

    /// How many distinct mask objects were submitted.
    pub fn len(&self) -> (r: usize)
        ensures
            r == self@.len(),
    {
        self.entries.len()
    }

    /// Counts one vote for the mask object: an existing entry's count grows,
    /// a new object is appended with count one.
    pub fn incr(&mut self, obj: MaskObject)
        requires
            old(self).wf(),
            forall|i: int|
                0 <= i < old(self)@.len() && (#[trigger] old(self)@[i]).0 == obj@ ==> old(
                    self,
                )@[i].1 < usize::MAX,
        ensures
            final(self).wf(),
            mask_dict_has(old(self)@, obj@) ==> final(self)@ =~= old(self)@.update(
                (choose|i: int| 0 <= i < old(self)@.len() && (#[trigger] old(self)@[i]).0 == obj@),
                (obj@, (old(self)@[choose|i: int|
                    0 <= i < old(self)@.len() && (#[trigger] old(self)@[i]).0 == obj@].1
                    + 1) as nat),
            ),
            !mask_dict_has(old(self)@, obj@) ==> final(self)@ =~= old(self)@.push((obj@, 1nat)),
    {
        let n = self.entries.len();
        let mut i: usize = 0;
        while i < n
            invariant
                i <= n,
                n == self@.len(),
                self.entries@ == old(self).entries@,
                old(self).wf(),
                forall|k: int|
                    0 <= k < old(self)@.len() && (#[trigger] old(self)@[k]).0 == obj@ ==> old(
                        self,
                    )@[k].1 < usize::MAX,
                forall|j: int| 0 <= j < i ==> (#[trigger] self@[j]).0 != obj@,
            decreases n - i,
        {
            if mask_object_eq(&self.entries[i].0, &obj) {
                proof {
                    assert(old(self)@[i as int].0 == obj@);
                }
                let (key, c) = self.entries.remove(i);
                self.entries.insert(i, (key, c + 1));
                proof {
                    assert(mask_dict_has(old(self)@, obj@));
                    let j = choose|j: int|
                        0 <= j < old(self)@.len() && (#[trigger] old(self)@[j]).0 == obj@;
                    assert(j == i as int);
                    assert(self@ =~= old(self)@.update(
                        i as int,
                        (obj@, (old(self)@[i as int].1 + 1) as nat),
                    ));
                    assert forall|a: int, b: int| 0 <= a < b < self@.len() implies (
                    #[trigger] self@[a]).0 != (#[trigger] self@[b]).0 by {
                        assert(self@[a].0 == old(self)@[a].0);
                        assert(self@[b].0 == old(self)@[b].0);
                    }
                }
                return ;
            }
            i += 1;
        }
        proof {
            assert(!mask_dict_has(old(self)@, obj@));
        }
        self.entries.push((obj, 1));
        proof {
            assert(self@ =~= old(self)@.push((obj@, 1nat)));
            assert forall|a: int, b: int| 0 <= a < b < self@.len() implies (#[trigger] self@[a]).0
                != (#[trigger] self@[b]).0 by {
                if b < old(self)@.len() {
                    assert(self@[a].0 == old(self)@[a].0);
                    assert(self@[b].0 == old(self)@[b].0);
                } else {
                    assert(self@[b].0 == obj@);
                    assert(self@[a].0 == old(self)@[a].0);
                }
            }
        }
    }

    /// How many votes a mask object has so far.
    pub fn count_of(&self, obj: &MaskObject) -> (r: usize)
        requires
            self.wf(),
        ensures
            mask_dict_has(self@, obj@) ==> r as nat == self@[choose|i: int|
                0 <= i < self@.len() && (#[trigger] self@[i]).0 == obj@].1,
            !mask_dict_has(self@, obj@) ==> r == 0,
    {
        let n = self.entries.len();
        let mut i: usize = 0;
        while i < n
            invariant
                i <= n,
                n == self@.len(),
                self.wf(),
                forall|j: int| 0 <= j < i ==> (#[trigger] self@[j]).0 != obj@,
            decreases n - i,
        {
            if mask_object_eq(&self.entries[i].0, &obj) {
                proof {
                    assert(self@[i as int].0 == self.entries@[i as int].0@);
                    assert(mask_dict_has(self@, obj@));
                    let j = choose|j: int|
                        0 <= j < self@.len() && (#[trigger] self@[j]).0 == obj@;
                    assert(j == i as int);
                }
                return self.entries[i].1;
            }
            i += 1;
        }
        0
    }

    /// The count of the most voted mask object.
    pub fn max_count(&self) -> (r: usize)
        ensures
            self@.len() == 0 ==> r == 0,
            forall|i: int| 0 <= i < self@.len() ==> (#[trigger] self@[i]).1 <= r as nat,
            self@.len() > 0 ==> exists|i: int| 0 <= i < self@.len() && (#[trigger] self@[i]).1
                == r as nat,
    {
        let n = self.entries.len();
        let mut best: usize = 0;
        let mut i: usize = 0;
        while i < n
            invariant
                i <= n,
                n == self@.len(),
                i == 0 ==> best == 0,
                forall|j: int| 0 <= j < i ==> (#[trigger] self@[j]).1 <= best as nat,
                i > 0 ==> exists|j: int| 0 <= j < i && (#[trigger] self@[j]).1 == best as nat,
            decreases n - i,
        {
            if i == 0 || self.entries[i].1 > best {
                best = self.entries[i].1;
                proof {
                    assert(self@[i as int].1 == best as nat);
                }
            }
            i += 1;
        }
        best
    }

    /// The index of the winning mask object: the highest count, ties broken
    /// by first-seen insertion order.
    pub fn best_index(&self) -> (r: Option<usize>)
        ensures
            self@.len() == 0 ==> r is None,
            match r {
                Some(i) => {
                    &&& i < self@.len()
                    &&& forall|j: int| 0 <= j < self@.len() ==> (#[trigger] self@[j]).1
                        <= self@[i as int].1
                    &&& forall|j: int| 0 <= j < i ==> (#[trigger] self@[j]).1 < self@[i as int].1
                },
                None => self@.len() == 0,
            },
    {
        let n = self.entries.len();
        if n == 0 {
            return None;
        }
        let mut best: usize = 0;
        let mut i: usize = 1;
        while i < n
            invariant
                1 <= i <= n,
                best < i,
                n == self@.len(),
                forall|j: int| 0 <= j < i ==> (#[trigger] self@[j]).1 <= self@[best as int].1,
                forall|j: int| 0 <= j < best ==> (#[trigger] self@[j]).1 < self@[best as int].1,
            decreases n - i,
        {
            if self.entries[i].1 > self.entries[best].1 {
                best = i;
            }
            i += 1;
        }
        Some(best)
    }
}

/// Structural equality of two mask objects: same configurations, same data.
pub fn mask_object_eq(a: &MaskObject, b: &MaskObject) -> (r: bool)
    ensures
        r == (a@ == b@),
{
    if !(a.vector.config.same_as(&b.vector.config) && a.scalar.config.same_as(&b.scalar.config)) {
        return false;
    }
    if !bytes_eq(&a.scalar.data, &b.scalar.data) {
        return false;
    }
    let n = a.vector.data.len();
    if b.vector.data.len() != n {
        proof {
            assert(a@.vector.data.len() != b@.vector.data.len());
        }
        return false;
    }
    let mut i: usize = 0;
    while i < n
        invariant
            i <= n,
            n == a.vector.data@.len() == b.vector.data@.len(),
            forall|j: int| 0 <= j < i ==> a@.vector.data[j] == b@.vector.data[j],
        decreases n - i,
    {
        if !bytes_eq(&a.vector.data[i], &b.vector.data[i]) {
            proof {
                assert(a@.vector.data[i as int] == a.vector.data@[i as int]@);
                assert(b@.vector.data[i as int] == b.vector.data@[i as int]@);
            }
            return false;
        }
        proof {
            assert(a@.vector.data[i as int] == a.vector.data@[i as int]@);
            assert(b@.vector.data[i as int] == b.vector.data@[i as int]@);
        }
        i += 1;
    }
    proof {
        assert(a@.vector.data =~= b@.vector.data);
        assert(a@ == b@);
    }
    true
}

} // verus!
