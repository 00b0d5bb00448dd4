//! Stores of entries that are found by their place or by their measurement.
use vstd::prelude::*;
use crate::process_manager::allocation::AllocationRange;

verus! {

/// What can be an entry of a store.
pub trait StoreTrait: Sized {
    /// Whether the entry is empty.
    spec fn vacant(&self) -> bool;

    /// Whether the entry has the given measurement.
    spec fn measures(&self, index: Seq<u8>) -> bool;

    /// The entry that a store starts with.
    spec fn blank() -> Self;

    /// The entry after it was emptied.
    spec fn emptied(&self) -> Self;

    proof fn blank_is_vacant()
        ensures
            Self::blank().vacant(),
    ;

    proof fn emptied_is_vacant(&self)
        ensures
            self.emptied().vacant(),
    ;

    fn empty() -> (r: Self)
        ensures
            r == Self::blank(),
    ;

    fn is_empty(&self) -> (r: bool)
        ensures
            r == self.vacant(),
    ;

    fn set_empty(&mut self)
        ensures
            *final(self) == old(self).emptied(),
    ;

    fn cmp(&self, index: [u8; 64]) -> (r: bool)
        ensures
            r == self.measures(index@),
    ;
}

/// An entry of a store: data with its measurement.
#[derive(Clone, Copy, Debug)]
pub struct StoreEntry {
    pub measurement: [u8; 64],
    /// The pages that hold the data.
    pub data: AllocationRange,
    /// Bytes of the data.
    pub real_size: u64,
    /// Whether the entry is empty.
    pub state: bool,
}

fn same_bytes(a: &[u8; 64], b: &[u8; 64]) -> (r: bool)
    ensures
        r == (a@ == b@),
{
    let mut i: usize = 0;
    while i < 64
        invariant
            i <= 64,
            a@.len() == 64,
            b@.len() == 64,
            forall|k: int| 0 <= k < i ==> a@[k] == b@[k],
        decreases 64 - i,
    {
        if a[i] != b[i] {
            assert(a@[i as int] != b@[i as int]);
            return false;
        }
        i = i + 1;
    }
    assert(a@ =~= b@);
    true
}

impl StoreTrait for StoreEntry {
    open spec fn vacant(&self) -> bool {
        self.state
    }

    open spec fn measures(&self, index: Seq<u8>) -> bool {
        self.measurement@ == index
    }

    open spec fn blank() -> Self {
        StoreEntry {
            measurement: vstd::array::spec_array_fill_for_copy_type::<u8, 64>(0),
            data: AllocationRange(0, 0),
            real_size: 0,
            state: true,
        }
    }

    open spec fn emptied(&self) -> Self {
        StoreEntry { state: true, ..*self }
    }

    proof fn blank_is_vacant() {
    }

    proof fn emptied_is_vacant(&self) {
    }

    fn empty() -> (r: Self) {
        StoreEntry {
            measurement: [0u8; 64],
            data: AllocationRange(0, 0),
            real_size: 0,
            state: true,
        }
    }

    fn is_empty(&self) -> (r: bool) {
        self.state
    }

    fn set_empty(&mut self) {
        self.state = true;
    }

    fn cmp(&self, index: [u8; 64]) -> (r: bool) {
        same_bytes(&self.measurement, &index)
    }
}

/// A store of entries.
#[derive(Debug)]
pub struct Store<T> {
    pub data: Vec<T>,
}

impl<T> View for Store<T> {
    type V = Seq<T>;

    open spec fn view(&self) -> Seq<T> {
        self.data@
    }
}

/// The place of the first empty entry; the length where there is none.
pub open spec fn first_vacant<T: StoreTrait>(s: Seq<T>, i: nat) -> nat
    decreases s.len() - i,
{
    if i >= s.len() || s[i as int].vacant() {
        i
    } else {
        first_vacant(s, i + 1)
    }
}

/// The place of the first entry with the given measurement; the length where
/// there is none.
pub open spec fn first_measured<T: StoreTrait>(s: Seq<T>, index: Seq<u8>, i: nat) -> nat
    decreases s.len() - i,
{
    if i >= s.len() || (!s[i as int].vacant() && s[i as int].measures(index)) {
        i
    } else {
        first_measured(s, index, i + 1)
    }
}

/// A place as a request reports it: -1 where it is none of the store.
pub open spec fn place(i: nat, len: nat) -> i64 {
    if i < len {
        i as i64
    } else {
        -1i64
    }
}

/// The store after an entry was put in its first empty place.
pub open spec fn inserted<T: StoreTrait>(s: Seq<T>, p: T) -> Seq<T> {
    if first_vacant(s, 0) < s.len() {
        s.update(first_vacant(s, 0) as int, p)
    } else {
        s
    }
}

impl<T: StoreTrait> Store<T> {
    /// A store without places.
    pub fn new() -> (r: Self)
        ensures
            r@ == Seq::<T>::empty(),
    {
        Store { data: Vec::new() }
    }

    /// Places in the store.
    pub fn len(&self) -> (r: usize)
        ensures
            r == self@.len(),
    {
        self.data.len()
    }

    /// Adds empty places.
    pub fn init(&mut self, size: u32)
        ensures
            final(self)@ == old(self)@ + Seq::new(size as nat, |i: int| T::blank()),
    {
        let ghost before = self@;
        let mut i: u32 = 0;
        while i < size
            invariant
                i <= size,
                self@ =~= before + Seq::new(i as nat, |k: int| T::blank()),
            decreases size - i,
        {
            let e = T::empty();
            self.push(e);
            i = i + 1;
        }
    }

    /// Adds an entry behind the others.
    pub fn push(&mut self, data: T)
        ensures
            final(self)@ == old(self)@.push(data),
    {
        self.data.push(data);
    }

    /// Puts an entry in the first empty place. Gives that place, or -1 where
    /// the store is full.
    pub fn insert(&mut self, p: T) -> (r: i64)
        requires
            old(self)@.len() <= i64::MAX,
        ensures
            r == place(first_vacant(old(self)@, 0), old(self)@.len()),
            final(self)@ == inserted(old(self)@, p),
    {
        let mut i: usize = 0;
        while i < self.data.len()
            invariant
                i <= self.data.len(),
                self@ == old(self)@,
                old(self)@.len() <= i64::MAX,
                first_vacant(old(self)@, 0) == first_vacant(old(self)@, i as nat),
            decreases self.data.len() - i,
        {
            if self.data[i].is_empty() {
                self.data[i] = p;
                return i as i64;
            }
            i = i + 1;
        }
        -1
    }

    /// An entry.
    pub fn get(&self, id: usize) -> (r: &T)
        requires
            id < self@.len(),
        ensures
            *r == self@[id as int],
    {
        &self.data[id]
    }

    /// Replaces an entry.
    pub fn set(&mut self, id: usize, e: T)
        requires
            id < old(self)@.len(),
        ensures
            final(self)@ == old(self)@.update(id as int, e),
    {
        self.data[id] = e;
    }

    /// Empties the first place, whatever `id` is.
    pub fn delete(&mut self, _id: usize)
        requires
            old(self)@.len() > 0,
        ensures
            final(self)@ == old(self)@.update(0, old(self)@[0].emptied()),
    {
        self.data[0].set_empty();
    }

    /// The place of the first entry with a measurement, or -1.
    pub fn find(&self, index: [u8; 64]) -> (r: i64)
        requires
            self@.len() <= i64::MAX,
        ensures
            r == place(first_measured(self@, index@, 0), self@.len()),
    {
        let mut i: usize = 0;
        while i < self.data.len()
            invariant
                i <= self.data.len(),
                self@.len() <= i64::MAX,
                first_measured(self@, index@, 0) == first_measured(self@, index@, i as nat),
            decreases self.data.len() - i,
        {
            if has_measurement(&self.data[i], index) {
                return i as i64;
            }
            i = i + 1;
        }
        -1
    }
}

fn has_measurement<T: StoreTrait>(e: &T, index: [u8; 64]) -> (r: bool)
    ensures
        r == (!e.vacant() && e.measures(index@)),
{
    if e.is_empty() {
        return false;
    }
    e.cmp(index)
}

/// What `first_vacant` and `first_measured` find lies at or behind where they
/// start, and nothing before it qualifies.
pub proof fn lemma_first<T: StoreTrait>(s: Seq<T>, index: Seq<u8>, i: nat)
    requires
        i <= s.len(),
    ensures
        i <= first_vacant(s, i) <= s.len(),
        first_vacant(s, i) < s.len() ==> s[first_vacant(s, i) as int].vacant(),
        forall|k: int| i <= k < first_vacant(s, i) ==> !(#[trigger] s[k]).vacant(),
        i <= first_measured(s, index, i) <= s.len(),
        first_measured(s, index, i) < s.len() ==> !s[first_measured(s, index, i) as int].vacant()
            && s[first_measured(s, index, i) as int].measures(index),
        forall|k: int|
            i <= k < first_measured(s, index, i) ==> (#[trigger] s[k]).vacant() || !s[k].measures(
                index,
            ),
    decreases s.len() - i,
{
    if i < s.len() {
        lemma_first(s, index, i + 1);
    }
}

/// An entry goes into an empty place and nowhere else; in a full store nothing
/// changes, and the answer is -1.
pub proof fn law_insert<T: StoreTrait>(s: Seq<T>, p: T)
    requires
        s.len() <= i64::MAX,
    ensures
        ({
            let r = place(first_vacant(s, 0), s.len());
            let t = inserted(s, p);
            &&& t.len() == s.len()
            &&& r == -1 <==> (forall|k: int| 0 <= k < s.len() ==> !(#[trigger] s[k]).vacant())
            &&& r == -1 ==> t == s
            &&& r != -1 ==> {
                &&& 0 <= r < s.len()
                &&& s[r as int].vacant()
                &&& t[r as int] == p
                &&& forall|k: int| 0 <= k < s.len() && k != r ==> t[k] == s[k]
            }
        }),
{
    lemma_first(s, Seq::empty(), 0);
}

/// What was inserted is found by its measurement, where no entry in an earlier
/// place has the same one.
pub proof fn law_insert_then_find<T: StoreTrait>(s: Seq<T>, p: T, index: Seq<u8>)
    requires
        s.len() <= i64::MAX,
        first_vacant(s, 0) < s.len(),
        !p.vacant(),
        p.measures(index),
        forall|k: int|
            0 <= k < first_vacant(s, 0) ==> (#[trigger] s[k]).vacant() || !s[k].measures(index),
    ensures
        first_measured(inserted(s, p), index, 0) == first_vacant(s, 0),
{
    lemma_first(s, index, 0);
    let t = inserted(s, p);
    lemma_first(t, index, 0);
    let f = first_measured(t, index, 0);
    let v = first_vacant(s, 0);
    assert(t[v as int] == p);
    if f < v {
        assert(t[f as int] == s[f as int]);
    }
    if f > v {
        assert(t[v as int].vacant() || !t[v as int].measures(index));
    }
}

/// An emptied entry is found no more, whatever its measurement.
pub proof fn law_emptied_is_not_found<T: StoreTrait>(s: Seq<T>, i: int, index: Seq<u8>)
    requires
        0 <= i < s.len(),
    ensures
        first_measured(s.update(i, s[i].emptied()), index, 0) != i,
{
    s[i].emptied_is_vacant();
    lemma_first(s.update(i, s[i].emptied()), index, 0);
}

} // verus!
