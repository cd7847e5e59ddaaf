use crate::hashing::{fnv1a_spec, GlobalHashMethod, HashMethod, Hashable};
use vstd::std_specs::cmp::PartialEqSpec;
use vstd::string::StringSliceAdditionalSpecFns;
use vstd::prelude::*;

mod dynarray_iter;

pub use dynarray_iter::DynArrayIter;

verus! {

/// Smallest capacity a growing array jumps to.
pub const MIN_CAP: usize = 16;

/// Factor by which a full array of at least `MIN_CAP` slots grows.
pub const GROW_FACTOR: usize = 2;

/// The capacity an array of capacity `cap` grows to when it is full.
/// Allocation never fails in this model (as with `Vec`), so a capacity that cannot be
/// doubled within `usize` stays at `usize::MAX`.
pub open spec fn spec_next_growth_capacity(cap: usize) -> usize {
    if cap < MIN_CAP {
        MIN_CAP
    } else if cap <= usize::MAX / 2 {
        (cap * GROW_FACTOR) as usize
    } else {
        usize::MAX
    }
}

/// A growable array with an explicit capacity and an optional value that marks
/// unused slots.
#[derive(Debug)]
pub struct DynArray<T> {
    data: Vec<T>,
    capacity: usize,
    init_value: Option<T>,
}

impl<T> View for DynArray<T> {
    type V = Seq<T>;

    /// The elements of the array, in order.
    closed spec fn view(&self) -> Seq<T> {
        self.data@
    }
}

impl<T> DynArray<T> {
    /// The number of slots the array holds without growing.
    pub closed spec fn spec_capacity(&self) -> usize {
        self.capacity
    }

    /// The value copied into fresh slots, if the array was made with one.
    pub closed spec fn spec_init_value(&self) -> Option<T> {
        self.init_value
    }

    pub fn new() -> (a: Self)
        ensures
            a@ == Seq::<T>::empty(),
            a.spec_capacity() == 0,
            a.spec_init_value() is None,
    {
        Self { data: Vec::new(), capacity: 0, init_value: None }
    }

    pub fn new_with_cap(cap: usize) -> (a: Self)
        ensures
            a@ == Seq::<T>::empty(),
            a.spec_capacity() == cap,
            a.spec_init_value() is None,
    {
        let mut me = Self::new();
        if cap > 0 {
            me.grow_array_to(cap);
        }
        me
    }

    pub fn get_count(&self) -> (n: usize)
        ensures
            n == self@.len(),
    {
        self.data.len()
    }

    pub fn get_capacity(&self) -> (n: usize)
        ensures
            n == self.spec_capacity(),
    {
        self.capacity
    }

    pub fn next_growth_capacity(&self) -> (n: usize)
        ensures
            n == spec_next_growth_capacity(self.spec_capacity()),
    {
        if self.capacity < MIN_CAP {
            MIN_CAP
        } else if self.capacity <= usize::MAX / 2 {
            self.capacity * GROW_FACTOR
        } else {
            usize::MAX
        }
    }

    /// Records `to` as the capacity; the elements stay as they are.
    fn grow_array_to(&mut self, to: usize)
        ensures
            final(self)@ == old(self)@,
            final(self).spec_capacity() == to,
            final(self).spec_init_value() == old(self).spec_init_value(),
    {
        self.capacity = to;
    }

    pub fn grow_array(&mut self)
        ensures
            final(self)@ == old(self)@,
            final(self).spec_capacity() == spec_next_growth_capacity(old(self).spec_capacity()),
            final(self).spec_init_value() == old(self).spec_init_value(),
    {
        let to = self.next_growth_capacity();
        self.grow_array_to(to);
    }

    /// Inserts `val` at `index`, shifting the later elements one place up. An array without
    /// room for one more element first grows to hold exactly one more.
    pub fn insert(&mut self, index: usize, val: T)
        requires
            index <= old(self)@.len(),
            old(self)@.len() < usize::MAX,
        ensures
            final(self)@ == old(self)@.insert(index as int, val),
            final(self).spec_capacity() == (if old(self).spec_capacity() < old(self)@.len() + 1 {
                (old(self)@.len() + 1) as usize
            } else {
                old(self).spec_capacity()
            }),
            final(self)@.len() <= final(self).spec_capacity(),
            final(self).spec_init_value() == old(self).spec_init_value(),
    {
        let count = self.data.len();
        if self.capacity < count + 1 {
            self.grow_array_to(count + 1);
        }
        self.data.insert(index, val);
    }

    pub fn push(&mut self, val: T)
        ensures
            final(self)@ == old(self)@.push(val),
            final(self).spec_capacity() == (if old(self)@.len() < old(self).spec_capacity() {
                old(self).spec_capacity()
            } else {
                spec_next_growth_capacity(old(self).spec_capacity())
            }),
            final(self).spec_init_value() == old(self).spec_init_value(),
    {
        if self.data.len() >= self.capacity {
            self.grow_array();
        }
        self.data.push(val);
    }

    pub fn get(&self, index: usize) -> (r: &T)
        requires
            index < self@.len(),
        ensures
            *r == self@[index as int],
    {
        &self.data[index]
    }

    pub fn get_mut(&mut self, index: usize) -> (r: &mut T)
        requires
            index < old(self)@.len(),
        ensures
            *r == old(self)@[index as int],
            final(self)@ == old(self)@.update(index as int, *final(r)),
            final(self).spec_capacity() == old(self).spec_capacity(),
            final(self).spec_init_value() == old(self).spec_init_value(),
    {
        &mut self.data[index]
    }

    /// Replaces the element at `index` by `new_val`, dropping the old one.
    pub fn replace(&mut self, index: usize, new_val: T)
        requires
            index < old(self)@.len(),
        ensures
            final(self)@ == old(self)@.update(index as int, new_val),
            final(self).spec_capacity() == old(self).spec_capacity(),
            final(self).spec_init_value() == old(self).spec_init_value(),
    {
        self.data.set(index, new_val);
    }

    pub fn as_slice(&self) -> (s: &[T])
        ensures
            s@ == self@,
    {
        self.data.as_slice()
    }

    pub fn as_mut_slice(&mut self) -> (s: &mut [T])
        ensures
            s@ == old(self)@,
            final(s)@ == final(self)@,
            final(self).spec_capacity() == old(self).spec_capacity(),
            final(self).spec_init_value() == old(self).spec_init_value(),
    {
        self.data.as_mut_slice()
    }

    /// The elements of the array, from the first to the last.
    pub fn iter(&self) -> (s: &[T])
        ensures
            s@ == self@,
    {
        self.data.as_slice()
    }

    /// The elements of the array, from the first to the last, for in-place changes.
    pub fn iter_mut(&mut self) -> (s: &mut [T])
        ensures
            s@ == old(self)@,
            final(s)@ == final(self)@,
            final(self).spec_capacity() == old(self).spec_capacity(),
            final(self).spec_init_value() == old(self).spec_init_value(),
    {
        self.data.as_mut_slice()
    }

    /// Removes and returns the element at `index`, shifting the later elements down.
    pub fn remove_at(&mut self, index: usize) -> (v: T)
        requires
            index < old(self)@.len(),
        ensures
            v == old(self)@[index as int],
            final(self)@ == old(self)@.remove(index as int),
            final(self).spec_capacity() == old(self).spec_capacity(),
            final(self).spec_init_value() == old(self).spec_init_value(),
    {
        self.data.remove(index)
    }

    pub fn pop(&mut self) -> (v: T)
        requires
            old(self)@.len() > 0,
        ensures
            v == old(self)@.last(),
            final(self)@ == old(self)@.drop_last(),
            final(self).spec_capacity() == old(self).spec_capacity(),
            final(self).spec_init_value() == old(self).spec_init_value(),
    {
        let n = self.get_count();
        let v = self.remove_at(n - 1);
        assert(old(self)@.remove(n - 1) =~= old(self)@.drop_last());
        v
    }

    /// Removes the first element on which `predicate` answers `true`.
    pub fn remove_predicate<F: Fn(&T) -> bool>(&mut self, predicate: F) -> (r: Result<T, &'static str>)
        requires
            forall|x: &T| #[trigger] predicate.requires((x,)),
        ensures
            final(self).spec_capacity() == old(self).spec_capacity(),
            final(self).spec_init_value() == old(self).spec_init_value(),
            match r {
                Ok(v) => exists|i: int|
                    0 <= i < old(self)@.len() && v == old(self)@[i] && final(self)@ == old(
                        self,
                    )@.remove(i) && predicate.ensures((&old(self)@[i],), true) && (forall|j: int|
                        0 <= j < i ==> #[trigger] predicate.ensures((&old(self)@[j],), false)),
                Err(e) => final(self)@ == old(self)@ && e@ == "No element found!"@ && (forall|
                    j: int,
                |
                    0 <= j < old(self)@.len() ==> #[trigger] predicate.ensures(
                        (&old(self)@[j],),
                        false,
                    )),
            },
    {
        let mut i: usize = 0;
        while i < self.data.len()
            invariant
                self@ == old(self)@,
                self.capacity == old(self).capacity,
                self.init_value == old(self).init_value,
                0 <= i <= self@.len(),
                forall|x: &T| #[trigger] predicate.requires((x,)),
                forall|j: int| 0 <= j < i ==> #[trigger] predicate.ensures((&old(self)@[j],), false),
            decreases self@.len() - i,
        {
            let found = predicate(&self.data[i]);
            if found {
                let v = self.remove_at(i);
                return Ok(v);
            }
            i = i + 1;
        }
        proof {
            reveal_strlit("No element found!");
        }
        Err("No element found!")
    }

    /// Consumes the array into an iterator over its elements.
    pub fn into_iter(self) -> (it: DynArrayIter<T>)
        ensures
            it@ == self@,
    {
        DynArrayIter::new(self)
    }
}

impl<T: PartialEq> DynArray<T> {
    /// Removes the first element equal to `val`.
    pub fn remove_value(&mut self, val: T) -> (r: Result<T, &'static str>)
        requires
            T::obeys_eq_spec(),
        ensures
            final(self).spec_capacity() == old(self).spec_capacity(),
            final(self).spec_init_value() == old(self).spec_init_value(),
            match r {
                Ok(v) => exists|i: int|
                    0 <= i < old(self)@.len() && v == old(self)@[i] && final(self)@ == old(
                        self,
                    )@.remove(i) && val.eq_spec(&old(self)@[i]) && (forall|j: int|
                        0 <= j < i ==> !val.eq_spec(#[trigger] &old(self)@[j])),
                Err(e) => final(self)@ == old(self)@ && e@ == "No element found!"@ && (forall|
                    j: int,
                |
                    0 <= j < old(self)@.len() ==> !val.eq_spec(#[trigger] &old(self)@[j])),
            },
    {
        let mut i: usize = 0;
        while i < self.data.len()
            invariant
                self@ == old(self)@,
                self.capacity == old(self).capacity,
                self.init_value == old(self).init_value,
                0 <= i <= self@.len(),
                T::obeys_eq_spec(),
                forall|j: int| 0 <= j < i ==> !val.eq_spec(#[trigger] &old(self)@[j]),
            decreases self@.len() - i,
        {
            if val == self.data[i] {
                let v = self.remove_at(i);
                return Ok(v);
            }
            i = i + 1;
        }
        proof {
            reveal_strlit("No element found!");
        }
        Err("No element found!")
    }
}

impl<T: Copy> DynArray<T> {
    /// Appends copies of the given values.
    pub fn push_ptr(&mut self, vals: &[T])
        requires
            old(self)@.len() + vals@.len() <= usize::MAX,
        ensures
            final(self)@ == old(self)@ + vals@,
            final(self).spec_capacity() == (if old(self).spec_capacity() < old(self)@.len()
                + vals@.len() {
                (old(self)@.len() + vals@.len()) as usize
            } else {
                old(self).spec_capacity()
            }),
            final(self).spec_init_value() == old(self).spec_init_value(),
    {
        let len = self.data.len();
        if self.capacity < len + vals.len() {
            self.grow_array_to(len + vals.len());
        }
        let mut i: usize = 0;
        while i < vals.len()
            invariant
                0 <= i <= vals@.len(),
                self@ == old(self)@ + vals@.subrange(0, i as int),
                self.capacity == (if old(self).capacity < old(self)@.len() + vals@.len() {
                    (old(self)@.len() + vals@.len()) as int
                } else {
                    old(self).capacity as int
                }),
                self.init_value == old(self).init_value,
            decreases vals@.len() - i,
        {
            self.data.push(vals[i]);
            assert(vals@.subrange(0, i + 1) =~= vals@.subrange(0, i as int).push(vals@[i as int]));
            i = i + 1;
        }
        assert(vals@.subrange(0, vals@.len() as int) =~= vals@);
    }

    /// Appends copies of the elements of `other`; an empty `other` leaves the array as it is.
    pub fn push_array(&mut self, other: &DynArray<T>)
        requires
            old(self)@.len() + other@.len() <= usize::MAX,
        ensures
            final(self)@ == old(self)@ + other@,
            other@.len() == 0 ==> *final(self) == *old(self),
            other@.len() > 0 ==> final(self).spec_capacity() == (if old(self).spec_capacity() < old(self)@.len()
                + other@.len() {
                (old(self)@.len() + other@.len()) as usize
            } else {
                old(self).spec_capacity()
            }),
            final(self).spec_init_value() == old(self).spec_init_value(),
    {
        if other.data.len() == 0 {
            assert(old(self)@ + other@ =~= old(self)@);
            return;
        }
        self.push_ptr(other.data.as_slice());
    }

    /// A copy of the element at `index`.
    pub fn copy_read(&self, index: usize) -> (v: T)
        requires
            index < self@.len(),
        ensures
            v == self@[index as int],
    {
        self.data[index]
    }
}

impl<T: Clone> DynArray<T> {
    pub fn new_with_init(init_value: T) -> (a: Self)
        ensures
            a@ == Seq::<T>::empty(),
            a.spec_capacity() == 0,
            a.spec_init_value() == Some(init_value),
    {
        Self { data: Vec::new(), capacity: 0, init_value: Some(init_value) }
    }

    pub fn new_with_cap_and_init(cap: usize, init_value: T) -> (a: Self)
        ensures
            a@ == Seq::<T>::empty(),
            a.spec_capacity() == cap,
            a.spec_init_value() == Some(init_value),
    {
        let mut me = Self::new_with_init(init_value);
        me.grow_array_to(cap);
        me
    }
}

impl DynArray<u8> {
    /// An array holding the UTF-8 bytes of `s`.
    pub fn from_str(s: &str) -> (a: Self)
        ensures
            a@ == s.spec_bytes(),
            a.spec_capacity() == s.spec_bytes().len(),
            a.spec_init_value() is None,
    {
        let bytes = s.as_bytes();
        let mut me = Self::new_with_cap(bytes.len());
        me.push_ptr(bytes);
        me
    }
}

impl PartialEq for DynArray<u8> {
    /// Two byte arrays compare equal when their hashes are equal.
    fn eq(&self, other: &Self) -> (r: bool) {
        self.get_hash() == other.get_hash()
    }
}

impl vstd::std_specs::cmp::PartialEqSpecImpl for DynArray<u8> {
    open spec fn obeys_eq_spec() -> bool {
        true
    }

    open spec fn eq_spec(&self, other: &Self) -> bool {
        self.spec_hash() == other.spec_hash()
    }
}

impl Hashable for DynArray<u8> {
    /// The hash of the bytes; an array that never had room for any (capacity 0) hashes to 0.
    open spec fn spec_hash(&self) -> u32 {
        if self.spec_capacity() == 0 {
            0
        } else {
            fnv1a_spec(self@)
        }
    }

    fn get_hash(&self) -> (h: u32) {
        if self.capacity == 0 {
            return 0;
        }
        GlobalHashMethod::hash(self.data.as_slice())
    }
}

} // verus!
