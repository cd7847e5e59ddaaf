use slang::collections::{DynArray, HashTable, Stack};
use slang::hashing::{FNV1a, HashMethod, Hashable};
use slang::light_stack::LightStack;

#[test]
fn dynarray_push_get_pop() {
    let mut a: DynArray<i32> = DynArray::new();
    assert_eq!(a.get_capacity(), 0);
    a.push(1);
    assert_eq!(a.get_capacity(), 16);
    a.push(2);
    a.push(3);
    assert_eq!(a.get_count(), 3);
    assert_eq!(*a.get(1), 2);
    a.replace(1, 20);
    assert_eq!(a.copy_read(1), 20);
    assert_eq!(a.pop(), 3);
    assert_eq!(a.as_slice(), &[1, 20]);
}

#[test]
fn dynarray_grows_by_doubling() {
    let mut a: DynArray<u8> = DynArray::new_with_cap(16);
    assert_eq!(a.next_growth_capacity(), 32);
    a.grow_array();
    assert_eq!(a.get_capacity(), 32);
    let mut small: DynArray<u8> = DynArray::new_with_cap(3);
    assert_eq!(small.next_growth_capacity(), 16);
    small.grow_array();
    assert_eq!(small.get_capacity(), 16);
}

#[test]
fn dynarray_insert_and_remove() {
    let mut a: DynArray<u8> = DynArray::new();
    a.push(1);
    a.push(3);
    a.insert(1, 2);
    assert_eq!(a.as_slice(), &[1, 2, 3]);
    assert_eq!(a.remove_at(0), 1);
    assert_eq!(a.as_slice(), &[2, 3]);
    assert_eq!(a.remove_value(3), Ok(3));
    assert_eq!(a.remove_value(9), Err("No element found!"));
    assert_eq!(a.remove_predicate(|x| *x == 2), Ok(2));
    assert_eq!(a.get_count(), 0);
}

#[test]
fn dynarray_push_ptr_and_from_str() {
    let mut a = DynArray::from_str("ab");
    a.push_ptr(b"cd");
    assert_eq!(a.as_slice(), b"abcd");
    assert!(a == DynArray::from_str("abcd"));
    assert!(a != DynArray::from_str("abce"));
    let mut it = a.into_iter();
    assert_eq!(it.next(), Some(b'a'));
    assert_eq!(it.next(), Some(b'b'));
}

#[test]
fn stack_push_pop_peek() {
    let mut s: Stack<u32, 4> = Stack::new();
    s.push(1);
    s.push(2);
    s.push(3);
    assert_eq!(s.count(), 3);
    assert_eq!(*s.peek(0), 3);
    assert_eq!(*s.peek(2), 1);
    assert_eq!(s.top_offset(1), 2);
    assert_eq!(s.pop(), 3);
    s.set_at(0, 10);
    assert_eq!(s.get_at(0), 10);
    // A slot above the top is not part of the stack.
    s.set_at(3, 99);
    assert_eq!(s.count(), 2);
    let popped = s.pop_n(2);
    assert_eq!(popped, vec![10, 2]);
    assert_eq!(s.count(), 0);
    assert_eq!(s.stack_size(), 4);
}

#[test]
fn stack_iterators_walk_both_ways() {
    let mut s: Stack<u8, 8> = Stack::new();
    s.push(1);
    s.push(2);
    s.push(3);
    let mut down = s.iter();
    assert_eq!(down.next(), Some(&3));
    assert_eq!(down.next(), Some(&2));
    let mut up = s.rev_iter();
    assert_eq!(up.next(), Some(&1));
}

#[test]
fn hash_table_set_get_delete() {
    let mut t: HashTable<DynArray<u8>, i32> = HashTable::new();
    assert!(t.set(DynArray::from_str("one"), 1));
    assert!(t.set(DynArray::from_str("two"), 2));
    assert_eq!(t.count(), 2);
    assert_eq!(t.get(&DynArray::from_str("one")).map(|e| e.value), Some(1));
    assert!(!t.set(DynArray::from_str("one"), 11));
    assert_eq!(t.get(&DynArray::from_str("one")).map(|e| e.value), Some(11));
    assert_eq!(t.get_by_str::<FNV1a>("two").map(|e| e.value), Some(2));
    let removed = t.delete(DynArray::from_str("two"));
    assert_eq!(removed.map(|e| e.value), Some(2));
    assert!(t.get(&DynArray::from_str("two")).is_none());
    assert!(t.get_by_str::<FNV1a>("three").is_none());
    assert_eq!(t.get(&DynArray::from_str("one")).map(|e| e.value), Some(11));
}

#[test]
fn hash_table_holds_entries_up_to_its_load() {
    let mut t: HashTable<DynArray<u8>, usize> = HashTable::new();
    let names = ["a", "b", "c", "d", "e", "f", "g", "h", "i", "j", "k", "l"];
    for (i, name) in names.iter().enumerate() {
        assert!(t.set(DynArray::from_str(name), i));
    }
    assert_eq!(t.count(), 12);
    for (i, name) in names.iter().enumerate() {
        assert_eq!(t.get_by_str::<FNV1a>(name).map(|e| e.value), Some(i));
    }
}

#[test]
fn hash_table_growth_keeps_every_entry() {
    let mut t: HashTable<DynArray<u8>, usize> = HashTable::new();
    let names = ["a", "b", "c", "d", "e", "f", "g", "h", "i", "j", "k", "l", "m", "n", "o"];
    for (i, name) in names.iter().enumerate() {
        assert!(t.set(DynArray::from_str(name), i));
    }
    assert_eq!(t.count(), names.len());
    for (i, name) in names.iter().enumerate() {
        assert_eq!(t.get_by_str::<FNV1a>(name).map(|e| e.value), Some(i));
    }
}

#[test]
fn hash_table_reinsert_after_delete_is_new() {
    let mut t: HashTable<DynArray<u8>, i32> = HashTable::new();
    assert!(t.set(DynArray::from_str("k"), 1));
    assert!(t.delete(DynArray::from_str("k")).is_some());
    assert!(t.delete(DynArray::from_str("k")).is_none());
    assert!(t.set(DynArray::from_str("k"), 2));
    assert_eq!(t.get(&DynArray::from_str("k")).map(|e| e.value), Some(2));
}

#[test]
fn fnv1a_matches_known_values() {
    assert_eq!(FNV1a::hash(b""), 2166136261);
    assert_eq!(FNV1a::hash(b"a"), 0xe40c292c);
    assert_eq!(FNV1a::hash(b"foobar"), 0xbf9cf968);
    assert_eq!(DynArray::from_str("a").get_hash(), 0xe40c292c);
}

#[test]
fn light_stack_push_pop() {
    let mut s: LightStack<u64> = LightStack::new();
    s.init();
    assert_eq!(s.count(), 0);
    s.push(5);
    s.push(6);
    *s.get_top_mut_ref() += 1;
    assert_eq!(s.count(), 2);
    assert_eq!(s.pop(), 7);
    assert_eq!(s.pop(), 5);
    s.push(1);
    s.reset();
    assert_eq!(s.count(), 0);
}

#[test]
fn hash_table_lists_live_entries() {
    let mut t: HashTable<DynArray<u8>, i32> = HashTable::new();
    t.set(DynArray::from_str("x"), 1);
    t.set(DynArray::from_str("y"), 2);
    t.set(DynArray::from_str("z"), 3);
    t.delete(DynArray::from_str("y"));
    let mut values: Vec<i32> = t.entries().iter().map(|e| e.value).collect();
    values.sort();
    assert_eq!(values, vec![1, 3]);
}
