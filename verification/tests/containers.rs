use std::collections::HashMap;
use std::mem::size_of;

use heap_size::containers::{
    arena, arena_map, arena_map_with, boxed, hash_map, hash_map_with, hash_set, hash_table_bytes,
    index_entries_bytes, index_map, index_map_with, inline_vec_bytes, slice, small_vec, thin_vec_bytes,
    FxIndexMap, InlineVec,
};
use heap_size::weight::{plus, times, total};
use la_arena::{Arena, ArenaMap, Idx, RawIdx};
use rustc_hash::{FxHashMap, FxHashSet};
use smallvec::SmallVec;
use thin_vec::ThinVec;

#[test]
fn counts_add_up_or_do_not_fit() {
    assert_eq!(plus(Some(2), Some(3)), Some(5));
    assert_eq!(plus(Some(usize::MAX), Some(1)), None);
    assert_eq!(plus(None, Some(1)), None);
    assert_eq!(times(3, 4), Some(12));
    assert_eq!(times(usize::MAX, 2), None);
    assert_eq!(times(usize::MAX, 0), Some(0));
    assert_eq!(total(&[]), Some(0));
    assert_eq!(total(&[Some(1), Some(2), Some(3)]), Some(6));
    assert_eq!(total(&[Some(usize::MAX), Some(1)]), None);
    assert_eq!(total(&[None, Some(0)]), None);
}

#[test]
fn an_arena_weighs_its_length() {
    let mut values: Arena<u64> = Arena::with_capacity(100);
    assert_eq!(arena(&values), Some(0));
    for i in 0..5 {
        values.alloc(i);
    }
    assert_eq!(arena(&values), Some(5 * size_of::<u64>()));
}

fn idx(n: u32) -> Idx<u8> {
    Idx::from_raw(RawIdx::from_u32(n))
}

#[test]
fn an_arena_map_weighs_its_occupied_slots() {
    let mut map: ArenaMap<Idx<u8>, u32> = ArenaMap::new();
    assert_eq!(arena_map(&map), Some(0));
    map.insert(idx(0), 7);
    map.insert(idx(9), 8);
    assert_eq!(arena_map(&map), Some(2 * size_of::<Option<u32>>()));
    assert_eq!(
        arena_map_with(&map, |value: &u32| Some(*value as usize)),
        Some(2 * size_of::<Option<u32>>() + 15)
    );
    assert_eq!(arena_map_with(&map, |_: &u32| Some(usize::MAX)), None);
    assert_eq!(arena_map_with(&map, |_: &u32| Some(0)), arena_map(&map));
}

#[test]
fn a_hash_map_weighs_its_capacity() {
    let mut map: FxHashMap<u64, u8> = FxHashMap::default();
    assert_eq!(hash_map(&map), Some(0));
    for i in 0..10 {
        map.insert(i, i as u8);
    }
    let table = map.capacity() * (size_of::<(u64, u8)>() + 1);
    assert_eq!(hash_map(&map), Some(table));
    assert!(hash_map(&map).unwrap() >= map.len() * (size_of::<(u64, u8)>() + 1));
    assert_eq!(hash_map_with(&map, |value: &u8| Some(*value as usize)), Some(table + 45));
    assert_eq!(hash_map_with(&map, |_: &u8| None), None);
    assert_eq!(hash_map_with(&map, |_: &u8| Some(0)), hash_map(&map));
    assert_eq!(hash_map_with(&map, |_: &u8| Some(1)), Some(table + map.len()));
    let plain: HashMap<u64, u8> = HashMap::with_capacity(30);
    assert_eq!(hash_map(&plain), Some(plain.capacity() * (size_of::<(u64, u8)>() + 1)));
    assert_eq!(hash_table_bytes(7, 16), Some(119));
    assert_eq!(hash_table_bytes(0, usize::MAX), Some(0));
    assert_eq!(hash_table_bytes(2, usize::MAX), None);
}

#[test]
fn a_hash_set_weighs_its_capacity() {
    let mut set: FxHashSet<u32> = FxHashSet::default();
    set.insert(1);
    assert_eq!(hash_set(&set), Some(set.capacity() * 5));
    assert!(hash_set(&set).unwrap() >= 5);
    let map: HashMap<u32, ()> = HashMap::with_capacity(set.capacity());
    assert_eq!(map.capacity(), set.capacity());
    assert_eq!(hash_set(&set), hash_map(&map));
}

#[test]
fn an_index_map_weighs_its_entries() {
    let mut map: FxIndexMap<u32, Vec<u8>> = FxIndexMap::default();
    assert_eq!(index_map(&map), Some(0));
    map.insert(1, vec![1, 2, 3]);
    map.insert(2, vec![4]);
    let entries = map.capacity() * (size_of::<usize>() + 4 + size_of::<Vec<u8>>());
    assert_eq!(index_map(&map), Some(entries));
    assert_eq!(
        index_map_with(&map, |value: &Vec<u8>| Some(value.len())),
        Some(entries + 4)
    );
    assert!(entries >= map.len() * (size_of::<usize>() + 4 + size_of::<Vec<u8>>()));
    assert_eq!(index_map_with(&map, |_: &Vec<u8>| Some(0)), index_map(&map));
    assert_eq!(index_map_with(&map, |_: &Vec<u8>| Some(1)), Some(entries + map.len()));
    assert_eq!(index_entries_bytes(3, 4, 5), Some(3 * (size_of::<usize>() + 9)));
    assert_eq!(index_entries_bytes(usize::MAX, 1, 1), None);
}

#[test]
fn slices_and_vectors() {
    assert_eq!(slice(&[1u16, 2, 3]), Some(6));
    assert_eq!(slice::<u16>(&[]), Some(0));
    let (front, back) = [1u16, 2, 3].split_at(1);
    assert_eq!(slice(front).unwrap() + slice(back).unwrap(), 6);
    assert_eq!(slice(&[(); 9]), Some(0));
    let mut items: Vec<u16> = Vec::with_capacity(10);
    items.push(1);
    assert_eq!(heap_size::containers::vec(&items), Some(items.capacity() * 2));
    assert!(heap_size::containers::vec(&items) >= Some(20));
    let units: Vec<()> = vec![(); 3];
    assert_eq!(heap_size::containers::vec(&units), Some(0));
}

#[test]
fn a_small_vector_weighs_nothing_until_it_spills() {
    let mut items: SmallVec<[u32; 2]> = SmallVec::new();
    items.push(1);
    items.push(2);
    assert_eq!(small_vec(&InlineVec(items.clone())), Some(0));
    items.push(3);
    let capacity = items.capacity();
    assert!(capacity > 2);
    assert_eq!(small_vec(&InlineVec(items)), Some(capacity * 4));
    let units: SmallVec<[(); 1]> = SmallVec::from_elem((), 5);
    assert_eq!(small_vec(&InlineVec(units)), Some(0));
    assert_eq!(inline_vec_bytes(true, 6, 4), Some(24));
    assert_eq!(inline_vec_bytes(false, 6, 4), Some(0));
    assert_eq!(inline_vec_bytes(true, usize::MAX, 4), None);
}

#[test]
fn an_empty_thin_vector_weighs_nothing() {
    let mut items: ThinVec<u64> = ThinVec::new();
    assert_eq!(heap_size::containers::thin_vec(&items), Some(0));
    items.push(1);
    assert_eq!(heap_size::containers::thin_vec(&items), Some(items.capacity() * 8));
    assert!(heap_size::containers::thin_vec(&items) >= Some(8));
    items.clear();
    assert!(items.capacity() > 0);
    assert_eq!(heap_size::containers::thin_vec(&items), Some(0));
    let reserved: ThinVec<u32> = ThinVec::with_capacity(4);
    assert_eq!(heap_size::containers::thin_vec(&reserved), Some(0));
    let mut units: ThinVec<()> = ThinVec::new();
    units.push(());
    assert_eq!(heap_size::containers::thin_vec(&units), Some(0));
    assert_eq!(thin_vec_bytes(true, 4, 8), Some(0));
    assert_eq!(thin_vec_bytes(false, 4, 8), Some(32));
    assert_eq!(thin_vec_bytes(false, usize::MAX, 8), None);
}

#[test]
fn a_box_weighs_its_value_and_what_that_owns() {
    let none: Option<Box<[u8; 6]>> = None;
    assert_eq!(boxed(&none, |_: &[u8; 6]| Some(9)), Some(0));
    assert_eq!(boxed(&Some(Box::new([0u8; 6])), |_: &[u8; 6]| Some(9)), Some(15));
    assert_eq!(boxed(&Some(Box::new([0u8; 6])), |_: &[u8; 6]| None), None);
}

#[test]
fn an_absent_box_asks_nothing_of_its_closure() {
    let none: Option<Box<u64>> = None;
    assert_eq!(boxed(&none, |_: &u64| panic!("there is no value to weigh")), Some(0));
    let empty: ArenaMap<Idx<u8>, u32> = ArenaMap::new();
    assert_eq!(arena_map_with(&empty, |_: &u32| panic!("there is no value to weigh")), Some(0));
}
