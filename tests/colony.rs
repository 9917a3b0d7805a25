use packed_colony::Colony;

#[test]
fn basic() {
    let mut world = Colony::new();
    let id = world.insert(42);
    let value = world[id];
    world.remove(id);
    assert_eq!(value, 42);
    let id = world.insert(20);
    let value = world[id];
    assert_eq!(value, 20);
    let value2 = world[id];
    assert_eq!(value2, 20);
    *world.get_mut(id).unwrap() = 89;
    let value3 = world[id];
    assert_eq!(value3, 89);
}

#[test]
fn safe_api() {
    let mut world = Colony::default();
    let a = world.insert("A");
    let b = world.insert("B");
    let c = world.insert("C");
    assert_eq!(world[a], "A");
    assert_eq!(world[b], "B");
    assert_eq!(world[c], "C");
    assert_eq!(world.len(), 3);
    assert_eq!(world.get(1337), None);
    world.remove(1337);
    assert_eq!(*world.get(a).unwrap(), "A");
    world.remove(a);
    assert_eq!(world.get(a), None);
    world.remove(a);
    world.clear();
    world.clear();
}

#[test]
fn get_after_insert_holds_until_removed() {
    let mut world = Colony::new();
    let ids: Vec<usize> = (0..10u32).map(|v| world.insert(v * 7)).collect();
    for (v, id) in ids.iter().enumerate() {
        assert_eq!(world.get(*id), Some(&(v as u32 * 7)));
    }
    world.remove(ids[3]);
    world.remove(ids[9]);
    let extra = world.insert(1000);
    assert_eq!(world.get(extra), Some(&1000));
    for (v, id) in ids.iter().enumerate() {
        if v == 3 || v == 9 {
            continue;
        }
        assert_eq!(world.get(*id), Some(&(v as u32 * 7)));
    }
}

#[test]
fn remove_twice_is_remove_once() {
    let mut once = Colony::new();
    let mut twice = Colony::new();
    for v in 0..5u8 {
        once.insert(v);
        twice.insert(v);
    }
    once.remove(1);
    twice.remove(1);
    twice.remove(1);
    assert_eq!(once.as_slice(), twice.as_slice());
    assert_eq!(once.len(), 4);
    assert_eq!(twice.len(), 4);
    for id in 0..6usize {
        assert_eq!(once.get(id), twice.get(id));
    }
    assert_eq!(once.insert(9), twice.insert(9));
}

#[test]
fn remove_unknown_id_changes_nothing() {
    let mut empty: Colony<u8> = Colony::new();
    empty.remove(0);
    empty.remove(usize::MAX);
    assert_eq!(empty.len(), 0);

    let mut world = Colony::new();
    world.insert('x');
    world.insert('y');
    world.remove(2);
    world.remove(1337);
    assert_eq!(world.as_slice(), &['x', 'y']);
    assert_eq!(world.get(0), Some(&'x'));
    assert_eq!(world.get(1), Some(&'y'));
}

#[test]
fn removing_the_last_element_twice_frees_its_id_once() {
    let mut world = Colony::new();
    let a = world.insert(1);
    let b = world.insert(2);
    world.remove(b);
    world.remove(b);
    assert_eq!(world.get(b), None);
    let c = world.insert(3);
    let d = world.insert(4);
    assert_eq!(c, b);
    assert_ne!(c, d);
    assert_eq!(world.get(a), Some(&1));
    assert_eq!(world.get(c), Some(&3));
    assert_eq!(world.get(d), Some(&4));
    assert_eq!(world.len(), 3);
}

#[test]
fn buffer_stays_packed() {
    let mut world = Colony::new();
    let ids: Vec<usize> = (0..8u16).map(|v| world.insert(v)).collect();
    world.remove(ids[0]);
    world.remove(ids[4]);
    world.remove(ids[7]);
    assert_eq!(world.len(), 5);
    assert_eq!(world.as_slice().len(), 5);
    let mut seen: Vec<u16> = world.as_slice().to_vec();
    seen.sort();
    assert_eq!(seen, vec![1, 2, 3, 5, 6]);
    let mut live = 0;
    for id in 0..8usize {
        if world.get(id).is_some() {
            live += 1;
        }
    }
    assert_eq!(live, world.len());
}

#[test]
fn swap_remove_moves_last_value_into_hole() {
    let mut world = Colony::new();
    let a = world.insert('a');
    let b = world.insert('b');
    let c = world.insert('c');
    let d = world.insert('d');
    world.remove(b);
    assert_eq!(world.as_slice(), &['a', 'd', 'c']);
    assert_eq!(world[a], 'a');
    assert_eq!(world[c], 'c');
    assert_eq!(world[d], 'd');
}

#[test]
fn clear_invalidates_every_id() {
    let mut world = Colony::new();
    let ids: Vec<usize> = (0..4i32).map(|v| world.insert(v)).collect();
    world.remove(ids[2]);
    world.clear();
    assert_eq!(world.len(), 0);
    for id in ids {
        assert_eq!(world.get(id), None);
    }
    assert_eq!(world.insert(5), 0);
    assert_eq!(world.insert(6), 1);
}

#[test]
fn reused_id_reads_new_value() {
    let mut world = Colony::new();
    let a = world.insert(42);
    world.remove(a);
    let b = world.insert(20);
    assert_eq!(world.get(b), Some(&20));
    assert_eq!(a, b);
    assert_eq!(world.get(a), Some(&20));
}

#[test]
fn three_strings_then_remove_first() {
    let mut world = Colony::new();
    let a = world.insert("A");
    let b = world.insert("B");
    let c = world.insert("C");
    assert_eq!(world.len(), 3);
    assert_eq!(world.get(1337), None);
    world.remove(1337);
    assert_eq!(world.len(), 3);
    world.remove(a);
    assert_eq!(world.get(a), None);
    assert_eq!(world.get(b), Some(&"B"));
    assert_eq!(world.get(c), Some(&"C"));
    assert_eq!(world.len(), 2);
}

#[test]
fn get_mut_changes_only_its_value() {
    let mut world = Colony::new();
    let a = world.insert(1);
    let b = world.insert(2);
    *world.get_mut(b).unwrap() += 40;
    assert_eq!(world.get(a), Some(&1));
    assert_eq!(world.get(b), Some(&42));
    assert!(world.get_mut(7).is_none());
}

#[test]
fn slices_and_iteration() {
    let mut world = Colony::with_capacity(16);
    for v in 1..5u32 {
        world.insert(v);
    }
    for v in world.as_mut_slice() {
        *v *= 10;
    }
    assert_eq!(world.as_slice(), &[10, 20, 30, 40]);
    assert_eq!(world[2], 30);
    let total: u32 = world.iter().sum();
    assert_eq!(total, 100);
    (*world)[0] = 11;
    assert_eq!(world.get(0), Some(&11));
    let all: Vec<u32> = world.into_iter().collect();
    assert_eq!(all, vec![11, 20, 30, 40]);
}

#[test]
fn agrees_with_a_map_over_mixed_operations() {
    let mut colony = Colony::default();
    let mut values = std::collections::HashMap::new();
    let mut seed: u32 = 12345;
    for _ in 0..2000 {
        seed = seed.wrapping_mul(1103515245).wrapping_add(12345);
        let pick = (seed >> 16) as usize;
        if pick % 3 != 0 {
            let value = (pick % 256) as u8;
            let id = colony.insert(value);
            assert!(values.insert(id, value).is_none());
        } else {
            let id = pick % 64;
            if let Some(value) = values.remove(&id) {
                assert_eq!(colony.get(id), Some(&value));
            }
            colony.remove(id);
            assert_eq!(colony.get(id), None);
        }
        assert_eq!(colony.len(), values.len());
    }
    for (id, value) in values {
        assert_eq!(colony.get(id), Some(&value));
    }
}
