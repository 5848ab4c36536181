use string_map::StringMap;

fn load_factor<T>(h: &StringMap<T>) -> f64 {
    let (occupied, capacity) = h.load();
    occupied as f64 / capacity as f64
}

#[test]
fn test_load() {
    let mut h: StringMap<u32> = StringMap::new(5);

    assert!(h.set("hello", 5));
    assert_eq!(load_factor(&h), 0.2);

    h.set("world", 6);
    assert_eq!(load_factor(&h), 0.4);

    h.set("hello", 7);
    assert_eq!(load_factor(&h), 0.4);

    h.delete("hello");
    assert_eq!(load_factor(&h), 0.2);
}

#[test]
fn test_overload() {
    let mut h: StringMap<u32> = StringMap::new(1);

    assert!(h.set("hello", 1));

    for i in 0..10 {
        assert!(!h.set(&i.to_string(), i));
        assert!(1.0 == load_factor(&h));
    }
}

#[test]
fn test_get_set() {
    let mut h: StringMap<u32> = StringMap::new(100);

    assert!(h.get("Not Found").is_none());

    if h.set("hello", 5) {
        assert_eq!(h.get("hello").unwrap(), &5);
    }
    if h.set("world", 100) {
        assert_eq!(h.get("world").unwrap(), &100);
    }
    if h.set("hello", 0) {
        assert_eq!(h.get("hello").unwrap(), &0);
    }
}

#[test]
fn test_everything() {
    let mut h: StringMap<u32> = StringMap::new(100);
    let mut count = 0;

    for i in 0..100 {
        let key = i.to_string();
        if h.set(&key, i) {
            assert_eq!(h.get(&key).unwrap(), &i);
            count += 1;
        }

        assert_eq!(count as f64 / 100.0, load_factor(&h));
    }

    for i in 0..100 {
        h.delete(&i.to_string());
        assert!(h.get(&i.to_string()).is_none());
    }

    assert_eq!(0.0, load_factor(&h));
}

#[test]
fn round_trip_after_accepted_set() {
    let mut h: StringMap<String> = StringMap::new(7);
    assert!(h.set("key", String::from("value")));
    assert_eq!(h.get("key").unwrap(), "value");
}

#[test]
fn overwrite_keeps_load_and_returns_new_value() {
    let mut h: StringMap<u32> = StringMap::new(3);
    assert!(h.set("k", 1));
    let before = h.load();
    assert!(h.set("k", 2));
    assert_eq!(h.load(), before);
    assert_eq!(h.get("k").unwrap(), &2);
}

#[test]
fn collision_rejection_keeps_first_occupant() {
    let mut h: StringMap<u32> = StringMap::new(1);
    assert!(h.set("hello", 1));
    for i in 0..10 {
        assert!(!h.set(&i.to_string(), i));
        assert!(h.get(&i.to_string()).is_none());
        assert_eq!(h.get("hello").unwrap(), &1);
    }
}

#[test]
fn delete_decrements_load_once() {
    let mut h: StringMap<u32> = StringMap::new(4);
    assert!(h.set("a", 1));
    let (occupied_before, capacity) = h.load();
    assert_eq!(capacity, 4);
    h.delete("a");
    let (occupied_after, _) = h.load();
    assert_eq!(occupied_after, occupied_before - 1);
    assert!(h.get("a").is_none());

    // Deleting the same key again hits an already-empty slot: no change.
    h.delete("a");
    let (occupied_again, _) = h.load();
    assert_eq!(occupied_again, occupied_after);
}

#[test]
fn delete_is_index_targeted_not_key_verified() {
    // At capacity 1 every key shares the single slot, so deleting an
    // absent key erases the unrelated occupant.
    let mut h: StringMap<u32> = StringMap::new(1);
    assert!(h.set("hello", 1));
    h.delete("unrelated");
    assert!(h.get("hello").is_none());
    assert_eq!(h.load(), (0, 1));
}

#[test]
fn get_mut_rewrites_value_in_place() {
    let mut h: StringMap<u32> = StringMap::new(8);
    assert!(h.set("counter", 10));
    let (occupied, _) = h.load();
    if let Some(value) = h.get_mut("counter") {
        *value += 1;
    } else {
        panic!("key just inserted is gone");
    }
    assert_eq!(h.get("counter").unwrap(), &11);
    assert_eq!(h.load().0, occupied);
}

#[test]
fn get_mut_misses_like_get() {
    let mut h: StringMap<u32> = StringMap::new(8);
    assert!(h.get_mut("absent").is_none());
    assert!(h.set("present", 1));
    assert_eq!(h.get_mut("present").unwrap(), &mut 1);
}

#[test]
fn empty_key_is_an_ordinary_key() {
    let mut h: StringMap<u32> = StringMap::new(2);
    assert!(h.set("", 42));
    assert_eq!(h.get("").unwrap(), &42);
    h.delete("");
    assert!(h.get("").is_none());
}

#[test]
fn zero_capacity_table_rejects_everything() {
    let mut h: StringMap<u32> = StringMap::new(0);
    assert_eq!(h.load(), (0, 0));
    assert!(!h.set("k", 1));
    assert!(h.get("k").is_none());
    assert!(h.get_mut("k").is_none());
    h.delete("k");
    assert_eq!(h.load(), (0, 0));
}
