use veloq_runtime::io::driver::stable_slab::{StableSlab, PAGE_SIZE};

#[test]
fn test_basic_crud() {
    let mut slab = StableSlab::new();
    let k1 = slab.insert(10);
    let k2 = slab.insert(20);

    assert_eq!(slab[k1], 10);
    assert_eq!(slab[k2], 20);
    assert_eq!(slab.len(), 2);

    let v = slab.remove(k1);
    assert_eq!(v, 10);
    assert!(slab.get(k1).is_none());
    assert_eq!(slab.len(), 1);

    let k3 = slab.insert(30);
    assert_eq!(slab[k3], 30);
    assert_eq!(k3, k1);
}

#[test]
fn test_growth_and_stability() {
    let mut slab = StableSlab::new();
    let mut keys = Vec::new();

    for i in 0..PAGE_SIZE {
        keys.push(slab.insert(i));
    }

    let ptr1 = format!("{:p}", &slab[keys[0]]);

    let k_new = slab.insert(9999);
    keys.push(k_new);

    let ptr2 = format!("{:p}", &slab[keys[0]]);
    assert_eq!(ptr1, ptr2, "Address must remain stable after growth");

    for i in 0..PAGE_SIZE {
        assert_eq!(slab[keys[i]], i);
    }
    assert_eq!(slab[k_new], 9999);
}

#[test]
fn test_sparse_removal() {
    let mut slab = StableSlab::new();
    let mut keys = Vec::new();
    for i in 0..2000 {
        keys.push(slab.insert(i));
    }

    for i in (0..2000).step_by(2) {
        slab.remove(keys[i]);
    }

    assert_eq!(slab.len(), 1000);

    for i in (1..2000).step_by(2) {
        assert_eq!(slab[keys[i]], i);
    }

    for i in 0..500 {
        slab.insert(10000 + i);
    }

    assert_eq!(slab.len(), 1500);
}

#[test]
fn keys_are_lent_and_looked_up() {
    let mut slab: StableSlab<u32> = StableSlab::with_capacity(PAGE_SIZE + 1);
    assert!(slab.is_empty());
    assert_eq!(slab.page_count(), 2);
    let key = slab.insert(1);
    assert!(slab.contains(key));
    assert!(!slab.contains(key + 1));
    *slab.get_mut(key).unwrap() = 2;
    assert_eq!(slab[key], 2);
    assert!(slab.get_mut(5 * PAGE_SIZE).is_none());
    slab.reserve(2 * PAGE_SIZE);
    assert!(slab.page_count() >= 3);
    assert!(slab.has_room());
}
