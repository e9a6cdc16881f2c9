#![allow(non_snake_case)]

use minecraft_gl::registry::{Entity, Pool, Registry, INVALID_ID, PAGE_SIZE};

#[test]
fn pool_adds_finds_and_removes_components() {
    let mut pool = Pool::<String>::New();
    let a = Entity { ID: 3 };
    let b = Entity { ID: 250 };
    let c = Entity { ID: 104 };
    assert!(!pool.HasComponent(a));
    pool.AddComponent(a, "a".to_string());
    pool.AddComponent(b, "b".to_string());
    pool.AddComponent(c, "c".to_string());
    assert!(pool.HasComponent(a) && pool.HasComponent(b) && pool.HasComponent(c));
    assert!(!pool.HasComponent(Entity { ID: 4 }));
    assert!(!pool.HasComponent(Entity { ID: 100_000 }));
    assert_eq!(pool.GetComponent(b), "b");
    pool.GetComponentMut(b).push('!');
    assert_eq!(pool.GetComponent(b), "b!");
    pool.RemoveComponent(a);
    assert!(!pool.HasComponent(a));
    assert_eq!(pool.GetComponent(b), "b!");
    assert_eq!(pool.GetComponent(c), "c");
}

#[test]
fn pool_remove_undoes_add() {
    let mut pool = Pool::<u32>::New();
    pool.AddComponent(Entity { ID: 1 }, 10);
    pool.AddComponent(Entity { ID: 2 }, 20);
    pool.RemoveComponent(Entity { ID: 2 });
    assert!(pool.HasComponent(Entity { ID: 1 }));
    assert!(!pool.HasComponent(Entity { ID: 2 }));
    assert_eq!(*pool.GetComponent(Entity { ID: 1 }), 10);
    pool.AddComponent(Entity { ID: 2 }, 21);
    assert_eq!(*pool.GetComponent(Entity { ID: 2 }), 21);
}

#[test]
fn pool_pages_hold_a_hundred_slots() {
    assert_eq!(PAGE_SIZE, 100);
    assert_eq!(INVALID_ID, usize::MAX);
    let mut pool = Pool::<u8>::New();
    pool.AddComponent(Entity { ID: 99 }, 1);
    pool.AddComponent(Entity { ID: 100 }, 2);
    pool.AddComponent(Entity { ID: 0 }, 3);
    assert_eq!(*pool.GetComponent(Entity { ID: 99 }), 1);
    assert_eq!(*pool.GetComponent(Entity { ID: 100 }), 2);
    assert_eq!(*pool.GetComponent(Entity { ID: 0 }), 3);
    pool.RemoveComponent(Entity { ID: 99 });
    assert_eq!(*pool.GetComponent(Entity { ID: 100 }), 2);
    assert_eq!(*pool.GetComponent(Entity { ID: 0 }), 3);
}

#[test]
fn registry_keeps_one_pool_per_kind() {
    let mut registry = Registry::<i32>::New();
    let e = Entity { ID: 7 };
    assert!(!registry.HasComponent(0, e));
    registry.AddComponent(2, e, -1);
    registry.AddComponent(0, e, 5);
    assert!(registry.HasComponent(2, e));
    assert!(registry.HasComponent(0, e));
    assert!(!registry.HasComponent(1, e));
    assert!(!registry.HasComponent(9, e));
    assert_eq!(*registry.GetComponent(2, e), -1);
    *registry.GetComponentMut(0, e) += 1;
    assert_eq!(*registry.GetComponent(0, e), 6);
    registry.RemoveComponent(2, e);
    assert!(!registry.HasComponent(2, e));
    assert!(registry.HasComponent(0, e));
}

#[test]
fn pool_keeps_a_component_while_others_come_and_go() {
    let mut pool = Pool::<u32>::New();
    let kept = Entity { ID: 7 };
    pool.AddComponent(kept, 70);
    for id in [1usize, 120, 3, 999] {
        pool.AddComponent(Entity { ID: id }, id as u32);
    }
    pool.RemoveComponent(Entity { ID: 1 });
    *pool.GetComponentMut(Entity { ID: 120 }) = 5;
    pool.RemoveComponent(Entity { ID: 999 });
    assert_eq!(*pool.GetComponent(kept), 70);
    assert!(!pool.HasComponent(Entity { ID: 1 }));
    assert!(!pool.HasComponent(Entity { ID: 8 }));
}
