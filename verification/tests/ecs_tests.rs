#![allow(non_snake_case)]

use std::any::TypeId;
use std::cell::RefCell;
use std::rc::Rc;

use minecraft_gl::ecs::componentAllocator;
use minecraft_gl::ecs::componentAllocator::ComponentAllocator;
use minecraft_gl::ecs::componentIdMaker::ComponentIdMaker;
use minecraft_gl::ecs::componentManager::ComponentManager;
use minecraft_gl::ecs::entity::Entity;
use minecraft_gl::ecs::entityComponentSystem::{EntityComponentSystem, Error};
use minecraft_gl::ecs::entityManager::{EntityDoesNotExist, EntityManager};
use minecraft_gl::ecs::layerManager::LayerManager;
use minecraft_gl::ecs::opaqueComponentAllocator;
use minecraft_gl::ecs::opaqueComponentAllocator::OpaqueComponentAllocator;
use minecraft_gl::ecs::signature::{Signature, SignatureBuilder};
use minecraft_gl::ecs::systemManager::{SignatureStep, System, SystemManager};
use minecraft_gl::ecs::typeIdMaker::TypeIdMaker;

struct Position;
struct Velocity;

#[test]
fn type_id_maker_hands_out_indices_in_order() {
    let mut maker = TypeIdMaker::New();
    assert!(!maker.HasTypeBeenRegistered::<Position>());
    assert_eq!(maker.GetTypeId::<Position>(), 0);
    assert_eq!(maker.GetTypeId::<Velocity>(), 1);
    assert_eq!(maker.GetTypeId::<Position>(), 0);
    assert!(maker.HasTypeBeenRegistered::<Velocity>());
}

#[test]
fn type_id_maker_registering_twice_is_once() {
    let mut maker = TypeIdMaker::New();
    maker.RegisterType::<Position>();
    maker.RegisterType::<Position>();
    maker.RegisterType::<Velocity>();
    assert_eq!(maker.GetIndexOfTypeId(TypeId::of::<Position>()), 0);
    assert_eq!(maker.GetIndexOfTypeId(TypeId::of::<Velocity>()), 1);
    assert_eq!(maker.IndexOfTypeId(&TypeId::of::<u64>()), None);
    assert!(maker.HasTypeIdBeenRegistered(&TypeId::of::<Velocity>()));
}

#[test]
fn component_id_maker_gives_stable_ids() {
    let mut maker = ComponentIdMaker::New();
    assert_eq!(maker.GetComponentId::<Velocity>(), 0);
    assert_eq!(maker.GetComponentId::<Position>(), 1);
    assert_eq!(maker.GetComponentId::<Velocity>(), 0);
}

#[test]
fn signatures_compare_by_component_types() {
    let mut maker = TypeIdMaker::New();
    let a = SignatureBuilder::New(&mut maker).AddComponent::<Position>().AddComponent::<Velocity>().Build();
    let b = SignatureBuilder::New(&mut maker).AddComponent::<Velocity>().AddComponent::<Position>().Build();
    assert!(a == b);
    let mut c = b.Duplicate();
    c.RemoveComponent::<Velocity>(&mut maker);
    assert!(!(a == c));
    c.AddComponent::<Velocity>(&mut maker);
    assert!(a == c);
    let mut d: Signature = c.Duplicate();
    d.AddComponentId(40);
    d.RemoveComponentId(40);
    assert!(d == a);
}

#[test]
fn component_allocator_reads_back_what_it_stores() {
    let mut alloc = ComponentAllocator::<u32>::New("u32");
    assert_eq!(alloc.GetComponentTypeName(), "u32");
    assert_eq!(alloc.AllocateComponent(Entity { id: 3 }, 30), Ok(()));
    assert_eq!(alloc.AllocateComponent(Entity { id: 5 }, 50), Ok(()));
    assert_eq!(*alloc.GetComponent(Entity { id: 3 }).unwrap(), 30);
    *alloc.GetComponent(Entity { id: 5 }).unwrap() = 55;
    assert_eq!(*alloc.GetComponent(Entity { id: 5 }).unwrap(), 55);
}

#[test]
fn component_allocator_errors() {
    let mut alloc = ComponentAllocator::<u32>::New("u32");
    assert_eq!(alloc.AllocateComponent(Entity { id: 1 }, 1), Ok(()));
    assert_eq!(alloc.AllocateComponent(Entity { id: 1 }, 2), Err(componentAllocator::Error::ComponentAlreadyAllocated));
    assert_eq!(*alloc.GetComponent(Entity { id: 1 }).unwrap(), 1);
    assert_eq!(alloc.GetComponent(Entity { id: 9 }).err(), Some(componentAllocator::Error::EntityNotFound));
    assert_eq!(alloc.FreeComponent(Entity { id: 9 }), Err(componentAllocator::Error::EntityNotFound));
}

#[test]
fn component_allocator_is_full_at_its_limit() {
    let mut alloc = ComponentAllocator::<u8>::New("u8");
    for i in 0..5128usize {
        assert_eq!(alloc.AllocateComponent(Entity { id: i }, 0), Ok(()));
    }
    assert_eq!(
        alloc.AllocateComponent(Entity { id: 6000 }, 0),
        Err(componentAllocator::Error::MaximumComponentsExceeded)
    );
}

#[test]
fn component_allocator_free_moves_the_last_into_the_hole() {
    let mut alloc = ComponentAllocator::<u32>::New("u32");
    alloc.AllocateComponent(Entity { id: 1 }, 10).unwrap();
    alloc.AllocateComponent(Entity { id: 2 }, 20).unwrap();
    alloc.AllocateComponent(Entity { id: 3 }, 30).unwrap();
    assert_eq!(alloc.FreeComponent(Entity { id: 1 }), Ok(()));
    assert_eq!(alloc.GetComponent(Entity { id: 1 }).err(), Some(componentAllocator::Error::EntityNotFound));
    assert_eq!(*alloc.GetComponent(Entity { id: 2 }).unwrap(), 20);
    assert_eq!(*alloc.GetComponent(Entity { id: 3 }).unwrap(), 30);
    assert_eq!(alloc.FreeComponent(Entity { id: 3 }), Ok(()));
    assert_eq!(*alloc.GetComponent(Entity { id: 2 }).unwrap(), 20);
}

#[test]
fn opaque_component_allocator_round_trip() {
    let mut alloc = OpaqueComponentAllocator::<String>::New("name");
    assert_eq!(alloc.GetComponentTypeName(), "name");
    assert_eq!(alloc.AllocateComponent(Entity { id: 4 }, "four".to_string()), Ok(()));
    assert_eq!(alloc.AllocateComponent(Entity { id: 7 }, "seven".to_string()), Ok(()));
    assert!(alloc.HasComponent(Entity { id: 4 }));
    assert_eq!(
        alloc.AllocateComponent(Entity { id: 4 }, "again".to_string()),
        Err(opaqueComponentAllocator::Error::ComponentAlreadyAllocated)
    );
    assert_eq!(alloc.GetComponent(Entity { id: 7 }).unwrap().as_str(), "seven");
    assert_eq!(alloc.FreeComponent(Entity { id: 4 }), Ok(()));
    assert!(!alloc.HasComponent(Entity { id: 4 }));
    assert_eq!(alloc.FreeComponent(Entity { id: 4 }), Err(opaqueComponentAllocator::Error::EntityNotFound));
    assert_eq!(alloc.GetComponent(Entity { id: 7 }).unwrap().as_str(), "seven");
}

#[test]
fn entity_manager_reuses_deleted_ids_oldest_first() {
    let mut maker = TypeIdMaker::New();
    let mut manager = EntityManager::New();
    let a = manager.CreateEntity(&mut maker);
    let b = manager.CreateEntity(&mut maker);
    let c = manager.CreateEntity(&mut maker);
    let d = manager.CreateEntity(&mut maker);
    assert_eq!((a.id, b.id, c.id, d.id), (0, 1, 2, 3));
    assert_eq!(manager.DeleteEntity(b), Ok(()));
    assert_eq!(manager.DeleteEntity(a), Ok(()));
    assert!(!manager.IsEntityAlive(a));
    assert!(manager.IsEntityAlive(c));
    assert_eq!(manager.DeleteEntity(a), Err(EntityDoesNotExist));
    assert_eq!(manager.CreateEntity(&mut maker).id, 1);
    assert_eq!(manager.CreateEntity(&mut maker).id, 0);
    assert_eq!(manager.CreateEntity(&mut maker).id, 4);
}

#[test]
fn entity_manager_keeps_data_of_live_entities() {
    let mut maker = TypeIdMaker::New();
    let mut manager = EntityManager::New();
    let a = manager.CreateEntity(&mut maker);
    let b = manager.CreateEntity(&mut maker);
    manager.MutableEntityData(b).unwrap().name = "b".to_string();
    let _c = manager.CreateEntity(&mut maker);
    assert_eq!(manager.DeleteEntity(a), Ok(()));
    assert_eq!(manager.EntityData(b).unwrap().name, "b");
    assert_eq!(manager.EntityData(b).unwrap().baseEntity, b);
    assert!(manager.EntityData(a).is_err());
}

#[test]
fn layer_manager_adds_layers_once() {
    let mut layers = LayerManager::New();
    assert_eq!(layers.GetLayerCount(), 0);
    layers.AddLayer("ground");
    layers.AddLayer("sky");
    assert_eq!(layers.GetLayerCount(), 2);
    assert!(layers.HasLayer("sky"));
    assert!(!layers.HasLayer("water"));
    let mut mask = layers.GetLayerMaskFromLayer("ground");
    layers.AddLayerToMask("sky", &mut mask);
    let _both = layers.GetLayerMaskFromLayers(vec!["ground", "sky"]);
    layers.AddLayersToMask(vec!["sky"], &mut mask);
}

struct Recorder {
    signature: Signature,
    log: Rc<RefCell<Vec<String>>>,
}

impl System for Recorder {
    fn New(componentIdMaker: TypeIdMaker) -> Self {
        let mut maker = componentIdMaker;
        Recorder { signature: SignatureBuilder::New(&mut maker).Build(), log: Rc::new(RefCell::new(Vec::new())) }
    }

    fn OnEntityEnter(&mut self, entity: Entity) {
        self.log.borrow_mut().push(format!("enter {}", entity.id));
    }

    fn OnEntityExit(&mut self, entity: Entity) {
        self.log.borrow_mut().push(format!("exit {}", entity.id));
    }

    fn OnEntityDestroyed(&mut self, entity: Entity) {
        self.log.borrow_mut().push(format!("destroyed {}", entity.id));
    }

    fn GetSignature(&self) -> Signature {
        self.signature.Duplicate()
    }
}

#[test]
fn system_manager_moves_entities_between_systems() {
    let mut maker = TypeIdMaker::New();
    let moving = SignatureBuilder::New(&mut maker).AddComponent::<Velocity>().Build();
    let empty = SignatureBuilder::New(&mut maker).Build();
    let log = Rc::new(RefCell::new(Vec::new()));
    let mut systems = SystemManager::New();
    systems.RegisterSystem(Recorder { signature: moving.Duplicate(), log: log.clone() });
    assert!(systems.GetSystemOfType::<Recorder>().is_some());

    systems.OnEntityCreated(Entity { id: 0 }, empty.Duplicate());
    assert!(log.borrow().is_empty());
    systems.OnEntitySignatureChanged(Entity { id: 0 }, moving.Duplicate());
    assert_eq!(*log.borrow(), vec!["enter 0".to_string()]);
    systems.OnEntitySignatureChanged(Entity { id: 0 }, moving.Duplicate());
    assert_eq!(log.borrow().len(), 1);
    systems.OnEntitySignatureChanged(Entity { id: 0 }, empty.Duplicate());
    assert_eq!(log.borrow()[1], "exit 0");
    systems.OnEntitySignatureChanged(Entity { id: 0 }, moving.Duplicate());
    systems.OnEntityDestroyed(Entity { id: 0 }, moving.Duplicate());
    assert_eq!(log.borrow()[3], "destroyed 0");
}

#[test]
fn component_manager_reads_back_added_components() {
    let mut manager = ComponentManager::<u32>::New();
    let e0 = Entity { id: 0 };
    let e1 = Entity { id: 1 };
    assert!(!manager.HasComponent::<Position>(e0));
    assert_eq!(*manager.AddComponent::<Position>(e0, 5).unwrap(), 5);
    assert_eq!(*manager.AddComponent::<Position>(e1, 6).unwrap(), 6);
    assert_eq!(*manager.AddComponent::<Velocity>(e0, 7).unwrap(), 7);
    assert_eq!(*manager.GetComponent::<Position>(e0).unwrap(), 5);
    assert_eq!(*manager.GetComponent::<Velocity>(e0).unwrap(), 7);
    assert_eq!(
        manager.AddComponent::<Position>(e0, 9).err(),
        Some(opaqueComponentAllocator::Error::ComponentAlreadyAllocated)
    );
    assert_eq!(manager.GetComponent::<Velocity>(e1).err(), Some(opaqueComponentAllocator::Error::EntityNotFound));
    *manager.GetComponent::<Position>(e1).unwrap() = 60;
    assert_eq!(*manager.GetComponent::<Position>(e1).unwrap(), 60);
    assert_eq!(manager.RemoveComponent::<Position>(e0), Ok(()));
    assert!(!manager.HasComponent::<Position>(e0));
    assert!(manager.HasComponent::<Position>(e1));
    assert_eq!(manager.RemoveComponent::<Position>(e0), Err(opaqueComponentAllocator::Error::EntityNotFound));
}

#[test]
fn component_manager_by_type_id() {
    let mut manager = ComponentManager::<i64>::New();
    let kind = TypeId::of::<Position>();
    let e = Entity { id: 3 };
    assert_eq!(*manager.AddComponentOfType(kind, "position", e, -4).unwrap(), -4);
    assert!(manager.HasComponentOfType(kind, "position", e));
    assert_eq!(*manager.GetComponentOfType(kind, "position", e).unwrap(), -4);
    assert!(!manager.HasComponentOfType(TypeId::of::<Velocity>(), "velocity", e));
}

#[test]
fn entity_component_system_entity_lifecycle() {
    let mut ecs = EntityComponentSystem::<u32>::New();
    let a = ecs.CreateEntity().unwrap();
    let b = ecs.CreateEntity().unwrap();
    let c = ecs.CreateEntity().unwrap();
    assert_eq!((a.id, b.id, c.id), (0, 1, 2));
    ecs.SetName(a, "alpha").unwrap();
    ecs.SetTag(a, "player").unwrap();
    assert_eq!(ecs.GetName(a).unwrap(), "alpha");
    assert_eq!(ecs.GetTag(a, "ignored").unwrap(), "player");
    assert_eq!(ecs.GetParent(a).unwrap(), None);
    assert_eq!(ecs.DeleteEntity(a), Ok(()));
    assert_eq!(ecs.DeleteEntity(a), Err(Error::EntityError(EntityDoesNotExist)));
    assert_eq!(ecs.GetName(a), Err(Error::EntityError(EntityDoesNotExist)));
    assert_eq!(ecs.SetName(a, "x"), Err(Error::EntityError(EntityDoesNotExist)));
    assert_eq!(ecs.CreateEntity().unwrap().id, 0);
}

#[test]
fn entity_component_system_children() {
    let mut ecs = EntityComponentSystem::<u32>::New();
    let parent = ecs.CreateEntity().unwrap();
    let child = ecs.CreateEntity().unwrap();
    let other = ecs.CreateEntity().unwrap();
    ecs.AddChildToEntity(parent, child).unwrap();
    ecs.AddChildToEntity(parent, other).unwrap();
    ecs.AddChildToEntity(parent, child).unwrap();
    assert_eq!(*ecs.GetChildren(parent).unwrap(), vec![child, other, child]);
    ecs.RemoveChildFromEntity(parent, child).unwrap();
    assert_eq!(*ecs.GetChildren(parent).unwrap(), vec![other]);
    ecs.DeleteEntity(child).unwrap();
    assert_eq!(ecs.AddChildToEntity(parent, child), Err(Error::EntityError(EntityDoesNotExist)));
}

#[test]
fn entity_component_system_components_and_layers() {
    let mut ecs = EntityComponentSystem::<u32>::New();
    let a = ecs.CreateEntity().unwrap();
    let b = ecs.CreateEntity().unwrap();
    assert_eq!(*ecs.AddComponent::<Position>(a, 11).unwrap(), 11);
    assert_eq!(*ecs.AddComponent::<Position>(b, 12).unwrap(), 12);
    assert_eq!(*ecs.AddComponent::<Velocity>(b, 13).unwrap(), 13);
    assert_eq!(
        ecs.AddComponent::<Position>(a, 14).err(),
        Some(Error::ComponentAllocationError(opaqueComponentAllocator::Error::ComponentAlreadyAllocated))
    );
    assert_eq!(ecs.AddComponent::<Velocity>(a, 15).map(|c| *c), Ok(15));
    assert_eq!(ecs.RemoveComponent::<Velocity>(a), Ok(()));
    assert_eq!(
        ecs.RemoveComponent::<Velocity>(a),
        Err(Error::ComponentAllocationError(opaqueComponentAllocator::Error::EntityNotFound))
    );
    ecs.AddLayer("ground");
    ecs.AddLayer("sky");
    assert_eq!(ecs.AddEntityToLayer(a, "sky"), Ok(()));
    assert_eq!(ecs.AddEntityToLayers(b, vec!["ground", "sky"]), Ok(()));
}

#[test]
fn signature_step_decides_enter_and_exit() {
    let mut maker = TypeIdMaker::New();
    let moving = SignatureBuilder::New(&mut maker).AddComponent::<Velocity>().Build();
    let empty = SignatureBuilder::New(&mut maker).Build();
    assert_eq!(SignatureStep(false, &moving, &moving), (true, false));
    assert_eq!(SignatureStep(true, &moving, &moving), (false, false));
    assert_eq!(SignatureStep(true, &moving, &empty), (false, true));
    assert_eq!(SignatureStep(false, &moving, &empty), (false, false));
}

#[test]
fn opaque_component_allocator_frees_its_only_component() {
    let mut alloc = OpaqueComponentAllocator::<u32>::New("only");
    assert_eq!(alloc.AllocateComponent(Entity { id: 3 }, 30), Ok(()));
    assert_eq!(alloc.FreeComponent(Entity { id: 3 }), Ok(()));
    assert!(!alloc.HasComponent(Entity { id: 3 }));
    assert_eq!(alloc.GetComponent(Entity { id: 3 }).err(), Some(opaqueComponentAllocator::Error::EntityNotFound));
    assert_eq!(alloc.AllocateComponent(Entity { id: 5 }, 50), Ok(()));
    assert_eq!(*alloc.GetComponent(Entity { id: 5 }).unwrap(), 50);
}

#[test]
fn system_manager_tells_only_the_systems_whose_signature_matches() {
    let mut maker = TypeIdMaker::New();
    let moving = SignatureBuilder::New(&mut maker).AddComponent::<Velocity>().Build();
    let placed = SignatureBuilder::New(&mut maker).AddComponent::<Position>().Build();
    let log = Rc::new(RefCell::new(Vec::new()));
    let mut systems = SystemManager::New();
    systems.RegisterSystem(Recorder { signature: moving.Duplicate(), log: log.clone() });
    systems.RegisterSystem(Placer { signature: placed.Duplicate(), log: log.clone() });
    systems.OnEntityCreated(Entity { id: 1 }, placed.Duplicate());
    assert_eq!(*log.borrow(), vec!["placer enter 1".to_string()]);
    systems.OnEntitySignatureChanged(Entity { id: 1 }, moving.Duplicate());
    assert_eq!(
        *log.borrow(),
        vec!["placer enter 1".to_string(), "enter 1".to_string(), "placer exit 1".to_string()]
    );
}

struct Placer {
    signature: Signature,
    log: Rc<RefCell<Vec<String>>>,
}

impl System for Placer {
    fn New(componentIdMaker: TypeIdMaker) -> Self {
        let mut maker = componentIdMaker;
        Placer { signature: SignatureBuilder::New(&mut maker).Build(), log: Rc::new(RefCell::new(Vec::new())) }
    }

    fn OnEntityEnter(&mut self, entity: Entity) {
        self.log.borrow_mut().push(format!("placer enter {}", entity.id));
    }

    fn OnEntityExit(&mut self, entity: Entity) {
        self.log.borrow_mut().push(format!("placer exit {}", entity.id));
    }

    fn OnEntityDestroyed(&mut self, entity: Entity) {
        self.log.borrow_mut().push(format!("placer destroyed {}", entity.id));
    }

    fn GetSignature(&self) -> Signature {
        self.signature.Duplicate()
    }
}

#[test]
fn component_allocator_keeps_a_component_while_others_come_and_go() {
    let mut alloc = ComponentAllocator::<u32>::New("kept");
    assert_eq!(alloc.AllocateComponent(Entity { id: 2 }, 20), Ok(()));
    assert_eq!(alloc.AllocateComponent(Entity { id: 5 }, 50), Ok(()));
    assert_eq!(alloc.AllocateComponent(Entity { id: 9 }, 90), Ok(()));
    assert_eq!(alloc.FreeComponent(Entity { id: 5 }), Ok(()));
    *alloc.GetComponent(Entity { id: 9 }).unwrap() = 91;
    assert_eq!(alloc.FreeComponent(Entity { id: 9 }), Ok(()));
    assert_eq!(*alloc.GetComponent(Entity { id: 2 }).unwrap(), 20);
    assert_eq!(alloc.GetComponent(Entity { id: 4 }).err(), Some(componentAllocator::Error::EntityNotFound));
}
