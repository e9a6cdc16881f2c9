#![allow(non_snake_case)]

use minecraft_gl::util::opaqueVector::OpaqueVector;

#[test]
fn SimpleTest() {
    let mut vec = OpaqueVector::<i32>::New(1);

    vec.Push(1);
    assert_eq!(*vec.Get(0), 1);
    assert_eq!(vec.GetLength(), 1);
    assert_eq!(vec.GetCapacity(), 1);

    vec.Push(2);
    assert_eq!(*vec.Get(1), 2);
    assert_eq!(vec.GetLength(), 2);
    assert_eq!(vec.GetCapacity(), 2);
}

#[derive(PartialEq, Eq, Debug)]
struct Testing(i32);

impl Drop for Testing {
    fn drop(&mut self) {
        println!("Dropped!")
    }
}

#[test]
fn DropTest() {
    let mut vec = OpaqueVector::<Testing>::New(1);

    vec.Push(Testing(1));
    assert_eq!(vec.GetLength(), 1);
    assert_eq!(vec.GetCapacity(), 1);

    for _ in 0..3 {
        vec.Push(Testing(1));
    }

    let _t = vec.Pop();
    let _x = vec.Pop();
    vec.DropElements();
}

#[test]
fn opaque_vector_pop_gives_back_the_pushed_element() {
    let mut vec = OpaqueVector::<i32>::New(4);
    vec.Push(7);
    vec.Push(8);
    vec.Push(9);
    assert_eq!(vec.Pop(), 9);
    assert_eq!(vec.GetLength(), 2);
    assert_eq!(*vec.Get(0), 7);
    assert_eq!(*vec.Get(1), 8);
}

#[test]
fn opaque_vector_grows_by_half_rounded_up() {
    let mut vec = OpaqueVector::<u8>::New(1);
    let expected = [1usize, 2, 3, 5, 5, 8, 8, 8, 12];
    for (i, cap) in expected.iter().enumerate() {
        vec.Push(i as u8);
        assert_eq!(vec.GetCapacity(), *cap);
        assert_eq!(vec.GetLength(), i + 1);
    }
}

#[test]
fn opaque_vector_shrinks_to_fit_when_half_empty() {
    let mut vec = OpaqueVector::<u8>::New(4);
    vec.Push(0);
    assert_eq!(vec.GetCapacity(), 1);
    for i in 1..4 {
        vec.Push(i);
    }
    assert_eq!(vec.GetCapacity(), 5);
    vec.Pop();
    assert_eq!(vec.GetCapacity(), 5);
    vec.Pop();
    assert_eq!(vec.GetCapacity(), 2);
    assert_eq!(vec.GetLength(), 2);
}

#[test]
fn opaque_vector_get_changes_in_place() {
    let mut vec = OpaqueVector::<i32>::New(2);
    vec.Push(1);
    vec.Push(2);
    *vec.Get(0) = 10;
    assert_eq!(*vec.Get(0), 10);
    assert_eq!(*vec.Get(1), 2);
}

#[test]
fn opaque_vector_drop_elements_keeps_length_and_capacity() {
    let mut vec = OpaqueVector::<i32>::New(3);
    vec.Push(1);
    vec.Push(2);
    assert_eq!(vec.GetCapacity(), 2);
    vec.DropElements();
    assert_eq!(vec.GetLength(), 2);
    assert_eq!(vec.GetCapacity(), 2);
    vec.Push(3);
    assert_eq!(vec.GetLength(), 3);
    assert_eq!(vec.GetCapacity(), 3);
    assert_eq!(*vec.Get(2), 3);
    assert_eq!(vec.Pop(), 3);
    assert_eq!(vec.GetLength(), 2);
}
