use dynamic_list::{size_of_val, Array, CapacityError, Element, Shape};

#[test]
fn array_works_1() {
    let list = Array::new(4).push(u32::MAX - 1);

    let list = list.unwrap();
    assert_eq!(list.forward().value::<u32>(), u32::MAX - 1);
    assert_eq!(list.backward().value::<u32>(), u32::MAX - 1);
    assert_eq!(list.len(), 1);
}

#[test]
fn array_works_n() {
    let list = Array::new(7)
        .push(1i32)
        .unwrap()
        .push(2u16)
        .unwrap()
        .push(true)
        .unwrap();

    assert_eq!(list.forward().next().next().value::<bool>(), true);
    assert_eq!(list.backward().prev().prev().value::<i32>(), 1);
    assert_eq!(list.len(), 3);
}

#[test]
fn array_test_macro() {
    let capacity = size_of_val(&1_i32) + size_of_val(&2_u16) + size_of_val(&3_u64) + size_of_val(&true);
    assert_eq!(capacity, 15);
    let list_1 = Array::new(capacity)
        .push(1_i32)
        .unwrap()
        .push(2_u16)
        .unwrap()
        .push(3_u64)
        .unwrap()
        .push(true)
        .unwrap();

    let test = list_1.forward();
    assert_eq!(0, test.index());
    assert_eq!(1, test.value::<i32>());
}

#[test]
fn mod_works_1() {
    let list = Array::new(4).push(10).unwrap();

    assert_eq!(list.forward().value::<i32>(), 10);
    assert_eq!(list.backward().value::<i32>(), 10);
    assert_eq!(list.forward().index(), 0);
}

#[test]
fn array_mod_works_n() {
    let list = Array::new(28)
        .push(1)
        .unwrap()
        .push(-2i64)
        .unwrap()
        .push(3u64)
        .unwrap();

    assert_eq!(list.forward().next().next().value::<u64>(), 3);
    assert_eq!(list.backward().prev().prev().value::<i32>(), 1);
    assert_eq!(list.forward().next().value::<i64>(), -2);
    assert_eq!(list.backward().index(), 12);
    assert_eq!(list.memory_size(), 20);
    assert_eq!(list.capacity(), 28);
}

#[test]
fn array_mod_test_macro() {
    let list = Array::new(size_of_val(&1) + size_of_val(&2u8) + size_of_val(&false))
        .push(1)
        .unwrap()
        .push(2u8)
        .unwrap()
        .push(false)
        .unwrap();

    let test = list.forward();
    assert_eq!(0, test.index());
    assert_eq!(1, test.value::<i32>());
    assert_eq!(list.memory_size(), list.capacity());
}

#[test]
fn exact_fit_succeeds_one_byte_more_fails() {
    let full = Array::new(7).push(1u32).unwrap().push(2u16).unwrap().push(3u8);
    assert!(full.is_ok());
    let full = full.unwrap();
    assert_eq!(full.memory_size(), 7);
    assert_eq!(full.push(0u8).err(), Some(CapacityError { size: 1, free: 0 }));

    let over = Array::new(6).push(1u32).unwrap().push(2u16).unwrap().push(3u8);
    assert_eq!(over.err(), Some(CapacityError { size: 1, free: 0 }));
}

#[test]
fn four_byte_array_takes_one_four_byte_value() {
    let array = Array::new(4).push(0xdead_beef_u32);
    assert!(array.is_ok());
    let array = array.unwrap();
    assert_eq!(array.forward().value::<u32>(), 0xdead_beef);
    let fifth = array.push(7u8);
    assert_eq!(fifth.err(), Some(CapacityError { size: 1, free: 0 }));
}

#[test]
fn too_wide_for_what_is_left() {
    let array = Array::new(5).push(9u16).unwrap();
    assert_eq!(array.push(1u32).err(), Some(CapacityError { size: 4, free: 3 }));
    let empty = Array::new(0);
    assert!(empty.is_empty());
    assert_eq!(empty.push(true).err(), Some(CapacityError { size: 1, free: 0 }));
}

#[test]
fn values_read_back_equal() {
    let array = Array::new(1 + 2 + 4 + 8 + 1 + 2 + 4 + 8 + 1)
        .push(u8::MAX)
        .unwrap()
        .push(0x1234u16)
        .unwrap()
        .push(0x89ab_cdefu32)
        .unwrap()
        .push(u64::MAX - 5)
        .unwrap()
        .push(i8::MIN)
        .unwrap()
        .push(-300i16)
        .unwrap()
        .push(i32::MIN + 1)
        .unwrap()
        .push(-1i64)
        .unwrap()
        .push(true)
        .unwrap();
    let c = array.forward();
    assert_eq!(c.value::<u8>(), u8::MAX);
    let c = c.next();
    assert_eq!(c.value::<u16>(), 0x1234);
    let c = c.next();
    assert_eq!(c.value::<u32>(), 0x89ab_cdef);
    let c = c.next();
    assert_eq!(c.value::<u64>(), u64::MAX - 5);
    let c = c.next();
    assert_eq!(c.value::<i8>(), i8::MIN);
    let c = c.next();
    assert_eq!(c.value::<i16>(), -300);
    let c = c.next();
    assert_eq!(c.value::<i32>(), i32::MIN + 1);
    let c = c.next();
    assert_eq!(c.value::<i64>(), -1);
    let c = c.next();
    assert_eq!(c.value::<bool>(), true);
    assert_eq!(c.index(), 30);
    assert_eq!(c.next().index(), 31);
}

#[test]
fn cursors_walk_both_ways() {
    let array = Array::new(16).push(5u8).unwrap().push(6u32).unwrap().push(7u16).unwrap();
    let back = array.backward();
    assert_eq!(back.index(), 5);
    assert_eq!(back.value::<u16>(), 7);
    let mid = back.prev();
    assert_eq!(mid.index(), 1);
    assert_eq!(mid.value::<u32>(), 6);
    assert_eq!(mid.next().value::<u16>(), 7);
    let front = mid.forward();
    assert_eq!(front.value::<u8>(), 5);
    assert_eq!(front.backward().value::<u16>(), 7);
    assert_eq!(array.forward().next().next().next().index(), 7);
}

#[test]
fn empty_array_cursors() {
    let array = Array::new(3);
    assert_eq!(array.len(), 0);
    assert_eq!(array.forward().index(), 0);
    assert_eq!(array.backward().index(), 0);
    assert_eq!(array.memory_size(), 0);
    assert_eq!(array.capacity(), 3);
}

#[test]
fn shape_offsets() {
    let mut shape = Shape::new();
    assert!(shape.is_empty());
    assert_eq!(shape.memory_size(), 0);
    assert_eq!(shape.offset(0), 0);
    shape.push(4);
    shape.push(1);
    shape.push(8);
    assert_eq!(shape.len(), 3);
    assert_eq!(shape.memory_size(), 13);
    assert_eq!(shape.size(1), 1);
    assert_eq!(shape.offset(0), 0);
    assert_eq!(shape.offset(1), 4);
    assert_eq!(shape.offset(2), 5);
    assert_eq!(shape.offset(3), 13);
    assert_eq!(shape.back_offset(0), 9);
    assert_eq!(shape.back_offset(1), 8);
    assert_eq!(shape.back_offset(2), 0);
}

#[test]
fn array_shape_follows_pushes() {
    let array = Array::new(10).push(1u16).unwrap().push(2u64).unwrap();
    let shape = array.shape();
    assert_eq!(shape.len(), 2);
    assert_eq!(shape.size(0), 2);
    assert_eq!(shape.size(1), 8);
    assert_eq!(shape.back_offset(0), 8);
}

#[test]
fn encodings_are_little_endian() {
    assert_eq!(0xabu8.encode(), vec![0xab]);
    assert_eq!(0x0102u16.encode(), vec![0x02, 0x01]);
    assert_eq!(0x0102_0304u32.encode(), vec![4, 3, 2, 1]);
    assert_eq!(0x0102_0304_0506_0708u64.encode(), vec![8, 7, 6, 5, 4, 3, 2, 1]);
    assert_eq!((-1i8).encode(), vec![0xff]);
    assert_eq!((-2i16).encode(), vec![0xfe, 0xff]);
    assert_eq!((-3i32).encode(), vec![0xfd, 0xff, 0xff, 0xff]);
    assert_eq!(i64::MIN.encode(), vec![0, 0, 0, 0, 0, 0, 0, 0x80]);
    assert_eq!(true.encode(), vec![1]);
    assert_eq!(false.encode(), vec![0]);
}

#[test]
fn decode_reads_at_offset() {
    let data = vec![9, 0x34, 0x12, 0xfe, 0xff, 0xff, 0xff, 2];
    assert_eq!(u16::decode(&data, 1), 0x1234);
    assert_eq!(i32::decode(&data, 3), -2);
    assert_eq!(u8::decode(&data, 7), 2);
    assert_eq!(bool::decode(&data, 7), true);
    assert_eq!(bool::decode(&vec![0], 0), false);
    assert_eq!(<u32 as Element>::size(), 4);
    assert_eq!(size_of_val(&0i64), 8);
    assert_eq!(size_of_val(&false), 1);
}
