//! Descriptors of tensors, bytes, and records of memory.

use pliron_tensor::bytes::{
    find_byte_order, push_word, read_uint, read_word, write_uint, ByteOrder,
};
use pliron_tensor::tensor::attributes::CastSignednessAttr;
use pliron_tensor::tensor::runtime_utils::TensorDesciptor;
use pliron_tensor::tensor::tracked_tmm::{tracked_dealloc, tracked_malloc, TrackedTMM};
use pliron_tensor::text::{make_decimal, read_digits};

fn native_byte_order() -> ByteOrder {
    if 1u16.to_ne_bytes() == [1, 0] {
        ByteOrder::Little
    } else {
        ByteOrder::Big
    }
}

#[test]
fn a_new_descriptor_is_row_major() {
    let desc = TensorDesciptor::new(vec![2, 3, 4], 8, 0x1000);
    assert_eq!(desc.allocated_ptr(), 0x1000);
    assert_eq!(desc.aligned_ptr(), 0x1000);
    assert_eq!(desc.offset(), 0);
    assert_eq!(desc.rank(), 3);
    assert_eq!(desc.sizes(), [2, 3, 4]);
    assert_eq!(desc.strides(), [12, 4, 1]);
    assert_eq!(desc.elem_size(), 8);
    assert_eq!(desc.num_elements(), 24);
    assert_eq!(desc.total_size_in_bytes(), 192);
    for linear in 0..24 {
        let index = desc.delinearize_index(linear);
        assert_eq!(index, [linear / 12, linear / 4 % 3, linear % 4]);
        assert_eq!(desc.strided_offset(&index), linear);
    }
}

#[test]
fn a_descriptor_is_written_word_by_word() {
    let desc = TensorDesciptor::new(vec![2, 3], 8, 0x1000);
    let words: Vec<usize> = desc
        .build_ir_descriptor()
        .chunks(8)
        .map(|bytes| usize::from_ne_bytes(bytes.try_into().unwrap()))
        .collect();
    assert_eq!(words, [0x1000, 0x1000, 0, 2, 3, 3, 1]);
}

#[test]
fn a_descriptor_is_read_as_it_was_written() {
    for order in [ByteOrder::Little, ByteOrder::Big] {
        let mut bytes = Vec::new();
        for word in [0x2000, 0x2040, 5, 2, 3, 10, 2] {
            push_word(&mut bytes, word, order);
        }
        let desc = TensorDesciptor::from_ir_descriptor_ordered(&bytes, 2, 4, order);
        assert_eq!(desc.allocated_ptr(), 0x2000);
        assert_eq!(desc.aligned_ptr(), 0x2040);
        assert_eq!(desc.offset(), 5);
        assert_eq!(desc.sizes(), [2, 3]);
        assert_eq!(desc.strides(), [10, 2]);
        assert_eq!(desc.strided_offset(&[1, 2]), 19);
        assert_eq!(desc.build_ir_descriptor_ordered(order), bytes);
    }
    let desc = TensorDesciptor::new(vec![4], 1, 0x3000);
    let again = TensorDesciptor::from_ir_descriptor(&desc.build_ir_descriptor(), 1, 1);
    assert_eq!(again.aligned_ptr(), 0x3000);
    assert_eq!(again.sizes(), [4]);
    assert_eq!(again.strides(), [1]);
}

#[test]
fn elements_are_copied_along_the_strides() {
    let mut bytes = Vec::new();
    // A 2x3 view with the offset 1, and the strides 6 and 2.
    for word in [0, 0, 1, 2, 3, 6, 2] {
        push_word(&mut bytes, word, ByteOrder::Little);
    }
    let desc = TensorDesciptor::from_ir_descriptor_ordered(&bytes, 2, 4, ByteOrder::Little);
    let mut memory: Vec<i32> = (0..12).collect();
    let mut data = vec![99];
    desc.copy_to_vec(&memory, &mut data);
    assert_eq!(data, [1, 3, 5, 7, 9, 11]);

    desc.copy_from_slice(&[10, 30, 50, 70, 90, 110], &mut memory);
    assert_eq!(memory, [0, 10, 2, 30, 4, 50, 6, 70, 8, 90, 10, 110]);
    desc.copy_to_vec(&memory, &mut data);
    assert_eq!(data, [10, 30, 50, 70, 90, 110]);
}

#[test]
fn words_and_numbers_as_bytes() {
    let native = native_byte_order();
    let mut bytes = vec![7];
    push_word(&mut bytes, 0x0102, native);
    assert_eq!(bytes[1..], 0x0102usize.to_ne_bytes());
    assert_eq!(read_word(&bytes, 1, native), 0x0102);

    assert_eq!(write_uint(0x0a0b0c, 3, ByteOrder::Little), [0x0c, 0x0b, 0x0a]);
    assert_eq!(write_uint(0x0a0b0c, 3, ByteOrder::Big), [0x0a, 0x0b, 0x0c]);
    assert_eq!(read_uint(&[0x0c, 0x0b, 0x0a], ByteOrder::Little), 0x0a0b0c);
    assert_eq!(read_uint(&[0x0a, 0x0b, 0x0c], ByteOrder::Big), 0x0a0b0c);
}

#[test]
fn decimal_numbers() {
    for (n, text) in [(0, "0"), (7, "7"), (10, "10"), (4096, "4096")] {
        let digits = make_decimal(n);
        assert_eq!(digits.iter().collect::<String>(), text);
        assert_eq!(read_digits(&digits, 0, digits.len(), usize::MAX), Some(n));
    }
    let digits = make_decimal(usize::MAX);
    assert_eq!(digits.iter().collect::<String>(), usize::MAX.to_string());
    assert_eq!(read_digits(&['2', '5', '6'], 0, 3, 255), None);
    assert_eq!(read_digits(&['2', '5', '6'], 1, 3, 255), Some(56));
}

#[test]
fn what_is_allocated_and_not_freed_is_recorded() {
    let mut tmm = TrackedTMM::new();
    assert_eq!(tracked_malloc(&mut tmm, 16), 16);
    assert_eq!(tracked_malloc(&mut tmm, 32), 32);
    assert_eq!(tracked_malloc(&mut tmm, 48), 48);
    assert_eq!(tracked_dealloc(&mut tmm, 32), 32);
    assert_eq!(tracked_dealloc(&mut tmm, 99), 99);
    assert_eq!(tmm.tracked_allocations().len(), 2);
    assert!(tmm.tracked_allocations().contains(&16));
    assert!(!tmm.tracked_allocations().contains(&32));
    let mut freed = tmm.free_all();
    freed.sort();
    assert_eq!(freed, [16, 48]);
    assert!(tmm.tracked_allocations().is_empty());
    assert!(tmm.free_all().is_empty());
}

#[test]
fn casts_are_unsigned_by_default() {
    let signedness = CastSignednessAttr::default();
    assert!(!signedness.input_is_signed);
    assert!(!signedness.result_is_signed);
}

#[test]
fn the_byte_order_is_found_in_the_number_one() {
    assert_eq!(find_byte_order([1, 0]), ByteOrder::Little);
    assert_eq!(find_byte_order([0, 1]), ByteOrder::Big);
    assert_eq!(find_byte_order(1u16.to_ne_bytes()), native_byte_order());
    assert_eq!(find_byte_order(1u16.to_le_bytes()), ByteOrder::Little);
    assert_eq!(find_byte_order(1u16.to_be_bytes()), ByteOrder::Big);
}

#[test]
fn a_tensor_without_dimensions_has_one_element() {
    let mut bytes = Vec::new();
    for word in [0, 0, 2] {
        push_word(&mut bytes, word, ByteOrder::Little);
    }
    let desc = TensorDesciptor::from_ir_descriptor_ordered(&bytes, 0, 8, ByteOrder::Little);
    assert_eq!(desc.num_elements(), 1);
    assert_eq!(desc.total_size_in_bytes(), 8);
    let mut memory = [1u64, 2, 3];
    let mut data = Vec::new();
    desc.copy_to_vec(&memory, &mut data);
    assert_eq!(data, [3]);
    desc.copy_from_slice(&[30], &mut memory);
    assert_eq!(memory, [1, 2, 30]);

    let words = [0u8; 3 * std::mem::size_of::<usize>()];
    let desc = TensorDesciptor::from_ir_descriptor(&words, 0, 8);
    assert_eq!(desc.num_elements(), 1);
}

#[test]
fn the_reach_of_a_tensor_holds_its_elements() {
    let describe = |words: &[usize], rank: usize| {
        let mut bytes = Vec::new();
        for word in words {
            push_word(&mut bytes, *word, ByteOrder::Little);
        }
        TensorDesciptor::from_ir_descriptor_ordered(&bytes, rank, 8, ByteOrder::Little)
    };
    assert_eq!(TensorDesciptor::new(vec![2, 3, 4], 8, 0).reach(), Some(24));
    assert_eq!(describe(&[0, 0, 5], 0).reach(), Some(6));
    assert_eq!(describe(&[0, 0, 5, 2, 3, 10, 4], 2).reach(), Some(24));
    assert_eq!(describe(&[0, 0, 5, 2, 0, 10, 4], 2).reach(), Some(0));
    assert_eq!(describe(&[0, 0, 1, 1, usize::MAX], 1).reach(), Some(2));
    assert_eq!(describe(&[0, 0, 1, 2, usize::MAX], 1).reach(), None);
    assert_eq!(describe(&[0, 0, 0, 2, usize::MAX], 1).reach(), None);
    assert_eq!(describe(&[0, 0, 0, 2, usize::MAX - 1], 1).reach(), Some(usize::MAX));
    assert_eq!(describe(&[0, 0, 0, 3, usize::MAX], 1).reach(), None);
    assert_eq!(describe(&[0, 0, 0, usize::MAX, 2, 0, 0, 1, 1], 2).reach(), None);
    assert_eq!(describe(&[0, 0, 0, usize::MAX, 2, 0, 0, 0, 0], 3).reach(), None);
}
