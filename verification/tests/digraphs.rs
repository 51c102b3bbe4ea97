use filevis::digraph::{join_bytes, vec_u8_to_u16};

#[test]
fn empty_input_gives_no_digraphs() {
    assert_eq!(vec_u8_to_u16(vec![]), Vec::<u16>::new());
}

#[test]
fn single_byte_gives_no_digraphs() {
    assert_eq!(vec_u8_to_u16(vec![0x41]), Vec::<u16>::new());
}

#[test]
fn two_bytes_give_one_digraph() {
    assert_eq!(vec_u8_to_u16(vec![0x12, 0x34]), vec![0x1234]);
}

#[test]
fn three_bytes_give_one_digraph() {
    assert_eq!(vec_u8_to_u16(vec![0x12, 0x34, 0x56]), vec![0x1234]);
}

#[test]
fn four_bytes_give_two_overlapping_digraphs() {
    assert_eq!(vec_u8_to_u16(vec![0x00, 0xFF, 0x00, 0xFF]), vec![0x00FF, 0xFF00]);
}

#[test]
fn window_covers_only_the_first_half() {
    let bytes = vec![1, 2, 3, 4, 5, 6, 7];
    assert_eq!(vec_u8_to_u16(bytes), vec![0x0102, 0x0203, 0x0304]);
}

#[test]
fn digraph_count_is_half_the_length() {
    for len in 0..40usize {
        let bytes: Vec<u8> = (0..len).map(|i| (i * 7) as u8).collect();
        let out = vec_u8_to_u16(bytes.clone());
        assert_eq!(out.len(), len / 2);
        for (i, d) in out.iter().enumerate() {
            assert_eq!(*d, ((bytes[i] as u16) << 8) | bytes[i + 1] as u16);
        }
    }
}

#[test]
fn join_puts_first_byte_high() {
    assert_eq!(join_bytes(0xAB, 0xCD), 0xABCD);
    assert_eq!(join_bytes(0x00, 0x00), 0x0000);
    assert_eq!(join_bytes(0xFF, 0xFF), 0xFFFF);
    assert_eq!(join_bytes(0x01, 0x00), 0x0100);
    assert_eq!(join_bytes(0x00, 0x01), 0x0001);
}
