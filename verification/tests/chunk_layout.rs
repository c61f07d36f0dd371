use chunkstore::chunks::{descriptors_of, read_chunk, ByteSource};

fn patterned(len: usize) -> Vec<u8> {
    let mut v = Vec::with_capacity(len);
    let mut i = 0usize;
    while i < len {
        v.push((i % 251) as u8);
        i += 1;
    }
    v
}

#[test]
fn three_descriptors_for_two_and_a_half_megabytes() {
    let descs = descriptors_of(2_500_000, 1_000_000);
    assert_eq!(descs.len(), 3);
    assert_eq!(descs[0].index, 0);
    assert_eq!(descs[0].byte_offset, 0);
    assert_eq!(descs[0].byte_length, 1_000_000);
    assert_eq!(descs[1].index, 1);
    assert_eq!(descs[1].byte_offset, 1_000_000);
    assert_eq!(descs[1].byte_length, 1_000_000);
    assert_eq!(descs[2].index, 2);
    assert_eq!(descs[2].byte_offset, 2_000_000);
    assert_eq!(descs[2].byte_length, 500_000);
}

#[test]
fn empty_source_has_no_descriptors() {
    let descs = descriptors_of(0, 1_000_000);
    assert_eq!(descs.len(), 0);
}

#[test]
fn exact_multiple_keeps_full_last_chunk() {
    let descs = descriptors_of(4_000_000, 1_000_000);
    assert_eq!(descs.len(), 4);
    assert_eq!(descs[3].byte_offset, 3_000_000);
    assert_eq!(descs[3].byte_length, 1_000_000);
}

#[test]
fn one_byte_short_of_chunk_size_is_one_chunk() {
    let descs = descriptors_of(999_999, 1_000_000);
    assert_eq!(descs.len(), 1);
    assert_eq!(descs[0].byte_offset, 0);
    assert_eq!(descs[0].byte_length, 999_999);
}

#[test]
fn slice_clamps_limit_to_length() {
    let source = ByteSource::new(vec![10, 20, 30, 40, 50]);
    assert_eq!(source.length(), 5);
    let r = source.slice(3, 100);
    assert_eq!(r, vec![40, 50]);
}

#[test]
fn slice_at_or_past_end_is_empty() {
    let source = ByteSource::new(vec![10, 20, 30]);
    assert_eq!(source.slice(3, 10), Vec::<u8>::new());
    assert_eq!(source.slice(7, 10), Vec::<u8>::new());
}

#[test]
fn read_chunk_yields_the_descriptor_range() {
    let data = patterned(2500);
    let source = ByteSource::new(data.clone());
    let descs = descriptors_of(2500, 1000);
    assert_eq!(descs.len(), 3);
    let middle = read_chunk(&source, &descs[1]);
    assert_eq!(middle, data[1000..2000].to_vec());
    let last = read_chunk(&source, &descs[2]);
    assert_eq!(last, data[2000..2500].to_vec());
}
