use chunkstore::chunks::ByteSource;
use chunkstore::pipeline::upload_with_order;

fn patterned(len: usize) -> Vec<u8> {
    let mut v = Vec::with_capacity(len);
    let mut i = 0usize;
    while i < len {
        v.push((i.wrapping_mul(31) % 251) as u8);
        i += 1;
    }
    v
}

#[test]
fn forward_order_reproduces_source() {
    let data = patterned(2500);
    let source = ByteSource::new(data.clone());
    let order = vec![0, 1, 2];
    let outcome = upload_with_order(&source, 1000, 100, &order);
    assert_eq!(outcome.data, data);
}

#[test]
fn reverse_order_reproduces_source() {
    let data = patterned(2500);
    let source = ByteSource::new(data.clone());
    let forward = upload_with_order(&source, 1000, 100, &vec![0, 1, 2]);
    let reverse = upload_with_order(&source, 1000, 100, &vec![2, 1, 0]);
    assert_eq!(reverse.data, data);
    assert_eq!(reverse.data, forward.data);
    assert_eq!(reverse.sync_log, forward.sync_log);
}

#[test]
fn out_of_order_delivery_of_large_source() {
    let data = patterned(2_500_000);
    let source = ByteSource::new(data.clone());
    let order = vec![2, 0, 1];
    let outcome = upload_with_order(&source, 1_000_000, 100, &order);
    assert_eq!(outcome.data.len(), 2_500_000);
    assert_eq!(outcome.data, data);
    // Three appends never reach a multiple of one hundred, so the only
    // sync is the forced one on the append that completes the job.
    assert_eq!(outcome.sync_log, vec![3]);
}

#[test]
fn sync_cadence_hits_every_hundred_and_the_final_append() {
    let data = patterned(250);
    let source = ByteSource::new(data.clone());
    let order: Vec<usize> = (0..250).collect();
    let outcome = upload_with_order(&source, 1, 100, &order);
    assert_eq!(outcome.data, data);
    assert_eq!(outcome.sync_log, vec![100, 200, 250]);
}

#[test]
fn single_chunk_gets_exactly_one_sync() {
    let data = patterned(250);
    let source = ByteSource::new(data.clone());
    let outcome = upload_with_order(&source, 1_000_000, 100, &vec![0]);
    assert_eq!(outcome.data, data);
    assert_eq!(outcome.sync_log, vec![1]);
}

#[test]
fn scrambled_order_reproduces_source() {
    let data = patterned(9_500);
    let source = ByteSource::new(data.clone());
    let order = vec![7, 2, 9, 0, 5, 8, 1, 4, 6, 3];
    let outcome = upload_with_order(&source, 1000, 100, &order);
    assert_eq!(outcome.data, data);
    assert_eq!(outcome.sync_log, vec![10]);
}

#[test]
fn empty_source_uploads_to_empty_object() {
    let source = ByteSource::new(Vec::new());
    let outcome = upload_with_order(&source, 1_000_000, 100, &Vec::new());
    assert_eq!(outcome.data, Vec::<u8>::new());
    assert_eq!(outcome.sync_log, Vec::<usize>::new());
}

#[test]
fn cadence_boundary_total_is_synced_once_at_the_end() {
    let data = patterned(100);
    let source = ByteSource::new(data.clone());
    let order: Vec<usize> = (0..100).collect();
    let outcome = upload_with_order(&source, 1, 100, &order);
    assert_eq!(outcome.data, data);
    // Append one hundred is both a cadence hit and the final append; the
    // sync request is recorded once.
    assert_eq!(outcome.sync_log, vec![100]);
}
