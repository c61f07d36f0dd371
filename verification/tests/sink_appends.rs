use chunkstore::sink::UploadSink;

#[test]
fn appends_lay_out_bytes_in_call_order() {
    let mut sink = UploadSink::create();
    let mut first = vec![1, 2, 3];
    let mut second = vec![4, 5];
    sink.append(&mut first);
    sink.flush();
    sink.append(&mut second);
    sink.flush();
    assert_eq!(sink.into_bytes(), vec![1, 2, 3, 4, 5]);
}

#[test]
fn a_fresh_sink_is_empty() {
    let sink = UploadSink::create();
    assert_eq!(sink.into_bytes(), Vec::<u8>::new());
}
