use blobary::{
    hash, put_all, put_chunked, slice_chunks, BlobStore, BlobStoreError, BlobStoreOptions,
    EphemeralBlobStore, IndexedBlobStore,
};

#[test]
fn chunks_of_exact_multiples() {
    let data: Vec<u8> = (0..12u8).collect();
    let pieces = slice_chunks(&data, 4).unwrap();
    assert_eq!(pieces, vec![vec![0, 1, 2, 3], vec![4, 5, 6, 7], vec![8, 9, 10, 11]]);
}

#[test]
fn chunks_with_a_shorter_last_piece() {
    let data: Vec<u8> = (0..10u8).collect();
    let pieces = slice_chunks(&data, 4).unwrap();
    assert_eq!(pieces, vec![vec![0, 1, 2, 3], vec![4, 5, 6, 7], vec![8, 9]]);
    assert_eq!(pieces.concat(), data);
}

#[test]
fn chunks_edge_cases() {
    assert!(slice_chunks(&[], 4).unwrap().is_empty());
    assert_eq!(slice_chunks(&[1, 2, 3], 4).unwrap(), vec![vec![1, 2, 3]]);
    assert_eq!(slice_chunks(&[1, 2, 3], 3).unwrap(), vec![vec![1, 2, 3]]);
    assert_eq!(slice_chunks(&[1, 2, 3], 1).unwrap(), vec![vec![1], vec![2], vec![3]]);
    assert_eq!(slice_chunks(&[1, 2, 3], usize::MAX).unwrap(), vec![vec![1, 2, 3]]);
    assert!(matches!(slice_chunks(&[1, 2, 3], 0), Err(BlobStoreError::InvalidInput(_))));
    assert!(matches!(slice_chunks(&[], 0), Err(BlobStoreError::InvalidInput(_))));
}

#[test]
fn put_chunked_stores_each_chunk() {
    let data = b"aaaabbbbaaaacc";
    let mut store = EphemeralBlobStore::default();
    let blobs = put_chunked(&mut store, data, 4).unwrap();
    assert_eq!(blobs.len(), 4);
    assert_eq!(blobs[0].hash, hash(b"aaaa"));
    assert_eq!(blobs[1].hash, hash(b"bbbb"));
    assert_eq!(blobs[2].hash, hash(b"aaaa"));
    assert_eq!(blobs[3].hash, hash(b"cc"));
    assert_eq!(blobs.iter().map(|blob| blob.id).collect::<Vec<_>>(), vec![1, 2, 1, 3]);
    assert_eq!(blobs.iter().map(|blob| blob.size).collect::<Vec<_>>(), vec![4, 4, 4, 2]);
    assert_eq!(store.count().unwrap(), 3);
    assert_eq!(store.get_by_id(3).unwrap().unwrap().data.unwrap(), b"cc");
}

#[test]
fn put_chunked_refuses_a_zero_size() {
    let mut store = EphemeralBlobStore::default();
    assert!(matches!(put_chunked(&mut store, b"abc", 0), Err(BlobStoreError::InvalidInput(_))));
    assert_eq!(store.count().unwrap(), 0);
}

#[test]
fn put_all_stops_at_a_failure() {
    let mut store = EphemeralBlobStore::new(BlobStoreOptions::new().writable(false));
    let contents = vec![b"a".to_vec(), b"b".to_vec()];
    assert!(matches!(put_all(&mut store, &contents), Err(BlobStoreError::NotWritable)));
    let mut store = EphemeralBlobStore::default();
    let blobs = put_all(&mut store, &contents).unwrap();
    assert_eq!(blobs.len(), 2);
    assert_eq!(blobs[1].id, 2);
    assert!(put_all(&mut store, &Vec::new()).unwrap().is_empty());
}
