use blobary::{
    BlobStoreError, BlobStoreOptions, Filter, GzipCompressor, IoErrorKind, Lz4Compressor,
    NoopFilter,
};
use std::io::Read;

fn sample() -> Vec<u8> {
    let mut data = Vec::new();
    for i in 0..5000u32 {
        data.extend_from_slice(format!("line {} of the sample\n", i % 17).as_bytes());
    }
    data
}

#[test]
fn noop_filter_copies() {
    let mut output = b"before:".to_vec();
    assert_eq!((NoopFilter {}).encode(b"abc", &mut output).unwrap(), 3);
    assert_eq!(output, b"before:abc");
    assert_eq!((NoopFilter {}).decode(b"de", &mut output).unwrap(), 2);
    assert_eq!(output, b"before:abcde");
    assert_eq!((NoopFilter {}).encode(b"", &mut output).unwrap(), 0);
    assert_eq!(output, b"before:abcde");
}

#[test]
fn gzip_filter_round_trip() {
    let data = sample();
    let mut packed = b"head".to_vec();
    let count = (GzipCompressor {}).encode(&data, &mut packed).unwrap();
    assert_eq!(count as usize, packed.len() - 4);
    assert_eq!(&packed[..4], b"head");
    assert_eq!(&packed[4..6], &[0x1f, 0x8b]);
    assert!(packed.len() < data.len());

    let mut plain = Vec::new();
    let count = (GzipCompressor {}).decode(&packed[4..], &mut plain).unwrap();
    assert_eq!(count as usize, data.len());
    assert_eq!(plain, data);

    let mut theirs = Vec::new();
    libflate::gzip::Decoder::new(&packed[4..]).unwrap().read_to_end(&mut theirs).unwrap();
    assert_eq!(theirs, data);
}

#[test]
fn gzip_filter_refuses_what_is_no_gzip() {
    let mut output = b"kept".to_vec();
    match (GzipCompressor {}).decode(b"plainly not gzip", &mut output) {
        Err(BlobStoreError::IO(failure)) => assert_eq!(failure.kind, IoErrorKind::InvalidData),
        other => panic!("unexpected: {:?}", other),
    }
    assert_eq!(output, b"kept");
}

#[test]
fn lz4_filter_round_trip() {
    let data = sample();
    let mut packed = Vec::new();
    let count = (Lz4Compressor {}).encode(&data, &mut packed).unwrap();
    assert_eq!(count as usize, packed.len());
    assert_eq!(&packed[..4], &[0x04, 0x22, 0x4d, 0x18]);
    assert!(packed.len() < data.len());

    let mut again = Vec::new();
    (Lz4Compressor {}).encode(&data, &mut again).unwrap();
    assert_eq!(again, packed);

    let mut plain = b"x".to_vec();
    let count = (Lz4Compressor {}).decode(&packed, &mut plain).unwrap();
    assert_eq!(count as usize, data.len());
    assert_eq!(&plain[1..], &data[..]);
}

#[test]
fn lz4_filter_refuses_what_is_no_frame() {
    let mut output = Vec::new();
    assert!((Lz4Compressor {}).decode(b"plainly not an lz4 frame", &mut output).is_err());
    assert!(output.is_empty());
}

#[test]
fn options_are_built_step_by_step() {
    let options = BlobStoreOptions::new();
    assert!(options.writable);
    assert!(options.filters.is_empty());
    let options = BlobStoreOptions::default();
    assert!(options.writable);
    assert!(options.filters.is_empty());

    let options = BlobStoreOptions::new().writable(false);
    assert!(!options.writable);
    let options = options.writable(true).filter(Box::new(NoopFilter {}));
    assert!(options.writable);
    assert_eq!(options.filters.len(), 1);
    let options = options.filter(Box::new(Lz4Compressor {}));
    assert_eq!(options.filters.len(), 2);

    let mut through = Vec::new();
    options.filters[0].encode(b"abc", &mut through).unwrap();
    assert_eq!(through, b"abc");

    let replaced: Vec<Box<dyn Filter>> = vec![Box::new(GzipCompressor {})];
    let options = options.writable(false).filters(replaced);
    assert!(!options.writable);
    assert_eq!(options.filters.len(), 1);
    let options = options.filters(Vec::new());
    assert!(options.filters.is_empty());
}
