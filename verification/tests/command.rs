use blobary::{
    list_inputs, locate_store, locate_store_from_url, location_for, BlobStore, BlobStoreError,
    BlobStoreExt, FileBlobStore, IndexedBlobStore, IoError, IoErrorKind, StoreLocation,
    StoreUrlError, Sysexits,
};

#[test]
fn inputs_default_to_standard_input() {
    assert_eq!(list_inputs(&Vec::new()).unwrap(), vec!["/dev/stdin".to_string()]);
}

#[test]
fn inputs_are_the_paths_given() {
    let paths = vec!["a.txt".to_string(), "dir/b.bin".to_string(), "a.txt".to_string()];
    assert_eq!(list_inputs(&paths).unwrap(), paths);
    let one = vec!["/dev/stdin".to_string()];
    assert_eq!(list_inputs(&one).unwrap(), one);
}

#[test]
fn exit_codes_are_those_of_sysexits() {
    let all = [
        (Sysexits::EX_OK, 0),
        (Sysexits::EX_USAGE, 64),
        (Sysexits::EX_DATAERR, 65),
        (Sysexits::EX_NOINPUT, 66),
        (Sysexits::EX_NOUSER, 67),
        (Sysexits::EX_NOHOST, 68),
        (Sysexits::EX_UNAVAILABLE, 69),
        (Sysexits::EX_SOFTWARE, 70),
        (Sysexits::EX_OSERR, 71),
        (Sysexits::EX_OSFILE, 72),
        (Sysexits::EX_CANTCREAT, 73),
        (Sysexits::EX_IOERR, 74),
        (Sysexits::EX_TEMPFAIL, 75),
        (Sysexits::EX_PROTOCOL, 76),
        (Sysexits::EX_NOPERM, 77),
        (Sysexits::EX_CONFIG, 78),
    ];
    for (exit, code) in all {
        assert_eq!(exit.code(), code);
    }
    assert_eq!(Sysexits::default(), Sysexits::EX_OK);
}

#[test]
fn exit_for_each_class_of_io_failure() {
    let all = [
        (IoErrorKind::AddrInUse, Sysexits::EX_TEMPFAIL),
        (IoErrorKind::AddrNotAvailable, Sysexits::EX_USAGE),
        (IoErrorKind::AlreadyExists, Sysexits::EX_CANTCREAT),
        (IoErrorKind::BrokenPipe, Sysexits::EX_IOERR),
        (IoErrorKind::ConnectionAborted, Sysexits::EX_PROTOCOL),
        (IoErrorKind::ConnectionRefused, Sysexits::EX_UNAVAILABLE),
        (IoErrorKind::ConnectionReset, Sysexits::EX_PROTOCOL),
        (IoErrorKind::Interrupted, Sysexits::EX_TEMPFAIL),
        (IoErrorKind::InvalidData, Sysexits::EX_DATAERR),
        (IoErrorKind::InvalidInput, Sysexits::EX_DATAERR),
        (IoErrorKind::NotConnected, Sysexits::EX_PROTOCOL),
        (IoErrorKind::NotFound, Sysexits::EX_NOINPUT),
        (IoErrorKind::Other, Sysexits::EX_UNAVAILABLE),
        (IoErrorKind::OutOfMemory, Sysexits::EX_TEMPFAIL),
        (IoErrorKind::PermissionDenied, Sysexits::EX_NOPERM),
        (IoErrorKind::TimedOut, Sysexits::EX_IOERR),
        (IoErrorKind::UnexpectedEof, Sysexits::EX_IOERR),
        (IoErrorKind::Unsupported, Sysexits::EX_SOFTWARE),
        (IoErrorKind::WouldBlock, Sysexits::EX_IOERR),
        (IoErrorKind::WriteZero, Sysexits::EX_IOERR),
        (IoErrorKind::Uncategorized, Sysexits::EX_UNAVAILABLE),
    ];
    for (kind, exit) in all {
        assert_eq!(Sysexits::from(kind), exit);
        let error = BlobStoreError::from_io(IoError::new(kind, "failure"));
        assert_eq!(Sysexits::from(error), exit);
    }
}

#[test]
fn exit_for_each_store_failure() {
    assert_eq!(Sysexits::from(BlobStoreError::DataError), Sysexits::EX_DATAERR);
    assert_eq!(Sysexits::from(BlobStoreError::InvalidInput("x".into())), Sysexits::EX_DATAERR);
    assert_eq!(Sysexits::from(BlobStoreError::Removed), Sysexits::EX_NOINPUT);
    assert_eq!(Sysexits::from(BlobStoreError::NotWritable), Sysexits::EX_NOPERM);
    assert_eq!(Sysexits::from(BlobStoreError::Unexpected), Sysexits::EX_PROTOCOL);
    assert_eq!(Sysexits::from(BlobStoreError::Unsupported), Sysexits::EX_SOFTWARE);
    assert_eq!(Sysexits::from(BlobStoreError::unimplemented("put")), Sysexits::EX_SOFTWARE);
    assert_eq!(Sysexits::from(BlobStoreError::Other("x".into())), Sysexits::EX_SOFTWARE);
}

#[test]
fn store_urls_name_backends() {
    match locate_store_from_url("file:///var/blobs").unwrap() {
        StoreLocation::Directory(path) => assert_eq!(path, "/var/blobs"),
        other => panic!("unexpected: {:?}", other),
    }
    match locate_store_from_url("file:///with%20space/x").unwrap() {
        StoreLocation::Directory(path) => assert_eq!(path, "/with space/x"),
        other => panic!("unexpected: {:?}", other),
    }
    assert!(matches!(locate_store_from_url("memory:").unwrap(), StoreLocation::Memory));
    assert!(matches!(locate_store_from_url("MEMORY:").unwrap(), StoreLocation::Memory));
}

#[test]
fn store_urls_that_name_nothing() {
    assert_eq!(locate_store_from_url("not a url").unwrap_err(), StoreUrlError::InvalidUrl);
    assert_eq!(locate_store_from_url("").unwrap_err(), StoreUrlError::InvalidUrl);
    assert_eq!(
        locate_store_from_url("file://example.org/blobs").unwrap_err(),
        StoreUrlError::InvalidPath
    );
    for url in ["redis://localhost/", "s3://bucket/prefix", "sqlite://x", "http://example.org/"] {
        assert_eq!(locate_store_from_url(url).unwrap_err(), StoreUrlError::UnsupportedScheme);
    }
    assert_eq!(StoreUrlError::InvalidUrl.exit(), Sysexits::EX_DATAERR);
    assert_eq!(StoreUrlError::InvalidPath.exit(), Sysexits::EX_DATAERR);
    assert_eq!(StoreUrlError::UnsupportedScheme.exit(), Sysexits::EX_DATAERR);
}

#[test]
fn location_by_scheme() {
    assert!(matches!(
        location_for("file", Some("/x".to_string())),
        Ok(StoreLocation::Directory(path)) if path == "/x"
    ));
    assert_eq!(location_for("file", None).unwrap_err(), StoreUrlError::InvalidPath);
    assert!(matches!(location_for("memory", None), Ok(StoreLocation::Memory)));
    assert!(matches!(location_for("memory", Some("/x".to_string())), Ok(StoreLocation::Memory)));
    assert_eq!(location_for("files", None).unwrap_err(), StoreUrlError::UnsupportedScheme);
    assert_eq!(location_for("", None).unwrap_err(), StoreUrlError::UnsupportedScheme);
}

#[test]
fn store_defaults_to_the_working_directory() {
    assert!(matches!(locate_store(None), Ok(StoreLocation::Directory(path)) if path == ".blobary"));
    assert!(matches!(locate_store(Some("")), Ok(StoreLocation::Directory(path)) if path == ".blobary"));
    assert!(matches!(locate_store(Some("memory:")), Ok(StoreLocation::Memory)));
    assert_eq!(locate_store(Some("nonsense")).unwrap_err(), StoreUrlError::InvalidUrl);
}

#[test]
fn file_store_is_not_provided_yet() {
    let mut store = FileBlobStore::default();
    let digest = blobary::hash(b"x");
    let name = |error: BlobStoreError| match error {
        BlobStoreError::Unimplemented(name) => name,
        other => panic!("unexpected: {:?}", other),
    };
    assert_eq!(name(store.count().unwrap_err()), "count");
    assert_eq!(name(store.contains_hash(digest).unwrap_err()), "contains_hash");
    assert_eq!(name(store.get_by_hash(digest).unwrap_err()), "get_by_hash");
    assert_eq!(name(store.put(b"x").unwrap_err()), "put");
    assert_eq!(name(store.remove(digest).unwrap_err()), "remove");
    assert_eq!(name(store.hash_to_id(digest).unwrap_err()), "hash_to_id");
    assert_eq!(name(store.id_to_hash(1).unwrap_err()), "id_to_hash");
    assert_eq!(name(store.get_by_id(1).unwrap_err()), "get_by_id");
    assert_eq!(name(store.put_string("x").unwrap_err()), "put");
    assert_eq!(name(store.is_empty().unwrap_err()), "count");
}

#[test]
fn features_are_listed() {
    assert_eq!(blobary::FEATURES, ["base58", "gzip", "lz4", "magic"]);
}
