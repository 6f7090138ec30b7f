use std::str::FromStr;

use blobcache::{validate_threads_configuration, Error, FsBackendType};

#[test]
fn test_backend_fs_type() {
    assert_eq!(
        FsBackendType::from_str("rafs").unwrap(),
        FsBackendType::Rafs
    );
    assert_eq!(
        FsBackendType::from_str("passthrough").unwrap(),
        FsBackendType::PassthroughFs
    );
    assert_eq!(
        FsBackendType::from_str("passthroughfs").unwrap(),
        FsBackendType::PassthroughFs
    );
    assert_eq!(
        FsBackendType::from_str("passthrough_fs").unwrap(),
        FsBackendType::PassthroughFs
    );
    assert!(FsBackendType::from_str("passthroug").is_err());

    assert_eq!(FsBackendType::Rafs.to_string(), "Rafs");
    assert_eq!(FsBackendType::PassthroughFs.to_string(), "PassthroughFs");
}

#[test]
fn test_validate_thread_configuration() {
    assert_eq!(validate_threads_configuration("1").unwrap(), 1);
    assert_eq!(validate_threads_configuration("1024").unwrap(), 1024);
    assert!(validate_threads_configuration("0").is_err());
    assert!(validate_threads_configuration("-1").is_err());
    assert!(validate_threads_configuration("1.0").is_err());
    assert!(validate_threads_configuration("1025").is_err());
    assert!(validate_threads_configuration("test").is_err());
}

#[test]
fn backend_type_error_names_the_input() {
    match FsBackendType::parse_name("fuse") {
        Err(Error::InvalidArguments(msg)) => assert_eq!(
            msg,
            "only 'rafs' and 'passthrough_fs' are supported, but fuse was specified"
        ),
        _ => panic!("expected an invalid argument error"),
    }
}

#[test]
fn thread_configuration_edges() {
    assert_eq!(validate_threads_configuration("+8").unwrap(), 8);
    assert_eq!(validate_threads_configuration("0512").unwrap(), 512);
    assert!(validate_threads_configuration("").is_err());
    assert!(validate_threads_configuration("+").is_err());
    assert!(validate_threads_configuration(" 4").is_err());
    assert!(validate_threads_configuration("99999999999999999999999").is_err());
    assert_eq!(
        validate_threads_configuration("2048").unwrap_err(),
        "invalid thread number 2048, valid range: [1-1024]"
    );
    assert_eq!(
        validate_threads_configuration("x1").unwrap_err(),
        "invalid thread number configuration: x1"
    );
}
