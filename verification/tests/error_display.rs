use hdfs_common::BlockId;
use hdfs_common::HdfsError;
use std::io;

#[test]
fn io_from_and_display() {
    let e = HdfsError::from(io::Error::new(io::ErrorKind::NotFound, "file missing"));
    assert!(matches!(e, HdfsError::Io(_)));

    let s = e.to_display_string();
    assert!(s.contains("io:"));
    assert!(s.contains("file missing"));
}

#[test]
fn config_display() {
    let e = HdfsError::Config {
        key: "default_block_size",
        msg: "must be > 0 and multiple of checksum_chunk_size (512B)".into(),
    };

    assert_eq!(
        e.to_display_string(),
        "config error (default_block_size): must be > 0 and multiple of checksum_chunk_size (512B)"
    );
}

#[test]
fn invalid_path_display() {
    let e = HdfsError::InvalidPath {
        path: "/a/\u{1}/b".into(),
        reason: "control character not allowed",
    };

    assert_eq!(
        e.to_display_string(),
        "invalid path '/a/\u{1}/b': control character not allowed"
    );
}

#[test]
fn already_exists_and_not_found() {
    let e1 = HdfsError::AlreadyExists {
        path: "/data/raw".into(),
    };
    let e2 = HdfsError::NotFound {
        path: "/data/raw/file.csv".into(),
    };
    assert_eq!(e1.to_display_string(), "already exists: /data/raw");
    assert_eq!(e2.to_display_string(), "not found: /data/raw/file.csv");
}

#[test]
fn state_and_protocol() {
    let st = HdfsError::State {
        what: "complete",
        details: "file not under construction".into(),
    };
    let pr = HdfsError::Protocol {
        op: "AddBlock",
        details: "missing field 'path'".into(),
    };
    assert_eq!(
        st.to_display_string(),
        "state error (complete): file not under construction"
    );
    assert_eq!(
        pr.to_display_string(),
        "protocol error (AddBlock): missing field 'path'"
    );
}

#[test]
fn checksum_mismatch_display() {
    let e = HdfsError::ChecksumMismatch {
        block: BlockId(42),
        chunk_index: 7,
        expected: 0xDEADBEEF,
        got: 0xFEEDBEEF,
    };

    assert_eq!(
        e.to_display_string(),
        "checksum mismatch (blk_42, chunk 7): expected 0xDEADBEEF, got 0xFEEDBEEF"
    );
}

#[test]
fn timeout_display() {
    let e = HdfsError::Timeout {
        op: "WriteChunk",
        during: "client->DN transfer",
    };
    assert_eq!(
        e.to_display_string(),
        "timeout during WriteChunk: client->DN transfer"
    );
}

#[test]
fn checksum_hex_is_zero_padded() {
    let e = HdfsError::ChecksumMismatch {
        block: BlockId(0),
        chunk_index: 0,
        expected: 0x1,
        got: 0xA,
    };
    assert_eq!(
        e.to_display_string(),
        "checksum mismatch (blk_0, chunk 0): expected 0x00000001, got 0x0000000A"
    );
}
