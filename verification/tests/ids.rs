use hdfs_common::BlockId;
use hdfs_common::DatanodeId;
use hdfs_common::INodeId;
use hdfs_common::IdGen;
use hdfs_common::LeaseId;
use std::collections::BTreeSet;
use std::collections::HashSet;
use std::str::FromStr;

const FIXED: &str = "550e8400-e29b-41d4-a716-446655440000";

#[test]
fn display_and_debug() {
    //block id
    let id = BlockId(42);
    assert_eq!(id.to_display_string(), "42");
    assert_eq!(format!("{:?}", id), "BlockId(42)");

    //inode id
    let id = INodeId(22);
    assert_eq!(id.to_display_string(), "22");
    assert_eq!(format!("{:?}", id), "INodeId(22)");

    //lease id
    let id = LeaseId(11);
    assert_eq!(id.to_display_string(), "11");
    assert_eq!(format!("{:?}", id), "LeaseId(11)");
}

#[test]
fn from_into_roundtrip() {
    //block id
    for &n in &[0u64, 1, 42, u64::MAX] {
        let id: BlockId = BlockId::from(n);
        let back: u64 = u64::from(id);
        assert_eq!(n, back);
        let id: BlockId = n.into();
        let back: u64 = id.into();
        assert_eq!(n, back);
    }

    //inode id
    for &n in &[1u64, 2, 43, u64::MIN] {
        let id: INodeId = INodeId::from(n);
        let back: u64 = u64::from(id);
        assert_eq!(n, back);
        let id: INodeId = n.into();
        let back: u64 = id.into();
        assert_eq!(n, back);
    }

    //lease id
    for &n in &[3u64, 4, 44, u64::MIN] {
        let id: LeaseId = LeaseId::from(n);
        let back: u64 = u64::from(id);
        assert_eq!(n, back);
        let id: LeaseId = n.into();
        let back: u64 = id.into();
        assert_eq!(n, back);
    }
}

#[test]
fn ordering_and_hash_works() {
    //block id
    let mut v = vec![BlockId(3), BlockId(1), BlockId(2)];
    v.sort();
    assert_eq!(v, vec![BlockId(1), BlockId(2), BlockId(3)]);

    let mut s = HashSet::new();
    s.insert(BlockId(7));
    assert!(s.contains(&BlockId(7)));

    let mut ts = BTreeSet::new();
    ts.insert(BlockId(2));
    ts.insert(BlockId(1));
    assert_eq!(
        ts.into_iter().collect::<Vec<_>>(),
        vec![BlockId(1), BlockId(2)]
    );

    //inode id
    let mut v = vec![INodeId(3), INodeId(1), INodeId(2)];
    v.sort();
    assert_eq!(v, vec![INodeId(1), INodeId(2), INodeId(3)]);

    let mut s = HashSet::new();
    s.insert(INodeId(7));
    assert!(s.contains(&INodeId(7)));

    let mut ts = BTreeSet::new();
    ts.insert(INodeId(2));
    ts.insert(INodeId(1));
    assert_eq!(
        ts.into_iter().collect::<Vec<_>>(),
        vec![INodeId(1), INodeId(2)]
    );

    //lease id
    let mut v = vec![LeaseId(3), LeaseId(1), LeaseId(2)];
    v.sort();
    assert_eq!(v, vec![LeaseId(1), LeaseId(2), LeaseId(3)]);

    let mut s = HashSet::new();
    s.insert(LeaseId(7));
    assert!(s.contains(&LeaseId(7)));

    let mut ts = BTreeSet::new();
    ts.insert(LeaseId(2));
    ts.insert(LeaseId(1));
    assert_eq!(
        ts.into_iter().collect::<Vec<_>>(),
        vec![LeaseId(1), LeaseId(2)]
    );
}

#[test]
fn copy_and_clone_behave() {
    //block id
    let a = BlockId(5);
    let b = a;
    let c = a.clone();
    assert_eq!(a, b);
    assert_eq!(a, c);

    //inode id
    let a = INodeId(5);
    let b = a;
    let c = a.clone();
    assert_eq!(a, b);
    assert_eq!(a, c);
    //lease id
    let a = LeaseId(5);
    let b = a;
    let c = a.clone();
    assert_eq!(a, b);
    assert_eq!(a, c);
}

#[test]
fn id_gen_next() {
    let mut idgen = IdGen::new(1, 1);
    let inode_id = idgen.next_inode();
    let block_id = idgen.next_block();

    assert_eq!(inode_id.0, 1);
    assert_eq!(block_id.0, 1);

    let inode_id1 = idgen.next_inode();
    let block_id1 = idgen.next_block();

    assert_eq!(inode_id1.0, 2);
    assert_eq!(block_id1.0, 2);
}

#[test]
fn id_gen_peek() {
    let mut idgen = IdGen::new(1, 1);
    let _inode_id = idgen.next_inode();
    let _block_id = idgen.next_block();
    let next_inode_id = idgen.peek_inode();
    let next_block_id = idgen.peek_block();

    assert_eq!(next_inode_id, 2);
    assert_eq!(next_block_id, 2);

    let _inode_id = idgen.next_inode();
    let _block_id = idgen.next_block();
    let next_inode_id = idgen.peek_inode();
    let next_block_id = idgen.peek_block();

    assert_eq!(next_inode_id, 3);
    assert_eq!(next_block_id, 3);
}

#[test]
fn allocation_range_contiguous() {
    let mut idgen = IdGen::new(100, 7);
    let mut inodes = HashSet::new();
    let mut blocks = HashSet::new();
    for _ in 0..5 {
        inodes.insert(idgen.next_inode().0);
        blocks.insert(idgen.next_block().0);
    }
    assert_eq!(inodes.len(), 5);
    assert_eq!(blocks.len(), 5);
    for v in 100..105u64 {
        assert!(inodes.contains(&v));
    }
    for v in 7..12u64 {
        assert!(blocks.contains(&v));
    }
    assert_eq!(idgen.peek_inode(), 105);
    assert_eq!(idgen.peek_block(), 12);
}

#[test]
fn new_v4_not_nil_and_short_hex() {
    let id = DatanodeId::new_v4();
    // Not the all-zero UUID
    assert_ne!(id.to_display_string(), uuid::Uuid::nil().to_string());
    // short() is exactly 8 lowercase hex chars
    let s = id.short();
    assert_eq!(s.len(), 8);
    assert!(
        s.chars()
            .all(|c| c.is_ascii_hexdigit() && (c.is_ascii_digit() || c.is_ascii_lowercase()))
    );
}

#[test]
fn display_is_hyphenated_uuid() {
    let id = DatanodeId::from_str(FIXED).unwrap();
    // Display uses the UUID's canonical hyphenated form
    assert_eq!(id.to_display_string(), FIXED);
}

#[test]
fn fromstr_parses_and_trims() {
    // exact
    let id1 = DatanodeId::from_str(FIXED).unwrap();
    // with surrounding whitespace/newline
    let id2 = DatanodeId::from_str(&format!("  {}\n", FIXED)).unwrap();
    assert_eq!(id1, id2);

    // bad strings fail
    assert!(DatanodeId::from_str("not-a-uuid").is_err());
    assert!(DatanodeId::from_str("").is_err());
}

#[test]
fn short_matches_simple_prefix() {
    let uuid = uuid::Uuid::parse_str(FIXED).unwrap();
    let id = DatanodeId(uuid.as_u128());
    // Compute the 32-char lowercase hex without hyphens, then compare prefix
    let mut buf = [0u8; uuid::fmt::Simple::LENGTH]; // 32
    let simple = uuid.as_simple().encode_lower(&mut buf);
    assert_eq!(id.short(), simple[..8]);
}

#[test]
fn display_then_parse_is_identity() {
    let d = DatanodeId(0x550e8400e29b41d4a716446655440000);
    let s = d.to_display_string();
    assert_eq!(DatanodeId::from_str(&s).unwrap(), d);

    let fresh = DatanodeId::new_v4();
    let s = fresh.to_display_string();
    assert_eq!(DatanodeId::from_str(&s).unwrap(), fresh);
}

#[test]
fn new_v4_has_version_and_variant_bits() {
    let id = DatanodeId::new_v4();
    let s: Vec<char> = id.to_display_string().chars().collect();
    assert_eq!(s[14], '4');
    assert!(matches!(s[19], '8' | '9' | 'a' | 'b'));
}

#[test]
fn short_is_zero_padded() {
    let id = DatanodeId(1);
    assert_eq!(id.short(), "00000000");
    assert_eq!(
        id.to_display_string(),
        "00000000-0000-0000-0000-000000000001"
    );
}
