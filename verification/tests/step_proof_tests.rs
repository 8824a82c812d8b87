use omo::emulator::{EmulatorState, MemAccess, StateChange};
use omo::engine::MemoryState;
use omo::step_proof::{
    encode_nodes, encode_regs, generate_step_proof, lookup, reg_key, state_entries, step_proof_of,
    trie_key, upsert, StepProofError,
};
use omo::trie::{
    be_min_bytes, build_node, child_ref, encode_branch, encode_extension, encode_leaf,
    hashed_null_node, hex_prefix, nibble, rlp_bytes, rlp_list, shared_nibbles, trie_root,
};
use tiny_keccak::{Hasher, Keccak};

fn keccak(data: &[u8]) -> Vec<u8> {
    let mut k = Keccak::v256();
    k.update(data);
    let mut out = [0u8; 32];
    k.finalize(&mut out);
    out.to_vec()
}

fn state(words: &[(u64, i64)], regs: Vec<(i32, u64)>) -> EmulatorState {
    let mut m = MemoryState::new();
    for (a, v) in words {
        m.write_value(*a, 4, *v);
    }
    EmulatorState { regs, memories: m.snapshot() }
}

#[test]
fn empty_trie_root() {
    let expected =
        hex::decode("56e81f171bcc55a6ff8345e692c0f86e5b48e01b996cadc001622fb5e363b421").unwrap();
    assert_eq!(hashed_null_node(), expected);
    assert_eq!(trie_root(&vec![]), expected);
}

#[test]
fn rlp_encodings() {
    assert_eq!(rlp_bytes(&vec![]), vec![0x80]);
    assert_eq!(rlp_bytes(&vec![0x7f]), vec![0x7f]);
    assert_eq!(rlp_bytes(&vec![0x80]), vec![0x81, 0x80]);
    assert_eq!(rlp_bytes(&vec![1, 2, 3]), vec![0x83, 1, 2, 3]);
    let long = vec![7u8; 56];
    let mut e = vec![0xb8, 56];
    e.extend_from_slice(&long);
    assert_eq!(rlp_bytes(&long), e);
    let longer = vec![7u8; 1024];
    assert_eq!(&rlp_bytes(&longer)[0..3], &[0xb9, 4, 0]);
    assert_eq!(rlp_list(&vec![]), vec![0xc0]);
    assert_eq!(rlp_list(&vec![0x83, 1, 2, 3]), vec![0xc4, 0x83, 1, 2, 3]);
    assert_eq!(&rlp_list(&vec![0u8; 529])[0..3], &[0xf9, 2, 17]);
    assert_eq!(be_min_bytes(0), Vec::<u8>::new());
    assert_eq!(be_min_bytes(255), vec![255]);
    assert_eq!(be_min_bytes(0x01_02_03), vec![1, 2, 3]);
}

#[test]
fn nibbles_and_hex_prefix() {
    assert_eq!(nibble(0x1234_5678, 0), 1);
    assert_eq!(nibble(0x1234_5678, 7), 8);
    assert_eq!(shared_nibbles(0x1234_5678, 0x1234_9678, 0), 4);
    assert_eq!(shared_nibbles(0x1234_5678, 0x1234_5678, 2), 8);
    assert_eq!(hex_prefix(0x1234_5678, 0, 8, true), vec![0x20, 0x12, 0x34, 0x56, 0x78]);
    assert_eq!(hex_prefix(0x1234_5678, 1, 8, true), vec![0x32, 0x34, 0x56, 0x78]);
    assert_eq!(hex_prefix(0x1234_5678, 0, 3, false), vec![0x11, 0x23]);
    assert_eq!(hex_prefix(0x1234_5678, 2, 4, false), vec![0x00, 0x34]);
    assert_eq!(hex_prefix(0x1234_5678, 8, 8, true), vec![0x20]);
}

#[test]
fn node_encodings() {
    let leaf = encode_leaf(0x0000_0001, 0, &vec![1, 2, 3, 4]);
    assert_eq!(leaf, vec![0xcb, 0x85, 0x20, 0, 0, 0, 1, 0x84, 1, 2, 3, 4]);
    let ext = encode_extension(0x1234_0000, 0, 4, &vec![0x80]);
    assert_eq!(ext, vec![0xc5, 0x83, 0x00, 0x12, 0x34, 0x80]);
    let branch = encode_branch(vec![0x80; 16]);
    let mut e = vec![0xd1];
    e.extend_from_slice(&[0x80; 17]);
    assert_eq!(branch, e);
    assert_eq!(child_ref(vec![1; 31]), vec![1; 31]);
    let big = vec![1u8; 32];
    let mut r = vec![0xa0];
    r.extend_from_slice(&keccak(&big));
    assert_eq!(child_ref(big), r);
}

#[test]
fn single_entry_root_is_hash_of_leaf() {
    let entries = vec![(0x0000_0001u32, 0x0102_0304u32)];
    let leaf = vec![0xcb, 0x85, 0x20, 0, 0, 0, 1, 0x84, 1, 2, 3, 4];
    assert_eq!(build_node(&entries, 0, 1, 0), leaf);
    assert_eq!(trie_root(&entries), keccak(&leaf));
}

#[test]
fn two_entries_share_an_extension() {
    let entries = vec![(0x0000_0010u32, 0xaaaa_aaaau32), (0x0000_0021u32, 0xbbbb_bbbbu32)];
    let leaf0 = vec![0xc6, 0x30, 0x84, 0xaa, 0xaa, 0xaa, 0xaa];
    let leaf1 = vec![0xc6, 0x31, 0x84, 0xbb, 0xbb, 0xbb, 0xbb];
    assert_eq!(build_node(&entries, 0, 1, 7), leaf0);
    let mut children = vec![0x80];
    children.extend_from_slice(&leaf0);
    children.extend_from_slice(&leaf1);
    children.extend_from_slice(&[0x80; 13]);
    children.push(0x80);
    let mut branch = vec![0xc0 + children.len() as u8];
    branch.extend_from_slice(&children);
    assert_eq!(branch.len(), 30);
    let mut ext_payload = vec![0x84, 0x00, 0x00, 0x00, 0x00];
    ext_payload.extend_from_slice(&branch);
    let mut ext = vec![0xc0 + ext_payload.len() as u8];
    ext.extend_from_slice(&ext_payload);
    assert_eq!(build_node(&entries, 0, 2, 0), ext);
    assert_eq!(trie_root(&entries), keccak(&ext));
}

#[test]
fn large_children_are_referenced_by_hash() {
    let entries = vec![
        (0x1000_0000u32, 1u32),
        (0x1000_0001u32, 2u32),
        (0x1000_0002u32, 3u32),
        (0x1000_0003u32, 4u32),
        (0x2000_0000u32, 5u32),
    ];
    let low = build_node(&entries, 0, 4, 1);
    assert!(low.len() >= 32);
    let high = build_node(&entries, 4, 5, 1);
    assert_eq!(high, vec![0xca, 0x84, 0x30, 0, 0, 0, 0x84, 0, 0, 0, 5]);
    let mut children = vec![0x80, 0xa0];
    children.extend_from_slice(&keccak(&low));
    children.extend_from_slice(&high);
    children.extend_from_slice(&[0x80; 13]);
    children.push(0x80);
    let mut top = vec![0xf8, children.len() as u8];
    top.extend_from_slice(&children);
    assert_eq!(build_node(&entries, 0, 5, 0), top);
    assert_eq!(trie_root(&entries), keccak(&top));
}

#[test]
fn keys_and_entries() {
    assert_eq!(trie_key(0), 0);
    assert_eq!(trie_key(0x7fff_fffc), 0x1fff_ffff);
    assert_eq!(reg_key(0), 0x4000_0000);
    assert_eq!(reg_key(4), 0x4000_0004);
    let s = state(&[(0x1000, 0x11223344), (0x10, 5), (0x2000, 0)], vec![]);
    assert_eq!(state_entries(&s.memories), Ok(vec![(4, 5), (0x400, 0x11223344)]));
    let mut big = MemoryState::new();
    big.write_value(0x1_0000_0000, 4, 1);
    assert_eq!(state_entries(&big), Err(StepProofError::AddressRange));
}

#[test]
fn upsert_keeps_order() {
    let mut e = vec![(2u32, 20u32), (5, 50)];
    upsert(&mut e, 3, 30);
    upsert(&mut e, 1, 10);
    upsert(&mut e, 9, 90);
    upsert(&mut e, 5, 55);
    assert_eq!(e, vec![(1, 10), (2, 20), (3, 30), (5, 55), (9, 90)]);
    assert_eq!(lookup(&e, 5), Some(55));
    assert_eq!(lookup(&e, 4), None);
}

#[test]
fn proof_root_before_is_root_of_state_before() {
    let before = state(&[(0x1000, 1), (0x1004, 2), (0x2000, 3)], vec![(4, 7)]);
    let after = state(&[(0x1000, 1), (0x1004, 9), (0x2000, 3)], vec![(4, 8)]);
    let entries = state_entries(&before.memories).unwrap();
    let root = trie_root(&entries);
    let change = StateChange {
        state_before: before,
        state_after: after,
        step: 101,
        access: vec![
            MemAccess { write: false, addr: 0x1000, size: 4, value: 1 },
            MemAccess { write: true, addr: 0x1004, size: 4, value: 9 },
        ],
    };
    let p = generate_step_proof(change).unwrap();
    assert_eq!(p.root_before, root);
    assert_ne!(p.root_after, p.root_before);
    assert_eq!(p.root_after, trie_root(&vec![(0x400, 1), (0x401, 9), (0x800, 3)]));
    assert_eq!(p.regs_before, vec![(4, 7)]);
    assert_eq!(p.regs_after, vec![(4, 8)]);
    assert!(!p.access_nodes.is_empty());
    assert_eq!(keccak(&p.access_nodes[0]), p.root_before);
    for (i, a) in p.access_nodes.iter().enumerate() {
        for b in &p.access_nodes[i + 1..] {
            assert_ne!(a, b);
        }
    }
}

#[test]
fn proof_without_writes_keeps_the_root() {
    let before = state(&[(0x1000, 1), (0x1004, 2)], vec![]);
    let after = state(&[(0x1000, 1), (0x1004, 2)], vec![]);
    let change = StateChange {
        state_before: before,
        state_after: after,
        step: 1,
        access: vec![MemAccess { write: false, addr: 0x1004, size: 4, value: 2 }],
    };
    let p = generate_step_proof(change).unwrap();
    assert_eq!(p.root_after, p.root_before);
    assert_eq!(p.access_nodes.len(), 1);
}

#[test]
fn proof_rejects_bad_accesses() {
    let e = vec![(0x400u32, 1u32)];
    let bad = vec![
        MemAccess { write: false, addr: 0x1000, size: 4, value: 1 },
        MemAccess { write: true, addr: 0x1002, size: 4, value: 1 },
    ];
    assert!(matches!(
        step_proof_of(e.clone(), &bad, vec![], vec![]),
        Err(StepProofError::NotWordAccess(1))
    ));
    let short = vec![MemAccess { write: true, addr: 0x1000, size: 2, value: 1 }];
    assert!(matches!(
        step_proof_of(e.clone(), &short, vec![], vec![]),
        Err(StepProofError::NotWordAccess(0))
    ));
    let missing = vec![MemAccess { write: false, addr: 0x2000, size: 4, value: 0 }];
    assert!(matches!(
        step_proof_of(e.clone(), &missing, vec![], vec![]),
        Err(StepProofError::MissingRead(0))
    ));
    let far = vec![MemAccess { write: true, addr: 0x1_0000_0000, size: 4, value: 0 }];
    assert!(matches!(
        step_proof_of(e, &far, vec![], vec![]),
        Err(StepProofError::AddressRange)
    ));
}

#[test]
fn witness_lists_hashed_nodes_top_down() {
    let mut e: Vec<(u32, u32)> = Vec::new();
    for i in 0..64u32 {
        e.push((i * 0x0101_0101 / 4, i + 1));
    }
    e.sort();
    e.dedup_by_key(|x| x.0);
    let key_addr = (e[10].0 as u64) * 4;
    let acc = vec![MemAccess { write: true, addr: key_addr, size: 4, value: 0x5555 }];
    let p = step_proof_of(e.clone(), &acc, vec![], vec![]).unwrap();
    assert_eq!(keccak(&p.access_nodes[0]), p.root_before);
    for n in &p.access_nodes[1..] {
        assert!(n.len() >= 32);
        let h = keccak(n);
        assert!(p.access_nodes.iter().any(|parent| parent.windows(32).any(|w| w == &h[..])));
    }
    let mut after = e;
    after[10].1 = 0x5555;
    assert_eq!(p.root_after, trie_root(&after));
}

#[test]
fn proof_lists_encode_as_rlp() {
    assert_eq!(encode_regs(&vec![]), vec![0xc0]);
    assert_eq!(
        encode_regs(&vec![(4, 0x1_0000_0007)]),
        vec![0xc9, 0x88, 0, 0, 0, 4, 0, 0, 0, 7]
    );
    assert_eq!(encode_nodes(&vec![vec![1, 2], vec![0x05]]), vec![0xc4, 0x82, 1, 2, 0x05]);
}
