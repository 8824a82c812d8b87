use omo::engine::{MachineState, MemoryState};

#[test]
fn test_memory_state() {
    let mut state = MemoryState::new();
    state.write_value(2146684216, 4, 4772032);
    let data = state.read_bytes(2146684216, 4);
    let value = u32::from_be_bytes(data[0..4].try_into().unwrap());

    assert_eq!(value, 4772032);
}

#[test]
fn write_straddles_chunks() {
    let mut m = MemoryState::new();
    m.write_bytes(6, &[1, 2, 3, 4, 5]);
    assert_eq!(m.read_bytes(4, 8), vec![0, 0, 1, 2, 3, 4, 5, 0]);
    assert_eq!(m.entries(), vec![(4, [0, 0, 1, 2]), (8, [3, 4, 5, 0])]);
}

#[test]
fn partial_write_keeps_other_bytes() {
    let mut m = MemoryState::new();
    m.write_bytes(0x100, &[9, 9, 9, 9]);
    m.write_bytes(0x101, &[7]);
    assert_eq!(m.read_bytes(0x100, 4), vec![9, 7, 9, 9]);
}

#[test]
fn read_unwritten_is_zero() {
    let m = MemoryState::new();
    assert_eq!(m.read_bytes(0x4000, 6), vec![0; 6]);
    assert_eq!(m.read_bytes(3, 0), Vec::<u8>::new());
}

#[test]
fn write_value_takes_low_bytes() {
    let mut m = MemoryState::new();
    m.write_value(0x10, 2, 0x11223344);
    assert_eq!(m.read_bytes(0x10, 4), vec![0x33, 0x44, 0, 0]);
    m.write_value(0x20, 1, -1);
    assert_eq!(m.read_bytes(0x20, 2), vec![0xff, 0]);
    m.write_value(0x30, 4, 0x1_0000_0001);
    assert_eq!(m.read_bytes(0x30, 4), vec![0, 0, 0, 1]);
}

#[test]
fn read_after_write_returns_bytes() {
    let mut m = MemoryState::new();
    let b = [0xde, 0xad, 0xbe, 0xef, 0x01, 0x02, 0x03];
    m.write_bytes(0x7fff_fffd, &b);
    assert_eq!(m.read_bytes(0x7fff_fffd, b.len()), b.to_vec());
}

#[test]
fn snapshot_drops_zero_chunks() {
    let mut m = MemoryState::new();
    m.write_bytes(0x10, &[1, 0, 0, 0]);
    m.write_bytes(0x20, &[5, 5, 5, 5]);
    m.write_bytes(0x20, &[0, 0, 0, 0]);
    assert_eq!(m.entries().len(), 2);
    let s = m.snapshot();
    assert_eq!(s.entries(), vec![(0x10, [1, 0, 0, 0])]);
    assert_eq!(s.read_bytes(0x20, 4), m.read_bytes(0x20, 4));
    assert_eq!(s.read_bytes(0x10, 4), m.read_bytes(0x10, 4));
}

#[test]
fn snapshot_ignores_write_order() {
    let mut a = MemoryState::new();
    a.write_bytes(0x10, &[1, 2, 3, 4]);
    a.write_bytes(0x40, &[0, 0, 0, 0]);
    a.write_bytes(0x18, &[8]);
    let mut b = MemoryState::new();
    b.write_bytes(0x18, &[8]);
    b.write_bytes(0x10, &[9, 9, 9, 9]);
    b.write_bytes(0x10, &[1, 2, 3, 4]);
    assert_eq!(a.snapshot().entries(), b.snapshot().entries());
}

#[test]
fn machine_snapshot_keeps_memory() {
    let mut st = MachineState::new();
    st.memory.write_value(0x1000, 4, 0x01020304);
    st.memory.write_value(0x2000, 4, 0);
    let s = st.snapshot();
    assert_eq!(s.memory.entries(), vec![(0x1000, [1, 2, 3, 4])]);
}

#[test]
fn write_value_makes_one_chunk() {
    let mut m = MemoryState::new();
    m.write_value(0x10, 2, 0x12345678);
    assert_eq!(m.entries(), vec![(0x10, [0x56, 0x78, 0x00, 0x00])]);
    m.write_value(0x17, 2, 0x0102);
    assert_eq!(
        m.entries(),
        vec![(0x10, [0x56, 0x78, 0, 0]), (0x14, [0, 0, 0, 1]), (0x18, [2, 0, 0, 0])]
    );
    m.write_value(0x40, 0, 7);
    assert_eq!(m.entries().len(), 3);
}
