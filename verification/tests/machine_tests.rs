use omo::arch::{MipsCC, MipsProfile};
use omo::cc::{CallingConvention, CallingConventionCommon, ParamAccess};
use omo::engine::{Effect, Machine};
use omo::errors::{from_raw_syscall_ret, EmulatorError, MemoryFault};
use omo::memory::MemRegion;
use omo::parse_key_val;
use omo::registers::RegisterInfo;
use omo::utils::{read_string, Endian, Permission};

fn machine() -> Machine {
    let mut m = Machine::create(Endian::Big, 4);
    m.mem_map(MemRegion { begin: 0x1000, end: 0x3000, perms: Permission { bits: 7 } }, None)
        .unwrap();
    m
}

#[test]
fn write_needs_mapped_memory() {
    let mut m = machine();
    assert_eq!(m.write(0x1000, &[1, 2, 3]), Ok(()));
    assert_eq!(m.read(0x1000, 4), Ok(vec![1, 2, 3, 0]));
    assert_eq!(m.write(0x2ffe, &[1, 2, 3]), Err(EmulatorError::Memory(MemoryFault::Unmapped)));
    assert_eq!(m.read(0x2ffe, 2), Ok(vec![0, 0]));
    assert_eq!(m.read(0x3000, 1), Err(EmulatorError::Memory(MemoryFault::Unmapped)));
    assert_eq!(m.write(0x9000, &[]), Ok(()));
}

#[test]
fn write_is_logged_for_the_interpreter() {
    let mut m = machine();
    m.write(0x1004, &[9, 8]).unwrap();
    let log = m.take_effects();
    assert_eq!(log.len(), 2);
    assert!(matches!(log[0], Effect::MapRegion { begin: 0x1000, end: 0x3000, .. }));
    match &log[1] {
        Effect::Write { addr, data } => {
            assert_eq!(*addr, 0x1004);
            assert_eq!(data, &vec![9, 8]);
        }
        _ => panic!("expected a write"),
    }
    assert_eq!(m.take_effects().len(), 0);
}

#[test]
fn pointers_use_guest_byte_order() {
    let mut m = machine();
    m.write_ptr(0x1000, 0x11223344, None).unwrap();
    assert_eq!(m.read(0x1000, 4), Ok(vec![0x11, 0x22, 0x33, 0x44]));
    assert_eq!(m.read_ptr(0x1000, None), Ok(0x11223344));
    assert_eq!(m.read_ptr(0x1002, Some(2)), Ok(0x3344));
    let mut le = Machine::create(Endian::Little, 4);
    le.mem_map(MemRegion { begin: 0, end: 0x1000, perms: Permission { bits: 3 } }, None).unwrap();
    le.write_ptr(0x10, 0x11223344, None).unwrap();
    assert_eq!(le.read(0x10, 4), Ok(vec![0x44, 0x33, 0x22, 0x11]));
}

#[test]
fn registers_mirror_and_log() {
    let mut m = machine();
    assert_eq!(m.reg_write(4, 77), Ok(()));
    assert_eq!(m.reg_read(4), Ok(77));
    assert_eq!(m.reg_read(0), Err(EmulatorError::Execution(15)));
    assert_eq!(m.reg_write(142, 1), Err(EmulatorError::Execution(15)));
    m.sync_reg(31, 0x2000);
    assert_eq!(m.sp(), Ok(0x2000));
    m.set_pc(0x400000).unwrap();
    assert_eq!(m.pc(), Ok(0x400000));
    assert_eq!(m.save_registers(), vec![(1, 0x400000), (4, 77), (31, 0x2000)]);
    let log = m.take_effects();
    assert_eq!(log.len(), 3);
    assert!(matches!(log[1], Effect::RegWrite { reg: 4, value: 77 }));
}

#[test]
fn stack_pointer_moves() {
    let mut m = machine();
    m.sync_reg(31, 0x2000);
    assert_eq!(m.incr_sp(-16), Ok(0x1ff0));
    assert_eq!(m.incr_sp(0x10), Ok(0x2000));
    assert_eq!(m.incr_sp(-0x2001), Err(EmulatorError::Execution(21)));
    assert_eq!(m.sp(), Ok(0x2000));
    m.sync_reg(31, u64::MAX);
    assert_eq!(m.incr_sp(1), Err(EmulatorError::Execution(21)));
    assert_eq!(m.incr_sp(i64::MIN), Ok(u64::MAX - (1u64 << 63)));
}

#[test]
fn stack_push_and_pop() {
    let mut m = machine();
    m.sync_reg(31, 0x2000);
    assert_eq!(m.stack_push(0xdeadbeef), Ok(0x1ffc));
    assert_eq!(m.stack_read(0), Ok(0xdeadbeef));
    assert_eq!(m.stack_write(4, 5), Ok(()));
    assert_eq!(m.stack_read(4), Ok(5));
    assert_eq!(m.stack_pop(), Ok(0xdeadbeef));
    assert_eq!(m.sp(), Ok(0x2000));
}

#[test]
fn aligned_push_rounds_down() {
    let mut m = machine();
    m.sync_reg(31, 0x2000);
    assert_eq!(m.aligned_push_bytes(&[1, 2, 3, 4, 5], None), Ok(0x1ff8));
    assert_eq!(m.read(0x1ff8, 8), Ok(vec![1, 2, 3, 4, 5, 0, 0, 0]));
    assert_eq!(m.aligned_push_str("ab"), Ok(0x1ff4));
    assert_eq!(m.read(0x1ff4, 4), Ok(vec![b'a', b'b', 0, 0]));
    assert_eq!(m.aligned_push_bytes(&[7; 3], Some(16)), Ok(0x1ff0));
    assert_eq!(m.sp(), Ok(0x1ff0));
    m.sync_reg(31, 2);
    assert_eq!(m.aligned_push_bytes(&[7; 3], None), Err(EmulatorError::Execution(21)));
}

#[test]
fn read_string_stops_at_terminator() {
    let mut m = machine();
    m.write(0x1100, b"hello\0world").unwrap();
    assert_eq!(read_string(&m, 0x1100, 0), Ok(b"hello".to_vec()));
    assert_eq!(read_string(&m, 0x1105, 0), Ok(vec![]));
    m.write(0x2ffe, b"xy").unwrap();
    assert_eq!(read_string(&m, 0x2ffe, 0), Err(EmulatorError::Memory(MemoryFault::Unmapped)));
}

#[test]
fn o32_arguments() {
    let cc = MipsCC::new(4);
    assert_eq!(cc.inner.get_param_access(0), ParamAccess::Reg(6));
    assert_eq!(cc.inner.get_param_access(3), ParamAccess::Reg(9));
    assert_eq!(cc.inner.get_param_access(4), ParamAccess::Stack(16));
    assert_eq!(cc.inner.get_param_access(5), ParamAccess::Stack(20));
    let mut m = machine();
    m.sync_reg(31, 0x2000);
    m.sync_reg(6, 0x1_0000_00ff);
    m.write_ptr(0x2010, 0xabcd, None).unwrap();
    assert_eq!(cc.get_raw_param(&m, 0, None), Ok(0x1_0000_00ff));
    assert_eq!(cc.get_raw_param(&m, 0, Some(4)), Ok(0xf));
    assert_eq!(cc.get_raw_param(&m, 4, None), Ok(0xabcd));
    assert_eq!(cc.get_raw_param(&m, 16, None), Err(EmulatorError::InvalidArgument));
    assert_eq!(cc.set_raw_param(&mut m, 1, 0x1ff, Some(8)), Ok(()));
    assert_eq!(m.reg_read(7), Ok(0xff));
    assert_eq!(cc.set_raw_param(&mut m, 5, 3, None), Ok(()));
    assert_eq!(m.read_ptr(0x2014, None), Ok(3));
    assert_eq!(cc.set_raw_param(&mut m, 16, 3, None), Err(EmulatorError::InvalidArgument));
    assert_eq!(MipsCC::get_num_slots(32), 1);
}

#[test]
fn o32_return_value_clears_error_flag() {
    let cc = MipsCC::new(4);
    let mut m = machine();
    m.sync_reg(9, 1);
    assert_eq!(cc.set_return_value(&mut m, 55), Ok(()));
    assert_eq!(cc.get_return_value(&m), Ok(55));
    assert_eq!(m.reg_read(9), Ok(0));
    m.sync_reg(33, 0x400100);
    assert_eq!(cc.unwind(&m, 0), Ok(0x400100));
}

#[test]
fn reserve_lowers_stack_pointer() {
    let cc = CallingConventionCommon::new(4, vec![6, 7, 8, 9], 12, 4, false, 4);
    let mut m = machine();
    m.sync_reg(31, 0x2000);
    assert_eq!(cc.reserve(&mut m, 2), Ok(()));
    assert_eq!(m.sp(), Ok(0x2000 - 64));
    m.sync_reg(31, 8);
    assert_eq!(cc.reserve(&mut m, 2), Err(EmulatorError::Execution(21)));
}

#[test]
fn profile_defaults() {
    let p = MipsProfile::new();
    assert_eq!(p.pointer_size(), 4);
    assert_eq!(p.mode(), 4 + 0x4000_0000);
    assert_eq!(MipsProfile::default(), p);
    assert_eq!(omo::arch::MIPS::new(4).cc.inner.address_size, 4);
    assert_eq!(omo::loader::LoadInfo::default().brk_address, 0);
    assert_eq!(omo::engine::MemoryState::default().entries().len(), 0);
    assert_eq!(omo::os::linux::syscall::SysInfoMIPS::default().uptime, 1234);
    let r = RegisterInfo::new(1, 31);
    assert_eq!((r.pc, r.sp), (1, 31));
}

#[test]
fn raw_syscall_result_becomes_io_error() {
    assert_eq!(from_raw_syscall_ret(-12), EmulatorError::Io(12));
    assert_eq!(from_raw_syscall_ret(0), EmulatorError::Io(0));
    assert_eq!(from_raw_syscall_ret(5), EmulatorError::Io(i32::MAX));
    assert_eq!(from_raw_syscall_ret(i64::MIN), EmulatorError::Io(i32::MAX));
}

#[test]
fn key_value_pairs() {
    assert_eq!(parse_key_val("HOME=/root"), Ok((b"HOME".to_vec(), b"/root".to_vec())));
    assert_eq!(parse_key_val("A=b=c"), Ok((b"A".to_vec(), b"b=c".to_vec())));
    assert_eq!(parse_key_val("=x"), Ok((vec![], b"x".to_vec())));
    assert_eq!(parse_key_val("novalue"), Err(EmulatorError::InvalidArgument));
}

#[test]
fn unreadable_stack_arguments_name_their_fault() {
    let cc = MipsCC::new(4);
    let mut m = machine();
    m.sync_reg(31, 0x9_0000);
    assert_eq!(cc.get_raw_param(&m, 4, None), Err(EmulatorError::Memory(MemoryFault::Unmapped)));
    m.sync_reg(31, u64::MAX - 4);
    assert_eq!(cc.get_raw_param(&m, 4, None), Err(EmulatorError::Execution(21)));
    m.sync_reg(31, 0x2000);
    m.take_effects();
    assert_eq!(m.stack_push(7), Ok(0x1ffc));
    let log = m.take_effects();
    assert!(matches!(log[0], Effect::RegWrite { reg: 31, value: 0x1ffc }));
    assert!(matches!(log[1], Effect::Write { addr: 0x1ffc, .. }));
}
