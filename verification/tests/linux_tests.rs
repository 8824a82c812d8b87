use omo::arch::MipsCC;
use omo::engine::{Effect, Machine};
use omo::errors::{EmulatorError, MemoryFault};
use omo::loader::LoadInfo;
use omo::memory::MemRegion;
use omo::os::linux::syscall::{
    FileFlags, Rlimit, Stat64MIPS, StatMIPS, StatX8664, SysCalls, SysInfoMIPS,
};
use omo::os::linux::{
    as_raw, as_ret, get_rlimit, intr_signal, parse_syscall_table, rand_byte, syscall_id_reg, Arch,
    HostReply, HostRequest, LinuxRunner, SyscallStep, SyscallTable, TrapOutcome,
};
use omo::utils::{Endian, Permission};

fn machine() -> Machine {
    let mut m = Machine::create(Endian::Big, 4);
    m.mem_map(MemRegion { begin: 0x1000, end: 0x3000, perms: Permission { bits: 7 } }, None)
        .unwrap();
    m.take_effects();
    m
}

fn spans(m: &Machine) -> Vec<(u64, u64)> {
    (0..m.memories.len()).map(|i| (m.memories.region(i).begin, m.memories.region(i).end)).collect()
}

fn table() -> SyscallTable {
    let mut t = SyscallTable::new();
    assert!(t.add(4004, "write"));
    assert!(t.add(4045, "brk"));
    assert!(t.add(4020, "getpid"));
    assert!(t.add(4003, "read"));
    assert!(t.add(4246, "exit_group"));
    assert!(!t.add(4999, "no_such_call"));
    t
}

#[test]
fn os_test_syscall_serde() {
    assert_eq!(SysCalls::_LLSEEK.name(), "_llseek");
    let s = SysCalls::from_name("_llseek").unwrap();
    assert_eq!(s, SysCalls::_LLSEEK);
    println!("{:?}", s);
}

#[test]
fn mod_test_syscall_serde() {
    assert_eq!(SysCalls::_LLSEEK.name(), "_llseek");
    let s = SysCalls::from_name("_llseek").unwrap();
    assert_eq!(s, SysCalls::_LLSEEK);
    println!("{:?}", s);
    let names: Vec<&str> = (0..47).map(|i| SysCalls::nth(i).name()).collect();
    println!("{:?}", names);
    assert_eq!(names[0], "getpid");
    assert_eq!(names[46], "writev");
}

#[test]
fn syscall_names_round_trip() {
    for i in 0..47 {
        let c = SysCalls::nth(i);
        assert_eq!(SysCalls::from_name(c.name()), Some(c));
    }
    assert_eq!(SysCalls::from_name("MMAP2"), None);
    assert_eq!(SysCalls::from_name(""), None);
    assert_eq!(SysCalls::from_name("mmap2"), Some(SysCalls::MMAP2));
    assert_eq!(SysCalls::from_name("set_thread_area"), Some(SysCalls::SET_THREAD_AREA));
}

#[test]
fn return_values_are_twos_complement() {
    assert_eq!(as_raw(-1), u64::MAX);
    assert_eq!(as_raw(-9), u64::MAX - 8);
    assert_eq!(as_raw(5), 5);
    assert_eq!(as_ret(u64::MAX), -1);
    assert_eq!(as_ret(1 << 63), i64::MIN);
    assert_eq!(as_ret(7), 7);
    assert_eq!(as_raw(i64::MIN), 1 << 63);
}

#[test]
fn brk_zero_returns_break_unchanged() {
    let mut r = LinuxRunner::new(0x7000_0000);
    r.on_load(LoadInfo {
        entrypoint: 0,
        elf_mem_start: 0,
        elf_entry: 0,
        brk_address: 0x40_3000,
        mmap_address: 0,
        load_address: 0,
        init_stack_address: 0,
    });
    let mut m = machine();
    assert_eq!(r.brk(&mut m, 0), Ok(0x40_3000));
    assert_eq!(r.brk_address, 0x40_3000);
    assert_eq!(spans(&m), vec![(0x1000, 0x3000)]);
    assert_eq!(m.take_effects().len(), 0);
}

#[test]
fn brk_grows_and_shrinks() {
    let mut r = LinuxRunner::new(0x7000_0000);
    r.brk_address = 0x40_3000;
    let mut m = machine();
    assert_eq!(r.brk(&mut m, 0x40_4001), Ok(0x40_5000));
    assert_eq!(spans(&m), vec![(0x1000, 0x3000), (0x40_3000, 0x40_5000)]);
    assert_eq!(r.brk(&mut m, 0x40_4000), Ok(0x40_4000));
    assert_eq!(spans(&m), vec![(0x1000, 0x3000), (0x40_3000, 0x40_4000)]);
    assert_eq!(r.brk(&mut m, 0x40_4000), Ok(0x40_4000));
    assert_eq!(r.brk(&mut m, u64::MAX), Ok(0x40_4000));
    assert_eq!(r.brk_address, 0x40_4000);
}

#[test]
fn brk_into_mapped_memory_fails() {
    let mut r = LinuxRunner::new(0x7000_0000);
    r.brk_address = 0x1000;
    let mut m = Machine::create(Endian::Big, 4);
    m.mem_map(MemRegion { begin: 0x2000, end: 0x3000, perms: Permission { bits: 7 } }, None)
        .unwrap();
    assert_eq!(r.brk(&mut m, 0x2800), Err(EmulatorError::Memory(MemoryFault::Overlap)));
    assert_eq!(r.brk_address, 0x1000);
}

#[test]
fn mmap2_bumps_the_mmap_address() {
    let mut r = LinuxRunner::new(0x7000_0000);
    let mut m = machine();
    assert_eq!(r.mmap2(&mut m, 0, 0x1800, 3, 0x22, u64::MAX, 0, 2), Ok(0x7000_0000));
    assert_eq!(r.mmap_address, 0x7000_2000);
    assert_eq!(r.mmap2(&mut m, 0, 0x1000, 3, 0x22, u64::MAX, 0, 2), Ok(0x7000_2000));
    assert_eq!(r.mmap_address, 0x7000_3000);
    assert_eq!(
        spans(&m),
        vec![(0x1000, 0x3000), (0x7000_0000, 0x7000_2000), (0x7000_2000, 0x7000_3000)]
    );
    assert_eq!(m.memories.region(1).perms.bits, 3);
    assert_eq!(m.read(0x7000_0000, 8), Ok(vec![0; 8]));
}

#[test]
fn mmap2_fixed_needs_aligned_address() {
    let mut r = LinuxRunner::new(0x7000_0000);
    let mut m = machine();
    assert_eq!(r.mmap2(&mut m, 0x5001, 0x2000, 3, 0x32, 0, 0, 2), Ok(-1));
    assert_eq!(r.mmap_address, 0x7000_0000);
    assert_eq!(spans(&m), vec![(0x1000, 0x3000)]);
    assert_eq!(m.take_effects().len(), 0);
}

#[test]
fn mmap2_fixed_on_mapped_range_only_protects() {
    let mut r = LinuxRunner::new(0x7000_0000);
    let mut m = machine();
    m.write(0x1000, &[5, 5, 5, 5]).unwrap();
    m.take_effects();
    assert_eq!(r.mmap2(&mut m, 0x1000, 0x1000, 1, 0x32, 0, 0, 2), Ok(0x1000));
    assert_eq!(spans(&m), vec![(0x1000, 0x3000)]);
    assert_eq!(m.read(0x1000, 4), Ok(vec![5, 5, 5, 5]));
    let log = m.take_effects();
    assert_eq!(log.len(), 1);
    assert!(matches!(log[0], Effect::Protect { addr: 0x1000, size: 0x1000, .. }));
}

#[test]
fn mmap2_hint_in_mapped_memory_is_moved() {
    let mut r = LinuxRunner::new(0x7000_0000);
    let mut m = machine();
    assert_eq!(r.mmap2(&mut m, 0x1000, 0x1000, 3, 0x22, 0, 0, 2), Ok(0x7000_0000));
    assert_eq!(r.mmap2(&mut m, 0x9000, 0x1000, 3, 0x22, 0, 0, 2), Ok(0x9000));
    assert_eq!(r.mmap_address, 0x7000_1000);
}

#[test]
fn munmap_and_mprotect() {
    let mut r = LinuxRunner::new(0);
    let mut m = machine();
    assert_eq!(r.mprotect(&mut m, 0x1000, 0x800, 1), Ok(0));
    assert_eq!(r.munmap(&mut m, 0x2000, 0x1), Ok(0));
    assert_eq!(spans(&m), vec![(0x1000, 0x2000)]);
    assert_eq!(r.munmap(&mut m, 0x2001, 0x1), Err(EmulatorError::Memory(MemoryFault::Unaligned)));
    assert_eq!(r.mremap(&mut m, 0x1000, 0x1000, 0x2000, 0, 0), Ok(-1));
    let log = m.take_effects();
    assert!(matches!(log[0], Effect::Protect { addr: 0x1000, size: 0x1000, perms: Permission { bits: 1 } }));
    assert!(matches!(log[1], Effect::Unmap { addr: 0x2000, size: 0x1000 }));
}

#[test]
fn write_to_other_descriptor_is_ebadf() {
    let mut r = LinuxRunner::new(0);
    let mut m = machine();
    assert_eq!(r.write(&mut m, 3, 0x1000, 5), Ok(-9));
    assert_eq!(r.write(&mut m, 0, 0x1000, 5), Ok(-9));
    assert_eq!(r.write(&mut m, 1025, 0x1000, 5), Ok(-9));
    assert_eq!(r.write(&mut m, 3, 0x9000, 5), Ok(-9));
    assert_eq!(m.take_effects().len(), 0);
}

#[test]
fn write_hello_to_stdout() {
    let mut r = LinuxRunner::new(0);
    let mut m = machine();
    m.write(0x1100, b"hello").unwrap();
    m.take_effects();
    assert_eq!(r.write(&mut m, 1, 0x1100, 5), Ok(5));
    let log = m.take_effects();
    assert_eq!(log.len(), 1);
    match &log[0] {
        Effect::HostWrite { fd, data } => {
            assert_eq!(*fd, 1);
            assert_eq!(data, &b"hello".to_vec());
        }
        _ => panic!("expected a host write"),
    }
    assert_eq!(r.write(&mut m, 2, 0x9000, 5), Err(EmulatorError::Memory(MemoryFault::Unmapped)));
}

#[test]
fn writev_sums_lengths() {
    let mut r = LinuxRunner::new(0);
    let mut m = machine();
    m.write(0x1100, b"hello world").unwrap();
    m.write_ptr(0x1200, 0x1100, None).unwrap();
    m.write_ptr(0x1204, 5, None).unwrap();
    m.write_ptr(0x1208, 0x1105, None).unwrap();
    m.write_ptr(0x120c, 6, None).unwrap();
    m.take_effects();
    assert_eq!(r.writev(&mut m, 1, 0x1200, 2), Ok(11));
    let log = m.take_effects();
    assert_eq!(log.len(), 2);
    match &log[1] {
        Effect::HostWrite { fd, data } => {
            assert_eq!(*fd, 1);
            assert_eq!(data, &b" world".to_vec());
        }
        _ => panic!("expected a host write"),
    }
    assert_eq!(r.writev(&mut m, 7, 0x1200, 2), Ok(-9));
    assert_eq!(r.writev(&mut m, 2, 0x1200, 0), Ok(0));
}

#[test]
fn getrandom_is_deterministic() {
    let mut r = LinuxRunner::new(0);
    let mut a = machine();
    let mut b = machine();
    assert_eq!(r.get_random(&mut a, 0x1000, 16), Ok(16));
    assert_eq!(r.get_random(&mut b, 0x1000, 16), Ok(16));
    assert_eq!(a.read(0x1000, 16), b.read(0x1000, 16));
    assert_eq!(a.read(0x1000, 3), Ok(vec![11, 48, 85]));
    assert_eq!(rand_byte(0), 11);
    assert_eq!(rand_byte(251), 11);
    assert_eq!(rand_byte(7), ((7 * 37 + 11) % 256) as u8);
}

#[test]
fn limits_and_sysinfo() {
    assert_eq!(get_rlimit(3), Rlimit { cur: 196608, max: u32::MAX });
    assert_eq!(get_rlimit(7), Rlimit { cur: u32::MAX, max: u32::MAX });
    let mut r = LinuxRunner::new(0);
    let mut m = machine();
    assert_eq!(r.getrlimit(&mut m, 3, 0x1000), Ok(0));
    assert_eq!(m.read(0x1000, 8), Ok(vec![0, 3, 0, 0, 0xff, 0xff, 0xff, 0xff]));
    assert_eq!(r.prlimit64(&mut m, 0, 3, 0, 0x1100), Ok(0));
    assert_eq!(
        m.read(0x1100, 16),
        Ok(vec![0, 0, 0, 0, 0, 3, 0, 0, 0, 0, 0, 0, 0xff, 0xff, 0xff, 0xff])
    );
    assert_eq!(r.prlimit64(&mut m, 1, 3, 0, 0x1100), Ok(-1));
    assert_eq!(r.sysinfo(&mut m, 0x1200), Ok(0));
    let s = m.read(0x1200, 64).unwrap();
    assert_eq!(&s[0..4], &1234u32.to_be_bytes());
    assert_eq!(&s[4..8], &2000u32.to_be_bytes());
    assert_eq!(&s[16..20], &10000000u32.to_be_bytes());
    assert_eq!(&s[40..42], &[0, 1]);
    assert_eq!(SysInfoMIPS::new().encode(), s);
    m.write(0x1300, &[9; 8]).unwrap();
    assert_eq!(r.clock_gettime(&mut m, 0, 0x1300), Ok(0));
    assert_eq!(m.read(0x1300, 8), Ok(vec![0; 8]));
}

#[test]
fn stat_layouts() {
    let h = StatX8664 { st_ino: 0x1_0000_0102, st_mode: 0o100644, st_size: 0x2_0000_0007 };
    let s = StatMIPS::from_host(&h);
    assert_eq!(s, StatMIPS { st_ino: 0x102, st_mode: 0o100644, st_size: 7 });
    let b = s.encode();
    assert_eq!(b.len(), 144);
    assert_eq!(&b[16..20], &[0, 0, 1, 2]);
    assert_eq!(&b[20..24], &0o100644u32.to_be_bytes());
    assert_eq!(&b[48..52], &[0, 0, 0, 7]);
    assert_eq!(b.iter().filter(|x| **x != 0).count(), 5);
    let w = Stat64MIPS::from_host(&h);
    let b = w.encode();
    assert_eq!(b.len(), 104);
    assert_eq!(&b[16..24], &0x1_0000_0102u64.to_be_bytes());
    assert_eq!(&b[24..28], &0o100644u32.to_be_bytes());
    assert_eq!(&b[56..64], &0x2_0000_0007u64.to_be_bytes());
    assert_eq!(StatMIPS::new().encode(), vec![0; 144]);
    assert_eq!(Stat64MIPS::new().encode(), vec![0; 104]);
    assert_eq!(Rlimit { cur: 1, max: 2 }.encode(), vec![0, 0, 0, 1, 0, 0, 0, 2]);
    assert_eq!(FileFlags::O_ACCMODE.bits(), 3);
    assert_eq!(FileFlags::O_RDWR.bits(), 2);
}

#[test]
fn thread_area_and_tid() {
    let mut r = LinuxRunner::new(0);
    let mut m = machine();
    m.sync_reg(137, 0x5);
    assert_eq!(r.set_thread_area(&mut m, 0x7fff_1000), Ok(0));
    assert_eq!(m.reg_read(138), Ok(0x7fff_1000));
    assert_eq!(m.reg_read(137), Ok((1 << 13) | 0x5));
    assert_eq!(m.reg_read(4), Ok(0));
    assert_eq!(m.reg_read(9), Ok(0));
    assert_eq!(r.set_tid_address(&mut m, 0), Ok(42));
    assert_eq!(r.exit_group(&mut m, 0), Ok(0));
    assert!(matches!(m.take_effects().last().unwrap(), Effect::Stop));
}

#[test]
fn sigaction_round_trip() {
    let mut r = LinuxRunner::new(0);
    let mut m = machine();
    for i in 0..5u64 {
        m.write_ptr(0x1100 + 4 * i, 0x10 + i, None).unwrap();
    }
    assert_eq!(r.rt_sigaction(&mut m, 11, 0x1100, 0x1200), Ok(0));
    assert_eq!(m.read(0x1200, 20), Ok(vec![0; 20]));
    assert_eq!(r.rt_sigaction(&mut m, 11, 0, 0x1200), Ok(0));
    assert_eq!(m.read_ptr(0x1200, None), Ok(0x10));
    assert_eq!(m.read_ptr(0x1210, None), Ok(0x14));
    assert_eq!(r.rt_sigaction(&mut m, 11, 0x9000, 0), Err(EmulatorError::Memory(MemoryFault::Unmapped)));
}

#[test]
fn interrupt_dispatches_write() {
    let cc = MipsCC::new(4);
    let t = table();
    let mut r = LinuxRunner::new(0);
    let mut m = machine();
    m.write(0x1100, b"hello").unwrap();
    m.take_effects();
    m.sync_reg(31, 0x2000);
    m.sync_reg(4, 4004);
    m.sync_reg(6, 1);
    m.sync_reg(7, 0x1100);
    m.sync_reg(8, 5);
    m.sync_reg(9, 1);
    let out = r.on_interrupt(&mut m, &cc, &t, 17).unwrap();
    assert!(matches!(out, TrapOutcome::Step(SyscallStep::Done(5))));
    assert_eq!(m.reg_read(4), Ok(5));
    assert_eq!(m.reg_read(9), Ok(0));
    let log = m.take_effects();
    assert!(matches!(log[0], Effect::HostWrite { fd: 1, .. }));
    assert!(matches!(log[1], Effect::RegWrite { reg: 4, value: 5 }));
    assert!(matches!(log[2], Effect::RegWrite { reg: 9, value: 0 }));
}

#[test]
fn interrupt_returns_negative_errno() {
    let cc = MipsCC::new(4);
    let t = table();
    let mut r = LinuxRunner::new(0);
    let mut m = machine();
    m.sync_reg(31, 0x2000);
    m.sync_reg(4, 4004);
    m.sync_reg(6, 3);
    let out = r.on_interrupt(&mut m, &cc, &t, 17).unwrap();
    assert!(matches!(out, TrapOutcome::Step(SyscallStep::Done(-9))));
    assert_eq!(m.reg_read(4), Ok(u64::MAX - 8));
}

#[test]
fn interrupt_ignores_other_signals_and_rejects_unknown_calls() {
    let cc = MipsCC::new(4);
    let t = table();
    let mut r = LinuxRunner::new(0);
    let mut m = machine();
    m.sync_reg(4, 4004);
    assert!(matches!(r.on_interrupt(&mut m, &cc, &t, 8), Ok(TrapOutcome::Ignored)));
    m.sync_reg(4, 1234);
    assert!(matches!(r.on_interrupt(&mut m, &cc, &t, 17), Err(EmulatorError::Syscall(1234))));
    m.sync_reg(4, 4020);
    assert!(matches!(r.on_interrupt(&mut m, &cc, &t, 17), Err(EmulatorError::Syscall(0))));
    assert_eq!(m.take_effects().len(), 0);
}

#[test]
fn host_calls_are_handed_out_and_completed() {
    let cc = MipsCC::new(4);
    let mut r = LinuxRunner::new(0);
    let mut m = machine();
    m.write(0x1100, b"/etc/hosts\0").unwrap();
    m.sync_reg(31, 0x2000);
    m.sync_reg(6, 0x1100);
    m.sync_reg(7, 0x1200);
    m.take_effects();
    let step = r.handle_syscall(&mut m, &cc, SysCalls::STAT).unwrap();
    let req = match step {
        SyscallStep::Host(q) => q,
        _ => panic!("expected a host request"),
    };
    match &req {
        HostRequest::Stat { path, stat_buf, wide, follow } => {
            assert_eq!(path, &b"/etc/hosts".to_vec());
            assert_eq!(*stat_buf, 0x1200);
            assert!(!*wide);
            assert!(*follow);
        }
        _ => panic!("expected stat"),
    }
    assert_eq!(m.take_effects().len(), 0);
    let reply = HostReply {
        ret: 0,
        data: vec![],
        stat: StatX8664 { st_ino: 9, st_mode: 0o644, st_size: 120 },
    };
    assert_eq!(r.complete_host_call(&mut m, &cc, &req, &reply), Ok(0));
    assert_eq!(m.read(0x1200 + 16, 4), Ok(vec![0, 0, 0, 9]));
    assert_eq!(m.read(0x1200 + 48, 4), Ok(vec![0, 0, 0, 120]));
    assert_eq!(m.reg_read(4), Ok(0));
    let failed = HostReply { ret: -2, data: vec![], stat: reply.stat };
    assert_eq!(r.complete_host_call(&mut m, &cc, &req, &failed), Ok(-1));
    assert_eq!(m.reg_read(4), Ok(u64::MAX));
}

#[test]
fn open_adjusts_flags_and_read_copies_data() {
    let cc = MipsCC::new(4);
    let mut r = LinuxRunner::new(0);
    let mut m = machine();
    m.write(0x1100, b"f\0").unwrap();
    let step = r.open(&mut m, 0x1100, 0x2001, 0o600).unwrap();
    match step {
        SyscallStep::Host(HostRequest::Open { path, flags, mode }) => {
            assert_eq!(path, b"f".to_vec());
            assert_eq!(flags, 0x41);
            assert_eq!(mode, 0o600);
        }
        _ => panic!("expected open"),
    }
    assert!(matches!(r.open(&mut m, 0x1101, 0, 0), Ok(SyscallStep::Done(-1))));
    let req = HostRequest::Read { fd: 5, buf: 0x1800, len: 4 };
    let reply = HostReply {
        ret: 3,
        data: vec![1, 2, 3],
        stat: StatX8664 { st_ino: 0, st_mode: 0, st_size: 0 },
    };
    assert_eq!(r.complete_host_call(&mut m, &cc, &req, &reply), Ok(3));
    assert_eq!(m.read(0x1800, 4), Ok(vec![1, 2, 3, 0]));
    let req = HostRequest::Close { fd: 5 };
    assert_eq!(r.complete_host_call(&mut m, &cc, &req, &reply), Ok(0));
}

#[test]
fn syscall_table_from_json() {
    let text = "{ \"arm\": {\"1\": \"exit\"}, \"MIPS\": { \"4004\": \"write\", \"4045\": \"brk\", \"4999\": \"bogus\" } }";
    let t = parse_syscall_table(text).unwrap();
    assert_eq!(t.get(4004), Some(SysCalls::WRITE));
    assert_eq!(t.get(4045), Some(SysCalls::BRK));
    assert_eq!(t.get(4999), None);
    assert_eq!(t.get(1), None);
    assert!(matches!(parse_syscall_table("not json"), Err(EmulatorError::InvalidArgument)));
    assert!(matches!(
        parse_syscall_table("{ \"arm\": {\"1\": \"exit\"} }"),
        Err(EmulatorError::InvalidArgument)
    ));
    assert!(matches!(parse_syscall_table("{ \"mips\": 3 }"), Err(EmulatorError::InvalidArgument)));
}

#[test]
fn syscall_signals_by_architecture() {
    assert_eq!(intr_signal(Arch::MIPS), 17);
    assert_eq!(intr_signal(Arch::RISCV), 8);
    assert_eq!(intr_signal(Arch::ARM), 2);
    assert_eq!(intr_signal(Arch::ARM64), 2);
    assert_eq!(syscall_id_reg(Arch::MIPS), Some(4));
    assert_eq!(syscall_id_reg(Arch::ARM), None);
}

#[test]
fn open_fails_on_unterminated_path() {
    let mut r = LinuxRunner::new(0);
    let mut m = machine();
    m.write(0x2ffc, b"abcd").unwrap();
    assert!(matches!(
        r.open(&mut m, 0x2ffc, 0, 0),
        Err(EmulatorError::Memory(MemoryFault::Unmapped))
    ));
    assert!(matches!(
        r.open(&mut m, 0x9000, 0, 0),
        Err(EmulatorError::Memory(MemoryFault::Unmapped))
    ));
    m.sync_reg(31, 0x2000);
    m.sync_reg(6, 0x2ffc);
    let cc = MipsCC::new(4);
    assert!(matches!(
        r.handle_syscall(&mut m, &cc, SysCalls::STAT),
        Err(EmulatorError::Memory(MemoryFault::Unmapped))
    ));
    m.sync_reg(6, 0x1000);
    assert!(matches!(
        r.handle_syscall(&mut m, &cc, SysCalls::STAT),
        Ok(SyscallStep::Done(-1))
    ));
}

#[test]
fn dispatcher_runs_each_handler_on_its_arguments() {
    let cc = MipsCC::new(4);
    let mut r = LinuxRunner::new(0x7000_0000);
    r.brk_address = 0x40_3000;
    let mut m = machine();
    m.sync_reg(31, 0x2000);
    m.sync_reg(6, 0x40_3001);
    assert!(matches!(r.handle_syscall(&mut m, &cc, SysCalls::BRK), Ok(SyscallStep::Done(0x40_4000))));
    assert_eq!(spans(&m), vec![(0x1000, 0x3000), (0x40_3000, 0x40_4000)]);
    assert_eq!(m.reg_read(4), Ok(0x40_4000));
    let log = m.take_effects();
    assert!(matches!(log[0], Effect::MapRegion { begin: 0x40_3000, end: 0x40_4000, .. }));
    assert!(matches!(log[1], Effect::RegWrite { reg: 4, value: 0x40_4000 }));
    assert!(matches!(log[2], Effect::RegWrite { reg: 9, value: 0 }));

    m.sync_reg(6, 0x1100);
    m.sync_reg(7, 8);
    assert!(matches!(r.handle_syscall(&mut m, &cc, SysCalls::GETRANDOM), Ok(SyscallStep::Done(8))));
    assert_eq!(m.read(0x1100, 3), Ok(vec![11, 48, 85]));

    m.sync_reg(6, 0x9000);
    assert!(matches!(
        r.handle_syscall(&mut m, &cc, SysCalls::GETRANDOM),
        Err(EmulatorError::Memory(MemoryFault::Unmapped))
    ));
    m.take_effects();
    m.sync_reg(6, 0);
    assert!(matches!(r.handle_syscall(&mut m, &cc, SysCalls::EXIT), Ok(SyscallStep::Done(0))));
    assert!(matches!(m.take_effects()[0], Effect::Stop));
    assert!(matches!(r.handle_syscall(&mut m, &cc, SysCalls::SCHED_YIELD), Ok(SyscallStep::Done(0))));
    assert!(matches!(
        r.handle_syscall(&mut m, &cc, SysCalls::SET_TID_ADDRESS),
        Ok(SyscallStep::Done(42))
    ));
    assert!(matches!(r.handle_syscall(&mut m, &cc, SysCalls::MREMAP), Ok(SyscallStep::Done(-1))));
}

#[test]
fn dispatcher_fails_on_unreadable_stack_arguments() {
    let cc = MipsCC::new(4);
    let mut r = LinuxRunner::new(0x7000_0000);
    let mut m = machine();
    m.sync_reg(31, 0x9_0000);
    assert!(r.handle_syscall(&mut m, &cc, SysCalls::MMAP2).is_err());
    assert_eq!(m.take_effects().len(), 0);
    assert_eq!(r.mmap_address, 0x7000_0000);
}

#[test]
fn mmap2_records_rights_label_and_effects() {
    let mut r = LinuxRunner::new(0x7000_0000);
    let mut m = machine();
    assert_eq!(r.mmap2(&mut m, 0, 0x1000, 0xff01, 0x22, 0, 0, 2), Ok(0x7000_0000));
    assert_eq!(m.memories.region(1).perms.bits, 1);
    let log = m.take_effects();
    assert_eq!(log.len(), 2);
    assert!(matches!(log[0], Effect::MapRegion { begin: 0x7000_0000, end: 0x7000_1000, perms: Permission { bits: 1 } }));
    match &log[1] {
        Effect::Write { addr, data } => {
            assert_eq!(*addr, 0x7000_0000);
            assert_eq!(data, &vec![0u8; 0x1000]);
        }
        _ => panic!("expected the zero fill"),
    }
}

#[test]
fn sigaction_hands_out_the_old_record() {
    let mut r = LinuxRunner::new(0);
    let mut m = machine();
    assert_eq!(r.rt_sigaction(&mut m, 5, 0, 0x9000), Err(EmulatorError::Memory(MemoryFault::Unmapped)));
    assert_eq!(r.rt_sigaction(&mut m, 5, 0x2ff8, 0), Err(EmulatorError::Memory(MemoryFault::Unmapped)));
    m.write(0x1200, &[0xff; 20]).unwrap();
    m.take_effects();
    assert_eq!(r.rt_sigaction(&mut m, 5, 0, 0x1200), Ok(0));
    assert_eq!(m.read(0x1200, 20), Ok(vec![0; 20]));
    assert_eq!(m.take_effects().len(), 1);
}

#[test]
fn writev_fails_on_unreadable_entries() {
    let mut r = LinuxRunner::new(0);
    let mut m = machine();
    assert_eq!(r.writev(&mut m, 1, 0x9000, 1), Err(EmulatorError::Memory(MemoryFault::Unmapped)));
    m.write_ptr(0x1200, 0x9000, None).unwrap();
    m.write_ptr(0x1204, 4, None).unwrap();
    assert_eq!(r.writev(&mut m, 1, 0x1200, 1), Err(EmulatorError::Memory(MemoryFault::Unmapped)));
    assert_eq!(r.writev(&mut m, 1, 0x1200, 0x10001), Err(EmulatorError::InvalidArgument));
}

#[test]
fn host_call_completion_needs_writable_memory() {
    let cc = MipsCC::new(4);
    let mut r = LinuxRunner::new(0);
    let mut m = machine();
    let req = HostRequest::Read { fd: 5, buf: 0x9000, len: 4 };
    let reply = HostReply {
        ret: 3,
        data: vec![1, 2, 3],
        stat: StatX8664 { st_ino: 0, st_mode: 0, st_size: 0 },
    };
    m.take_effects();
    assert_eq!(
        r.complete_host_call(&mut m, &cc, &req, &reply),
        Err(EmulatorError::Memory(MemoryFault::Unmapped))
    );
    assert_eq!(m.take_effects().len(), 0);
}

#[test]
fn syscall_table_takes_the_first_mips_entry() {
    let text = "{ \"Mips\": { \"1\": \"brk\" }, \"mips\": { \"1\": \"write\" } }";
    let t = parse_syscall_table(text).unwrap();
    assert_eq!(t.get(1), Some(SysCalls::BRK));
    let empty = parse_syscall_table("{ \"mips\": {} }").unwrap();
    assert_eq!(empty.get(1), None);
}

#[test]
fn table_keeps_the_later_of_two_calls_with_one_number() {
    let mut t = SyscallTable::new();
    assert!(t.add(7, "brk"));
    assert!(t.add(7, "write"));
    assert!(!t.add(7, "nothing"));
    assert_eq!(t.get(7), Some(SysCalls::WRITE));
}
