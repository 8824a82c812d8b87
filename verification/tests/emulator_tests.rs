use omo::arch::MipsProfile;
use omo::config::OmoConfig;
use omo::emulator::{
    default_exitpoint, EmuStart, Emulator, MemAccess, RunEvent, RunUntilAction, RunUntilState,
};
use omo::errors::EmulatorError;
use omo::loader::Config;
use omo::os::linux::LinuxRunner;

fn emulator() -> Emulator {
    let conf = OmoConfig {
        os: Config {
            stack_address: 0x7ff0_0000,
            stack_size: 0x10_0000,
            load_address: 0,
            mmap_address: 0x7000_0000,
        },
    };
    Emulator::new(conf, MipsProfile::new(), LinuxRunner::new(0x7000_0000))
}

#[test]
fn default_exit_points() {
    assert_eq!(default_exitpoint(2), 0xfffff);
    assert_eq!(default_exitpoint(4), 0x8fffffff);
    assert_eq!(default_exitpoint(8), 0xffffffffffffffff);
}

#[test]
fn run_uses_defaults() {
    let e = emulator();
    assert_eq!(
        e.run(0x400000, None, None, None),
        EmuStart { begin: 0x400000, until: 0x8fffffff, timeout: 0, count: 0 }
    );
    assert_eq!(
        e.run(0x400000, Some(0x400100), Some(7), Some(9)),
        EmuStart { begin: 0x400000, until: 0x400100, timeout: 7, count: 9 }
    );
}

#[test]
fn mirrored_write_reads_back() {
    let mut e = emulator();
    assert!(e.on_mem_write(0x7fff_fff0, 4, 0x01020304));
    assert!(e.on_mem_write(0x7fff_fff5, 2, 0xaabb));
    assert_eq!(e.engine().state.memory.read_bytes(0x7fff_fff0, 8), vec![1, 2, 3, 4, 0, 0xaa, 0xbb, 0]);
    assert!(e.check_mem_read(0x7fff_fff0, 4, 0x01020304));
    assert!(e.check_mem_read(0x7fff_fff6, 1, 0xbb));
    assert!(!e.check_mem_read(0x7fff_fff0, 4, 0x01020305));
    assert!(!e.on_mem_write(0x10, 8, 1));
    assert!(!e.on_mem_write(u64::MAX - 1, 4, 1));
    assert!(!e.check_mem_read(0x10, 5, 0));
}

#[test]
fn snapshot_reads_like_live_memory() {
    let mut e = emulator();
    e.on_mem_write(0x1000, 4, 0x11223344);
    e.on_mem_write(0x2000, 4, 0);
    e.core.sync_reg(4, 7);
    let s = e.save().unwrap();
    assert_eq!(s.regs, vec![(4, 7)]);
    assert_eq!(s.memories.entries(), vec![(0x1000, [0x11, 0x22, 0x33, 0x44])]);
    for a in [0x1000u64, 0x2000, 0x3000] {
        assert_eq!(s.memories.read_bytes(a, 4), e.engine().state.memory.read_bytes(a, 4));
    }
}

#[test]
fn run_until_zero_records_the_first_instruction() {
    let mut e = emulator();
    e.core.sync_reg(1, 0x1234);
    e.on_mem_write(0x1000, 4, 5);
    let init = RunUntilState::Init { entrypoint: 0x400060, exitpoint: None, limit: None, count: 0 };
    let (state, action) = e.run_until(init, RunEvent::Begin).unwrap();
    match action {
        RunUntilAction::RecordOne(s) => {
            assert_eq!(s, EmuStart { begin: 0x400060, until: 0x8fffffff, timeout: 0, count: 1 })
        }
        _ => panic!("expected the recorded step"),
    }
    let access = vec![MemAccess { write: true, addr: 0x1004, size: 4, value: 9 }];
    e.on_mem_write(0x1004, 4, 9);
    let (state, action) = e.run_until(state, RunEvent::Recorded { access: access.clone() }).unwrap();
    assert!(matches!(state, RunUntilState::Done));
    match action {
        RunUntilAction::Finish(change) => {
            assert_eq!(change.step, 1);
            assert_eq!(change.access, access);
            assert_eq!(change.state_before.memories.entries(), vec![(0x1000, [0, 0, 0, 5])]);
            assert_eq!(
                change.state_after.memories.entries(),
                vec![(0x1000, [0, 0, 0, 5]), (0x1004, [0, 0, 0, 9])]
            );
        }
        _ => panic!("expected the change"),
    }
}

#[test]
fn run_until_count_runs_then_records() {
    let mut e = emulator();
    let init = RunUntilState::Init {
        entrypoint: 0x400060,
        exitpoint: Some(0x400200),
        limit: Some(3),
        count: 100,
    };
    let (state, action) = e.run_until(init, RunEvent::Begin).unwrap();
    match action {
        RunUntilAction::Run(s) => {
            assert_eq!(s, EmuStart { begin: 0x400060, until: 0x400200, timeout: 3, count: 100 })
        }
        _ => panic!("expected the run to the checkpoint"),
    }
    e.core.sync_reg(1, 0x400120);
    let (state, action) = e.run_until(state, RunEvent::Stopped).unwrap();
    match action {
        RunUntilAction::RecordOne(s) => {
            assert_eq!(s, EmuStart { begin: 0x400120, until: 0x400200, timeout: 3, count: 1 })
        }
        _ => panic!("expected the recorded step"),
    }
    let (_, action) = e.run_until(state, RunEvent::Recorded { access: vec![] }).unwrap();
    match action {
        RunUntilAction::Finish(change) => assert_eq!(change.step, 101),
        _ => panic!("expected the change"),
    }
}

#[test]
fn run_until_rejects_wrong_events() {
    let e = emulator();
    let init = RunUntilState::Init { entrypoint: 0, exitpoint: None, limit: None, count: 1 };
    assert!(matches!(e.run_until(init, RunEvent::Stopped), Err(EmulatorError::InvalidArgument)));
    assert!(matches!(
        e.run_until(RunUntilState::Done, RunEvent::Begin),
        Err(EmulatorError::InvalidArgument)
    ));
}

#[test]
fn word_access_check() {
    assert!(MemAccess { write: false, addr: 0x1004, size: 4, value: 0 }.is_word_access());
    assert!(!MemAccess { write: false, addr: 0x1005, size: 4, value: 0 }.is_word_access());
    assert!(!MemAccess { write: false, addr: 0x1004, size: 2, value: 0 }.is_word_access());
}

#[test]
fn load_refuses_garbage_and_keeps_runner() {
    let mut e = emulator();
    assert!(e.load(&[0; 8], &vec![], &vec![]).is_err());
    assert_eq!(e.runner().brk_address, 0);
    assert_eq!(e.runner().mmap_address, 0x7000_0000);
}

#[test]
fn consistency_checks() {
    let mut e = emulator();
    assert!(e.is_wf());
    e.on_mem_write(0x1000, 4, 1);
    assert!(e.is_wf());
    assert!(e.engine().state.memory.is_wf());
    assert!(e.engine().memories.is_wf());
    assert!(e.cc.is_valid());
    e.core.regs.pop();
    assert!(!e.is_wf());
    let mut f = emulator();
    f.cc.inner.shadow = 5;
    assert!(!f.is_wf());
    f.cc.inner.shadow = 4;
    f.core.pointer_size = 3;
    assert!(!f.is_wf());
}
