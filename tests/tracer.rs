use gtrace::arch::{argument_location, Register, RegisterFile};
use gtrace::tracee::append_until_nul;
use gtrace::{Notification, OsTraceError, Phase, TraceEvent, Tracee};

#[test]
fn syscall_stops_alternate_entry_and_exit() {
    let mut p = Phase::Userspace;
    let mut events = Vec::new();
    for _ in 0..4 {
        events.push(p.advance(Notification::Syscall));
    }
    assert_eq!(
        events,
        vec![TraceEvent::SysEnter, TraceEvent::SysExit, TraceEvent::SysEnter, TraceEvent::SysExit]
    );
    assert_eq!(p, Phase::Userspace);
}

#[test]
fn signal_stop_keeps_the_phase() {
    let mut p = Phase::Userspace;
    assert_eq!(p.advance(Notification::Syscall), TraceEvent::SysEnter);
    assert_eq!(p.advance(Notification::Stopped(17)), TraceEvent::Signal(17));
    assert_eq!(p, Phase::Kernelspace);
    assert_eq!(p.advance(Notification::Syscall), TraceEvent::SysExit);
    assert_eq!(p.advance(Notification::Stopped(2)), TraceEvent::Signal(2));
    assert_eq!(p.advance(Notification::Syscall), TraceEvent::SysEnter);
}

#[test]
fn exit_stop_gives_status() {
    let mut p = Phase::Kernelspace;
    assert_eq!(p.advance(Notification::Exited(3)), TraceEvent::Exit(3));
    assert_eq!(p, Phase::Kernelspace);
}

#[test]
fn nul_inside_chunk_ends_the_string() {
    let mut acc = vec![b'a', b'b'];
    let found = append_until_nul(&mut acc, &vec![b'c', 0, b'd', 0]);
    assert!(found);
    assert_eq!(acc, vec![b'a', b'b', b'c', 0]);
}

#[test]
fn chunk_without_nul_is_appended_whole() {
    let mut acc = vec![b'x'];
    let found = append_until_nul(&mut acc, &vec![b'y', b'z']);
    assert!(!found);
    assert_eq!(acc, vec![b'x', b'y', b'z']);
    let mut empty = Vec::new();
    assert!(!append_until_nul(&mut empty, &Vec::new()));
    assert!(empty.is_empty());
}

#[test]
fn nul_at_start_of_chunk() {
    let mut acc = Vec::new();
    assert!(append_until_nul(&mut acc, &vec![0, b'q']));
    assert_eq!(acc, vec![0]);
}

#[test]
fn argument_registers_follow_the_kernel_convention() {
    let regs: Vec<Register> = (0..6).map(argument_location).collect();
    assert_eq!(
        regs,
        vec![Register::Rdi, Register::Rsi, Register::Rdx, Register::R10, Register::R8, Register::R9]
    );
    let file = RegisterFile { orig_rax: 1, rax: 2, rdi: 3, rsi: 4, rdx: 5, r10: 6, r8: 7, r9: 8 };
    assert_eq!(file.get(Register::R10), 6);
    assert_eq!(file.get(Register::OrigRax), 1);
}

#[test]
fn session_over_untraced_process_fails() {
    let pid = nix::unistd::Pid::from_raw(i32::MAX);
    match Tracee::new(pid) {
        Err(OsTraceError::Sys(_)) => {}
        _ => panic!("expected an OS error"),
    }
}
