use parch_kernel::error::ErrorNum;
use parch_kernel::fs::types::{Dirent, FileType, Permission};
use parch_kernel::fs::vfs::{OpenMode, Path};
use parch_kernel::mem::types::VirtAddr;
use parch_kernel::process::{exec_stack_layout, DefaultHandlers, FileDescriptor, PCBInner, ProcessStatus, SignalNum};
use parch_kernel::syscall::{
    sys_chdir, sys_close, sys_dup, sys_getcwd, sys_getdents, sys_mkdir, sys_mmap_anon_check,
    sys_mmap_file_check, sys_open, sys_pipe, sys_sigaction, sys_signal, sys_sigreturn, sys_unknown,
    sys_exec_args, sys_exec_shebang, sys_waitpid, ChildInfo, MMAPFlag, MMAPProt, WaitStep,
    sys_fork, sys_exit, sys_ioctl_reply, exec_prepare, exec_finish,
};
use parch_kernel::scheduler::{PIDAllocator, ProcessManagerInner};
use parch_kernel::trap::{syscall_return, user_trap_step, TrapCause, TrapStep, UserRegs};

fn handlers() -> DefaultHandlers {
    DefaultHandlers {
        terminate_self: VirtAddr(0x100),
        ignore: VirtAddr(0x200),
        dump_core: VirtAddr(0x300),
        cont: VirtAddr(0x400),
        stop: VirtAddr(0x500),
    }
}

fn proc() -> PCBInner {
    PCBInner::new(handlers(), [false; 64])
}

#[test]
fn signal_numbers() {
    assert!(matches!(SignalNum::try_from(9), Ok(SignalNum::SIGKILL)));
    assert!(matches!(SignalNum::try_from(31), Ok(SignalNum::SIGSYS)));
    assert!(matches!(SignalNum::try_from(0), Err(ErrorNum::ENOSYS)));
    assert!(matches!(SignalNum::try_from(32), Err(ErrorNum::ENOSYS)));
    assert_eq!(SignalNum::SIGSEGV.code(), 11);
    assert_eq!(SignalNum::SIGSEGV.name(), "SIGSEGV");
}

#[test]
fn new_process_defaults() {
    let p = proc();
    assert_eq!(p.status, ProcessStatus::Init);
    assert!(p.files.is_empty());
    assert_eq!(p.signal_handler.len(), 31);
    assert_eq!(p.signal_handler[&11], VirtAddr(0x300));
    assert_eq!(p.signal_handler[&9], VirtAddr(0x100));
    assert_eq!(p.signal_handler[&17], VirtAddr(0x200));
    assert_eq!(p.signal_handler[&18], VirtAddr(0x400));
    assert_eq!(p.signal_handler[&19], VirtAddr(0x500));
    assert!(p.signal_enable.values().all(|b| *b));
    assert!(p.cwd.is_root());
}

#[test]
fn registered_file_is_found_and_closed() {
    let mut p = proc();
    let a = p.register_file(10).unwrap();
    let b = p.register_file(20).unwrap();
    assert_eq!((a.0, b.0), (0, 1));
    assert_eq!(p.get_file(a), Ok(10));
    assert_eq!(p.close_file(a), Ok(()));
    assert_eq!(p.get_file(a), Err(ErrorNum::EBADFD));
    assert_eq!(p.close_file(a), Err(ErrorNum::EBADFD));
    // the lowest free descriptor is taken again
    assert_eq!(p.register_file(30).unwrap().0, 0);
    assert_eq!(p.dup_file(FileDescriptor(1)).unwrap().0, 2);
    assert_eq!(p.get_file(FileDescriptor(2)), Ok(20));
    assert!(matches!(p.dup_file(FileDescriptor(9)), Err(ErrorNum::EBADFD)));
}

#[test]
fn too_many_files() {
    let mut p = proc();
    for i in 0..=4096 {
        p.register_file(i).unwrap();
    }
    assert!(matches!(p.register_file(1), Err(ErrorNum::EMFILE)));
}

#[test]
fn signals_pend_only_when_enabled() {
    let mut p = proc();
    assert_eq!(p.recv_signal(SignalNum::SIGINT), Ok(()));
    assert_eq!(p.pending_signal.len(), 1);
    p.signal_enable.insert(2, false);
    assert_eq!(p.recv_signal(SignalNum::SIGINT), Err(ErrorNum::ESIGDISABLED));
    assert_eq!(p.pending_signal.len(), 1);
    assert_eq!(sys_signal(&mut p, 15), Ok(0));
    assert_eq!(p.pending_signal.back(), Some(&SignalNum::SIGTERM));
    assert_eq!(sys_signal(&mut p, 99), Err(ErrorNum::ENOSYS));
}

#[test]
fn fork_keeps_files_and_clears_pending() {
    let mut p = proc();
    p.register_file(5).unwrap();
    p.recv_signal(SignalNum::SIGHUP).unwrap();
    p.cwd = Path::new("/home").unwrap();
    let c = p.fork();
    assert_eq!(c.status, ProcessStatus::Ready);
    assert_eq!(c.files, p.files);
    assert!(c.pending_signal.is_empty());
    assert_eq!(c.cwd.components, vec!["home".to_string()]);
}

#[test]
fn syscalls_on_descriptors() {
    let mut p = proc();
    assert_eq!(sys_close(&mut p, FileDescriptor(0)), Err(ErrorNum::EBADFD));
    let (r, w) = sys_pipe(&mut p, 7, 8).unwrap();
    assert_eq!((r.0, w.0), (0, 1));
    assert_eq!(sys_dup(&mut p, w), Ok(2));
    assert_eq!(sys_dup(&mut p, FileDescriptor(9)), Err(ErrorNum::EBADFD));
    assert_eq!(p.files.len(), 3);
    assert_eq!(sys_close(&mut p, r), Ok(0));
    assert_eq!(p.get_file(FileDescriptor(2)), Ok(8));
}

#[test]
fn syscalls_on_signals() {
    let mut p = proc();
    assert_eq!(sys_sigaction(&mut p, 10, VirtAddr(0xabc)), Ok(0));
    assert_eq!(p.signal_handler[&10], VirtAddr(0xabc));
    assert_eq!(sys_sigaction(&mut p, 0, VirtAddr(0xabc)), Err(ErrorNum::ENOSYS));
    assert_eq!(sys_sigreturn(&mut p), Err(ErrorNum::ENOSIG));
    p.signal_contexts.push(4);
    p.signal_contexts.push(6);
    assert_eq!(sys_sigreturn(&mut p), Ok(6));
    assert_eq!(p.signal_contexts, vec![4]);
    assert_eq!(sys_unknown(1234), Err(ErrorNum::ENOSYS));
}

#[test]
fn paths_of_syscalls() {
    let mut p = proc();
    p.cwd = Path::new("/home/u").unwrap();
    let rel = sys_open(&p.cwd, "docs/a.txt".to_string());
    assert_eq!(rel.components, vec!["home", "u", "docs", "a.txt"]);
    let abs = sys_open(&p.cwd, "/etc/x".to_string());
    assert_eq!(abs.components, vec!["etc", "x"]);
    let dir = sys_mkdir(&p.cwd, "/tmp".to_string());
    assert_eq!(dir.components, vec!["tmp"]);
    assert_eq!(sys_chdir(&mut p, Path::new("/a/./b/../c").unwrap(), Ok(FileType::DIR)), Ok(0));
    assert_eq!(p.cwd.components, vec!["a", "c"]);
    // a path that is no directory, or that cannot be opened, leaves the cwd
    assert_eq!(sys_chdir(&mut p, Path::new("/etc/x").unwrap(), Ok(FileType::REGULAR)), Err(ErrorNum::EBADTYPE));
    assert_eq!(sys_chdir(&mut p, Path::new("/nope").unwrap(), Err(ErrorNum::ENOENT)), Err(ErrorNum::ENOENT));
    assert_eq!(p.cwd.components, vec!["a", "c"]);
}

#[test]
fn getcwd_cuts_to_the_buffer() {
    let cwd = Path::new("/home/user").unwrap();
    assert_eq!(sys_getcwd(&cwd, 64), b"/home/user\0".to_vec());
    assert_eq!(sys_getcwd(&cwd, 5), b"/hom\0".to_vec());
    assert_eq!(sys_getcwd(&cwd, 1), b"\0".to_vec());
}

#[test]
fn getdents_hands_out_records() {
    let list = vec![
        Dirent { inode: 3, permission: Permission::default(), f_type: FileType::REGULAR, f_name: "a".to_string() },
        Dirent { inode: 4, permission: Permission::default(), f_type: FileType::DIR, f_name: "bc".to_string() },
    ];
    let recs = sys_getdents(&list, 1);
    assert_eq!(recs.len(), 1);
    assert_eq!(recs[0].inode, 3);
    assert_eq!(recs[0].f_type, 0o004);
    assert_eq!(recs[0].name[0], b'a');
    assert_eq!(recs[0].name[1], 0);
    let all = sys_getdents(&list, 10);
    assert_eq!(all.len(), 2);
    assert_eq!(all[1].f_type, 0o020);
    assert_eq!(&all[1].name[0..3], b"bc\0");
}

#[test]
fn mmap_checks() {
    let rw = OpenMode { bits: OpenMode::READ | OpenMode::WRITE };
    let prot_w = MMAPProt::from_bits(MMAPProt::READ | MMAPProt::WRITE).unwrap();
    let prot_x = MMAPProt::from_bits(MMAPProt::EXEC).unwrap();
    assert_eq!(sys_mmap_file_check(10, 5, rw, &prot_w), Err(ErrorNum::EOOR));
    assert_eq!(sys_mmap_file_check(5, 5, rw, &prot_w), Ok(()));
    assert_eq!(sys_mmap_file_check(5, 5, OpenMode { bits: OpenMode::READ }, &prot_w), Err(ErrorNum::EPERM));
    assert_eq!(sys_mmap_file_check(5, 5, rw, &prot_x), Err(ErrorNum::EPERM));
    assert_eq!(sys_mmap_anon_check(FileDescriptor(usize::MAX)), Ok(()));
    assert_eq!(sys_mmap_anon_check(FileDescriptor(3)), Err(ErrorNum::EINVAL));
    assert!(MMAPProt::from_bits(8).is_none());
    assert!(MMAPFlag::from_bits(0x30).is_some());
    assert!(MMAPFlag::from_bits(0x1).is_none());
}

#[test]
fn waitpid_reaps_the_first_ended_child() {
    let c = |pid: usize, status: ProcessStatus, code: Option<isize>| ChildInfo { pid, status, exit_code: code };
    let mut kids = vec![
        c(2, ProcessStatus::Running, None),
        c(3, ProcessStatus::Zombie, Some(7)),
        c(4, ProcessStatus::Ready, None),
        c(5, ProcessStatus::Zombie, Some(-1)),
    ];
    // a pending signal interrupts the wait
    assert_eq!(sys_waitpid(true, &mut kids), WaitStep::Interrupted);
    assert_eq!(kids.len(), 4);
    assert_eq!(sys_waitpid(false, &mut kids), WaitStep::Reaped(3, 7));
    // the living children stay first, the other ended one follows
    assert_eq!(kids, vec![c(2, ProcessStatus::Running, None), c(4, ProcessStatus::Ready, None), c(5, ProcessStatus::Zombie, Some(-1))]);
    assert_eq!(sys_waitpid(false, &mut kids), WaitStep::Reaped(5, -1));
    assert_eq!(sys_waitpid(false, &mut kids), WaitStep::Sleep);
    assert_eq!(kids.len(), 2);
}

#[test]
fn exec_reads_the_script_line() {
    assert_eq!(sys_exec_shebang(b"#! /bin/ sh\necho"), Some(b"/bin/sh".to_vec()));
    assert_eq!(sys_exec_shebang(b"#!/bin/lua\r\n"), Some(b"/bin/lua".to_vec()));
    assert_eq!(sys_exec_shebang(b"\x7fELF"), None);
    assert_eq!(sys_exec_shebang(b"#!\n"), Some(vec![]));
}

#[test]
fn exec_arguments() {
    let path = Path::new("/bin/hello").unwrap();
    let args = sys_exec_args(None, &path, vec![b"a".to_vec(), b"bc".to_vec()]);
    assert_eq!(args, vec![b"/bin/hello\0".to_vec(), b"a\0".to_vec(), b"bc\0".to_vec()]);
    let args = sys_exec_args(Some(b"/bin/sh".to_vec()), &path, vec![]);
    assert_eq!(args, vec![b"/bin/sh\0".to_vec(), b"/bin/hello\0".to_vec()]);
}

#[test]
fn exec_resets_signals_and_keeps_files() {
    let mut p = PCBInner::new(handlers(), [false; 64]);
    p.status = ProcessStatus::Running;
    p.register_file(7).unwrap();
    p.recv_signal(SignalNum::SIGUSR1).unwrap();
    p.signal_contexts.push(3);
    p.exec(VirtAddr(0x1000), VirtAddr(0x5000), handlers(), [true; 64]);
    assert_eq!(p.entry_point, VirtAddr(0x1000));
    assert_eq!(p.data_end, VirtAddr(0x5000));
    assert!(p.pending_signal.is_empty());
    assert!(p.signal_contexts.is_empty());
    assert_eq!(p.files.len(), 1);
    assert!(p.trace_enabled[0]);
}

#[test]
fn exec_stack_layout_puts_arguments_below_the_top() {
    let args = vec![b"/bin/sh\0".to_vec(), b"x\0".to_vec()];
    let (addrs, argv) = exec_stack_layout(0x1000, &args);
    assert_eq!(addrs, vec![0x1000 - 8, 0x1000 - 10]);
    assert_eq!(argv, 0x1000 - 10 - 3 * 8);
}

#[test]
fn fork_links_and_queues_the_child() {
    let mut parent = proc();
    parent.cwd = Path::new("/home").unwrap();
    let (_r, _w) = sys_pipe(&mut parent, 7, 8).unwrap();
    let mut children = vec![4];
    let mut pids = PIDAllocator::new();
    pids.next();
    let mut manager = ProcessManagerInner::new();
    manager.dequeue(0);
    let child = sys_fork(1, &parent, &mut children, &mut pids, &mut manager, 0, Ok(())).unwrap();
    assert_eq!(child.pid, 2);
    assert_eq!(child.parent, 1);
    assert_eq!((child.a0, child.a1), (0, 0));
    assert_eq!(child.inner.status, ProcessStatus::Ready);
    assert_eq!(child.inner.files, parent.files);
    assert_eq!(child.inner.cwd.components, vec!["home"]);
    assert_eq!(children, vec![4, 2]);
    assert_eq!(manager.process_list.back(), Some(&2));
    // a failed copy of the address space answers its error; the number is used up
    assert!(matches!(sys_fork(1, &parent, &mut children, &mut pids, &mut manager, 0, Err(ErrorNum::ENOMEM)), Err(ErrorNum::ENOMEM)));
    assert_eq!(children, vec![4, 2]);
    assert_eq!(pids.next(), 4);
}

#[test]
fn exit_hands_children_to_init() {
    let mut p = proc();
    let mut children = vec![5, 6];
    let mut init_children = vec![2];
    let mut manager = ProcessManagerInner::new();
    manager.process_list.push_back(3);
    manager.dequeue(1);
    sys_exit(&mut p, &mut children, &mut init_children, &mut manager, 1, -2);
    assert_eq!(p.status, ProcessStatus::Zombie);
    assert_eq!(p.exit_code, Some(-2));
    assert_eq!(init_children, vec![2, 5, 6]);
    assert!(children.is_empty());
    assert_eq!(manager.running_list[1], None);
}

#[test]
fn ioctl_reply_must_fit() {
    assert_eq!(sys_ioctl_reply(&vec![1, 2, 3], 3), Ok(3));
    assert_eq!(sys_ioctl_reply(&vec![1, 2, 3], 2), Err(ErrorNum::EOVERFLOW));
}

#[test]
fn exec_runs_the_script_interpreter_or_the_file() {
    let path = Path::new("/home/run.sh").unwrap();
    let argv = vec![b"x".to_vec()];
    let plan = exec_prepare(&path, Ok(b"#! /bin/sh\nexit\n".to_vec()), argv.clone()).unwrap();
    assert_eq!(plan.program.components, vec!["bin", "sh"]);
    assert_eq!(plan.args, vec![b"/bin/sh\0".to_vec(), b"/home/run.sh\0".to_vec(), b"x\0".to_vec()]);
    let plain = exec_prepare(&path, Ok(vec![0x7f, b'E', b'L', b'F']), argv.clone()).unwrap();
    assert_eq!(plain.program.components, vec!["home", "run.sh"]);
    assert_eq!(plain.args, vec![b"/home/run.sh\0".to_vec(), b"x\0".to_vec()]);
    assert!(matches!(exec_prepare(&path, Err(ErrorNum::ENOENT), argv.clone()), Err(ErrorNum::ENOENT)));
    assert!(matches!(exec_prepare(&path, Ok(vec![b'#', b'!', 0xff, b'\n']), argv), Err(ErrorNum::ENOENT)));

    let mut p = proc();
    p.status = ProcessStatus::Running;
    p.entry_point = VirtAddr(0x10);
    assert_eq!(exec_finish(&mut p, &plan, Err(ErrorNum::EBADTYPE), handlers(), [false; 64]), Err(ErrorNum::EBADTYPE));
    assert_eq!(p.entry_point, VirtAddr(0x10));
    assert_eq!(exec_finish(&mut p, &plan, Ok((VirtAddr(0x1000), VirtAddr(0x5000))), handlers(), [false; 64]), Ok(3));
    assert_eq!(p.entry_point, VirtAddr(0x1000));
    assert_eq!(p.data_end, VirtAddr(0x5000));
}

#[test]
fn user_traps_are_decided_by_cause() {
    let mut p = proc();
    let regs0 = UserRegs { epc: 0, a0: 1, a1: 2, a2: 3, a3: 4, a4: 5, a5: 6, a7: 64 };
    let mut regs = regs0;
    match user_trap_step(TrapCause::UserEnvCall, 0x1000, 0, &mut regs, &mut p) {
        TrapStep::Syscall(id, args) => {
            assert_eq!(id, 64);
            assert_eq!(args, [1, 2, 3, 4, 5, 6]);
        }
        _ => panic!("a system call was expected"),
    }
    assert_eq!(regs.epc, 0x1004);
    syscall_return(&mut regs, Ok(7), 99);
    assert_eq!(regs.a0, 7);
    syscall_return(&mut regs, Err(ErrorNum::EBADFD), 99);
    assert_eq!(regs.a0, 99);
    let mut r2 = regs0;
    assert!(matches!(user_trap_step(TrapCause::SupervisorTimer, 0x2000, 0, &mut r2, &mut p), TrapStep::Yield));
    assert_eq!(r2.epc, 0x2000);
    assert!(matches!(user_trap_step(TrapCause::SupervisorSoft, 0x2000, 0b110, &mut r2, &mut p), TrapStep::ClearSoftThenYield(0b100)));
    assert!(matches!(user_trap_step(TrapCause::Other, 0x3000, 0, &mut r2, &mut p), TrapStep::Resume));
    assert_eq!(p.pending_signal.back(), Some(&SignalNum::SIGSEGV));
}
