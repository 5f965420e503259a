use parch_kernel::error::ErrorNum;
use parch_kernel::fs::proc_fs::{PidProcDir, ProcEntry, ProcRootDir, SelfProcDir};
use parch_kernel::fs::types::FileType;

#[test]
fn proc_root_lists_links_then_processes() {
    let ents = ProcRootDir.read_dirent(&vec![1, 42, 1000]);
    let names: Vec<&str> = ents.iter().map(|d| d.f_name.as_str()).collect();
    assert_eq!(names, vec![".", "..", "self", "1", "42", "1000"]);
    assert!(matches!(ents[2].f_type, FileType::LINK));
    assert!(matches!(ents[4].f_type, FileType::DIR));
    assert_eq!(ents[4].permission.bits, 0o440);
    assert_eq!(ents[4].inode, 0);
}

#[test]
fn proc_root_open_entry() {
    let pids = vec![1, 42];
    assert!(matches!(ProcRootDir.open_entry("self", &pids), Ok(ProcEntry::SelfLink)));
    assert!(matches!(ProcRootDir.open_entry("..", &pids), Ok(ProcEntry::Link { link_dest, self_path }) if link_dest == "/" && self_path == "/proc/.."));
    assert!(matches!(ProcRootDir.open_entry(".", &pids), Ok(ProcEntry::Link { link_dest, .. }) if link_dest == "/proc"));
    assert!(matches!(ProcRootDir.open_entry("42", &pids), Ok(ProcEntry::PidDir(42))));
    assert!(matches!(ProcRootDir.open_entry("+42", &pids), Ok(ProcEntry::PidDir(42))));
    assert!(matches!(ProcRootDir.open_entry("7", &pids), Err(ErrorNum::ESRCH)));
    assert!(matches!(ProcRootDir.open_entry("fd", &pids), Err(ErrorNum::ENOENT)));
    assert!(matches!(ProcRootDir.open_entry("-1", &pids), Err(ErrorNum::ENOENT)));
    assert!(matches!(ProcRootDir.open_entry("", &pids), Err(ErrorNum::ENOENT)));
    assert!(matches!(ProcRootDir.open_entry("99999999999999999999999", &pids), Err(ErrorNum::ENOENT)));
}

#[test]
fn pid_dir_lists_descriptors() {
    let d = PidProcDir::new(5, &vec![3, 5]).unwrap();
    let ents = d.read_dirent(&vec![0, 1, 2, 10]);
    let names: Vec<&str> = ents.iter().map(|d| d.f_name.as_str()).collect();
    assert_eq!(names, vec![".", "..", "0", "1", "2", "10"]);
    assert!(ents.iter().all(|d| matches!(d.f_type, FileType::LINK) && d.permission.bits == 0o644));
    assert!(matches!(PidProcDir::new(4, &vec![3, 5]), Err(ErrorNum::ESRCH)));
}

#[test]
fn pid_dir_open_entry_names_the_process_as_its_debug_form() {
    let d = PidProcDir { pid: 5 };
    assert!(matches!(d.open_entry(".."), Ok(ProcEntry::Link { link_dest, self_path }) if link_dest == "/proc" && self_path == "/proc/ProcessID(5)/.."));
    assert!(matches!(d.open_entry("."), Ok(ProcEntry::Link { link_dest, self_path }) if link_dest == "/proc/ProcessID(5)" && self_path == "/proc/ProcessID(5)/."));
    assert!(matches!(d.open_entry("fd"), Ok(ProcEntry::FdDir(5))));
    assert!(matches!(d.open_entry("self"), Ok(ProcEntry::SelfLink)));
    assert!(matches!(d.open_entry("cmdline"), Err(ErrorNum::ENOENT)));
    assert_eq!(SelfProcDir.read_link(12), "/proc/12");
}
