//! The decisions of the system calls: what each does to the calling
//! process's bookkeeping and what it answers.  Reading and writing user
//! memory, and the files themselves, are the caller's part.
use vstd::prelude::*;
use vstd::string::{StringExecFns, StrSliceExecFns};
use crate::error::ErrorNum;
use crate::fs::types::{Dirent, FileType, file_type_code};
use crate::fs::vfs::{OpenMode, Path, path_pieces, pieces_ok, reduced, texts_of};
use crate::mem::types::VirtAddr;
use crate::process::{DefaultHandlers, FileDescriptor, PCBInner, ProcessStatus, SignalNum, signal_of, signal_code, lowest_free_fd, default_handler_map, default_mask_map};
use crate::text::string_from_utf8;
use vstd::utf8::{valid_utf8, decode_utf8};
use crate::config::{MAX_CPUS, MAX_FD, PAGE_SIZE, PHYS_END_ADDR, PROC_K_STACK_ADDR};
use crate::scheduler::{PIDAllocator, ProcessManagerInner};
use crate::mem::pagetable::{MemModel, PageMem, PageTable, tables_ok, walk_spec};
use crate::mem::segment::{ManagedSegment, VMASegment, lazy_run, file_run};
use crate::mem::types::{VirtPageNum, page_ceil};

verus! {

broadcast use vstd::laws_cmp::group_laws_cmp, vstd::std_specs::btree::group_btree_axioms;

/// Closes the descriptor `fd` of the calling process.
pub fn sys_close(proc: &mut PCBInner, fd: FileDescriptor) -> (r: Result<usize, ErrorNum>)
    ensures
        old(proc).files@.contains_key(fd.0) ==> r == Ok::<usize, ErrorNum>(0) && final(proc).files@ == old(
            proc,
        ).files@.remove(fd.0),
        !old(proc).files@.contains_key(fd.0) ==> r == Err::<usize, ErrorNum>(ErrorNum::EBADFD)
            && final(proc).files@ == old(proc).files@,
{
    proc.close_file(fd)?;
    Ok(0)
}

/// Opens the file of `fd` under a second descriptor; the new descriptor.
pub fn sys_dup(proc: &mut PCBInner, fd: FileDescriptor) -> (r: Result<usize, ErrorNum>)
    ensures
        !old(proc).files@.contains_key(fd.0) ==> r == Err::<usize, ErrorNum>(ErrorNum::EBADFD),
        old(proc).files@.contains_key(fd.0) && old(proc).files@.len() > MAX_FD ==> r == Err::<usize, ErrorNum>(
            ErrorNum::EMFILE,
        ),
        old(proc).files@.contains_key(fd.0) && old(proc).files@.len() <= MAX_FD ==> r == Ok::<usize, ErrorNum>(
            lowest_free_fd(old(proc).files@),
        ) && final(proc).files@ == old(proc).files@.insert(r->Ok_0, old(proc).files@[fd.0]),
        r is Err ==> final(proc).files@ == old(proc).files@,
{
    match proc.dup_file(fd) {
        Ok(d) => Ok(d.0),
        Err(e) => Err(e),
    }
}

/// Sets the handler of the signal numbered `signum` to `handler`; `ENOSYS`
/// when no signal has that number.
pub fn sys_sigaction(proc: &mut PCBInner, signum: usize, handler: VirtAddr) -> (r: Result<usize, ErrorNum>)
    ensures
        signal_of(signum) is None ==> r == Err::<usize, ErrorNum>(ErrorNum::ENOSYS) && final(proc).signal_handler@
            == old(proc).signal_handler@,
        signal_of(signum) is Some ==> r == Ok::<usize, ErrorNum>(0) && final(proc).signal_handler@ == old(
            proc,
        ).signal_handler@.insert(signum, handler),
        final(proc).files@ == old(proc).files@,
        final(proc).signal_enable@ == old(proc).signal_enable@,
{
    let signal = SignalNum::try_from(signum)?;
    proof {
        crate::process::lemma_signal_code(signal);
    }
    proc.signal_handler.insert(signal.code(), handler);
    Ok(0)
}

/// Takes the last saved signal context back: the slot it is kept in, to
/// be restored as the user's registers (the call then answers 0);
/// `ENOSIG` when none is saved.
pub fn sys_sigreturn(proc: &mut PCBInner) -> (r: Result<usize, ErrorNum>)
    ensures
        old(proc).signal_contexts@.len() == 0 ==> r == Err::<usize, ErrorNum>(ErrorNum::ENOSIG)
            && final(proc).signal_contexts@ == old(proc).signal_contexts@,
        old(proc).signal_contexts@.len() > 0 ==> r == Ok::<usize, ErrorNum>(old(proc).signal_contexts@.last())
            && final(proc).signal_contexts@ == old(proc).signal_contexts@.drop_last(),
        final(proc).files@ == old(proc).files@,
{
    match proc.signal_contexts.pop() {
        Some(ctx) => Ok(ctx),
        None => Err(ErrorNum::ENOSIG),
    }
}

/// Sends the signal numbered `signum` to `target`; `ENOSYS` when no
/// signal has that number, `ESIGDISABLED` when the target does not take it.
pub fn sys_signal(target: &mut PCBInner, signum: usize) -> (r: Result<usize, ErrorNum>)
    ensures
        signal_of(signum) is None ==> r == Err::<usize, ErrorNum>(ErrorNum::ENOSYS)
            && final(target).pending_signal@ == old(target).pending_signal@,
        signal_of(signum) matches Some(s) ==> {
            let enabled = old(target).signal_enable@.contains_key(signum) && old(target).signal_enable@[signum];
            &&& enabled ==> r == Ok::<usize, ErrorNum>(0) && final(target).pending_signal@ == old(
                target,
            ).pending_signal@.push(s)
            &&& !enabled ==> r == Err::<usize, ErrorNum>(ErrorNum::ESIGDISABLED) && final(target).pending_signal@
                == old(target).pending_signal@
        },
{
    let signal = SignalNum::try_from(signum)?;
    proof {
        crate::process::lemma_signal_code(signal);
        assert(signal_code(signal) == signum) by {
            assert(signal_of(signum) == Some(signal));
        }
    }
    target.recv_signal(signal)?;
    Ok(0)
}

/// Any system call that has no number of its own: `ENOSYS`.
pub fn sys_unknown(syscall_id: usize) -> (r: Result<usize, ErrorNum>)
    ensures
        r == Err::<usize, ErrorNum>(ErrorNum::ENOSYS),
{
    Err(ErrorNum::ENOSYS)
}

/// Opens `r` and `w`, the two ends of a new pipe, under the lowest free
/// descriptors, in that order.
pub fn sys_pipe(proc: &mut PCBInner, r_end: usize, w_end: usize) -> (r: Result<(FileDescriptor, FileDescriptor), ErrorNum>)
    ensures
        old(proc).files@.len() > MAX_FD ==> r == Err::<(FileDescriptor, FileDescriptor), ErrorNum>(ErrorNum::EMFILE),
        old(proc).files@.len() <= MAX_FD ==> {
            let f1 = old(proc).files@.insert(lowest_free_fd(old(proc).files@), r_end);
            &&& f1.len() > MAX_FD ==> r == Err::<(FileDescriptor, FileDescriptor), ErrorNum>(ErrorNum::EMFILE)
                && final(proc).files@ == f1
            &&& f1.len() <= MAX_FD ==> r == Ok::<(FileDescriptor, FileDescriptor), ErrorNum>(
                (FileDescriptor(lowest_free_fd(old(proc).files@)), FileDescriptor(lowest_free_fd(f1))),
            ) && final(proc).files@ == f1.insert(lowest_free_fd(f1), w_end)
        },
{
    let r_fd = proc.register_file(r_end)?;
    let w_fd = proc.register_file(w_end)?;
    Ok((r_fd, w_fd))
}

/// The path that a path text names for a process working in `cwd`: the
/// text itself when it starts with a slash, else the text after `cwd`.
pub open spec fn resolved(cwd: Seq<Seq<char>>, path: Seq<char>) -> Seq<Seq<char>> {
    if path.len() > 0 && path[0] == '/' {
        path_pieces(path)
    } else {
        cwd + path_pieces(path)
    }
}

/// What `open` opens: the path that the text `path` names for a process
/// working in `cwd`.
/// The text must name a path.
pub fn sys_open(cwd: &Path, path: String) -> (r: Path)
    requires
        pieces_ok(path_pieces(path@)),
    ensures
        r@ == resolved(cwd@, path@),
{
    let st = path.as_str();
    let absolute = st.unicode_len() > 0 && st.get_char(0) == '/';
    let p = match Path::new_s(path) {
        Ok(p) => p,
        Err(_) => {
            proof {
                assert(false);
            }
            Path::root()
        },
    };
    if absolute {
        p
    } else {
        cwd.concat(&p)
    }
}

/// What `mkdir` makes: the path a directory is made at for a process
/// working in `cwd`: the
/// text after the root when it starts with a slash, else after `cwd`.  The
/// text must name a path.
pub fn sys_mkdir(cwd: &Path, path: String) -> (r: Path)
    requires
        pieces_ok(path_pieces(path@)),
    ensures
        r@ == resolved(cwd@, path@),
{
    let st = path.as_str();
    let absolute = st.unicode_len() > 0 && st.get_char(0) == '/';
    let prefix = if !absolute {
        cwd.clone()
    } else {
        Path::root()
    };
    let p = match Path::new_s(path) {
        Ok(p) => p,
        Err(_) => {
            proof {
                assert(false);
            }
            Path::root()
        },
    };
    let r = prefix.concat(&p);
    proof {
        if absolute {
            assert(r@ =~= p@);
        }
    }
    r
}

/// Moves the process into `path` (resolved against its working directory,
/// as `sys_open` does), with its `.` and `..` components worked out, when
/// opening it found a directory: `found` is what opening it gave, the kind
/// of file or the error.  The error of opening is answered as it is, and
/// `EBADTYPE` when the file is no directory; the process is then left as it
/// was.
pub fn sys_chdir(proc: &mut PCBInner, path: Path, found: Result<FileType, ErrorNum>) -> (r: Result<usize, ErrorNum>)
    ensures
        found is Err ==> r == Err::<usize, ErrorNum>(found->Err_0) && *final(proc) == *old(proc),
        found is Ok && found->Ok_0 != FileType::DIR ==> r == Err::<usize, ErrorNum>(ErrorNum::EBADTYPE)
            && *final(proc) == *old(proc),
        found == Ok::<FileType, ErrorNum>(FileType::DIR) ==> r == Ok::<usize, ErrorNum>(0) && final(proc).cwd@
            == reduced(path@) && final(proc).files@ == old(proc).files@,
{
    match found {
        Err(e) => Err(e),
        Ok(FileType::DIR) => {
            let mut p = path;
            p.reduce();
            proc.cwd = p;
            Ok(0)
        },
        Ok(_) => Err(ErrorNum::EBADTYPE),
    }
}

/// The text of a path: a slash, then its components, each followed by a
/// slash unless it is the same text as the last component.
pub open spec fn path_text(c: Seq<Seq<char>>) -> Seq<char> {
    seq!['/'] + comps_text(c, c.len() as int)
}

/// The text of the first `n` components of `c`, as `path_text` writes them.
pub open spec fn comps_text(c: Seq<Seq<char>>, n: int) -> Seq<char>
    decreases n,
{
    if n <= 0 {
        seq![]
    } else {
        comps_text(c, n - 1) + c[n - 1] + if c[n - 1] != c.last() {
            seq!['/']
        } else {
            seq![]
        }
    }
}

/// The bytes `getcwd` writes for a buffer of `length` bytes: the text of the
/// working directory, cut to `length - 1` bytes when it does not fit, and a
/// NUL byte.
pub open spec fn cwd_bytes(cwd: Seq<Seq<char>>, length: int) -> Seq<u8> {
    let b = vstd::utf8::encode_utf8(path_text(cwd));
    (if b.len() >= length - 1 {
        b.take(length - 1)
    } else {
        b
    }).push(0u8)
}

impl Path {
    /// The text of the path, as the kernel prints it.
    pub fn to_text(&self) -> (r: String)
        ensures
            r@ == path_text(self@),
    {
        let mut out = String::from_str("/");
        proof {
            reveal_strlit("/");
            assert(out@ =~= seq!['/'] + comps_text(self@, 0));
        }
        let n = self.components.len();
        let mut i: usize = 0;
        while i < n
            invariant
                n == self@.len(),
                i <= n,
                out@ == seq!['/'] + comps_text(self@, i as int),
            decreases n - i,
        {
            let ghost before = out@;
            out.append(self.components[i].as_str());
            if !(self.components[i] == self.components[n - 1]) {
                out.append("/");
                proof {
                    reveal_strlit("/");
                }
            }
            proof {
                assert(self@[i as int] == self.components@[i as int]@);
                assert(self@.last() == self.components@[n - 1]@);
                assert(out@ =~= seq!['/'] + comps_text(self@, i + 1));
            }
            i = i + 1;
        }
        out
    }
}

/// The bytes that `getcwd` writes into a buffer of `length` bytes.
pub fn sys_getcwd(cwd: &Path, length: usize) -> (r: Vec<u8>)
    requires
        length >= 1,
    ensures
        r@ == cwd_bytes(cwd@, length as int),
{
    let text = cwd.to_text();
    let bytes = text.as_str().as_bytes();
    let mut out: Vec<u8> = Vec::new();
    let keep = if bytes.len() >= length - 1 {
        length - 1
    } else {
        bytes.len()
    };
    let mut i: usize = 0;
    while i < keep
        invariant
            keep <= bytes@.len(),
            i <= keep,
            out@ == bytes@.take(i as int),
        decreases keep - i,
    {
        out.push(bytes[i]);
        proof {
            assert(bytes@.take(i + 1) =~= bytes@.take(i as int).push(bytes@[i as int]));
        }
        i = i + 1;
    }
    out.push(0);
    proof {
        assert(bytes@.take(bytes@.len() as int) =~= bytes@);
    }
    out
}

/// A directory entry as `getdents` hands it to the user: the inode, the
/// number of the file's kind, and the name's bytes padded with zeros.
#[derive(Clone, Copy)]
pub struct SyscallDirent {
    pub inode: u32,
    pub f_type: u16,
    pub name: [u8; 122],
}

/// A directory entry as the user gets it.
pub open spec fn user_dirent(d: crate::fs::types::DirentModel) -> (u32, u16, Seq<u8>) {
    let b = vstd::utf8::encode_utf8(d.name);
    (d.inode, file_type_code(d.f_type), b + Seq::new((122 - b.len()) as nat, |i: int| 0u8))
}

impl SyscallDirent {
    /// The entry `src` as the user gets it; its name must fit.
    pub fn from_dirent(src: &Dirent) -> (r: Self)
        requires
            vstd::utf8::encode_utf8(src.f_name@).len() <= 122,
        ensures
            (r.inode, r.f_type, r.name@) == user_dirent(src@),
    {
        let bytes = src.f_name.as_str().as_bytes();
        let mut name = [0u8; 122];
        let mut j: usize = 0;
        let n = bytes.len();
        while j < n
            invariant
                n == bytes@.len(),
                n <= 122,
                j <= n,
                forall|q: int| 0 <= q < j ==> name@[q] == bytes@[q],
                forall|q: int| n <= q < 122 ==> name@[q] == 0u8,
            decreases n - j,
        {
            name[j] = bytes[j];
            j = j + 1;
        }
        let r = SyscallDirent { inode: src.inode, f_type: src.f_type.code(), name };
        proof {
            let b = vstd::utf8::encode_utf8(src.f_name@);
            assert(name@ =~= b + Seq::new((122 - b.len()) as nat, |i: int| 0u8));
        }
        r
    }
}

/// The entries `getdents` hands out for a buffer of `count` entries: the
/// first `count` of the directory's entries.
pub fn sys_getdents(dirents: &Vec<Dirent>, count: usize) -> (r: Vec<SyscallDirent>)
    requires
        forall|i: int| 0 <= i < dirents@.len() ==> vstd::utf8::encode_utf8(#[trigger] dirents@[i]@.name).len() <= 122,
    ensures
        r@.len() == if count < dirents@.len() {
            count as int
        } else {
            dirents@.len() as int
        },
        forall|i: int| 0 <= i < r@.len() ==> (#[trigger] r@[i].inode, r@[i].f_type, r@[i].name@) == user_dirent(dirents@[i]@),
{
    let mut out: Vec<SyscallDirent> = Vec::new();
    let mut idx: usize = 0;
    while idx < dirents.len() && idx < count
        invariant
            idx <= dirents@.len(),
            idx <= count,
            out@.len() == idx,
            forall|i: int| 0 <= i < dirents@.len() ==> vstd::utf8::encode_utf8(#[trigger] dirents@[i]@.name).len() <= 122,
            forall|i: int| 0 <= i < out@.len() ==> (#[trigger] out@[i].inode, out@[i].f_type, out@[i].name@) == user_dirent(dirents@[i]@),
        decreases dirents@.len() - idx,
    {
        proof {
            assert(vstd::utf8::encode_utf8(dirents@[idx as int]@.name).len() <= 122);
        }
        let d = SyscallDirent::from_dirent(&dirents[idx]);
        out.push(d);
        idx = idx + 1;
    }
    out
}

/// The protections `mmap` may ask for.
pub struct MMAPProt {
    pub bits: usize,
}

impl MMAPProt {
    pub const READ: usize = 1;
    pub const WRITE: usize = 2;
    pub const EXEC: usize = 4;

    /// The protection `bits`; `None` when a bit is not a protection.
    pub fn from_bits(bits: usize) -> (r: Option<Self>)
        ensures
            bits & !7usize == 0 ==> (r matches Some(p) && p.bits == bits),
            bits & !7usize != 0 ==> r is None,
    {
        if bits & !7usize == 0 {
            Some(MMAPProt { bits })
        } else {
            None
        }
    }
}

/// The flags of `mmap`.
pub struct MMAPFlag {
    pub bits: usize,
}

impl MMAPFlag {
    pub const FIXED: usize = 0x10;
    pub const ANONYMOUS: usize = 0x20;

    /// The flags `bits`; `None` when a bit is not a flag.
    pub fn from_bits(bits: usize) -> (r: Option<Self>)
        ensures
            bits & !0x30usize == 0 ==> (r matches Some(p) && p.bits == bits),
            bits & !0x30usize != 0 ==> r is None,
    {
        if bits & !0x30usize == 0 {
            Some(MMAPFlag { bits })
        } else {
            None
        }
    }
}

/// The checks of mapping `length` bytes of a file that is `file_size` bytes
/// long and was opened in `mode`, with the protection `prot`: `EOOR` when the
/// file is shorter; `EPERM` when writing or running is asked of a file not
/// opened for it.
pub open spec fn mmap_file_spec(length: usize, file_size: usize, mode: OpenMode, prot: usize) -> Result<(), ErrorNum> {
    if length > file_size {
        Err(ErrorNum::EOOR)
    } else if prot & 2 == 2 && mode.bits & OpenMode::WRITE != OpenMode::WRITE {
        Err(ErrorNum::EPERM)
    } else if prot & 4 == 4 && mode.bits & OpenMode::EXEC != OpenMode::EXEC {
        Err(ErrorNum::EPERM)
    } else {
        Ok(())
    }
}

/// The checks of mapping a file into memory.
pub fn sys_mmap_file_check(length: usize, file_size: usize, mode: OpenMode, prot: &MMAPProt) -> (r: Result<(), ErrorNum>)
    ensures
        r == mmap_file_spec(length, file_size, mode, prot.bits),
{
    if length > file_size {
        return Err(ErrorNum::EOOR);
    }
    if prot.bits & MMAPProt::WRITE == MMAPProt::WRITE && !mode.contains(OpenMode::WRITE) {
        return Err(ErrorNum::EPERM);
    }
    if prot.bits & MMAPProt::EXEC == MMAPProt::EXEC && !mode.contains(OpenMode::EXEC) {
        return Err(ErrorNum::EPERM);
    }
    Ok(())
}

/// The check of an anonymous mapping: it names no file, so its descriptor
/// must be `usize::MAX`; `EINVAL` for any other.
pub fn sys_mmap_anon_check(fd: FileDescriptor) -> (r: Result<(), ErrorNum>)
    ensures
        fd.0 == usize::MAX ==> r is Ok,
        fd.0 != usize::MAX ==> r == Err::<(), ErrorNum>(ErrorNum::EINVAL),
{
    if fd.0 != usize::MAX {
        return Err(ErrorNum::EINVAL);
    }
    Ok(())
}

/// A child of the calling process, as `waitpid` sees it: its number, where
/// it is in its life, and its exit code once it has one.
#[derive(Clone, Copy, PartialEq, Eq, Structural, Debug)]
pub struct ChildInfo {
    pub pid: usize,
    pub status: ProcessStatus,
    pub exit_code: Option<isize>,
}

/// What one round of `waitpid` comes to.
#[derive(Clone, Copy, PartialEq, Eq, Structural, Debug)]
pub enum WaitStep {
    /// A signal is pending: the call fails with `EINTR`.
    Interrupted,
    /// This child has ended and is reaped: its number and exit code.
    Reaped(usize, isize),
    /// No child has ended yet: the caller sleeps and tries again.
    Sleep,
}

/// The children that have not ended, in order.
pub open spec fn living(cs: Seq<ChildInfo>) -> Seq<ChildInfo>
    decreases cs.len(),
{
    if cs.len() == 0 {
        seq![]
    } else if cs.last().status == ProcessStatus::Zombie {
        living(cs.drop_last())
    } else {
        living(cs.drop_last()).push(cs.last())
    }
}

/// The children that have ended, in order.
pub open spec fn ended(cs: Seq<ChildInfo>) -> Seq<ChildInfo>
    decreases cs.len(),
{
    if cs.len() == 0 {
        seq![]
    } else if cs.last().status == ProcessStatus::Zombie {
        ended(cs.drop_last()).push(cs.last())
    } else {
        ended(cs.drop_last())
    }
}

/// One round of `waitpid`, whatever process it names: with a signal
/// pending it is interrupted; else the first child that has ended is reaped
/// (the children that have not ended stay first, in their order, and the
/// other ended ones follow); with none, the caller sleeps.  An ended child
/// has its exit code.
pub fn sys_waitpid(pending_signal: bool, children: &mut Vec<ChildInfo>) -> (r: WaitStep)
    requires
        forall|i: int| 0 <= i < old(children)@.len() && (#[trigger] old(children)@[i]).status == ProcessStatus::Zombie
            ==> old(children)@[i].exit_code is Some,
    ensures
        pending_signal ==> r == WaitStep::Interrupted && final(children)@ == old(children)@,
        !pending_signal && ended(old(children)@).len() == 0 ==> r == WaitStep::Sleep && final(children)@ == old(
            children,
        )@,
        !pending_signal && ended(old(children)@).len() > 0 ==> r == WaitStep::Reaped(
            ended(old(children)@)[0].pid,
            ended(old(children)@)[0].exit_code->Some_0,
        ) && final(children)@ == living(old(children)@) + ended(old(children)@).drop_first(),
{
    if pending_signal {
        return WaitStep::Interrupted;
    }
    let ghost cs = children@;
    let mut alive: Vec<ChildInfo> = Vec::new();
    let mut dead: Vec<ChildInfo> = Vec::new();
    let mut i: usize = 0;
    while i < children.len()
        invariant
            i <= cs.len(),
            children@ == cs,
            alive@ == living(cs.take(i as int)),
            dead@ == ended(cs.take(i as int)),
            forall|k: int| 0 <= k < dead@.len() ==> (#[trigger] dead@[k]).status == ProcessStatus::Zombie,
            forall|k: int| 0 <= k < cs.len() && (#[trigger] cs[k]).status == ProcessStatus::Zombie ==> cs[k].exit_code is Some,
            forall|k: int| 0 <= k < dead@.len() ==> (#[trigger] dead@[k]).exit_code is Some,
        decreases cs.len() - i,
    {
        proof {
            assert(cs.take(i + 1).drop_last() =~= cs.take(i as int));
            assert(cs.take(i + 1).last() == cs[i as int]);
        }
        let c = children[i];
        if c.status == ProcessStatus::Zombie {
            dead.push(c);
        } else {
            alive.push(c);
        }
        i = i + 1;
    }
    proof {
        assert(cs.take(cs.len() as int) =~= cs);
    }
    if dead.len() == 0 {
        return WaitStep::Sleep;
    }
    let corpse = dead[0];
    let ghost rest_dead = dead@.drop_first();
    let mut k: usize = 1;
    let mut out = alive;
    let ghost live = out@;
    while k < dead.len()
        invariant
            1 <= k <= dead@.len(),
            rest_dead == dead@.drop_first(),
            out@ == live + rest_dead.take(k - 1),
        decreases dead@.len() - k,
    {
        out.push(dead[k]);
        proof {
            assert(out@ =~= live + rest_dead.take(k as int));
        }
        k = k + 1;
    }
    proof {
        assert(rest_dead.take(dead@.len() - 1) =~= rest_dead);
        assert(dead@[0].exit_code is Some);
    }
    *children = out;
    let code = match corpse.exit_code {
        Some(c) => c,
        None => 0,
    };
    WaitStep::Reaped(corpse.pid, code)
}

/// The bytes of a line: those before its first carriage return or line
/// feed, spaces left out.
pub open spec fn line_body(s: Seq<u8>) -> Seq<u8>
    decreases s.len(),
{
    if s.len() == 0 {
        seq![]
    } else if s[0] == 0x20u8 {
        line_body(s.drop_first())
    } else if s[0] == 0x0du8 || s[0] == 0x0au8 {
        seq![]
    } else {
        seq![s[0]] + line_body(s.drop_first())
    }
}

/// The bytes have a carriage return or a line feed.
pub open spec fn has_line_end(s: Seq<u8>) -> bool {
    exists|i: int| 0 <= i < s.len() && (s[i] == 0x0du8 || s[i] == 0x0au8)
}

/// The file starts with "#!": it is a script for the program its first line names.
pub open spec fn is_script(c: Seq<u8>) -> bool {
    c.len() >= 2 && c[0] == 0x23u8 && c[1] == 0x21u8
}

/// The program that the script with contents `content` runs under: the
/// rest of its first line after "#!", spaces left out; `None` for a file
/// that is no script.  Its first two bytes must be there, and a script's
/// first line must end (reading on past the end stops the kernel).
pub fn sys_exec_shebang(content: &[u8]) -> (r: Option<Vec<u8>>)
    requires
        content@.len() >= 2,
        is_script(content@) ==> has_line_end(content@.skip(2)),
    ensures
        is_script(content@) ==> (r matches Some(v) && v@ == line_body(content@.skip(2))),
        !is_script(content@) ==> r is None,
{
    if !(content[0] == 0x23u8 && content[1] == 0x21u8) {
        return None;
    }
    let ghost tail = content@.skip(2);
    let mut out: Vec<u8> = Vec::new();
    let mut i: usize = 2;
    proof {
        assert(content@.skip(2) =~= tail);
    }
    while i < content.len()
        invariant
            2 <= i <= content@.len(),
            is_script(content@),
            tail == content@.skip(2),
            line_body(tail) == out@ + line_body(content@.skip(i as int)),
            has_line_end(content@.skip(i as int)),
        decreases content@.len() - i,
    {
        let b = content[i];
        let ghost rest = content@.skip(i as int);
        proof {
            assert(rest[0] == b);
            assert(rest.drop_first() =~= content@.skip(i + 1));
        }
        if b == 0x0du8 || b == 0x0au8 {
            proof {
                assert(out@ + line_body(rest) =~= out@);
            }
            return Some(out);
        }
        if b != 0x20u8 {
            out.push(b);
            proof {
                assert(out@ + line_body(content@.skip(i + 1)) =~= out@.drop_last() + (seq![b] + line_body(content@.skip(i + 1))));
            }
        }
        proof {
            let k = choose|k: int| 0 <= k < rest.len() && (rest[k] == 0x0du8 || rest[k] == 0x0au8);
            assert(k > 0);
            assert(content@.skip(i + 1)[k - 1] == rest[k]);
        }
        i = i + 1;
    }
    proof {
        let k = choose|k: int| 0 <= k < content@.skip(i as int).len() && (content@.skip(i as int)[k] == 0x0du8
            || content@.skip(i as int)[k] == 0x0au8);
    }
    None
}

/// The arguments a program starts with: the program the script runs under
/// when there is one, the path of the file run, as the kernel prints it,
/// then the arguments given; each ends with a NUL byte.
pub open spec fn exec_args_spec(interp: Option<Seq<u8>>, path: Seq<Seq<char>>, argv: Seq<Seq<u8>>) -> Seq<Seq<u8>> {
    (match interp {
        Some(b) => seq![b.push(0u8)],
        None => seq![],
    }) + seq![vstd::utf8::encode_utf8(path_text(path)).push(0u8)] + Seq::new(argv.len(), |i: int| argv[i].push(0u8))
}

/// The bytes of each of the vectors.
pub open spec fn bytes_of(v: Seq<Vec<u8>>) -> Seq<Seq<u8>> {
    Seq::new(v.len(), |i: int| v[i]@)
}

/// The bytes of a vector that may be there.
pub open spec fn opt_bytes(o: Option<Vec<u8>>) -> Option<Seq<u8>> {
    match o {
        Some(b) => Some(b@),
        None => None,
    }
}

/// The arguments of `exec` for the file at `path`, run under `interp` when
/// it is a script, given the arguments `argv`.
pub fn sys_exec_args(interp: Option<Vec<u8>>, path: &Path, argv: Vec<Vec<u8>>) -> (r: Vec<Vec<u8>>)
    ensures
        bytes_of(r@) == exec_args_spec(opt_bytes(interp), path@, bytes_of(argv@)),
{
    let ghost want = exec_args_spec(opt_bytes(interp), path@, bytes_of(argv@));
    let mut args: Vec<Vec<u8>> = Vec::new();
    if let Some(b) = interp {
        let mut b = b;
        b.push(0);
        args.push(b);
    }
    let text = path.to_text();
    let bytes = text.as_str().as_bytes();
    let mut name: Vec<u8> = Vec::new();
    let mut i: usize = 0;
    while i < bytes.len()
        invariant
            i <= bytes@.len(),
            name@ == bytes@.take(i as int),
        decreases bytes@.len() - i,
    {
        name.push(bytes[i]);
        proof {
            assert(bytes@.take(i + 1) =~= bytes@.take(i as int).push(bytes@[i as int]));
        }
        i = i + 1;
    }
    proof {
        assert(bytes@.take(bytes@.len() as int) =~= bytes@);
    }
    name.push(0);
    args.push(name);
    let ghost head = bytes_of(args@);
    let mut argv = argv;
    let ghost given = bytes_of(argv@);
    let mut k: usize = 0;
    let n = argv.len();
    while k < n
        invariant
            n == given.len(),
            argv@.len() == n,
            bytes_of(argv@) == given,
            k <= n,
            bytes_of(args@) == head + Seq::new(k as nat, |j: int| given[j].push(0u8)),
        decreases n - k,
    {
        let mut a: Vec<u8> = Vec::new();
        proof {
            assert(given[k as int] == argv@[k as int]@);
        }
        let mut j: usize = 0;
        while j < argv[k].len()
            invariant
                k < argv@.len(),
                n == given.len(),
                argv@.len() == n,
                bytes_of(argv@) == given,
                bytes_of(args@) == head + Seq::new(k as nat, |j: int| given[j].push(0u8)),
                j <= argv@[k as int]@.len(),
                a@ == argv@[k as int]@.take(j as int),
            decreases argv@[k as int]@.len() - j,
        {
            a.push(argv[k][j]);
            proof {
                assert(argv@[k as int]@.take(j + 1) =~= argv@[k as int]@.take(j as int).push(argv@[k as int]@[j as int]));
            }
            j = j + 1;
        }
        proof {
            assert(argv@[k as int]@.take(argv@[k as int]@.len() as int) =~= argv@[k as int]@);
        }
        a.push(0);
        let ghost before = args@;
        args.push(a);
        proof {
            assert(given[k as int] == argv@[k as int]@);
            assert(args@.last()@ == given[k as int].push(0u8));
            assert(bytes_of(args@) =~= bytes_of(before).push(given[k as int].push(0u8)));
            assert(bytes_of(args@) =~= head + Seq::new((k + 1) as nat, |j: int| given[j].push(0u8)));
        }
        k = k + 1;
    }
    proof {
        assert(bytes_of(args@) =~= want);
    }
    args
}

/// The segment flags that a protection gives: its bits moved up by one,
/// kept to the readable, writable, executable and user bits.
pub fn prot_flags(prot: &MMAPProt) -> (r: usize)
    ensures
        r == (prot.bits << 1usize) & 30usize,
{
    (prot.bits << 1usize) & 30usize
}

/// The check of a mapping at a fixed place: `EADDRINUSE` when the page
/// table has the tables of any page from `start` up to `end` (such a page
/// counts as taken).
pub fn sys_mmap_fixed_check(pt: &PageTable, mem: &PageMem, start: usize, end: usize) -> (r: Result<(), ErrorNum>)
    requires
        tables_ok(mem@, pt.root_ppn.0 as int),
    ensures
        (exists|v: usize| start <= v < end && #[trigger] walk_spec(mem@, pt.root_ppn.0 as int, v) is Some) ==> r
            == Err::<(), ErrorNum>(ErrorNum::EADDRINUSE),
        !(exists|v: usize| start <= v < end && #[trigger] walk_spec(mem@, pt.root_ppn.0 as int, v) is Some) ==> r is Ok,
{
    let mut v = start;
    while v < end
        invariant
            tables_ok(mem@, pt.root_ppn.0 as int),
            start <= v,
            forall|u: usize| start <= u < v ==> #[trigger] walk_spec(mem@, pt.root_ppn.0 as int, u) is None,
        decreases end - v,
    {
        if pt.walk_find(mem, VirtPageNum(v)).is_some() {
            proof {
                assert(walk_spec(mem@, pt.root_ppn.0 as int, v) is Some);
            }
            return Err(ErrorNum::EADDRINUSE);
        }
        v = v + 1;
    }
    Ok(())
}

/// An anonymous mapping of `length` bytes at `tgt`: a managed segment of
/// the pages from the one holding `tgt` up to the one after its last byte
/// (counted as `to_vpn_ceil` counts), none backed yet; `EINVAL` when a file
/// descriptor other than `usize::MAX` is given.
pub fn sys_mmap_anon(tgt: VirtAddr, length: usize, prot: &MMAPProt, fd: FileDescriptor) -> (r: Result<ManagedSegment, ErrorNum>)
    requires
        tgt.0 + length <= usize::MAX,
    ensures
        fd.0 != usize::MAX ==> r == Err::<ManagedSegment, ErrorNum>(ErrorNum::EINVAL),
        fd.0 == usize::MAX ==> (r matches Ok(seg) && seg.start == tgt.0 / 4096 && seg.end == page_ceil(
            (tgt.0 + length) as usize,
        ) && seg.flag == (prot.bits << 1usize) & 30usize && seg.byte_len == length && seg.frames@ == lazy_run(
            seg.start,
            seg.end,
        )),
{
    sys_mmap_anon_check(fd)?;
    let start = tgt.0 / 4096;
    let end = VirtAddr(tgt.0 + length).to_vpn_ceil().0;
    Ok(ManagedSegment::new(start, end, prot_flags(prot), length))
}

/// A mapping of `length` bytes of the file `file` (a handle), from byte
/// `offset` on, at `tgt`: after the checks of `sys_mmap_file_check` on the
/// file's size and open mode, a segment of its pages that each wait for
/// their page of the file.
pub fn sys_mmap_file(
    tgt: VirtAddr,
    length: usize,
    prot: &MMAPProt,
    file: usize,
    file_size: usize,
    mode: OpenMode,
    offset: usize,
) -> (r: Result<VMASegment, ErrorNum>)
    requires
        tgt.0 / 4096 * 4096 + length <= usize::MAX,
        offset + (page_ceil((tgt.0 / 4096 * 4096 + length) as usize) - tgt.0 / 4096) * 4096 <= usize::MAX,
    ensures
        mmap_file_spec(length, file_size, mode, prot.bits) matches Err(e) ==> r == Err::<VMASegment, ErrorNum>(e),
        mmap_file_spec(length, file_size, mode, prot.bits) is Ok ==> (r matches Ok(seg) && seg.start_vpn == tgt.0 / 4096
            && seg.flag == (prot.bits << 1usize) & 30usize && seg.frames@ == file_run(
            seg.start_vpn,
            if page_ceil((seg.start_vpn * 4096 + length) as usize) > seg.start_vpn {
                page_ceil((seg.start_vpn * 4096 + length) as usize) as usize
            } else {
                seg.start_vpn
            },
            file,
            offset,
        )),
{
    sys_mmap_file_check(length, file_size, mode, prot)?;
    Ok(VMASegment::new_at(tgt.0 / 4096, file, prot_flags(prot), offset, length))
}

/// What `sysstat` tells of memory: the bytes that files take, the bytes
/// that running code takes, the bytes of the kernel image, and the bytes
/// from the kernel's start to the end of physical memory.
#[derive(Clone, Copy, PartialEq, Eq, Structural, Debug)]
pub struct SyscallStat {
    pub persistant_usage: u64,
    pub runtime_usage: u64,
    pub kernel_usage: u64,
    pub total_available: u64,
}

/// The memory statistics when files take `fs_usage` bytes, running code
/// `mm_usage` bytes, and the kernel image lies from `skernel` up to
/// `ekernel`, which lie in physical memory.
pub fn sys_sysstat(fs_usage: u64, mm_usage: u64, skernel: u64, ekernel: u64) -> (r: SyscallStat)
    requires
        skernel <= ekernel,
        skernel <= PHYS_END_ADDR,
    ensures
        r.persistant_usage == fs_usage,
        r.runtime_usage == mm_usage,
        r.kernel_usage == ekernel - skernel,
        r.total_available == PHYS_END_ADDR - skernel,
{
    SyscallStat {
        persistant_usage: fs_usage,
        runtime_usage: mm_usage,
        kernel_usage: ekernel - skernel,
        total_available: PHYS_END_ADDR - skernel,
    }
}

/// The pages from `s` up to `s + n` are free: the page table has the
/// tables of none of them.
pub open spec fn pages_free(m: MemModel, root: int, s: int, n: int) -> bool {
    forall|v: usize| s <= v < s + n ==> #[trigger] walk_spec(m, root, v) is None
}

/// The pages a free place for `length` bytes needs: its own and two guard pages.
pub open spec fn space_pages(length: usize) -> int {
    length / 4096 + 2
}

/// The highest page at which a free place for `length` bytes may start:
/// below the kernel stack's guard page.
pub open spec fn space_top(length: usize) -> int {
    ((PROC_K_STACK_ADDR - PAGE_SIZE) / 4096) as int - space_pages(length)
}

/// The page at the end of physical memory, below which no place is sought.
pub open spec fn space_bottom() -> int {
    (PHYS_END_ADDR / 4096) as int
}

/// Whether `s` is where the search for a free place stops: the highest
/// start above the bottom, at most the top, whose pages are all free.
pub open spec fn highest_free_at(m: MemModel, root: int, length: usize, s: int) -> bool {
    &&& space_bottom() < s <= space_top(length)
    &&& pages_free(m, root, s, space_pages(length))
    &&& forall|t: int| s < t <= space_top(length) ==> !#[trigger] pages_free(m, root, t, space_pages(length))
}

/// The start of the free place that the search finds, when there is one.
pub open spec fn highest_free(m: MemModel, root: int, length: usize) -> int {
    choose|s: int| highest_free_at(m, root, length, s)
}

/// At most one start is where the search stops.
proof fn lemma_highest_free_unique(m: MemModel, root: int, length: usize, s: int)
    requires
        highest_free_at(m, root, length, s),
    ensures
        highest_free(m, root, length) == s,
{
    let c = highest_free(m, root, length);
    assert(highest_free_at(m, root, length, c));
    if c < s {
        assert(!pages_free(m, root, s, space_pages(length)));
    } else if s < c {
        assert(!pages_free(m, root, c, space_pages(length)));
    }
}

/// A free place for `length` bytes, searched from the top (just below the
/// kernel stack) down to the end of physical memory: the page after the
/// first start whose page, the pages of the bytes and a guard page are all
/// free, which leaves a guard page below; `ENOMEM` when there is none.
pub fn get_space(pt: &PageTable, mem: &PageMem, length: usize) -> (r: Result<VirtPageNum, ErrorNum>)
    requires
        tables_ok(mem@, pt.root_ppn.0 as int),
        space_pages(length) <= (PROC_K_STACK_ADDR - PAGE_SIZE) / 4096,
    ensures
        (exists|s: int| highest_free_at(mem@, pt.root_ppn.0 as int, length, s)) ==> (r matches Ok(p) && p.0 == highest_free(
            mem@,
            pt.root_ppn.0 as int,
            length,
        ) + 1),
        !(exists|s: int| highest_free_at(mem@, pt.root_ppn.0 as int, length, s)) ==> r == Err::<VirtPageNum, ErrorNum>(
            ErrorNum::ENOMEM,
        ),
{
    let ghost m = mem@;
    let ghost root = pt.root_ppn.0 as int;
    let n: usize = length / 4096 + 2;
    let top: usize = (PROC_K_STACK_ADDR - PAGE_SIZE) / 4096 - n;
    let bottom: usize = (PHYS_END_ADDR / 4096) as usize;
    let mut st: usize = top;
    while st > bottom
        invariant
            m == mem@,
            root == pt.root_ppn.0 as int,
            tables_ok(mem@, pt.root_ppn.0 as int),
            n == space_pages(length),
            top == space_top(length),
            bottom == space_bottom(),
            st <= top,
            top + n <= usize::MAX,
            forall|t: int| st < t <= top ==> !#[trigger] pages_free(m, root, t, n as int),
        decreases st,
    {
        let c = sys_mmap_fixed_check(pt, mem, st, st + n);
        if c.is_ok() {
            proof {
                assert(pages_free(m, root, st as int, n as int));
                assert(highest_free_at(m, root, length, st as int));
                lemma_highest_free_unique(m, root, length, st as int);
            }
            return Ok(VirtPageNum(st + 1));
        }
        proof {
            let v = choose|v: usize| st <= v < st + n && #[trigger] walk_spec(m, root, v) is Some;
            assert(!pages_free(m, root, st as int, n as int));
        }
        st = st - 1;
    }
    proof {
        assert forall|s: int| !highest_free_at(m, root, length, s) by {
            if highest_free_at(m, root, length, s) {
                assert(!pages_free(m, root, s, n as int));
            }
        }
    }
    Err(ErrorNum::ENOMEM)
}

/// The segment an `mmap` makes.
pub enum MmapSegment {
    Anonymous(ManagedSegment),
    File(VMASegment),
}

/// Where an `mmap` of `length` bytes at `tgt` goes: `tgt` itself with
/// `FIXED`, else the page after the free place's start that `get_space`
/// finds.
pub open spec fn mmap_pos(m: MemModel, root: int, tgt: usize, length: usize, flag: usize) -> int {
    if flag & MMAPFlag::FIXED != 0 {
        tgt as int
    } else {
        (highest_free(m, root, length) + 1) * 4096
    }
}

/// An `mmap` of `length` bytes, in the address space whose page table is
/// `pt`: at `tgt` with `FIXED`, refused with `EADDRINUSE` when a page from
/// the one holding `tgt` up to the one after its last byte is taken;
/// without it, at the free place that `get_space` finds (`ENOMEM` when none
/// is).  Then an anonymous segment when `flag` asks for one (see
/// `sys_mmap_anon`), else a segment of the file that `fd` names (see
/// `sys_mmap_file`), whose handle, size and open mode the caller found as
/// `file` with `get_file` and the file's own `stat`; `EBADFD` when `fd`
/// names no open file.  The answer is the mapping's address and its
/// segment, for the caller to register; on an error nothing is to be
/// registered.
pub fn sys_mmap(
    pt: &PageTable,
    mem: &PageMem,
    tgt: VirtAddr,
    length: usize,
    prot: &MMAPProt,
    flag: &MMAPFlag,
    fd: FileDescriptor,
    file: Option<(usize, usize, OpenMode)>,
    offset: usize,
) -> (r: Result<(VirtAddr, MmapSegment), ErrorNum>)
    requires
        tables_ok(mem@, pt.root_ppn.0 as int),
        tgt.0 + length + 4096 <= usize::MAX,
        offset + length + 8192 <= usize::MAX,
        flag.bits & MMAPFlag::FIXED == 0 ==> space_pages(length) <= (PROC_K_STACK_ADDR - PAGE_SIZE) / 4096,
    ensures
        ({
            let m = mem@;
            let root = pt.root_ppn.0 as int;
            let fixed = flag.bits & MMAPFlag::FIXED != 0;
            let pos = mmap_pos(m, root, tgt.0, length, flag.bits);
            let anon = flag.bits & MMAPFlag::ANONYMOUS != 0;
            &&& fixed && (exists|v: usize| tgt.0 / 4096 <= v < page_ceil((tgt.0 + length) as usize) && #[trigger] walk_spec(m, root, v) is Some)
                ==> r == Err::<(VirtAddr, MmapSegment), ErrorNum>(ErrorNum::EADDRINUSE)
            &&& !fixed && !(exists|s: int| highest_free_at(m, root, length, s))
                ==> r == Err::<(VirtAddr, MmapSegment), ErrorNum>(ErrorNum::ENOMEM)
            &&& (fixed ==> !(exists|v: usize| tgt.0 / 4096 <= v < page_ceil((tgt.0 + length) as usize) && #[trigger] walk_spec(m, root, v) is Some))
                && (!fixed ==> exists|s: int| highest_free_at(m, root, length, s)) ==> {
                &&& r is Ok ==> r->Ok_0.0.0 == pos
                &&& anon && fd.0 != usize::MAX ==> r == Err::<(VirtAddr, MmapSegment), ErrorNum>(ErrorNum::EINVAL)
                &&& anon && fd.0 == usize::MAX ==> (r matches Ok((a, MmapSegment::Anonymous(seg)))
                    && seg.start == pos / 4096 && seg.end == page_ceil((pos + length) as usize) && seg.flag == (prot.bits
                    << 1usize) & 30usize && seg.byte_len == length && seg.frames@ == lazy_run(seg.start, seg.end))
                &&& !anon && file is None ==> r == Err::<(VirtAddr, MmapSegment), ErrorNum>(ErrorNum::EBADFD)
                &&& !anon && file is Some ==> match mmap_file_spec(length, file->Some_0.1, file->Some_0.2, prot.bits) {
                    Err(e) => r == Err::<(VirtAddr, MmapSegment), ErrorNum>(e),
                    Ok(_) => r matches Ok((a, MmapSegment::File(seg))) && seg.start_vpn == pos / 4096 && seg.flag
                        == (prot.bits << 1usize) & 30usize && seg.frames@ == file_run(
                        seg.start_vpn,
                        if page_ceil((seg.start_vpn * 4096 + length) as usize) > seg.start_vpn {
                            page_ceil((seg.start_vpn * 4096 + length) as usize) as usize
                        } else {
                            seg.start_vpn
                        },
                        file->Some_0.0,
                        offset,
                    ),
                }
            }
        }),
{
    let ghost m = mem@;
    let ghost root = pt.root_ppn.0 as int;
    let pos: usize = if flag.bits & MMAPFlag::FIXED != 0 {
        let end = VirtAddr(tgt.0 + length).to_vpn_ceil().0;
        sys_mmap_fixed_check(pt, mem, tgt.0 / 4096, end)?;
        tgt.0
    } else {
        let p = get_space(pt, mem, length)?;
        proof {
            let s = highest_free(m, root, length);
            assert(p.0 == s + 1);
            assert(space_top(length) + space_pages(length) == (PROC_K_STACK_ADDR - PAGE_SIZE) / 4096);
            let q = length / 4096;
            let big = (PROC_K_STACK_ADDR - PAGE_SIZE) / 4096;
            vstd::arithmetic::div_mod::lemma_fundamental_div_mod(length as int, 4096);
            assert((s + 1) * 4096 + length < big * 4096) by (nonlinear_arith)
                requires
                    s + 1 <= space_top(length) + 1,
                    space_top(length) + q + 2 == big,
                    length == 4096 * q + length % 4096,
                    length % 4096 < 4096,
            ;
            assert((PROC_K_STACK_ADDR - PAGE_SIZE) / 4096 * 4096 <= PROC_K_STACK_ADDR - PAGE_SIZE) by (nonlinear_arith);
        }
        p.0 * 4096
    };
    proof {
        assert(pos as int == mmap_pos(m, root, tgt.0, length, flag.bits));
        assert(pos + length + 4096 <= usize::MAX);
        let a = pos / 4096;
        vstd::arithmetic::div_mod::lemma_fundamental_div_mod(pos as int, 4096);
        assert(a * 4096 <= pos) by (nonlinear_arith)
            requires
                pos == 4096 * a + pos % 4096,
                pos % 4096 >= 0,
        ;
        let x = (a * 4096 + length) as usize;
        assert(page_ceil(x) - a <= length / 4096 + 1) by {
            if x != 0 {
                vstd::arithmetic::div_mod::lemma_fundamental_div_mod(length as int, 4096);
                vstd::arithmetic::div_mod::lemma_fundamental_div_mod((x - 1) as int, 4096);
                let q = length / 4096;
                let rr = length % 4096;
                let q2 = (x - 1) / 4096;
                let r2 = (x - 1) % 4096;
                assert(q2 <= a + q) by (nonlinear_arith)
                    requires
                        x - 1 == 4096 * q2 + r2,
                        0 <= r2 < 4096,
                        x == a * 4096 + length,
                        length == 4096 * q + rr,
                        0 <= rr < 4096,
                ;
            }
        }
        assert((page_ceil(x) - a) * 4096 <= length + 4096) by (nonlinear_arith)
            requires
                page_ceil(x) - a <= length / 4096 + 1,
                length / 4096 * 4096 <= length,
        ;
        assert(length / 4096 * 4096 <= length) by (nonlinear_arith);
    }
    let at = VirtAddr(pos);
    if flag.bits & MMAPFlag::ANONYMOUS != 0 {
        let seg = sys_mmap_anon(at, length, prot, fd)?;
        return Ok((at, MmapSegment::Anonymous(seg)));
    }
    match file {
        None => Err(ErrorNum::EBADFD),
        Some((h, size, mode)) => {
            let seg = sys_mmap_file(at, length, prot, h, size, mode, offset)?;
            Ok((at, MmapSegment::File(seg)))
        },
    }
}

/// A child made by `fork`: its process number, its bookkeeping, its
/// parent's number, and the two argument registers of its trap context,
/// with which the fork call answers the child.
pub struct ForkedChild {
    pub pid: usize,
    pub inner: PCBInner,
    pub parent: usize,
    pub a0: usize,
    pub a1: usize,
}

/// Forks the process numbered `parent_pid`, with bookkeeping `parent` and
/// children `children`, on hart `hart`.  The child takes the next process
/// number (taken even when the fork fails), then a copy of the parent's
/// bookkeeping; `copied` is how copying the parent's address space went,
/// and its error is answered as it is.  Otherwise the child knows its
/// parent, joins the end of the parent's children and of the ready queue
/// (the hart gives up the process it runs, as every enqueue does), and is
/// answered 0 in `a0` and `a1`; the parent is answered the child's number.
pub fn sys_fork(
    parent_pid: usize,
    parent: &PCBInner,
    children: &mut Vec<usize>,
    pids: &mut PIDAllocator,
    manager: &mut ProcessManagerInner,
    hart: usize,
    copied: Result<(), ErrorNum>,
) -> (r: Result<ForkedChild, ErrorNum>)
    requires
        old(pids).next_pid < usize::MAX,
        old(manager).wf(),
        hart < MAX_CPUS,
    ensures
        final(pids).next_pid == old(pids).next_pid + 1,
        final(manager).wf(),
        copied is Err ==> r == Err::<ForkedChild, ErrorNum>(copied->Err_0) && final(children)@ == old(children)@
            && *final(manager) == *old(manager),
        copied is Ok ==> r is Ok && ({
            let c = r->Ok_0;
            &&& c.pid == old(pids).next_pid
            &&& c.parent == parent_pid
            &&& c.a0 == 0 && c.a1 == 0
            &&& c.inner.status == ProcessStatus::Ready
            &&& c.inner.entry_point == parent.entry_point
            &&& c.inner.data_end == parent.data_end
            &&& c.inner.files@ == parent.files@
            &&& c.inner.signal_handler@ == parent.signal_handler@
            &&& c.inner.signal_enable@ == parent.signal_enable@
            &&& c.inner.pending_signal@.len() == 0
            &&& c.inner.signal_contexts@.len() == 0
            &&& c.inner.exit_code is None
            &&& c.inner.cwd@ == parent.cwd@
            &&& c.inner.trace_enabled == parent.trace_enabled
            &&& final(children)@ == old(children)@.push(c.pid)
            &&& final(manager).process_list@ == old(manager).process_list@.push(c.pid)
            &&& final(manager).running_list@ == old(manager).running_list@.update(hart as int, None)
        }),
{
    let pid = pids.next();
    match copied {
        Err(e) => Err(e),
        Ok(()) => {
            let inner = parent.fork();
            children.push(pid);
            manager.enqueue(hart, pid);
            Ok(ForkedChild { pid, inner, parent: parent_pid, a0: 0, a1: 0 })
        },
    }
}

/// Ends the calling process, numbered by what hart `hart` runs, with
/// `exit_code`: the hart stops running it, it becomes a zombie that keeps
/// its exit code for its parent, and its children, in order, join the end
/// of the children of the init process.
pub fn sys_exit(
    proc: &mut PCBInner,
    children: &mut Vec<usize>,
    init_children: &mut Vec<usize>,
    manager: &mut ProcessManagerInner,
    hart: usize,
    exit_code: isize,
)
    requires
        old(manager).wf(),
        hart < MAX_CPUS,
        old(manager).running_list@[hart as int] is Some,
    ensures
        final(proc).status == ProcessStatus::Zombie,
        final(proc).exit_code == Some(exit_code),
        final(proc).files@ == old(proc).files@,
        final(proc).cwd@ == old(proc).cwd@,
        final(proc).pending_signal@ == old(proc).pending_signal@,
        final(init_children)@ == old(init_children)@ + old(children)@,
        final(children)@.len() == 0,
        final(manager).wf(),
        final(manager).process_list@ == old(manager).process_list@,
        final(manager).running_list@ == old(manager).running_list@.update(hart as int, None),
{
    manager.free_current(hart);
    proc.status = ProcessStatus::Zombie;
    proc.exit_code = Some(exit_code);
    let ghost moved = children@;
    let ghost before = init_children@;
    let mut i: usize = 0;
    while i < children.len()
        invariant
            moved == children@,
            i <= children@.len(),
            init_children@ == before + moved.take(i as int),
        decreases children@.len() - i,
    {
        init_children.push(children[i]);
        proof {
            assert(moved.take(i + 1) == moved.take(i as int).push(moved[i as int]));
        }
        i = i + 1;
    }
    proof {
        assert(moved.take(moved.len() as int) == moved);
    }
    children.clear();
}

/// What `ioctl` answers once the device has replied with `res`: its
/// length, to be written back when it fits the caller's `tgt_size` bytes,
/// else `EOVERFLOW`.
pub fn sys_ioctl_reply(res: &Vec<u8>, tgt_size: usize) -> (r: Result<usize, ErrorNum>)
    ensures
        res@.len() > tgt_size ==> r == Err::<usize, ErrorNum>(ErrorNum::EOVERFLOW),
        res@.len() <= tgt_size ==> r == Ok::<usize, ErrorNum>(res@.len() as usize),
{
    let res_len = res.len();
    if res_len > tgt_size {
        return Err(ErrorNum::EOVERFLOW);
    }
    Ok(res_len)
}

/// The script line of the file whose first bytes are `c`: the rest of its
/// first line after "#!", spaces left out.
pub open spec fn script_line(c: Seq<u8>) -> Seq<u8> {
    line_body(c.skip(2))
}

/// What `exec` runs, and the arguments it starts with.
pub struct ExecPlan {
    pub program: Path,
    pub args: Vec<Vec<u8>>,
}

/// The first step of `exec` of the file at `path` (resolved as `sys_open`
/// resolves it) with the arguments `argv`: `head` is what opening the file
/// for reading and executing and reading its first bytes gave, the error
/// or the bytes (at least two; for a script through the end of its first
/// line).  The error is answered as it is.  A script ("#!" first) runs the
/// program its first line names (`ENOENT` when that line is not UTF-8),
/// with that program, then `path`, then `argv` as arguments; any other file
/// runs itself, with `path`, then `argv`.
pub fn exec_prepare(path: &Path, head: Result<Vec<u8>, ErrorNum>, argv: Vec<Vec<u8>>) -> (r: Result<ExecPlan, ErrorNum>)
    requires
        head matches Ok(c) ==> c@.len() >= 2,
        head matches Ok(c) ==> (is_script(c@) ==> has_line_end(c@.skip(2))),
        head matches Ok(c) ==> (is_script(c@) && valid_utf8(script_line(c@)) ==> pieces_ok(
            path_pieces(decode_utf8(script_line(c@))),
        )),
    ensures
        head is Err ==> r == Err::<ExecPlan, ErrorNum>(head->Err_0),
        head matches Ok(c) ==> (!is_script(c@) ==> (r matches Ok(plan) && plan.program@ == path@ && bytes_of(
            plan.args@,
        ) == exec_args_spec(None, path@, bytes_of(argv@)))),
        head matches Ok(c) ==> (is_script(c@) && !valid_utf8(script_line(c@)) ==> r == Err::<ExecPlan, ErrorNum>(
            ErrorNum::ENOENT,
        )),
        head matches Ok(c) ==> (is_script(c@) && valid_utf8(script_line(c@)) ==> (r matches Ok(plan)
            && plan.program@ == path_pieces(decode_utf8(script_line(c@))) && bytes_of(plan.args@)
            == exec_args_spec(Some(script_line(c@)), path@, bytes_of(argv@)))),
{
    let content = match head {
        Err(e) => {
            return Err(e);
        },
        Ok(c) => c,
    };
    match sys_exec_shebang(content.as_slice()) {
        None => {
            let args = sys_exec_args(None, path, argv);
            Ok(ExecPlan { program: path.clone(), args })
        },
        Some(line) => {
            let kept = line.clone();
            let text = match string_from_utf8(line) {
                Some(t) => t,
                None => {
                    return Err(ErrorNum::ENOENT);
                },
            };
            let program = match Path::new_s(text) {
                Ok(p) => p,
                Err(e) => {
                    proof {
                        assert(false);
                    }
                    return Err(e);
                },
            };
            let args = sys_exec_args(Some(kept), path, argv);
            Ok(ExecPlan { program, args })
        },
    }
}

/// The second step of `exec`: `loaded` is what opening `plan.program` as a
/// regular file and loading its ELF image gave, the error or the new
/// program's entry point and the end of its data.  The error is answered
/// as it is and the process is left as it was; otherwise the process starts
/// the new program (see `PCBInner::exec`) and the answer is the number of
/// its arguments.
pub fn exec_finish(
    proc: &mut PCBInner,
    plan: &ExecPlan,
    loaded: Result<(VirtAddr, VirtAddr), ErrorNum>,
    h: DefaultHandlers,
    trace_enabled: [bool; 64],
) -> (r: Result<usize, ErrorNum>)
    requires
        old(proc).status == ProcessStatus::Running,
    ensures
        loaded is Err ==> r == Err::<usize, ErrorNum>(loaded->Err_0) && *final(proc) == *old(proc),
        loaded matches Ok((entry, data_end)) ==> {
            &&& r == Ok::<usize, ErrorNum>(plan.args@.len() as usize)
            &&& final(proc).status == old(proc).status
            &&& final(proc).entry_point == entry
            &&& final(proc).data_end == data_end
            &&& final(proc).files@ == old(proc).files@
            &&& final(proc).signal_handler@ == default_handler_map(h)
            &&& final(proc).signal_enable@ == default_mask_map()
            &&& final(proc).pending_signal@.len() == 0
            &&& final(proc).signal_contexts@.len() == 0
            &&& final(proc).cwd@ == old(proc).cwd@
            &&& final(proc).trace_enabled == trace_enabled
        },
{
    match loaded {
        Err(e) => Err(e),
        Ok((entry, data_end)) => {
            let count = plan.args.len();
            proc.exec(entry, data_end, h, trace_enabled);
            Ok(count)
        },
    }
}

} // verus!
