//! What the kernel keeps for a process: its state, its file descriptors,
//! its signal handlers, masks and pending signals, and its working directory.
use vstd::prelude::*;
use std::collections::{BTreeMap, VecDeque};
use crate::config::MAX_FD;
use crate::error::ErrorNum;
use crate::fs::vfs::Path;
use crate::mem::types::VirtAddr;

verus! {

broadcast use vstd::laws_cmp::group_laws_cmp, vstd::std_specs::btree::group_btree_axioms;

/// Where a process is in its life.
#[derive(Clone, Copy, PartialEq, Eq, Structural, Debug)]
pub enum ProcessStatus {
    Init,
    Ready,
    Running,
    Zombie,
}

/// A file descriptor: the number a process names an open file by.
#[derive(Clone, Copy, PartialEq, Eq, Structural, Debug)]
pub struct FileDescriptor(pub usize);

impl From<usize> for FileDescriptor {
    fn from(c: usize) -> (r: Self) {
        FileDescriptor(c)
    }
}

impl vstd::std_specs::convert::FromSpecImpl<usize> for FileDescriptor {
    open spec fn obeys_from_spec() -> bool {
        true
    }

    open spec fn from_spec(c: usize) -> Self {
        FileDescriptor(c)
    }
}

/// The signals a process can be sent.
#[derive(Clone, Copy, PartialEq, Eq, Structural, Debug)]
pub enum SignalNum {
    SIGHUP,
    SIGINT,
    SIGQUIT,
    SIGILL,
    SIGTRAP,
    SIGABRT,
    SIGBUS,
    SIGFPE,
    SIGKILL,
    SIGUSR1,
    SIGSEGV,
    SIGUSR2,
    SIGPIPE,
    SIGALRM,
    SIGTERM,
    SIGSTKFLT,
    SIGCHLD,
    SIGCONT,
    SIGSTOP,
    SIGTSTP,
    SIGTTIN,
    SIGTTOU,
    SIGURG,
    SIGXCPU,
    SIGXFSZ,
    SIGVTALRM,
    SIGPROF,
    SIGWINCH,
    SIGIO,
    SIGPWR,
    SIGSYS,
}

/// The number of a signal.
pub open spec fn signal_code(s: SignalNum) -> usize {
    match s {
        SignalNum::SIGHUP => 1,
        SignalNum::SIGINT => 2,
        SignalNum::SIGQUIT => 3,
        SignalNum::SIGILL => 4,
        SignalNum::SIGTRAP => 5,
        SignalNum::SIGABRT => 6,
        SignalNum::SIGBUS => 7,
        SignalNum::SIGFPE => 8,
        SignalNum::SIGKILL => 9,
        SignalNum::SIGUSR1 => 10,
        SignalNum::SIGSEGV => 11,
        SignalNum::SIGUSR2 => 12,
        SignalNum::SIGPIPE => 13,
        SignalNum::SIGALRM => 14,
        SignalNum::SIGTERM => 15,
        SignalNum::SIGSTKFLT => 16,
        SignalNum::SIGCHLD => 17,
        SignalNum::SIGCONT => 18,
        SignalNum::SIGSTOP => 19,
        SignalNum::SIGTSTP => 20,
        SignalNum::SIGTTIN => 21,
        SignalNum::SIGTTOU => 22,
        SignalNum::SIGURG => 23,
        SignalNum::SIGXCPU => 24,
        SignalNum::SIGXFSZ => 25,
        SignalNum::SIGVTALRM => 26,
        SignalNum::SIGPROF => 27,
        SignalNum::SIGWINCH => 28,
        SignalNum::SIGIO => 29,
        SignalNum::SIGPWR => 30,
        SignalNum::SIGSYS => 31,
    }
}

/// The signals, in the order of their numbers.
pub open spec fn all_signals() -> Seq<SignalNum> {
    seq![
        SignalNum::SIGHUP, SignalNum::SIGINT, SignalNum::SIGQUIT, SignalNum::SIGILL,
        SignalNum::SIGTRAP, SignalNum::SIGABRT, SignalNum::SIGBUS, SignalNum::SIGFPE,
        SignalNum::SIGKILL, SignalNum::SIGUSR1, SignalNum::SIGSEGV, SignalNum::SIGUSR2,
        SignalNum::SIGPIPE, SignalNum::SIGALRM, SignalNum::SIGTERM, SignalNum::SIGSTKFLT,
        SignalNum::SIGCHLD, SignalNum::SIGCONT, SignalNum::SIGSTOP, SignalNum::SIGTSTP,
        SignalNum::SIGTTIN, SignalNum::SIGTTOU, SignalNum::SIGURG, SignalNum::SIGXCPU,
        SignalNum::SIGXFSZ, SignalNum::SIGVTALRM, SignalNum::SIGPROF, SignalNum::SIGWINCH,
        SignalNum::SIGIO, SignalNum::SIGPWR, SignalNum::SIGSYS,
    ]
}

/// The signal numbered `v`.
pub open spec fn signal_of(v: usize) -> Option<SignalNum> {
    if 1 <= v <= 31 {
        Some(all_signals()[v - 1])
    } else {
        None
    }
}

/// A signal read back from its number is the same signal.
pub proof fn lemma_signal_code(s: SignalNum)
    ensures
        signal_of(signal_code(s)) == Some(s),
        1 <= signal_code(s) <= 31,
{
}

/// The name of a signal: its constant's name.
pub open spec fn signal_name(s: SignalNum) -> Seq<char> {
    match s {
        SignalNum::SIGHUP => "SIGHUP"@,
        SignalNum::SIGINT => "SIGINT"@,
        SignalNum::SIGQUIT => "SIGQUIT"@,
        SignalNum::SIGILL => "SIGILL"@,
        SignalNum::SIGTRAP => "SIGTRAP"@,
        SignalNum::SIGABRT => "SIGABRT"@,
        SignalNum::SIGBUS => "SIGBUS"@,
        SignalNum::SIGFPE => "SIGFPE"@,
        SignalNum::SIGKILL => "SIGKILL"@,
        SignalNum::SIGUSR1 => "SIGUSR1"@,
        SignalNum::SIGSEGV => "SIGSEGV"@,
        SignalNum::SIGUSR2 => "SIGUSR2"@,
        SignalNum::SIGPIPE => "SIGPIPE"@,
        SignalNum::SIGALRM => "SIGALRM"@,
        SignalNum::SIGTERM => "SIGTERM"@,
        SignalNum::SIGSTKFLT => "SIGSTKFLT"@,
        SignalNum::SIGCHLD => "SIGCHLD"@,
        SignalNum::SIGCONT => "SIGCONT"@,
        SignalNum::SIGSTOP => "SIGSTOP"@,
        SignalNum::SIGTSTP => "SIGTSTP"@,
        SignalNum::SIGTTIN => "SIGTTIN"@,
        SignalNum::SIGTTOU => "SIGTTOU"@,
        SignalNum::SIGURG => "SIGURG"@,
        SignalNum::SIGXCPU => "SIGXCPU"@,
        SignalNum::SIGXFSZ => "SIGXFSZ"@,
        SignalNum::SIGVTALRM => "SIGVTALRM"@,
        SignalNum::SIGPROF => "SIGPROF"@,
        SignalNum::SIGWINCH => "SIGWINCH"@,
        SignalNum::SIGIO => "SIGIO"@,
        SignalNum::SIGPWR => "SIGPWR"@,
        SignalNum::SIGSYS => "SIGSYS"@,
    }
}

impl SignalNum {
    /// The number of the signal.
    pub fn code(&self) -> (r: usize)
        ensures
            r == signal_code(*self),
    {
        match self {
            SignalNum::SIGHUP => 1,
            SignalNum::SIGINT => 2,
            SignalNum::SIGQUIT => 3,
            SignalNum::SIGILL => 4,
            SignalNum::SIGTRAP => 5,
            SignalNum::SIGABRT => 6,
            SignalNum::SIGBUS => 7,
            SignalNum::SIGFPE => 8,
            SignalNum::SIGKILL => 9,
            SignalNum::SIGUSR1 => 10,
            SignalNum::SIGSEGV => 11,
            SignalNum::SIGUSR2 => 12,
            SignalNum::SIGPIPE => 13,
            SignalNum::SIGALRM => 14,
            SignalNum::SIGTERM => 15,
            SignalNum::SIGSTKFLT => 16,
            SignalNum::SIGCHLD => 17,
            SignalNum::SIGCONT => 18,
            SignalNum::SIGSTOP => 19,
            SignalNum::SIGTSTP => 20,
            SignalNum::SIGTTIN => 21,
            SignalNum::SIGTTOU => 22,
            SignalNum::SIGURG => 23,
            SignalNum::SIGXCPU => 24,
            SignalNum::SIGXFSZ => 25,
            SignalNum::SIGVTALRM => 26,
            SignalNum::SIGPROF => 27,
            SignalNum::SIGWINCH => 28,
            SignalNum::SIGIO => 29,
            SignalNum::SIGPWR => 30,
            SignalNum::SIGSYS => 31,
        }
    }

    /// The signal numbered `v`; `ENOSYS` for a number no signal has.
    pub fn try_from(v: usize) -> (r: Result<SignalNum, ErrorNum>)
        ensures
            match signal_of(v) {
                Some(s) => r == Ok::<SignalNum, ErrorNum>(s),
                None => r == Err::<SignalNum, ErrorNum>(ErrorNum::ENOSYS),
            },
    {
        let r = match v {
            1 => SignalNum::SIGHUP,
            2 => SignalNum::SIGINT,
            3 => SignalNum::SIGQUIT,
            4 => SignalNum::SIGILL,
            5 => SignalNum::SIGTRAP,
            6 => SignalNum::SIGABRT,
            7 => SignalNum::SIGBUS,
            8 => SignalNum::SIGFPE,
            9 => SignalNum::SIGKILL,
            10 => SignalNum::SIGUSR1,
            11 => SignalNum::SIGSEGV,
            12 => SignalNum::SIGUSR2,
            13 => SignalNum::SIGPIPE,
            14 => SignalNum::SIGALRM,
            15 => SignalNum::SIGTERM,
            16 => SignalNum::SIGSTKFLT,
            17 => SignalNum::SIGCHLD,
            18 => SignalNum::SIGCONT,
            19 => SignalNum::SIGSTOP,
            20 => SignalNum::SIGTSTP,
            21 => SignalNum::SIGTTIN,
            22 => SignalNum::SIGTTOU,
            23 => SignalNum::SIGURG,
            24 => SignalNum::SIGXCPU,
            25 => SignalNum::SIGXFSZ,
            26 => SignalNum::SIGVTALRM,
            27 => SignalNum::SIGPROF,
            28 => SignalNum::SIGWINCH,
            29 => SignalNum::SIGIO,
            30 => SignalNum::SIGPWR,
            31 => SignalNum::SIGSYS,
            _ => {
                return Err(ErrorNum::ENOSYS);
            },
        };
        Ok(r)
    }

    /// The name of the signal.
    pub fn name(&self) -> (r: &'static str)
        ensures
            r@ == signal_name(*self),
    {
        match self {
            SignalNum::SIGHUP => "SIGHUP",
            SignalNum::SIGINT => "SIGINT",
            SignalNum::SIGQUIT => "SIGQUIT",
            SignalNum::SIGILL => "SIGILL",
            SignalNum::SIGTRAP => "SIGTRAP",
            SignalNum::SIGABRT => "SIGABRT",
            SignalNum::SIGBUS => "SIGBUS",
            SignalNum::SIGFPE => "SIGFPE",
            SignalNum::SIGKILL => "SIGKILL",
            SignalNum::SIGUSR1 => "SIGUSR1",
            SignalNum::SIGSEGV => "SIGSEGV",
            SignalNum::SIGUSR2 => "SIGUSR2",
            SignalNum::SIGPIPE => "SIGPIPE",
            SignalNum::SIGALRM => "SIGALRM",
            SignalNum::SIGTERM => "SIGTERM",
            SignalNum::SIGSTKFLT => "SIGSTKFLT",
            SignalNum::SIGCHLD => "SIGCHLD",
            SignalNum::SIGCONT => "SIGCONT",
            SignalNum::SIGSTOP => "SIGSTOP",
            SignalNum::SIGTSTP => "SIGTSTP",
            SignalNum::SIGTTIN => "SIGTTIN",
            SignalNum::SIGTTOU => "SIGTTOU",
            SignalNum::SIGURG => "SIGURG",
            SignalNum::SIGXCPU => "SIGXCPU",
            SignalNum::SIGXFSZ => "SIGXFSZ",
            SignalNum::SIGVTALRM => "SIGVTALRM",
            SignalNum::SIGPROF => "SIGPROF",
            SignalNum::SIGWINCH => "SIGWINCH",
            SignalNum::SIGIO => "SIGIO",
            SignalNum::SIGPWR => "SIGPWR",
            SignalNum::SIGSYS => "SIGSYS",
        }
    }
}

/// What a signal does by default.
#[derive(Clone, Copy, PartialEq, Eq, Structural, Debug)]
pub enum DefaultAction {
    TerminateSelf,
    Ignore,
    DumpCore,
    Cont,
    Stop,
}

/// The default action of each signal.
pub open spec fn default_action(s: SignalNum) -> DefaultAction {
    match s {
        SignalNum::SIGTRAP | SignalNum::SIGUSR1 | SignalNum::SIGUSR2 | SignalNum::SIGCHLD
        | SignalNum::SIGURG | SignalNum::SIGVTALRM | SignalNum::SIGWINCH | SignalNum::SIGIO
        | SignalNum::SIGPWR => DefaultAction::Ignore,
        SignalNum::SIGABRT | SignalNum::SIGBUS | SignalNum::SIGFPE | SignalNum::SIGSEGV => DefaultAction::DumpCore,
        SignalNum::SIGCONT => DefaultAction::Cont,
        SignalNum::SIGSTOP | SignalNum::SIGTSTP | SignalNum::SIGTTIN | SignalNum::SIGTTOU => DefaultAction::Stop,
        _ => DefaultAction::TerminateSelf,
    }
}

/// Where the default handlers lie in the user's address space.
#[derive(Clone, Copy, PartialEq, Eq, Structural, Debug)]
pub struct DefaultHandlers {
    pub terminate_self: VirtAddr,
    pub ignore: VirtAddr,
    pub dump_core: VirtAddr,
    pub cont: VirtAddr,
    pub stop: VirtAddr,
}

/// The handler of an action among the default handlers.
pub open spec fn handler_of(h: DefaultHandlers, a: DefaultAction) -> VirtAddr {
    match a {
        DefaultAction::TerminateSelf => h.terminate_self,
        DefaultAction::Ignore => h.ignore,
        DefaultAction::DumpCore => h.dump_core,
        DefaultAction::Cont => h.cont,
        DefaultAction::Stop => h.stop,
    }
}

/// The default handler of every signal, by its number.
pub open spec fn default_handler_map(h: DefaultHandlers) -> Map<usize, VirtAddr> {
    Map::new(|c: usize| 1 <= c <= 31, |c: usize| handler_of(h, default_action(signal_of(c)->0)))
}

/// The default handler of each signal, by its number: terminate for
/// SIGHUP (1), SIGINT (2), SIGQUIT (3), SIGILL (4), SIGKILL (9), SIGPIPE
/// (13), SIGALRM (14), SIGTERM (15), SIGSTKFLT (16), SIGXCPU (24), SIGXFSZ
/// (25), SIGPROF (27) and SIGSYS (31); ignore for SIGTRAP (5), SIGUSR1
/// (10), SIGUSR2 (12), SIGCHLD (17), SIGURG (23), SIGVTALRM (26), SIGWINCH
/// (28), SIGIO (29) and SIGPWR (30); dump core for SIGABRT (6), SIGBUS (7),
/// SIGFPE (8) and SIGSEGV (11); continue for SIGCONT (18); stop for
/// SIGSTOP (19), SIGTSTP (20), SIGTTIN (21) and SIGTTOU (22).  Exactly the
/// numbers 1 to 31 have one.
pub proof fn lemma_default_handler_table(h: DefaultHandlers)
    ensures
        forall|c: usize| #[trigger] default_handler_map(h).dom().contains(c) <==> 1 <= c <= 31,
        default_handler_map(h)[1usize] == h.terminate_self,
        default_handler_map(h)[2usize] == h.terminate_self,
        default_handler_map(h)[3usize] == h.terminate_self,
        default_handler_map(h)[4usize] == h.terminate_self,
        default_handler_map(h)[5usize] == h.ignore,
        default_handler_map(h)[6usize] == h.dump_core,
        default_handler_map(h)[7usize] == h.dump_core,
        default_handler_map(h)[8usize] == h.dump_core,
        default_handler_map(h)[9usize] == h.terminate_self,
        default_handler_map(h)[10usize] == h.ignore,
        default_handler_map(h)[11usize] == h.dump_core,
        default_handler_map(h)[12usize] == h.ignore,
        default_handler_map(h)[13usize] == h.terminate_self,
        default_handler_map(h)[14usize] == h.terminate_self,
        default_handler_map(h)[15usize] == h.terminate_self,
        default_handler_map(h)[16usize] == h.terminate_self,
        default_handler_map(h)[17usize] == h.ignore,
        default_handler_map(h)[18usize] == h.cont,
        default_handler_map(h)[19usize] == h.stop,
        default_handler_map(h)[20usize] == h.stop,
        default_handler_map(h)[21usize] == h.stop,
        default_handler_map(h)[22usize] == h.stop,
        default_handler_map(h)[23usize] == h.ignore,
        default_handler_map(h)[24usize] == h.terminate_self,
        default_handler_map(h)[25usize] == h.terminate_self,
        default_handler_map(h)[26usize] == h.ignore,
        default_handler_map(h)[27usize] == h.terminate_self,
        default_handler_map(h)[28usize] == h.ignore,
        default_handler_map(h)[29usize] == h.ignore,
        default_handler_map(h)[30usize] == h.ignore,
        default_handler_map(h)[31usize] == h.terminate_self,
{

}

/// Every signal enabled, by its number.
pub open spec fn default_mask_map() -> Map<usize, bool> {
    Map::new(|c: usize| 1 <= c <= 31, |c: usize| true)
}

/// The lowest number that is not a key of `m`.
pub open spec fn lowest_free_fd(m: Map<usize, usize>) -> usize {
    choose|fd: usize| !m.contains_key(fd) && forall|j: usize| j < fd ==> m.contains_key(j)
}

/// What the kernel keeps for a process: where it is in its life, where its
/// program starts and its data ends, its open files (each named by a
/// number that the kernel's file table resolves), its signal handlers,
/// pending signals, saved signal contexts (each named by a slot number) and
/// signal mask, its exit code, working directory, and which system calls
/// it traces.
pub struct PCBInner {
    pub status: ProcessStatus,
    pub entry_point: VirtAddr,
    pub data_end: VirtAddr,
    pub files: BTreeMap<usize, usize>,
    pub signal_handler: BTreeMap<usize, VirtAddr>,
    pub pending_signal: VecDeque<SignalNum>,
    pub signal_contexts: Vec<usize>,
    pub signal_enable: BTreeMap<usize, bool>,
    pub exit_code: Option<isize>,
    pub cwd: Path,
    pub trace_enabled: [bool; 64],
}

impl PCBInner {
    /// The open files a process starts with: none.
    pub fn default_fds() -> (r: Result<BTreeMap<usize, usize>, ErrorNum>)
        ensures
            r matches Ok(m) && m@ == Map::<usize, usize>::empty(),
    {
        Ok(BTreeMap::new())
    }

    /// The default handler of every signal.
    pub fn default_hander(h: DefaultHandlers) -> (r: BTreeMap<usize, VirtAddr>)
        ensures
            r@ == default_handler_map(h),
    {
        let mut m: BTreeMap<usize, VirtAddr> = BTreeMap::new();
        let mut c: usize = 1;
        while c <= 31
            invariant
                1 <= c <= 32,
                m@ == default_handler_map(h).restrict(Set::new(|x: usize| 1 <= x < c)),
            decreases 32 - c,
        {
            let s = match SignalNum::try_from(c) {
                Ok(s) => s,
                Err(_) => {
                    proof {
                        assert(false);
                    }
                    SignalNum::SIGSYS
                },
            };
            let va = match s {
                SignalNum::SIGTRAP | SignalNum::SIGUSR1 | SignalNum::SIGUSR2 | SignalNum::SIGCHLD
                | SignalNum::SIGURG | SignalNum::SIGVTALRM | SignalNum::SIGWINCH | SignalNum::SIGIO
                | SignalNum::SIGPWR => h.ignore,
                SignalNum::SIGABRT | SignalNum::SIGBUS | SignalNum::SIGFPE | SignalNum::SIGSEGV => h.dump_core,
                SignalNum::SIGCONT => h.cont,
                SignalNum::SIGSTOP | SignalNum::SIGTSTP | SignalNum::SIGTTIN | SignalNum::SIGTTOU => h.stop,
                _ => h.terminate_self,
            };
            m.insert(c, va);
            proof {
                assert(m@ =~= default_handler_map(h).restrict(Set::new(|x: usize| 1 <= x < c + 1)));
            }
            c = c + 1;
        }
        proof {
            assert(m@ =~= default_handler_map(h));
        }
        m
    }

    /// Every signal enabled.
    pub fn defualt_mask() -> (r: BTreeMap<usize, bool>)
        ensures
            r@ == default_mask_map(),
    {
        let mut m: BTreeMap<usize, bool> = BTreeMap::new();
        let mut c: usize = 1;
        while c <= 31
            invariant
                1 <= c <= 32,
                m@ == default_mask_map().restrict(Set::new(|x: usize| 1 <= x < c)),
            decreases 32 - c,
        {
            m.insert(c, true);
            proof {
                assert(m@ =~= default_mask_map().restrict(Set::new(|x: usize| 1 <= x < c + 1)));
            }
            c = c + 1;
        }
        proof {
            assert(m@ =~= default_mask_map());
        }
        m
    }

    /// A new process: not started, no files, the default signal handlers,
    /// every signal enabled, nothing pending, in the root directory.
    pub fn new(h: DefaultHandlers, trace_enabled: [bool; 64]) -> (r: Self)
        ensures
            r.status == ProcessStatus::Init,
            r.entry_point == VirtAddr(0),
            r.data_end == VirtAddr(0),
            r.files@ == Map::<usize, usize>::empty(),
            r.signal_handler@ == default_handler_map(h),
            r.signal_enable@ == default_mask_map(),
            r.pending_signal@.len() == 0,
            r.signal_contexts@.len() == 0,
            r.exit_code is None,
            r.cwd@.len() == 0,
            r.trace_enabled == trace_enabled,
    {
        let files = match Self::default_fds() {
            Ok(f) => f,
            Err(_) => BTreeMap::new(),
        };
        PCBInner {
            status: ProcessStatus::Init,
            entry_point: VirtAddr(0),
            data_end: VirtAddr(0),
            files,
            signal_handler: Self::default_hander(h),
            pending_signal: VecDeque::new(),
            signal_contexts: Vec::new(),
            signal_enable: Self::defualt_mask(),
            exit_code: None,
            cwd: Path::root(),
            trace_enabled,
        }
    }

    /// Starts a new program in the process, which must be running: its
    /// entry point and the end of its data are those of the new program;
    /// the signal handlers and mask are the defaults again, nothing is
    /// pending and no context is saved; the open files, the directory and
    /// the exit code stay.
    pub fn exec(&mut self, entry: VirtAddr, data_end: VirtAddr, h: DefaultHandlers, trace_enabled: [bool; 64])
        requires
            old(self).status == ProcessStatus::Running,
        ensures
            final(self).status == old(self).status,
            final(self).entry_point == entry,
            final(self).data_end == data_end,
            final(self).files@ == old(self).files@,
            final(self).signal_handler@ == default_handler_map(h),
            final(self).signal_enable@ == default_mask_map(),
            final(self).pending_signal@.len() == 0,
            final(self).signal_contexts@.len() == 0,
            final(self).exit_code == old(self).exit_code,
            final(self).cwd@ == old(self).cwd@,
            final(self).trace_enabled == trace_enabled,
    {
        self.entry_point = entry;
        self.data_end = data_end;
        self.trace_enabled = trace_enabled;
        self.signal_contexts.clear();
        self.signal_handler = Self::default_hander(h);
        self.signal_enable = Self::defualt_mask();
        self.pending_signal.clear();
    }

    /// The bookkeeping of a child: ready to run, the same program, open
    /// files, handlers, mask, directory and traces; no pending signals,
    /// saved contexts or exit code.
    pub fn fork(&self) -> (r: Self)
        ensures
            r.status == ProcessStatus::Ready,
            r.entry_point == self.entry_point,
            r.data_end == self.data_end,
            r.files@ == self.files@,
            r.signal_handler@ == self.signal_handler@,
            r.signal_enable@ == self.signal_enable@,
            r.pending_signal@.len() == 0,
            r.signal_contexts@.len() == 0,
            r.exit_code is None,
            r.cwd@ == self.cwd@,
            r.trace_enabled == self.trace_enabled,
    {
        PCBInner {
            status: ProcessStatus::Ready,
            entry_point: self.entry_point,
            data_end: self.data_end,
            files: self.files.clone(),
            signal_handler: self.signal_handler.clone(),
            pending_signal: VecDeque::new(),
            signal_contexts: Vec::new(),
            signal_enable: self.signal_enable.clone(),
            exit_code: None,
            cwd: self.cwd.clone(),
            trace_enabled: self.trace_enabled,
        }
    }

    /// Takes the signal `signal` as pending; `ESIGDISABLED` when it is not enabled.
    pub fn recv_signal(&mut self, signal: SignalNum) -> (r: Result<(), ErrorNum>)
        ensures
            ({
                let c = signal_code(signal);
                let enabled = old(self).signal_enable@.contains_key(c) && old(self).signal_enable@[c];
                &&& enabled ==> r is Ok && final(self).pending_signal@ == old(self).pending_signal@.push(signal)
                &&& !enabled ==> r == Err::<(), ErrorNum>(ErrorNum::ESIGDISABLED) && final(self).pending_signal@
                    == old(self).pending_signal@
            }),
            final(self).files@ == old(self).files@,
            final(self).signal_enable@ == old(self).signal_enable@,
            final(self).signal_handler@ == old(self).signal_handler@,
    {
        let c = signal.code();
        let enabled = match self.signal_enable.get(&c) {
            Some(b) => *b,
            None => false,
        };
        if !enabled {
            return Err(ErrorNum::ESIGDISABLED);
        }
        self.pending_signal.push_back(signal);
        Ok(())
    }

    /// The file that `fd` names; `EBADFD` when it names none.
    pub fn get_file(&self, fd: FileDescriptor) -> (r: Result<usize, ErrorNum>)
        ensures
            self.files@.contains_key(fd.0) ==> r == Ok::<usize, ErrorNum>(self.files@[fd.0]),
            !self.files@.contains_key(fd.0) ==> r == Err::<usize, ErrorNum>(ErrorNum::EBADFD),
    {
        match self.files.get(&fd.0) {
            Some(f) => Ok(*f),
            None => Err(ErrorNum::EBADFD),
        }
    }

    /// Opens `file` under the lowest free descriptor; `EMFILE` when more
    /// than `MAX_FD` are open already.
    pub fn register_file(&mut self, file: usize) -> (r: Result<FileDescriptor, ErrorNum>)
        ensures
            old(self).files@.len() > MAX_FD ==> r == Err::<FileDescriptor, ErrorNum>(ErrorNum::EMFILE)
                && final(self).files@ == old(self).files@,
            old(self).files@.len() <= MAX_FD ==> (r matches Ok(fd) && fd.0 == lowest_free_fd(old(self).files@)
                && final(self).files@ == old(self).files@.insert(fd.0, file)),
            final(self).signal_enable@ == old(self).signal_enable@,
            final(self).signal_handler@ == old(self).signal_handler@,
            final(self).pending_signal@ == old(self).pending_signal@,
    {
        if self.files.len() > MAX_FD {
            return Err(ErrorNum::EMFILE);
        }
        let ghost m = self.files@;
        proof {
            assert(self.files@.dom().finite());
        }
        let mut fd: usize = 0;
        while self.files.contains_key(&fd)
            invariant
                m == self.files@,
                m.dom().finite(),
                m.len() <= MAX_FD,
                fd <= m.len(),
                forall|j: usize| j < fd ==> m.contains_key(j),
            decreases m.len() - fd,
        {
            proof {
                let below = Set::new(|j: usize| j <= fd);
                assert(below.subset_of(m.dom()));
                lemma_below_len(fd);
                vstd::set_lib::lemma_len_subset(below, m.dom());
            }
            fd = fd + 1;
        }
        proof {
            lemma_lowest_free_fd(m);
            assert(fd == lowest_free_fd(m)) by {
                let l = lowest_free_fd(m);
                assert(!m.contains_key(fd) && forall|j: usize| j < fd ==> m.contains_key(j));
                if l < fd {
                } else if fd < l {
                }
            }
        }
        self.files.insert(fd, file);
        Ok(FileDescriptor(fd))
    }

    /// Closes `fd`; `EBADFD` when it names no file.
    pub fn close_file(&mut self, fd: FileDescriptor) -> (r: Result<(), ErrorNum>)
        ensures
            old(self).files@.contains_key(fd.0) ==> r is Ok && final(self).files@ == old(self).files@.remove(fd.0),
            !old(self).files@.contains_key(fd.0) ==> r == Err::<(), ErrorNum>(ErrorNum::EBADFD)
                && final(self).files@ == old(self).files@,
            final(self).signal_enable@ == old(self).signal_enable@,
            final(self).signal_handler@ == old(self).signal_handler@,
            final(self).pending_signal@ == old(self).pending_signal@,
    {
        match self.files.remove(&fd.0) {
            Some(_) => Ok(()),
            None => Err(ErrorNum::EBADFD),
        }
    }

    /// Opens the file of `to_dup` under a second descriptor, the lowest free one.
    pub fn dup_file(&mut self, to_dup: FileDescriptor) -> (r: Result<FileDescriptor, ErrorNum>)
        ensures
            !old(self).files@.contains_key(to_dup.0) ==> r == Err::<FileDescriptor, ErrorNum>(ErrorNum::EBADFD)
                && final(self).files@ == old(self).files@,
            old(self).files@.contains_key(to_dup.0) && old(self).files@.len() > MAX_FD ==> r == Err::<
                FileDescriptor,
                ErrorNum,
            >(ErrorNum::EMFILE) && final(self).files@ == old(self).files@,
            old(self).files@.contains_key(to_dup.0) && old(self).files@.len() <= MAX_FD ==> (r matches Ok(fd)
                && fd.0 == lowest_free_fd(old(self).files@) && final(self).files@ == old(self).files@.insert(
                fd.0,
                old(self).files@[to_dup.0],
            )),
    {
        let f = self.get_file(to_dup)?;
        self.register_file(f)
    }
}

/// The numbers below `n` are `n` many.
proof fn lemma_below_len(n: usize)
    ensures
        Set::new(|j: usize| j <= n).finite(),
        Set::new(|j: usize| j <= n).len() == n + 1,
    decreases n,
{
    let s = Set::new(|j: usize| j <= n);
    if n == 0 {
        assert(s =~= Set::empty().insert(0usize));
    } else {
        lemma_below_len((n - 1) as usize);
        let t = Set::new(|j: usize| j <= (n - 1) as usize);
        assert(s =~= t.insert(n));
    }
}

/// A descriptor just opened names the file it was opened for.
pub proof fn lemma_register_then_get(files: Map<usize, usize>, file: usize)
    requires
        files.dom().finite(),
        files.len() <= MAX_FD,
    ensures
        files.insert(lowest_free_fd(files), file)[lowest_free_fd(files)] == file,
        !files.contains_key(lowest_free_fd(files)),
{
    lemma_lowest_free_fd(files);
}

/// There is a lowest free descriptor, and all below it are taken.
pub proof fn lemma_lowest_free_fd(files: Map<usize, usize>)
    requires
        files.dom().finite(),
        files.len() <= MAX_FD,
    ensures
        !files.contains_key(lowest_free_fd(files)),
        forall|j: usize| j < lowest_free_fd(files) ==> files.contains_key(j),
{
    let n = files.len() as usize;
    if files.contains_key(n) {
        if forall|j: usize| j <= n ==> files.contains_key(j) {
            let below = Set::new(|j: usize| j <= n);
            assert(below.subset_of(files.dom()));
            lemma_below_len(n);
            vstd::set_lib::lemma_len_subset(below, files.dom());
            assert(false);
        }
        let k = choose|j: usize| j <= n && !files.contains_key(j);
        lemma_least_free(files, k);
    } else {
        lemma_least_free(files, n);
    }
}

/// Below a number that is not a key lies a least one.
proof fn lemma_least_free(files: Map<usize, usize>, k: usize)
    requires
        !files.contains_key(k),
    ensures
        exists|fd: usize| !files.contains_key(fd) && forall|j: usize| j < fd ==> files.contains_key(j),
    decreases k,
{
    if exists|j: usize| j < k && !files.contains_key(j) {
        let j = choose|j: usize| j < k && !files.contains_key(j);
        lemma_least_free(files, j);
    } else {
        assert(!files.contains_key(k) && forall|j: usize| j < k ==> files.contains_key(j));
    }
}

/// The number of bytes of the first `n` arguments.
pub open spec fn bytes_before(args: Seq<Seq<u8>>, n: int) -> int
    decreases n,
{
    if n <= 0 {
        0
    } else {
        bytes_before(args, n - 1) + args[n - 1].len()
    }
}

/// Where `exec` copies the arguments of a new program onto the user stack
/// whose top is `top`: each argument right below the one before it, then
/// the array of their addresses, ended by a zero, below the last.  Gives
/// the address of each argument and that of the array, which is where the
/// stack starts and what the program gets as `argv` (with `argc` the number
/// of arguments).
pub fn exec_stack_layout(top: usize, args: &Vec<Vec<u8>>) -> (r: (Vec<usize>, usize))
    requires
        bytes_before(Seq::new(args@.len(), |i: int| args@[i]@), args@.len() as int) + (args@.len() + 1) * 8 <= top,
    ensures
        r.0@.len() == args@.len(),
        forall|i: int| 0 <= i < args@.len() ==> #[trigger] r.0@[i] == top - bytes_before(
            Seq::new(args@.len(), |j: int| args@[j]@),
            i + 1,
        ),
        r.1 == top - bytes_before(Seq::new(args@.len(), |j: int| args@[j]@), args@.len() as int) - (args@.len() + 1) * 8,
{
    let ghost a = Seq::new(args@.len(), |j: int| args@[j]@);
    let mut ptr = top;
    let mut addrs: Vec<usize> = Vec::new();
    let mut i: usize = 0;
    proof {
        lemma_bytes_before_grows(a, 0, a.len() as int);
    }
    while i < args.len()
        invariant
            a == Seq::new(args@.len(), |j: int| args@[j]@),
            i <= args@.len(),
            ptr == top - bytes_before(a, i as int),
            bytes_before(a, a.len() as int) + (a.len() + 1) * 8 <= top,
            addrs@.len() == i,
            forall|k: int| 0 <= k < i ==> #[trigger] addrs@[k] == top - bytes_before(a, k + 1),
        decreases args@.len() - i,
    {
        proof {
            assert(a[i as int] == args@[i as int]@);
            lemma_bytes_before_grows(a, i + 1, a.len() as int);
        }
        ptr = ptr - args[i].len();
        addrs.push(ptr);
        i = i + 1;
    }
    let argv_ptr = ptr - (args.len() + 1) * 8;
    (addrs, argv_ptr)
}

/// More arguments take at least as many bytes.
proof fn lemma_bytes_before_grows(args: Seq<Seq<u8>>, m: int, n: int)
    requires
        0 <= m <= n <= args.len(),
    ensures
        bytes_before(args, m) <= bytes_before(args, n),
    decreases n - m,
{
    if m < n {
        lemma_bytes_before_grows(args, m, n - 1);
    }
}

} // verus!
