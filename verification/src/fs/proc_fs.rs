//! The `/proc` file system: a folder for each process, named by its number,
//! with the links ".", ".." and "self" and, in each process's folder, an
//! entry for each of its open file descriptors.  Which processes exist and
//! which descriptors they hold is handed in by the caller.
use vstd::prelude::*;
use vstd::string::{StringExecFns, StrSliceExecFns};
use crate::error::ErrorNum;
use crate::text::{owned, str_eq};
use super::types::{Dirent, DirentModel, FileType, Permission};

verus! {

/// The decimal digits of `n`, most significant first, without leading zeros.
pub open spec fn dec_text(n: nat) -> Seq<char>
    decreases n,
{
    if n < 10 {
        seq![digit_char(n)]
    } else {
        dec_text(n / 10).push(digit_char(n % 10))
    }
}

/// The character of the digit `d`.
pub open spec fn digit_char(d: nat) -> char {
    if d == 0 { '0' } else if d == 1 { '1' } else if d == 2 { '2' } else if d == 3 { '3' } else if d == 4 { '4' }
    else if d == 5 { '5' } else if d == 6 { '6' } else if d == 7 { '7' } else if d == 8 { '8' } else { '9' }
}

/// The value of the digit character `c`, if it is one.
pub open spec fn digit_value(c: char) -> Option<nat> {
    if '0' <= c && c <= '9' {
        Some((c as u32 - '0' as u32) as nat)
    } else {
        None
    }
}

/// The value of the digits `s`, all of which must be digits.
pub open spec fn digits_value(s: Seq<char>) -> Option<nat>
    decreases s.len(),
{
    if s.len() == 0 {
        Some(0)
    } else {
        match (digits_value(s.drop_last()), digit_value(s.last())) {
            (Some(v), Some(d)) => Some(v * 10 + d),
            _ => None,
        }
    }
}

/// What reading `s` as a `usize` gives: an optional "+" followed by at
/// least one decimal digit, of a value that fits.
pub open spec fn parse_usize_spec(s: Seq<char>) -> Option<usize> {
    let digits = if s.len() > 0 && s[0] == '+' {
        s.drop_first()
    } else {
        s
    };
    if digits.len() == 0 {
        None
    } else {
        match digits_value(digits) {
            Some(v) => if v <= usize::MAX {
                Some(v as usize)
            } else {
                None
            },
            None => None,
        }
    }
}

/// The text of the digit `d`.
fn digit_str(d: usize) -> (r: &'static str)
    requires
        d < 10,
    ensures
        r@ == seq![digit_char(d as nat)],
{
    proof {
        reveal_strlit("0");
        reveal_strlit("1");
        reveal_strlit("2");
        reveal_strlit("3");
        reveal_strlit("4");
        reveal_strlit("5");
        reveal_strlit("6");
        reveal_strlit("7");
        reveal_strlit("8");
        reveal_strlit("9");
    }
    match d {
        0 => "0",
        1 => "1",
        2 => "2",
        3 => "3",
        4 => "4",
        5 => "5",
        6 => "6",
        7 => "7",
        8 => "8",
        _ => "9",
    }
}

/// The decimal text of `n`, as `format!("{}", n)` writes it.
fn decimal(n: usize) -> (r: String)
    ensures
        r@ == dec_text(n as nat),
    decreases n,
{
    if n < 10 {
        String::from_str(digit_str(n))
    } else {
        let mut s = decimal(n / 10);
        s.append(digit_str(n % 10));
        proof {
            assert(s@ =~= dec_text((n / 10) as nat).push(digit_char((n % 10) as nat)));
        }
        s
    }
}

/// A prefix of digits that have a value has a value no larger.
proof fn lemma_digits_prefix(s: Seq<char>, i: int)
    requires
        0 <= i <= s.len(),
        digits_value(s) is Some,
    ensures
        digits_value(s.take(i)) is Some,
        digits_value(s.take(i))->0 <= digits_value(s)->0,
    decreases s.len() - i,
{
    if i < s.len() {
        lemma_digits_prefix(s, i + 1);
        let t = s.take(i + 1);
        assert(t.drop_last() =~= s.take(i));
        assert(t.last() == s[i]);
    } else {
        assert(s.take(i) =~= s);
    }
}

/// The number that `s` writes in decimal, as `str::parse::<usize>` reads
/// it: an optional "+", then at least one digit, of a value that fits;
/// `None` otherwise.
fn parse_usize(s: &str) -> (r: Option<usize>)
    ensures
        r == parse_usize_spec(s@),
{
    let n = s.unicode_len();
    let start: usize = if n > 0 && s.get_char(0) == '+' {
        1
    } else {
        0
    };
    let ghost digits = if s@.len() > 0 && s@[0] == '+' {
        s@.drop_first()
    } else {
        s@
    };
    proof {
        assert(digits =~= s@.skip(start as int));
    }
    if start == n {
        return None;
    }
    let mut v: usize = 0;
    let mut i: usize = start;
    proof {
        assert(digits.take(0) =~= Seq::<char>::empty());
    }
    while i < n
        invariant
            n == s@.len(),
            start <= i <= n,
            digits == s@.skip(start as int),
            digits == (if s@.len() > 0 && s@[0] == '+' {
                s@.drop_first()
            } else {
                s@
            }),
            digits.len() > 0,
            digits_value(digits.take(i - start)) == Some(v as nat),
        decreases n - i,
    {
        let c = s.get_char(i);
        let ghost k = i - start;
        proof {
            assert(digits[k] == c);
            assert(digits.take(k + 1).drop_last() =~= digits.take(k));
            assert(digits.take(k + 1).last() == c);
        }
        if c < '0' || c > '9' {
            proof {
                if digits_value(digits) is Some {
                    lemma_digits_prefix(digits, k + 1);
                }
            }
            return None;
        }
        let d = (c as u32 - '0' as u32) as usize;
        if v > (usize::MAX - d) / 10 {
            proof {
                assert(v * 10 + d > usize::MAX) by (nonlinear_arith)
                    requires
                        v > (usize::MAX - d) / 10,
                        d <= 9,
                ;
                if digits_value(digits) is Some {
                    lemma_digits_prefix(digits, k + 1);
                }
            }
            return None;
        }
        proof {
            assert(v * 10 + d <= usize::MAX) by (nonlinear_arith)
                requires
                    v <= (usize::MAX - d) / 10,
                    d <= 9,
            ;
        }
        v = v * 10 + d;
        i = i + 1;
    }
    proof {
        assert(digits.take(n - start) =~= digits);
    }
    Some(v)
}

/// What opening a name in `/proc` gives.
#[derive(Debug)]
pub enum ProcEntry {
    /// The link "self", to the folder of the running process.
    SelfLink,
    /// A link: where it points and its own path.
    Link { link_dest: String, self_path: String },
    /// The folder of the process with this number.
    PidDir(usize),
    /// The folder of the file descriptors of the process with this number.
    FdDir(usize),
}

/// What an entry is, as texts and numbers.
pub enum ProcEntryModel {
    SelfLink,
    Link(Seq<char>, Seq<char>),
    PidDir(usize),
    FdDir(usize),
}

/// The model of an entry.
pub open spec fn proc_entry_view(e: ProcEntry) -> ProcEntryModel {
    match e {
        ProcEntry::SelfLink => ProcEntryModel::SelfLink,
        ProcEntry::Link { link_dest, self_path } => ProcEntryModel::Link(link_dest@, self_path@),
        ProcEntry::PidDir(p) => ProcEntryModel::PidDir(p),
        ProcEntry::FdDir(p) => ProcEntryModel::FdDir(p),
    }
}

/// The entries that the root `/proc` lists when `pids` are the processes:
/// the links ".", ".." and "self", then a folder for each process, named by
/// its number.
pub open spec fn root_listing(pids: Seq<usize>) -> Seq<DirentModel> {
    seq![
        DirentModel { inode: 0, perm: 0o440, f_type: FileType::LINK, name: "."@ },
        DirentModel { inode: 0, perm: 0o440, f_type: FileType::LINK, name: ".."@ },
        DirentModel { inode: 0, perm: 0o440, f_type: FileType::LINK, name: "self"@ },
    ] + Seq::new(
        pids.len(),
        |i: int| DirentModel { inode: 0, perm: 0o440, f_type: FileType::DIR, name: dec_text(pids[i] as nat) },
    )
}

/// What opening `name` in the root `/proc` gives when `pids` are the
/// processes; `ENOENT` for a name that is no number, `ESRCH` for the number
/// of no process.
pub open spec fn root_open_spec(pids: Seq<usize>, name: Seq<char>) -> Result<ProcEntryModel, ErrorNum> {
    if name == "self"@ {
        Ok(ProcEntryModel::SelfLink)
    } else if name == ".."@ {
        Ok(ProcEntryModel::Link("/"@, "/proc/.."@))
    } else if name == "."@ {
        Ok(ProcEntryModel::Link("/proc"@, "/proc/."@))
    } else {
        match parse_usize_spec(name) {
            None => Err(ErrorNum::ENOENT),
            Some(pid) => if pids.contains(pid) {
                Ok(ProcEntryModel::PidDir(pid))
            } else {
                Err(ErrorNum::ESRCH)
            },
        }
    }
}

/// The root folder `/proc`.
pub struct ProcRootDir;

/// Whether `pid` is one of `pids`.
fn contains_pid(pids: &Vec<usize>, pid: usize) -> (r: bool)
    ensures
        r == pids@.contains(pid),
{
    let mut i: usize = 0;
    while i < pids.len()
        invariant
            i <= pids@.len(),
            forall|k: int| 0 <= k < i ==> pids@[k] != pid,
        decreases pids@.len() - i,
    {
        if pids[i] == pid {
            proof {
                assert(pids@[i as int] == pid);
            }
            return true;
        }
        i = i + 1;
    }
    false
}

impl ProcRootDir {
    /// The entries of `/proc` when `pids` are the processes, in their order.
    pub fn read_dirent(&self, pids: &Vec<usize>) -> (r: Vec<Dirent>)
        ensures
            Seq::new(r@.len(), |i: int| r@[i]@) == root_listing(pids@),
    {
        let ghost want = root_listing(pids@);
        let perm = Permission { bits: 0o440 };
        let mut res: Vec<Dirent> = Vec::new();
        res.push(Dirent { inode: 0, permission: perm, f_type: FileType::LINK, f_name: owned(".") });
        res.push(Dirent { inode: 0, permission: perm, f_type: FileType::LINK, f_name: owned("..") });
        res.push(Dirent { inode: 0, permission: perm, f_type: FileType::LINK, f_name: owned("self") });
        let mut i: usize = 0;
        while i < pids.len()
            invariant
                want == root_listing(pids@),
                perm.bits == 0o440,
                i <= pids@.len(),
                res@.len() == i + 3,
                forall|k: int| 0 <= k < i + 3 ==> (#[trigger] res@[k])@ == want[k],
            decreases pids@.len() - i,
        {
            res.push(Dirent { inode: 0, permission: perm, f_type: FileType::DIR, f_name: decimal(pids[i]) });
            i = i + 1;
        }
        proof {
            assert(Seq::new(res@.len(), |k: int| res@[k]@) =~= want);
        }
        res
    }

    /// Opens `entry_name` in `/proc` when `pids` are the processes: the
    /// links "self", ".." and ".", or the folder of the process whose number
    /// the name is.
    pub fn open_entry(&self, entry_name: &str, pids: &Vec<usize>) -> (r: Result<ProcEntry, ErrorNum>)
        ensures
            match root_open_spec(pids@, entry_name@) {
                Ok(m) => r matches Ok(e) && proc_entry_view(e) == m,
                Err(e) => r == Err::<ProcEntry, ErrorNum>(e),
            },
    {
        if str_eq(entry_name, "self") {
            Ok(ProcEntry::SelfLink)
        } else if str_eq(entry_name, "..") {
            Ok(ProcEntry::Link { link_dest: owned("/"), self_path: owned("/proc/..") })
        } else if str_eq(entry_name, ".") {
            Ok(ProcEntry::Link { link_dest: owned("/proc"), self_path: owned("/proc/.") })
        } else {
            let pid = match parse_usize(entry_name) {
                Some(p) => p,
                None => {
                    return Err(ErrorNum::ENOENT);
                },
            };
            if !contains_pid(pids, pid) {
                return Err(ErrorNum::ESRCH);
            }
            Ok(ProcEntry::PidDir(pid))
        }
    }
}

/// The text by which the folder of process `pid` names the process in its
/// links: the process number written as `ProcessID(n)`.
pub open spec fn pid_label(pid: usize) -> Seq<char> {
    "ProcessID("@ + dec_text(pid as nat) + ")"@
}

/// The entries of the folder of a process whose open descriptors are
/// `fds`: the links "." and "..", then a link for each descriptor, named by
/// its number.
pub open spec fn pid_listing(fds: Seq<usize>) -> Seq<DirentModel> {
    seq![
        DirentModel { inode: 0, perm: 0o644, f_type: FileType::LINK, name: "."@ },
        DirentModel { inode: 0, perm: 0o644, f_type: FileType::LINK, name: ".."@ },
    ] + Seq::new(
        fds.len(),
        |i: int| DirentModel { inode: 0, perm: 0o644, f_type: FileType::LINK, name: dec_text(fds[i] as nat) },
    )
}

/// What opening `name` in the folder of process `pid` gives; `ENOENT` for
/// any name but "self", "..", "." and "fd".
pub open spec fn pid_open_spec(pid: usize, name: Seq<char>) -> Result<ProcEntryModel, ErrorNum> {
    if name == "self"@ {
        Ok(ProcEntryModel::SelfLink)
    } else if name == ".."@ {
        Ok(ProcEntryModel::Link("/proc"@, "/proc/"@ + pid_label(pid) + "/.."@))
    } else if name == "."@ {
        Ok(ProcEntryModel::Link("/proc/"@ + pid_label(pid), "/proc/"@ + pid_label(pid) + "/."@))
    } else if name == "fd"@ {
        Ok(ProcEntryModel::FdDir(pid))
    } else {
        Err(ErrorNum::ENOENT)
    }
}

/// The folder of the process `pid`.
pub struct PidProcDir {
    pub pid: usize,
}

impl PidProcDir {
    /// The folder of `pid`, when it is one of the processes `pids`; `ESRCH`
    /// otherwise.
    pub fn new(pid: usize, pids: &Vec<usize>) -> (r: Result<PidProcDir, ErrorNum>)
        ensures
            pids@.contains(pid) ==> (r matches Ok(d) && d.pid == pid),
            !pids@.contains(pid) ==> (r matches Err(e) && e == ErrorNum::ESRCH),
    {
        if contains_pid(pids, pid) {
            Ok(PidProcDir { pid })
        } else {
            Err(ErrorNum::ESRCH)
        }
    }

    /// "/proc/" and the label of the process, then `tail`.
    fn path_with(&self, tail: &str) -> (r: String)
        ensures
            r@ == "/proc/"@ + pid_label(self.pid) + tail@,
    {
        let mut s = owned("/proc/ProcessID(");
        s.append(decimal(self.pid).as_str());
        s.append(")");
        s.append(tail);
        proof {
            reveal_strlit("/proc/ProcessID(");
            reveal_strlit("/proc/");
            reveal_strlit("ProcessID(");
            assert(s@ =~= "/proc/"@ + pid_label(self.pid) + tail@);
        }
        s
    }

    /// The entries of the folder when the process's open descriptors are
    /// `fds`, in their order.
    pub fn read_dirent(&self, fds: &Vec<usize>) -> (r: Vec<Dirent>)
        ensures
            Seq::new(r@.len(), |i: int| r@[i]@) == pid_listing(fds@),
    {
        let ghost want = pid_listing(fds@);
        let mut res: Vec<Dirent> = Vec::new();
        res.push(Dirent { inode: 0, permission: Permission::default(), f_type: FileType::LINK, f_name: owned(".") });
        res.push(Dirent { inode: 0, permission: Permission::default(), f_type: FileType::LINK, f_name: owned("..") });
        let mut i: usize = 0;
        while i < fds.len()
            invariant
                want == pid_listing(fds@),
                i <= fds@.len(),
                res@.len() == i + 2,
                forall|k: int| 0 <= k < i + 2 ==> (#[trigger] res@[k])@ == want[k],
            decreases fds@.len() - i,
        {
            res.push(
                Dirent { inode: 0, permission: Permission::default(), f_type: FileType::LINK, f_name: decimal(fds[i]) },
            );
            i = i + 1;
        }
        proof {
            assert(Seq::new(res@.len(), |k: int| res@[k]@) =~= want);
        }
        res
    }

    /// Opens `entry_name` in the folder: the link "self", the links ".."
    /// and ".", or the folder of descriptors "fd".
    pub fn open_entry(&self, entry_name: &str) -> (r: Result<ProcEntry, ErrorNum>)
        ensures
            match pid_open_spec(self.pid, entry_name@) {
                Ok(m) => r matches Ok(e) && proc_entry_view(e) == m,
                Err(e) => r == Err::<ProcEntry, ErrorNum>(e),
            },
    {
        if str_eq(entry_name, "self") {
            Ok(ProcEntry::SelfLink)
        } else if str_eq(entry_name, "..") {
            Ok(ProcEntry::Link { link_dest: owned("/proc"), self_path: self.path_with("/..") })
        } else if str_eq(entry_name, ".") {
            let dest = self.path_with("");
            proof {
                reveal_strlit("");
                assert(dest@ =~= "/proc/"@ + pid_label(self.pid));
            }
            Ok(ProcEntry::Link { link_dest: dest, self_path: self.path_with("/.") })
        } else if str_eq(entry_name, "fd") {
            Ok(ProcEntry::FdDir(self.pid))
        } else {
            Err(ErrorNum::ENOENT)
        }
    }
}

/// The link "self" of `/proc`.
pub struct SelfProcDir;

impl SelfProcDir {
    /// Where the link points for the running process `current`: "/proc/"
    /// and its number.
    pub fn read_link(&self, current: usize) -> (r: String)
        ensures
            r@ == "/proc/"@ + dec_text(current as nat),
    {
        let mut s = owned("/proc/");
        s.append(decimal(current).as_str());
        s
    }
}

} // verus!
