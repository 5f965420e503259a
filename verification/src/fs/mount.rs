//! Mount points, and the walk that opens a path across file systems: it
//! enters the file system mounted on a folder, follows symbolic links from
//! the root (at most `MAX_LINK_RECURSE` deep) and opens one entry after the
//! other.  The files themselves are opened by the caller, which tells the
//! walk what each file it reached is and does what the walk asks next.
use vstd::prelude::*;
use crate::error::ErrorNum;
use super::vfs::Path;
use crate::config::MAX_LINK_RECURSE;

verus! {

/// A folder as a mount point: its file system and its inode there.
#[derive(Clone, Copy, PartialEq, Eq, Structural, Debug)]
pub struct MountPoint {
    pub fs: u64,
    pub inode: u32,
}

/// The mounts: the root file system, the file systems known by their ids,
/// and which file system is mounted on which folder.
pub struct MountManagerInner {
    pub root_fs: u64,
    pub fs: Vec<u64>,
    pub mount_point: Vec<(MountPoint, u64)>,
}

/// The mounted file systems, by mount point.
pub open spec fn mount_map(m: Seq<(MountPoint, u64)>) -> Map<MountPoint, u64> {
    Map::new(|p: MountPoint| exists|i: int| 0 <= i < m.len() && m[i].0 == p, |p: MountPoint| m[choose|i: int| 0 <= i < m.len() && m[i].0 == p].1)
}

/// No mount point, and no file system, is listed twice.
pub open spec fn distinct_keys(m: Seq<(MountPoint, u64)>) -> bool {
    forall|i: int, j: int| 0 <= i < j < m.len() ==> m[i].0 != m[j].0
}

/// No id is listed twice.
pub open spec fn distinct_ids(f: Seq<u64>) -> bool {
    forall|i: int, j: int| 0 <= i < j < f.len() ==> f[i] != f[j]
}

impl MountManagerInner {
    /// The mount points are distinct, and so are the file systems.
    pub open spec fn wf(&self) -> bool {
        distinct_keys(self.mount_point@) && distinct_ids(self.fs@)
    }

    /// The mounts, by mount point.
    pub open spec fn mounts(&self) -> Map<MountPoint, u64> {
        mount_map(self.mount_point@)
    }

    /// The known file systems.
    pub open spec fn known(&self) -> Set<u64> {
        self.fs@.to_set()
    }

    /// The mounts of a system whose root file system is `root_fs`: it is
    /// known, and nothing is mounted.
    pub fn new(root_fs: u64) -> (r: MountManagerInner)
        ensures
            r.wf(),
            r.root_fs == root_fs,
            r.known() == set![root_fs],
            r.mounts() == Map::<MountPoint, u64>::empty(),
    {
        let r = MountManagerInner { root_fs, fs: vec![root_fs], mount_point: Vec::new() };
        proof {
            assert(r.known() =~= set![root_fs]) by {
                assert(r.fs@[0] == root_fs);
            }
            assert(r.mounts() =~= Map::<MountPoint, u64>::empty());
        }
        r
    }

    /// The position of `mp` among the mount points.
    fn position(&self, mp: MountPoint) -> (r: Option<usize>)
        ensures
            r matches Some(i) ==> i < self.mount_point@.len() && self.mount_point@[i as int].0 == mp,
            r is None ==> forall|i: int| 0 <= i < self.mount_point@.len() ==> self.mount_point@[i].0 != mp,
    {
        let mut i: usize = 0;
        while i < self.mount_point.len()
            invariant
                i <= self.mount_point@.len(),
                forall|k: int| 0 <= k < i ==> self.mount_point@[k].0 != mp,
            decreases self.mount_point@.len() - i,
        {
            if self.mount_point[i].0 == mp {
                return Some(i);
            }
            i = i + 1;
        }
        None
    }

    /// The file system mounted on `mp`, if any.
    pub fn mounted(&self, mp: MountPoint) -> (r: Option<u64>)
        requires
            self.wf(),
        ensures
            self.mounts().contains_key(mp) ==> r == Some(self.mounts()[mp]),
            !self.mounts().contains_key(mp) ==> r is None,
    {
        match self.position(mp) {
            Some(i) => {
                proof {
                    let c = choose|k: int| 0 <= k < self.mount_point@.len() && self.mount_point@[k].0 == mp;
                    assert(c == i as int);
                }
                Some(self.mount_point[i].1)
            },
            None => None,
        }
    }

    /// Mounts the file system `vfs` on `mp`, in place of any mounted there,
    /// and makes it known.
    pub fn mount(&mut self, mp: MountPoint, vfs: u64)
        requires
            old(self).wf(),
        ensures
            final(self).wf(),
            final(self).root_fs == old(self).root_fs,
            final(self).mounts() == old(self).mounts().insert(mp, vfs),
            final(self).known() == old(self).known().insert(vfs),
    {
        match self.position(mp) {
            Some(i) => {
                self.mount_point.set(i, (mp, vfs));
                proof {
                    let m = self.mount_point@;
                    assert forall|a: int, b: int| 0 <= a < b < m.len() implies m[a].0 != m[b].0 by {
                        assert(old(self).mount_point@[a].0 != old(self).mount_point@[b].0);
                    }
                    assert forall|p: MountPoint| #[trigger] self.mounts().contains_key(p) == old(self).mounts().insert(mp, vfs).contains_key(p) by {
                        if old(self).mounts().contains_key(p) {
                            let k = choose|k: int| 0 <= k < old(self).mount_point@.len() && old(self).mount_point@[k].0 == p;
                            assert(m[k].0 == p);
                        }
                        if p == mp {
                            assert(m[i as int].0 == p);
                        }
                    }
                    assert forall|p: MountPoint| #[trigger] self.mounts().contains_key(p) implies self.mounts()[p] == old(self).mounts().insert(mp, vfs)[p] by {
                        let k = choose|k: int| 0 <= k < m.len() && m[k].0 == p;
                        if p != mp {
                            let k0 = choose|k: int| 0 <= k < old(self).mount_point@.len() && old(self).mount_point@[k].0 == p;
                            assert(k == k0) by {
                                if k != k0 {
                                    assert(m[k0].0 == p);
                                }
                            }
                        } else {
                            assert(k == i as int);
                        }
                    }
                    assert(self.mounts() =~= old(self).mounts().insert(mp, vfs));
                }
            },
            None => {
                self.mount_point.push((mp, vfs));
                proof {
                    let m = self.mount_point@;
                    let n = old(self).mount_point@.len() as int;
                    assert forall|p: MountPoint| #[trigger] self.mounts().contains_key(p) == old(self).mounts().insert(mp, vfs).contains_key(p) by {
                        if old(self).mounts().contains_key(p) {
                            let k = choose|k: int| 0 <= k < old(self).mount_point@.len() && old(self).mount_point@[k].0 == p;
                            assert(m[k].0 == p);
                        }
                        if p == mp {
                            assert(m[n].0 == p);
                        }
                    }
                    assert forall|p: MountPoint| #[trigger] self.mounts().contains_key(p) implies self.mounts()[p] == old(self).mounts().insert(mp, vfs)[p] by {
                        let k = choose|k: int| 0 <= k < m.len() && m[k].0 == p;
                        if p != mp {
                            let k0 = choose|k: int| 0 <= k < old(self).mount_point@.len() && old(self).mount_point@[k].0 == p;
                            assert(k == k0) by {
                                if k != k0 {
                                    assert(m[k0].0 == p);
                                }
                            }
                        } else {
                            assert(k == n);
                        }
                    }
                    assert(self.mounts() =~= old(self).mounts().insert(mp, vfs));
                }
            },
        }
        let mut j: usize = 0;
        let mut found = false;
        while j < self.fs.len()
            invariant
                j <= self.fs@.len(),
                !found ==> forall|k: int| 0 <= k < j ==> self.fs@[k] != vfs,
                found ==> self.fs@.contains(vfs),
            decreases self.fs@.len() - j,
        {
            if self.fs[j] == vfs {
                found = true;
                proof {
                    assert(self.fs@[j as int] == vfs);
                }
            }
            j = j + 1;
        }
        let ghost f0 = self.fs@;
        if !found {
            self.fs.push(vfs);
            proof {
                let f = self.fs@;
                let n = f0.len() as int;
                assert(f == f0.push(vfs));
                assert forall|x: u64| #[trigger] f.to_set().contains(x) == f0.to_set().insert(vfs).contains(x) by {
                    if f0.to_set().contains(x) {
                        let k = choose|k: int| 0 <= k < f0.len() && f0[k] == x;
                        assert(f[k] == x);
                    }
                    if x == vfs {
                        assert(f[n] == vfs);
                    }
                    if f.to_set().contains(x) {
                        let k = choose|k: int| 0 <= k < f.len() && f[k] == x;
                        if k < n {
                            assert(f0[k] == x);
                        }
                    }
                }
                assert(f.to_set() =~= f0.to_set().insert(vfs));
                assert forall|a: int, b: int| 0 <= a < b < f.len() implies f[a] != f[b] by {
                    if b < n {
                        assert(f0[a] != f0[b]);
                    } else {
                        assert(f0[a] != vfs);
                    }
                }
            }
        } else {
            proof {
                assert(self.fs@.to_set() =~= f0.to_set().insert(vfs));
            }
        }
    }

    /// Unmounts what is mounted on `mp`, and forgets that file system;
    /// `ENOENT` when nothing is mounted there.  The file system must be
    /// known (unmounting a file system mounted twice stops the kernel).
    pub fn umount(&mut self, mp: MountPoint) -> (r: Result<(), ErrorNum>)
        requires
            old(self).wf(),
            old(self).mounts().contains_key(mp) ==> old(self).known().contains(old(self).mounts()[mp]),
        ensures
            final(self).wf(),
            final(self).root_fs == old(self).root_fs,
            !old(self).mounts().contains_key(mp) ==> r == Err::<(), ErrorNum>(ErrorNum::ENOENT) && final(self).mounts()
                == old(self).mounts() && final(self).known() == old(self).known(),
            old(self).mounts().contains_key(mp) ==> r is Ok && final(self).mounts() == old(self).mounts().remove(mp)
                && final(self).known() == old(self).known().remove(old(self).mounts()[mp]),
    {
        let i = match self.position(mp) {
            Some(i) => i,
            None => {
                proof {
                    assert(!old(self).mounts().contains_key(mp));
                }
                return Err(ErrorNum::ENOENT);
            },
        };
        let ghost m0 = self.mount_point@;
        let ghost f0 = self.fs@;
        let id = self.mount_point[i].1;
        proof {
            let c = choose|k: int| 0 <= k < m0.len() && m0[k].0 == mp;
            assert(c == i as int);
        }
        self.mount_point.remove(i);
        proof {
            let m = self.mount_point@;
            assert(m =~= m0.remove(i as int));
            assert forall|a: int, b: int| 0 <= a < b < m.len() implies m[a].0 != m[b].0 by {
                let a0 = if a < i { a } else { a + 1 };
                let b0 = if b < i { b } else { b + 1 };
                assert(m0[a0].0 != m0[b0].0);
            }
            assert forall|p: MountPoint| #[trigger] self.mounts().contains_key(p) == old(self).mounts().remove(mp).contains_key(p) by {
                if p != mp && old(self).mounts().contains_key(p) {
                    let k = choose|k: int| 0 <= k < m0.len() && m0[k].0 == p;
                    let k1 = if k < i { k } else { k - 1 };
                    assert(m[k1].0 == p);
                }
                if self.mounts().contains_key(p) {
                    let k = choose|k: int| 0 <= k < m.len() && m[k].0 == p;
                    let k0 = if k < i { k } else { k + 1 };
                    assert(m0[k0].0 == p);
                }
            }
            assert forall|p: MountPoint| #[trigger] self.mounts().contains_key(p) implies self.mounts()[p] == old(self).mounts().remove(mp)[p] by {
                let k = choose|k: int| 0 <= k < m.len() && m[k].0 == p;
                let k0 = if k < i { k } else { k + 1 };
                let c = choose|c: int| 0 <= c < m0.len() && m0[c].0 == p;
                assert(c == k0) by {
                    if c != k0 {
                        assert(m0[k0].0 == p);
                    }
                }
            }
            assert(self.mounts() =~= old(self).mounts().remove(mp));
        }
        let ghost m1 = self.mount_point@;
        let mut j: usize = 0;
        while j < self.fs.len()
            invariant
                j <= self.fs@.len(),
                self.fs@ == f0,
                self.mount_point@ == m1,
                distinct_keys(m1),
                self.root_fs == old(self).root_fs,
                self.mounts() == old(self).mounts().remove(mp),
                old(self).mounts().contains_key(mp),
                id == old(self).mounts()[mp],
                f0 == old(self).fs@,
                distinct_ids(f0),
                f0.contains(id),
                forall|k: int| 0 <= k < j ==> f0[k] != id,
            decreases self.fs@.len() - j,
        {
            if self.fs[j] == id {
                self.fs.remove(j);
                proof {
                    let f = self.fs@;
                    assert(f =~= f0.remove(j as int));
                    assert forall|a: int, b: int| 0 <= a < b < f.len() implies f[a] != f[b] by {
                        let a0 = if a < j { a } else { a + 1 };
                        let b0 = if b < j { b } else { b + 1 };
                        assert(f0[a0] != f0[b0]);
                    }
                    assert forall|x: u64| #[trigger] f.to_set().contains(x) == f0.to_set().remove(id).contains(x) by {
                        if f0.to_set().contains(x) && x != id {
                            let k = choose|k: int| 0 <= k < f0.len() && f0[k] == x;
                            let k1 = if k < j { k } else { k - 1 };
                            assert(f[k1] == x);
                        }
                        if f.to_set().contains(x) {
                            let k = choose|k: int| 0 <= k < f.len() && f[k] == x;
                            let k0 = if k < j { k } else { k + 1 };
                            assert(f0[k0] == x);
                            if x == id {
                                assert(f0[j as int] == id);
                            }
                        }
                    }
                    assert(f.to_set() =~= f0.to_set().remove(id));
                }
                return Ok(());
            }
            j = j + 1;
        }
        proof {
            let k = choose|k: int| 0 <= k < f0.len() && f0[k] == id;
            assert(f0[k] != id);
        }
        Ok(())
    }

    /// Whether the file system `uuid` is known: `ENOENT` when it is not.
    pub fn get_fs(&self, uuid: u64) -> (r: Result<u64, ErrorNum>)
        ensures
            self.known().contains(uuid) ==> r == Ok::<u64, ErrorNum>(uuid),
            !self.known().contains(uuid) ==> r == Err::<u64, ErrorNum>(ErrorNum::ENOENT),
    {
        let mut j: usize = 0;
        while j < self.fs.len()
            invariant
                j <= self.fs@.len(),
                forall|k: int| 0 <= k < j ==> self.fs@[k] != uuid,
            decreases self.fs@.len() - j,
        {
            if self.fs[j] == uuid {
                proof {
                    assert(self.fs@[j as int] == uuid);
                }
                return Ok(uuid);
            }
            j = j + 1;
        }
        Err(ErrorNum::ENOENT)
    }
}

/// What the file reached so far is, as the caller finds it: a folder (with
/// its mount point), a symbolic link, or another file.
#[derive(Clone, Copy, PartialEq, Eq, Structural, Debug)]
pub enum LookupKind {
    Dir(MountPoint),
    Link,
    Other,
}

/// What the walk asks of the caller next.
#[derive(Debug)]
pub enum OpenStep {
    /// Open the entry of this name in the folder reached; it becomes the file reached.
    OpenEntry(String),
    /// The root folder of this file system becomes the file reached.
    EnterFs(u64),
    /// Read where the link reached points and hand it to `follow`; the root
    /// folder of the root file system then becomes the file reached.
    ReadLink,
    /// The file reached is the file opened.
    Done,
    /// Opening fails with this error.
    Fail(ErrorNum),
}

/// An answer of the walk, with the name as text.
pub enum StepModel {
    OpenEntry(Seq<char>),
    EnterFs(u64),
    ReadLink,
    Done,
    Fail(ErrorNum),
}

/// The model of an answer.
pub open spec fn step_view(s: OpenStep) -> StepModel {
    match s {
        OpenStep::OpenEntry(n) => StepModel::OpenEntry(n@),
        OpenStep::EnterFs(f) => StepModel::EnterFs(f),
        OpenStep::ReadLink => StepModel::ReadLink,
        OpenStep::Done => StepModel::Done,
        OpenStep::Fail(e) => StepModel::Fail(e),
    }
}

/// Where a walk through one path stands: walking its components, then
/// checking whether what it reached is a link to follow, then whether it is
/// a mount point to enter, then finished.
#[derive(Clone, Copy, PartialEq, Eq, Structural, Debug)]
pub enum Stage {
    Walking,
    CheckLink,
    CheckMount,
    Finish,
}

/// The walk through one path: the components left, how deep in links it is,
/// and its stage.
pub struct WalkFrame {
    pub rest: Path,
    pub depth: usize,
    pub stage: Stage,
}

/// A walk through one path, as texts.
pub struct FrameModel {
    pub rest: Seq<Seq<char>>,
    pub depth: nat,
    pub stage: Stage,
}

impl View for WalkFrame {
    type V = FrameModel;

    open spec fn view(&self) -> FrameModel {
        FrameModel { rest: self.rest@, depth: self.depth as nat, stage: self.stage }
    }
}

/// Opening a path: the walk through it, under the walks through the links
/// that led to it, innermost last; and whether links are not to be followed.
pub struct OpenWalk {
    pub frames: Vec<WalkFrame>,
    pub no_follow: bool,
}

/// No walk is `MAX_LINK_RECURSE` links deep.
pub open spec fn depths_ok(f: Seq<FrameModel>) -> bool {
    forall|i: int| 0 <= i < f.len() ==> #[trigger] f[i].depth < MAX_LINK_RECURSE
}

/// How far a walk is from finishing.
pub open spec fn stage_rank(s: Stage) -> int {
    match s {
        Stage::Walking => 3,
        Stage::CheckLink => 2,
        Stage::CheckMount => 1,
        Stage::Finish => 0,
    }
}

/// The walks, as texts.
pub open spec fn frames_view(f: Seq<WalkFrame>) -> Seq<FrameModel> {
    Seq::new(f.len(), |i: int| f[i]@)
}

/// The walks with the innermost given stage `st` and components `rest`.
pub open spec fn with_top(f: Seq<FrameModel>, rest: Seq<Seq<char>>, st: Stage) -> Seq<FrameModel> {
    f.update(f.len() - 1, FrameModel { rest, depth: f.last().depth, stage: st })
}

/// One step of opening, when the file reached is of kind `kind` and the
/// mounts are `mounts`: the walks after it and what the caller is asked.
pub open spec fn step_spec(f: Seq<FrameModel>, kind: LookupKind, no_follow: bool, mounts: Map<MountPoint, u64>) -> (
    Seq<FrameModel>,
    StepModel,
)
    decreases f.len() * 4 + (if f.len() > 0 { stage_rank(f.last().stage) } else { 0 }),
{
    if f.len() == 0 {
        (f, StepModel::Done)
    } else {
        let top = f.last();
        match top.stage {
            Stage::Walking => if top.rest.len() > 0 {
                match kind {
                    LookupKind::Dir(mp) => if mounts.contains_key(mp) {
                        (f, StepModel::EnterFs(mounts[mp]))
                    } else {
                        (with_top(f, top.rest.drop_first(), Stage::Walking), StepModel::OpenEntry(top.rest[0]))
                    },
                    LookupKind::Link => if no_follow {
                        (f, StepModel::Fail(ErrorNum::ENOENT))
                    } else {
                        (f, StepModel::ReadLink)
                    },
                    LookupKind::Other => (f, StepModel::Fail(ErrorNum::ENOENT)),
                }
            } else {
                step_spec(with_top(f, top.rest, Stage::CheckLink), kind, no_follow, mounts)
            },
            Stage::CheckLink => if kind is Link && !no_follow {
                (with_top(f, top.rest, Stage::CheckMount), StepModel::ReadLink)
            } else {
                step_spec(with_top(f, top.rest, Stage::CheckMount), kind, no_follow, mounts)
            },
            Stage::CheckMount => match kind {
                LookupKind::Dir(mp) => if mounts.contains_key(mp) {
                    (with_top(f, top.rest, Stage::Finish), StepModel::EnterFs(mounts[mp]))
                } else {
                    step_spec(with_top(f, top.rest, Stage::Finish), kind, no_follow, mounts)
                },
                _ => step_spec(with_top(f, top.rest, Stage::Finish), kind, no_follow, mounts),
            },
            Stage::Finish => if f.len() == 1 {
                (f.drop_last(), StepModel::Done)
            } else {
                step_spec(f.drop_last(), kind, no_follow, mounts)
            },
        }
    }
}

impl OpenWalk {
    /// The walks, as texts.
    pub open spec fn model(&self) -> Seq<FrameModel> {
        frames_view(self.frames@)
    }

    /// Opening `path`, following links unless `no_follow`: one walk, from
    /// the file the caller starts at.
    pub fn start(path: Path, no_follow: bool) -> (r: OpenWalk)
        ensures
            r.model() == seq![FrameModel { rest: path@, depth: 0, stage: Stage::Walking }],
            r.no_follow == no_follow,
            depths_ok(r.model()),
    {
        let ghost p = path@;
        let r = OpenWalk { frames: vec![WalkFrame { rest: path, depth: 0, stage: Stage::Walking }], no_follow };
        proof {
            assert(r.model() =~= seq![FrameModel { rest: p, depth: 0, stage: Stage::Walking }]);
        }
        r
    }

    /// Follows a link the walk asked to read, which points at `target`: a
    /// walk through `target` from the root, one link deeper; `EMLINK` when
    /// that is `MAX_LINK_RECURSE` deep.
    pub fn follow(&mut self, target: Path) -> (r: Result<(), ErrorNum>)
        requires
            old(self).model().len() > 0,
            depths_ok(old(self).model()),
        ensures
            final(self).no_follow == old(self).no_follow,
            depths_ok(final(self).model()),
            old(self).model().last().depth + 1 >= MAX_LINK_RECURSE ==> r == Err::<(), ErrorNum>(ErrorNum::EMLINK)
                && final(self).model() == old(self).model(),
            old(self).model().last().depth + 1 < MAX_LINK_RECURSE ==> r is Ok && final(self).model() == old(
                self,
            ).model().push(FrameModel { rest: target@, depth: old(self).model().last().depth + 1, stage: Stage::Walking }),
    {
        let n = self.frames.len();
        let d = self.frames[n - 1].depth;
        proof {
            assert(self.model().last().depth == d);
        }
        if d >= MAX_LINK_RECURSE - 1 {
            return Err(ErrorNum::EMLINK);
        }
        let ghost t = target@;
        self.frames.push(WalkFrame { rest: target, depth: d + 1, stage: Stage::Walking });
        proof {
            assert(self.model() =~= old(self).model().push(FrameModel { rest: t, depth: (d + 1) as nat, stage: Stage::Walking }));
        }
        Ok(())
    }

    /// One step, when the file reached is of kind `kind` and the mounts are
    /// `mounts`.
    pub fn step(&mut self, kind: LookupKind, mounts: &MountManagerInner) -> (r: OpenStep)
        requires
            mounts.wf(),
            depths_ok(old(self).model()),
        ensures
            final(self).no_follow == old(self).no_follow,
            depths_ok(final(self).model()),
            (final(self).model(), step_view(r)) == step_spec(old(self).model(), kind, old(self).no_follow, mounts.mounts()),
    {
        let ghost want = step_spec(self.model(), kind, self.no_follow, mounts.mounts());
        loop
            invariant
                mounts.wf(),
                self.no_follow == old(self).no_follow,
                step_spec(self.model(), kind, self.no_follow, mounts.mounts()) == want,
                want == step_spec(old(self).model(), kind, old(self).no_follow, mounts.mounts()),
                depths_ok(self.model()),
            decreases self.model().len() * 4 + (if self.model().len() > 0 { stage_rank(self.model().last().stage) } else { 0 }),
        {
            let ghost cur = self.model();
            let ghost ms = mounts.mounts();
            let ghost nf = self.no_follow;
            let n = self.frames.len();
            if n == 0 {
                proof {
                    assert(cur.len() == 0);
                }
                return OpenStep::Done;
            }
            let mut top = self.frames.pop().unwrap();
            let ghost below = self.model();
            proof {
                assert(cur =~= below.push(top@));
                assert(cur.last() == top@);
            }
            match top.stage {
                Stage::Walking => {
                    if !top.rest.is_root() {
                        match kind {
                            LookupKind::Dir(mp) => {
                                match mounts.mounted(mp) {
                                    Some(id) => {
                                        self.frames.push(top);
                                        proof {
                                            assert(self.model() =~= cur);
                                        }
                                        return OpenStep::EnterFs(id);
                                    },
                                    None => {
                                        let name = top.rest.components[0].clone();
                                        proof {
                                            assert(name@ == top.rest@[0]);
                                        }
                                        top.rest = top.rest.strip_head();
                                        self.frames.push(top);
                                        proof {
                                            assert(self.model() =~= with_top(cur, cur.last().rest.drop_first(), Stage::Walking));
                                        }
                                        return OpenStep::OpenEntry(name);
                                    },
                                }
                            },
                            LookupKind::Link => {
                                self.frames.push(top);
                                proof {
                                    assert(self.model() =~= cur);
                                }
                                if self.no_follow {
                                    return OpenStep::Fail(ErrorNum::ENOENT);
                                }
                                return OpenStep::ReadLink;
                            },
                            LookupKind::Other => {
                                self.frames.push(top);
                                proof {
                                    assert(self.model() =~= cur);
                                }
                                return OpenStep::Fail(ErrorNum::ENOENT);
                            },
                        }
                    }
                    top.stage = Stage::CheckLink;
                    self.frames.push(top);
                    proof {
                        assert(self.model() =~= with_top(cur, cur.last().rest, Stage::CheckLink));
                    }
                },
                Stage::CheckLink => {
                    top.stage = Stage::CheckMount;
                    self.frames.push(top);
                    proof {
                        assert(self.model() =~= with_top(cur, cur.last().rest, Stage::CheckMount));
                    }
                    if let LookupKind::Link = kind {
                        if !self.no_follow {
                            return OpenStep::ReadLink;
                        }
                    }
                },
                Stage::CheckMount => {
                    top.stage = Stage::Finish;
                    self.frames.push(top);
                    proof {
                        assert(self.model() =~= with_top(cur, cur.last().rest, Stage::Finish));
                    }
                    if let LookupKind::Dir(mp) = kind {
                        if let Some(id) = mounts.mounted(mp) {
                            return OpenStep::EnterFs(id);
                        }
                    }
                },
                Stage::Finish => {
                    proof {
                        assert(self.model() =~= cur.drop_last());
                    }
                    if self.frames.len() == 0 {
                        return OpenStep::Done;
                    }
                },
            }
        }
    }
}

} // verus!
