//! The `/dev` folder: one character file for each device node that a driver
//! knows, found through the device tree, and three links.
use vstd::prelude::*;
use crate::error::ErrorNum;
use crate::text::{owned, str_eq};
use crate::device::device_tree::{DeviceTree, TreeModel, compatible_with, forest, select};
use crate::device::drivers::ids_in;
use super::types::{Dirent, DirentModel, FileType, Permission};

verus! {

/// The "compatible" texts of the devices that `/dev` lists, in order.
pub open spec fn dev_compat() -> Seq<Seq<char>> {
    seq![
        "google,goldfish-rtc"@,
        "ns16550a"@,
        "syscon-poweroff"@,
        "syscon-reboot"@,
        "riscv,plic0"@,
        "virtio,mmio"@,
    ]
}

/// The `k`-th "compatible" text of the list.
fn compat_name(k: usize) -> (r: &'static str)
    requires
        k < 6,
    ensures
        r@ == dev_compat()[k as int],
{
    if k == 0 {
        "google,goldfish-rtc"
    } else if k == 1 {
        "ns16550a"
    } else if k == 2 {
        "syscon-poweroff"
    } else if k == 3 {
        "syscon-reboot"
    } else if k == 4 {
        "riscv,plic0"
    } else {
        "virtio,mmio"
    }
}

/// The nodes compatible with the `k`-th text.
pub open spec fn compat_nodes(t: TreeModel, k: int) -> Result<Seq<int>, ErrorNum> {
    select(t.nodes, forest(t.nodes, t.roots), compatible_with(dev_compat()[k]))
}

/// The nodes compatible with each of the first `k` texts, text after text.
pub open spec fn dev_nodes(t: TreeModel, k: int) -> Seq<int>
    decreases k,
{
    if k <= 0 {
        seq![]
    } else {
        dev_nodes(t, k - 1) + compat_nodes(t, k - 1)->Ok_0
    }
}

/// What listing the devices needs: each search succeeds (a failed one stops
/// the kernel) and finds nodes of the tree.
pub open spec fn devs_ok(t: TreeModel) -> bool {
    forall|k: int| 0 <= k < 6 ==> (#[trigger] compat_nodes(t, k) matches Ok(ids) && ids_in(t, ids))
}

/// The unit name and the position of each device node, in the order of
/// `dev_nodes`.
pub fn compatible_devices(dev_tree: &DeviceTree) -> (r: Vec<(String, usize)>)
    requires
        devs_ok(dev_tree@),
    ensures
        r@.len() == dev_nodes(dev_tree@, 6).len(),
        forall|i: int| 0 <= i < r@.len() ==> (#[trigger] r@[i]).1 == dev_nodes(dev_tree@, 6)[i] && r@[i].0@
            == dev_tree@.nodes[r@[i].1 as int].name,
{
    let ghost t = dev_tree@;
    let mut res: Vec<(String, usize)> = Vec::new();
    let mut k: usize = 0;
    while k < 6
        invariant
            t == dev_tree@,
            devs_ok(t),
            k <= 6,
            res@.len() == dev_nodes(t, k as int).len(),
            forall|i: int| 0 <= i < res@.len() ==> (#[trigger] res@[i]).1 == dev_nodes(t, k as int)[i] && res@[i].0@
                == t.nodes[res@[i].1 as int].name,
        decreases 6 - k,
    {
        proof {
            assert(compat_nodes(t, k as int) matches Ok(ids) && ids_in(t, ids));
        }
        let found = match dev_tree.serach_compatible(compat_name(k)) {
            Ok(v) => v,
            Err(_) => {
                proof {
                    assert(false);
                }
                return res;
            },
        };
        let ghost ids = compat_nodes(t, k as int)->Ok_0;
        let ghost before = res@;
        proof {
            assert forall|j: int| 0 <= j < ids.len() implies #[trigger] ids[j] == found@[j] as int by {
                assert(crate::device::device_tree::ids_view(found@)[j] == found@[j] as int);
            }
        }
        let mut j: usize = 0;
        while j < found.len()
            invariant
                t == dev_tree@,
                ids_in(t, ids),
                found@.len() == ids.len(),
                forall|m: int| 0 <= m < ids.len() ==> #[trigger] ids[m] == found@[m] as int,
                j <= found@.len(),
                res@.len() == before.len() + j,
                forall|i: int| 0 <= i < before.len() ==> #[trigger] res@[i] == before[i],
                forall|m: int| 0 <= m < j ==> (#[trigger] res@[before.len() + m]).1 == ids[m] && res@[before.len() + m].0@
                    == t.nodes[ids[m]].name,
            decreases found@.len() - j,
        {
            let id = found[j];
            proof {
                assert(0 <= ids[j as int] < t.nodes.len());
            }
            let name = dev_tree.node(id).unit_name.clone();
            res.push((name, id));
            j = j + 1;
        }
        proof {
            let d = dev_nodes(t, k + 1);
            assert(d == dev_nodes(t, k as int) + ids);
            assert forall|i: int| 0 <= i < res@.len() implies (#[trigger] res@[i]).1 == d[i] && res@[i].0@ == t.nodes[res@[i].1 as int].name by {
                if i >= before.len() {
                    let m = i - before.len();
                    assert(res@[before.len() + m] == res@[i]);
                }
            }
        }
        k = k + 1;
    }
    res
}

/// What opening a name of `/dev` gives: the device of that unit name, or a
/// link with where it points and its own path.
#[derive(Debug)]
pub enum DevEntry {
    Device(String),
    Link { link_dest: String, self_path: String },
}

/// The `/dev` folder: its devices, each with its unit name and the inode
/// number of its driver, and the inode numbers of its links ".", ".." and "pts".
pub struct DevFolder {
    pub devices: Vec<(String, u32)>,
    pub dot_inode: u32,
    pub dotdot_inode: u32,
    pub pts_inode: u32,
}

/// What an entry is, as texts: a device's name, or a link's destination
/// and path.
pub enum EntryModel {
    Device(Seq<char>),
    Link(Seq<char>, Seq<char>),
}

/// The model of an entry.
pub open spec fn entry_view(e: DevEntry) -> EntryModel {
    match e {
        DevEntry::Device(n) => EntryModel::Device(n@),
        DevEntry::Link { link_dest, self_path } => EntryModel::Link(link_dest@, self_path@),
    }
}

/// The entry that opening `name` gives in a folder whose device names are
/// `names`; `ENOENT` when there is none.
pub open spec fn open_spec(names: Seq<Seq<char>>, name: Seq<char>) -> Result<EntryModel, ErrorNum> {
    if names.contains(name) {
        Ok(EntryModel::Device(name))
    } else if name == "."@ {
        Ok(EntryModel::Link("/dev"@, "/dev/."@))
    } else if name == "pts"@ {
        Ok(EntryModel::Link("/dev/uart@10000000"@, "/dev/pts"@))
    } else if name == ".."@ {
        Ok(EntryModel::Link("/"@, "/dev/.."@))
    } else {
        Err(ErrorNum::ENOENT)
    }
}

/// The listing of a folder with `devices` and link inodes `dot`, `dotdot`
/// and `pts`: a character file for each device, then the three links.
pub open spec fn listing_spec(devices: Seq<(Seq<char>, u32)>, dot: u32, dotdot: u32, pts: u32) -> Seq<DirentModel> {
    Seq::new(
        devices.len(),
        |i: int| DirentModel { inode: devices[i].1, perm: 0o644, f_type: FileType::CHAR, name: devices[i].0 },
    ) + seq![
        DirentModel { inode: dot, perm: 0o644, f_type: FileType::LINK, name: "."@ },
        DirentModel { inode: dotdot, perm: 0o644, f_type: FileType::LINK, name: ".."@ },
        DirentModel { inode: pts, perm: 0o644, f_type: FileType::LINK, name: "pts"@ },
    ]
}

impl DevFolder {
    /// The names of the devices.
    pub closed spec fn names(&self) -> Seq<Seq<char>> {
        Seq::new(self.devices@.len(), |i: int| self.devices@[i].0@)
    }

    /// The devices, each as its name's text and its inode number.
    pub closed spec fn devices_view(&self) -> Seq<(Seq<char>, u32)> {
        Seq::new(self.devices@.len(), |i: int| (self.devices@[i].0@, self.devices@[i].1))
    }

    /// Whether a device has the name `name`.
    pub fn has_device(&self, name: &str) -> (r: bool)
        ensures
            r == self.names().contains(name@),
    {
        let mut i: usize = 0;
        while i < self.devices.len()
            invariant
                i <= self.devices@.len(),
                forall|k: int| 0 <= k < i ==> self.devices@[k].0@ != name@,
            decreases self.devices@.len() - i,
        {
            if str_eq(self.devices[i].0.as_str(), name) {
                proof {
                    assert(self.names()[i as int] == name@);
                }
                return true;
            }
            i = i + 1;
        }
        proof {
            if self.names().contains(name@) {
                let k = choose|k: int| 0 <= k < self.names().len() && self.names()[k] == name@;
                assert(self.devices@[k].0@ == name@);
            }
        }
        false
    }

    /// Opens `entry_name`: a device of that name first, then the links
    /// ".", "pts" and ".."; `ENOENT` for any other name.
    pub fn open_entry(&self, entry_name: &str) -> (r: Result<DevEntry, ErrorNum>)
        ensures
            match open_spec(self.names(), entry_name@) {
                Ok(v) => r matches Ok(e) && entry_view(e) == v,
                Err(e) => r == Err::<DevEntry, ErrorNum>(e),
            },
    {
        if self.has_device(entry_name) {
            Ok(DevEntry::Device(owned(entry_name)))
        } else if str_eq(entry_name, ".") {
            Ok(DevEntry::Link { link_dest: owned("/dev"), self_path: owned("/dev/.") })
        } else if str_eq(entry_name, "pts") {
            Ok(DevEntry::Link { link_dest: owned("/dev/uart@10000000"), self_path: owned("/dev/pts") })
        } else if str_eq(entry_name, "..") {
            Ok(DevEntry::Link { link_dest: owned("/"), self_path: owned("/dev/..") })
        } else {
            Err(ErrorNum::ENOENT)
        }
    }

    /// The entries of the folder: a character file for each device, named
    /// after it with its driver's inode number, then the links ".", ".." and "pts".
    pub fn read_dirent(&self) -> (r: Vec<Dirent>)
        ensures
            Seq::new(r@.len(), |i: int| r@[i]@) == listing_spec(
                self.devices_view(),
                self.dot_inode,
                self.dotdot_inode,
                self.pts_inode,
            ),
    {
        let ghost want = listing_spec(self.devices_view(), self.dot_inode, self.dotdot_inode, self.pts_inode);
        let mut res: Vec<Dirent> = Vec::new();
        let mut i: usize = 0;
        while i < self.devices.len()
            invariant
                i <= self.devices@.len(),
                want == listing_spec(self.devices_view(), self.dot_inode, self.dotdot_inode, self.pts_inode),
                res@.len() == i,
                forall|k: int| 0 <= k < i ==> (#[trigger] res@[k])@ == want[k],
            decreases self.devices@.len() - i,
        {
            res.push(
                Dirent {
                    inode: self.devices[i].1,
                    permission: Permission::default(),
                    f_type: FileType::CHAR,
                    f_name: self.devices[i].0.clone(),
                },
            );
            i = i + 1;
        }
        res.push(Dirent { inode: self.dot_inode, permission: Permission::default(), f_type: FileType::LINK, f_name: owned(".") });
        res.push(
            Dirent { inode: self.dotdot_inode, permission: Permission::default(), f_type: FileType::LINK, f_name: owned("..") },
        );
        res.push(Dirent { inode: self.pts_inode, permission: Permission::default(), f_type: FileType::LINK, f_name: owned("pts") });
        proof {
            let n = self.devices@.len() as int;
            assert(res@[n]@ == want[n]);
            assert(res@[n + 1]@ == want[n + 1]);
            assert(res@[n + 2]@ == want[n + 2]);
            assert(Seq::new(res@.len(), |k: int| res@[k]@) =~= want);
        }
        res
    }
}

} // verus!
