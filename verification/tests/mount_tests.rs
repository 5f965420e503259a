use parch_kernel::error::ErrorNum;
use parch_kernel::fs::mount::{LookupKind, MountManagerInner, MountPoint, OpenStep, OpenWalk};
use parch_kernel::fs::vfs::Path;

/// A small tree of files: (fs, inode) of folders, links and other files.
#[derive(Clone, Copy, PartialEq, Debug)]
enum Node {
    Dir(u64, u32),
    Link(&'static str),
    File(&'static str),
}

fn entry(dir: Node, name: &str) -> Result<Node, ErrorNum> {
    match (dir, name) {
        (Node::Dir(1, 0), "dev") => Ok(Node::Dir(1, 5)),
        (Node::Dir(1, 0), "etc") => Ok(Node::Dir(1, 6)),
        (Node::Dir(1, 0), "l") => Ok(Node::Link("/dev/uart")),
        (Node::Dir(1, 0), "loop") => Ok(Node::Link("/loop")),
        (Node::Dir(1, 0), "d") => Ok(Node::Link("/dev")),
        (Node::Dir(1, 6), "conf") => Ok(Node::File("conf")),
        (Node::Dir(2, 0), "uart") => Ok(Node::File("uart")),
        _ => Err(ErrorNum::ENOENT),
    }
}

fn kind(n: Node) -> LookupKind {
    match n {
        Node::Dir(fs, inode) => LookupKind::Dir(MountPoint { fs, inode }),
        Node::Link(_) => LookupKind::Link,
        Node::File(_) => LookupKind::Other,
    }
}

fn open(m: &MountManagerInner, path: &str, no_follow: bool) -> Result<Node, ErrorNum> {
    let root = Node::Dir(1, 0);
    let mut w = OpenWalk::start(Path::new(path).unwrap(), no_follow);
    let mut cur = root;
    loop {
        match w.step(kind(cur), m) {
            OpenStep::OpenEntry(n) => cur = entry(cur, &n)?,
            OpenStep::EnterFs(f) => cur = Node::Dir(f, 0),
            OpenStep::ReadLink => {
                let target = match cur {
                    Node::Link(t) => t,
                    _ => unreachable!(),
                };
                w.follow(Path::new(target).unwrap())?;
                cur = root;
            },
            OpenStep::Done => return Ok(cur),
            OpenStep::Fail(e) => return Err(e),
        }
    }
}

fn mounts() -> MountManagerInner {
    let mut m = MountManagerInner::new(1);
    m.mount(MountPoint { fs: 1, inode: 5 }, 2);
    m
}

#[test]
fn open_walks_entries_and_enters_mounts() {
    let m = mounts();
    assert_eq!(open(&m, "/etc/conf", false), Ok(Node::File("conf")));
    assert_eq!(open(&m, "/dev/uart", false), Ok(Node::File("uart")));
    // a mount point opened itself gives the mounted root
    assert_eq!(open(&m, "/dev", false), Ok(Node::Dir(2, 0)));
    assert_eq!(open(&m, "/nothing", false), Err(ErrorNum::ENOENT));
    assert_eq!(open(&m, "/etc/conf/x", false), Err(ErrorNum::ENOENT));
}

#[test]
fn open_follows_links() {
    let m = mounts();
    assert_eq!(open(&m, "/l", false), Ok(Node::File("uart")));
    assert_eq!(open(&m, "/d/uart", false), Ok(Node::File("uart")));
    // without following, the link itself is opened, but not walked through
    assert_eq!(open(&m, "/l", true), Ok(Node::Link("/dev/uart")));
    assert_eq!(open(&m, "/d/uart", true), Err(ErrorNum::ENOENT));
    // a link to itself gives up after MAX_LINK_RECURSE links
    assert_eq!(open(&m, "/loop", false), Err(ErrorNum::EMLINK));
}

#[test]
fn mount_table() {
    let mut m = mounts();
    let mp = MountPoint { fs: 1, inode: 5 };
    assert_eq!(m.mounted(mp), Some(2));
    assert_eq!(m.get_fs(2), Ok(2));
    assert_eq!(m.get_fs(9), Err(ErrorNum::ENOENT));
    m.mount(mp, 3);
    assert_eq!(m.mounted(mp), Some(3));
    assert_eq!(m.umount(mp), Ok(()));
    assert_eq!(m.mounted(mp), None);
    assert_eq!(m.get_fs(3), Err(ErrorNum::ENOENT));
    assert_eq!(m.umount(mp), Err(ErrorNum::ENOENT));
    assert_eq!(open(&m, "/dev", false), Ok(Node::Dir(1, 5)));
}
