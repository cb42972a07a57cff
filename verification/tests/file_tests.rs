use rcore_os::fs::{
    read_write, DirEntry, FileNode, OpenFile, RootDir, Stat, O_CREATE, O_RDONLY, O_RDWR, O_WRONLY,
    S_IFREG,
};
use rcore_os::syscall::fs::{
    alloc_fd, sys_close, sys_fstat, sys_linkat, sys_open, sys_read, sys_unlinkat, sys_write,
};

fn console_table() -> Vec<Option<OpenFile>> {
    vec![
        Some(OpenFile { node: FileNode::Stdin, readable: true, writable: false }),
        Some(OpenFile { node: FileNode::Stdout, readable: false, writable: true }),
        Some(OpenFile { node: FileNode::Stdout, readable: false, writable: true }),
    ]
}

fn root_with_a() -> RootDir {
    RootDir {
        entries: vec![DirEntry { name: "a".to_string(), inode: 0 }],
        link_counts: vec![1],
        sizes: vec![300],
        allocated: vec![true],
    }
}

#[test]
fn open_flags_decide_access() {
    assert_eq!(read_write(O_RDONLY), (true, false));
    assert_eq!(read_write(O_WRONLY), (false, true));
    assert_eq!(read_write(O_RDWR), (true, true));
    assert_eq!(read_write(O_CREATE | O_WRONLY), (false, true));
    assert_eq!(read_write(O_CREATE), (true, true));
}

#[test]
fn read_and_write_check_the_descriptor() {
    let t = console_table();
    assert_eq!(sys_read(&t, 0).unwrap().node, FileNode::Stdin);
    assert!(sys_write(&t, 0).is_none());
    assert_eq!(sys_write(&t, 1).unwrap().node, FileNode::Stdout);
    assert!(sys_read(&t, 1).is_none());
    assert!(sys_read(&t, 3).is_none());
    assert!(sys_write(&t, 9).is_none());
}

#[test]
fn open_takes_the_lowest_free_descriptor() {
    let mut t = console_table();
    assert_eq!(sys_open(&mut t, O_RDWR, Some(4)), 3);
    assert_eq!(t[3], Some(OpenFile { node: FileNode::Inode(4), readable: true, writable: true }));
    assert_eq!(sys_open(&mut t, O_RDONLY, None), -1);
    assert_eq!(t.len(), 4);
    assert_eq!(sys_close(&mut t, 1), 0);
    assert_eq!(sys_open(&mut t, O_WRONLY, Some(5)), 1);
    assert_eq!(t[1], Some(OpenFile { node: FileNode::Inode(5), readable: false, writable: true }));
    assert_eq!(alloc_fd(&mut t), 4);
    assert_eq!(t.len(), 5);
}

#[test]
fn close_refuses_descriptors_that_are_not_open() {
    let mut t = console_table();
    assert_eq!(sys_close(&mut t, 2), 0);
    assert_eq!(t[2], None);
    assert_eq!(sys_close(&mut t, 2), -1);
    assert_eq!(sys_close(&mut t, 10), -1);
}

#[test]
fn link_then_unlink_restores_the_directory() {
    let mut d = root_with_a();
    let a = "a".to_string();
    let b = "b".to_string();
    assert_eq!(sys_linkat(&mut d, &a, &a), -1);
    assert_eq!(sys_linkat(&mut d, &b, &a), -1);
    assert_eq!(sys_linkat(&mut d, &a, &b), 0);
    assert_eq!(d.entries.len(), 2);
    assert_eq!(d.entries[1].name, "b");
    assert_eq!(d.entries[1].inode, 0);
    assert_eq!(d.link_counts, vec![2]);
    assert_eq!(sys_unlinkat(&mut d, &b), 0);
    assert_eq!(d.entries.len(), 1);
    assert_eq!(d.entries[0].name, "a");
    assert_eq!(d.link_counts, vec![1]);
    assert_eq!(sys_unlinkat(&mut d, &b), -1);
}

#[test]
fn fstat_reports_inode_and_links() {
    let mut d = root_with_a();
    let mut t = console_table();
    assert_eq!(sys_open(&mut t, O_RDONLY, Some(0)), 3);
    assert_eq!(
        sys_fstat(&t, &d, 3),
        Some(Stat { dev: 0, ino: 0, mode: S_IFREG, nlink: 1 })
    );
    sys_linkat(&mut d, &"a".to_string(), &"c".to_string());
    assert_eq!(sys_fstat(&t, &d, 3).unwrap().nlink, 2);
    assert_eq!(sys_fstat(&t, &d, 0), None);
    assert_eq!(sys_fstat(&t, &d, 7), None);
}

#[test]
fn unlinking_the_last_link_frees_the_inode() {
    let mut d = root_with_a();
    let a = "a".to_string();
    let b = "b".to_string();
    assert_eq!(sys_linkat(&mut d, &a, &b), 0);
    assert_eq!(sys_unlinkat(&mut d, &a), 0);
    assert_eq!(d.link_counts, vec![1]);
    assert_eq!(d.sizes, vec![300]);
    assert_eq!(d.allocated, vec![true]);
    assert_eq!(sys_unlinkat(&mut d, &b), 0);
    assert_eq!(d.link_counts, vec![0]);
    assert_eq!(d.sizes, vec![0]);
    assert_eq!(d.allocated, vec![false]);
    assert!(d.entries.is_empty());
}
