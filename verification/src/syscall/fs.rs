//! File system calls on a task's descriptor table and the root directory.
//!
//! Moving bytes between files and user buffers is the caller's work: the
//! read and write calls check the descriptor and hand back the open file
//! to transfer with.
use vstd::prelude::*;
use crate::fs::{
    FileNode, O_WRONLY, OpenFile, RootDir, Stat, flags_valid, lemma_read_write_by_flags, read_write, read_write_spec,
};
use crate::sync::{first_free, first_free_from, lemma_first_free_in_range};
use crate::syscall::sync::first_free_slot;

verus! {

/// The open file at descriptor `fd`, if there is one.
pub open spec fn file_at(fd_table: Seq<Option<OpenFile>>, fd: usize) -> Option<OpenFile> {
    if fd < fd_table.len() {
        fd_table[fd as int]
    } else {
        None
    }
}

/// The file to write to through descriptor `fd`: `None` (the call returns
/// -1) when `fd` is not open or its file cannot be written.
pub fn sys_write(fd_table: &Vec<Option<OpenFile>>, fd: usize) -> (r: Option<OpenFile>)
    ensures
        r == (match file_at(fd_table@, fd) {
            Some(f) => if f.writable {
                Some(f)
            } else {
                None
            },
            None => None,
        }),
{
    if fd >= fd_table.len() {
        return None;
    }
    match fd_table[fd] {
        Some(file) => {
            if !file.writable {
                return None;
            }
            Some(file)
        },
        None => None,
    }
}

/// The file to read from through descriptor `fd`: `None` (the call returns
/// -1) when `fd` is not open or its file cannot be read.
pub fn sys_read(fd_table: &Vec<Option<OpenFile>>, fd: usize) -> (r: Option<OpenFile>)
    ensures
        r == (match file_at(fd_table@, fd) {
            Some(f) => if f.readable {
                Some(f)
            } else {
                None
            },
            None => None,
        }),
{
    if fd >= fd_table.len() {
        return None;
    }
    match fd_table[fd] {
        Some(file) => {
            if !file.readable {
                return None;
            }
            Some(file)
        },
        None => None,
    }
}

/// The lowest free descriptor: the first empty slot, or a new slot at the
/// end.
pub fn alloc_fd(fd_table: &mut Vec<Option<OpenFile>>) -> (fd: usize)
    ensures
        match first_free(old(fd_table)@) {
            Some(i) => fd == i && final(fd_table)@ == old(fd_table)@,
            None => fd == old(fd_table)@.len() && final(fd_table)@ == old(fd_table)@.push(None),
        },
        fd < final(fd_table)@.len(),
{
    match first_free_slot(fd_table) {
        Some(i) => {
            proof {
                lemma_first_free_in_range(fd_table@, 0);
            }
            i
        },
        None => {
            fd_table.push(None);
            fd_table.len() - 1
        },
    }
}

/// The open file that a file system inode opened with `flags` gives.
pub open spec fn opened_file(ino: usize, flags: u32) -> OpenFile {
    OpenFile { node: FileNode::Inode(ino), readable: read_write_spec(flags).0, writable: read_write_spec(flags).1 }
}

/// What opening the inode `opened` with `flags` does to the descriptor
/// table `old`, leaving `new`: -1 when nothing was found; otherwise the
/// first empty slot, or a new one at the end, gets the open file.
pub open spec fn open_post(
    old: Seq<Option<OpenFile>>,
    new: Seq<Option<OpenFile>>,
    flags: u32,
    opened: Option<usize>,
    r: isize,
) -> bool {
    &&& opened is None ==> r == -1 && new == old
    &&& opened matches Some(ino) ==> match first_free(old) {
        Some(i) => r == i as isize && new == old.update(i, Some(opened_file(ino, flags))),
        None => r == old.len() as isize && new == old.push(Some(opened_file(ino, flags))),
    }
}

/// The first empty slot from `i` on is empty and every slot before it from
/// `i` on is taken; with none found, every slot from `i` on is taken.
pub proof fn lemma_first_free_lowest<T>(s: Seq<Option<T>>, i: int)
    requires
        0 <= i,
    ensures
        first_free_from(s, i) matches Some(k) ==> i <= k < s.len() && s[k] is None && forall|j: int|
            i <= j < k ==> #[trigger] s[j] is Some,
        first_free_from(s, i) is None ==> forall|j: int| i <= j < s.len() ==> #[trigger] s[j] is Some,
    decreases s.len() - i,
{
    if i < s.len() {
        lemma_first_free_lowest(s, i + 1);
    }
}

/// Opening a found inode puts it at the lowest free descriptor, which is
/// returned: every lower descriptor is open, the chosen one was not (or
/// lies just past the end), and no other descriptor changes. The new open
/// file is the inode, readable exactly when `O_WRONLY` is not set and
/// writable exactly when some flag is set.
pub proof fn lemma_open_at_lowest_free(
    old: Seq<Option<OpenFile>>,
    new: Seq<Option<OpenFile>>,
    flags: u32,
    ino: usize,
    r: isize,
)
    requires
        open_post(old, new, flags, Some(ino), r),
        old.len() < isize::MAX,
    ensures
        0 <= r < new.len(),
        r <= old.len(),
        new.len() == old.len() || new.len() == old.len() + 1,
        r < old.len() ==> old[r as int] is None,
        forall|k: int| 0 <= k < r ==> #[trigger] old[k] is Some,
        forall|k: int| 0 <= k < old.len() && k != r ==> #[trigger] new[k] == old[k],
        new[r as int] == Some(
            OpenFile { node: FileNode::Inode(ino), readable: flags & O_WRONLY == 0, writable: flags != 0 },
        ),
{
    lemma_first_free_lowest(old, 0);
    lemma_read_write_by_flags(flags);
}

/// Opens the inode `opened` (what looking the path up with `flags` found)
/// at the lowest free descriptor and returns it; -1 when nothing was found.
pub fn sys_open(fd_table: &mut Vec<Option<OpenFile>>, flags: u32, opened: Option<usize>) -> (r: isize)
    requires
        flags_valid(flags),
    ensures
        open_post(old(fd_table)@, final(fd_table)@, flags, opened, r),
{
    match opened {
        Some(ino) => {
            let (readable, writable) = read_write(flags);
            let fd = alloc_fd(fd_table);
            fd_table.set(fd, Some(OpenFile { node: FileNode::Inode(ino), readable, writable }));
            proof {
                let f = Some(opened_file(ino, flags));
                if fd < old(fd_table)@.len() {
                    assert(fd_table@ =~= old(fd_table)@.update(fd as int, f));
                } else {
                    assert(fd_table@ =~= old(fd_table)@.push(f));
                }
            }
            fd as isize
        },
        None => -1,
    }
}

/// Closes descriptor `fd`: 0, or -1 when it is not open.
pub fn sys_close(fd_table: &mut Vec<Option<OpenFile>>, fd: usize) -> (r: isize)
    ensures
        file_at(old(fd_table)@, fd) is None ==> r == -1 && final(fd_table)@ == old(fd_table)@,
        file_at(old(fd_table)@, fd) is Some ==> r == 0 && final(fd_table)@ == old(fd_table)@.update(
            fd as int,
            None,
        ),
{
    if fd >= fd_table.len() {
        return -1;
    }
    if fd_table[fd].is_none() {
        return -1;
    }
    fd_table.set(fd, None);
    0
}

/// Every file-system file of the table has an inode in the directory.
pub open spec fn files_in_dir(fd_table: Seq<Option<OpenFile>>, dir: RootDir) -> bool {
    forall|i: int|
        0 <= i < fd_table.len() ==> (#[trigger] fd_table[i] matches Some(f) ==> (f.node matches FileNode::Inode(
            ino,
        ) ==> ino < dir.link_counts@.len()))
}

/// What `fstat` reports for descriptor `fd`: the inode's status for a
/// file of the file system; `None` (the call returns -1) when `fd` is not
/// open or is the console.
pub fn sys_fstat(fd_table: &Vec<Option<OpenFile>>, dir: &RootDir, fd: usize) -> (r: Option<Stat>)
    requires
        files_in_dir(fd_table@, *dir),
    ensures
        r == (match file_at(fd_table@, fd) {
            Some(f) => match f.node {
                FileNode::Inode(ino) => Some(
                    Stat { dev: 0, ino: ino as u64, mode: crate::fs::S_IFREG, nlink: dir.link_counts@[ino as int] },
                ),
                _ => None,
            },
            None => None,
        }),
{
    if fd >= fd_table.len() {
        return None;
    }
    match fd_table[fd] {
        Some(file) => match file.node {
            FileNode::Inode(ino) => {
                proof {
                    assert(fd_table@[fd as int] matches Some(f));
                }
                Some(dir.stat_of(ino))
            },
            _ => None,
        },
        None => None,
    }
}

/// Links `new_name` to the file named `old_name`; -1 when the names are the
/// same or `old_name` names nothing.
pub fn sys_linkat(dir: &mut RootDir, old_name: &String, new_name: &String) -> (r: isize)
    requires
        old(dir).wf(),
        old(dir).link_fits(old_name@),
    ensures
        final(dir).wf(),
        old_name@ == new_name@ ==> r == -1 && *final(dir) == *old(dir),
        old_name@ != new_name@ ==> RootDir::link_post(*old(dir), *final(dir), old_name@, new_name@, r),
{
    if *old_name == *new_name {
        return -1;
    }
    dir.link_at(old_name, new_name)
}

/// Removes the name `name` from the directory; -1 when nothing has it.
pub fn sys_unlinkat(dir: &mut RootDir, name: &String) -> (r: isize)
    requires
        old(dir).wf(),
        old(dir).lookup(name@) matches Some(i) ==> old(dir).link_counts@[old(dir).inodes()[i] as int] > 0,
    ensures
        final(dir).wf(),
        RootDir::unlink_post(*old(dir), *final(dir), name@, r),
{
    dir.unlink_at(name)
}

} // verus!
