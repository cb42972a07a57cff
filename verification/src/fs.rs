//! Files: open flags, the open-file records of a task's descriptor table,
//! and the root directory with its hard links.
use vstd::prelude::*;

verus! {

/// Open for reading only.
pub const O_RDONLY: u32 = 0;
/// Open for writing only.
pub const O_WRONLY: u32 = 1;
/// Open for reading and writing.
pub const O_RDWR: u32 = 2;
/// Create the file if it is missing.
pub const O_CREATE: u32 = 0x200;
/// Truncate the file to length 0.
pub const O_TRUNC: u32 = 0x400;

/// Mode of a regular file in a `Stat`.
pub const S_IFREG: u32 = 0o100000;

/// `flags` holds only known open flags.
pub open spec fn flags_valid(flags: u32) -> bool {
    flags & !(O_WRONLY | O_RDWR | O_CREATE | O_TRUNC) == 0
}

/// Whether `flags` holds only known open flags.
pub fn open_flags_valid(flags: u32) -> (r: bool)
    ensures
        r == flags_valid(flags),
{
    flags & !(O_WRONLY | O_RDWR | O_CREATE | O_TRUNC) == 0
}

/// Whether a file opened with `flags` can be read and written: no flag at
/// all opens for reading only, `O_WRONLY` for writing only, anything else
/// for both.
pub open spec fn read_write_spec(flags: u32) -> (bool, bool) {
    if flags == 0 {
        (true, false)
    } else if flags & O_WRONLY != 0 {
        (false, true)
    } else {
        (true, true)
    }
}

/// A file opened with `flags` can be read exactly when `O_WRONLY` is not
/// set, and written exactly when some flag is set.
pub proof fn lemma_read_write_by_flags(flags: u32)
    ensures
        read_write_spec(flags).0 == (flags & O_WRONLY == 0),
        read_write_spec(flags).1 == (flags != 0),
{
    assert(flags == 0 ==> flags & 1u32 == 0) by (bit_vector);
}

/// Whether a file opened with `flags` can be read and written.
pub fn read_write(flags: u32) -> (r: (bool, bool))
    ensures
        r == read_write_spec(flags),
        r.0 == (flags & O_WRONLY == 0),
        r.1 == (flags != 0),
{
    proof {
        lemma_read_write_by_flags(flags);
    }
    if flags == 0 {
        (true, false)
    } else if flags & O_WRONLY != 0 {
        (false, true)
    } else {
        (true, true)
    }
}

/// What an open file is.
#[derive(PartialEq, Eq, Structural, Clone, Copy, Debug)]
pub enum FileNode {
    /// The console input.
    Stdin,
    /// The console output.
    Stdout,
    /// A file of the file system, by inode number.
    Inode(usize),
}

/// An entry of a descriptor table.
#[derive(PartialEq, Eq, Structural, Clone, Copy, Debug)]
pub struct OpenFile {
    pub node: FileNode,
    pub readable: bool,
    pub writable: bool,
}

/// What `fstat` reports of a file.
#[derive(PartialEq, Eq, Structural, Clone, Copy, Debug)]
pub struct Stat {
    pub dev: u64,
    pub ino: u64,
    pub mode: u32,
    pub nlink: u32,
}

/// An entry of the root directory: a name and the inode it links to.
pub struct DirEntry {
    pub name: String,
    pub inode: usize,
}

/// The root directory, the only directory: its entries, in order, and for
/// each inode its number of links, the size of its data, and whether it is
/// allocated.
pub struct RootDir {
    pub entries: Vec<DirEntry>,
    pub link_counts: Vec<u32>,
    pub sizes: Vec<u64>,
    pub allocated: Vec<bool>,
}

/// The names of the entries.
pub open spec fn entry_names(es: Seq<DirEntry>) -> Seq<Seq<char>> {
    es.map_values(|e: DirEntry| e.name@)
}

/// The inodes of the entries.
pub open spec fn entry_inodes(es: Seq<DirEntry>) -> Seq<usize> {
    es.map_values(|e: DirEntry| e.inode)
}

/// Index of the first entry, from `i` on, named `name`.
pub open spec fn entry_from(names: Seq<Seq<char>>, name: Seq<char>, i: int) -> Option<int>
    decreases names.len() - i,
{
    if i < 0 || i >= names.len() {
        None
    } else if names[i] == name {
        Some(i)
    } else {
        entry_from(names, name, i + 1)
    }
}

/// An entry found from `i` lies in the list and has the name.
pub proof fn lemma_entry_from_in_range(names: Seq<Seq<char>>, name: Seq<char>, i: int)
    ensures
        entry_from(names, name, i) matches Some(k) ==> i <= k < names.len() && names[k] == name,
    decreases names.len() - i,
{
    if 0 <= i < names.len() && names[i] != name {
        lemma_entry_from_in_range(names, name, i + 1);
    }
}

impl RootDir {
    /// Names of the entries, in order.
    pub open spec fn names(&self) -> Seq<Seq<char>> {
        entry_names(self.entries@)
    }

    /// Inodes of the entries, in order.
    pub open spec fn inodes(&self) -> Seq<usize> {
        entry_inodes(self.entries@)
    }

    /// Index of the first entry named `name`.
    pub open spec fn lookup(&self, name: Seq<char>) -> Option<int> {
        entry_from(self.names(), name, 0)
    }

    /// Every entry links to an inode that has a link count, and every inode
    /// has a size and an allocation bit.
    pub open spec fn wf(&self) -> bool {
        &&& forall|i: int|
            0 <= i < self.entries@.len() ==> #[trigger] self.entries@[i].inode < self.link_counts@.len()
        &&& self.sizes@.len() == self.link_counts@.len()
        &&& self.allocated@.len() == self.link_counts@.len()
    }

    /// Index of the first entry named `name`, if any.
    pub fn find(&self, name: &String) -> (r: Option<usize>)
        ensures
            r matches Some(i) ==> self.lookup(name@) == Some(i as int) && i < self.entries@.len(),
            r is None ==> self.lookup(name@) is None,
    {
        let mut i: usize = 0;
        while i < self.entries.len()
            invariant
                i <= self.entries@.len(),
                entry_from(self.names(), name@, 0) == entry_from(self.names(), name@, i as int),
            decreases self.entries@.len() - i,
        {
            if self.entries[i].name == *name {
                return Some(i);
            }
            i += 1;
        }
        None
    }

    /// What linking `new_name` to the inode of `old_name` does: an entry
    /// for it is appended and the inode's link count grows by one; -1, with
    /// nothing changed, when no entry is named `old_name`.
    pub open spec fn link_post(old: Self, new: Self, old_name: Seq<char>, new_name: Seq<char>, r: isize) -> bool {
        match old.lookup(old_name) {
            None => r == -1 && new.names() == old.names() && new.inodes() == old.inodes()
                && new.link_counts@ == old.link_counts@ && new.sizes@ == old.sizes@
                && new.allocated@ == old.allocated@,
            Some(i) => {
                let ino = old.inodes()[i];
                &&& r == 0
                &&& new.sizes@ == old.sizes@
                &&& new.allocated@ == old.allocated@
                &&& new.names() == old.names().push(new_name)
                &&& new.inodes() == old.inodes().push(ino)
                &&& new.link_counts@ == old.link_counts@.update(
                    ino as int,
                    (old.link_counts@[ino as int] + 1) as u32,
                )
            },
        }
    }

    /// What unlinking `name` does: the first entry with that name is
    /// removed and its inode's link count drops by one; when that was the
    /// last link, the inode's data is cleared and the inode freed. -1, with
    /// nothing changed, when no entry has the name.
    pub open spec fn unlink_post(old: Self, new: Self, name: Seq<char>, r: isize) -> bool {
        match old.lookup(name) {
            None => r == -1 && new.names() == old.names() && new.inodes() == old.inodes()
                && new.link_counts@ == old.link_counts@ && new.sizes@ == old.sizes@
                && new.allocated@ == old.allocated@,
            Some(i) => {
                let ino = old.inodes()[i];
                let last = old.link_counts@[ino as int] == 1;
                &&& r == 0
                &&& new.sizes@ == if last {
                    old.sizes@.update(ino as int, 0)
                } else {
                    old.sizes@
                }
                &&& new.allocated@ == if last {
                    old.allocated@.update(ino as int, false)
                } else {
                    old.allocated@
                }
                &&& new.names() == old.names().remove(i)
                &&& new.inodes() == old.inodes().remove(i)
                &&& new.link_counts@ == old.link_counts@.update(
                    ino as int,
                    (old.link_counts@[ino as int] - 1) as u32,
                )
            },
        }
    }

    /// The link count of the inode can grow by one.
    pub open spec fn link_fits(&self, old_name: Seq<char>) -> bool {
        self.lookup(old_name) matches Some(i) ==> self.link_counts@[self.inodes()[i] as int] < u32::MAX
    }

    /// Adds an entry `new_name` for the inode that `old_name` names and
    /// counts the new link; -1 when no entry is named `old_name`.
    pub fn link_at(&mut self, old_name: &String, new_name: &String) -> (r: isize)
        requires
            old(self).wf(),
            old(self).link_fits(old_name@),
        ensures
            final(self).wf(),
            Self::link_post(*old(self), *final(self), old_name@, new_name@, r),
    {
        let i = match self.find(old_name) {
            Some(i) => i,
            None => {
                return -1;
            },
        };
        let ino = self.entries[i].inode;
        let count = self.link_counts[ino];
        self.link_counts.set(ino, count + 1);
        self.entries.push(DirEntry { name: new_name.clone(), inode: ino });
        proof {
            assert(self.names() =~= old(self).names().push(new_name@));
            assert(self.inodes() =~= old(self).inodes().push(ino));
        }
        0
    }

    /// Removes the first entry named `name` and takes its link away from
    /// the inode's count, clearing and freeing the inode when that was its
    /// last link; -1 when no entry has the name.
    pub fn unlink_at(&mut self, name: &String) -> (r: isize)
        requires
            old(self).wf(),
            old(self).lookup(name@) matches Some(i) ==> old(self).link_counts@[old(self).inodes()[i] as int] > 0,
        ensures
            final(self).wf(),
            Self::unlink_post(*old(self), *final(self), name@, r),
    {
        let i = match self.find(name) {
            Some(i) => i,
            None => {
                return -1;
            },
        };
        let ghost old_entries = self.entries@;
        let e = self.entries.remove(i);
        let count = self.link_counts[e.inode];
        self.link_counts.set(e.inode, count - 1);
        if count - 1 == 0 {
            self.sizes.set(e.inode, 0);
            self.allocated.set(e.inode, false);
        }
        proof {
            assert(self.names() =~= old(self).names().remove(i as int));
            assert(self.inodes() =~= old(self).inodes().remove(i as int));
            assert forall|k: int| 0 <= k < self.entries@.len() implies #[trigger] self.entries@[k].inode
                < self.link_counts@.len() by {
                if k < i {
                    assert(self.entries@[k] == old_entries[k]);
                } else {
                    assert(self.entries@[k] == old_entries[k + 1]);
                }
            }
        }
        0
    }

    /// What `fstat` reports of inode `ino`: device 0, a regular file, and
    /// its link count.
    pub fn stat_of(&self, ino: usize) -> (r: Stat)
        requires
            ino < self.link_counts@.len(),
        ensures
            r == (Stat { dev: 0, ino: ino as u64, mode: S_IFREG, nlink: self.link_counts@[ino as int] }),
    {
        Stat { dev: 0, ino: ino as u64, mode: S_IFREG, nlink: self.link_counts[ino] }
    }
}

/// Linking a new name to an existing file and then unlinking that name
/// gives back the directory's entries, link counts, sizes and allocation as
/// they were, when the new name was not in use: the file keeps its data and
/// its link count.
pub proof fn lemma_link_then_unlink_restores(
    d0: RootDir,
    d1: RootDir,
    d2: RootDir,
    old_name: Seq<char>,
    new_name: Seq<char>,
    r1: isize,
    r2: isize,
)
    requires
        d0.wf(),
        d0.link_fits(old_name),
        d0.lookup(old_name) matches Some(i) && d0.link_counts@[d0.inodes()[i] as int] > 0,
        d0.lookup(new_name) is None,
        RootDir::link_post(d0, d1, old_name, new_name, r1),
        RootDir::unlink_post(d1, d2, new_name, r2),
    ensures
        r1 == 0,
        r2 == 0,
        d2.names() == d0.names(),
        d2.inodes() == d0.inodes(),
        d2.link_counts@ == d0.link_counts@,
        d2.sizes@ == d0.sizes@,
        d2.allocated@ == d0.allocated@,
{
    let n = d0.names().len();
    assert(d1.lookup(new_name) == Some(n as int)) by {
        assert forall|k: int| 0 <= k <= n implies entry_from(d1.names(), new_name, k) == Some(
            n as int,
        ) by {
            lemma_entry_from_after_absent(d0.names(), new_name, k);
            lemma_entry_from_push_absent(d0.names(), new_name, k);
        }
    }
    let i = d0.lookup(old_name)->0;
    lemma_entry_from_in_range(d0.names(), old_name, 0);
    let ino = d0.inodes()[i];
    assert(d1.inodes()[n as int] == ino);
    assert(d0.entries@[i].inode < d0.link_counts@.len());
    assert(ino < d0.link_counts@.len());
    assert(d2.names() =~= d0.names());
    assert(d2.inodes() =~= d0.inodes());
    assert(d2.link_counts@ =~= d0.link_counts@);
    assert(d2.sizes@ =~= d0.sizes@);
    assert(d2.allocated@ =~= d0.allocated@);
}

/// A name that the whole list lacks is lacked from every index on.
pub proof fn lemma_entry_from_after_absent(names: Seq<Seq<char>>, name: Seq<char>, k: int)
    requires
        entry_from(names, name, 0) is None,
        0 <= k,
    ensures
        entry_from(names, name, k) is None,
        forall|j: int| k <= j < names.len() ==> names[j] != name,
    decreases k,
{
    if k == 0 {
        lemma_entry_from_absent_all(names, name, 0);
    } else {
        lemma_entry_from_after_absent(names, name, k - 1);
        if k < names.len() {
            lemma_entry_from_absent_all(names, name, 0);
        }
    }
}

/// When no entry from `i` on has the name, none is found.
pub proof fn lemma_entry_from_absent_all(names: Seq<Seq<char>>, name: Seq<char>, i: int)
    requires
        0 <= i,
        entry_from(names, name, i) is None,
    ensures
        forall|j: int| i <= j < names.len() ==> names[j] != name,
    decreases names.len() - i,
{
    if i < names.len() {
        lemma_entry_from_absent_all(names, name, i + 1);
    }
}

/// Appending a name that was nowhere finds it at the end.
pub proof fn lemma_entry_from_push_absent(names: Seq<Seq<char>>, name: Seq<char>, k: int)
    requires
        0 <= k <= names.len(),
        forall|j: int| k <= j < names.len() ==> names[j] != name,
    ensures
        entry_from(names.push(name), name, k) == Some(names.len() as int),
    decreases names.len() - k,
{
    if k < names.len() {
        lemma_entry_from_push_absent(names, name, k + 1);
    }
}

} // verus!
