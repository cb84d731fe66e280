use vstd::prelude::*;

verus! {

/// Directory mode bits: directory type | `0o755`.
pub const MODE_DIR: u32 = 0o040000 | 0o755;

/// Regular-file mode bits: regular type | `0o444`.
pub const MODE_REG: u32 = 0o100000 | 0o444;

/// The largest number of inode slots the table accepts; keeps inode
/// numbers and snapshot offsets clear of `u64` overflow.
pub const MAX_TABLE_LEN: u64 = 0xffff_ffff_ffff_fff0;

/// File attributes as reported to the kernel: inode number, size (regular
/// files only), mode bits, link count, and modification time in seconds
/// since the epoch.
#[derive(Clone, Copy, Debug, PartialEq, Eq, Structural)]
pub struct Attr {
    pub ino: u64,
    pub size: u64,
    pub mode: u32,
    pub nlink: u64,
    pub mtime_secs: i64,
}

/// One extended attribute. The slot is reserved but never written.
pub struct XAttr {
    pub name: Vec<u8>,
    pub value: Vec<u8>,
}

/// One name-to-inode binding inside a directory.
pub struct ChildEntry {
    pub name: String,
    pub ino: u64,
}

/// The mathematical content of a `ChildEntry`.
#[verifier::ext_equal]
pub struct ChildV {
    pub name: Seq<char>,
    pub ino: u64,
}

impl View for ChildEntry {
    type V = ChildV;

    open spec fn view(&self) -> ChildV {
        ChildV { name: self.name@, ino: self.ino }
    }
}

/// A directory's payload: its children in insertion order, its parent
/// (none for the root), and whether the remote has been listed into it.
pub struct Dir {
    pub children: Vec<ChildEntry>,
    pub parent: Option<u64>,
    pub populated: bool,
}

/// The mathematical content of a `Dir`.
#[verifier::ext_equal]
pub struct DirV {
    pub children: Seq<ChildV>,
    pub parent: Option<u64>,
    pub populated: bool,
}

impl View for Dir {
    type V = DirV;

    open spec fn view(&self) -> DirV {
        DirV {
            children: self.children@.map_values(|c: ChildEntry| c@),
            parent: self.parent,
            populated: self.populated,
        }
    }
}

/// An inode's kind-specific payload: a regular file (whose buffer is never
/// filled; contents are always fetched on demand) or a directory.
pub enum InodeKind {
    RegularFile(Vec<u8>),
    Directory(Dir),
}

/// The mathematical content of an `InodeKind`.
#[verifier::ext_equal]
pub enum KindV {
    File,
    Dir(DirV),
}

impl View for InodeKind {
    type V = KindV;

    open spec fn view(&self) -> KindV {
        match self {
            InodeKind::RegularFile(_) => KindV::File,
            InodeKind::Directory(d) => KindV::Dir(d@),
        }
    }
}

/// One filesystem object: attributes, reserved extended-attribute slot,
/// kernel-facing lookup count, hard-link count, and kind.
pub struct Inode {
    pub attr: Attr,
    pub xattrs: Vec<XAttr>,
    pub refcount: u64,
    pub links: u64,
    pub kind: InodeKind,
}

/// The mathematical content of an `Inode`.
#[verifier::ext_equal]
pub struct InodeV {
    pub attr: Attr,
    pub refcount: u64,
    pub links: u64,
    pub kind: KindV,
}

impl View for Inode {
    type V = InodeV;

    open spec fn view(&self) -> InodeV {
        InodeV { attr: self.attr, refcount: self.refcount, links: self.links, kind: self.kind@ }
    }
}

/// The inode table: slot `i` holds inode number `i + 1`. Numbers are
/// issued in strictly increasing order and never reused.
pub struct INodeTable {
    pub entries: Vec<Option<Inode>>,
}

impl View for INodeTable {
    type V = Seq<Option<InodeV>>;

    open spec fn view(&self) -> Seq<Option<InodeV>> {
        self.entries@.map_values(
            |e: Option<Inode>|
                match e {
                    Some(n) => Some(n@),
                    None => None,
                },
        )
    }
}

/// Whether inode number `ino` is present in the table.
pub open spec fn has_ino(t: Seq<Option<InodeV>>, ino: u64) -> bool {
    &&& 1 <= ino <= t.len()
    &&& t[ino - 1] is Some
}

/// The inode stored under number `ino`.
pub open spec fn inode_at(t: Seq<Option<InodeV>>, ino: u64) -> InodeV {
    match t[ino - 1] {
        Some(n) => n,
        None => arbitrary(),
    }
}

/// Whether `ino` is present and a directory.
pub open spec fn is_dir(t: Seq<Option<InodeV>>, ino: u64) -> bool {
    &&& has_ino(t, ino)
    &&& inode_at(t, ino).kind is Dir
}

/// The directory payload of inode `ino`.
pub open spec fn dir_of(t: Seq<Option<InodeV>>, ino: u64) -> DirV {
    match inode_at(t, ino).kind {
        KindV::Dir(d) => d,
        KindV::File => arbitrary(),
    }
}

/// The inode bound to `name`, scanning the children front to back.
pub open spec fn child_ino(cs: Seq<ChildV>, name: Seq<char>) -> Option<u64>
    decreases cs.len(),
{
    if cs.len() == 0 {
        None
    } else if cs[0].name == name {
        Some(cs[0].ino)
    } else {
        child_ino(cs.drop_first(), name)
    }
}

/// The first name bound to inode `ino`, scanning front to back.
pub open spec fn first_name(cs: Seq<ChildV>, ino: u64) -> Option<Seq<char>>
    decreases cs.len(),
{
    if cs.len() == 0 {
        None
    } else if cs[0].ino == ino {
        Some(cs[0].name)
    } else {
        first_name(cs.drop_first(), ino)
    }
}

/// Well-formedness of one child binding of the directory at slot `i`:
/// the child exists, was created after its parent, and, when a directory,
/// points back at this parent.
pub open spec fn child_ok(t: Seq<Option<InodeV>>, i: int, c: ChildV) -> bool {
    &&& i + 1 < c.ino <= t.len()
    &&& t[c.ino - 1] is Some
    &&& (match inode_at(t, c.ino).kind {
        KindV::Dir(d) => d.parent == Some((i + 1) as u64),
        KindV::File => true,
    })
}

/// Well-formedness of the directory payload at slot `i`.
pub open spec fn dir_ok(t: Seq<Option<InodeV>>, i: int, d: DirV) -> bool {
    &&& d.children.len() < t.len()
    &&& (i == 0 ==> d.parent is None)
    &&& (i != 0 ==> d.parent is Some)
    &&& (match d.parent {
        Some(p) => {
            &&& 1 <= p < i + 1
            &&& t[p - 1] is Some
            &&& inode_at(t, p).kind is Dir
            &&& exists|j: int|
                0 <= j < dir_of(t, p).children.len() && dir_of(t, p).children[j].ino == i + 1
        },
        None => true,
    })
    &&& (forall|j: int| 0 <= j < d.children.len() ==> child_ok(t, i, #[trigger] d.children[j]))
    &&& (forall|j: int, k: int|
        0 <= j < k < d.children.len() ==> #[trigger] d.children[j].name != #[trigger] d.children[k].name
            && d.children[j].ino != d.children[k].ino)
}

/// Well-formedness of the slot at index `i`.
pub open spec fn inode_ok(t: Seq<Option<InodeV>>, i: int) -> bool {
    match t[i] {
        Some(n) => {
            &&& n.attr.ino == i + 1
            &&& (match n.kind {
                KindV::Dir(d) => dir_ok(t, i, d),
                KindV::File => true,
            })
        },
        None => true,
    }
}

/// Well-formedness of the whole table: the root is present and is a
/// directory, and every slot is well-formed.
pub open spec fn table_wf(t: Seq<Option<InodeV>>) -> bool {
    &&& 1 <= t.len() <= MAX_TABLE_LEN
    &&& t[0] is Some
    &&& inode_at(t, 1).kind is Dir
    &&& (forall|i: int| 0 <= i < t.len() ==> #[trigger] inode_ok(t, i))
}

impl INodeTable {
    /// An empty table; the next number to be issued is `1`.
    pub fn new() -> (s: Self)
        ensures
            s@ == Seq::<Option<InodeV>>::empty(),
    {
        let s = INodeTable { entries: Vec::new() };
        proof {
            assert(s@ =~= Seq::<Option<InodeV>>::empty());
        }
        s
    }

    /// The number the next insertion will use. Issued numbers only grow,
    /// so a number below `self@.len() + 1` is never handed out again.
    pub fn vacant_ino(&self) -> (ino: u64)
        requires
            self@.len() < MAX_TABLE_LEN,
        ensures
            ino == self@.len() + 1,
    {
        (self.entries.len() as u64) + 1
    }

    /// Commit an inode into the vacant slot, consuming its number.
    pub fn insert(&mut self, inode: Inode) -> (ino: u64)
        requires
            old(self)@.len() < MAX_TABLE_LEN,
        ensures
            ino == old(self)@.len() + 1,
            final(self)@ == old(self)@.push(Some(inode@)),
    {
        let ino: u64 = (self.entries.len() as u64) + 1;
        self.entries.push(Some(inode));
        proof {
            assert(final(self)@ =~= old(self)@.push(Some(inode@)));
        }
        ino
    }

    /// Shared access to the inode with number `ino`, when present.
    pub fn get(&self, ino: u64) -> (r: Option<&Inode>)
        ensures
            (match r {
                Some(n) => has_ino(self@, ino) && n@ == inode_at(self@, ino),
                None => !has_ino(self@, ino),
            }),
    {
        if ino >= 1 && (ino - 1) < self.entries.len() as u64 {
            let idx: usize = (ino - 1) as usize;
            match &self.entries[idx] {
                Some(n) => Some(n),
                None => None,
            }
        } else {
            None
        }
    }

    /// Increment the kernel-facing lookup count of `ino`, saturating at
    /// the maximum.
    pub fn bump_refcount(&mut self, ino: u64)
        requires
            has_ino(old(self)@, ino),
        ensures
            final(self)@ == old(self)@.update(
                ino - 1,
                Some(
                    InodeV {
                        refcount: bump(inode_at(old(self)@, ino).refcount),
                        ..inode_at(old(self)@, ino)
                    },
                ),
            ),
    {
        proof {
            assert(old(self)@[ino - 1] is Some);
        }
        let len: usize = self.entries.len();
        proof {
            assert(ino - 1 < len);
        }
        let idx: usize = (ino - 1) as usize;
        let slot = self.entries.remove(idx);
        let renewed = match slot {
            Some(mut n) => {
                if n.refcount < u64::MAX {
                    n.refcount = n.refcount + 1;
                }
                Some(n)
            },
            None => None,
        };
        self.entries.insert(idx, renewed);
        proof {
            assert(final(self)@ =~= old(self)@.update(
                ino - 1,
                Some(
                    InodeV {
                        refcount: bump(inode_at(old(self)@, ino).refcount),
                        ..inode_at(old(self)@, ino)
                    },
                ),
            ));
        }
    }

    /// Append a child binding to the directory `parent`.
    pub fn push_child(&mut self, parent: u64, name: String, child: u64)
        requires
            is_dir(old(self)@, parent),
        ensures
            final(self)@ == old(self)@.update(
                parent - 1,
                Some(with_child(inode_at(old(self)@, parent), name@, child)),
            ),
    {
        proof {
            assert(old(self)@[parent - 1] is Some);
        }
        let len: usize = self.entries.len();
        proof {
            assert(parent - 1 < len);
        }
        let idx: usize = (parent - 1) as usize;
        let slot = self.entries.remove(idx);
        let renewed = match slot {
            Some(mut n) => {
                match &mut n.kind {
                    InodeKind::Directory(d) => {
                        d.children.push(ChildEntry { name, ino: child });
                    },
                    InodeKind::RegularFile(_) => {},
                }
                Some(n)
            },
            None => None,
        };
        self.entries.insert(idx, renewed);
        proof {
            assert(final(self)@ =~~= old(self)@.update(
                parent - 1,
                Some(with_child(inode_at(old(self)@, parent), name@, child)),
            ));
        }
    }

    /// Mark the directory `ino` as populated.
    pub fn set_populated(&mut self, ino: u64)
        requires
            is_dir(old(self)@, ino),
        ensures
            final(self)@ == old(self)@.update(
                ino - 1,
                Some(with_populated(inode_at(old(self)@, ino))),
            ),
    {
        proof {
            assert(old(self)@[ino - 1] is Some);
        }
        let len: usize = self.entries.len();
        proof {
            assert(ino - 1 < len);
        }
        let idx: usize = (ino - 1) as usize;
        let slot = self.entries.remove(idx);
        let renewed = match slot {
            Some(mut n) => {
                match &mut n.kind {
                    InodeKind::Directory(d) => {
                        d.populated = true;
                    },
                    InodeKind::RegularFile(_) => {},
                }
                Some(n)
            },
            None => None,
        };
        self.entries.insert(idx, renewed);
        proof {
            assert(final(self)@ =~~= old(self)@.update(
                ino - 1,
                Some(with_populated(inode_at(old(self)@, ino))),
            ));
        }
    }
}

/// A lookup count incremented by one, saturating at the maximum.
pub open spec fn bump(r: u64) -> u64 {
    if r < u64::MAX {
        (r + 1) as u64
    } else {
        r
    }
}

/// The table after the local lookup step: when `name` is bound under the
/// directory `parent`, the child's lookup count is incremented; otherwise
/// the table is unchanged.
pub open spec fn lookup_bump(t: Seq<Option<InodeV>>, parent: u64, name: Seq<char>) -> Seq<
    Option<InodeV>,
> {
    if is_dir(t, parent) {
        match child_ino(dir_of(t, parent).children, name) {
            Some(c) => t.update(
                c - 1,
                Some(InodeV { refcount: bump(inode_at(t, c).refcount), ..inode_at(t, c) }),
            ),
            None => t,
        }
    } else {
        t
    }
}

/// The inode `n`, a directory, with one more child binding appended.
pub open spec fn with_child(n: InodeV, name: Seq<char>, child: u64) -> InodeV {
    match n.kind {
        KindV::Dir(d) => InodeV {
            kind: KindV::Dir(DirV { children: d.children.push(ChildV { name, ino: child }), ..d }),
            ..n
        },
        KindV::File => n,
    }
}

/// The inode `n`, a directory, marked populated.
pub open spec fn with_populated(n: InodeV) -> InodeV {
    match n.kind {
        KindV::Dir(d) => InodeV { kind: KindV::Dir(DirV { populated: true, ..d }), ..n },
        KindV::File => n,
    }
}

} // verus!
