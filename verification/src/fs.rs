use vstd::prelude::*;

use crate::config::Config;
use crate::errno::Errno;
use crate::handles::{
    dir_handles_of, readdir_spec, slab_get, slab_insert, slab_new, slab_try_remove, snap_views,
    snapshot_spec, take_entries, wire_size, wire_size_of, DirHandle, SnapEntry,
};
use crate::remote::{
    auth_header, auth_header_spec, mtime_or_zero, view_opt, RemoteEntry, RemoteEntryV,
    TransportError,
};
use crate::table::with_populated;
use crate::table::first_name;
use crate::text::{dec_of, join_path, path_join, u64_to_dec};
use crate::table::{
    child_ino, dir_of, has_ino, inode_at, is_dir, lookup_bump, table_wf, with_child, Attr,
    ChildEntry, ChildV, Dir, DirV, INodeTable, Inode, InodeKind, InodeV, KindV, MAX_TABLE_LEN,
    MODE_DIR, MODE_REG,
};

verus! {

/// The lookup count directories start with: large enough that forget
/// operations never retire them.
pub const DIR_REFS: u64 = 0x7fff_ffff_ffff_ffff;

/// The attribute and entry time-to-live on every reply that carries one:
/// 24 hours.
pub const TTL_SECS: u64 = 86400;

/// One record of the file-inode map: the parent directory, the regular
/// file's inode number, and its absolute remote path.
pub struct FileRec {
    pub parent: u64,
    pub ino: u64,
    pub path: String,
}

/// The mathematical content of a `FileRec`.
#[verifier::ext_equal]
pub struct FileRecV {
    pub parent: u64,
    pub ino: u64,
    pub path: Seq<char>,
}

impl View for FileRec {
    type V = FileRecV;

    open spec fn view(&self) -> FileRecV {
        FileRecV { parent: self.parent, ino: self.ino, path: self.path@ }
    }
}

/// The views of a file-inode map.
pub open spec fn file_views(s: Seq<FileRec>) -> Seq<FileRecV> {
    s.map_values(|f: FileRec| f@)
}

/// An entry reply to the kernel: the inode number, its attributes, and
/// the entry time-to-live.
#[derive(Clone, Copy, Debug, PartialEq, Eq, Structural)]
pub struct EntryReply {
    pub ino: u64,
    pub attr: Attr,
    pub ttl_secs: u64,
}

/// An attribute reply to the kernel.
#[derive(Clone, Copy, Debug, PartialEq, Eq, Structural)]
pub struct AttrReply {
    pub attr: Attr,
    pub ttl_secs: u64,
}

/// The mathematical content of the whole filesystem state.
#[verifier::ext_equal]
pub struct FsV {
    pub inodes: Seq<Option<InodeV>>,
    pub files: Seq<FileRecV>,
    pub handles: Map<int, DirHandle>,
    pub server: Seq<char>,
    pub auth: Option<Seq<char>>,
    pub ttl_secs: u64,
}

/// Whether slot `i` holds a regular-file inode.
pub open spec fn file_at(t: Seq<Option<InodeV>>, i: int) -> bool {
    &&& t[i] is Some
    &&& (match t[i] {
        Some(n) => n.kind is File,
        None => false,
    })
}

/// Well-formedness of the file-inode map against the table: every record
/// names a distinct regular-file inode, and every regular-file inode has
/// a record.
pub open spec fn files_wf(t: Seq<Option<InodeV>>, files: Seq<FileRecV>) -> bool {
    &&& (forall|j: int|
        0 <= j < files.len() ==> has_ino(t, (#[trigger] files[j]).ino) && inode_at(
            t,
            files[j].ino,
        ).kind is File)
    &&& (forall|j: int, k: int|
        0 <= j < k < files.len() ==> (#[trigger] files[j]).ino != (#[trigger] files[k]).ino)
    &&& (forall|i: int|
        0 <= i < t.len() && #[trigger] file_at(t, i) ==> exists|j: int|
            0 <= j < files.len() && (#[trigger] files[j]).ino == i + 1)
}

/// The in-memory filesystem: the inode table, the file-inode map, the
/// open directory-handle registry, and the remote-request configuration.
pub struct MemFS {
    pub inodes: INodeTable,
    pub f_ino_map: Vec<FileRec>,
    pub dir_handles: slab::Slab<DirHandle>,
    pub server: String,
    pub auth: Option<String>,
    pub ttl_secs: u64,
}

impl View for MemFS {
    type V = FsV;

    open spec fn view(&self) -> FsV {
        FsV {
            inodes: self.inodes@,
            files: file_views(self.f_ino_map@),
            handles: dir_handles_of(self.dir_handles),
            server: self.server@,
            auth: view_opt(&self.auth),
            ttl_secs: self.ttl_secs,
        }
    }
}

/// The root inode as created at startup.
pub open spec fn root_inode_v() -> InodeV {
    InodeV {
        attr: Attr { ino: 1, size: 0, mode: MODE_DIR, nlink: 2, mtime_secs: 0 },
        refcount: DIR_REFS,
        links: DIR_REFS,
        kind: KindV::Dir(DirV { children: Seq::empty(), parent: None, populated: false }),
    }
}

/// What `do_getattr` returns for a given table state.
pub open spec fn getattr_spec(t: Seq<Option<InodeV>>, ino: u64, ttl: u64) -> Result<
    AttrReply,
    Errno,
> {
    if has_ino(t, ino) {
        Ok(AttrReply { attr: inode_at(t, ino).attr, ttl_secs: ttl })
    } else {
        Err(Errno::NoEntry)
    }
}

/// What the local lookup step returns for a given table state.
pub open spec fn lookup_local_spec(
    t: Seq<Option<InodeV>>,
    parent: u64,
    name: Seq<char>,
    ttl: u64,
) -> Result<EntryReply, Errno> {
    if !has_ino(t, parent) {
        Err(Errno::NoEntry)
    } else if !(inode_at(t, parent).kind is Dir) {
        Err(Errno::NotADirectory)
    } else {
        match child_ino(dir_of(t, parent).children, name) {
            None => Err(Errno::NoEntry),
            Some(c) => Ok(EntryReply { ino: c, attr: inode_at(t, c).attr, ttl_secs: ttl }),
        }
    }
}

/// The error `do_opendir` replies for a given table state, or `None`
/// when the open succeeds: absent inodes and tombstones (link count
/// zero) are no-entry, non-directories are not-a-directory.
pub open spec fn opendir_check(t: Seq<Option<InodeV>>, ino: u64) -> Option<Errno> {
    if !has_ino(t, ino) {
        Some(Errno::NoEntry)
    } else if inode_at(t, ino).attr.nlink == 0 {
        Some(Errno::NoEntry)
    } else if !(inode_at(t, ino).kind is Dir) {
        Some(Errno::NotADirectory)
    } else {
        None
    }
}

/// The inode bound to `name` under `parent`, when `parent` is a present
/// directory.
pub open spec fn name_to_ino_spec(t: Seq<Option<InodeV>>, parent: u64, name: Seq<char>) -> Option<
    u64,
> {
    if is_dir(t, parent) {
        child_ino(dir_of(t, parent).children, name)
    } else {
        None
    }
}

impl MemFS {
    /// Well-formedness of the filesystem state; established by `new` and
    /// preserved by every operation.
    pub open spec fn wf(self) -> bool {
        &&& table_wf(self@.inodes)
        &&& files_wf(self@.inodes, self@.files)
        &&& (forall|k: int| self@.handles.contains_key(k) ==> 0 <= k <= usize::MAX)
    }

    /// Build the filesystem core: a table holding only the root
    /// directory, an empty file-inode map, no open handles, and the
    /// remote configuration taken from `cfg`.
    pub fn new(cfg: &Config) -> (fs: MemFS)
        requires
            (match (cfg.username, cfg.password) {
                (Some(u), Some(p)) => u@.len() + p@.len() + 1 < 0x1000_0000,
                _ => true,
            }),
        ensures
            fs.wf(),
            fs@.inodes =~= seq![Some(root_inode_v())],
            fs@.files =~= Seq::<FileRecV>::empty(),
            fs@.handles.dom() =~= Set::<int>::empty(),
            fs@.server == cfg.server@,
            fs@.auth == auth_header_spec(view_opt(&cfg.username), view_opt(&cfg.password)),
            fs@.ttl_secs == TTL_SECS,
    {
        let mut inodes = INodeTable::new();
        let root = Inode {
            attr: Attr { ino: 1, size: 0, mode: MODE_DIR, nlink: 2, mtime_secs: 0 },
            xattrs: Vec::new(),
            refcount: DIR_REFS,
            links: DIR_REFS,
            kind: InodeKind::Directory(
                Dir { children: Vec::new(), parent: None, populated: false },
            ),
        };
        let ino = inodes.insert(root);
        let fs = MemFS {
            inodes,
            f_ino_map: Vec::new(),
            dir_handles: slab_new(),
            server: cfg.server.clone(),
            auth: auth_header(&cfg.username, &cfg.password),
            ttl_secs: TTL_SECS,
        };
        proof {
            assert(fs@.inodes =~~= seq![Some(root_inode_v())]);
            assert(fs@.files =~= Seq::<FileRecV>::empty());
            assert(fs@.handles.dom() =~= Set::<int>::empty());
            assert(forall|i: int|
                0 <= i < fs@.inodes.len() ==> #[trigger] crate::table::inode_ok(fs@.inodes, i));
        }
        fs
    }

    /// Return the attributes of `ino` with the attribute TTL, or
    /// no-entry when the inode is absent.
    pub fn do_getattr(&self, ino: u64) -> (r: Result<AttrReply, Errno>)
        ensures
            r == getattr_spec(self@.inodes, ino, self@.ttl_secs),
    {
        match self.inodes.get(ino) {
            None => Err(Errno::NoEntry),
            Some(n) => Ok(AttrReply { attr: n.attr, ttl_secs: self.ttl_secs }),
        }
    }

    /// The inode bound to `name` under `parent`, when `parent` is a
    /// present directory; no population is attempted.
    pub fn name_to_inode(&self, parent: u64, name: &String) -> (r: Option<u64>)
        ensures
            r == name_to_ino_spec(self@.inodes, parent, name@),
    {
        match self.inodes.get(parent) {
            None => None,
            Some(n) => match &n.kind {
                InodeKind::Directory(d) => find_child(&d.children, name),
                InodeKind::RegularFile(_) => None,
            },
        }
    }

    /// The local lookup step: find `name` under `parent`, count the
    /// kernel's new reference, and reply with the child's attributes.
    pub fn lookup_inode(&mut self, parent: u64, name: &String) -> (r: Result<EntryReply, Errno>)
        requires
            old(self).wf(),
        ensures
            final(self).wf(),
            r == lookup_local_spec(old(self)@.inodes, parent, name@, old(self)@.ttl_secs),
            final(self)@ == (FsV {
                inodes: lookup_bump(old(self)@.inodes, parent, name@),
                ..old(self)@
            }),
    {
        let child: u64 = match self.inodes.get(parent) {
            None => {
                proof {
                    assert(final(self)@ =~~= (FsV {
                        inodes: lookup_bump(old(self)@.inodes, parent, name@),
                        ..old(self)@
                    }));
                }
                return Err(Errno::NoEntry);
            },
            Some(n) => match &n.kind {
                InodeKind::Directory(d) => match find_child(&d.children, name) {
                    Some(c) => c,
                    None => {
                        proof {
                            assert(final(self)@ =~~= (FsV {
                                inodes: lookup_bump(old(self)@.inodes, parent, name@),
                                ..old(self)@
                            }));
                        }
                        return Err(Errno::NoEntry);
                    },
                },
                InodeKind::RegularFile(_) => {
                    proof {
                        assert(final(self)@ =~~= (FsV {
                            inodes: lookup_bump(old(self)@.inodes, parent, name@),
                            ..old(self)@
                        }));
                    }
                    return Err(Errno::NotADirectory);
                },
            },
        };
        proof {
            lemma_child_in_table(old(self)@.inodes, parent, name@);
        }
        let attr: Attr = match self.inodes.get(child) {
            Some(n) => n.attr,
            None => {
                proof {
                    assert(false);
                }
                Attr { ino: 0, size: 0, mode: 0, nlink: 0, mtime_secs: 0 }
            },
        };
        self.inodes.bump_refcount(child);
        proof {
            lemma_same_shape_preserves_wf(
                old(self)@.inodes,
                final(self)@.inodes,
                old(self)@.files,
            );
            assert(final(self)@ =~~= (FsV {
                inodes: lookup_bump(old(self)@.inodes, parent, name@),
                ..old(self)@
            }));
        }
        Ok(self.make_entry_reply(child, attr))
    }

    /// Open a directory: snapshot its entries into the handle registry
    /// and return the new handle number.
    pub fn do_opendir(&mut self, ino: u64) -> (r: Result<u64, Errno>)
        requires
            old(self).wf(),
        ensures
            final(self).wf(),
            (match r {
                Err(e) => opendir_check(old(self)@.inodes, ino) == Some(e) && final(self)@ == old(
                    self,
                )@,
                Ok(fh) => {
                    &&& opendir_check(old(self)@.inodes, ino) is None
                    &&& fh <= usize::MAX
                    &&& !old(self)@.handles.contains_key(fh as int)
                    &&& final(self)@.handles.dom() =~= old(self)@.handles.dom().insert(fh as int)
                    &&& final(self)@.handles.index(fh as int)@ == snapshot_spec(
                        ino,
                        dir_of(old(self)@.inodes, ino),
                    )
                    &&& (forall|k: int|
                        k != fh as int && old(self)@.handles.contains_key(k)
                            ==> final(self)@.handles.index(k) == old(self)@.handles.index(k))
                    &&& final(self)@ == (FsV { handles: final(self)@.handles, ..old(self)@ })
                },
            }),
    {
        let snapshot: Vec<SnapEntry> = match self.inodes.get(ino) {
            None => {
                return Err(Errno::NoEntry);
            },
            Some(n) => {
                if n.attr.nlink == 0 {
                    return Err(Errno::NoEntry);
                }
                match &n.kind {
                    InodeKind::Directory(d) => {
                        proof {
                            assert(crate::table::inode_ok(old(self)@.inodes, ino - 1));
                        }
                        d.collect_entries(&n.attr)
                    },
                    InodeKind::RegularFile(_) => {
                        return Err(Errno::NotADirectory);
                    },
                }
            },
        };
        let key: usize = slab_insert(&mut self.dir_handles, DirHandle { entries: snapshot });
        proof {
            assert(final(self)@.handles.dom() =~= old(self)@.handles.dom().insert(key as int));
        }
        Ok(key as u64)
    }

    /// Serve one page of an open handle's snapshot: entries from `offset`
    /// while the running wire-size total stays strictly below `size`.
    pub fn do_readdir(&self, ino: u64, fh: u64, offset: u64, size: u32) -> (r: Result<
        Vec<SnapEntry>,
        Errno,
    >)
        ensures
            (match r {
                Err(e) => e == Errno::Io && !(fh <= usize::MAX && self@.handles.contains_key(
                    fh as int,
                )),
                Ok(v) => {
                    &&& fh <= usize::MAX
                    &&& self@.handles.contains_key(fh as int)
                    &&& snap_views(v@) == readdir_spec(
                        self@.handles.index(fh as int)@,
                        offset as int,
                        size as int,
                    )
                },
            }),
    {
        if fh > (usize::MAX as u64) {
            return Err(Errno::Io);
        }
        let h: &DirHandle = match slab_get(&self.dir_handles, fh as usize) {
            None => {
                return Err(Errno::Io);
            },
            Some(h) => h,
        };
        let ghost full = h@;
        let n: usize = h.entries.len();
        if offset >= (n as u64) {
            let out: Vec<SnapEntry> = Vec::new();
            proof {
                assert(snap_views(out@) =~= readdir_spec(full, offset as int, size as int));
            }
            return Ok(out);
        }
        let mut out: Vec<SnapEntry> = Vec::new();
        let mut total: u128 = 0;
        let mut i: u64 = offset;
        proof {
            assert(snap_views(out@) + take_entries(full.skip(i as int), total as int, size as int)
                =~= readdir_spec(full, offset as int, size as int));
        }
        while i < (n as u64)
            invariant
                n == h.entries@.len(),
                full == h@,
                offset <= i <= n,
                total <= size,
                snap_views(out@) + take_entries(full.skip(i as int), total as int, size as int)
                    =~= readdir_spec(full, offset as int, size as int),
            ensures
                snap_views(out@) =~= readdir_spec(full, offset as int, size as int),
            decreases n - i,
        {
            let e: &SnapEntry = &h.entries[i as usize];
            let w: u128 = wire_size_of(&e.name);
            proof {
                assert(full.skip(i as int).len() > 0);
                assert(full.skip(i as int)[0] == full[i as int]);
                assert(full.skip(i as int).drop_first() =~= full.skip(i as int + 1));
            }
            if total + w < (size as u128) {
                total = total + w;
                out.push(e.duplicate());
                i = i + 1;
                proof {
                    assert(snap_views(out@) + take_entries(
                        full.skip(i as int),
                        total as int,
                        size as int,
                    ) =~= readdir_spec(full, offset as int, size as int));
                }
            } else {
                proof {
                    assert(take_entries(full.skip(i as int), total as int, size as int)
                        =~= Seq::<crate::handles::SnapV>::empty());
                    assert(snap_views(out@) =~= readdir_spec(full, offset as int, size as int));
                }
                break ;
            }
        }
        proof {
            if i == n {
                assert(full.skip(n as int) =~= Seq::<crate::handles::SnapV>::empty());
            }
        }
        Ok(out)
    }

    /// Drop an open handle, releasing its snapshot. Unknown handles are
    /// ignored.
    pub fn do_releasedir(&mut self, ino: u64, fh: u64) -> (r: Result<(), Errno>)
        requires
            old(self).wf(),
        ensures
            final(self).wf(),
            r == Ok::<(), Errno>(()),
            final(self)@.handles =~= old(self)@.handles.remove(fh as int),
            final(self)@ == (FsV { handles: final(self)@.handles, ..old(self)@ }),
    {
        if fh <= (usize::MAX as u64) {
            let _removed = slab_try_remove(&mut self.dir_handles, fh as usize);
            proof {
                assert(final(self)@.inodes == old(self)@.inodes);
                assert(final(self)@.files == old(self)@.files);
                assert forall|k: int| final(self)@.handles.contains_key(k) implies 0 <= k
                    <= usize::MAX by {
                    assert(old(self)@.handles.contains_key(k));
                };
            }
            Ok(())
        } else {
            proof {
                assert(!old(self)@.handles.contains_key(fh as int));
                assert(final(self)@.handles =~= old(self)@.handles.remove(fh as int));
            }
            Ok(())
        }
    }

    /// Assemble an entry reply carrying the entry TTL.
    pub fn make_entry_reply(&self, ino: u64, attr: Attr) -> (r: EntryReply)
        ensures
            r == (EntryReply { ino, attr, ttl_secs: self@.ttl_secs }),
    {
        EntryReply { ino, attr, ttl_secs: self.ttl_secs }
    }
}

/// Find `name` among the children, front to back.
pub fn find_child(cs: &Vec<ChildEntry>, name: &String) -> (r: Option<u64>)
    ensures
        r == child_ino(cs@.map_values(|c: ChildEntry| c@), name@),
{
    let ghost views = cs@.map_values(|c: ChildEntry| c@);
    let n: usize = cs.len();
    let mut i: usize = 0;
    proof {
        assert(views.skip(0) =~= views);
    }
    while i < n
        invariant
            n == cs@.len(),
            0 <= i <= n,
            views == cs@.map_values(|c: ChildEntry| c@),
            child_ino(views, name@) == child_ino(views.skip(i as int), name@),
        decreases n - i,
    {
        proof {
            assert(views.skip(i as int).len() > 0);
            assert(views.skip(i as int)[0] == views[i as int]);
            assert(views.skip(i as int).drop_first() =~= views.skip(i + 1));
        }
        if cs[i].name == *name {
            return Some(cs[i].ino);
        }
        i = i + 1;
    }
    proof {
        assert(views.skip(n as int) =~= Seq::<ChildV>::empty());
    }
    None
}

/// A child found under a well-formed directory is present in the table.
pub proof fn lemma_child_in_table(t: Seq<Option<InodeV>>, parent: u64, name: Seq<char>)
    requires
        table_wf(t),
        is_dir(t, parent),
        child_ino(dir_of(t, parent).children, name) is Some,
    ensures
        (match child_ino(dir_of(t, parent).children, name) {
            Some(c) => has_ino(t, c) && parent < c,
            None => true,
        }),
{
    let cs = dir_of(t, parent).children;
    lemma_child_ino_found(cs, name);
    assert(crate::table::inode_ok(t, parent - 1));
}

/// When `child_ino` finds a binding, that binding is one of the children.
pub proof fn lemma_child_ino_found(cs: Seq<ChildV>, name: Seq<char>)
    requires
        child_ino(cs, name) is Some,
    ensures
        exists|j: int|
            0 <= j < cs.len() && (#[trigger] cs[j]).name == name && Some(cs[j].ino) == child_ino(
                cs,
                name,
            ),
    decreases cs.len(),
{
    if cs.len() > 0 {
        if cs[0].name == name {
            assert(cs[0].name == name && Some(cs[0].ino) == child_ino(cs, name));
        } else {
            lemma_child_ino_found(cs.drop_first(), name);
            let j = choose|j: int|
                0 <= j < cs.drop_first().len() && (#[trigger] cs.drop_first()[j]).name == name
                    && Some(cs.drop_first()[j].ino) == child_ino(cs.drop_first(), name);
            assert(cs[j + 1].name == name && Some(cs[j + 1].ino) == child_ino(cs, name));
        }
    }
}

/// The first name under which directory `p` binds inode `c`.
pub open spec fn name_in(t: Seq<Option<InodeV>>, p: u64, c: u64) -> Seq<char> {
    match first_name(dir_of(t, p).children, c) {
        Some(nm) => nm,
        None => Seq::empty(),
    }
}

/// The absolute POSIX path of a directory inode, reconstructed by
/// walking parent links up to the root.
pub open spec fn path_of(t: Seq<Option<InodeV>>, ino: u64) -> Seq<char>
    decreases ino,
{
    if ino == 1 {
        seq!['/']
    } else if is_dir(t, ino) {
        match dir_of(t, ino).parent {
            Some(p) => if 1 <= p < ino {
                path_join(path_of(t, p), name_in(t, p, ino))
            } else {
                Seq::empty()
            },
            None => Seq::empty(),
        }
    } else {
        Seq::empty()
    }
}

/// Join a base path with each name in turn, left to right.
pub open spec fn join_all(base: Seq<char>, names: Seq<Seq<char>>) -> Seq<char>
    decreases names.len(),
{
    if names.len() == 0 {
        base
    } else {
        join_all(path_join(base, names[0]), names.drop_first())
    }
}

/// The collected names, viewed and reversed: deepest name last.
pub open spec fn rev_name_views(s: Seq<String>) -> Seq<Seq<char>> {
    s.map_values(|x: String| x@).reverse()
}

/// Appending a name to the list joins it at the end of the path.
proof fn lemma_join_all_push(base: Seq<char>, s: Seq<Seq<char>>, x: Seq<char>)
    ensures
        join_all(base, s.push(x)) == path_join(join_all(base, s), x),
    decreases s.len(),
{
    if s.len() == 0 {
        assert(s.push(x).drop_first() =~= Seq::<Seq<char>>::empty());
        assert(s.push(x)[0] == x);
        assert(join_all(base, s.push(x)) == join_all(
            path_join(base, x),
            Seq::<Seq<char>>::empty(),
        ));
        assert(join_all(path_join(base, x), Seq::<Seq<char>>::empty()) == path_join(base, x));
        assert(join_all(base, s) == base);
    } else {
        assert(s.push(x).drop_first() =~= s.drop_first().push(x));
        assert(s.push(x)[0] == s[0]);
        assert(join_all(base, s.push(x)) == join_all(
            path_join(base, s[0]),
            s.drop_first().push(x),
        ));
        lemma_join_all_push(path_join(base, s[0]), s.drop_first(), x);
        assert(join_all(base, s) == join_all(path_join(base, s[0]), s.drop_first()));
    }
}

/// A bound inode has a first name.
pub proof fn lemma_first_name_exists(cs: Seq<ChildV>, c: u64)
    requires
        exists|j: int| 0 <= j < cs.len() && (#[trigger] cs[j]).ino == c,
    ensures
        first_name(cs, c) is Some,
    decreases cs.len(),
{
    if cs.len() > 0 && cs[0].ino != c {
        let j = choose|j: int| 0 <= j < cs.len() && (#[trigger] cs[j]).ino == c;
        assert(cs.drop_first()[j - 1].ino == c);
        lemma_first_name_exists(cs.drop_first(), c);
    }
}

/// Find the first name bound to `ino` among the children, front to back.
fn find_name_for(cs: &Vec<ChildEntry>, ino: u64) -> (r: Option<String>)
    ensures
        (match r {
            Some(s) => first_name(cs@.map_values(|c: ChildEntry| c@), ino) == Some(s@),
            None => first_name(cs@.map_values(|c: ChildEntry| c@), ino) is None,
        }),
{
    let ghost views = cs@.map_values(|c: ChildEntry| c@);
    let n: usize = cs.len();
    let mut i: usize = 0;
    proof {
        assert(views.skip(0) =~= views);
    }
    while i < n
        invariant
            n == cs@.len(),
            0 <= i <= n,
            views == cs@.map_values(|c: ChildEntry| c@),
            first_name(views, ino) == first_name(views.skip(i as int), ino),
        decreases n - i,
    {
        proof {
            assert(views.skip(i as int).len() > 0);
            assert(views.skip(i as int)[0] == views[i as int]);
            assert(views.skip(i as int).drop_first() =~= views.skip(i + 1));
        }
        if cs[i].ino == ino {
            return Some(cs[i].name.clone());
        }
        i = i + 1;
    }
    proof {
        assert(views.skip(n as int) =~= Seq::<ChildV>::empty());
    }
    None
}

/// What `inode_to_name` reports: the name-in-parent and the parent's
/// number for a directory below the root, the empty name and the
/// sentinel `0` for the root and for regular files.
pub open spec fn inode_name_spec(t: Seq<Option<InodeV>>, ino: u64) -> (Seq<char>, u64) {
    if is_dir(t, ino) {
        match dir_of(t, ino).parent {
            Some(p) => (name_in(t, p, ino), p),
            None => (Seq::empty(), 0),
        }
    } else {
        (Seq::empty(), 0)
    }
}

impl MemFS {
    /// The name a present inode carries in its parent directory, with
    /// the parent's number; the root and regular files report the
    /// sentinel parent `0`.
    pub fn inode_to_name(&self, ino: u64) -> (r: Option<(String, u64)>)
        requires
            self.wf(),
            has_ino(self@.inodes, ino),
        ensures
            (match r {
                Some(pr) => pr.0@ == inode_name_spec(self@.inodes, ino).0 && pr.1
                    == inode_name_spec(self@.inodes, ino).1,
                None => false,
            }),
    {
        let node = match self.inodes.get(ino) {
            Some(n) => n,
            None => {
                proof {
                    assert(false);
                }
                return None;
            },
        };
        match &node.kind {
            InodeKind::Directory(d) => match d.parent {
                Some(p) => {
                    proof {
                        assert(crate::table::inode_ok(self@.inodes, ino - 1));
                    }
                    let parent_node = match self.inodes.get(p) {
                        Some(n) => n,
                        None => {
                            proof {
                                assert(false);
                            }
                            return None;
                        },
                    };
                    match &parent_node.kind {
                        InodeKind::Directory(pd) => {
                            match find_name_for(&pd.children, ino) {
                                Some(nm) => Some((nm, p)),
                                None => {
                                    proof {
                                        lemma_first_name_exists(dir_of(self@.inodes, p).children, ino);
                                        assert(false);
                                    }
                                    None
                                },
                            }
                        },
                        InodeKind::RegularFile(_) => {
                            proof {
                                assert(false);
                            }
                            None
                        },
                    }
                },
                None => Some((String::new(), 0)),
            },
            InodeKind::RegularFile(_) => Some((String::new(), 0)),
        }
    }

    /// Reconstruct the absolute path of a directory inode by walking
    /// parent links to the root.
    pub fn full_path(&self, ino: u64) -> (r: String)
        requires
            self.wf(),
            is_dir(self@.inodes, ino),
        ensures
            r@ == path_of(self@.inodes, ino),
    {
        proof {
            reveal_strlit("/");
        }
        if ino == 1 {
            let r = String::from_str("/");
            proof {
                assert(r@ =~= path_of(self@.inodes, 1));
            }
            return r;
        }
        let ghost t = self@.inodes;
        let mut names: Vec<String> = Vec::new();
        let mut cur: u64 = ino;
        proof {
            assert(rev_name_views(names@) =~= Seq::<Seq<char>>::empty());
        }
        while cur != 1
            invariant
                self.wf(),
                t == self@.inodes,
                is_dir(t, cur),
                1 <= cur,
                join_all(path_of(t, cur), rev_name_views(names@)) == path_of(t, ino),
            decreases cur,
        {
            proof {
                assert(crate::table::inode_ok(t, cur - 1));
            }
            let step = self.inode_to_name(cur);
            let (nm, p) = match step {
                Some(x) => x,
                None => {
                    proof {
                        assert(false);
                    }
                    return String::new();
                },
            };
            proof {
                assert(dir_of(t, cur).parent is Some);
                assert(1 <= p < cur);
                assert(is_dir(t, p));
                assert(path_join(path_of(t, p), name_in(t, p, cur)) == path_of(t, cur));
                assert(rev_name_views(names@.push(nm)) =~= seq![nm@] + rev_name_views(names@));
                assert((seq![nm@] + rev_name_views(names@)).drop_first() =~= rev_name_views(
                    names@,
                ));
                assert(join_all(path_of(t, p), rev_name_views(names@.push(nm))) == join_all(
                    path_of(t, cur),
                    rev_name_views(names@),
                ));
            }
            names.push(nm);
            cur = p;
        }
        proof {
            assert(path_of(t, 1) =~= seq!['/']);
        }
        let mut out = String::from_str("/");
        let total: usize = names.len();
        let mut k: usize = 0;
        proof {
            assert(out@ =~= seq!['/']);
            assert(rev_name_views(names@).take(0) =~= Seq::<Seq<char>>::empty());
        }
        while k < total
            invariant
                total == names@.len(),
                0 <= k <= total,
                out@ == join_all(seq!['/'], rev_name_views(names@).take(k as int)),
                join_all(seq!['/'], rev_name_views(names@)) == path_of(t, ino),
            decreases total - k,
        {
            let idx: usize = total - 1 - k;
            out = join_path(&out, &names[idx]);
            proof {
                assert(rev_name_views(names@)[k as int] == names@[idx as int]@);
                assert(rev_name_views(names@).take(k as int + 1) =~= rev_name_views(names@).take(
                    k as int,
                ).push(rev_name_views(names@)[k as int]));
                lemma_join_all_push(
                    seq!['/'],
                    rev_name_views(names@).take(k as int),
                    rev_name_views(names@)[k as int],
                );
            }
            k = k + 1;
        }
        proof {
            assert(rev_name_views(names@).take(total as int) =~= rev_name_views(names@));
        }
        out
    }
}

/// How a node created during directory population is initialized: a
/// regular file with its reported size, parsed modification time and
/// absolute remote path, or an empty directory.
pub enum NodeInit {
    File { size: u64, mtime_secs: i64, path: String },
    Dir { mtime_secs: i64 },
}

/// The mathematical content of a `NodeInit`.
#[verifier::ext_equal]
pub enum InitV {
    File { size: u64, mtime_secs: i64, path: Seq<char> },
    Dir { mtime_secs: i64 },
}

impl View for NodeInit {
    type V = InitV;

    open spec fn view(&self) -> InitV {
        match self {
            NodeInit::File { size, mtime_secs, path } => InitV::File {
                size: *size,
                mtime_secs: *mtime_secs,
                path: path@,
            },
            NodeInit::Dir { mtime_secs } => InitV::Dir { mtime_secs: *mtime_secs },
        }
    }
}

/// The error `make_node` replies for a given table state, or `None`
/// when the creation proceeds.
pub open spec fn make_node_check(t: Seq<Option<InodeV>>, parent: u64, name: Seq<char>) -> Option<
    Errno,
> {
    if !has_ino(t, parent) {
        Some(Errno::NoEntry)
    } else if !(inode_at(t, parent).kind is Dir) {
        Some(Errno::NotADirectory)
    } else if child_ino(dir_of(t, parent).children, name) is Some {
        Some(Errno::Exists)
    } else {
        None
    }
}

/// The inode a creation commits: mode, link counts and lookup counts
/// depend on the kind; files report their size, directories start empty
/// and unpopulated.
pub open spec fn new_inode_v(ino: u64, parent: u64, init: InitV) -> InodeV {
    match init {
        InitV::File { size, mtime_secs, .. } => InodeV {
            attr: Attr { ino, size, mode: MODE_REG, nlink: 1, mtime_secs },
            refcount: 1,
            links: 1,
            kind: KindV::File,
        },
        InitV::Dir { mtime_secs } => InodeV {
            attr: Attr { ino, size: 0, mode: MODE_DIR, nlink: 1, mtime_secs },
            refcount: DIR_REFS,
            links: DIR_REFS,
            kind: KindV::Dir(DirV { children: Seq::empty(), parent: Some(parent), populated: false }),
        },
    }
}

/// The table after a successful creation: the parent gains one child
/// binding, and the new inode takes the next number.
pub open spec fn grown_table(
    t: Seq<Option<InodeV>>,
    parent: u64,
    name: Seq<char>,
    init: InitV,
) -> Seq<Option<InodeV>> {
    t.update(parent - 1, Some(with_child(inode_at(t, parent), name, (t.len() + 1) as u64))).push(
        Some(new_inode_v((t.len() + 1) as u64, parent, init)),
    )
}

/// The file-inode map after a successful creation: one appended record
/// for a file, unchanged for a directory.
pub open spec fn grown_files(
    files: Seq<FileRecV>,
    t: Seq<Option<InodeV>>,
    parent: u64,
    init: InitV,
) -> Seq<FileRecV> {
    match init {
        InitV::File { path, .. } => files.push(
            FileRecV { parent, ino: (t.len() + 1) as u64, path },
        ),
        InitV::Dir { .. } => files,
    }
}

/// The whole state after `make_node`: unchanged when the check fails.
pub open spec fn make_node_state(v: FsV, parent: u64, name: Seq<char>, init: InitV) -> FsV {
    if make_node_check(v.inodes, parent, name) is Some {
        v
    } else {
        FsV {
            inodes: grown_table(v.inodes, parent, name, init),
            files: grown_files(v.files, v.inodes, parent, init),
            ..v
        }
    }
}

impl MemFS {
    /// Create a child node under `parent`, unless the name is taken;
    /// a regular file also gets its file-inode-map record appended.
    pub fn make_node(&mut self, parent: u64, name: &String, init: NodeInit) -> (r: Result<
        EntryReply,
        Errno,
    >)
        requires
            old(self).wf(),
            old(self)@.inodes.len() < MAX_TABLE_LEN,
        ensures
            final(self).wf(),
            final(self)@ == make_node_state(old(self)@, parent, name@, init@),
            (match r {
                Err(e) => make_node_check(old(self)@.inodes, parent, name@) == Some(e),
                Ok(rep) => make_node_check(old(self)@.inodes, parent, name@) is None && rep == (
                EntryReply {
                    ino: (old(self)@.inodes.len() + 1) as u64,
                    attr: new_inode_v((old(self)@.inodes.len() + 1) as u64, parent, init@).attr,
                    ttl_secs: old(self)@.ttl_secs,
                }),
            }),
    {
        match self.inodes.get(parent) {
            None => {
                return Err(Errno::NoEntry);
            },
            Some(n) => match &n.kind {
                InodeKind::Directory(d) => {
                    match find_child(&d.children, name) {
                        Some(_) => {
                            return Err(Errno::Exists);
                        },
                        None => {},
                    }
                },
                InodeKind::RegularFile(_) => {
                    return Err(Errno::NotADirectory);
                },
            },
        };
        let ino: u64 = self.inodes.vacant_ino();
        let inode: Inode = match init {
            NodeInit::File { size, mtime_secs, path } => {
                self.f_ino_map.push(FileRec { parent, ino, path });
                Inode {
                    attr: Attr { ino, size, mode: MODE_REG, nlink: 1, mtime_secs },
                    xattrs: Vec::new(),
                    refcount: 1,
                    links: 1,
                    kind: InodeKind::RegularFile(Vec::new()),
                }
            },
            NodeInit::Dir { mtime_secs } => Inode {
                attr: Attr { ino, size: 0, mode: MODE_DIR, nlink: 1, mtime_secs },
                xattrs: Vec::new(),
                refcount: DIR_REFS,
                links: DIR_REFS,
                kind: InodeKind::Directory(
                    Dir { children: Vec::new(), parent: Some(parent), populated: false },
                ),
            },
        };
        let attr: Attr = inode.attr;
        self.inodes.push_child(parent, name.clone(), ino);
        let _ino2 = self.inodes.insert(inode);
        proof {
            lemma_make_node_wf(old(self)@.inodes, old(self)@.files, parent, name@, init@);
            assert(final(self)@.inodes =~~= grown_table(old(self)@.inodes, parent, name@, init@));
            assert(final(self)@.files =~~= grown_files(
                old(self)@.files,
                old(self)@.inodes,
                parent,
                init@,
            ));
            assert(final(self)@ =~~= make_node_state(old(self)@, parent, name@, init@));
        }
        Ok(self.make_entry_reply(ino, attr))
    }
}

/// What the lookup step must fetch before replying: the child inode and
/// its path, when the name is locally bound to a directory; nothing
/// otherwise. An unknown name in particular issues no request.
pub enum LookupPlan {
    Fetch { ino: u64, path: String },
    NoFetch,
}

/// The directory inode a lookup populates, when there is one.
pub open spec fn lookup_needs_fetch(t: Seq<Option<InodeV>>, parent: u64, name: Seq<char>) -> Option<
    u64,
> {
    match name_to_ino_spec(t, parent, name) {
        Some(c) => if is_dir(t, c) {
            Some(c)
        } else {
            None
        },
        None => None,
    }
}

/// The absolute path of the first file-inode-map record for `ino`, or
/// the empty path when there is none.
pub open spec fn first_path(files: Seq<FileRecV>, ino: u64) -> Seq<char>
    decreases files.len(),
{
    if files.len() == 0 {
        Seq::empty()
    } else if files[0].ino == ino {
        files[0].path
    } else {
        first_path(files.drop_first(), ino)
    }
}

/// The `Range` header value for a read of `size` bytes at `offset`:
/// `bytes={offset}-{offset+size-1}`, the bound inclusive.
pub open spec fn range_spec(offset: int, end: int) -> Seq<char> {
    seq!['b', 'y', 't', 'e', 's', '='] + dec_of(offset) + seq!['-'] + dec_of(end)
}

/// What a read request resolves to: the remembered absolute path (empty
/// when the inode is unknown) and the byte-range header value.
pub struct ReadPlan {
    pub path: String,
    pub range: String,
}

impl MemFS {
    /// Decide whether a lookup of `name` under `parent` must list the
    /// remote first: only when the name is locally bound to a directory.
    pub fn lookup_prepare(&self, parent: u64, name: &String) -> (r: LookupPlan)
        requires
            self.wf(),
        ensures
            (match r {
                LookupPlan::Fetch { ino, path } => {
                    &&& lookup_needs_fetch(self@.inodes, parent, name@) == Some(ino)
                    &&& path@ == path_join(path_of(self@.inodes, parent), name@)
                    &&& is_dir(self@.inodes, ino)
                    &&& path@ == path_of(self@.inodes, ino)
                },
                LookupPlan::NoFetch => lookup_needs_fetch(self@.inodes, parent, name@) is None,
            }),
    {
        match self.name_to_inode(parent, name) {
            None => LookupPlan::NoFetch,
            Some(child) => {
                match self.inodes.get(child) {
                    Some(n) => match &n.kind {
                        InodeKind::Directory(_) => {
                            let base = self.full_path(parent);
                            let path = join_path(&base, name);
                            proof {
                                lemma_child_path(self@.inodes, parent, name@, child);
                            }
                            LookupPlan::Fetch { ino: child, path }
                        },
                        InodeKind::RegularFile(_) => LookupPlan::NoFetch,
                    },
                    None => LookupPlan::NoFetch,
                }
            },
        }
    }

    /// Resolve a read: scan the file-inode map for the first record of
    /// `ino` (an unknown inode yields the empty path, so the request
    /// fails at the remote), and format the inclusive byte range.
    pub fn read_prepare(&self, ino: u64, offset: u64, size: u32) -> (r: ReadPlan)
        requires
            offset + size >= 1,
            offset + size - 1 <= u64::MAX,
        ensures
            r.path@ == first_path(self@.files, ino),
            r.range@ == range_spec(offset as int, offset + size - 1),
    {
        let ghost files = self@.files;
        let n: usize = self.f_ino_map.len();
        let mut i: usize = 0;
        let mut path: Option<String> = None;
        proof {
            assert(files.skip(0) =~= files);
        }
        while i < n && path.is_none()
            invariant
                n == self.f_ino_map@.len(),
                0 <= i <= n,
                files == self@.files,
                (match path {
                    Some(p) => p@ == first_path(files, ino),
                    None => first_path(files, ino) == first_path(files.skip(i as int), ino),
                }),
            decreases n - i,
        {
            proof {
                assert(files.skip(i as int).len() > 0);
                assert(files.skip(i as int)[0] == files[i as int]);
                assert(files.skip(i as int).drop_first() =~= files.skip(i as int + 1));
            }
            if self.f_ino_map[i].ino == ino {
                path = Some(self.f_ino_map[i].path.clone());
            }
            i = i + 1;
        }
        let found: String = match path {
            Some(p) => p,
            None => {
                proof {
                    assert(files.skip(n as int) =~= Seq::<FileRecV>::empty());
                }
                String::new()
            },
        };
        let end: u64 = if size == 0 {
            offset - 1
        } else {
            offset + ((size - 1) as u64)
        };
        proof {
            reveal_strlit("bytes=");
            reveal_strlit("-");
        }
        let mut range = String::from_str("bytes=");
        let off_s = u64_to_dec(offset);
        range.append(off_s.as_str());
        range.append("-");
        let end_s = u64_to_dec(end);
        range.append(end_s.as_str());
        proof {
            assert(range@ =~= range_spec(offset as int, offset + size - 1));
        }
        ReadPlan { path: found, range }
    }

    /// The URL a path resolves to against the configured server.
    pub fn url_for(&self, path: &String) -> (r: String)
        ensures
            r@ == self@.server + path@,
    {
        let mut r = self.server.clone();
        r.append(path.as_str());
        r
    }

    /// Whether `ino` is present and a directory.
    pub fn is_directory(&self, ino: u64) -> (r: bool)
        ensures
            r == is_dir(self@.inodes, ino),
    {
        match self.inodes.get(ino) {
            Some(n) => match &n.kind {
                InodeKind::Directory(_) => true,
                InodeKind::RegularFile(_) => false,
            },
            None => false,
        }
    }

    /// Whether the table can still take `extra` more inodes.
    pub fn can_grow(&self, extra: usize) -> (r: bool)
        ensures
            r == (self@.inodes.len() + extra <= MAX_TABLE_LEN),
    {
        let len: usize = self.inodes.entries.len();
        (len as u128) + (extra as u128) <= (MAX_TABLE_LEN as u128)
    }

    /// Whether the directory `ino` has been populated from the remote.
    pub fn is_populated(&self, ino: u64) -> (r: bool)
        ensures
            r == (is_dir(self@.inodes, ino) && dir_of(self@.inodes, ino).populated),
    {
        match self.inodes.get(ino) {
            Some(n) => match &n.kind {
                InodeKind::Directory(d) => d.populated,
                InodeKind::RegularFile(_) => false,
            },
            None => false,
        }
    }
}

/// Translate the outcome of the remote byte-range read: the bytes pass
/// through untouched, any transport error becomes an I/O error.
pub fn finish_read(outcome: Result<Vec<u8>, TransportError>) -> (r: Result<Vec<u8>, Errno>)
    ensures
        (match outcome {
            Ok(b) => r == Ok::<Vec<u8>, Errno>(b),
            Err(_) => r == Err::<Vec<u8>, Errno>(Errno::Io),
        }),
{
    match outcome {
        Ok(b) => Ok(b),
        Err(_) => Err(Errno::Io),
    }
}

/// The unique index of a binding: `first_name` reports its name.
proof fn lemma_first_name_unique(cs: Seq<ChildV>, c: u64, j: int)
    requires
        0 <= j < cs.len(),
        cs[j].ino == c,
        forall|k: int| 0 <= k < cs.len() && k != j ==> (#[trigger] cs[k]).ino != c,
    ensures
        first_name(cs, c) == Some(cs[j].name),
    decreases cs.len(),
{
    if j == 0 {
    } else {
        assert(cs[0].ino != c);
        assert(cs.drop_first()[j - 1].ino == c);
        assert forall|k: int|
            0 <= k < cs.drop_first().len() && k != j - 1 implies (#[trigger] cs.drop_first()[k]).ino
            != c by {
            assert(cs.drop_first()[k] == cs[k + 1]);
        };
        lemma_first_name_unique(cs.drop_first(), c, j - 1);
    }
}

/// A directory child found by name is the inode's unique binding: its
/// recorded name-in-parent is that name, and its path extends the
/// parent's path with it.
proof fn lemma_child_path(t: Seq<Option<InodeV>>, parent: u64, name: Seq<char>, child: u64)
    requires
        table_wf(t),
        is_dir(t, parent),
        child_ino(dir_of(t, parent).children, name) == Some(child),
        is_dir(t, child),
    ensures
        name_in(t, parent, child) == name,
        path_of(t, child) == path_join(path_of(t, parent), name),
{
    let cs = dir_of(t, parent).children;
    lemma_child_ino_found(cs, name);
    let j = choose|j: int|
        0 <= j < cs.len() && (#[trigger] cs[j]).name == name && Some(cs[j].ino) == child_ino(
            cs,
            name,
        );
    assert(crate::table::inode_ok(t, parent - 1));
    assert(crate::table::dir_ok(t, parent - 1, dir_of(t, parent)));
    assert forall|k: int| 0 <= k < cs.len() && k != j implies (#[trigger] cs[k]).ino != child by {
        assert(crate::table::dir_ok(t, parent - 1, dir_of(t, parent)));
        if cs[k].ino == child {
            if k < j {
                assert(dir_of(t, parent).children[k].name != dir_of(t, parent).children[j].name);
                assert(cs[k].ino != cs[j].ino);
            } else {
                assert(dir_of(t, parent).children[j].name != dir_of(t, parent).children[k].name);
                assert(cs[j].ino != cs[k].ino);
            }
        }
    };
    lemma_first_name_unique(cs, child, j);
    assert(crate::table::child_ok(t, parent - 1, cs[j]));
    assert(dir_of(t, child).parent == Some(parent));
    assert(parent < child);
    assert(child != 1);
}
pub open spec fn str_file() -> Seq<char> {
    seq!['f', 'i', 'l', 'e']
}

/// The remote's type tag for directories.
pub open spec fn str_dir() -> Seq<char> {
    seq!['d', 'i', 'r', 'e', 'c', 't', 'o', 'r', 'y']
}

/// The size recorded for a created file: the reported size, or zero
/// when the field is absent.
pub open spec fn size_or_zero(e: RemoteEntryV) -> u64 {
    match e.size {
        Some(s) => s,
        None => 0,
    }
}

/// The views of a listing.
pub open spec fn entry_views(es: Seq<RemoteEntry>) -> Seq<RemoteEntryV> {
    es.map_values(|e: RemoteEntry| e@)
}

/// The state after absorbing one listing entry into directory `parent`
/// whose path is `ppath`: recognized entries with a name are created
/// (existing names are silently kept), everything else is skipped.
pub open spec fn listing_step(v: FsV, parent: u64, ppath: Seq<char>, e: RemoteEntryV) -> FsV {
    match (e.name, e.kind) {
        (Some(nm), Some(k)) => {
            if k == str_file() {
                make_node_state(
                    v,
                    parent,
                    nm,
                    InitV::File {
                        size: size_or_zero(e),
                        mtime_secs: mtime_or_zero(e),
                        path: path_join(ppath, nm),
                    },
                )
            } else if k == str_dir() {
                make_node_state(v, parent, nm, InitV::Dir { mtime_secs: mtime_or_zero(e) })
            } else {
                v
            }
        },
        _ => v,
    }
}

/// The state after absorbing a whole listing, front to back.
pub open spec fn apply_listing(v: FsV, parent: u64, ppath: Seq<char>, es: Seq<RemoteEntryV>) -> FsV
    decreases es.len(),
{
    if es.len() == 0 {
        v
    } else {
        apply_listing(listing_step(v, parent, ppath, es[0]), parent, ppath, es.drop_first())
    }
}

/// The table with directory `ino` marked populated.
pub open spec fn set_pop(t: Seq<Option<InodeV>>, ino: u64) -> Seq<Option<InodeV>> {
    if is_dir(t, ino) {
        t.update(ino - 1, Some(with_populated(inode_at(t, ino))))
    } else {
        t
    }
}

/// The state after a successful `fetch_remote` of directory `dir`: the
/// listing absorbed against the directory's path at call time, and the
/// directory marked populated.
pub open spec fn fetched_state(v: FsV, dir: u64, es: Seq<RemoteEntryV>) -> FsV {
    let v2 = apply_listing(v, dir, path_of(v.inodes, dir), es);
    FsV { inodes: set_pop(v2.inodes, dir), ..v2 }
}

impl MemFS {
    /// Absorb the outcome of a remote LIST of directory `dir`: on
    /// success every recognized entry becomes a child and the directory
    /// is marked populated; on transport failure nothing changes and
    /// the caller is told no-data.
    pub fn fetch_remote(&mut self, dir: u64, listing: Result<Vec<RemoteEntry>, TransportError>) -> (r:
        Result<(), Errno>)
        requires
            old(self).wf(),
            is_dir(old(self)@.inodes, dir),
            (match listing {
                Ok(es) => old(self)@.inodes.len() + es@.len() <= MAX_TABLE_LEN,
                Err(_) => true,
            }),
        ensures
            final(self).wf(),
            is_dir(final(self)@.inodes, dir),
            (match listing {
                Err(_) => r == Err::<(), Errno>(Errno::NoData) && final(self)@ == old(self)@,
                Ok(es) => r == Ok::<(), Errno>(()) && final(self)@ == fetched_state(
                    old(self)@,
                    dir,
                    entry_views(es@),
                ),
            }),
    {
        let entries: Vec<RemoteEntry> = match listing {
            Err(_) => {
                return Err(Errno::NoData);
            },
            Ok(es) => es,
        };
        let ghost v0 = self@;
        let ppath: String = self.full_path(dir);
        let file_s = String::from_str("file");
        let dir_s = String::from_str("directory");
        proof {
            reveal_strlit("file");
            reveal_strlit("directory");
            assert(file_s@ =~= str_file());
            assert(dir_s@ =~= str_dir());
            assert(entry_views(entries@).skip(0) =~= entry_views(entries@));
        }
        let n: usize = entries.len();
        let mut i: usize = 0;
        while i < n
            invariant
                self.wf(),
                is_dir(self@.inodes, dir),
                0 <= i <= n,
                n == entries@.len(),
                file_s@ == str_file(),
                dir_s@ == str_dir(),
                ppath@ == path_of(v0.inodes, dir),
                self@.inodes.len() + (n - i) <= MAX_TABLE_LEN,
                apply_listing(v0, dir, ppath@, entry_views(entries@)) == apply_listing(
                    self@,
                    dir,
                    ppath@,
                    entry_views(entries@).skip(i as int),
                ),
            decreases n - i,
        {
            let ghost before = self@;
            let ghost evs = entry_views(entries@);
            proof {
                assert(evs.skip(i as int).len() > 0);
                assert(evs.skip(i as int)[0] == evs[i as int]);
                assert(evs.skip(i as int).drop_first() =~= evs.skip(i as int + 1));
            }
            let e: &RemoteEntry = &entries[i];
            match (&e.name, &e.kind) {
                (Some(nm), Some(k)) => {
                    if *k == file_s {
                        let size: u64 = match e.size {
                            Some(s) => s,
                            None => 0,
                        };
                        let mt: i64 = e.mtime_secs_or_zero();
                        let path: String = join_path(&ppath, nm);
                        let ghost init = InitV::File {
                            size: size_or_zero(e@),
                            mtime_secs: mtime_or_zero(e@),
                            path: path_join(ppath@, nm@),
                        };
                        let _ = self.make_node(
                            dir,
                            nm,
                            NodeInit::File { size, mtime_secs: mt, path },
                        );
                        proof {
                            assert(self@ == make_node_state(before, dir, nm@, init));
                            assert(self@ == listing_step(before, dir, ppath@, evs[i as int]));
                        }
                    } else if *k == dir_s {
                        let mt: i64 = e.mtime_secs_or_zero();
                        let _ = self.make_node(dir, nm, NodeInit::Dir { mtime_secs: mt });
                        proof {
                            assert(self@ == listing_step(before, dir, ppath@, evs[i as int]));
                        }
                    } else {
                        proof {
                            assert(self@ == listing_step(before, dir, ppath@, evs[i as int]));
                        }
                    }
                },
                _ => {
                    proof {
                        assert(self@ == listing_step(before, dir, ppath@, evs[i as int]));
                    }
                },
            }
            i = i + 1;
            proof {
                assert(is_dir(self@.inodes, dir)) by {
                    if self@.inodes != before.inodes {
                        assert(crate::table::inode_at(self@.inodes, dir).kind is Dir);
                    }
                };
                assert(apply_listing(before, dir, ppath@, evs.skip(i - 1)) == apply_listing(
                    self@,
                    dir,
                    ppath@,
                    evs.skip(i as int),
                ));
            }
        }
        proof {
            assert(entry_views(entries@).skip(n as int) =~= Seq::<RemoteEntryV>::empty());
            assert(self@ == apply_listing(v0, dir, ppath@, entry_views(entries@)));
        }
        let ghost v2 = self@;
        self.inodes.set_populated(dir);
        proof {
            assert(final(self)@.inodes == set_pop(v2.inodes, dir));
            assert forall|i2: int|
                0 <= i2 < v2.inodes.len() implies #[trigger] slot_shape(
                v2.inodes[i2],
                final(self)@.inodes[i2],
            ) by {};
            lemma_same_shape_preserves_wf(v2.inodes, final(self)@.inodes, v2.files);
            assert(final(self)@ =~~= fetched_state(old(self)@, dir, entry_views(entries@)));
        }
        Ok(())
    }
}

/// A name that `child_ino` does not find differs from every bound name.
proof fn lemma_child_ino_none(cs: Seq<ChildV>, name: Seq<char>)
    requires
        child_ino(cs, name) is None,
    ensures
        forall|j: int| 0 <= j < cs.len() ==> (#[trigger] cs[j]).name != name,
    decreases cs.len(),
{
    if cs.len() > 0 {
        lemma_child_ino_none(cs.drop_first(), name);
        assert forall|j: int| 0 <= j < cs.len() implies (#[trigger] cs[j]).name != name by {
            if j > 0 {
                assert(cs.drop_first()[j - 1] == cs[j]);
            }
        };
    }
}

/// A successful creation preserves well-formedness.
proof fn lemma_make_node_wf(
    t: Seq<Option<InodeV>>,
    files: Seq<FileRecV>,
    parent: u64,
    name: Seq<char>,
    init: InitV,
)
    requires
        table_wf(t),
        files_wf(t, files),
        t.len() < MAX_TABLE_LEN,
        is_dir(t, parent),
        child_ino(dir_of(t, parent).children, name) is None,
    ensures
        table_wf(grown_table(t, parent, name, init)),
        files_wf(grown_table(t, parent, name, init), grown_files(files, t, parent, init)),
{
    let t2 = grown_table(t, parent, name, init);
    let files2 = grown_files(files, t, parent, init);
    let ino = t.len() + 1;
    let pi = parent - 1;
    lemma_child_ino_none(dir_of(t, parent).children, name);
    assert(crate::table::inode_ok(t, pi));
    assert(t2.len() == t.len() + 1);
    assert(forall|i: int| 0 <= i < t.len() && i != pi ==> t2[i] == t[i]);
    assert forall|i: int| 0 <= i < t2.len() implies #[trigger] crate::table::inode_ok(t2, i) by {
        if i == t.len() {
            // the new slot
            match init {
                InitV::File { .. } => {},
                InitV::Dir { .. } => {
                    let d = DirV {
                        children: Seq::empty(),
                        parent: Some(parent),
                        populated: false,
                    };
                    assert(dir_of(t2, parent).children == dir_of(t, parent).children.push(
                        ChildV { name, ino: ino as u64 },
                    ));
                    assert(dir_of(t2, parent).children[dir_of(t, parent).children.len() as int].ino
                        == i + 1);
                    assert(crate::table::dir_ok(t2, i, d));
                },
            }
        } else if i == pi {
            assert(crate::table::inode_ok(t, i));
            let d0 = dir_of(t, parent);
            let d2 = dir_of(t2, parent);
            assert(d2.children == d0.children.push(ChildV { name, ino: ino as u64 }));
            assert forall|j: int| 0 <= j < d2.children.len() implies crate::table::child_ok(
                t2,
                i,
                #[trigger] d2.children[j],
            ) by {
                if j < d0.children.len() {
                    assert(crate::table::child_ok(t, i, d0.children[j]));
                    assert(d2.children[j] == d0.children[j]);
                    let c = d0.children[j];
                    assert(t2[c.ino - 1] == t[c.ino - 1]);
                } else {
                    assert(d2.children[j] == ChildV { name, ino: ino as u64 });
                }
            };
            assert forall|j: int, k: int| 0 <= j < k < d2.children.len() implies (
            #[trigger] d2.children[j]).name != (#[trigger] d2.children[k]).name
                && d2.children[j].ino != d2.children[k].ino by {
                if k < d0.children.len() {
                    assert(d0.children[j].name != d0.children[k].name);
                } else {
                    assert(crate::table::child_ok(t, i, d0.children[j]));
                }
            };
            match d0.parent {
                Some(q) => {
                    assert(q != parent);
                    assert(t2[q - 1] == t[q - 1]);
                    let j = choose|j: int|
                        0 <= j < dir_of(t, q).children.len() && (#[trigger] dir_of(
                            t,
                            q,
                        ).children[j]).ino == i + 1;
                    if q == parent {
                        assert(dir_of(t2, q).children[j].ino == i + 1);
                    } else {
                        assert(dir_of(t2, q).children == dir_of(t, q).children);
                        assert(dir_of(t2, q).children[j].ino == i + 1);
                    }
                },
                None => {},
            }
            assert(crate::table::inode_ok(t2, i));
        } else {
            assert(crate::table::inode_ok(t, i));
            assert(t2[i] == t[i]);
            match t2[i] {
                Some(n) => {
                    match n.kind {
                        KindV::Dir(d) => {
                            assert forall|j: int| 0 <= j < d.children.len() implies crate::table::child_ok(
                                t2,
                                i,
                                #[trigger] d.children[j],
                            ) by {
                                let c = d.children[j];
                                assert(crate::table::child_ok(t, i, c));
                                if c.ino - 1 == pi {
                                    assert(inode_at(t2, c.ino).kind == KindV::Dir(
                                        dir_of(t2, parent),
                                    ));
                                } else {
                                    assert(t2[c.ino - 1] == t[c.ino - 1]);
                                }
                            };
                            match d.parent {
                                Some(q) => {
                                    let j = choose|j: int|
                                        0 <= j < dir_of(t, q).children.len() && (#[trigger] dir_of(
                                            t,
                                            q,
                                        ).children[j]).ino == i + 1;
                                    if q == parent {
                                        assert(dir_of(t2, q).children[j] == dir_of(
                                            t,
                                            q,
                                        ).children[j]);
                                    } else {
                                        assert(t2[q - 1] == t[q - 1]);
                                    }
                                    assert(dir_of(t2, q).children[j].ino == i + 1);
                                },
                                None => {},
                            }
                        },
                        KindV::File => {},
                    }
                },
                None => {},
            }
        }
    };
    // the file-inode map
    assert forall|j: int| 0 <= j < files2.len() implies has_ino(t2, (#[trigger] files2[j]).ino)
        && inode_at(t2, files2[j].ino).kind is File by {
        if j < files.len() {
            assert(files2[j] == files[j]);
            assert(has_ino(t, files[j].ino) && inode_at(t, files[j].ino).kind is File);
            assert(files[j].ino != parent);
            assert(t2[files[j].ino - 1] == t[files[j].ino - 1]);
        } else {
            assert(inode_at(t2, (ino as u64)).kind is File);
        }
    };
    assert forall|j: int, k: int| 0 <= j < k < files2.len() implies (#[trigger] files2[j]).ino != (
    #[trigger] files2[k]).ino by {
        if k < files.len() {
        } else {
            assert(has_ino(t, files[j].ino));
        }
    };
    assert forall|i: int| 0 <= i < t2.len() && #[trigger] file_at(t2, i) implies exists|j: int|
        0 <= j < files2.len() && (#[trigger] files2[j]).ino == i + 1 by {
        if i == t.len() {
            match init {
                InitV::File { .. } => {
                    assert(files2[files.len() as int].ino == i + 1);
                },
                InitV::Dir { .. } => {
                    assert(!file_at(t2, i));
                },
            }
        } else if i == pi {
            assert(!file_at(t2, i));
        } else {
            assert(t2[i] == t[i]);
            assert(file_at(t, i));
            let j = choose|j: int| 0 <= j < files.len() && (#[trigger] files[j]).ino == i + 1;
            assert(files2[j].ino == i + 1);
        }
    };
}

/// Two tables of the same shape (same slots, attributes, children and
/// parent links; only lookup counts and population flags may differ)
/// are interchangeable for well-formedness.
pub open spec fn kind_shape(a: KindV, b: KindV) -> bool {
    match (a, b) {
        (KindV::File, KindV::File) => true,
        (KindV::Dir(d1), KindV::Dir(d2)) => d1.children == d2.children && d1.parent == d2.parent,
        _ => false,
    }
}

/// Shape equivalence of one slot.
pub open spec fn slot_shape(a: Option<InodeV>, b: Option<InodeV>) -> bool {
    match (a, b) {
        (None, None) => true,
        (Some(x), Some(y)) => x.attr == y.attr && kind_shape(x.kind, y.kind),
        _ => false,
    }
}

/// Shape equivalence of two tables.
pub open spec fn same_shape(t: Seq<Option<InodeV>>, u: Seq<Option<InodeV>>) -> bool {
    &&& t.len() == u.len()
    &&& (forall|i: int| 0 <= i < t.len() ==> #[trigger] slot_shape(t[i], u[i]))
}

/// Well-formedness transfers between tables of the same shape.
pub proof fn lemma_same_shape_preserves_wf(
    t: Seq<Option<InodeV>>,
    u: Seq<Option<InodeV>>,
    files: Seq<FileRecV>,
)
    requires
        table_wf(t),
        files_wf(t, files),
        same_shape(t, u),
    ensures
        table_wf(u),
        files_wf(u, files),
{
    assert forall|i: int| 0 <= i < u.len() implies #[trigger] crate::table::inode_ok(u, i) by {
        assert(crate::table::inode_ok(t, i));
        assert(slot_shape(t[i], u[i]));
        match u[i] {
            Some(n) => {
                match n.kind {
                    KindV::Dir(d) => {
                        let dt = dir_of(t, (i + 1) as u64);
                        assert(d.children == dt.children && d.parent == dt.parent);
                        assert forall|j: int| 0 <= j < d.children.len() implies crate::table::child_ok(
                            u,
                            i,
                            #[trigger] d.children[j],
                        ) by {
                            let c = d.children[j];
                            assert(crate::table::child_ok(t, i, c));
                            assert(slot_shape(t[c.ino - 1], u[c.ino - 1]));
                        };
                        match d.parent {
                            Some(p) => {
                                assert(slot_shape(t[p - 1], u[p - 1]));
                                let j = choose|j: int|
                                    0 <= j < dir_of(t, p).children.len() && (#[trigger] dir_of(
                                        t,
                                        p,
                                    ).children[j]).ino == i + 1;
                                assert(dir_of(u, p).children[j].ino == i + 1);
                            },
                            None => {},
                        }
                    },
                    KindV::File => {},
                }
            },
            None => {},
        }
    };
    assert(u[0] is Some && inode_at(u, 1).kind is Dir) by {
        assert(slot_shape(t[0], u[0]));
    };
    assert forall|j: int| 0 <= j < files.len() implies has_ino(u, (#[trigger] files[j]).ino)
        && inode_at(u, files[j].ino).kind is File by {
        assert(has_ino(t, files[j].ino));
        assert(slot_shape(t[files[j].ino - 1], u[files[j].ino - 1]));
    };
    assert forall|i: int| 0 <= i < u.len() && #[trigger] file_at(u, i) implies exists|j: int|
        0 <= j < files.len() && (#[trigger] files[j]).ino == i + 1 by {
        assert(slot_shape(t[i], u[i]));
        assert(file_at(t, i));
    };
}

} // verus!
