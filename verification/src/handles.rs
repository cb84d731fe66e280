use vstd::prelude::*;
use vstd::utf8::encode_utf8;

use crate::table::{Attr, Dir};

verus! {

/// The `typ` hint of a snapshot entry whose kind is not reported.
pub const TYPE_UNKNOWN: u32 = 0;

/// The `typ` hint of a snapshot entry known to be a directory.
pub const TYPE_DIR: u32 = 4;

/// One entry of a directory snapshot: name, inode number, the offset the
/// kernel resumes from, and a kind hint.
#[derive(Debug)]
pub struct SnapEntry {
    pub name: String,
    pub ino: u64,
    pub offset: u64,
    pub typ: u32,
}

/// The mathematical content of a `SnapEntry`.
#[verifier::ext_equal]
pub struct SnapV {
    pub name: Seq<char>,
    pub ino: u64,
    pub offset: u64,
    pub typ: u32,
}

impl View for SnapEntry {
    type V = SnapV;

    open spec fn view(&self) -> SnapV {
        SnapV { name: self.name@, ino: self.ino, offset: self.offset, typ: self.typ }
    }
}

impl SnapEntry {
    /// An identical copy of the entry.
    pub fn duplicate(&self) -> (r: SnapEntry)
        ensures
            r@ == self@,
    {
        SnapEntry { name: self.name.clone(), ino: self.ino, offset: self.offset, typ: self.typ }
    }
}

/// The views of a sequence of snapshot entries.
pub open spec fn snap_views(s: Seq<SnapEntry>) -> Seq<SnapV> {
    s.map_values(|e: SnapEntry| e@)
}

/// An open directory handle: the immutable snapshot taken at open time.
pub struct DirHandle {
    pub entries: Vec<SnapEntry>,
}

impl View for DirHandle {
    type V = Seq<SnapV>;

    open spec fn view(&self) -> Seq<SnapV> {
        snap_views(self.entries@)
    }
}

/// The number of bytes an entry with this name occupies on the kernel
/// wire: a 24-byte header plus the name, padded to an 8-byte boundary.
pub open spec fn wire_size(name: Seq<char>) -> int {
    24 + ((encode_utf8(name).len() as usize) + 7) / 8 * 8
}

/// Compute the wire size of an entry name.
pub fn wire_size_of(name: &String) -> (r: u128)
    ensures
        r == wire_size(name@),
{
    let bytes: usize = name.as_str().len();
    24 + ((bytes as u128) + 7) / 8 * 8
}

/// The inode number reported for `..`: the parent, or the directory
/// itself at the root.
pub open spec fn dotdot_ino(parent: Option<u64>, self_ino: u64) -> u64 {
    match parent {
        Some(p) => p,
        None => self_ino,
    }
}

/// The snapshot taken of a directory at open time: `.`, `..`, then the
/// children in insertion order, with offsets numbered from 1.
pub open spec fn snapshot_spec(self_ino: u64, d: crate::table::DirV) -> Seq<SnapV> {
    seq![
        SnapV { name: seq!['.'], ino: self_ino, offset: 1, typ: TYPE_DIR },
        SnapV { name: seq!['.', '.'], ino: dotdot_ino(d.parent, self_ino), offset: 2, typ: TYPE_DIR },
    ] + Seq::new(
        d.children.len(),
        |i: int|
            SnapV {
                name: d.children[i].name,
                ino: d.children[i].ino,
                offset: (3 + i) as u64,
                typ: TYPE_UNKNOWN,
            },
    )
}

impl Dir {
    /// Build the snapshot served to `readdir` for this directory.
    pub fn collect_entries(&self, attr: &Attr) -> (r: Vec<SnapEntry>)
        requires
            self@.children.len() + 3 <= u64::MAX,
        ensures
            snap_views(r@) == snapshot_spec(attr.ino, self@),
    {
        proof {
            reveal_strlit(".");
            reveal_strlit("..");
            assert((".")@ =~= seq!['.']);
            assert(("..")@ =~= seq!['.', '.']);
        }
        let mut out: Vec<SnapEntry> = Vec::new();
        out.push(SnapEntry { name: String::from_str("."), ino: attr.ino, offset: 1, typ: TYPE_DIR });
        let dotdot: u64 = match self.parent {
            Some(p) => p,
            None => attr.ino,
        };
        out.push(SnapEntry { name: String::from_str(".."), ino: dotdot, offset: 2, typ: TYPE_DIR });
        let n: usize = self.children.len();
        let mut i: usize = 0;
        proof {
            assert(snap_views(out@) =~= snapshot_spec(attr.ino, self@).take(2));
        }
        while i < n
            invariant
                n == self@.children.len(),
                n + 3 <= u64::MAX,
                0 <= i <= n,
                out@.len() == 2 + i,
                snap_views(out@) =~= snapshot_spec(attr.ino, self@).take(2 + i),
            decreases n - i,
        {
            let c = &self.children[i];
            out.push(
                SnapEntry {
                    name: c.name.clone(),
                    ino: c.ino,
                    offset: 3 + (i as u64),
                    typ: TYPE_UNKNOWN,
                },
            );
            i = i + 1;
            proof {
                assert(snap_views(out@) =~= snapshot_spec(attr.ino, self@).take(2 + i));
            }
        }
        proof {
            assert(snapshot_spec(attr.ino, self@).take(2 + n as int) =~= snapshot_spec(
                attr.ino,
                self@,
            ));
        }
        out
    }
}

/// The longest prefix of the remaining entries whose running wire-size
/// total, counted on top of `acc` and including the entry itself, stays
/// strictly below `size`.
pub open spec fn take_entries(s: Seq<SnapV>, acc: int, size: int) -> Seq<SnapV>
    decreases s.len(),
{
    if s.len() == 0 {
        Seq::empty()
    } else if acc + wire_size(s[0].name) < size {
        seq![s[0]] + take_entries(s.drop_first(), acc + wire_size(s[0].name), size)
    } else {
        Seq::empty()
    }
}

/// The total wire size of a sequence of entries.
pub open spec fn wire_total(s: Seq<SnapV>) -> int
    decreases s.len(),
{
    if s.len() == 0 {
        0
    } else {
        wire_size(s[0].name) + wire_total(s.drop_first())
    }
}

/// What `readdir` returns from a snapshot: nothing at or past the end,
/// otherwise the size-limited prefix starting at `offset`.
pub open spec fn readdir_spec(snap: Seq<SnapV>, offset: int, size: int) -> Seq<SnapV> {
    if 0 <= offset < snap.len() {
        take_entries(snap.skip(offset), 0, size)
    } else {
        Seq::empty()
    }
}

/// What an open handle registry holds, keyed by handle number. The keys
/// handed out are always `usize` values.
pub uninterp spec fn dir_handles_of(s: slab::Slab<DirHandle>) -> Map<int, DirHandle>;

#[verifier::external_type_specification]
#[verifier::external_body]
#[verifier::reject_recursive_types(T)]
pub struct ExSlab<T>(slab::Slab<T>);

/// Relies on slab's `Slab::new`: the new pool is empty.
#[verifier::external_body]
pub fn slab_new() -> (pool: slab::Slab<DirHandle>)
    ensures
        forall|k: int| !dir_handles_of(pool).contains_key(k),
{
    slab::Slab::new()
}

/// Relies on slab's `Slab::insert`: the value is stored under a key that
/// was vacant, and that key is returned.
#[verifier::external_body]
pub fn slab_insert(s: &mut slab::Slab<DirHandle>, h: DirHandle) -> (k: usize)
    ensures
        !dir_handles_of(*old(s)).contains_key(k as int),
        dir_handles_of(*final(s)) == dir_handles_of(*old(s)).insert(k as int, h),
{
    s.insert(h)
}

/// Relies on slab's `Slab::get`: shared access to the value under a key,
/// when the key is occupied.
#[verifier::external_body]
pub fn slab_get<'a>(s: &'a slab::Slab<DirHandle>, k: usize) -> (r: Option<&'a DirHandle>)
    ensures
        (match r {
            Some(h) => dir_handles_of(*s).contains_key(k as int) && *h == dir_handles_of(
                *s,
            ).index(k as int),
            None => !dir_handles_of(*s).contains_key(k as int),
        }),
{
    s.get(k)
}

/// Relies on slab's `Slab::try_remove`: the value under the key, when
/// occupied, is removed and returned; the key becomes vacant.
#[verifier::external_body]
pub fn slab_try_remove(s: &mut slab::Slab<DirHandle>, k: usize) -> (r: Option<DirHandle>)
    ensures
        dir_handles_of(*final(s)) == dir_handles_of(*old(s)).remove(k as int),
        (match r {
            Some(h) => dir_handles_of(*old(s)).contains_key(k as int) && h == dir_handles_of(
                *old(s),
            ).index(k as int),
            None => !dir_handles_of(*old(s)).contains_key(k as int),
        }),
{
    s.try_remove(k)
}

} // verus!
