use vstd::prelude::*;

use crate::errno::Errno;
use crate::fs::{
    fetched_state, file_at, files_wf, getattr_spec, lemma_child_in_table, listing_step,
    lookup_local_spec, lookup_needs_fetch, make_node_check, make_node_state, name_to_ino_spec,
    AttrReply, EntryReply, FsV, InitV,
};
use crate::handles::{readdir_spec, snapshot_spec, take_entries, wire_size, wire_total, SnapV};
use crate::remote::RemoteEntryV;
use crate::table::{
    child_ino, dir_of, has_ino, inode_at, is_dir, lookup_bump, table_wf, ChildV, DirV, InodeV,
    KindV,
};

verus! {

/// Every child inode referenced by any directory exists in the inode
/// table.
pub proof fn lemma_children_exist(t: Seq<Option<InodeV>>, d: u64, j: int)
    requires
        table_wf(t),
        is_dir(t, d),
        0 <= j < dir_of(t, d).children.len(),
    ensures
        has_ino(t, dir_of(t, d).children[j].ino),
{
    assert(crate::table::inode_ok(t, d - 1));
    assert(crate::table::child_ok(t, d - 1, dir_of(t, d).children[j]));
}

/// Inode numbers are unique: each present inode carries the number of
/// its own slot, so two distinct slots never share a number; and every
/// issued number is at most the table's length, so the allocator's next
/// number (the length plus one) was never issued before.
pub proof fn lemma_inode_numbers_unique(t: Seq<Option<InodeV>>, i: int, j: int)
    requires
        table_wf(t),
        0 <= i < t.len(),
        0 <= j < t.len(),
        t[i] is Some,
        t[j] is Some,
    ensures
        inode_at(t, (i + 1) as u64).attr.ino == i + 1 <= t.len(),
        i != j ==> inode_at(t, (i + 1) as u64).attr.ino != inode_at(t, (j + 1) as u64).attr.ino,
{
    assert(crate::table::inode_ok(t, i));
    assert(crate::table::inode_ok(t, j));
}

/// The root inode is always `1` and always a directory.
pub proof fn lemma_root_directory(t: Seq<Option<InodeV>>)
    requires
        table_wf(t),
    ensures
        has_ino(t, 1),
        inode_at(t, 1).attr.ino == 1,
        inode_at(t, 1).kind is Dir,
        dir_of(t, 1).parent is None,
{
    assert(crate::table::inode_ok(t, 0));
}

/// Every regular-file inode has exactly one file-inode-map entry.
pub proof fn lemma_file_map_exact(
    t: Seq<Option<InodeV>>,
    files: Seq<crate::fs::FileRecV>,
    ino: u64,
)
    requires
        files_wf(t, files),
        has_ino(t, ino),
        inode_at(t, ino).kind is File,
    ensures
        exists|j: int| 0 <= j < files.len() && (#[trigger] files[j]).ino == ino,
        forall|j: int, k: int|
            0 <= j < files.len() && 0 <= k < files.len() && (#[trigger] files[j]).ino == ino && (
            #[trigger] files[k]).ino == ino ==> j == k,
{
    assert(file_at(t, ino - 1));
    let j = choose|j: int| 0 <= j < files.len() && (#[trigger] files[j]).ino == (ino - 1) + 1;
    assert(files[j].ino == ino);
}

/// Opendir followed by an unbounded Readdir yields the entry list
/// `.`, `..`, then the children in insertion order; Releasedir then
/// only removes the handle (see `do_releasedir`).
pub proof fn lemma_opendir_readdir_round_trip(self_ino: u64, d: DirV, size: int)
    requires
        wire_total(snapshot_spec(self_ino, d)) < size,
    ensures
        readdir_spec(snapshot_spec(self_ino, d), 0, size) == snapshot_spec(self_ino, d),
        snapshot_spec(self_ino, d).len() == 2 + d.children.len(),
        snapshot_spec(self_ino, d)[0].name == seq!['.'],
        snapshot_spec(self_ino, d)[0].ino == self_ino,
        snapshot_spec(self_ino, d)[1].name == seq!['.', '.'],
        forall|i: int|
            0 <= i < d.children.len() ==> (#[trigger] snapshot_spec(self_ino, d)[2 + i]).name
                == d.children[i].name && snapshot_spec(self_ino, d)[2 + i].ino
                == d.children[i].ino,
{
    let s = snapshot_spec(self_ino, d);
    assert(s.skip(0) =~= s);
    lemma_take_all(s, 0, size);
}

/// Entries all fit: the paging rule takes the whole remainder.
proof fn lemma_take_all(s: Seq<SnapV>, acc: int, size: int)
    requires
        acc + wire_total(s) < size,
    ensures
        take_entries(s, acc, size) == s,
    decreases s.len(),
{
    if s.len() > 0 {
        lemma_wire_total_nonneg(s.drop_first());
        lemma_take_all(s.drop_first(), acc + wire_size(s[0].name), size);
        assert(seq![s[0]] + s.drop_first() =~= s);
    }
}

/// Wire sizes are never negative.
proof fn lemma_wire_total_nonneg(s: Seq<SnapV>)
    ensures
        wire_total(s) >= 0,
    decreases s.len(),
{
    if s.len() > 0 {
        lemma_wire_total_nonneg(s.drop_first());
    }
}

/// Looking a name up twice returns the same inode number: neither the
/// reference-count bump of a lookup reply nor any directory population
/// changes an existing name binding.
pub proof fn lemma_lookup_idempotent(
    v: FsV,
    parent: u64,
    name: Seq<char>,
    dir: u64,
    es: Seq<RemoteEntryV>,
)
    requires
        name_to_ino_spec(v.inodes, parent, name) is Some,
    ensures
        name_to_ino_spec(fetched_state(v, dir, es).inodes, parent, name) == name_to_ino_spec(
            v.inodes,
            parent,
            name,
        ),
{
    lemma_apply_binding(v, dir, crate::fs::path_of(v.inodes, dir), es, parent, name);
    let v2 = crate::fs::apply_listing(v, dir, crate::fs::path_of(v.inodes, dir), es);
    lemma_set_pop_binding(v2.inodes, dir, parent, name);
}

/// The lookup reply's reference-count bump changes no name binding.
pub proof fn lemma_bump_preserves_bindings(
    t: Seq<Option<InodeV>>,
    p2: u64,
    n2: Seq<char>,
    parent: u64,
    name: Seq<char>,
)
    requires
        table_wf(t),
    ensures
        name_to_ino_spec(lookup_bump(t, p2, n2), parent, name) == name_to_ino_spec(
            t,
            parent,
            name,
        ),
{
    let t2 = lookup_bump(t, p2, n2);
    if is_dir(t, p2) && child_ino(dir_of(t, p2).children, n2) is Some {
        lemma_child_in_table(t, p2, n2);
        let c = match child_ino(dir_of(t, p2).children, n2) {
            Some(c) => c,
            None => arbitrary(),
        };
        assert(has_ino(t, c));
        assert(forall|i: int| 0 <= i < t.len() && i != c - 1 ==> t2[i] == t[i]);
        assert(inode_at(t2, c).kind == inode_at(t, c).kind);
        if is_dir(t, parent) {
            assert(dir_of(t2, parent).children == dir_of(t, parent).children);
        }
    }
}

/// Population changes no existing name binding: new children carry new
/// names (known names are silently skipped), so `Lookup(p, name)` after
/// any `fetch_remote` still finds the same inode.
proof fn lemma_apply_binding(
    v: FsV,
    dir: u64,
    ppath: Seq<char>,
    es: Seq<RemoteEntryV>,
    parent: u64,
    name: Seq<char>,
)
    requires
        name_to_ino_spec(v.inodes, parent, name) is Some,
    ensures
        name_to_ino_spec(
            crate::fs::apply_listing(v, dir, ppath, es).inodes,
            parent,
            name,
        ) == name_to_ino_spec(v.inodes, parent, name),
    decreases es.len(),
{
    if es.len() > 0 {
        lemma_step_binding(v, dir, ppath, es[0], parent, name);
        lemma_apply_binding(listing_step(v, dir, ppath, es[0]), dir, ppath, es.drop_first(), parent, name);
    }
}

/// One listing entry changes no existing name binding.
proof fn lemma_step_binding(
    v: FsV,
    dir: u64,
    ppath: Seq<char>,
    e: RemoteEntryV,
    parent: u64,
    name: Seq<char>,
)
    requires
        name_to_ino_spec(v.inodes, parent, name) is Some,
    ensures
        name_to_ino_spec(listing_step(v, dir, ppath, e).inodes, parent, name) == name_to_ino_spec(
            v.inodes,
            parent,
            name,
        ),
{
    match (e.name, e.kind) {
        (Some(nm), Some(k)) => {
            if k == crate::fs::str_file() {
                lemma_make_binding(
                    v,
                    dir,
                    nm,
                    InitV::File {
                        size: crate::fs::size_or_zero(e),
                        mtime_secs: crate::remote::mtime_or_zero(e),
                        path: crate::text::path_join(ppath, nm),
                    },
                    parent,
                    name,
                );
            } else if k == crate::fs::str_dir() {
                lemma_make_binding(
                    v,
                    dir,
                    nm,
                    InitV::Dir { mtime_secs: crate::remote::mtime_or_zero(e) },
                    parent,
                    name,
                );
            }
        },
        _ => {},
    }
}

/// One creation changes no existing name binding.
proof fn lemma_make_binding(
    v: FsV,
    p2: u64,
    n2: Seq<char>,
    init: InitV,
    parent: u64,
    name: Seq<char>,
)
    requires
        name_to_ino_spec(v.inodes, parent, name) is Some,
    ensures
        name_to_ino_spec(make_node_state(v, p2, n2, init).inodes, parent, name)
            == name_to_ino_spec(v.inodes, parent, name),
{
    let t = v.inodes;
    if make_node_check(t, p2, n2) is None {
        let t2 = make_node_state(v, p2, n2, init).inodes;
        assert(is_dir(t, parent));
        assert(forall|i: int| 0 <= i < t.len() && i != p2 - 1 ==> t2[i] == t[i]);
        if parent == p2 {
            assert(dir_of(t2, parent).children == dir_of(t, parent).children.push(
                ChildV { name: n2, ino: (t.len() + 1) as u64 },
            ));
            lemma_child_ino_push(
                dir_of(t, parent).children,
                name,
                ChildV { name: n2, ino: (t.len() + 1) as u64 },
            );
        } else {
            assert(t2[parent - 1] == t[parent - 1]);
            assert(dir_of(t2, parent).children == dir_of(t, parent).children);
        }
    }
}

/// Marking a directory populated changes no name binding.
proof fn lemma_set_pop_binding(t: Seq<Option<InodeV>>, dir: u64, parent: u64, name: Seq<char>)
    requires
        name_to_ino_spec(t, parent, name) is Some,
    ensures
        name_to_ino_spec(crate::fs::set_pop(t, dir), parent, name) == name_to_ino_spec(
            t,
            parent,
            name,
        ),
{
    let t2 = crate::fs::set_pop(t, dir);
    assert(is_dir(t, parent));
    if is_dir(t, dir) {
        assert(forall|i: int| 0 <= i < t.len() && i != dir - 1 ==> t2[i] == t[i]);
        assert(dir_of(t2, dir).children == dir_of(t, dir).children);
        if parent == dir {
            assert(dir_of(t2, parent).children == dir_of(t, parent).children);
        } else {
            assert(t2[parent - 1] == t[parent - 1]);
        }
    }
}

/// A binding found stays found after a new child is appended.
proof fn lemma_child_ino_push(cs: Seq<ChildV>, name: Seq<char>, x: ChildV)
    requires
        child_ino(cs, name) is Some,
    ensures
        child_ino(cs.push(x), name) == child_ino(cs, name),
    decreases cs.len(),
{
    if cs.len() > 0 {
        assert(cs.push(x)[0] == cs[0]);
        if cs[0].name == name {
        } else {
            assert(cs.push(x).drop_first() =~= cs.drop_first().push(x));
            lemma_child_ino_push(cs.drop_first(), name, x);
        }
    }
}

/// One table grows out of another: present slots stay present with the
/// same kind and parent link, and a directory's children only gain a
/// suffix. Lookup counts and population flags are free to change.
pub open spec fn slot_grows(a: Option<InodeV>, b: Option<InodeV>) -> bool {
    match (a, b) {
        (None, None) => true,
        (Some(x), Some(y)) => {
            match (x.kind, y.kind) {
                (KindV::Dir(d1), KindV::Dir(d2)) => {
                    &&& d2.parent == d1.parent
                    &&& d1.children.len() <= d2.children.len()
                    &&& d2.children.take(d1.children.len() as int) == d1.children
                },
                (KindV::File, KindV::File) => true,
                _ => false,
            }
        },
        _ => false,
    }
}

/// Pointwise growth over the old table's slots.
pub open spec fn table_grows(t: Seq<Option<InodeV>>, u: Seq<Option<InodeV>>) -> bool {
    &&& t.len() <= u.len()
    &&& (forall|i: int| 0 <= i < t.len() ==> #[trigger] slot_grows(t[i], u[i]))
}

/// Growth is reflexive.
proof fn lemma_slot_grows_refl(a: Option<InodeV>)
    ensures
        slot_grows(a, a),
{
    match a {
        Some(x) => match x.kind {
            KindV::Dir(d) => {
                assert(d.children.take(d.children.len() as int) =~= d.children);
            },
            KindV::File => {},
        },
        None => {},
    }
}

/// Growth composes.
proof fn lemma_table_grows_trans(
    t: Seq<Option<InodeV>>,
    u: Seq<Option<InodeV>>,
    v: Seq<Option<InodeV>>,
)
    requires
        table_grows(t, u),
        table_grows(u, v),
    ensures
        table_grows(t, v),
{
    assert forall|i: int| 0 <= i < t.len() implies #[trigger] slot_grows(t[i], v[i]) by {
        assert(slot_grows(t[i], u[i]));
        assert(slot_grows(u[i], v[i]));
        match (t[i], u[i], v[i]) {
            (Some(x), Some(y), Some(z)) => {
                match (x.kind, y.kind, z.kind) {
                    (KindV::Dir(d1), KindV::Dir(d2), KindV::Dir(d3)) => {
                        assert(d3.children.take(d1.children.len() as int) =~= d3.children.take(
                            d2.children.len() as int,
                        ).take(d1.children.len() as int));
                        assert(d3.children.take(d1.children.len() as int) =~= d1.children);
                    },
                    _ => {},
                }
            },
            _ => {},
        }
    };
}

/// A creation only grows the table.
proof fn lemma_make_grows(v: FsV, p2: u64, n2: Seq<char>, init: InitV)
    ensures
        table_grows(v.inodes, make_node_state(v, p2, n2, init).inodes),
{
    let t = v.inodes;
    let u = make_node_state(v, p2, n2, init).inodes;
    if make_node_check(t, p2, n2) is Some {
        assert forall|i: int| 0 <= i < t.len() implies #[trigger] slot_grows(t[i], u[i]) by {
            lemma_slot_grows_refl(t[i]);
        };
    } else {
        assert(has_ino(t, p2));
        assert forall|i: int| 0 <= i < t.len() implies #[trigger] slot_grows(t[i], u[i]) by {
            if i == p2 - 1 {
                let d1 = dir_of(t, p2);
                assert(d1.children.push(
                    ChildV { name: n2, ino: (t.len() + 1) as u64 },
                ).take(d1.children.len() as int) =~= d1.children);
            } else {
                assert(u[i] == t[i]);
                lemma_slot_grows_refl(t[i]);
            }
        };
    }
}

/// One listing entry only grows the table.
proof fn lemma_step_grows(v: FsV, dir: u64, ppath: Seq<char>, e: RemoteEntryV)
    ensures
        table_grows(v.inodes, listing_step(v, dir, ppath, e).inodes),
{
    match (e.name, e.kind) {
        (Some(nm), Some(k)) => {
            if k == crate::fs::str_file() {
                lemma_make_grows(
                    v,
                    dir,
                    nm,
                    InitV::File {
                        size: crate::fs::size_or_zero(e),
                        mtime_secs: crate::remote::mtime_or_zero(e),
                        path: crate::text::path_join(ppath, nm),
                    },
                );
            } else if k == crate::fs::str_dir() {
                lemma_make_grows(v, dir, nm, InitV::Dir {
                    mtime_secs: crate::remote::mtime_or_zero(e),
                });
            } else {
                lemma_grows_refl(v.inodes);
            }
        },
        _ => {
            lemma_grows_refl(v.inodes);
        },
    }
}

/// Growth is reflexive, tablewise.
proof fn lemma_grows_refl(t: Seq<Option<InodeV>>)
    ensures
        table_grows(t, t),
{
    assert forall|i: int| 0 <= i < t.len() implies #[trigger] slot_grows(t[i], t[i]) by {
        lemma_slot_grows_refl(t[i]);
    };
}

/// A whole listing only grows the table.
proof fn lemma_apply_grows(v: FsV, dir: u64, ppath: Seq<char>, es: Seq<RemoteEntryV>)
    ensures
        table_grows(v.inodes, crate::fs::apply_listing(v, dir, ppath, es).inodes),
    decreases es.len(),
{
    if es.len() == 0 {
        lemma_grows_refl(v.inodes);
    } else {
        lemma_step_grows(v, dir, ppath, es[0]);
        lemma_apply_grows(listing_step(v, dir, ppath, es[0]), dir, ppath, es.drop_first());
        lemma_table_grows_trans(
            v.inodes,
            listing_step(v, dir, ppath, es[0]).inodes,
            crate::fs::apply_listing(v, dir, ppath, es).inodes,
        );
    }
}

/// Marking a directory populated only grows the table.
proof fn lemma_set_pop_grows(t: Seq<Option<InodeV>>, dir: u64)
    ensures
        table_grows(t, crate::fs::set_pop(t, dir)),
{
    let u = crate::fs::set_pop(t, dir);
    assert forall|i: int| 0 <= i < t.len() implies #[trigger] slot_grows(t[i], u[i]) by {
        if is_dir(t, dir) && i == dir - 1 {
            let d = dir_of(t, dir);
            assert(d.children.take(d.children.len() as int) =~= d.children);
        } else {
            assert(u[i] == t[i]);
            lemma_slot_grows_refl(t[i]);
        }
    };
}

/// A first name found in the old children is still the first name after
/// new children are appended.
proof fn lemma_first_name_prefix(cs1: Seq<ChildV>, cs2: Seq<ChildV>, c: u64)
    requires
        cs1.len() <= cs2.len(),
        cs2.take(cs1.len() as int) == cs1,
        crate::table::first_name(cs1, c) is Some,
    ensures
        crate::table::first_name(cs2, c) == crate::table::first_name(cs1, c),
    decreases cs1.len(),
{
    assert(cs2[0] == cs1[0]);
    if cs1[0].ino == c {
    } else {
        assert(cs2.drop_first().take(cs1.drop_first().len() as int) =~= cs1.drop_first());
        lemma_first_name_prefix(cs1.drop_first(), cs2.drop_first(), c);
    }
}

/// A directory's reconstructed path does not change when the table
/// grows: its ancestors, and its names in them, are already fixed.
proof fn lemma_path_grows(t: Seq<Option<InodeV>>, u: Seq<Option<InodeV>>, ino: u64)
    requires
        table_wf(t),
        table_grows(t, u),
        is_dir(t, ino),
    ensures
        crate::fs::path_of(u, ino) == crate::fs::path_of(t, ino),
    decreases ino,
{
    if ino != 1 {
        assert(crate::table::inode_ok(t, ino - 1));
        assert(slot_grows(t[ino - 1], u[ino - 1]));
        let p = match dir_of(t, ino).parent {
            Some(p) => p,
            None => arbitrary(),
        };
        assert(1 <= p < ino);
        assert(is_dir(t, p));
        assert(slot_grows(t[p - 1], u[p - 1]));
        let cs1 = dir_of(t, p).children;
        let cs2 = dir_of(u, p).children;
        let j = choose|j: int|
            0 <= j < dir_of(t, p).children.len() && (#[trigger] dir_of(t, p).children[j]).ino
                == ino - 1 + 1;
        assert(cs1[j].ino == ino);
        crate::fs::lemma_first_name_exists(cs1, ino);
        lemma_first_name_prefix(cs1, cs2, ino);
        assert(crate::fs::name_in(u, p, ino) == crate::fs::name_in(t, p, ino));
        lemma_path_grows(t, u, p);
        assert(is_dir(u, ino));
        assert(dir_of(u, ino).parent == Some(p));
    }
}

/// The path reconstructor's output for a directory is stable: any later
/// population (of any directory, this one included) and the marking of
/// populated directories leave it unchanged, so a LIST issued for it
/// reaches the same remote resource as when it was created.
pub proof fn lemma_paths_stable(v: FsV, dir: u64, es: Seq<RemoteEntryV>, d: u64)
    requires
        table_wf(v.inodes),
        is_dir(v.inodes, d),
    ensures
        crate::fs::path_of(fetched_state(v, dir, es).inodes, d) == crate::fs::path_of(
            v.inodes,
            d,
        ),
{
    let ppath = crate::fs::path_of(v.inodes, dir);
    let v2 = crate::fs::apply_listing(v, dir, ppath, es);
    lemma_apply_grows(v, dir, ppath, es);
    lemma_set_pop_grows(v2.inodes, dir);
    lemma_table_grows_trans(v.inodes, v2.inodes, crate::fs::set_pop(v2.inodes, dir));
    lemma_path_grows(v.inodes, fetched_state(v, dir, es).inodes, d);
}

/// The lookup reply's reference-count bump leaves every directory's
/// reconstructed path unchanged as well.
pub proof fn lemma_paths_stable_lookup(
    t: Seq<Option<InodeV>>,
    p2: u64,
    n2: Seq<char>,
    d: u64,
)
    requires
        table_wf(t),
        is_dir(t, d),
    ensures
        crate::fs::path_of(lookup_bump(t, p2, n2), d) == crate::fs::path_of(t, d),
{
    let u = lookup_bump(t, p2, n2);
    if is_dir(t, p2) && child_ino(dir_of(t, p2).children, n2) is Some {
        lemma_child_in_table(t, p2, n2);
    }
    assert(u.len() == t.len());
    assert forall|i: int| 0 <= i < t.len() implies #[trigger] slot_grows(t[i], u[i]) by {
        lemma_slot_grows_refl(t[i]);
    };
    lemma_path_grows(t, u, d);
}

/// Getattr immediately after a successful Lookup returns attributes
/// equal to those embedded in the Lookup reply (TTL fields aside, which
/// are the same configured constant).
pub proof fn lemma_getattr_after_lookup(
    t: Seq<Option<InodeV>>,
    parent: u64,
    name: Seq<char>,
    ttl: u64,
)
    requires
        table_wf(t),
        lookup_local_spec(t, parent, name, ttl) is Ok,
    ensures
        (match lookup_local_spec(t, parent, name, ttl) {
            Ok(rep) => getattr_spec(lookup_bump(t, parent, name), rep.ino, ttl) == Ok::<
                AttrReply,
                Errno,
            >(AttrReply { attr: rep.attr, ttl_secs: ttl }),
            Err(_) => true,
        }),
{
    lemma_child_in_table(t, parent, name);
    let c = match child_ino(dir_of(t, parent).children, name) {
        Some(c) => c,
        None => arbitrary(),
    };
    let t2 = lookup_bump(t, parent, name);
    assert(t2[c - 1] is Some);
    assert(inode_at(t2, c).attr == inode_at(t, c).attr);
}

/// Readdir with an offset at or past the snapshot's end returns the
/// empty list.
pub proof fn lemma_readdir_past_end(snap: Seq<SnapV>, offset: int, size: int)
    requires
        offset >= snap.len(),
    ensures
        readdir_spec(snap, offset, size) == Seq::<SnapV>::empty(),
{
}

/// Readdir with a size not strictly larger than the first entry's wire
/// size returns the empty list: the `< size` test is strict.
pub proof fn lemma_readdir_size_strict(snap: Seq<SnapV>, offset: int, size: int)
    requires
        0 <= offset < snap.len(),
        wire_size(snap[offset].name) >= size,
    ensures
        readdir_spec(snap, offset, size) == Seq::<SnapV>::empty(),
{
    assert(snap.skip(offset).len() > 0);
    assert(snap.skip(offset)[0] == snap[offset]);
}

/// Lookup of a name that is not locally bound issues no remote request
/// and returns no-entry, leaving the state unchanged.
pub proof fn lemma_unknown_name_no_fetch(
    t: Seq<Option<InodeV>>,
    parent: u64,
    name: Seq<char>,
    ttl: u64,
)
    requires
        is_dir(t, parent),
        child_ino(dir_of(t, parent).children, name) is None,
    ensures
        lookup_needs_fetch(t, parent, name) is None,
        lookup_local_spec(t, parent, name, ttl) == Err::<EntryReply, Errno>(Errno::NoEntry),
        lookup_bump(t, parent, name) == t,
{
}

} // verus!
