//! What adding and freeing records of an nkfs directory guarantee: an
//! added name is then found there, a freed one no longer is.
use vstd::prelude::*;
use crate::bytes::{le16, le32, put_le};
use crate::disk::splice;
use crate::nkfs::{align4, dot, dotdot, listing, append_effect, blocks_for, dir_data, dir_record, entry_walk, extent_written, inode_byte_offset,
    inode_record, inode_record_at, inode_spec, inode_writable, lookup, record_walk, removal, removal_disk, slot_walk, zeros,
    Inode, Superblock, DIR_CAP};

verus! {

/// Whether the records of `data`, from `off` on, follow one another up to
/// its end exactly (no bytes left over after the last one).
pub open spec fn records_fill(data: Seq<u8>, off: int) -> bool
    decreases data.len() - off,
{
    if off == data.len() {
        true
    } else if off < 0 || off + 8 > data.len() {
        false
    } else {
        let entry_len = align4(8 + le16(data, off + 4));
        if entry_len <= 0 { false } else { off + entry_len <= data.len() && records_fill(data, off + entry_len) }
    }
}

proof fn lemma_align4_shift(off: int, x: int)
    requires off % 4 == 0, x >= 0, off >= 0,
    ensures
        align4(off + x) == off + align4(x),
        x <= align4(x) <= x + 3,
        align4(x) % 4 == 0,
{
    assert((off + x) % 4 == x % 4) by (nonlinear_arith) requires off % 4 == 0, x >= 0, off >= 0;
}

/// The fields of a record as `dir_record` lays it out.
proof fn lemma_record_fields(name: Seq<u8>, inode: u32, kind: u16, len: nat)
    requires name.len() < 65536, 8 + name.len() <= len,
    ensures ({
        let rec = dir_record(name, inode, kind, len);
        &&& rec.len() == len
        &&& le32(rec, 0) == inode
        &&& le16(rec, 4) == name.len()
        &&& le16(rec, 6) == kind
        &&& rec.subrange(8, 8 + name.len() as int) == name
    }),
{
    let z = Seq::new(len, |i: int| 0u8);
    let a = put_le(z, 0, inode as int, 4);
    let b = put_le(a, 4, name.len() as int, 2);
    let c = put_le(b, 6, kind as int, 2);
    let rec = splice(c, 8, name);
    crate::bytes::lemma_le32_roundtrip(z, 0, inode);
    crate::bytes::lemma_le16_roundtrip(a, 4, name.len() as u16);
    crate::bytes::lemma_le16_roundtrip(b, 6, kind);
    assert(le32(rec, 0) == le32(a, 0));
    assert(le16(rec, 4) == le16(b, 4));
    assert(le16(rec, 6) == le16(c, 6));
    assert(rec.subrange(8, 8 + name.len() as int) =~= name);
}

/// A record put at the end of records that fill their data is found by a
/// walk that did not find the name before.
proof fn lemma_walk_appended(data: Seq<u8>, name: Seq<u8>, inode: u32, kind: u16, off: int)
    requires
        records_fill(data, off), 0 <= off <= data.len(), off % 4 == 0,
        entry_walk(data, name, off) is None,
        kind != 0, name.len() < 65536,
    ensures
        entry_walk(data + dir_record(name, inode, kind, align4(8 + name.len() as int) as nat), name, off) == Some(inode),
    decreases data.len() - off,
{
    let rl = align4(8 + name.len() as int);
    lemma_align4_shift(off, 8 + name.len() as int);
    let rec = dir_record(name, inode, kind, rl as nat);
    lemma_record_fields(name, inode, kind, rl as nat);
    let all = data + rec;
    if off == data.len() {
        assert(le16(all, off + 4) == le16(rec, 4));
        assert(le16(all, off + 6) == le16(rec, 6));
        assert(le32(all, off) == le32(rec, 0));
        assert(all.subrange(off + 8, off + 8 + name.len()) =~= rec.subrange(8, 8 + name.len() as int));
    } else {
        let nl = le16(data, off + 4);
        lemma_align4_shift(off, 8 + nl);
        let next = off + align4(8 + nl);
        assert(le16(all, off + 4) == nl);
        assert(le16(all, off + 6) == le16(data, off + 6));
        assert(all.subrange(off + 8, off + 8 + nl) =~= data.subrange(off + 8, off + 8 + nl));
        lemma_walk_appended(data, name, inode, kind, next);
    }
}

/// Where a slot search that succeeds stops lies at or after where it began.
proof fn lemma_slot_after(data: Seq<u8>, record_len: int, off: int)
    requires slot_walk(data, record_len, off) matches Some(Some(at)),
    ensures off <= slot_walk(data, record_len, off)->0->0,
    decreases data.len() - off,
{
    let entry_len = align4(8 + le16(data, off + 4));
    if off < 0 || off + 8 > data.len() {
    } else if off + entry_len > data.len() {
    } else if le16(data, off + 6) == 0 && entry_len >= record_len {
    } else if entry_len > 0 {
        lemma_slot_after(data, record_len, off + entry_len);
    }
}

/// A record put in the free slot a slot search finds is found by a walk
/// that did not find the name before.
proof fn lemma_walk_reused(data: Seq<u8>, name: Seq<u8>, inode: u32, kind: u16, off: int, at: int)
    requires
        0 <= off, off % 4 == 0,
        slot_walk(data, align4(8 + name.len() as int), off) == Some(Some(at)),
        entry_walk(data, name, off) is None,
        kind != 0, name.len() < 65536,
    ensures ({
        let entry_len = align4(8 + le16(data, at + 4));
        entry_walk(splice(data, at, dir_record(name, inode, kind, entry_len as nat)), name, off) == Some(inode)
    }),
    decreases data.len() - off,
{
    let rl = align4(8 + name.len() as int);
    let entry_len = align4(8 + le16(data, at + 4));
    let rec = dir_record(name, inode, kind, entry_len as nat);
    let new = splice(data, at, rec);
    lemma_align4_shift(off, 8 + name.len() as int);
    let own = align4(8 + le16(data, off + 4));
    lemma_align4_shift(off, 8 + le16(data, off + 4));
    if off == at {
        if !(le16(data, off + 6) == 0 && own >= rl) && off + own <= data.len() {
            lemma_slot_after(data, rl, off + own);
        }
        assert(entry_len >= rl);
        lemma_record_fields(name, inode, kind, entry_len as nat);
        assert(le16(new, off + 4) == le16(rec, 4));
        assert(le16(new, off + 6) == le16(rec, 6));
        assert(le32(new, off) == le32(rec, 0));
        assert(new.subrange(off + 8, off + 8 + name.len()) =~= rec.subrange(8, 8 + name.len() as int));
    } else {
        lemma_slot_after(data, rl, off + own);
        let nl = le16(data, off + 4);
        assert(le16(new, off + 4) == nl);
        assert(le16(new, off + 6) == le16(data, off + 6));
        assert(new.subrange(off + 8, off + 8 + nl) =~= data.subrange(off + 8, off + 8 + nl));
        lemma_walk_reused(data, name, inode, kind, off + own, at);
    }
}

/// Inode `n` reads the same from two disks of one length that agree on its
/// record.
proof fn lemma_record_kept(a: Seq<u8>, b: Seq<u8>, fs: Superblock, n: u32)
    requires
        a.len() == b.len(),
        forall|i: int| inode_record_at(fs, n) <= i < inode_record_at(fs, n) + 128 && 0 <= i < a.len() ==> a[i] == b[i],
    ensures inode_spec(a, fs, n) == inode_spec(b, fs, n),
{
    let at = inode_record_at(fs, n);
    if inode_spec(a, fs, n) is Some {
        assert(a[at] == b[at] && a[at + 1] == b[at + 1]);
        assert(a[at + 8] == b[at + 8] && a[at + 9] == b[at + 9] && a[at + 10] == b[at + 10] && a[at + 11] == b[at + 11]);
        assert(a[at + 12] == b[at + 12] && a[at + 13] == b[at + 13] && a[at + 14] == b[at + 14] && a[at + 15] == b[at + 15]);
        assert(a[at + 16] == b[at + 16] && a[at + 17] == b[at + 17] && a[at + 18] == b[at + 18] && a[at + 19] == b[at + 19]);
        assert(a[at + 20] == b[at + 20] && a[at + 21] == b[at + 21] && a[at + 22] == b[at + 22] && a[at + 23] == b[at + 23]);
    }
}

proof fn lemma_blocks_bound(size: int)
    requires 0 <= size <= DIR_CAP,
    ensures blocks_for(if size == 0 { 1 } else { size }) * 512 <= DIR_CAP,
{
    let x = if size == 0 { 1 } else { size };
    assert(crate::bytes::spec_align_up(x, 512) <= 8192) by (nonlinear_arith)
        requires 1 <= x <= 8192, crate::bytes::spec_align_up(x, 512) == if x % 512 == 0 { x } else { x + (512 - x % 512) };
    assert(crate::bytes::spec_align_up(x, 512) % 512 == 0) by (nonlinear_arith)
        requires crate::bytes::spec_align_up(x, 512) == if x % 512 == 0 { x } else { x + (512 - x % 512) };
}

/// An added record is found: when `append_effect` adds the record
/// `name -> inode` (of a kind that is not free) to directory `dir`, which
/// did not list `name` and whose records fill its data, the directory as
/// the inode table holds it afterwards lists `name` as `inode`. (Left out:
/// a directory whose own inode record lies in the first `DIR_CAP` bytes of
/// its extent, which the write then overwrites.)
#[verifier::rlimit(50)]
#[verifier::spinoff_prover]
pub proof fn lemma_added_entry_found(disk: Seq<u8>, fs: Superblock, dir: Inode, name: Seq<u8>, inode: u32, kind: u16)
    requires
        append_effect(disk, fs, dir, name, inode, kind).0,
        inode_spec(disk, fs, dir.number) == Some(dir),
        kind != 0,
        name.len() <= 255,
        dir_data(disk, dir) is Some,
        records_fill(dir_data(disk, dir).unwrap(), 0),
        lookup(disk, dir, name) is None,
        inode_record_at(fs, dir.number) + 128 <= dir.extent_start as int * 512
            || dir.extent_start as int * 512 + DIR_CAP <= inode_record_at(fs, dir.number),
    ensures ({
        let d = append_effect(disk, fs, dir, name, inode, kind).1;
        &&& inode_spec(d, fs, dir.number) is Some
        &&& lookup(d, inode_spec(d, fs, dir.number).unwrap(), name) == Some(inode)
    }),
{
    let data = dir_data(disk, dir).unwrap();
    let size = dir.size as int;
    let rl = align4(8 + name.len() as int);
    let buffer = data + zeros((DIR_CAP - size) as nat);
    let base = dir.extent_start as int * 512;
    let at = inode_record_at(fs, dir.number);
    let d = append_effect(disk, fs, dir, name, inode, kind).1;
    match slot_walk(data, rl, 0) {
        None => {},
        Some(Some(slot)) => {
            let entry_len = align4(8 + le16(data, slot + 4));
            let rec = dir_record(name, inode, kind, entry_len as nat);
            let new = splice(buffer, slot, rec);
            lemma_slot_after(data, rl, 0);
            lemma_walk_reused(data, name, inode, kind, 0, slot);
            lemma_blocks_bound(size);
            assert(d == extent_written(disk, dir.extent_start, size, new));
            lemma_record_kept(d, disk, fs, dir.number);
            assert(dir_data(d, dir) == Some(d.subrange(base, base + size)));
            assert(d.subrange(base, base + size) =~= splice(data, slot, rec));
        },
        Some(None) => {
            let next_size = size + rl;
            let grown = Inode { size: next_size as usize, ..dir };
            let rec = dir_record(name, inode, kind, rl as nat);
            let written = extent_written(disk, dir.extent_start, next_size, splice(buffer, size, rec));
            lemma_walk_appended(data, name, inode, kind, 0);
            crate::nkfs::lemma_inode_record_roundtrip(written, fs, grown);
            assert(d == crate::disk::splice(written, at, inode_record(grown)));
            assert(inode_spec(d, fs, dir.number) == Some(grown));
            assert(dir_data(d, grown) == Some(d.subrange(base, base + next_size)));
            assert(d.subrange(base, base + next_size) =~= data + rec);
        },
    }
}

/// The names a directory lists: those of its live records (kind not 0),
/// in record order, leaving out `.` and `..`.
pub open spec fn live_names(data: Seq<u8>, off: int) -> Seq<Seq<u8>>
    decreases data.len() - off,
{
    if off < 0 || off + 8 > data.len() {
        Seq::empty()
    } else {
        let nl = le16(data, off + 4);
        let next = align4(off + 8 + nl);
        if next > data.len() || next <= off {
            Seq::empty()
        } else {
            let name = data.subrange(off + 8, off + 8 + nl);
            if le16(data, off + 6) != 0 && name != dot() && name != dotdot() {
                seq![name] + live_names(data, next)
            } else {
                live_names(data, next)
            }
        }
    }
}

/// Names laid out in lines of columns: each name followed by two spaces,
/// or by a line break once the line reaches 64 columns; a last line break
/// when the last line is not empty.
pub open spec fn columns(names: Seq<Seq<u8>>, col: int) -> Seq<u8>
    decreases names.len(),
{
    if names.len() == 0 {
        if col != 0 { seq![10u8] } else { Seq::empty() }
    } else {
        let c = col + names[0].len();
        if c >= 64 {
            names[0] + seq![10u8] + columns(names.drop_first(), 0)
        } else {
            names[0] + seq![32u8, 32u8] + columns(names.drop_first(), c + 2)
        }
    }
}

/// A directory listing lays out the live names of the directory in
/// columns.
pub proof fn lemma_listing_columns(data: Seq<u8>, off: int, col: int)
    ensures listing(data, off, col) == columns(live_names(data, off), col),
    decreases data.len() - off,
{
    if off < 0 || off + 8 > data.len() {
    } else {
        let nl = le16(data, off + 4);
        let next = align4(off + 8 + nl);
        if next > data.len() || next <= off {
        } else {
            let name = data.subrange(off + 8, off + 8 + nl);
            let rest = live_names(data, next);
            if le16(data, off + 6) != 0 && name != dot() && name != dotdot() {
                let c = col + name.len();
                assert((seq![name] + rest)[0] == name);
                assert((seq![name] + rest).drop_first() =~= rest);
                if c >= 64 {
                    lemma_listing_columns(data, next, 0);
                } else {
                    lemma_listing_columns(data, next, c + 2);
                }
            } else {
                lemma_listing_columns(data, next, col);
            }
        }
    }
}

/// A directory lists exactly the names a lookup finds in it, other than
/// `.` and `..`: a freed record (kind 0) is never listed.
pub proof fn lemma_listed_iff_found(data: Seq<u8>, name: Seq<u8>, off: int)
    ensures
        live_names(data, off).contains(name)
            <==> (entry_walk(data, name, off) is Some && name != dot() && name != dotdot()),
    decreases data.len() - off,
{
    if off < 0 || off + 8 > data.len() {
    } else {
        let nl = le16(data, off + 4);
        let next = align4(off + 8 + nl);
        if next > data.len() || next <= off {
        } else {
            let here = data.subrange(off + 8, off + 8 + nl);
            let rest = live_names(data, next);
            lemma_listed_iff_found(data, name, next);
            if le16(data, off + 6) != 0 && here != dot() && here != dotdot() {
                let all = seq![here] + rest;
                assert(all[0] == here);
                if all.contains(name) && here != name {
                    let i = choose|i: int| 0 <= i < all.len() && all[i] == name;
                    assert(rest[i - 1] == name);
                }
                if rest.contains(name) {
                    let i = choose|i: int| 0 <= i < rest.len() && rest[i] == name;
                    assert(all[i + 1] == name);
                }
            }
        }
    }
}

/// Where the record at `off` ends (the next one starts).
pub open spec fn record_end(data: Seq<u8>, off: int) -> int {
    align4(off + 8 + le16(data, off + 4))
}

/// Whether no live record of `data`, from `off` on, is named `name` with a
/// kind other than `kind`.
pub open spec fn no_other_kind(data: Seq<u8>, name: Seq<u8>, kind: u16, off: int) -> bool {
    forall|k: u16| k != 0 && k != kind ==> #[trigger] record_walk(data, name, k, off) is None
}

/// Where a record search that succeeds stops lies at or after where it
/// began.
proof fn lemma_record_after(data: Seq<u8>, name: Seq<u8>, kind: u16, off: int)
    requires record_walk(data, name, kind, off) is Some,
    ensures off <= record_walk(data, name, kind, off).unwrap(),
    decreases data.len() - off,
{
    if off >= 0 && off + 8 <= data.len() {
        let next = record_end(data, off);
        if next <= data.len() && !(le16(data, off + 6) == kind && data.subrange(off + 8, off + 8 + le16(data, off + 4)) == name) && next > off {
            lemma_record_after(data, name, kind, next);
        }
    }
}

/// Stepping past a record that does not match keeps `no_other_kind`.
proof fn lemma_no_other_step(data: Seq<u8>, name: Seq<u8>, kind: u16, off: int)
    requires
        no_other_kind(data, name, kind, off),
        0 <= off, off + 8 <= data.len(),
        record_end(data, off) <= data.len(),
        record_end(data, off) > off,
        !(le16(data, off + 6) != 0 && le16(data, off + 6) != kind && data.subrange(off + 8, off + 8 + le16(data, off + 4)) == name),
    ensures no_other_kind(data, name, kind, record_end(data, off)),
{
    assert forall|k: u16| k != 0 && k != kind implies #[trigger] record_walk(data, name, k, record_end(data, off)) is None by {
        assert(record_walk(data, name, k, off) is None);
    }
}

/// With no live record named `name` from `off` on, a walk over data that
/// agrees from `off` on finds nothing either.
proof fn lemma_walk_none(data: Seq<u8>, new: Seq<u8>, name: Seq<u8>, kind: u16, off: int)
    requires
        0 <= off, new.len() == data.len(),
        forall|i: int| off <= i < data.len() ==> new[i] == data[i],
        record_walk(data, name, kind, off) is None,
        no_other_kind(data, name, kind, off),
    ensures entry_walk(new, name, off) is None,
    decreases data.len() - off,
{
    if off + 8 <= data.len() {
        let nl = le16(data, off + 4);
        let next = record_end(data, off);
        assert(le16(new, off + 4) == nl);
        assert(le16(new, off + 6) == le16(data, off + 6));
        if next <= data.len() {
            assert(new.subrange(off + 8, off + 8 + nl) =~= data.subrange(off + 8, off + 8 + nl));
            let k = le16(data, off + 6) as u16;
            if k != 0 && data.subrange(off + 8, off + 8 + nl) == name {
                assert(record_walk(data, name, k, off) is Some);
            }
            if next > off {
                lemma_no_other_step(data, name, kind, off);
                lemma_walk_none(data, new, name, kind, next);
            }
        }
    }
}

/// Freeing the record a search for `name` of `kind` found leaves no live
/// record named `name`, when no other one was.
proof fn lemma_walk_freed(data: Seq<u8>, name: Seq<u8>, kind: u16, off: int, roff: int)
    requires
        0 <= off, kind != 0,
        record_walk(data, name, kind, off) == Some(roff),
        no_other_kind(data, name, kind, off),
        record_walk(data, name, kind, record_end(data, roff)) is None,
    ensures entry_walk(put_le(data, roff + 6, 0, 2), name, off) is None,
    decreases data.len() - off,
{
    let new = put_le(data, roff + 6, 0, 2);
    let nl = le16(data, off + 4);
    let next = record_end(data, off);
    lemma_record_after(data, name, kind, off);
    assert(new[off + 4] == data[off + 4] && new[off + 5] == data[off + 5]);
    assert(le16(new, off + 4) == nl);
    assert(new.subrange(off + 8, off + 8 + nl) =~= data.subrange(off + 8, off + 8 + nl)) by {
        if off < roff {
            lemma_record_after(data, name, kind, next);
        }
    }
    if off == roff {
        assert(new[roff + 6] == 0 && new[roff + 7] == 0) by {
            crate::bytes::lemma_le16_roundtrip(data, roff + 6, 0);
        }
        assert(le16(new, off + 6) == 0);
        lemma_no_other_step(data, name, kind, off);
        lemma_walk_none(data, new, name, kind, next);
    } else {
        lemma_record_after(data, name, kind, next);
        assert(le16(new, off + 6) == le16(data, off + 6));
        let k = le16(data, off + 6) as u16;
        if k != 0 && data.subrange(off + 8, off + 8 + nl) == name {
            assert(record_walk(data, name, k, off) is Some);
        }
        lemma_no_other_step(data, name, kind, off);
        lemma_walk_freed(data, name, kind, next, roff);
    }
}

/// A freed record is no longer found: after the record `name` of `kind`
/// (not free) is freed in directory `dir`, the directory, which the inode
/// table still holds as it was, no longer lists `name`. (Left out: a
/// directory that lists `name` more than once, and one whose own inode
/// record lies in the first `DIR_CAP` bytes of its extent.)
#[verifier::rlimit(50)]
#[verifier::spinoff_prover]
pub proof fn lemma_freed_entry_gone(disk: Seq<u8>, fs: Superblock, dir: Inode, name: Seq<u8>, kind: u16)
    requires
        removal(disk, dir, name, kind) is Some,
        inode_spec(disk, fs, dir.number) == Some(dir),
        kind != 0,
        no_other_kind(dir_data(disk, dir).unwrap(), name, kind, 0),
        record_walk(dir_data(disk, dir).unwrap(), name, kind,
            record_end(dir_data(disk, dir).unwrap(), removal(disk, dir, name, kind).unwrap().0)) is None,
        inode_record_at(fs, dir.number) + 128 <= dir.extent_start as int * 512
            || dir.extent_start as int * 512 + DIR_CAP <= inode_record_at(fs, dir.number),
    ensures
        inode_spec(removal_disk(disk, dir, name, kind), fs, dir.number) == Some(dir),
        lookup(removal_disk(disk, dir, name, kind), dir, name) is None,
        dir_data(removal_disk(disk, dir, name, kind), dir) is Some,
        !live_names(dir_data(removal_disk(disk, dir, name, kind), dir).unwrap(), 0).contains(name),
{
    let data = dir_data(disk, dir).unwrap();
    let roff = removal(disk, dir, name, kind).unwrap().0;
    let size = dir.size as int;
    let base = dir.extent_start as int * 512;
    let new = put_le(data, roff + 6, 0, 2);
    let d = removal_disk(disk, dir, name, kind);
    lemma_walk_freed(data, name, kind, 0, roff);
    lemma_blocks_bound(size);
    assert(d == extent_written(disk, dir.extent_start, size, new));
    lemma_record_kept(d, disk, fs, dir.number);
    assert(dir_data(d, dir) == Some(d.subrange(base, base + size)));
    assert(d.subrange(base, base + size) =~= new);
    lemma_listed_iff_found(new, name, 0);
}

} // verus!
