//! The decisions of the file system's operations, apart from the database and the system
//! calls that carry them out.

use vstd::prelude::*;

use crate::case_fold_fs::file_type::{fuser_of, FileKind, FileType, FuserKind};
use crate::case_fold_fs::fold::{case_fold, case_fold_spec};
use crate::nested::{file_name_spec, law_file_name_last, law_file_name_plain, piece_kept};

verus! {

/// Result of a lookup.
#[derive(Debug)]
pub struct LookupResult {
    /// Inode of child.
    pub ino: i64,
    /// Relative path to child.
    pub path: Vec<u8>,
    /// Type of child.
    pub ty: FileType,
}

/// The error number of a missing entry (`ENOENT`).
pub open spec fn enoent() -> i32 {
    2
}

/// The error number of an entry that exists already (`EEXIST`).
pub open spec fn eexist() -> i32 {
    17
}

/// The error number of an entry that is no directory (`ENOTDIR`).
pub open spec fn enotdir() -> i32 {
    20
}

/// The error number of an entry that is a directory (`EISDIR`).
pub open spec fn eisdir() -> i32 {
    21
}

/// The error number of a directory that is not empty (`ENOTEMPTY`).
pub open spec fn enotempty() -> i32 {
    39
}

/// Trusted: reads `libc::ENOENT`, which is 2 on Linux.
#[verifier::external_body]
fn libc_enoent() -> (r: i32)
    ensures
        r == enoent(),
{
    libc::ENOENT
}

/// Trusted: reads `libc::EEXIST`, which is 17 on Linux.
#[verifier::external_body]
fn libc_eexist() -> (r: i32)
    ensures
        r == eexist(),
{
    libc::EEXIST
}

/// Trusted: reads `libc::ENOTDIR`, which is 20 on Linux.
#[verifier::external_body]
fn libc_enotdir() -> (r: i32)
    ensures
        r == enotdir(),
{
    libc::ENOTDIR
}

/// Trusted: reads `libc::EISDIR`, which is 21 on Linux.
#[verifier::external_body]
fn libc_eisdir() -> (r: i32)
    ensures
        r == eisdir(),
{
    libc::EISDIR
}

/// Trusted: reads `libc::ENOTEMPTY`, which is 39 on Linux.
#[verifier::external_body]
fn libc_enotempty() -> (r: i32)
    ensures
        r == enotempty(),
{
    libc::ENOTEMPTY
}

/// Whether a name is `.` or `..`.
pub open spec fn is_dot_name(name: Seq<u8>) -> bool {
    name == seq![46u8] || name == seq![46u8, 46u8]
}

/// Whether a name is `.` or `..`.
pub fn dot_name(name: &[u8]) -> (r: bool)
    ensures
        r == is_dot_name(name@),
{
    if name.len() == 1 && name[0] == 46u8 {
        assert(name@ =~= seq![46u8]);
        true
    } else if name.len() == 2 && name[0] == 46u8 && name[1] == 46u8 {
        assert(name@ =~= seq![46u8, 46u8]);
        true
    } else {
        false
    }
}

/// The name a lookup searches the database for: the case folded name, unless the name is
/// `.` or `..`, which are never found.
pub fn lookup_name(name: &[u8]) -> (r: Result<Vec<u8>, i32>)
    ensures
        is_dot_name(name@) ==> r == Err::<Vec<u8>, i32>(enoent()),
        !is_dot_name(name@) ==> (r matches Ok(f) && f@ == case_fold_spec(name@)),
{
    if dot_name(name) {
        Err(libc_enoent())
    } else {
        Ok(case_fold(name))
    }
}

/// The path of a child: the name alone in the root, else the directory, `/` and the name.
pub open spec fn child_path_spec(dir: Seq<u8>, name: Seq<u8>) -> Seq<u8> {
    if dir.len() == 0 {
        name
    } else {
        dir + seq![47u8] + name
    }
}

/// The path of a child of a directory.
pub fn child_path(dir: &[u8], name: &[u8]) -> (r: Vec<u8>)
    ensures
        r@ == child_path_spec(dir@, name@),
{
    let mut out: Vec<u8> = Vec::new();
    let mut i: usize = 0;
    while i < dir.len()
        invariant
            i <= dir@.len(),
            out@ == dir@.take(i as int),
        decreases dir@.len() - i,
    {
        out.push(dir[i]);
        assert(dir@.take(i + 1) =~= dir@.take(i as int).push(dir@[i as int]));
        i = i + 1;
    }
    assert(dir@.take(dir@.len() as int) =~= dir@);
    if dir.len() > 0 {
        out.push(47u8);
    }
    let ghost mid = out@;
    let mut j: usize = 0;
    while j < name.len()
        invariant
            j <= name@.len(),
            out@ == mid + name@.take(j as int),
        decreases name@.len() - j,
    {
        out.push(name[j]);
        assert(name@.take(j + 1) =~= name@.take(j as int).push(name@[j as int]));
        j = j + 1;
    }
    assert(name@.take(name@.len() as int) =~= name@);
    assert(out@ =~= child_path_spec(dir@, name@));
    out
}

/// What populating a directory does with an entry: nothing for `.` and `..`, else the
/// entry's path and its case folded name.
pub fn populate_entry(dir: &[u8], name: &[u8]) -> (r: Option<(Vec<u8>, Vec<u8>)>)
    ensures
        is_dot_name(name@) ==> r is None,
        !is_dot_name(name@) ==> (r matches Some((p, f)) && p@ == child_path_spec(dir@, name@) && f@ == case_fold_spec(name@)),
{
    if dot_name(name) {
        None
    } else {
        Some((child_path(dir, name), case_fold(name)))
    }
}

/// The uppercase hexadecimal digit of `d` (`0 <= d < 16`), as a byte.
pub open spec fn hex_byte(d: int) -> u8 {
    if d < 10 {
        (d + 48) as u8
    } else {
        (d + 55) as u8
    }
}

/// Uppercase hexadecimal digits of a number, without leading zeros.
pub open spec fn hex_text(n: nat) -> Seq<u8>
    decreases n,
{
    if n < 16 {
        seq![hex_byte(n as int)]
    } else {
        hex_text(n / 16).push(hex_byte((n % 16) as int))
    }
}

/// Append the uppercase hexadecimal digits of a number.
fn push_hex(out: &mut Vec<u8>, n: u64)
    ensures
        final(out)@ == old(out)@ + hex_text(n as nat),
    decreases n,
{
    if n < 16 {
        let d = n as u8;
        out.push(if d < 10 { d + 48 } else { d + 55 });
        assert(out@ =~= old(out)@ + hex_text(n as nat));
    } else {
        push_hex(out, n / 16);
        let d = (n % 16) as u8;
        out.push(if d < 10 { d + 48 } else { d + 55 });
        assert(out@ =~= old(out)@ + hex_text(n as nat));
    }
}

/// The name a removed entry is moved to: `.rm_`, the inode and the random number, in
/// uppercase hexadecimal (the inode by its bits), separated by `_`.
pub open spec fn removed_name_spec(ino: i64, random: u64) -> Seq<u8> {
    seq![46u8, 114u8, 109u8, 95u8] + hex_text(ino as u64 as nat) + seq![95u8] + hex_text(random as nat)
}

/// The name a removed entry is moved to, for a given random number.
pub fn removed_name(ino: i64, random: u64) -> (r: Vec<u8>)
    ensures
        r@ == removed_name_spec(ino, random),
{
    let mut out: Vec<u8> = Vec::new();
    out.push(46u8);
    out.push(114u8);
    out.push(109u8);
    out.push(95u8);
    push_hex(&mut out, ino as u64);
    out.push(95u8);
    push_hex(&mut out, random);
    assert(out@ =~= removed_name_spec(ino, random));
    out
}

/// Trusted: calls `rand::random::<u64>()`; nothing is stated of the number it gives.
#[verifier::external_body]
fn random_u64() -> (r: u64) {
    rand::random::<u64>()
}

/// The name a removed entry is moved to, with a fresh random number.
pub fn fresh_removed_name(ino: i64) -> (r: Vec<u8>)
    ensures
        exists|random: u64| r@ == #[trigger] removed_name_spec(ino, random),
{
    let random = random_u64();
    removed_name(ino, random)
}

/// Whether an entry may be unlinked: directories may not.
pub fn unlink_check(ty: FileType) -> (r: Result<(), i32>)
    ensures
        r == (if ty.inner == FileKind::Directory { Err::<(), i32>(eisdir()) } else { Ok(()) }),
{
    if ty.is_dir() {
        Err(libc_eisdir())
    } else {
        Ok(())
    }
}

/// Whether an entry may be removed as a directory: it must be one.
pub fn rmdir_check(ty: FileType) -> (r: Result<(), i32>)
    ensures
        r == (if ty.inner == FileKind::Directory { Ok(()) } else { Err::<(), i32>(enotdir()) }),
{
    if ty.is_dir() {
        Ok(())
    } else {
        Err(libc_enotdir())
    }
}

/// Whether a directory may be removed: it must be empty.
pub fn rmdir_empty_check(is_empty: bool) -> (r: Result<(), i32>)
    ensures
        r == (if is_empty { Ok(()) } else { Err::<(), i32>(enotempty()) }),
{
    if is_empty {
        Ok(())
    } else {
        Err(libc_enotempty())
    }
}

/// Whether a node may be made: no entry of the folded name may exist.
pub fn mknod_check(exists: bool) -> (r: Result<(), i32>)
    ensures
        r == (if exists { Err::<(), i32>(eexist()) } else { Ok(()) }),
{
    if exists {
        Err(libc_eexist())
    } else {
        Ok(())
    }
}

/// Whether a directory must be listed before it is read: when reading starts and no
/// marker says it was listed.
pub fn should_populate(offset: i64, has_marker: bool) -> (r: bool)
    ensures
        r == (offset == 0 && !has_marker),
{
    offset == 0 && !has_marker
}

/// The kind reported to FUSE for a file type: unknown kinds are reported as regular files.
pub open spec fn reported_kind_spec(ty: FileType) -> FuserKind {
    match fuser_of(ty.inner) {
        Some(k) => k,
        None => FuserKind::RegularFile,
    }
}

/// The kind reported to FUSE for a file type.
pub fn reported_kind(ty: FileType) -> (r: FuserKind)
    ensures
        r == reported_kind_spec(ty),
{
    match ty.to_fuser() {
        Some(k) => k,
        None => FuserKind::RegularFile,
    }
}

/// How many inodes are free: all that are not in use.
pub fn free_inodes(files: u64) -> (r: u64)
    ensures
        r == u64::MAX - files,
{
    u64::MAX - files
}

/// The permission bits of a mode (`rustix::fs::Mode` keeps these).
pub open spec fn perm_of(mode: u32) -> u32 {
    mode & 0o7777u32
}

/// A raw mode without its file type bits (`S_IFMT`, `0o170000`).
pub open spec fn mode_without_kind(raw: u32) -> u32 {
    raw & !0o170000u32
}

/// Trusted: calls `rustix::fs::Mode::from_raw_mode` and `Mode::as_raw_mode`. The first
/// clears the file type bits (`S_IFMT`) and keeps every other bit (the flags type accepts
/// all bits), the second hands the bits back.
#[verifier::external_body]
pub(crate) fn rustix_mode_bits(raw: u32) -> (r: u32)
    ensures
        r == mode_without_kind(raw),
{
    rustix::fs::Mode::from_raw_mode(raw).as_raw_mode()
}

/// The permissions a new node gets: those of its mode not masked by the umask.
pub fn node_perm(mode: u32, umask: u32) -> (r: u16)
    ensures
        r as u32 == perm_of(mode) & !perm_of(umask) & 0o7777u32,
{
    let m = rustix_mode_bits(mode);
    let u = rustix_mode_bits(umask);
    let p = m & !u & 0o7777u32;
    assert(p <= 0xffff && p == (mode & 0o7777u32) & !(umask & 0o7777u32) & 0o7777u32) by (bit_vector)
        requires
            p == m & !u & 0o7777u32,
            m == mode & !0o170000u32,
            u == umask & !0o170000u32,
    ;
    p as u16
}

/// Whether removing an entry for good removes a directory.
pub fn removes_dir(ty: FileType) -> (r: bool)
    ensures
        r == (ty.inner == FileKind::Directory),
{
    ty.is_dir()
}

/// What a file system reports of its space, past the numbers it passes on as they are: the
/// free inodes, and the block size, longest name and fragment size as 32 bit numbers.
#[derive(Debug, Clone, Copy, PartialEq, Eq)]
pub struct StatfsSizes {
    /// Inodes still free.
    pub ffree: u64,
    /// Block size.
    pub bsize: u32,
    /// Longest file name.
    pub namelen: u32,
    /// Fragment size.
    pub frsize: u32,
}

/// The free inodes and the sizes of a file system with `files` inodes, or `EIO` where a size
/// does not fit 32 bits.
pub fn statfs_sizes(files: u64, bsize: i64, namelen: i64, frsize: i64) -> (r: Result<StatfsSizes, i32>)
    ensures
        (0 <= bsize <= u32::MAX && 0 <= namelen <= u32::MAX && 0 <= frsize <= u32::MAX) <==> r is Ok,
        r matches Err(e) ==> e == crate::case_fold_fs::error::eio_code(),
        r matches Ok(s) ==> s.ffree == u64::MAX - files && s.bsize == bsize && s.namelen == namelen
            && s.frsize == frsize,
{
    let ffree = free_inodes(files);
    if 0 <= bsize && bsize <= 0xffff_ffff && 0 <= namelen && namelen <= 0xffff_ffff && 0 <= frsize
        && frsize <= 0xffff_ffff {
        Ok(StatfsSizes { ffree, bsize: bsize as u32, namelen: namelen as u32, frsize: frsize as u32 })
    } else {
        Err(crate::case_fold_fs::error::libc_eio())
    }
}

/// The path of a child names the child: its file name is the child's name, in the root as
/// in any directory, for every name that may stand in a directory.
pub proof fn law_child_path_names_child(dir: Seq<u8>, name: Seq<u8>)
    requires
        forall|i: int| 0 <= i < name.len() ==> name[i] != 47u8,
        name.len() > 0,
        !is_dot_name(name),
    ensures
        file_name_spec(child_path_spec(dir, name)) == Some(name),
{
    assert(piece_kept(name, false)) by {
        if name.len() == 1 && name[0] == 46u8 {
            assert(name =~= seq![46u8]);
        }
        if name.len() == 2 && name[0] == 46u8 && name[1] == 46u8 {
            assert(name =~= seq![46u8, 46u8]);
        }
    }
    if dir.len() == 0 {
        law_file_name_plain(name);
    } else {
        law_file_name_last(dir, name);
    }
}

/// Hexadecimal text is made of the digits `0`-`9` and `A`-`F` and is never empty.
proof fn lemma_hex_text_digits(n: nat)
    ensures
        hex_text(n).len() > 0,
        forall|i: int| 0 <= i < hex_text(n).len() ==> (48u8 <= #[trigger] hex_text(n)[i] <= 57u8 || 65u8 <= hex_text(n)[i] <= 70u8),
    decreases n,
{
    if n >= 16 {
        lemma_hex_text_digits(n / 16);
    }
}

/// The name a removed entry is moved to is a hidden name that may stand in a directory:
/// `.rm_` first, then uppercase hexadecimal digits around one `_`; no `/`, and neither `.`
/// nor `..`.
pub proof fn law_removed_name_valid(ino: i64, random: u64)
    ensures
        removed_name_spec(ino, random).take(4) == seq![46u8, 114u8, 109u8, 95u8],
        forall|i: int| 0 <= i < removed_name_spec(ino, random).len() ==> #[trigger] removed_name_spec(ino, random)[i] != 47u8,
        !is_dot_name(removed_name_spec(ino, random)),
        removed_name_spec(ino, random).len() > 5,
{
    let a = hex_text(ino as u64 as nat);
    let b = hex_text(random as nat);
    lemma_hex_text_digits(ino as u64 as nat);
    lemma_hex_text_digits(random as nat);
    let r = removed_name_spec(ino, random);
    assert(r.take(4) =~= seq![46u8, 114u8, 109u8, 95u8]);
    assert forall|i: int| 0 <= i < r.len() implies #[trigger] r[i] != 47u8 by {
        if i < 4 {
        } else if i < 4 + a.len() {
            assert(r[i] == a[i - 4]);
        } else if i == 4 + a.len() {
        } else {
            assert(r[i] == b[i - 5 - a.len()]);
        }
    }
    assert(r.len() > 5);
}

} // verus!
