//! The attributes a file is reported with, from what `statx` says of it.

use vstd::prelude::*;

use crate::case_fold_fs::error::{eio_code, libc_eio};
use crate::case_fold_fs::file_type::{kind_of_mode, FileType, FuserKind};
use crate::case_fold_fs::ops::{mode_without_kind, reported_kind, reported_kind_spec, rustix_mode_bits};

verus! {

/// What `statx` reports of a file, as far as its attributes need it.
#[derive(Debug, Clone, Copy, PartialEq, Eq)]
pub struct StatFields {
    /// Size in bytes.
    pub size: u64,
    /// Blocks allocated.
    pub blocks: u64,
    /// Last access, in seconds since the epoch.
    pub atime: i64,
    /// Last modification, in seconds since the epoch.
    pub mtime: i64,
    /// Last status change, in seconds since the epoch.
    pub ctime: i64,
    /// Mode: type and permission bits.
    pub mode: u32,
    /// Number of hard links.
    pub nlink: u32,
    /// Owner.
    pub uid: u32,
    /// Group.
    pub gid: u32,
    /// Major number of the device the file stands for.
    pub rdev_major: u32,
    /// Minor number of the device the file stands for.
    pub rdev_minor: u32,
    /// Preferred block size.
    pub blksize: u32,
}

/// The attributes reported of a file, times in seconds since the epoch.
#[derive(Debug, Clone, Copy, PartialEq, Eq)]
pub struct Attr {
    /// Inode.
    pub ino: u64,
    /// Size in bytes.
    pub size: u64,
    /// Blocks allocated.
    pub blocks: u64,
    /// Last access.
    pub atime: u64,
    /// Last modification.
    pub mtime: u64,
    /// Last status change.
    pub ctime: u64,
    /// Kind of file.
    pub kind: FuserKind,
    /// Permission bits.
    pub perm: u16,
    /// Number of hard links.
    pub nlink: u32,
    /// Owner.
    pub uid: u32,
    /// Group.
    pub gid: u32,
    /// Device the file stands for.
    pub rdev: u32,
    /// Preferred block size.
    pub blksize: u32,
}

/// The device number of a major and a minor number, as Linux's `makedev` builds it.
pub open spec fn makedev_of(maj: u32, min: u32) -> u64 {
    ((maj as u64 & 0xffff_f000u64) << 32u64) | ((maj as u64 & 0x0000_0fffu64) << 8u64)
        | ((min as u64 & 0xffff_ff00u64) << 12u64) | (min as u64 & 0x0000_00ffu64)
}

/// Trusted: calls `rustix::fs::makedev`, whose Linux source computes the number by the
/// formula stated.
#[verifier::external_body]
fn rustix_makedev(maj: u32, min: u32) -> (r: u64)
    ensures
        r == makedev_of(maj, min),
{
    rustix::fs::makedev(maj, min)
}

/// Whether the numbers of a file fit the attributes: no time before the epoch, a mode
/// whose bits past the file type fit 16 bits, and a device number that fits 32 bits.
pub open spec fn attr_fits(s: StatFields) -> bool {
    &&& s.atime >= 0 && s.mtime >= 0 && s.ctime >= 0
    &&& mode_without_kind(s.mode) <= u16::MAX
    &&& makedev_of(s.rdev_major, s.rdev_minor) <= u32::MAX
}

/// The attributes of a file with the given inode and numbers, or `EIO` where a number does
/// not fit.
pub fn attr_of(ino: i64, s: StatFields) -> (r: Result<Attr, i32>)
    ensures
        attr_fits(s) <==> r is Ok,
        r matches Err(e) ==> e == eio_code(),
        r matches Ok(a) ==> {
            &&& a.ino == ino as u64
            &&& a.size == s.size
            &&& a.blocks == s.blocks
            &&& a.atime == s.atime as u64
            &&& a.mtime == s.mtime as u64
            &&& a.ctime == s.ctime as u64
            &&& a.kind == reported_kind_spec(FileType { inner: kind_of_mode(s.mode) })
            &&& a.perm as u32 == mode_without_kind(s.mode)
            &&& a.nlink == s.nlink
            &&& a.uid == s.uid
            &&& a.gid == s.gid
            &&& a.rdev as u64 == makedev_of(s.rdev_major, s.rdev_minor)
            &&& a.blksize == s.blksize
        },
{
    if s.atime < 0 || s.mtime < 0 || s.ctime < 0 {
        return Err(libc_eio());
    }
    let bits = rustix_mode_bits(s.mode);
    if bits > 0xffffu32 {
        return Err(libc_eio());
    }
    let dev = rustix_makedev(s.rdev_major, s.rdev_minor);
    if dev > 0xffff_ffffu64 {
        return Err(libc_eio());
    }
    let kind = reported_kind(FileType::from_raw_mode(s.mode));
    Ok(Attr {
        ino: ino as u64,
        size: s.size,
        blocks: s.blocks,
        atime: s.atime as u64,
        mtime: s.mtime as u64,
        ctime: s.ctime as u64,
        kind,
        perm: bits as u16,
        nlink: s.nlink,
        uid: s.uid,
        gid: s.gid,
        rdev: dev as u32,
        blksize: s.blksize,
    })
}

} // verus!
