//! [FileType] impl: file types as the database stores them and FUSE reports them.

use vstd::prelude::*;

verus! {

/// The kinds of files, as `rustix::fs::FileType` tells them apart.
#[derive(Debug, Clone, Copy, PartialEq, Eq, Structural)]
pub enum FileKind {
    /// A regular file.
    RegularFile,
    /// A directory.
    Directory,
    /// A symbolic link.
    Symlink,
    /// A named pipe.
    Fifo,
    /// A Unix domain socket.
    Socket,
    /// A character device.
    CharacterDevice,
    /// A block device.
    BlockDevice,
    /// Any other mode.
    Unknown,
}

/// The kinds of files FUSE reports, as `fuser::FileType` tells them apart.
#[derive(Debug, Clone, Copy, PartialEq, Eq, Structural)]
pub enum FuserKind {
    /// Named pipe.
    NamedPipe,
    /// Character device.
    CharDevice,
    /// Block device.
    BlockDevice,
    /// Directory.
    Directory,
    /// Regular file.
    RegularFile,
    /// Symbolic link.
    Symlink,
    /// Unix domain socket.
    Socket,
}

/// Wrapper around file types.
#[derive(Debug, Clone, Copy, PartialEq, Eq, Structural)]
pub struct FileType {
    /// The kind of file.
    pub inner: FileKind,
}

/// The kind of file the type bits of a mode (`st_mode & S_IFMT`) name.
pub open spec fn kind_of_mode(mode: u32) -> FileKind {
    let t = mode & 0o170000u32;
    if t == 0o100000u32 {
        FileKind::RegularFile
    } else if t == 0o040000u32 {
        FileKind::Directory
    } else if t == 0o120000u32 {
        FileKind::Symlink
    } else if t == 0o010000u32 {
        FileKind::Fifo
    } else if t == 0o140000u32 {
        FileKind::Socket
    } else if t == 0o020000u32 {
        FileKind::CharacterDevice
    } else if t == 0o060000u32 {
        FileKind::BlockDevice
    } else {
        FileKind::Unknown
    }
}

/// The type bits of a mode for a kind of file; all of them (`S_IFMT`) for an unknown kind.
pub open spec fn mode_of_kind(k: FileKind) -> u32 {
    match k {
        FileKind::RegularFile => 0o100000u32,
        FileKind::Directory => 0o040000u32,
        FileKind::Symlink => 0o120000u32,
        FileKind::Fifo => 0o010000u32,
        FileKind::Socket => 0o140000u32,
        FileKind::CharacterDevice => 0o020000u32,
        FileKind::BlockDevice => 0o060000u32,
        FileKind::Unknown => 0o170000u32,
    }
}

/// The kind FUSE reports for a kind of file, none for an unknown kind.
pub open spec fn fuser_of(k: FileKind) -> Option<FuserKind> {
    match k {
        FileKind::RegularFile => Some(FuserKind::RegularFile),
        FileKind::Directory => Some(FuserKind::Directory),
        FileKind::Symlink => Some(FuserKind::Symlink),
        FileKind::Fifo => Some(FuserKind::NamedPipe),
        FileKind::Socket => Some(FuserKind::Socket),
        FileKind::CharacterDevice => Some(FuserKind::CharDevice),
        FileKind::BlockDevice => Some(FuserKind::BlockDevice),
        FileKind::Unknown => None,
    }
}

/// The kind of file for a kind FUSE reports.
pub open spec fn kind_of_fuser(k: FuserKind) -> FileKind {
    match k {
        FuserKind::NamedPipe => FileKind::Fifo,
        FuserKind::CharDevice => FileKind::CharacterDevice,
        FuserKind::BlockDevice => FileKind::BlockDevice,
        FuserKind::Directory => FileKind::Directory,
        FuserKind::RegularFile => FileKind::RegularFile,
        FuserKind::Symlink => FileKind::Symlink,
        FuserKind::Socket => FileKind::Socket,
    }
}

/// Trusted: calls `rustix::fs::FileType::from_raw_mode`, which on Linux matches
/// `mode & S_IFMT` against the type bits of each kind and gives `Unknown` for any other.
#[verifier::external_body]
fn rustix_kind_of_mode(mode: u32) -> (r: FileKind)
    ensures
        r == kind_of_mode(mode),
{
    match rustix::fs::FileType::from_raw_mode(mode) {
        rustix::fs::FileType::RegularFile => FileKind::RegularFile,
        rustix::fs::FileType::Directory => FileKind::Directory,
        rustix::fs::FileType::Symlink => FileKind::Symlink,
        rustix::fs::FileType::Fifo => FileKind::Fifo,
        rustix::fs::FileType::Socket => FileKind::Socket,
        rustix::fs::FileType::CharacterDevice => FileKind::CharacterDevice,
        rustix::fs::FileType::BlockDevice => FileKind::BlockDevice,
        rustix::fs::FileType::Unknown => FileKind::Unknown,
    }
}

/// Trusted: calls `rustix::fs::FileType::as_raw_mode`, which on Linux gives the type bits
/// of each kind and all of them (`S_IFMT`) for `Unknown`.
#[verifier::external_body]
fn rustix_mode_of_kind(k: FileKind) -> (r: u32)
    ensures
        r == mode_of_kind(k),
{
    let t = match k {
        FileKind::RegularFile => rustix::fs::FileType::RegularFile,
        FileKind::Directory => rustix::fs::FileType::Directory,
        FileKind::Symlink => rustix::fs::FileType::Symlink,
        FileKind::Fifo => rustix::fs::FileType::Fifo,
        FileKind::Socket => rustix::fs::FileType::Socket,
        FileKind::CharacterDevice => rustix::fs::FileType::CharacterDevice,
        FileKind::BlockDevice => rustix::fs::FileType::BlockDevice,
        FileKind::Unknown => rustix::fs::FileType::Unknown,
    };
    t.as_raw_mode()
}

/// What the database's column gives for a stored integer: the file type of its mode, or
/// the integer itself where it is no mode (out of range).
pub open spec fn column_spec(value: i64) -> Result<FileType, i64> {
    if 0 <= value <= u32::MAX {
        Ok(FileType { inner: kind_of_mode(value as u32) })
    } else {
        Err(value)
    }
}

impl FileType {
    /// Convert to the kind FUSE reports, none for an unknown kind.
    pub fn to_fuser(self) -> (r: Option<FuserKind>)
        ensures
            r == fuser_of(self.inner),
    {
        match self.inner {
            FileKind::RegularFile => Some(FuserKind::RegularFile),
            FileKind::Directory => Some(FuserKind::Directory),
            FileKind::Symlink => Some(FuserKind::Symlink),
            FileKind::Fifo => Some(FuserKind::NamedPipe),
            FileKind::Socket => Some(FuserKind::Socket),
            FileKind::CharacterDevice => Some(FuserKind::CharDevice),
            FileKind::BlockDevice => Some(FuserKind::BlockDevice),
            FileKind::Unknown => None,
        }
    }

    /// Convert from the kind FUSE reports.
    pub fn from_fuser(kind: FuserKind) -> (r: FileType)
        ensures
            r.inner == kind_of_fuser(kind),
    {
        let inner = match kind {
            FuserKind::NamedPipe => FileKind::Fifo,
            FuserKind::CharDevice => FileKind::CharacterDevice,
            FuserKind::BlockDevice => FileKind::BlockDevice,
            FuserKind::Directory => FileKind::Directory,
            FuserKind::RegularFile => FileKind::RegularFile,
            FuserKind::Symlink => FileKind::Symlink,
            FuserKind::Socket => FileKind::Socket,
        };
        FileType { inner }
    }

    /// Create a file type for regular files.
    pub fn regular_file() -> (r: Self)
        ensures
            r.inner == FileKind::RegularFile,
    {
        FileType { inner: FileKind::RegularFile }
    }

    /// Create a file type for directories.
    pub fn directory() -> (r: Self)
        ensures
            r.inner == FileKind::Directory,
    {
        FileType { inner: FileKind::Directory }
    }

    /// Create a file type for symlinks.
    pub fn symlink() -> (r: Self)
        ensures
            r.inner == FileKind::Symlink,
    {
        FileType { inner: FileKind::Symlink }
    }

    /// Create a file type for fifos.
    pub fn fifo() -> (r: Self)
        ensures
            r.inner == FileKind::Fifo,
    {
        FileType { inner: FileKind::Fifo }
    }

    /// Create a file type for sockets.
    pub fn socket() -> (r: Self)
        ensures
            r.inner == FileKind::Socket,
    {
        FileType { inner: FileKind::Socket }
    }

    /// Create a file type for char devices.
    pub fn character_device() -> (r: Self)
        ensures
            r.inner == FileKind::CharacterDevice,
    {
        FileType { inner: FileKind::CharacterDevice }
    }

    /// Create a file type for block devices.
    pub fn block_device() -> (r: Self)
        ensures
            r.inner == FileKind::BlockDevice,
    {
        FileType { inner: FileKind::BlockDevice }
    }

    /// Whether this is the type of directories.
    pub fn is_dir(&self) -> (r: bool)
        ensures
            r == (self.inner == FileKind::Directory),
    {
        match self.inner {
            FileKind::Directory => true,
            _ => false,
        }
    }

    /// The file type of a raw mode.
    pub fn from_raw_mode(mode: u32) -> (r: FileType)
        ensures
            r.inner == kind_of_mode(mode),
    {
        FileType { inner: rustix_kind_of_mode(mode) }
    }

    /// The raw mode of the file type.
    pub fn as_raw_mode(self) -> (r: u32)
        ensures
            r == mode_of_kind(self.inner),
    {
        rustix_mode_of_kind(self.inner)
    }

    /// The integer the database stores for the file type: its raw mode.
    pub fn to_sql(&self) -> (r: i64)
        ensures
            r == mode_of_kind(self.inner) as int,
    {
        let mode = self.as_raw_mode();
        mode as i64
    }

    /// The file type the database stores as an integer; the integer itself where it is no
    /// mode (out of range).
    pub fn column_result(value: i64) -> (r: Result<FileType, i64>)
        ensures
            r == column_spec(value),
    {
        if 0 <= value && value <= 0xffff_ffffi64 {
            Ok(FileType::from_raw_mode(value as u32))
        } else {
            Err(value)
        }
    }
}

/// Every kind's raw mode names it again.
pub proof fn law_mode_roundtrip(k: FileKind)
    ensures
        kind_of_mode(mode_of_kind(k)) == k,
{
    assert(0o100000u32 & 0o170000u32 == 0o100000u32) by (bit_vector);
    assert(0o040000u32 & 0o170000u32 == 0o040000u32) by (bit_vector);
    assert(0o120000u32 & 0o170000u32 == 0o120000u32) by (bit_vector);
    assert(0o010000u32 & 0o170000u32 == 0o010000u32) by (bit_vector);
    assert(0o140000u32 & 0o170000u32 == 0o140000u32) by (bit_vector);
    assert(0o020000u32 & 0o170000u32 == 0o020000u32) by (bit_vector);
    assert(0o060000u32 & 0o170000u32 == 0o060000u32) by (bit_vector);
    assert(0o170000u32 & 0o170000u32 == 0o170000u32) by (bit_vector);
}

/// A file type read back from what the database stores for it is the same file type.
pub proof fn law_sql_roundtrip(t: FileType)
    ensures
        column_spec(mode_of_kind(t.inner) as i64) == Ok::<FileType, i64>(t),
{
    law_mode_roundtrip(t.inner);
}

/// Every kind FUSE reports comes back from the file type made of it.
pub proof fn law_fuser_roundtrip(k: FuserKind)
    ensures
        fuser_of(kind_of_fuser(k)) == Some(k),
{
}

} // verus!
