//! What the mount tells the kernel: attributes, error numbers and open modes.
use crate::rpc::{ProtoAttrs, ProtoHandleMode, ProtoNodeKind};
use crate::status::Code;
use vstd::prelude::*;

verus! {

/// The error numbers that the mount answers with.
#[derive(Debug, Clone, Copy, PartialEq, Eq, Structural)]
pub enum Errno {
    Interrupted,
    NoEntry,
    Exists,
    Access,
    Invalid,
    TimedOut,
    NoSpace,
    Busy,
    Overflow,
    NotImplemented,
    Again,
    Io,
}

pub open spec fn errno_of(code: Code) -> Errno {
    match code {
        Code::Cancelled => Errno::Interrupted,
        Code::NotFound => Errno::NoEntry,
        Code::AlreadyExists => Errno::Exists,
        Code::PermissionDenied | Code::Unauthenticated => Errno::Access,
        Code::InvalidArgument => Errno::Invalid,
        Code::DeadlineExceeded => Errno::TimedOut,
        Code::ResourceExhausted => Errno::NoSpace,
        Code::FailedPrecondition | Code::Aborted => Errno::Busy,
        Code::OutOfRange => Errno::Overflow,
        Code::Unimplemented => Errno::NotImplemented,
        Code::Unavailable => Errno::Again,
        Code::Unknown | Code::Internal | Code::DataLoss => Errno::Io,
    }
}

pub fn status_to_errno(code: Code) -> (r: Errno)
    ensures
        r == errno_of(code),
{
    match code {
        Code::Cancelled => Errno::Interrupted,
        Code::NotFound => Errno::NoEntry,
        Code::AlreadyExists => Errno::Exists,
        Code::PermissionDenied | Code::Unauthenticated => Errno::Access,
        Code::InvalidArgument => Errno::Invalid,
        Code::DeadlineExceeded => Errno::TimedOut,
        Code::ResourceExhausted => Errno::NoSpace,
        Code::FailedPrecondition | Code::Aborted => Errno::Busy,
        Code::OutOfRange => Errno::Overflow,
        Code::Unimplemented => Errno::NotImplemented,
        Code::Unavailable => Errno::Again,
        Code::Unknown | Code::Internal | Code::DataLoss => Errno::Io,
    }
}

/// The platform's numbers for the ways to open a file.
#[derive(Debug, Clone, Copy, PartialEq, Eq, Structural)]
pub struct AccessFlags {
    pub mask: i32,
    pub write_only: i32,
    pub read_write: i32,
}

pub open spec fn opened_for(flags: i32, platform: AccessFlags) -> ProtoHandleMode {
    if flags & platform.mask == platform.write_only {
        ProtoHandleMode::Write
    } else if flags & platform.mask == platform.read_write {
        ProtoHandleMode::ReadWrite
    } else {
        ProtoHandleMode::Read
    }
}

pub fn handle_mode_from_flags(flags: i32, platform: AccessFlags) -> (r: ProtoHandleMode)
    ensures
        r == opened_for(flags, platform),
{
    let access_mode: i32 = flags & platform.mask;
    if access_mode == platform.write_only {
        ProtoHandleMode::Write
    } else if access_mode == platform.read_write {
        ProtoHandleMode::ReadWrite
    } else {
        ProtoHandleMode::Read
    }
}

/// A time to be set, in nanoseconds since 1970 began; `None` is a time before that.
pub fn time_or_now_to_nanos(since_epoch: Option<u128>) -> (r: Option<i64>)
    ensures
        match since_epoch {
            Some(n) if n <= i64::MAX => r == Some(n as i64),
            _ => r is None,
        },
{
    match since_epoch {
        Some(n) => if n <= i64::MAX as u128 {
            Some(n as i64)
        } else {
            None
        },
        None => None,
    }
}

/// An offset that the kernel gave; a negative one counts as the beginning.
pub fn request_offset(offset: i64) -> (r: u64)
    ensures
        r == if offset < 0 {
            0
        } else {
            offset as int
        },
{
    if offset < 0 {
        0
    } else {
        offset as u64
    }
}

/// How many bytes the kernel is told were written.
pub fn written_count(bytes_written: u64) -> (r: u32)
    ensures
        r == if bytes_written <= u32::MAX {
            bytes_written as int
        } else {
            u32::MAX as int
        },
{
    if bytes_written <= u32::MAX as u64 {
        bytes_written as u32
    } else {
        u32::MAX
    }
}

#[derive(Debug, Clone, Copy, PartialEq, Eq, Structural)]
pub enum FileType {
    Directory,
    RegularFile,
}

/// Attributes as the kernel wants them. All four times of a file are its time of change, in
/// nanoseconds since 1970 began.
#[derive(Debug, Clone, Copy, PartialEq, Eq, Structural)]
pub struct FileAttr {
    pub ino: u64,
    pub size: u64,
    pub blocks: u64,
    pub times: u64,
    pub kind: FileType,
    pub perm: u16,
    pub nlink: u32,
    pub uid: u32,
    pub gid: u32,
    pub rdev: u32,
    pub flags: u32,
    pub blksize: u32,
}

/// The bits of a mode that are permissions.
pub const PERMISSION_BITS: u32 = 0o7777;

pub const BLOCK_BYTES: u64 = 512;

/// How many blocks of the kernel's size hold `size` bytes, for every size short of the largest.
pub open spec fn blocks_of(size: u64) -> int {
    if size + 511 <= u64::MAX {
        (size + 511) / 512
    } else {
        u64::MAX as int / 512
    }
}

pub open spec fn fuse_attr_of(ino: u64, attrs: ProtoAttrs) -> FileAttr {
    FileAttr {
        ino,
        size: attrs.size,
        blocks: blocks_of(attrs.size) as u64,
        times: if attrs.mtime_unix_nano < 0 {
            0
        } else {
            attrs.mtime_unix_nano as u64
        },
        kind: if attrs.kind == ProtoNodeKind::Dir {
            FileType::Directory
        } else {
            FileType::RegularFile
        },
        perm: (attrs.mode & PERMISSION_BITS) as u16,
        nlink: 1,
        uid: 0,
        gid: 0,
        rdev: 0,
        flags: 0,
        blksize: 4096,
    }
}

pub fn proto_attrs_to_fuse(ino: u64, attrs: &ProtoAttrs) -> (r: FileAttr)
    ensures
        r == fuse_attr_of(ino, *attrs),
{
    let mode: u32 = attrs.mode;
    let perm: u32 = mode & PERMISSION_BITS;
    assert(mode & 0o7777 <= 0o7777) by (bit_vector);
    FileAttr {
        ino,
        size: attrs.size,
        blocks: attrs.size.saturating_add(BLOCK_BYTES - 1) / BLOCK_BYTES,
        times: request_offset(attrs.mtime_unix_nano),
        kind: match attrs.kind {
            ProtoNodeKind::Dir => FileType::Directory,
            ProtoNodeKind::File | ProtoNodeKind::Unspecified => FileType::RegularFile,
        },
        perm: perm as u16,
        nlink: 1,
        uid: 0,
        gid: 0,
        rdev: 0,
        flags: 0,
        blksize: 4096,
    }
}

/// The blocks of a file hold it, and none of them is needless.
pub proof fn lemma_blocks_hold_file(size: u64)
    requires
        size + 511 <= u64::MAX,
    ensures
        blocks_of(size) * 512 >= size,
        blocks_of(size) * 512 - 512 < size,
{
}

/// Each kind of refusal has its own error; whatever is nobody's fault is an error of the device.
pub proof fn lemma_errnos(code: Code)
    ensures
        errno_of(code) == Errno::NoEntry <==> code == Code::NotFound,
        errno_of(code) == Errno::Exists <==> code == Code::AlreadyExists,
        errno_of(code) == Errno::Access <==> code == Code::PermissionDenied || code
            == Code::Unauthenticated,
        errno_of(code) == Errno::Invalid <==> code == Code::InvalidArgument,
        errno_of(code) == Errno::Busy <==> code == Code::FailedPrecondition || code
            == Code::Aborted,
        errno_of(code) == Errno::NoSpace <==> code == Code::ResourceExhausted,
        errno_of(code) == Errno::TimedOut <==> code == Code::DeadlineExceeded,
        errno_of(code) == Errno::Interrupted <==> code == Code::Cancelled,
        errno_of(code) == Errno::Overflow <==> code == Code::OutOfRange,
        errno_of(code) == Errno::NotImplemented <==> code == Code::Unimplemented,
        errno_of(code) == Errno::Again <==> code == Code::Unavailable,
        errno_of(code) == Errno::Io <==> code == Code::Unknown || code == Code::Internal || code
            == Code::DataLoss,
{
}

/// A file is opened for writing, for both or for reading, by its access flags and nothing else.
pub proof fn lemma_access_flags(flags: i32, platform: AccessFlags)
    requires
        platform.write_only != platform.read_write,
    ensures
        opened_for(flags, platform) == ProtoHandleMode::Write <==> flags & platform.mask
            == platform.write_only,
        opened_for(flags, platform) == ProtoHandleMode::ReadWrite <==> flags & platform.mask
            == platform.read_write,
        opened_for(flags, platform) == ProtoHandleMode::Read || opened_for(flags, platform)
            == ProtoHandleMode::Write || opened_for(flags, platform) == ProtoHandleMode::ReadWrite,
{
}

/// The kernel sees the size, the time and the kind that the server sent, and the permissions
/// without other bits.
pub proof fn lemma_kernel_attrs(ino: u64, attrs: ProtoAttrs)
    ensures
        ({
            let f = fuse_attr_of(ino, attrs);
            &&& f.ino == ino
            &&& f.size == attrs.size
            &&& attrs.mtime_unix_nano >= 0 ==> f.times == attrs.mtime_unix_nano
            &&& attrs.mtime_unix_nano < 0 ==> f.times == 0
            &&& f.kind == FileType::Directory <==> attrs.kind == ProtoNodeKind::Dir
            &&& attrs.mode < 0o10000 ==> f.perm == attrs.mode
            &&& f.nlink == 1
            &&& f.uid == 0 && f.gid == 0
            &&& f.blksize == 4096
        }),
{
    let mode = attrs.mode;
    if mode < 0o10000 {
        assert(mode & 0o7777 == mode) by (bit_vector)
            requires
                mode < 0o10000,
        ;
    }
}

/// Numbers that the kernel gives and takes are kept as far as they fit.
pub proof fn lemma_numbers_of_the_kernel(
    since_epoch: u128,
    time: Option<i64>,
    offset: i64,
    from: u64,
    bytes_written: u64,
    count: u32,
)
    requires
        call_ensures(time_or_now_to_nanos, (Some(since_epoch),), time),
        call_ensures(request_offset, (offset,), from),
        call_ensures(written_count, (bytes_written,), count),
    ensures
        since_epoch <= i64::MAX ==> time is Some && time->0 == since_epoch,
        since_epoch > i64::MAX ==> time is None,
        offset >= 0 ==> from == offset,
        offset < 0 ==> from == 0,
        bytes_written <= 0xffff_ffff ==> count == bytes_written,
        bytes_written > 0xffff_ffff ==> count == 0xffff_ffff,
{
}

/// A failure is told to the kernel by its own number, and a file is opened for what the flags say.
pub proof fn lemma_what_the_kernel_is_told(
    code: Code,
    errno: Errno,
    flags: i32,
    platform: AccessFlags,
    mode: ProtoHandleMode,
)
    requires
        call_ensures(status_to_errno, (code,), errno),
        call_ensures(handle_mode_from_flags, (flags, platform), mode),
        platform.write_only != platform.read_write,
    ensures
        errno == Errno::NoEntry <==> code == Code::NotFound,
        errno == Errno::Exists <==> code == Code::AlreadyExists,
        errno == Errno::Access <==> code == Code::PermissionDenied || code == Code::Unauthenticated,
        errno == Errno::Invalid <==> code == Code::InvalidArgument,
        mode == ProtoHandleMode::Write <==> flags & platform.mask == platform.write_only,
        mode == ProtoHandleMode::ReadWrite <==> flags & platform.mask == platform.read_write,
{
    lemma_errnos(code);
    lemma_access_flags(flags, platform);
}

/// A file takes as many blocks of half a kilobyte as its bytes fill.
pub proof fn lemma_blocks(ino: u64, attrs: ProtoAttrs)
    requires
        attrs.size <= u64::MAX - 511,
    ensures
        512 * fuse_attr_of(ino, attrs).blocks >= attrs.size,
        512 * fuse_attr_of(ino, attrs).blocks < attrs.size + 512,
{
}

} // verus!
