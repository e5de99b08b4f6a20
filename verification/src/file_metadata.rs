//! File metadata as the replication protocol carries it: type, size,
//! permissions, times and the target of a symbolic link.

use vstd::prelude::*;
use vstd::std_specs::cmp::PartialEqSpecImpl;
use crate::text::{append_text, from_chars, to_chars};

verus! {

/// The earliest instant that can be held, in seconds since the Unix epoch:
/// the first second of the year -9999.
pub const MIN_UNIX_SECONDS: i64 = -377_705_116_800;

/// The latest instant that can be held, in seconds since the Unix epoch:
/// the last second of the year 9999.
pub const MAX_UNIX_SECONDS: i64 = 253_402_300_799;

/// The error of the `time` crate for a component out of range, carried
/// through without a look inside.
#[verifier::external_type_specification]
#[verifier::external_body]
pub struct ExComponentRange(time::error::ComponentRange);

/// Why metadata could not be read or applied.
#[derive(Debug)]
pub enum FileMetadataError {
    /// The file system refused; holds its message.
    Io(String),
    /// The entry is neither a file, a directory nor a symbolic link.
    UnsupportedFileType,
    /// A time lies outside the years -9999 to 9999.
    Timestamp,
}

/// What a failure to capture metadata says.
pub open spec fn capture_error_text(e: FileMetadataError) -> Seq<char> {
    match e {
        FileMetadataError::Io(text) => "IO error: "@ + text@,
        FileMetadataError::UnsupportedFileType => "unsupported file type"@,
        FileMetadataError::Timestamp => "timestamp error"@,
    }
}

impl FileMetadataError {
    /// What the failure says.
    pub fn message(&self) -> (r: String)
        ensures
            r@ == capture_error_text(*self),
    {
        match self {
            FileMetadataError::Io(text) => {
                let mut out = to_chars("IO error: ");
                append_text(&mut out, text.as_str());
                from_chars(&out)
            },
            FileMetadataError::UnsupportedFileType => "unsupported file type".to_owned(),
            FileMetadataError::Timestamp => "timestamp error".to_owned(),
        }
    }
}

/// The kind of a file system entry.
#[derive(Debug, Clone, Copy, PartialEq, Eq, Structural)]
pub enum FileType {
    File,
    Directory,
    Symlink,
}

/// An instant in UTC: whole seconds since the Unix epoch and the
/// nanoseconds into that second.
#[derive(Debug, Clone, Copy, PartialEq, Eq, Structural)]
pub struct Timestamp {
    pub seconds: i64,
    pub nanoseconds: u32,
}

/// Whether an instant is one that the `time` crate holds in UTC: its second
/// lies within the years -9999 to 9999 and its nanoseconds stay below one
/// second.
pub open spec fn is_instant(t: Timestamp) -> bool {
    &&& MIN_UNIX_SECONDS <= t.seconds <= MAX_UNIX_SECONDS
    &&& t.nanoseconds < 1_000_000_000
}

/// `time::OffsetDateTime::now_utc`, as its `unix_timestamp` and its
/// `nanosecond`. Which instant comes back is the clock's; it is one that the
/// crate's type holds in UTC.
#[verifier::external_body]
fn clock_now() -> (r: Timestamp)
    ensures
        is_instant(r),
{
    let now = time::OffsetDateTime::now_utc();
    Timestamp { seconds: now.unix_timestamp(), nanoseconds: now.nanosecond() }
}

/// `time::OffsetDateTime::from_unix_timestamp`: succeeds exactly on the
/// seconds of the years -9999 to 9999, and then gives the instant at that
/// second, with no nanoseconds.
#[verifier::external_body]
fn instant_at(seconds: i64) -> (r: Result<Timestamp, time::error::ComponentRange>)
    ensures
        r is Ok <==> MIN_UNIX_SECONDS <= seconds <= MAX_UNIX_SECONDS,
        r matches Ok(t) ==> t.seconds == seconds && t.nanoseconds == 0,
{
    match time::OffsetDateTime::from_unix_timestamp(seconds) {
        Ok(at) => Ok(Timestamp { seconds: at.unix_timestamp(), nanoseconds: at.nanosecond() }),
        Err(range) => Err(range),
    }
}

/// The text that the `time` crate shows for an instant in UTC.
pub uninterp spec fn instant_text(seconds: i64, nanoseconds: u32) -> Seq<char>;

/// `Display` of `time::OffsetDateTime` for the instant in UTC, built with
/// `from_unix_timestamp` and `replace_nanosecond`. The two succeed exactly
/// on the instants that the crate's type holds; for any other there is no
/// text.
#[verifier::external_body]
fn show_instant(at: Timestamp) -> (r: Option<String>)
    ensures
        r is Some <==> is_instant(at),
        r matches Some(text) ==> text@ == instant_text(at.seconds, at.nanoseconds),
{
    match time::OffsetDateTime::from_unix_timestamp(at.seconds) {
        Ok(second) => match second.replace_nanosecond(at.nanoseconds) {
            Ok(instant) => Some(instant.to_string()),
            Err(_) => None,
        },
        Err(_) => None,
    }
}

/// How an instant is written: as the `time` crate shows it, and as the
/// empty text where the instant is none that the crate holds.
pub open spec fn written_instant(at: Timestamp) -> Seq<char> {
    if is_instant(at) {
        instant_text(at.seconds, at.nanoseconds)
    } else {
        Seq::<char>::empty()
    }
}

impl Timestamp {
    /// The instant as text, date first; the empty text for an instant out
    /// of range.
    pub fn to_text(self) -> (r: String)
        ensures
            r@ == written_instant(self),
    {
        match show_instant(self) {
            Some(text) => text,
            None => String::new(),
        }
    }

    /// The current instant in UTC, as the clock gives it: whatever the
    /// clock reads, it lies within the years -9999 to 9999, with its
    /// nanoseconds below one second.
    pub fn now_utc() -> (r: Timestamp)
        ensures
            is_instant(r),
    {
        clock_now()
    }

    /// The instant at a whole second, where it lies within the years -9999
    /// to 9999.
    pub fn from_unix_timestamp(seconds: i64) -> (r: Result<Timestamp, FileMetadataError>)
        ensures
            r is Ok <==> MIN_UNIX_SECONDS <= seconds <= MAX_UNIX_SECONDS,
            r matches Ok(t) ==> t == (Timestamp { seconds, nanoseconds: 0 }),
            r matches Err(e) ==> e is Timestamp,
    {
        match instant_at(seconds) {
            Ok(at) => Ok(at),
            Err(_) => Err(FileMetadataError::Timestamp),
        }
    }

    /// Seconds since the Unix epoch.
    pub fn unix_timestamp(self) -> (r: i64)
        ensures
            r == self.seconds,
    {
        self.seconds
    }

    /// Nanoseconds into the second.
    pub fn nanosecond(self) -> (r: u32)
        ensures
            r == self.nanoseconds,
    {
        self.nanoseconds
    }
}

/// The permission bits that are kept: the low twelve.
pub const MODE_MASK: u32 = 0o7777;

/// Permissions across platforms: Unix mode bits, a read-only flag and a
/// hidden flag.
#[derive(Debug, Clone, Copy, PartialEq, Eq)]
pub struct Permissions {
    mode: u32,
    readonly: bool,
    hidden: bool,
}

/// The mathematical value of [`Permissions`].
pub struct PermissionsView {
    pub mode: u32,
    pub readonly: bool,
    pub hidden: bool,
}

impl View for Permissions {
    type V = PermissionsView;

    closed spec fn view(&self) -> PermissionsView {
        PermissionsView { mode: self.mode, readonly: self.readonly, hidden: self.hidden }
    }
}

/// The low twelve bits of a mode.
pub open spec fn masked(mode: u32) -> u32 {
    mode & MODE_MASK
}

proof fn lemma_masked_fits(mode: u32)
    ensures
        mode & 0o7777 <= 0o7777,
{
    assert(mode & 0o7777 <= 0o7777) by (bit_vector);
}

impl Permissions {
    #[verifier::type_invariant]
    closed spec fn fits(self) -> bool {
        self.mode <= MODE_MASK
    }

    /// Permissions with the low twelve bits of `mode` and the flags given.
    pub fn new(mode: u32, readonly: bool, hidden: bool) -> (r: Self)
        ensures
            r@ == (PermissionsView { mode: masked(mode), readonly, hidden }),
    {
        proof {
            lemma_masked_fits(mode);
        }
        Self { mode: mode & 0o7777, readonly, hidden }
    }

    /// Permissions from Unix mode bits: read-only where the owner may not
    /// write, never hidden.
    pub fn from_mode(mode: u32) -> (r: Self)
        ensures
            r@ == (PermissionsView {
                mode: masked(mode),
                readonly: (mode & 0o200) == 0,
                hidden: false,
            }),
    {
        proof {
            lemma_masked_fits(mode);
        }
        Self { mode: mode & 0o7777, readonly: (mode & 0o200) == 0, hidden: false }
    }

    /// What a new file gets: `rw-r--r--`.
    pub fn default_file() -> (r: Self)
        ensures
            r@ == (PermissionsView { mode: 0o644, readonly: false, hidden: false }),
    {
        Self { mode: 0o644, readonly: false, hidden: false }
    }

    /// What a new directory gets: `rwxr-xr-x`.
    pub fn default_directory() -> (r: Self)
        ensures
            r@ == (PermissionsView { mode: 0o755, readonly: false, hidden: false }),
    {
        Self { mode: 0o755, readonly: false, hidden: false }
    }

    /// The mode bits; never more than the low twelve.
    pub fn mode(self) -> (r: u32)
        ensures
            r == self@.mode,
            r <= MODE_MASK,
    {
        proof {
            use_type_invariant(self);
        }
        self.mode
    }

    pub fn readonly(self) -> (r: bool)
        ensures
            r == self@.readonly,
    {
        self.readonly
    }

    pub fn hidden(self) -> (r: bool)
        ensures
            r == self@.hidden,
    {
        self.hidden
    }

    /// Replaces the mode bits by the low twelve bits of `mode`.
    pub fn set_mode(&mut self, mode: u32)
        ensures
            final(self)@ == (PermissionsView { mode: masked(mode), ..old(self)@ }),
    {
        proof {
            lemma_masked_fits(mode);
        }
        let kept = Self { mode: mode & 0o7777, readonly: self.readonly, hidden: self.hidden };
        *self = kept;
    }

    pub fn set_readonly(&mut self, readonly: bool)
        ensures
            final(self)@ == (PermissionsView { readonly, ..old(self)@ }),
    {
        proof {
            use_type_invariant(&*self);
        }
        let kept = Self { mode: self.mode, readonly, hidden: self.hidden };
        *self = kept;
    }

    pub fn set_hidden(&mut self, hidden: bool)
        ensures
            final(self)@ == (PermissionsView { hidden, ..old(self)@ }),
    {
        proof {
            use_type_invariant(&*self);
        }
        let kept = Self { mode: self.mode, readonly: self.readonly, hidden };
        *self = kept;
    }

    pub fn with_mode(self, mode: u32) -> (r: Self)
        ensures
            r@ == (PermissionsView { mode: masked(mode), ..self@ }),
    {
        proof {
            lemma_masked_fits(mode);
        }
        Self { mode: mode & 0o7777, readonly: self.readonly, hidden: self.hidden }
    }

    pub fn with_readonly(self, readonly: bool) -> (r: Self)
        ensures
            r@ == (PermissionsView { readonly, ..self@ }),
    {
        proof {
            use_type_invariant(self);
        }
        Self { mode: self.mode, readonly, hidden: self.hidden }
    }

    pub fn with_hidden(self, hidden: bool) -> (r: Self)
        ensures
            r@ == (PermissionsView { hidden, ..self@ }),
    {
        proof {
            use_type_invariant(self);
        }
        Self { mode: self.mode, readonly: self.readonly, hidden }
    }

    /// Whether two values hold the same bits and flags.
    pub fn same_as(self, other: Permissions) -> (r: bool)
        ensures
            r == (self@ == other@),
    {
        self.mode == other.mode && self.readonly == other.readonly && self.hidden == other.hidden
    }
}

impl Default for Permissions {
    fn default() -> (r: Self)
        ensures
            r@ == (PermissionsView { mode: 0o644, readonly: false, hidden: false }),
    {
        Self::default_file()
    }
}


/// What the platform records of an entry beyond the read-only flag.
#[derive(Debug, Clone, Copy, PartialEq, Eq, Structural)]
pub enum PlatformAttributes {
    /// The mode bits of a Unix file system.
    Unix { mode: u32 },
    /// The attribute bits of a Windows file system.
    Windows { attributes: u32 },
    /// A platform that records neither.
    Other,
}

/// What the file system reports of one entry, as plain values. Times are
/// whole seconds since the Unix epoch, absent where the file system does
/// not record them.
#[derive(Debug)]
pub struct FileProbe {
    pub is_symlink: bool,
    pub is_dir: bool,
    pub is_file: bool,
    pub len: u64,
    pub readonly: bool,
    pub platform: PlatformAttributes,
    pub file_name: Option<String>,
    pub modified: Option<u64>,
    pub created: Option<u64>,
    pub link_target: Option<String>,
}

/// The attribute bit of Windows that hides a file.
pub const FILE_ATTRIBUTE_HIDDEN: u32 = 0x2;

/// The text of an optional string.
pub open spec fn option_text(o: Option<String>) -> Option<Seq<char>> {
    match o {
        Some(s) => Some(s@),
        None => None,
    }
}

/// The kind of a probed entry, if it is one that can be replicated. A
/// symbolic link is a link whatever it points to.
pub open spec fn probed_type(probe: FileProbe) -> Option<FileType> {
    if probe.is_symlink {
        Some(FileType::Symlink)
    } else if probe.is_dir {
        Some(FileType::Directory)
    } else if probe.is_file {
        Some(FileType::File)
    } else {
        None
    }
}

/// The permissions of a probed entry. On Unix the mode bits are the file
/// system's and a leading dot hides the entry; on Windows the mode is made
/// up from the kind and the read-only flag, and the hidden attribute hides.
pub open spec fn probed_permissions(probe: FileProbe) -> PermissionsView {
    match probe.platform {
        PlatformAttributes::Unix { mode } => PermissionsView {
            mode: masked(mode),
            readonly: probe.readonly,
            hidden: probe.file_name matches Some(name) && name@.len() > 0 && name@[0] == '.',
        },
        PlatformAttributes::Windows { attributes } => PermissionsView {
            mode: if probe.is_dir {
                if probe.readonly {
                    0o555
                } else {
                    0o755
                }
            } else {
                if probe.readonly {
                    0o444
                } else {
                    0o644
                }
            },
            readonly: probe.readonly,
            hidden: (attributes & FILE_ATTRIBUTE_HIDDEN) != 0,
        },
        PlatformAttributes::Other => PermissionsView {
            mode: if probe.is_dir {
                0o755
            } else {
                0o644
            },
            readonly: probe.readonly,
            hidden: false,
        },
    }
}

/// The seconds of a system time read as a signed number: values past the
/// largest signed number wrap round to negative ones.
pub open spec fn signed_seconds(since_epoch: u64) -> int {
    if since_epoch <= i64::MAX {
        since_epoch as int
    } else {
        since_epoch - 0x1_0000_0000_0000_0000
    }
}

/// Whether a second lies within the years -9999 to 9999.
pub open spec fn in_time_range(seconds: int) -> bool {
    MIN_UNIX_SECONDS <= seconds <= MAX_UNIX_SECONDS
}

/// The instant of a system time given in whole seconds since the epoch,
/// where it lies within the years that can be held.
pub fn system_time_to_offset(since_epoch: u64) -> (r: Result<Timestamp, FileMetadataError>)
    ensures
        r is Ok <==> in_time_range(signed_seconds(since_epoch)),
        r matches Ok(t) ==> t.seconds == signed_seconds(since_epoch) && t.nanoseconds == 0,
        r matches Err(e) ==> e is Timestamp,
{
    let seconds: i64 = if since_epoch <= 0x7fff_ffff_ffff_ffff {
        since_epoch as i64
    } else {
        let above: u64 = since_epoch - 0x8000_0000_0000_0000;
        (above as i64) + i64::MIN
    };
    Timestamp::from_unix_timestamp(seconds)
}

/// Metadata of one entry.
#[derive(Debug, Eq)]
pub struct FileMetadata {
    file_type: FileType,
    size: u64,
    permissions: Permissions,
    mtime: Timestamp,
    ctime: Option<Timestamp>,
    symlink_target: Option<String>,
}

/// The mathematical value of [`FileMetadata`].
pub struct FileMetadataView {
    pub file_type: FileType,
    pub size: u64,
    pub permissions: PermissionsView,
    pub mtime: Timestamp,
    pub ctime: Option<Timestamp>,
    pub symlink_target: Option<Seq<char>>,
}

impl View for FileMetadata {
    type V = FileMetadataView;

    closed spec fn view(&self) -> FileMetadataView {
        FileMetadataView {
            file_type: self.file_type,
            size: self.size,
            permissions: self.permissions@,
            mtime: self.mtime,
            ctime: self.ctime,
            symlink_target: option_text(self.symlink_target),
        }
    }
}

/// What holds of metadata that describes a real entry: exactly the symbolic
/// links have no size and a target, and a directory has no size.
pub open spec fn well_formed(m: FileMetadataView) -> bool {
    &&& m.file_type == FileType::Symlink <==> (m.size == 0 && m.symlink_target is Some)
    &&& m.file_type == FileType::Directory ==> m.size == 0
}

/// Whether two entries differ in type, size, mode bits, modification time
/// or link target.
pub open spec fn differ(a: FileMetadataView, b: FileMetadataView) -> bool {
    a.file_type != b.file_type || a.size != b.size || a.permissions.mode != b.permissions.mode
        || a.mtime != b.mtime || a.symlink_target != b.symlink_target
}

/// Whether two entries agree in type, size, mode bits and link target, and
/// differ in modification time.
pub open spec fn differ_in_time_only(a: FileMetadataView, b: FileMetadataView) -> bool {
    a.file_type == b.file_type && a.size == b.size && a.permissions.mode == b.permissions.mode
        && a.symlink_target == b.symlink_target && a.mtime != b.mtime
}

/// Whether the probe is of a symbolic link whose target was not read.
pub open spec fn lacks_target(probe: FileProbe) -> bool {
    probe.is_symlink && probe.link_target is None
}

/// What is reported of a symbolic link whose target was not read.
pub open spec fn text_no_target() -> Seq<char> {
    "Symbolic link without a readable target"@
}

/// The metadata of a probed entry, with `now` standing in for a
/// modification time that the file system does not give. A directory and a
/// symbolic link are held with size 0, and a symbolic link is held only
/// with its target.
pub open spec fn captured(probe: FileProbe, now: Timestamp) -> Result<FileMetadataView, ()> {
    match probed_type(probe) {
        None => Err(()),
        Some(file_type) => {
            let mtime_ok = probe.modified matches Some(m) ==> in_time_range(signed_seconds(m));
            let ctime_ok = probe.created matches Some(c) ==> in_time_range(signed_seconds(c));
            if lacks_target(probe) || !mtime_ok || !ctime_ok {
                Err(())
            } else {
                Ok(
                    FileMetadataView {
                        file_type,
                        size: if file_type == FileType::File {
                            probe.len
                        } else {
                            0
                        },
                        permissions: probed_permissions(probe),
                        mtime: match probe.modified {
                            Some(m) => Timestamp {
                                seconds: signed_seconds(m) as i64,
                                nanoseconds: 0,
                            },
                            None => now,
                        },
                        ctime: match probe.created {
                            Some(c) => Some(
                                Timestamp { seconds: signed_seconds(c) as i64, nanoseconds: 0 },
                            ),
                            None => None,
                        },
                        symlink_target: if file_type == FileType::Symlink {
                            option_text(probe.link_target)
                        } else {
                            None
                        },
                    },
                )
            }
        },
    }
}

/// A regular file of the given size with the default permissions.
pub open spec fn file_at(size: u64, mtime: Timestamp, ctime: Timestamp) -> FileMetadataView {
    FileMetadataView {
        file_type: FileType::File,
        size,
        permissions: PermissionsView { mode: 0o644, readonly: false, hidden: false },
        mtime,
        ctime: Some(ctime),
        symlink_target: None,
    }
}

/// A directory with the default permissions.
pub open spec fn directory_at(mtime: Timestamp, ctime: Timestamp) -> FileMetadataView {
    FileMetadataView {
        file_type: FileType::Directory,
        size: 0,
        permissions: PermissionsView { mode: 0o755, readonly: false, hidden: false },
        mtime,
        ctime: Some(ctime),
        symlink_target: None,
    }
}

/// A symbolic link to `target`, open to everyone.
pub open spec fn symlink_at(target: Seq<char>, mtime: Timestamp, ctime: Timestamp) -> FileMetadataView {
    FileMetadataView {
        file_type: FileType::Symlink,
        size: 0,
        permissions: PermissionsView { mode: 0o777, readonly: false, hidden: false },
        mtime,
        ctime: Some(ctime),
        symlink_target: Some(target),
    }
}

/// The error that a failed capture reports: an entry of no known kind is
/// unsupported, a symbolic link without its target is reported as such,
/// anything else that fails is a time out of range.
pub open spec fn capture_failure(probe: FileProbe, e: FileMetadataError) -> bool {
    if probed_type(probe) is None {
        e is UnsupportedFileType
    } else if lacks_target(probe) {
        e matches FileMetadataError::Io(text) && text@ == text_no_target()
    } else {
        e is Timestamp
    }
}

/// Every entry that is captured is well formed.
pub proof fn lemma_captured_is_well_formed(probe: FileProbe, now: Timestamp)
    ensures
        captured(probe, now) matches Ok(m) ==> well_formed(m),
{
}

fn clone_text(o: &Option<String>) -> (r: Option<String>)
    ensures
        option_text(r) == option_text(*o),
{
    match o {
        Some(s) => Some(s.clone()),
        None => None,
    }
}

fn same_text(a: &Option<String>, b: &Option<String>) -> (r: bool)
    ensures
        r == (option_text(*a) == option_text(*b)),
{
    match (a, b) {
        (Some(x), Some(y)) => *x == *y,
        (None, None) => true,
        _ => false,
    }
}

fn same_instant(a: &Option<Timestamp>, b: &Option<Timestamp>) -> (r: bool)
    ensures
        r == (*a == *b),
{
    match (a, b) {
        (Some(x), Some(y)) => *x == *y,
        (None, None) => true,
        _ => false,
    }
}

fn starts_with_dot(name: &Option<String>) -> (r: bool)
    ensures
        r == (*name matches Some(n) && n@.len() > 0 && n@[0] == '.'),
{
    match name {
        Some(n) => {
            let chars = to_chars(n.as_str());
            chars.len() > 0 && chars[0] == '.'
        },
        None => false,
    }
}

impl Clone for FileMetadata {
    fn clone(&self) -> (r: Self)
        ensures
            r@ == self@,
    {
        FileMetadata {
            file_type: self.file_type,
            size: self.size,
            permissions: self.permissions,
            mtime: self.mtime,
            ctime: self.ctime,
            symlink_target: clone_text(&self.symlink_target),
        }
    }
}

impl PartialEq for FileMetadata {
    fn eq(&self, other: &Self) -> (r: bool) {
        self.file_type == other.file_type && self.size == other.size && self.permissions.same_as(
            other.permissions,
        ) && self.mtime == other.mtime && same_instant(&self.ctime, &other.ctime) && same_text(
            &self.symlink_target,
            &other.symlink_target,
        )
    }
}

impl PartialEqSpecImpl for FileMetadata {
    open spec fn obeys_eq_spec() -> bool {
        true
    }

    open spec fn eq_spec(&self, other: &Self) -> bool {
        self@ == other@
    }
}

impl FileMetadata {
    /// Metadata from its parts, without creation time or link target.
    pub fn new(file_type: FileType, size: u64, permissions: Permissions, mtime: Timestamp) -> (r:
        Self)
        ensures
            r@ == (FileMetadataView {
                file_type,
                size,
                permissions: permissions@,
                mtime,
                ctime: None,
                symlink_target: None,
            }),
    {
        Self { file_type, size, permissions, mtime, ctime: None, symlink_target: None }
    }

    /// The permissions that the file system reports of an entry.
    pub fn extract_permissions(probe: &FileProbe) -> (r: Permissions)
        ensures
            r@ == probed_permissions(*probe),
    {
        match probe.platform {
            PlatformAttributes::Unix { mode } => Permissions::new(
                mode,
                probe.readonly,
                starts_with_dot(&probe.file_name),
            ),
            PlatformAttributes::Windows { attributes } => {
                let hidden = (attributes & FILE_ATTRIBUTE_HIDDEN) != 0;
                let mode: u32 = if probe.is_dir {
                    if probe.readonly {
                        0o555
                    } else {
                        0o755
                    }
                } else {
                    if probe.readonly {
                        0o444
                    } else {
                        0o644
                    }
                };
                proof {
                    assert(0o555u32 & 0o7777 == 0o555) by (bit_vector);
                    assert(0o755u32 & 0o7777 == 0o755) by (bit_vector);
                    assert(0o444u32 & 0o7777 == 0o444) by (bit_vector);
                    assert(0o644u32 & 0o7777 == 0o644) by (bit_vector);
                }
                Permissions::new(mode, probe.readonly, hidden)
            },
            PlatformAttributes::Other => {
                let mode: u32 = if probe.is_dir {
                    0o755
                } else {
                    0o644
                };
                proof {
                    assert(0o755u32 & 0o7777 == 0o755) by (bit_vector);
                    assert(0o644u32 & 0o7777 == 0o644) by (bit_vector);
                }
                Permissions::new(mode, probe.readonly, false)
            },
        }
    }

    /// The metadata of a probed entry, with `now` for a modification time
    /// that the file system does not give.
    pub fn from_probe_at(probe: &FileProbe, now: Timestamp) -> (r: Result<Self, FileMetadataError>)
        ensures
            match r {
                Ok(m) => captured(*probe, now) == Ok::<FileMetadataView, ()>(m@),
                Err(e) => captured(*probe, now) is Err && capture_failure(*probe, e),
            },
            r matches Ok(m) ==> well_formed(m@),
    {
        let file_type = if probe.is_symlink {
            FileType::Symlink
        } else if probe.is_dir {
            FileType::Directory
        } else if probe.is_file {
            FileType::File
        } else {
            return Err(FileMetadataError::UnsupportedFileType);
        };
        if probe.is_symlink && probe.link_target.is_none() {
            return Err(
                FileMetadataError::Io("Symbolic link without a readable target".to_owned()),
            );
        }
        let permissions = Self::extract_permissions(probe);
        let mtime = match probe.modified {
            Some(m) => match system_time_to_offset(m) {
                Ok(at) => at,
                Err(e) => {
                    return Err(e);
                },
            },
            None => now,
        };
        let ctime = match probe.created {
            Some(c) => match system_time_to_offset(c) {
                Ok(at) => Some(at),
                Err(e) => {
                    return Err(e);
                },
            },
            None => None,
        };
        let symlink_target = if file_type == FileType::Symlink {
            clone_text(&probe.link_target)
        } else {
            None
        };
        let size = if file_type == FileType::File {
            probe.len
        } else {
            0
        };
        Ok(Self { file_type, size, permissions, mtime, ctime, symlink_target })
    }

    /// The metadata of a probed entry. Where the file system gives no
    /// modification time, the clock's current instant stands in.
    pub fn from_std_metadata(probe: &FileProbe) -> (r: Result<Self, FileMetadataError>)
        ensures
            exists|now: Timestamp|
                match r {
                    Ok(m) => #[trigger] captured(*probe, now) == Ok::<FileMetadataView, ()>(m@),
                    Err(e) => captured(*probe, now) is Err && capture_failure(*probe, e),
                },
            r matches Ok(m) ==> well_formed(m@),
    {
        let now = match probe.modified {
            Some(_) => Timestamp { seconds: 0, nanoseconds: 0 },
            None => Timestamp::now_utc(),
        };
        let r = Self::from_probe_at(probe, now);
        proof {
            assert(match r {
                Ok(m) => captured(*probe, now) == Ok::<FileMetadataView, ()>(m@),
                Err(e) => captured(*probe, now) is Err && capture_failure(*probe, e),
            });
        }
        r
    }

    pub fn file_type(&self) -> (r: FileType)
        ensures
            r == self@.file_type,
    {
        self.file_type
    }

    pub fn size(&self) -> (r: u64)
        ensures
            r == self@.size,
    {
        self.size
    }

    pub fn permissions(&self) -> (r: &Permissions)
        ensures
            r@ == self@.permissions,
    {
        &self.permissions
    }

    pub fn mtime(&self) -> (r: Timestamp)
        ensures
            r == self@.mtime,
    {
        self.mtime
    }

    pub fn ctime(&self) -> (r: Option<Timestamp>)
        ensures
            r == self@.ctime,
    {
        self.ctime
    }

    pub fn symlink_target(&self) -> (r: Option<&str>)
        ensures
            match r {
                Some(t) => self@.symlink_target == Some(t@),
                None => self@.symlink_target is None,
            },
    {
        match &self.symlink_target {
            Some(t) => Some(t.as_str()),
            None => None,
        }
    }

    pub fn set_file_type(&mut self, file_type: FileType)
        ensures
            final(self)@ == (FileMetadataView { file_type, ..old(self)@ }),
    {
        self.file_type = file_type;
    }

    pub fn set_size(&mut self, size: u64)
        ensures
            final(self)@ == (FileMetadataView { size, ..old(self)@ }),
    {
        self.size = size;
    }

    pub fn set_permissions(&mut self, permissions: Permissions)
        ensures
            final(self)@ == (FileMetadataView { permissions: permissions@, ..old(self)@ }),
    {
        self.permissions = permissions;
    }

    pub fn set_mtime(&mut self, mtime: Timestamp)
        ensures
            final(self)@ == (FileMetadataView { mtime, ..old(self)@ }),
    {
        self.mtime = mtime;
    }

    pub fn set_ctime(&mut self, ctime: Option<Timestamp>)
        ensures
            final(self)@ == (FileMetadataView { ctime, ..old(self)@ }),
    {
        self.ctime = ctime;
    }

    pub fn set_symlink_target(&mut self, target: Option<String>)
        ensures
            final(self)@ == (FileMetadataView {
                symlink_target: option_text(target),
                ..old(self)@
            }),
    {
        self.symlink_target = target;
    }

    pub fn with_ctime(self, ctime: Timestamp) -> (r: Self)
        ensures
            r@ == (FileMetadataView { ctime: Some(ctime), ..self@ }),
    {
        let mut r = self;
        r.ctime = Some(ctime);
        r
    }

    pub fn with_symlink_target(self, target: String) -> (r: Self)
        ensures
            r@ == (FileMetadataView { symlink_target: Some(target@), ..self@ }),
    {
        let mut r = self;
        r.symlink_target = Some(target);
        r
    }

    pub fn with_permissions(self, permissions: Permissions) -> (r: Self)
        ensures
            r@ == (FileMetadataView { permissions: permissions@, ..self@ }),
    {
        let mut r = self;
        r.permissions = permissions;
        r
    }

    /// A regular file of the given size, modified and created at the
    /// instants given.
    pub fn new_file_at(size: u64, mtime: Timestamp, ctime: Timestamp) -> (r: Self)
        ensures
            r@ == file_at(size, mtime, ctime),
            well_formed(r@),
    {
        Self {
            file_type: FileType::File,
            size,
            permissions: Permissions::default_file(),
            mtime,
            ctime: Some(ctime),
            symlink_target: None,
        }
    }

    /// A directory, modified and created at the instants given.
    pub fn new_directory_at(mtime: Timestamp, ctime: Timestamp) -> (r: Self)
        ensures
            r@ == directory_at(mtime, ctime),
            well_formed(r@),
    {
        Self {
            file_type: FileType::Directory,
            size: 0,
            permissions: Permissions::default_directory(),
            mtime,
            ctime: Some(ctime),
            symlink_target: None,
        }
    }

    /// A symbolic link to `target`, modified and created at the instants
    /// given. Its mode is `rwxrwxrwx`.
    pub fn new_symlink_at(target: String, mtime: Timestamp, ctime: Timestamp) -> (r: Self)
        ensures
            r@ == symlink_at(target@, mtime, ctime),
            well_formed(r@),
    {
        proof {
            assert(0o777u32 & 0o7777 == 0o777) by (bit_vector);
            assert(0o777u32 & 0o200 != 0) by (bit_vector);
        }
        Self {
            file_type: FileType::Symlink,
            size: 0,
            permissions: Permissions::from_mode(0o777),
            mtime,
            ctime: Some(ctime),
            symlink_target: Some(target),
        }
    }

    /// A regular file of the given size, modified and created now.
    pub fn new_file(size: u64) -> (r: Self)
        ensures
            exists|mtime: Timestamp, ctime: Timestamp| r@ == #[trigger] file_at(size, mtime, ctime),
            well_formed(r@),
    {
        let mtime = Timestamp::now_utc();
        let ctime = Timestamp::now_utc();
        Self::new_file_at(size, mtime, ctime)
    }

    /// A directory, modified and created now.
    pub fn new_directory() -> (r: Self)
        ensures
            exists|mtime: Timestamp, ctime: Timestamp| r@ == #[trigger] directory_at(mtime, ctime),
            well_formed(r@),
    {
        let mtime = Timestamp::now_utc();
        let ctime = Timestamp::now_utc();
        Self::new_directory_at(mtime, ctime)
    }

    /// A symbolic link to `target`, modified and created now.
    pub fn new_symlink(target: String) -> (r: Self)
        ensures
            exists|mtime: Timestamp, ctime: Timestamp| r@ == #[trigger] symlink_at(target@, mtime, ctime),
            well_formed(r@),
    {
        let mtime = Timestamp::now_utc();
        let ctime = Timestamp::now_utc();
        Self::new_symlink_at(target, mtime, ctime)
    }

    pub fn is_file(&self) -> (r: bool)
        ensures
            r == (self@.file_type == FileType::File),
    {
        self.file_type == FileType::File
    }

    pub fn is_dir(&self) -> (r: bool)
        ensures
            r == (self@.file_type == FileType::Directory),
    {
        self.file_type == FileType::Directory
    }

    pub fn is_symlink(&self) -> (r: bool)
        ensures
            r == (self@.file_type == FileType::Symlink),
    {
        self.file_type == FileType::Symlink
    }

    /// Whether this entry differs from `other` in type, size, mode bits,
    /// modification time or link target.
    pub fn differs_from(&self, other: &Self) -> (r: bool)
        ensures
            r == differ(self@, other@),
    {
        self.file_type != other.file_type || self.size != other.size || self.permissions.mode()
            != other.permissions.mode() || self.mtime != other.mtime || !same_text(
            &self.symlink_target,
            &other.symlink_target,
        )
    }

    /// Whether this entry differs from `other` in modification time and in
    /// nothing else that `differs_from` looks at.
    pub fn only_times_differ(&self, other: &Self) -> (r: bool)
        ensures
            r == differ_in_time_only(self@, other@),
    {
        self.file_type == other.file_type && self.size == other.size && self.permissions.mode()
            == other.permissions.mode() && same_text(&self.symlink_target, &other.symlink_target)
            && self.mtime != other.mtime
    }
}

impl Default for FileMetadata {
    fn default() -> (r: Self)
        ensures
            r@.file_type == FileType::File,
            r@.size == 0,
            well_formed(r@),
    {
        Self::new_file(0)
    }
}

} // verus!
