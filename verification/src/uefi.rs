//! Data types of the UEFI firmware interface that the boot loader uses.
use vstd::prelude::*;

verus! {

/// A 128-bit identifier of a firmware protocol.
#[derive(Clone, Copy, Debug)]
pub struct Guid(pub u32, pub u16, pub u16, pub [u8; 8]);

/// Status codes of firmware calls.
#[derive(Clone, Copy, PartialEq, Eq, Structural, Debug)]
pub enum Status {
    Success,
    LoadError,
    InvalidParameter,
    Unsupported,
    BadBufferSize,
    BufferTooSmall,
    NotReady,
    DeviceError,
    WriteProtected,
    OutOfResources,
    VolumeCorrupted,
    VolumeFull,
    NoMedia,
    MediaChanged,
    NotFound,
    AccessDenied,
    NoResponse,
    NoMapping,
    Timeout,
    NotStarted,
    AlreadyStarted,
    Aborted,
    IcmpError,
    TftpErorr,
    ProtocolError,
    IncompatibleVersion,
    SecurityViolation,
    CrcError,
    EndOfMedia,
    EndOfFile,
    InvalidLanguage,
    CompromisedData,
    IpAddressConflict,
    HttpError,
    UnknownGlyph,
    DeleteFailure,
    WriteFailure,
    WarnBufferTooSmall,
    StaleData,
    FileSystem,
    ResetRequired,
}

/// The firmware's numeric code for a status (the warnings sit above `i32::MAX`).
pub open spec fn status_code(s: Status) -> usize {
    match s {
        Status::Success => 0,
        Status::LoadError => 1,
        Status::InvalidParameter => 2,
        Status::Unsupported => 3,
        Status::BadBufferSize => 4,
        Status::BufferTooSmall => 5,
        Status::NotReady => 6,
        Status::DeviceError => 7,
        Status::WriteProtected => 8,
        Status::OutOfResources => 9,
        Status::VolumeCorrupted => 10,
        Status::VolumeFull => 11,
        Status::NoMedia => 12,
        Status::MediaChanged => 13,
        Status::NotFound => 14,
        Status::AccessDenied => 15,
        Status::NoResponse => 16,
        Status::NoMapping => 17,
        Status::Timeout => 18,
        Status::NotStarted => 19,
        Status::AlreadyStarted => 20,
        Status::Aborted => 21,
        Status::IcmpError => 22,
        Status::TftpErorr => 23,
        Status::ProtocolError => 24,
        Status::IncompatibleVersion => 25,
        Status::SecurityViolation => 26,
        Status::CrcError => 27,
        Status::EndOfMedia => 28,
        Status::EndOfFile => 31,
        Status::InvalidLanguage => 32,
        Status::CompromisedData => 33,
        Status::IpAddressConflict => 34,
        Status::HttpError => 35,
        Status::UnknownGlyph => 0x80000001usize,
        Status::DeleteFailure => 0x80000002usize,
        Status::WriteFailure => 0x80000003usize,
        Status::WarnBufferTooSmall => 0x80000004usize,
        Status::StaleData => 0x80000005usize,
        Status::FileSystem => 0x80000006usize,
        Status::ResetRequired => 0x80000007usize,
    }
}

impl Status {
    /// The firmware's numeric code for this status.
    pub fn code(&self) -> (c: usize)
        ensures
            c == status_code(*self),
    {
        match self {
            Status::Success => 0,
            Status::LoadError => 1,
            Status::InvalidParameter => 2,
            Status::Unsupported => 3,
            Status::BadBufferSize => 4,
            Status::BufferTooSmall => 5,
            Status::NotReady => 6,
            Status::DeviceError => 7,
            Status::WriteProtected => 8,
            Status::OutOfResources => 9,
            Status::VolumeCorrupted => 10,
            Status::VolumeFull => 11,
            Status::NoMedia => 12,
            Status::MediaChanged => 13,
            Status::NotFound => 14,
            Status::AccessDenied => 15,
            Status::NoResponse => 16,
            Status::NoMapping => 17,
            Status::Timeout => 18,
            Status::NotStarted => 19,
            Status::AlreadyStarted => 20,
            Status::Aborted => 21,
            Status::IcmpError => 22,
            Status::TftpErorr => 23,
            Status::ProtocolError => 24,
            Status::IncompatibleVersion => 25,
            Status::SecurityViolation => 26,
            Status::CrcError => 27,
            Status::EndOfMedia => 28,
            Status::EndOfFile => 31,
            Status::InvalidLanguage => 32,
            Status::CompromisedData => 33,
            Status::IpAddressConflict => 34,
            Status::HttpError => 35,
            Status::UnknownGlyph => 0x80000001usize,
            Status::DeleteFailure => 0x80000002usize,
            Status::WriteFailure => 0x80000003usize,
            Status::WarnBufferTooSmall => 0x80000004usize,
            Status::StaleData => 0x80000005usize,
            Status::FileSystem => 0x80000006usize,
            Status::ResetRequired => 0x80000007usize,
        }
    }

    /// The status with the firmware's numeric code `c`, or `None` for a code
    /// that no status has.
    pub fn from_code(c: usize) -> (s: Option<Status>)
        ensures
            match s {
                Some(st) => status_code(st) == c,
                None => forall|st: Status| #[trigger] status_code(st) != c,
            },
    {
        match c {
            0 => Some(Status::Success),
            1 => Some(Status::LoadError),
            2 => Some(Status::InvalidParameter),
            3 => Some(Status::Unsupported),
            4 => Some(Status::BadBufferSize),
            5 => Some(Status::BufferTooSmall),
            6 => Some(Status::NotReady),
            7 => Some(Status::DeviceError),
            8 => Some(Status::WriteProtected),
            9 => Some(Status::OutOfResources),
            10 => Some(Status::VolumeCorrupted),
            11 => Some(Status::VolumeFull),
            12 => Some(Status::NoMedia),
            13 => Some(Status::MediaChanged),
            14 => Some(Status::NotFound),
            15 => Some(Status::AccessDenied),
            16 => Some(Status::NoResponse),
            17 => Some(Status::NoMapping),
            18 => Some(Status::Timeout),
            19 => Some(Status::NotStarted),
            20 => Some(Status::AlreadyStarted),
            21 => Some(Status::Aborted),
            22 => Some(Status::IcmpError),
            23 => Some(Status::TftpErorr),
            24 => Some(Status::ProtocolError),
            25 => Some(Status::IncompatibleVersion),
            26 => Some(Status::SecurityViolation),
            27 => Some(Status::CrcError),
            28 => Some(Status::EndOfMedia),
            31 => Some(Status::EndOfFile),
            32 => Some(Status::InvalidLanguage),
            33 => Some(Status::CompromisedData),
            34 => Some(Status::IpAddressConflict),
            35 => Some(Status::HttpError),
            0x80000001 => Some(Status::UnknownGlyph),
            0x80000002 => Some(Status::DeleteFailure),
            0x80000003 => Some(Status::WriteFailure),
            0x80000004 => Some(Status::WarnBufferTooSmall),
            0x80000005 => Some(Status::StaleData),
            0x80000006 => Some(Status::FileSystem),
            0x80000007 => Some(Status::ResetRequired),
            _ => None,
        }
    }

    /// Whether the call succeeded.
    pub fn is_ok(&self) -> (ok: bool)
        ensures
            ok == (*self == Status::Success),
    {
        *self == Status::Success
    }

    /// Whether the call failed (any status but success).
    pub fn is_err(&self) -> (err: bool)
        ensures
            err == (*self != Status::Success),
    {
        *self != Status::Success
    }
}

/// How a page allocation picks its pages.
#[derive(Clone, Copy, PartialEq, Eq, Structural, Debug)]
pub enum AllocateType {
    AllocateAnyPages,
    AllocateMaxAddress,
    AllocateAddress,
    MaxAllocateType,
}

/// The channel masks of a bit-mask pixel format.
#[derive(Clone, Copy, PartialEq, Eq, Structural, Debug)]
pub struct PixelBitmask {
    pub red_mask: u32,
    pub green_mask: u32,
    pub blue_mask: u32,
    pub reserved_mask: u32,
}

/// How the frame buffer lays out a pixel.
#[derive(Clone, Copy, PartialEq, Eq, Structural, Debug)]
pub enum PixelFormat {
    PixelRedGreenBlueReserved8BitPerColor,
    PixelBlueGreenRedReserved8BitPerColor,
    PixelBitMask,
    PixelBltOnly,
    PixelFormatMax,
}

/// One pixel of a block transfer.
#[derive(Clone, Copy, PartialEq, Eq, Structural, Debug)]
pub struct BltPixel {
    pub blue: u8,
    pub green: u8,
    pub red: u8,
    pub reserved: u8,
}

/// The kinds of block transfer.
#[derive(Clone, Copy, PartialEq, Eq, Structural, Debug)]
pub enum BltOperation {
    VideoFill,
    VideoToBltBuffer,
    BufferToVideo,
    VideoToVideo,
    Max,
}

} // verus!
