//! The decisions of reading a file through the firmware: finding the root
//! directory of the volume the boot loader was loaded from, opening a file
//! and reading it whole. Each firmware call reports a status (and, where it
//! hands back a protocol, whether that protocol is there); these functions
//! decide from that what happens next.
use vstd::prelude::*;
use crate::uefi::Status;

verus! {

/// The calls that find the root directory, in order.
#[derive(Clone, Copy, PartialEq, Eq, Structural, Debug)]
pub enum RootStage {
    /// Asking for the loaded image protocol of the boot loader's handle.
    LoadedImage,
    /// Asking for the simple file system protocol of the image's device.
    FileSystem,
    /// Opening the file system's volume.
    OpenVolume,
}

/// What follows a call that finds the root directory.
#[derive(Clone, Copy, PartialEq, Eq, Structural, Debug)]
pub enum RootStep {
    /// Make the next call.
    Next(RootStage),
    /// The root directory has been found.
    Found,
    /// Give up with this status.
    Failed(Status),
}

/// What follows the call of `stage` that reported `status`, with
/// `present` telling whether the protocol it hands back is there: a failed
/// call or a missing protocol ends the search with `Aborted`.
pub fn root_step(stage: RootStage, status: Status, present: bool) -> (step: RootStep)
    ensures
        step == if status != Status::Success || !present {
            RootStep::Failed(Status::Aborted)
        } else {
            match stage {
                RootStage::LoadedImage => RootStep::Next(RootStage::FileSystem),
                RootStage::FileSystem => RootStep::Next(RootStage::OpenVolume),
                RootStage::OpenVolume => RootStep::Found,
            }
        },
{
    if status.is_err() || !present {
        return RootStep::Failed(Status::Aborted);
    }
    match stage {
        RootStage::LoadedImage => RootStep::Next(RootStage::FileSystem),
        RootStage::FileSystem => RootStep::Next(RootStage::OpenVolume),
        RootStage::OpenVolume => RootStep::Found,
    }
}

/// The outcome of opening a file whose open call reported `status`, with
/// `present` telling whether a file handle came back: either failure gives `Aborted`.
pub fn open_outcome(status: Status, present: bool) -> (r: Result<(), Status>)
    ensures
        r == if status != Status::Success || !present {
            Err(Status::Aborted)
        } else {
            Ok(())
        },
{
    if status.is_err() || !present {
        return Err(Status::Aborted);
    }
    Ok(())
}

/// The calls that read a file, in order.
#[derive(Clone, Copy, PartialEq, Eq, Structural, Debug)]
pub enum ReadStage {
    /// Asking for the size of the file's information.
    InfoSize,
    /// Reading the file's information.
    Info,
    /// Reading the file's data.
    Data,
}

/// What follows a call that reads a file.
#[derive(Clone, Copy, PartialEq, Eq, Structural, Debug)]
pub enum ReadStep {
    /// Make the next call.
    Next(ReadStage),
    /// The data has been read.
    Done,
    /// Give up with this status.
    Failed(Status),
}

/// What follows the call of `stage` that reported `status`: the size query
/// may answer `BufferTooSmall` (any other failure gives `BadBufferSize`), a
/// failed information read gives `Aborted`, a failed data read `LoadError`.
pub fn read_step(stage: ReadStage, status: Status) -> (step: ReadStep)
    ensures
        step == match stage {
            ReadStage::InfoSize => if status != Status::BufferTooSmall && status != Status::Success {
                ReadStep::Failed(Status::BadBufferSize)
            } else {
                ReadStep::Next(ReadStage::Info)
            },
            ReadStage::Info => if status != Status::Success {
                ReadStep::Failed(Status::Aborted)
            } else {
                ReadStep::Next(ReadStage::Data)
            },
            ReadStage::Data => if status != Status::Success {
                ReadStep::Failed(Status::LoadError)
            } else {
                ReadStep::Done
            },
        },
{
    match stage {
        ReadStage::InfoSize => {
            if status != Status::BufferTooSmall && status.is_err() {
                ReadStep::Failed(Status::BadBufferSize)
            } else {
                ReadStep::Next(ReadStage::Info)
            }
        },
        ReadStage::Info => {
            if status.is_err() {
                ReadStep::Failed(Status::Aborted)
            } else {
                ReadStep::Next(ReadStage::Data)
            }
        },
        ReadStage::Data => {
            if status.is_err() {
                ReadStep::Failed(Status::LoadError)
            } else {
                ReadStep::Done
            }
        },
    }
}

/// The steps of loading a file, in order.
#[derive(Clone, Copy, PartialEq, Eq, Structural, Debug)]
pub enum LoadStage {
    /// Opening the file.
    Open,
    /// Reading it whole.
    Read,
}

/// What follows a step of loading a file.
#[derive(Clone, Copy, PartialEq, Eq, Structural, Debug)]
pub enum LoadStep {
    /// Take the next step.
    Next(LoadStage),
    /// The file has been loaded.
    Done,
    /// Give up with this status.
    Failed(Status),
}

/// What follows the step `stage` that succeeded or not (`ok`): a failure
/// of either step gives `Aborted`, whatever it reported.
pub fn load_step(stage: LoadStage, ok: bool) -> (step: LoadStep)
    ensures
        step == if !ok {
            LoadStep::Failed(Status::Aborted)
        } else {
            match stage {
                LoadStage::Open => LoadStep::Next(LoadStage::Read),
                LoadStage::Read => LoadStep::Done,
            }
        },
{
    if !ok {
        return LoadStep::Failed(Status::Aborted);
    }
    match stage {
        LoadStage::Open => LoadStep::Next(LoadStage::Read),
        LoadStage::Read => LoadStep::Done,
    }
}

} // verus!
