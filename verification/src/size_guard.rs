use vstd::prelude::*;
use crate::error::ProcessingError;

verus! {

/// The ceiling on the size of an input file, in bytes: 100 MiB.
pub const MAX_FILE_SIZE: u64 = 104_857_600;

/// Whether a file of `size` bytes may be read under a ceiling of `max_size` bytes.
pub open spec fn within_limit(size: u64, max_size: u64) -> bool {
    size <= max_size
}

/// Holds a file's size against an explicit ceiling.
///
/// A size equal to the ceiling passes. A larger one is refused with the size
/// that was seen and the ceiling it was held against.
pub fn check_file_size(size: u64, max_size: u64) -> (r: Result<(), ProcessingError>)
    ensures
        within_limit(size, max_size) <==> r is Ok,
        !within_limit(size, max_size) ==> r == Err::<(), ProcessingError>(
            ProcessingError::FileTooLarge { size, max_size },
        ),
{
    if size > max_size {
        return Err(ProcessingError::FileTooLarge { size, max_size });
    }
    Ok(())
}

/// Decides from the outcome of asking for a file's size whether the file may
/// be read, under the ceiling [`MAX_FILE_SIZE`].
///
/// A size that could not be had stops the run with the system's error: a
/// file that is not there is not taken for an empty one.
pub fn validate_file_size(stat: Result<u64, std::io::Error>) -> (r: Result<(), ProcessingError>)
    ensures
        match stat {
            Ok(size) => if size <= MAX_FILE_SIZE {
                r is Ok
            } else {
                r == Err::<(), ProcessingError>(
                    ProcessingError::FileTooLarge { size, max_size: MAX_FILE_SIZE },
                )
            },
            Err(e) => r == Err::<(), ProcessingError>(ProcessingError::Io(e)),
        },
{
    match stat {
        Ok(size) => check_file_size(size, MAX_FILE_SIZE),
        Err(e) => Err(ProcessingError::Io(e)),
    }
}

} // verus!
