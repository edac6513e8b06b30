//! What can go wrong while an archive is read.

use crate::text::{decimal, hexadecimal, push_decimal, push_hexadecimal};
use vstd::prelude::*;
use vstd::string::StringExecFns;

verus! {

/// An error that the library itself finds.
#[derive(Clone, Debug, PartialEq)]
pub enum ZippityError {
    /// Entry name is longer than `u16::MAX`.
    TooLongEntryName { entry_name: String },
    /// Two entries have the same name.
    DuplicateEntryName { entry_name: String },
    /// The data of an entry has not the size that was reported.
    LengthMismatch { entry_name: String, expected_size: u64, actual_size: u64 },
    /// The data of an entry has not the CRC32 that was given.
    Crc32Mismatch { entry_name: String, expected_crc: u32, actual_crc: u32 },
    /// Attempt to seek before the start of the archive.
    SeekingBeforeStart,
}

impl ZippityError {
    /// What the error says.
    pub open spec fn spec_message(self) -> Seq<char> {
        match self {
            ZippityError::TooLongEntryName { .. } => {
                "Entry name too long (length must fit into 16bit)"@
            },
            ZippityError::DuplicateEntryName { entry_name } => {
                "Duplicate entry name "@ + entry_name@
            },
            ZippityError::LengthMismatch { entry_name, expected_size, actual_size } => {
                "Entry "@ + entry_name@ + " reports length "@ + decimal(expected_size as nat)
                    + " B, but was "@ + decimal(actual_size as nat) + " B"@
            },
            ZippityError::Crc32Mismatch { entry_name, expected_crc, actual_crc } => {
                "Entry "@ + entry_name@ + " was given a CRC value "@ + hexadecimal(
                    expected_crc as nat,
                    8,
                ) + " that does not match the computed "@ + hexadecimal(actual_crc as nat, 8)
            },
            ZippityError::SeekingBeforeStart => {
                "Attempting to seek before the start of the file"@
            },
        }
    }

    /// What the error says.
    pub fn message(&self) -> (text: String)
        ensures
            text@ == self.spec_message(),
    {
        match self {
            ZippityError::TooLongEntryName { .. } => String::from_str(
                "Entry name too long (length must fit into 16bit)",
            ),
            ZippityError::DuplicateEntryName { entry_name } => {
                let mut text = String::from_str("Duplicate entry name ");
                text.append(entry_name.as_str());
                text
            },
            ZippityError::LengthMismatch { entry_name, expected_size, actual_size } => {
                let mut text = String::from_str("Entry ");
                text.append(entry_name.as_str());
                text.append(" reports length ");
                push_decimal(&mut text, *expected_size);
                text.append(" B, but was ");
                push_decimal(&mut text, *actual_size);
                text.append(" B");
                text
            },
            ZippityError::Crc32Mismatch { entry_name, expected_crc, actual_crc } => {
                let mut text = String::from_str("Entry ");
                text.append(entry_name.as_str());
                text.append(" was given a CRC value ");
                push_hexadecimal(&mut text, *expected_crc, 8);
                text.append(" that does not match the computed ");
                push_hexadecimal(&mut text, *actual_crc, 8);
                text
            },
            ZippityError::SeekingBeforeStart => String::from_str(
                "Attempting to seek before the start of the file",
            ),
        }
    }
}

/// An error that stops reading.
#[derive(Debug)]
pub enum ReadError<E> {
    /// The data of an entry could not be read.
    Source(E),
    /// The data of an entry was read, but is not what was announced.
    Zippity(ZippityError),
    /// The reader of an entry was sent to a position and reported another one.
    SeekMismatch { expected_position: u64, actual_position: u64 },
}

impl<E> ReadError<E> {
    /// Whether the error is about the data of the entry that is called `entry_name` and was
    /// reported to have `size` bytes.
    pub open spec fn concerns(self, entry_name: String, size: u64) -> bool {
        match self {
            ReadError::Source(_) => true,
            ReadError::Zippity(ZippityError::LengthMismatch { entry_name: name, expected_size, .. }) => {
                &&& name == entry_name
                &&& expected_size == size
            },
            ReadError::Zippity(
                ZippityError::Crc32Mismatch { entry_name: name, expected_crc, actual_crc },
            ) => {
                &&& name == entry_name
                &&& expected_crc != actual_crc
            },
            ReadError::Zippity(_) => false,
            ReadError::SeekMismatch { expected_position, actual_position } => expected_position
                != actual_position,
        }
    }
}

} // verus!
