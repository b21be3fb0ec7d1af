//! What can go wrong in the store and at the daemon's edge.

use vstd::prelude::*;

verus! {

/// A failure of the credential store itself.
#[derive(Clone, Copy, Debug, PartialEq, Eq, Structural)]
pub enum StoreError {
    /// A counter record exists but does not hold a counter. It is never read
    /// as zero: that would reset the replay protection.
    CorruptCounter,
    /// The counter stands at its largest value and cannot be advanced.
    CounterExhausted,
}

/// A failure that ends the daemon. What the relay loop can recover from
/// never becomes one.
#[derive(Debug)]
pub enum Error {
    /// Reading from or writing to the device failed.
    Io(String),
    /// The HID device could not be opened.
    HidDevice(String),
    /// The operating system gave no home directory.
    HomeDirectoryNotFound,
}

impl StoreError {
    /// The text shown for this failure.
    pub open spec fn message_spec(self) -> Seq<char> {
        match self {
            StoreError::CorruptCounter => "counter record is corrupt"@,
            StoreError::CounterExhausted => "counter cannot be advanced further"@,
        }
    }

    /// The text shown for this failure.
    pub fn message(&self) -> (r: String)
        ensures
            r@ == self.message_spec(),
    {
        match self {
            StoreError::CorruptCounter => "counter record is corrupt".to_owned(),
            StoreError::CounterExhausted => "counter cannot be advanced further".to_owned(),
        }
    }
}

impl Error {
    /// The text shown for this failure: what was attempted, then the cause.
    pub open spec fn message_spec(self) -> Seq<char> {
        match self {
            Error::Io(cause) => "I/O error: "@ + cause@,
            Error::HidDevice(cause) => "Failed to open HID device: "@ + cause@,
            Error::HomeDirectoryNotFound =>
                "Home directory path could not be retrieved from the operating system"@,
        }
    }

    /// The text shown for this failure: what was attempted, then the cause.
    pub fn message(&self) -> (r: String)
        ensures
            r@ == self.message_spec(),
    {
        match self {
            Error::Io(cause) => {
                let mut text = "I/O error: ".to_owned();
                text.push_str(cause.as_str());
                text
            },
            Error::HidDevice(cause) => {
                let mut text = "Failed to open HID device: ".to_owned();
                text.push_str(cause.as_str());
                text
            },
            Error::HomeDirectoryNotFound =>
                "Home directory path could not be retrieved from the operating system".to_owned(),
        }
    }
}

} // verus!
