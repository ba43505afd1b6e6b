//! Errors of the device layer.

use vstd::prelude::*;

verus! {

/// What can go wrong with a device.
#[derive(Debug)]
pub enum SmxError {
    /// The HID layer failed, with its own words.
    Hid(String),
    /// There is no device, or it is gone.
    NotConnected,
    /// A packet could not be understood.
    InvalidPacket,
    /// A command was not answered in time.
    Timeout,
}

impl SmxError {
    /// The text of [`SmxError::message`].
    pub open spec fn message_text(&self) -> Seq<char> {
        match *self {
            SmxError::Hid(reason) => "HID error: "@ + reason@,
            SmxError::NotConnected => "device not connected"@,
            SmxError::InvalidPacket => "invalid packet"@,
            SmxError::Timeout => "command timeout"@,
        }
    }

    /// The error in words.
    pub fn message(&self) -> (text: String)
        ensures
            text@ == self.message_text(),
    {
        match self {
            SmxError::Hid(reason) => {
                let mut text = "HID error: ".to_owned();
                text.append(reason.as_str());
                text
            },
            SmxError::NotConnected => "device not connected".to_owned(),
            SmxError::InvalidPacket => "invalid packet".to_owned(),
            SmxError::Timeout => "command timeout".to_owned(),
        }
    }
}

} // verus!
