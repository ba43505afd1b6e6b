//! Verified core of an SDK for StepManiaX dance pads.
//!
//! The library holds everything that decides or computes: the wire protocol, the
//! state of a pad and of both pads together, lights and animations, configuration
//! formats and recordings. It does no input or output and starts no threads; times
//! are nanoseconds that the caller hands in.

pub mod config;
pub mod connection;
pub mod device;
pub mod error;
pub mod gif;
pub mod laws;
pub mod legacy_config;
pub mod lights;
pub mod manager;
pub mod pad_lights;
pub mod probe;
pub mod profile;
pub mod protocol;
pub mod recorder;
pub mod sensor;
pub mod single;
pub mod slots;
pub mod test_helpers;
pub mod text;
pub mod upload;

pub use config::{PackedSensorSettings, SmxConfig};
pub use connection::{CommandCallback, HidDeviceInfo, SmxDeviceInfo};
pub use device::{SmxEvent, SmxInfo, UpdateReason};
pub use error::SmxError;
pub use lights::{AnimationState, LightsType};
pub use manager::{PanelTestMode, SmxManager};
pub use protocol::{
    BYTES_PER_PAD_16, BYTES_PER_PAD_25, HID_REPORT_COMMAND, LEDS_PER_PANEL_16, LEDS_PER_PANEL_25,
    NUM_PANELS, PLATFORM_STRIP_LEDS, SERIAL_SIZE, SMX_USB_PRODUCT_ID, SMX_USB_PRODUCT_STRING,
    SMX_USB_VENDOR_ID,
};
pub use sensor::{SensorTestData, SensorTestMode};
pub use upload::{prepare_upload, UploadCommand, UploadData};
