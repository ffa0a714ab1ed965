//! Decoding of the 128-byte display identification block that a monitor
//! hands to its host: who made it, what it can show, and how it is timed.
//!
//! [`decode`] takes the bytes of a block from memory, and [`parse`] takes
//! them from a byte source, a chunk at a time. Both read the block in one
//! pass from front to back and stop at the first error. What each sequence
//! of bytes comes to is written down once, as `EDID::decode`, and every
//! function that reads bytes is held to it.
//!
//! A [`Reader`] keeps on record what its source answered to each request.
//! The contracts say by that record which bytes are handed out and which
//! error comes back: the bytes of the source in its order, none lost, and
//! its failure or the want of data as its last answer has it.
//!
//! Measures are kept as whole numbers in the unit in which the block counts
//! them: millivolts, millimetres, hundredths of gamma, 1024ths of a
//! chromaticity coordinate.

pub mod color;
pub mod descriptor;
pub mod detailed;
pub mod display;
pub mod edid;
pub mod error;
pub mod laws;
pub mod product;
pub mod reader;
pub mod slot;
pub mod timings;

pub use crate::color::{Chromaticity, ColorCharacteristics, WhitePoint};
pub use crate::descriptor::{MonitorDescriptor, SecondaryTiming};
pub use crate::detailed::{DetailedTiming, StereoType, SyncLine, SyncPolarity, SyncType};
pub use crate::display::{
    DPMSFeatures, DisplayParameters, DisplayType, ImageSize, SignalLevel, SupportedSync, VideoInput,
};
pub use crate::edid::{decode, parse, Fields, NoSource, EDID};
pub use crate::error::{ensure, DecodeError};
pub use crate::product::{ManufactureDate, ManufacturerID, ProductInformation, Version};
pub use crate::reader::{Read, Reader};
pub use crate::slot::{MonitorDescriptors, Slot};
pub use crate::timings::{AspectRatio, EstablishedTiming, StandardTiming, Timings};
