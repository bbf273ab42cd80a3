//! Calibration reference rasters, one triple per spectral channel.
//!
//! A channel's references — dark frame, flat frame and defect mask — are
//! loaded once by the host program and handed to the core by value; the core
//! never reads them from anywhere else and never mutates them.

use vstd::prelude::*;

use crate::buffer::ImageBuffer;
use crate::enums::Camera;
use crate::error::Error;

verus! {

/// One channel's calibration references.
#[derive(Debug)]
pub struct ChannelCal {
    pub dark: ImageBuffer,
    pub flat: ImageBuffer,
    pub mask: ImageBuffer,
}

impl ChannelCal {
    /// All three references are well-formed rasters.
    pub open spec fn wf(&self) -> bool {
        self.dark.wf() && self.flat.wf() && self.mask.wf()
    }
}

/// The full calibration reference set: one triple per primary channel.
#[derive(Debug)]
pub struct CalibrationSet {
    pub red: ChannelCal,
    pub green: ChannelCal,
    pub blue: ChannelCal,
}

impl CalibrationSet {
    /// Every channel's references are well formed.
    pub open spec fn wf(&self) -> bool {
        self.red.wf() && self.green.wf() && self.blue.wf()
    }

    /// The references that calibrate `camera`, in spec form.
    pub open spec fn spec_for_camera(&self, camera: Camera) -> Option<&ChannelCal> {
        match camera {
            Camera::RED => Some(&self.red),
            Camera::GREEN => Some(&self.green),
            Camera::BLUE => Some(&self.blue),
            _ => None,
        }
    }

    /// The references that calibrate `camera`; only the three primary
    /// channels carry calibration data.
    pub fn for_camera(&self, camera: Camera) -> (r: Result<&ChannelCal, Error>)
        ensures
            r is Ok <==> self.spec_for_camera(camera) is Some,
            r matches Ok(c) ==> Some(c) == self.spec_for_camera(camera),
            r matches Err(e) ==> e == Error::UnsupportedChannel,
    {
        match camera {
            Camera::RED => Ok(&self.red),
            Camera::GREEN => Ok(&self.green),
            Camera::BLUE => Ok(&self.blue),
            _ => Err(Error::UnsupportedChannel),
        }
    }
}

} // verus!
