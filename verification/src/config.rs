//! The settings of a render, and what makes them invalid.

use crate::scalar::Scalar;
use crate::vec3::Vec3;
use vstd::prelude::*;

verus! {

/// Code of the number 180, the upper limit of the field of view in degrees.
pub const HALF_TURN_CODE: i32 = 0x4334_0000;

/// Why settings were refused.
#[derive(Clone, Copy, Debug, PartialEq, Eq, Structural)]
pub enum ConfigError {
    /// The number of samples per pixel is not positive.
    NoSamples,
    /// The number of pixels, width times height, does not fit the machine.
    TooManyPixels,
    /// The number of bounces is negative.
    NegativeDepth,
    /// The vertical field of view is not a number above 0 and below 180.
    FieldOfView,
    /// The camera looks at the point where it stands.
    NoDirection,
    /// The exposure ends before it starts.
    Exposure,
}

/// What a caller asks of a render.
#[derive(Clone, Copy, Debug)]
pub struct Settings {
    pub width: usize,
    pub height: usize,
    pub samples_per_pixel: i32,
    pub max_depth: i32,
    pub vfov: Scalar,
    pub lookfrom: Vec3,
    pub lookat: Vec3,
    pub time0: Scalar,
    pub time1: Scalar,
}

/// Two values are the same number, the two zeros counting as one.
pub open spec fn same_number(a: Scalar, b: Scalar) -> bool {
    !a.is_nan_spec() && !b.is_nan_spec() && a.rank() == b.rank()
}

impl Settings {
    /// The field of view is a number strictly between 0 and 180 degrees.
    pub open spec fn fov_in_range(self) -> bool {
        (Scalar { code: 0 }).lt_spec(self.vfov) && self.vfov.lt_spec(Scalar { code: HALF_TURN_CODE })
    }

    /// The camera's position and its target are the same point.
    pub open spec fn looks_at_itself(self) -> bool {
        &&& same_number(self.lookfrom.coords()[0], self.lookat.coords()[0])
        &&& same_number(self.lookfrom.coords()[1], self.lookat.coords()[1])
        &&& same_number(self.lookfrom.coords()[2], self.lookat.coords()[2])
    }

    /// The first reason, in the order of `ConfigError`, for which the
    /// settings are invalid; none for valid settings.
    pub open spec fn defect(self) -> Option<ConfigError> {
        if self.samples_per_pixel <= 0 {
            Some(ConfigError::NoSamples)
        } else if self.width * self.height > usize::MAX {
            Some(ConfigError::TooManyPixels)
        } else if self.max_depth < 0 {
            Some(ConfigError::NegativeDepth)
        } else if !self.fov_in_range() {
            Some(ConfigError::FieldOfView)
        } else if self.looks_at_itself() {
            Some(ConfigError::NoDirection)
        } else if self.time1.lt_spec(self.time0) {
            Some(ConfigError::Exposure)
        } else {
            None
        }
    }

    /// Checks the settings before a render. Valid settings give the number
    /// of pixels; invalid ones give the first reason that applies.
    pub fn validate(&self) -> (r: Result<usize, ConfigError>)
        ensures
            match r {
                Ok(pixels) => self.defect() is None && pixels == self.width * self.height,
                Err(e) => self.defect() == Some(e),
            },
    {
        if self.samples_per_pixel <= 0 {
            return Err(ConfigError::NoSamples);
        }
        let pixels = match self.width.checked_mul(self.height) {
            Some(n) => n,
            None => {
                return Err(ConfigError::TooManyPixels);
            },
        };
        if self.max_depth < 0 {
            return Err(ConfigError::NegativeDepth);
        }
        if !(Scalar::zero().lt(self.vfov) && self.vfov.lt(Scalar { code: HALF_TURN_CODE })) {
            return Err(ConfigError::FieldOfView);
        }
        if same(self.lookfrom.x(), self.lookat.x()) && same(self.lookfrom.y(), self.lookat.y())
            && same(self.lookfrom.z(), self.lookat.z()) {
            return Err(ConfigError::NoDirection);
        }
        if self.time1.lt(self.time0) {
            return Err(ConfigError::Exposure);
        }
        Ok(pixels)
    }
}

fn same(a: Scalar, b: Scalar) -> (r: bool)
    ensures
        r == same_number(a, b),
{
    a.le(b) && b.le(a)
}

} // verus!
