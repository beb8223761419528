//! Presentation surface rules: what acquiring the next frame's texture
//! reports, and when a resize reconfigures the surface.

use vstd::prelude::*;

verus! {

/// Why the next surface texture could not be acquired.
#[derive(Clone, Copy, Debug, PartialEq, Eq, Structural)]
pub enum SurfaceAcquireError {
    Timeout,
    Occluded,
    Outdated,
    Lost,
    Validation,
}

/// The message of an acquire error.
pub open spec fn surface_error_message(e: SurfaceAcquireError) -> Seq<char> {
    match e {
        SurfaceAcquireError::Timeout => "surface acquire timed out"@,
        SurfaceAcquireError::Occluded => "surface is occluded"@,
        SurfaceAcquireError::Outdated => "surface configuration is outdated"@,
        SurfaceAcquireError::Lost => "surface was lost"@,
        SurfaceAcquireError::Validation => "surface validation failed"@,
    }
}

impl SurfaceAcquireError {
    /// The error's message.
    pub fn message(&self) -> (r: &'static str)
        ensures
            r@ == surface_error_message(*self),
    {
        match self {
            SurfaceAcquireError::Timeout => "surface acquire timed out",
            SurfaceAcquireError::Occluded => "surface is occluded",
            SurfaceAcquireError::Outdated => "surface configuration is outdated",
            SurfaceAcquireError::Lost => "surface was lost",
            SurfaceAcquireError::Validation => "surface validation failed",
        }
    }
}

/// The status the surface reports when asked for its current texture.
#[derive(Clone, Copy, Debug, PartialEq, Eq, Structural)]
pub enum SurfaceStatus {
    Success,
    Suboptimal,
    Timeout,
    Occluded,
    Outdated,
    Lost,
    Validation,
}

/// The outcome of acquiring: a texture (`Ok`) on success, also when it is
/// suboptimal; the matching error otherwise.
pub open spec fn acquire_outcome_spec(status: SurfaceStatus) -> Result<(), SurfaceAcquireError> {
    match status {
        SurfaceStatus::Success | SurfaceStatus::Suboptimal => Ok(()),
        SurfaceStatus::Timeout => Err(SurfaceAcquireError::Timeout),
        SurfaceStatus::Occluded => Err(SurfaceAcquireError::Occluded),
        SurfaceStatus::Outdated => Err(SurfaceAcquireError::Outdated),
        SurfaceStatus::Lost => Err(SurfaceAcquireError::Lost),
        SurfaceStatus::Validation => Err(SurfaceAcquireError::Validation),
    }
}

/// What acquiring the current texture yields for a reported status.
pub fn acquire_outcome(status: SurfaceStatus) -> (r: Result<(), SurfaceAcquireError>)
    ensures
        r == acquire_outcome_spec(status),
{
    match status {
        SurfaceStatus::Success | SurfaceStatus::Suboptimal => Ok(()),
        SurfaceStatus::Timeout => Err(SurfaceAcquireError::Timeout),
        SurfaceStatus::Occluded => Err(SurfaceAcquireError::Occluded),
        SurfaceStatus::Outdated => Err(SurfaceAcquireError::Outdated),
        SurfaceStatus::Lost => Err(SurfaceAcquireError::Lost),
        SurfaceStatus::Validation => Err(SurfaceAcquireError::Validation),
    }
}

/// The configured size after a resize request: a request with a zero side is
/// ignored (`None`, nothing is reconfigured), any other becomes the new size.
pub fn resized_surface(width: u32, height: u32) -> (r: Option<(u32, u32)>)
    ensures
        r == (if width > 0 && height > 0 {
            Some((width, height))
        } else {
            None::<(u32, u32)>
        }),
{
    if width > 0 && height > 0 {
        Some((width, height))
    } else {
        None
    }
}

} // verus!
