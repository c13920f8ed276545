//! Errors of the depth-of-field effect.
use vstd::prelude::*;

verus! {

/// Why the depth-of-field effect could not be applied.
#[derive(Debug)]
pub enum DepthOfFieldError {
    /// The adjustments do not name the image the depth map belongs to.
    UnresolvedImagePath,
    /// The AI state could not be locked; holds the lock error's text.
    StateLocked(String),
    /// No depth map has been computed yet.
    NoCachedDepthMap,
    /// The converted pixels do not fill an image of the requested size.
    ImageBufferTooSmall,
    /// The PNG encoder failed; holds the encoder's error text.
    PngEncode(String),
}

impl DepthOfFieldError {
    /// The message that the effect reports for this error.
    pub open spec fn spec_message(&self) -> Seq<char> {
        match self {
            DepthOfFieldError::UnresolvedImagePath => "Could not resolve image path from adjustments"@,
            DepthOfFieldError::StateLocked(detail) => "AI state locked: "@ + detail@,
            DepthOfFieldError::NoCachedDepthMap =>
                "No cached depth map found. Run generate_ai_depth_mask first to compute a depth map."@,
            DepthOfFieldError::ImageBufferTooSmall => "Failed to create image buffer from bokeh f16 data"@,
            DepthOfFieldError::PngEncode(detail) => "PNG encode failed: "@ + detail@,
        }
    }

    /// The message that the effect reports for this error.
    pub fn message(&self) -> (m: String)
        ensures
            m@ == self.spec_message(),
    {
        match self {
            DepthOfFieldError::UnresolvedImagePath => String::from_str(
                "Could not resolve image path from adjustments",
            ),
            DepthOfFieldError::StateLocked(detail) => {
                let mut m = String::from_str("AI state locked: ");
                m.append(detail.as_str());
                m
            },
            DepthOfFieldError::NoCachedDepthMap => String::from_str(
                "No cached depth map found. Run generate_ai_depth_mask first to compute a depth map.",
            ),
            DepthOfFieldError::ImageBufferTooSmall => String::from_str(
                "Failed to create image buffer from bokeh f16 data",
            ),
            DepthOfFieldError::PngEncode(detail) => {
                let mut m = String::from_str("PNG encode failed: ");
                m.append(detail.as_str());
                m
            },
        }
    }
}

} // verus!
