//! Which image size a render configuration asks for: the configuration
//! gives an aspect ratio, a width and a height, each or none of them, and
//! all three together are one too many.

use vstd::prelude::*;

verus! {

/// The height of an image for which the configuration gives no size.
pub const DEFAULT_HEIGHT: usize = 144;

/// How the size of the image follows from the configuration. The aspect
/// ratio meant in the last two cases is the configured one, or else the
/// default of sixteen to nine.
#[derive(Clone, Copy, Debug, PartialEq, Eq, Structural)]
pub enum Sizing {
    /// Width and height are both given; the aspect ratio is their quotient.
    Exact { width: usize, height: usize },
    /// The width is given; the height is the width divided by the aspect
    /// ratio.
    FromWidth { width: usize },
    /// The height is fixed; the width is the aspect ratio times the height.
    FromHeight { height: usize },
}

/// Why a configuration gives no image size.
#[derive(Clone, Copy, Debug, PartialEq, Eq, Structural)]
pub enum ConfigError {
    /// An aspect ratio was given together with both a width and a height.
    ResolutionConflict,
}

impl ConfigError {
    /// The report of this error.
    pub fn message(&self) -> (text: &'static str)
        ensures
            text@ == "Can only specify one resolution dimension along with an aspect ratio."@,
    {
        "Can only specify one resolution dimension along with an aspect ratio."
    }
}

/// The sizing that a configuration asks for.
pub open spec fn sizing_of(
    has_aspect_ratio: bool,
    width: Option<usize>,
    height: Option<usize>,
) -> Result<Sizing, ConfigError> {
    match (width, height) {
        (Some(w), Some(h)) => if has_aspect_ratio {
            Err(ConfigError::ResolutionConflict)
        } else {
            Ok(Sizing::Exact { width: w, height: h })
        },
        (Some(w), None) => Ok(Sizing::FromWidth { width: w }),
        (None, Some(h)) => Ok(Sizing::FromHeight { height: h }),
        (None, None) => Ok(Sizing::FromHeight { height: DEFAULT_HEIGHT }),
    }
}

/// Decides how the image's size follows from the configuration:
/// `has_aspect_ratio` tells whether an aspect ratio was given.
pub fn sizing(has_aspect_ratio: bool, width: Option<usize>, height: Option<usize>) -> (r: Result<
    Sizing,
    ConfigError,
>)
    ensures
        r == sizing_of(has_aspect_ratio, width, height),
{
    match (width, height) {
        (Some(w), Some(h)) => {
            if has_aspect_ratio {
                Err(ConfigError::ResolutionConflict)
            } else {
                Ok(Sizing::Exact { width: w, height: h })
            }
        },
        (Some(w), None) => Ok(Sizing::FromWidth { width: w }),
        (None, Some(h)) => Ok(Sizing::FromHeight { height: h }),
        (None, None) => Ok(Sizing::FromHeight { height: DEFAULT_HEIGHT }),
    }
}

/// A configuration is refused exactly when it gives all three of aspect
/// ratio, width and height; a dimension that it gives is the image's.
pub proof fn lemma_sizing_keeps_what_is_given(
    has_aspect_ratio: bool,
    width: Option<usize>,
    height: Option<usize>,
)
    ensures
        sizing_of(has_aspect_ratio, width, height) is Err <==> (has_aspect_ratio && width is Some
            && height is Some),
        sizing_of(has_aspect_ratio, width, height) matches Ok(Sizing::Exact { width: w, height: h })
            ==> width == Some(w) && height == Some(h),
        sizing_of(has_aspect_ratio, width, height) matches Ok(Sizing::FromWidth { width: w })
            ==> width == Some(w) && height is None,
        sizing_of(has_aspect_ratio, width, height) matches Ok(Sizing::FromHeight { height: h })
            ==> width is None && (height == Some(h) || (height is None && h == DEFAULT_HEIGHT)),
{
}

} // verus!
