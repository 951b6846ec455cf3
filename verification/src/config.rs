//! The settings the program runs with.

use vstd::prelude::*;
use crate::frame::Dimensions;

verus! {

/// The settings the program runs with.
#[derive(Clone, Debug)]
pub struct Config {
    /// The access key of the S3 account.
    pub aws_access_key_id: String,
    /// The secret key of the S3 account.
    pub aws_secret_access_key: String,
    /// The S3 endpoint.
    pub aws_endpoint_url: String,
    /// The S3 region.
    pub aws_region: String,
    /// The bucket that holds the videos.
    pub s3_bucket_name: String,
    /// The address of the pixelflut server.
    pub pixelflut_address: String,
    /// The widest a video is scaled to, in pixels.
    pub max_width: u32,
    /// The tallest a video is scaled to, in pixels.
    pub max_height: u32,
    /// The canvas' width, when it is not asked of the server.
    pub pixelflut_width: Option<u32>,
    /// The canvas' height, when it is not asked of the server.
    pub pixelflut_height: Option<u32>,
    /// How many TCP streams carry the pixels.
    pub n_streams: usize,
    /// Send binary `PB` commands (pixelpwnr-server) rather than the standard
    /// text `PX` commands.
    pub binary: bool,
}

/// The scaled width a video gets when nothing else is set.
pub const DEFAULT_MAX_WIDTH: u32 = 640;

/// The scaled height a video gets when nothing else is set.
pub const DEFAULT_MAX_HEIGHT: u32 = 540;

impl Config {
    /// The canvas to draw on when both its width and its height are
    /// configured; `None` means it is to be asked of the server.
    pub fn canvas_override(&self) -> (canvas: Option<Dimensions>)
        ensures
            match (self.pixelflut_width, self.pixelflut_height) {
                (Some(w), Some(h)) => canvas matches Some(d) && d.spec_width() == w && d.spec_height()
                    == h,
                _ => canvas is None,
            },
    {
        match (self.pixelflut_width, self.pixelflut_height) {
            (Some(width), Some(height)) => Some(Dimensions::new(width, height)),
            _ => None,
        }
    }

    /// The number of streams opened: the configured number, and at least one.
    pub fn stream_count(&self) -> (n: usize)
        ensures
            n == if self.n_streams == 0 {
                1
            } else {
                self.n_streams
            },
    {
        if self.n_streams == 0 {
            1
        } else {
            self.n_streams
        }
    }
}

} // verus!
