//! A fixed 3x3 box blur over interleaved RGB pixel buffers, implemented twice:
//! a scalar reference kernel and a lane-grouped kernel. Both are proved to
//! return the same blurred image, byte for byte: border pixels are copied
//! unchanged, and each interior channel is the truncating average of the nine
//! samples in its 3x3 neighborhood.

pub mod kernel;
pub mod model;

pub use kernel::blur_rgb_scalar;
pub use kernel::blur_rgb_simd;
pub use kernel::try_blur_rgb_scalar;
pub use kernel::try_blur_rgb_simd;
pub use kernel::BlurError;
pub use kernel::LANE;

pub use model::blur_spec;
pub use model::blurred_channel;
pub use model::is_border;
pub use model::is_interior;
pub use model::neighbor_sum;
pub use model::pix;
pub use model::valid_image;
