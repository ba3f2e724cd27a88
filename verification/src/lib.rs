//! Photo filters on planar Oklab data, with an EXIF metadata parser.
pub mod exif;
pub mod text;
pub mod film_preset;
pub mod filter;
pub mod grayscale;
pub mod planes;
pub mod median_blur;
pub mod cube_lut;
pub mod auto_levels;
pub mod basecurve;
pub mod invert;
