//! Turns a grayscale pixel grid into a closed relief solid: every pixel becomes
//! a box whose sloped top follows a per-scanline running sum of the pixel
//! intensities, standing on one flat base plane.
//!
//! The library works on exact integers. A mesh point holds its horizontal
//! coordinates in half-pixel units and its height in steps of 1/128 of a pixel;
//! points of the base plane carry a flag that lowers them further by the base
//! thickness. Scaling to model units is left to the caller.
pub mod grid;
pub mod height;
pub mod mesh;
pub mod relief;
