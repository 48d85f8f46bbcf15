//! Verified core of a GRIB2 viewer: reading parameter and surface keys,
//! selecting messages of a GRIB2 file, listing what a file holds, and the
//! integer side of drawing overlays.
pub mod calendar;
pub mod catalog;
pub mod error;
pub mod framing;
pub mod grib_helpers;
pub mod grib_source;
pub mod grid;
pub mod text;
pub mod viewer;
pub mod windbarbs;
