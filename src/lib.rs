//! A catalog of GRIB forecast messages in object storage.
//!
//! - [`numeric_id`]: the packed 64-bit identifier of a GRIB parameter.
//! - [`database`] and [`tables`]: the parameter database, by identifier and by
//!   abbreviation, and how it is filled from the GDAL parameter tables.
//! - [`datetime`], [`version`] and [`codec`]: reference datetimes, the layout versions of
//!   the GEFS dataset, and the codec between coordinates and paths.
//! - [`coord_labels`]: the sorted, distinct labels of each axis of a dataset.
//! - [`lex`], [`path`] and [`text`]: string order, path segments and decimal text.
pub mod codec;
pub mod coord_labels;
pub mod database;
pub mod datetime;
pub mod lex;
pub mod numeric_id;
pub mod parameter;
pub mod path;
pub mod tables;
pub mod text;
pub mod version;
