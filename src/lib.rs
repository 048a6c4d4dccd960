//! Sphere eversion frames: the integer and text side of the generator.
//!
//! The surface itself is evaluated in floating point by the program around
//! this library; here stand the parts whose behaviour is exact: reading
//! decimal numbers, the strip-selection language, the replication plan that
//! tiles a sampled patch around the sphere, the schedule of the eversion's
//! phases, grid sizing, the framing of the emitted scene, and the frame's
//! configuration.

mod config;
mod numtext;
mod scene;
mod strips;

pub use config::{Config, EasyAtomic, Setting};
pub use numtext::{
    all_digits, decimal_run_end, digit_value, digits_value, fits_i64, is_decimal, is_sign,
    number_end, radix_text_value, str_to_i64,
};
pub use scene::{
    be_bytes, geometry_open, grid_divisions, latest_started, mesh_header_bytes,
    scheduled_operation, window_operation, FormatType, STO,
};
pub use strips::{
    is_separator, lemma_parts_mask_shape, lemma_replication_plan, mark_all, parse_parts,
    parts_from, parts_spec, replication_plan, replication_spec, side_bit, side_prefix, side_turn,
    sign_bits, PartsError, StripTransform, PART_BOTH, PART_NEG, PART_POS,
};
