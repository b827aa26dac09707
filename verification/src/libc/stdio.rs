//! `stdio.h`

pub mod convert;
pub mod directive;
pub mod format_laws;
pub mod joined;
pub mod laws;
pub mod numerals;
pub mod output_laws;
pub mod printf;
pub mod scan_laws;
pub mod scanf;
pub mod text;
