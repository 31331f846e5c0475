//! Collection filters, `.osu` file reading, library scanning and sign-in for
//! an osu! beatmap library, with every rule stated as a contract.

pub mod text;
pub mod text_laws;
pub mod natural;
pub mod single;
pub mod decimal;
pub mod numeral;
pub mod short_numbers;
pub mod outside;
pub mod rounding;
pub mod number_laws;
pub mod table;
pub mod path;
pub mod path_laws;
pub mod local;
pub mod query;
pub mod file_laws;
pub mod osu_file;
pub mod beatmap_laws;
pub mod scan;
pub mod library_laws;
pub mod filters;
pub mod encoding;
pub mod random_text;
pub mod osu_oauth;
pub mod sign_in;
pub mod session_laws;
pub mod search_laws;
pub mod condition_laws;
pub mod name_laws;
pub mod round_trip;
pub mod control_laws;
pub mod typed_laws;
pub mod code_laws;
