//! Supporting types: the locale-formatting strategy.

pub mod opt_locale_loc;

pub use opt_locale_loc::OptLocaleLoc;
pub use opt_locale_loc::OptLocaleLocParseError;
