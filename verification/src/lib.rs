//! Badminton recording review: the rules behind the app.
pub mod analysis;
pub mod annotations;
pub mod bundle;
pub mod capture_day;
pub mod carry;
pub mod detect;
pub mod disk;
pub mod drafts;
pub mod eval;
pub mod export;
pub mod fingerprint;
pub mod grouping;
pub mod harness;
pub mod laws;
pub mod ledger;
pub mod library;
pub mod media;
pub mod numerals;
pub mod offers;
pub mod options;
pub mod path;
pub mod player;
pub mod receive;
pub mod scan;
pub mod schema;
pub mod segment;
pub mod share;
pub mod store;
pub mod table;
pub mod text;
pub mod timeline;
pub mod upkeep;
pub mod waveform;
pub mod work;
pub mod worker;
