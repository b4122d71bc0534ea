//! Decrypts Authy backup tokens and converts them to other authenticator formats.

pub mod decrypt;
pub mod gui_state;
pub mod json;
pub mod primitives;
pub mod schemas;
pub mod text;
pub mod totp;

pub use decrypt::{decrypt_csv_text, decrypt_json_text, decrypt_token, DecryptedToken, TokenRecord};
pub use schemas::{get_schema_formatter, SchemaFormatter};
