use vstd::prelude::*;

use crate::decrypt::DecryptedToken;
use crate::text::str_equal;

pub mod aegis;
pub mod authy;
pub mod ente;
pub mod uri;
pub mod vaultwarden;

pub use aegis::AegisFormatter;
pub use authy::AuthyFormatter;
pub use ente::EnteFormatter;
pub use uri::encode_uri_component;
pub use vaultwarden::VaultwardenFormatter;

verus! {

/// An output format for decrypted tokens.
pub trait SchemaFormatter {
    /// Whether `text` is an output of this format for `tokens`.
    spec fn formats_as(&self, tokens: Seq<DecryptedToken>, text: Seq<char>) -> bool;

    /// Writes the tokens in this format.
    fn format(&self, tokens: &[DecryptedToken]) -> (text: String)
        ensures
            self.formats_as(tokens@, text@),
    ;
}

/// One of the supported output formats.
pub enum Formatter {
    Authy(AuthyFormatter),
    Ente(EnteFormatter),
    Aegis(AegisFormatter),
    Vaultwarden(VaultwardenFormatter),
}

impl SchemaFormatter for Formatter {
    open spec fn formats_as(&self, tokens: Seq<DecryptedToken>, text: Seq<char>) -> bool {
        match self {
            Formatter::Authy(f) => f.formats_as(tokens, text),
            Formatter::Ente(f) => f.formats_as(tokens, text),
            Formatter::Aegis(f) => f.formats_as(tokens, text),
            Formatter::Vaultwarden(f) => f.formats_as(tokens, text),
        }
    }

    fn format(&self, tokens: &[DecryptedToken]) -> (text: String) {
        match self {
            Formatter::Authy(f) => f.format(tokens),
            Formatter::Ente(f) => f.format(tokens),
            Formatter::Aegis(f) => f.format(tokens),
            Formatter::Vaultwarden(f) => f.format(tokens),
        }
    }
}

/// The formatter that a schema name selects.
pub open spec fn schema_for(name: Seq<char>) -> Option<Formatter> {
    if name == "authy"@ {
        Some(Formatter::Authy(AuthyFormatter))
    } else if name == "ente"@ {
        Some(Formatter::Ente(EnteFormatter))
    } else if name == "aegis"@ {
        Some(Formatter::Aegis(AegisFormatter))
    } else if name == "vaultwarden"@ {
        Some(Formatter::Vaultwarden(VaultwardenFormatter))
    } else {
        None
    }
}

/// The formatter for a schema name: "authy", "ente", "aegis" or "vaultwarden".
pub fn get_schema_formatter(schema: &str) -> (res: Option<Formatter>)
    ensures
        res == schema_for(schema@),
{
    if str_equal(schema, "authy") {
        Some(Formatter::Authy(AuthyFormatter))
    } else if str_equal(schema, "ente") {
        Some(Formatter::Ente(EnteFormatter))
    } else if str_equal(schema, "aegis") {
        Some(Formatter::Aegis(AegisFormatter))
    } else if str_equal(schema, "vaultwarden") {
        Some(Formatter::Vaultwarden(VaultwardenFormatter))
    } else {
        None
    }
}

} // verus!
