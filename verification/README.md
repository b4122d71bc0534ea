# authy_decryptor

Decrypts Authy backup tokens (from a minimal CSV export or an encrypted JSON
export) and writes them for other authenticators: Authy's own JSON, Aegis,
Ente Auth (`otpauth` URIs) or Vaultwarden / Bitwarden. It also computes TOTP
codes (RFC 6238, HMAC-SHA1) from base32 secrets.

Layout:

- `src/` — the library, verified with Verus:
  - `decrypt.rs` — records, seed decryption (base64, PBKDF2-HMAC-SHA1,
    AES-256-CBC), secret validation, the decryption of whole exports,
    schema selection;
  - `schemas/` — the four output formats and URI-component encoding;
  - `json.rs` — a JSON value model and its pretty printer;
  - `totp.rs` — lenient base32 secrets and TOTP codes;
  - `text.rs` — character-level string utilities;
  - `gui_state.rs` — the state of the desktop window;
  - `primitives.rs` — the calls into std and the outside crates, with the
    contracts that the proofs rely on.
- `tests/` — tests of the library.
- `app/` — the program: argument handling, file I/O, password prompt, reading
  CSV/JSON records with serde, and the egui window.
