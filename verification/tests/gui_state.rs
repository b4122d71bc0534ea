use std::path::PathBuf;

use authy_decryptor::gui_state::{AppState, Status};

#[test]
fn new_state_defaults_to_the_authy_schema() {
    let s = AppState::new(None, String::new(), String::new());
    assert_eq!(s.schema, "authy");
    assert!(matches!(s.status(), Status::Idle));
    assert_eq!(s.output(), "");
    let s = AppState::new(Some(PathBuf::from("a.csv")), "ente".to_string(), "pw".to_string());
    assert_eq!(s.schema, "ente");
    assert_eq!(s.password, "pw");
    assert_eq!(s.input_path, Some(PathBuf::from("a.csv")));
}

#[test]
fn decrypt_needs_a_file_and_a_password() {
    assert!(!AppState::new(None, String::new(), "pw".to_string()).can_decrypt());
    assert!(!AppState::new(Some(PathBuf::from("a.csv")), String::new(), String::new()).can_decrypt());
    assert!(AppState::new(Some(PathBuf::from("a.csv")), String::new(), "pw".to_string()).can_decrypt());
}

#[test]
fn decrypt_results_update_output_and_status() {
    let mut s = AppState::new(None, "aegis".to_string(), String::new());
    s.finish_decrypt(Ok("out".to_string()));
    assert_eq!(s.output(), "out");
    assert!(s.can_save());
    assert!(matches!(s.status(), Status::Success(m) if m == "Decrypted with aegis schema."));
    s.fail("oops".to_string());
    assert_eq!(s.output(), "out");
    assert!(matches!(s.status(), Status::Failure(m) if m == "oops"));
    s.finish_decrypt(Err("bad".to_string()));
    assert_eq!(s.output(), "");
    assert!(!s.can_save());
    assert!(matches!(s.status(), Status::Failure(m) if m == "bad"));
    s.succeed("Saved".to_string());
    assert!(matches!(s.status(), Status::Success(m) if m == "Saved"));
}

#[test]
fn default_output_names() {
    assert_eq!(AppState::new(None, "ente".to_string(), String::new()).default_output_name(), "authy-export.txt");
    assert_eq!(AppState::new(None, String::new(), String::new()).default_output_name(), "authy-export.json");
}

#[test]
fn default_state_is_empty() {
    let s = AppState::default();
    assert!(s.input_path.is_none());
    assert_eq!(s.schema, "");
    assert_eq!(s.password, "");
    assert_eq!(s.output(), "");
    assert!(matches!(s.status(), Status::Idle));
    assert!(!s.can_decrypt());
    assert!(!s.can_save());
}
