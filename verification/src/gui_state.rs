use std::path::PathBuf;

use vstd::prelude::*;
use vstd::string::StringExecFns;

use crate::text::str_equal;

verus! {

/// A file-system path, carried through unchanged.
#[verifier::external_type_specification]
#[verifier::external_body]
pub struct ExPathBuf(PathBuf);

/// The outcome shown to the user of the desktop window.
pub enum Status {
    Idle,
    Success(String),
    Failure(String),
}

/// The state of the desktop window: the chosen file, schema and password, the
/// last output and the status line.
pub struct AppState {
    pub input_path: Option<PathBuf>,
    pub schema: String,
    pub password: String,
    output: String,
    status: Status,
}

impl Default for AppState {
    /// An empty state: no file, empty schema, password and output, and an idle
    /// status line.
    fn default() -> (res: Self)
        ensures
            res.input_path_view() is None,
            res.schema_view().len() == 0,
            res.password_view().len() == 0,
            res.output_view().len() == 0,
            res.status_view() is Idle,
    {
        AppState {
            input_path: None,
            schema: String::new(),
            password: String::new(),
            output: String::new(),
            status: Status::Idle,
        }
    }
}

/// The schema that an empty schema name stands for.
pub open spec fn schema_or_default(schema: Seq<char>) -> Seq<char> {
    if schema.len() == 0 {
        "authy"@
    } else {
        schema
    }
}

impl AppState {
    /// The chosen input file.
    pub closed spec fn input_path_view(&self) -> Option<PathBuf> {
        self.input_path
    }

    /// The chosen schema name.
    pub closed spec fn schema_view(&self) -> Seq<char> {
        self.schema@
    }

    /// The entered password.
    pub closed spec fn password_view(&self) -> Seq<char> {
        self.password@
    }

    /// The last output text.
    pub closed spec fn output_view(&self) -> Seq<char> {
        self.output@
    }

    /// The status line.
    pub closed spec fn status_view(&self) -> Status {
        self.status
    }

    /// A fresh window state; an empty schema name selects "authy".
    pub fn new(input_path: Option<PathBuf>, schema: String, password: String) -> (res: Self)
        ensures
            res.input_path_view() == input_path,
            res.schema_view() == schema_or_default(schema@),
            res.password_view() == password@,
            res.output_view().len() == 0,
            res.status_view() is Idle,
    {
        let schema = if schema.as_str().is_empty() {
            String::from_str("authy")
        } else {
            schema
        };
        AppState { input_path, schema, password, output: String::new(), status: Status::Idle }
    }

    /// The last output text.
    pub fn output(&self) -> (res: &str)
        ensures
            res@ == self.output_view(),
    {
        self.output.as_str()
    }

    /// The status line.
    pub fn status(&self) -> (res: &Status)
        ensures
            *res == self.status_view(),
    {
        &self.status
    }

    /// Whether decryption can start: a file is chosen and a password entered.
    pub fn can_decrypt(&self) -> (res: bool)
        ensures
            res == (self.input_path_view() is Some && self.password_view().len() > 0),
    {
        self.input_path.is_some() && !self.password.as_str().is_empty()
    }

    /// Whether there is output to save.
    pub fn can_save(&self) -> (res: bool)
        ensures
            res == (self.output_view().len() > 0),
    {
        !self.output.as_str().is_empty()
    }

    /// Takes the result of a decryption: its text becomes the output, with a
    /// success line naming the schema; an error becomes the status and clears
    /// the output.
    pub fn finish_decrypt(&mut self, result: Result<String, String>)
        ensures
            final(self).input_path_view() == old(self).input_path_view(),
            final(self).schema_view() == old(self).schema_view(),
            final(self).password_view() == old(self).password_view(),
            match result {
                Ok(out) => {
                    &&& final(self).output_view() == out@
                    &&& final(self).status_view() matches Status::Success(m) && m@ == "Decrypted with "@
                        + old(self).schema_view() + " schema."@
                },
                Err(e) => {
                    &&& final(self).output_view().len() == 0
                    &&& final(self).status_view() matches Status::Failure(m) && m@ == e@
                },
            },
    {
        match result {
            Ok(out) => {
                let mut msg = String::from_str("Decrypted with ");
                msg.append(self.schema.as_str());
                msg.append(" schema.");
                self.status = Status::Success(msg);
                self.output = out;
            },
            Err(e) => {
                self.status = Status::Failure(e);
                self.output = String::new();
            },
        }
    }

    /// Shows an error line; the output stays.
    pub fn fail(&mut self, message: String)
        ensures
            final(self).input_path_view() == old(self).input_path_view(),
            final(self).schema_view() == old(self).schema_view(),
            final(self).password_view() == old(self).password_view(),
            final(self).output_view() == old(self).output_view(),
            final(self).status_view() matches Status::Failure(m) && m@ == message@,
    {
        self.status = Status::Failure(message);
    }

    /// Shows a success line; the output stays.
    pub fn succeed(&mut self, message: String)
        ensures
            final(self).input_path_view() == old(self).input_path_view(),
            final(self).schema_view() == old(self).schema_view(),
            final(self).password_view() == old(self).password_view(),
            final(self).output_view() == old(self).output_view(),
            final(self).status_view() matches Status::Success(m) && m@ == message@,
    {
        self.status = Status::Success(message);
    }

    /// The file name offered when saving: a text file for the Ente schema,
    /// a JSON file otherwise.
    pub fn default_output_name(&self) -> (res: &'static str)
        ensures
            res@ == if self.schema_view() == "ente"@ {
                "authy-export.txt"@
            } else {
                "authy-export.json"@
            },
    {
        if str_equal(self.schema.as_str(), "ente") {
            "authy-export.txt"
        } else {
            "authy-export.json"
        }
    }
}

} // verus!
