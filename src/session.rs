use vstd::prelude::*;
use vstd::string::StringExecFns;

verus! {

/// The screen that the application shows.
#[derive(Debug, Clone, PartialEq)]
pub enum AppState {
    /// Waiting for a password and a choice of operation.
    MainMenu,
    /// An operation succeeded; the message names the output file.
    ShowResult(String),
    /// An operation failed; the message says why.
    ShowError(String),
}

/// What the application remembers between events: the screen, the password
/// being typed, and the directory where file choosers open.
pub struct EzEncryptApp {
    pub state: AppState,
    pub password: String,
    pub executable_dir: String,
}

/// The message shown after a file was encrypted to `output_path`.
pub fn encrypted_message(output_path: &str) -> (r: String)
    ensures
        r@ == "File encrypted successfully!\nOutput: "@ + output_path@,
{
    let mut r = String::from_str("File encrypted successfully!\nOutput: ");
    r.append(output_path);
    r
}

/// The message shown after a file was decrypted to `output_path`.
pub fn decrypted_message(output_path: &str) -> (r: String)
    ensures
        r@ == "File decrypted successfully!\nOutput: "@ + output_path@,
{
    let mut r = String::from_str("File decrypted successfully!\nOutput: ");
    r.append(output_path);
    r
}

impl EzEncryptApp {
    /// A fresh session on the main menu with no password. File choosers open
    /// in `executable_dir`, or in the current directory where it is unknown.
    pub fn new(executable_dir: Option<String>) -> (r: Self)
        ensures
            r.state == AppState::MainMenu,
            r.password@.len() == 0,
            r.executable_dir@ == match executable_dir {
                Some(d) => d@,
                None => "."@,
            },
    {
        let dir = match executable_dir {
            Some(d) => d,
            None => String::from_str("."),
        };
        EzEncryptApp { state: AppState::MainMenu, password: String::new(), executable_dir: dir }
    }

    /// Whether the encrypt and decrypt buttons are enabled: only once a
    /// password has been typed.
    pub fn operations_enabled(&self) -> (r: bool)
        ensures
            r == (self.password@.len() > 0),
    {
        !self.password.as_str().is_empty()
    }

    /// Checks, once a file was chosen, that a password was given. Where none
    /// was, the session shows an error and the operation must not run.
    pub fn require_password(&mut self) -> (r: bool)
        ensures
            r == (old(self).password@.len() > 0),
            r ==> *final(self) == *old(self),
            !r ==> final(self).state is ShowError && final(self).state->ShowError_0@
                == "Please enter a password first!"@,
            final(self).password == old(self).password,
            final(self).executable_dir == old(self).executable_dir,
    {
        if self.password.as_str().is_empty() {
            self.state = AppState::ShowError(String::from_str("Please enter a password first!"));
            false
        } else {
            true
        }
    }

    /// Records the outcome of an operation: a success shows its message and
    /// forgets the password; a failure shows the error and keeps it.
    pub fn finish_operation(&mut self, outcome: Result<String, String>)
        ensures
            match outcome {
                Ok(m) => final(self).state == AppState::ShowResult(m) && final(self).password@.len()
                    == 0,
                Err(e) => final(self).state == AppState::ShowError(e) && final(self).password
                    == old(self).password,
            },
            final(self).executable_dir == old(self).executable_dir,
    {
        match outcome {
            Ok(message) => {
                self.state = AppState::ShowResult(message);
                self.password = String::new();
            },
            Err(error) => {
                self.state = AppState::ShowError(error);
            },
        }
    }

    /// Goes back to the main menu and forgets the password.
    pub fn reset_to_main_menu(&mut self)
        ensures
            final(self).state == AppState::MainMenu,
            final(self).password@.len() == 0,
            final(self).executable_dir == old(self).executable_dir,
    {
        self.state = AppState::MainMenu;
        self.password = String::new();
    }
}

} // verus!
