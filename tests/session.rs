use ez_encrypt::{decrypted_message, encrypted_message, AppState, EzEncryptApp};

#[test]
fn new_starts_on_main_menu() {
    let app = EzEncryptApp::new(Some("/opt/tool".to_string()));
    assert_eq!(app.state, AppState::MainMenu);
    assert!(app.password.is_empty());
    assert_eq!(app.executable_dir, "/opt/tool");
}

#[test]
fn new_falls_back_to_current_dir() {
    let app = EzEncryptApp::new(None);
    assert_eq!(app.executable_dir, ".");
}

#[test]
fn buttons_need_a_password() {
    let mut app = EzEncryptApp::new(None);
    assert!(!app.operations_enabled());
    app.password = "pw".to_string();
    assert!(app.operations_enabled());
}

#[test]
fn empty_password_shows_error() {
    let mut app = EzEncryptApp::new(None);
    assert!(!app.require_password());
    assert_eq!(app.state, AppState::ShowError("Please enter a password first!".to_string()));
}

#[test]
fn password_given_keeps_state() {
    let mut app = EzEncryptApp::new(None);
    app.password = "pw".to_string();
    assert!(app.require_password());
    assert_eq!(app.state, AppState::MainMenu);
    assert_eq!(app.password, "pw");
}

#[test]
fn success_shows_result_and_clears_password() {
    let mut app = EzEncryptApp::new(None);
    app.password = "pw".to_string();
    app.finish_operation(Ok("done".to_string()));
    assert_eq!(app.state, AppState::ShowResult("done".to_string()));
    assert!(app.password.is_empty());
}

#[test]
fn failure_shows_error_and_keeps_password() {
    let mut app = EzEncryptApp::new(None);
    app.password = "pw".to_string();
    app.finish_operation(Err("bad".to_string()));
    assert_eq!(app.state, AppState::ShowError("bad".to_string()));
    assert_eq!(app.password, "pw");
}

#[test]
fn reset_returns_to_menu_and_clears_password() {
    let mut app = EzEncryptApp::new(Some("d".to_string()));
    app.password = "pw".to_string();
    app.state = AppState::ShowError("x".to_string());
    app.reset_to_main_menu();
    assert_eq!(app.state, AppState::MainMenu);
    assert!(app.password.is_empty());
    assert_eq!(app.executable_dir, "d");
}

#[test]
fn result_messages() {
    assert_eq!(
        encrypted_message("a/report.pdf.enc"),
        "File encrypted successfully!\nOutput: a/report.pdf.enc"
    );
    assert_eq!(
        decrypted_message("a/report.pdf"),
        "File decrypted successfully!\nOutput: a/report.pdf"
    );
}
