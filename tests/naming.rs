use ez_encrypt::{decrypted_path, encrypted_path};

#[test]
fn encrypt_report_pdf() {
    assert_eq!(encrypted_path("report.pdf"), "report.pdf.enc");
}

#[test]
fn decrypt_report_pdf_enc() {
    assert_eq!(decrypted_path("report.pdf.enc"), "report.pdf");
}

#[test]
fn encrypt_without_extension() {
    assert_eq!(encrypted_path("README"), "README.file.enc");
}

#[test]
fn decrypt_other_extension() {
    assert_eq!(decrypted_path("data.bin"), "data.decrypted");
}

#[test]
fn decrypt_without_extension() {
    assert_eq!(decrypted_path("README"), "README.decrypted");
}

#[test]
fn names_keep_directories() {
    assert_eq!(encrypted_path("/home/a.b/notes"), "/home/a.b/notes.file.enc");
    assert_eq!(encrypted_path("/home/user/notes.txt"), "/home/user/notes.txt.enc");
    assert_eq!(decrypted_path("/home/user/notes.txt.enc"), "/home/user/notes.txt");
}

#[test]
fn leading_dot_is_no_extension() {
    assert_eq!(encrypted_path("dir/.profile"), "dir/.profile.file.enc");
    assert_eq!(decrypted_path(".enc"), ".enc.decrypted");
}

#[test]
fn naming_round_trip() {
    for p in ["report.pdf", "a/b.c/d.tar.gz", "x.enc"] {
        assert_eq!(decrypted_path(&encrypted_path(p)), p);
    }
    assert_eq!(decrypted_path(&encrypted_path("README")), "README.file");
}

#[test]
fn non_ascii_names() {
    assert_eq!(encrypted_path("résumé.doc"), "résumé.doc.enc");
    assert_eq!(decrypted_path("日本.enc"), "日本");
}
