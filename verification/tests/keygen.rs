use node_reactor::keygen::{Algorithm, Keygen, KeygenError};

#[test]
fn text_files_hold_both_encodings() {
    let files = Keygen::text_files(&[1, 2, 3, 15, 16], b"hello world");
    assert_eq!(files.len(), 4);
    assert_eq!(files[0].name, "account_id_base64");
    assert_eq!(files[0].contents, "AQIDDxA=");
    assert_eq!(files[1].name, "account_id_hex");
    assert_eq!(files[1].contents, "0102030f10");
    assert_eq!(files[2].name, "public_key_base64");
    assert_eq!(files[2].contents, "aGVsbG8gd29ybGQ=");
    assert_eq!(files[3].name, "public_key_hex");
    assert_eq!(files[3].contents, "68656c6c6f20776f726c64");
}

#[test]
fn hex_uses_two_lowercase_digits_per_byte() {
    let files = Keygen::text_files(&[0x00, 0x0a, 0xff, 0x9b], &[]);
    assert_eq!(files[1].contents, "000aff9b");
    assert_eq!(files[3].contents, "");
    assert_eq!(files[2].contents, "");
}

#[test]
fn files_are_probed_in_order() {
    assert_eq!(
        Keygen::files(),
        [
            "account_id_base64",
            "account_id_hex",
            "public_key_base64",
            "public_key_hex",
            "secret_key.pem",
            "public_key.pem"
        ]
    );
}

#[test]
fn first_existing_file_stops_the_run() {
    let exists = [false, false, true, false, true, false];
    assert_eq!(Keygen::first_existing(&exists), Some(2));
    assert_eq!(Keygen::first_existing(&[false; 6]), None);
    assert_eq!(Keygen::first_existing(&[]), None);
    assert_eq!(
        Keygen::prepare(false, &exists, "Ed25519"),
        Err(KeygenError::FileExists { index: 2 })
    );
}

#[test]
fn force_overwrites() {
    let exists = [true; 6];
    assert_eq!(Keygen::prepare(true, &exists, "Ed25519"), Ok(Algorithm::Ed25519));
    assert_eq!(Keygen::prepare(true, &exists, "secp256k1"), Ok(Algorithm::Secp256k1));
}

#[test]
fn unknown_algorithm_is_refused() {
    assert_eq!(Keygen::algorithm("Ed25519"), Some(Algorithm::Ed25519));
    assert_eq!(Keygen::algorithm("secp256k1"), Some(Algorithm::Secp256k1));
    assert_eq!(Keygen::algorithm("ed25519"), None);
    assert_eq!(Keygen::algorithm(""), None);
    assert_eq!(
        Keygen::prepare(false, &[false; 6], "rsa"),
        Err(KeygenError::InvalidAlgorithm)
    );
}

#[test]
fn existing_file_is_reported_before_the_algorithm() {
    assert_eq!(
        Keygen::prepare(false, &[true, false, false, false, false, false], "rsa"),
        Err(KeygenError::FileExists { index: 0 })
    );
}

#[test]
fn output_dir_defaults_to_the_current_directory() {
    assert_eq!(Keygen::output_dir(None), ".");
    assert_eq!(Keygen::output_dir(Some("keys")), "keys");
}

#[test]
fn messages_name_the_path() {
    assert_eq!(
        Keygen::exists_message("/tmp/keys/secret_key.pem"),
        "/tmp/keys/secret_key.pem exists. To overwrite, rerun with --force"
    );
    assert_eq!(Keygen::done_message("/tmp/keys"), "Wrote files to /tmp/keys");
}

#[test]
fn assemble_puts_texts_under_their_names() {
    let files = Keygen::assemble("a".to_string(), "b".to_string(), "c".to_string(), "d".to_string());
    let pairs: Vec<(&str, &str)> =
        files.iter().map(|file| (file.name, file.contents.as_str())).collect();
    assert_eq!(
        pairs,
        vec![
            ("account_id_base64", "a"),
            ("account_id_hex", "b"),
            ("public_key_base64", "c"),
            ("public_key_hex", "d")
        ]
    );
}

#[test]
fn base64_pads_to_whole_groups() {
    assert_eq!(Keygen::text_files(&[0xff], &[0xff, 0xfe])[0].contents, "/w==");
    assert_eq!(Keygen::text_files(&[0xff], &[0xff, 0xfe])[2].contents, "//4=");
    assert_eq!(Keygen::text_files(&[0xfb, 0xff, 0xbf], &[])[0].contents, "+/+/");
}
