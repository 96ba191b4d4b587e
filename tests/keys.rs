use sui_wallet::keys::{key_encoding, key_import_error, KeyEncoding, KeyImportError};

#[test]
fn bech32_keys_are_told_by_their_prefix() {
    assert_eq!(
        key_encoding("suiprivkey1qzdlfxn2qa2lj5uprl8pyhexs02sg2wrhdy7qaq50cqgnffw4c2477kg9h3"),
        KeyEncoding::Bech32
    );
    assert_eq!(key_encoding("suiprivkey"), KeyEncoding::Bech32);
}

#[test]
fn other_keys_are_base64() {
    assert_eq!(key_encoding("AKqg3cG0j6yJvXAOpbaOGFWMdlY6zxMOeF1GpXNWvV3Q"), KeyEncoding::Base64);
    assert_eq!(key_encoding("suipriv"), KeyEncoding::Base64);
    assert_eq!(key_encoding("Suiprivkey1abc"), KeyEncoding::Base64);
    assert_eq!(key_encoding(""), KeyEncoding::Base64);
}

#[test]
fn import_errors_name_the_encoding_tried() {
    assert_eq!(key_import_error(KeyEncoding::Bech32), KeyImportError::InvalidBech32);
    assert_eq!(key_import_error(KeyEncoding::Base64), KeyImportError::InvalidBase64);
}
