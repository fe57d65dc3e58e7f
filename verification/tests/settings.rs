use simple_dub::settings::{
    credential_error, key_from_lookup, status_after_delete, status_after_save,
    status_from_lookup, validate_openrouter_key, KeyringFailure, OpenRouterCredentialStore,
    OpenRouterKeyStatus,
};

fn failure(missing: bool, description: &str) -> KeyringFailure {
    KeyringFailure {
        missing,
        description: description.to_owned(),
    }
}

#[test]
fn validates_and_normalizes_openrouter_key_without_exposing_it_in_status() {
    let key = ["sk", "or", "v1", "test-only-value-with-enough-length"].join("-");
    let normalized =
        validate_openrouter_key(&format!("  {key}  ")).expect("ключ должен пройти проверку");

    assert_eq!(normalized, key);

    let status = OpenRouterKeyStatus { configured: true };
    let mut object = serde_json::Map::new();
    object.insert(
        "configured".to_owned(),
        serde_json::Value::Bool(status.configured),
    );
    let serialized = serde_json::Value::Object(object);
    assert_eq!(serialized.to_string(), "{\"configured\":true}");
    assert!(!serialized.to_string().contains(&key));

    assert!(validate_openrouter_key("   ").is_err());
    assert!(validate_openrouter_key("not-an-openrouter-key").is_err());
}

/// A key assembled from its parts, so that no key-shaped literal appears.
fn key_with(tail: &str) -> String {
    ["sk", "or", "v1", tail].join("-")
}

#[test]
fn rejects_short_keys_and_unsafe_characters() {
    let message = "Введите корректный ключ OpenRouter вида sk-or-…";
    assert_eq!(validate_openrouter_key("sk-or-short").unwrap_err(), message);
    assert_eq!(
        validate_openrouter_key(&key_with("abcdefghijklmnop qrstuv")).unwrap_err(),
        message
    );
    assert_eq!(
        validate_openrouter_key(&key_with("abcdefghijklmnopä")).unwrap_err(),
        message
    );
    let long = key_with("abcdefghijklmnopq");
    assert_eq!(long.len(), 26);
    assert_eq!(validate_openrouter_key(&long).unwrap(), long);
    let shortest = key_with("abcdefghijklmno");
    assert_eq!(shortest.len(), 24);
    assert!(validate_openrouter_key(&shortest).is_ok());
    let too_short = key_with("abcdefghijklmn");
    assert_eq!(too_short.len(), 23);
    assert!(validate_openrouter_key(&too_short).is_err());
}

#[test]
fn status_follows_the_stored_key() {
    assert_eq!(
        status_from_lookup(Ok("stored value".to_owned())).unwrap(),
        OpenRouterKeyStatus { configured: true }
    );
    assert_eq!(
        status_from_lookup(Ok("  ".to_owned())).unwrap(),
        OpenRouterKeyStatus { configured: false }
    );
    assert_eq!(
        status_from_lookup(Err(failure(true, "No matching entry found in secure storage"))).unwrap(),
        OpenRouterKeyStatus { configured: false }
    );
    assert_eq!(
        status_from_lookup(Err(failure(false, "locked"))).unwrap_err(),
        "Не удалось проверить сохранённый ключ: locked"
    );
}

#[test]
fn reading_validates_the_stored_key_and_reports_errors() {
    let key = key_with("abcdefghijklmnopq");
    assert_eq!(key_from_lookup(Ok(format!(" {key}\n"))).unwrap(), key);
    assert!(key_from_lookup(Ok("garbage".to_owned())).is_err());
    assert_eq!(
        key_from_lookup(Err(failure(true, "No matching entry found in secure storage"))).unwrap_err(),
        "Не удалось прочитать сохранённый ключ: No matching entry found in secure storage"
    );
}

#[test]
fn deleting_an_absent_key_succeeds() {
    assert_eq!(
        status_after_delete(Ok(())).unwrap(),
        OpenRouterKeyStatus { configured: false }
    );
    assert_eq!(
        status_after_delete(Err(failure(true, "none"))).unwrap(),
        OpenRouterKeyStatus { configured: false }
    );
    assert_eq!(
        status_after_delete(Err(failure(false, "denied"))).unwrap_err(),
        "Не удалось удалить ключ: denied"
    );
    assert_eq!(
        status_after_save(Ok(())).unwrap(),
        OpenRouterKeyStatus { configured: true }
    );
    assert_eq!(
        status_after_save(Err(failure(false, "full"))).unwrap_err(),
        "Не удалось сохранить ключ: full"
    );
    assert_eq!(credential_error("Контекст", &failure(false, "x")), "Контекст: x");
}

#[test]
fn stores_status_and_deletes_key_in_the_credential_store() {
    let mut store = OpenRouterCredentialStore::with_service("simple-dub-test")
        .expect("должна создаваться тестовая запись хранилища");
    let key = ["sk", "or", "v1", "temporary-credential-manager-test"].join("-");

    store.delete().ok();
    assert_eq!(
        store.status().unwrap(),
        OpenRouterKeyStatus { configured: false }
    );
    assert!(store.read().unwrap_err().starts_with("Не удалось прочитать сохранённый ключ: "));
    assert_eq!(
        store.save("bad key").unwrap_err(),
        "Введите корректный ключ OpenRouter вида sk-or-…"
    );

    store.save(&key).expect("ключ должен сохраняться");
    assert_eq!(
        store.status().unwrap(),
        OpenRouterKeyStatus { configured: true }
    );
    assert_eq!(store.read().unwrap(), key);

    store.delete().expect("ключ должен удаляться");
    assert_eq!(
        store.status().unwrap(),
        OpenRouterKeyStatus { configured: false }
    );
}

#[test]
fn validating_a_validated_key_keeps_it() {
    let key = key_with("0123456789abcdef_XYZ");
    let once = validate_openrouter_key(&format!("\t {key} \n")).unwrap();
    let twice = validate_openrouter_key(&once).unwrap();
    assert_eq!(once, key);
    assert_eq!(twice, once);
}
