use shell_sync::secrets::check_for_secrets;

#[test]
fn detects_password() {
    assert!(check_for_secrets("db_password", "echo hunter2"));
}

#[test]
fn detects_api_key() {
    assert!(check_for_secrets("set_api_key", "export KEY=abc"));
}

#[test]
fn allows_safe_alias() {
    assert!(!check_for_secrets("gs", "git status"));
}

#[test]
fn detects_case_insensitive() {
    assert!(check_for_secrets("SECRET", "value"));
    assert!(check_for_secrets("Secret", "value"));
    assert!(check_for_secrets("sEcReT", "value"));
}

#[test]
fn detects_auth_in_command() {
    assert!(check_for_secrets("deploy", "curl -H Authorization"));
}

#[test]
fn detects_private_key() {
    assert!(check_for_secrets("set_private_key", "cat key.pem"));
}

#[test]
fn detects_credential_in_command() {
    assert!(check_for_secrets("export", "CREDENTIAL=foo"));
}

#[test]
fn allows_empty_strings() {
    assert!(!check_for_secrets("", ""));
}

#[test]
fn detects_dashed_api_key() {
    assert!(check_for_secrets("set", "api-key=1"));
    assert!(check_for_secrets("apikey", "x"));
}
