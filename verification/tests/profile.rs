use vnc_client::encodings::Encoding;
use vnc_client::profile::{
    add_history_entry, build_encoding_list, check_form, combo_row_for_settings,
    media_stream_error_message, method_for_credentials, remove_history_entry,
    requires_credentials, update_auth_row_from_supported_types, AuthMethod, FormError,
    HistoryEntry,
};

fn entry(host: &str, port: u32) -> HistoryEntry {
    HistoryEntry {
        host: host.to_string(),
        port,
        auth_method: "password".to_string(),
        preferred_encoding: "Tight".to_string(),
        ..HistoryEntry::default()
    }
}

#[test]
fn preferred_encoding_comes_first_and_only_once() {
    assert_eq!(
        build_encoding_list("ZRLE"),
        vec![
            Encoding::Zrle,
            Encoding::Hextile,
            Encoding::CopyRect,
            Encoding::OpenH264,
            Encoding::Raw,
            Encoding::DesktopSize,
            Encoding::Cursor,
            Encoding::ContinuousUpdates,
            Encoding::Fence,
        ]
    );
    assert_eq!(build_encoding_list("RaW")[0], Encoding::Raw);
    assert_eq!(build_encoding_list("nonsense")[0], Encoding::Tight);
    assert_eq!(build_encoding_list("Tight").len(), 10);
    assert_eq!(build_encoding_list("trle")[0], Encoding::Trle);
    assert_eq!(build_encoding_list("rre")[0], Encoding::Rre);
}

#[test]
fn entry_is_shown_by_its_address() {
    let mut e = entry("host", 5900);
    assert_eq!(e.summary(), "host:5900");
    assert_eq!(e.detail(), "password | PLAIN | Tight");
    e.use_tls = true;
    assert_eq!(e.detail(), "password | TLS | Tight");
}

#[test]
fn history_keeps_the_latest_of_each_address_in_front() {
    let mut history = Vec::new();
    add_history_entry(&mut history, entry("a", 1));
    add_history_entry(&mut history, entry("b", 1));
    add_history_entry(&mut history, entry("a", 1));
    let shown: Vec<String> = history.iter().map(|e| e.summary()).collect();
    assert_eq!(shown, vec!["a:1", "b:1"]);
    remove_history_entry(&mut history, "a:1");
    remove_history_entry(&mut history, "nobody:1");
    assert_eq!(history.len(), 1);
    assert_eq!(history[0].summary(), "b:1");
}

#[test]
fn auth_row_offers_what_the_server_does() {
    let row = update_auth_row_from_supported_types(&[30, 2, 99], "apple-dh");
    assert_eq!(row.options, vec![AuthMethod::Password, AuthMethod::AppleDh]);
    assert_eq!(row.selected, 1);
    assert_eq!(row.setting, None);
    let row = update_auth_row_from_supported_types(&[19, 1], "password");
    assert_eq!(row.options, vec![AuthMethod::NoAuth, AuthMethod::Vencrypt]);
    assert_eq!(row.selected, 0);
    assert_eq!(row.setting, Some(AuthMethod::NoAuth));
    let row = update_auth_row_from_supported_types(&[99], "none");
    assert_eq!(row.options, vec![AuthMethod::NoAuth]);
    assert_eq!(row.setting, None);
}

#[test]
fn combo_row_falls_back_to_its_first_option() {
    assert_eq!(combo_row_for_settings(&["a", "b", "b"], "b"), 1);
    assert_eq!(combo_row_for_settings(&["a", "b"], "c"), 0);
}

#[test]
fn form_is_checked_in_order() {
    assert_eq!(check_form("", "password", "", ""), Err(FormError::HostEmpty));
    assert_eq!(check_form("h", "password", "", ""), Err(FormError::PasswordMissing));
    assert_eq!(check_form("h", "password", "", "p"), Ok(AuthMethod::Password));
    assert_eq!(check_form("h", "apple-dh", "", "p"), Err(FormError::AppleUsernameMissing));
    assert_eq!(check_form("h", "apple-dh", "u", ""), Err(FormError::ApplePasswordMissing));
    assert_eq!(check_form("h", "apple-dh", "u", "p"), Ok(AuthMethod::AppleDh));
    assert_eq!(check_form("h", "none", "", ""), Ok(AuthMethod::NoAuth));
    assert_eq!(check_form("h", "vencrypt", "", ""), Err(FormError::VencryptUnsupported));
    assert_eq!(check_form("h", "what", "", ""), Err(FormError::UnknownMethod));
    assert_eq!(FormError::HostEmpty.message(), "Host cannot be empty");
    assert_eq!(FormError::PasswordMissing.message(), "Password is required");
}

#[test]
fn credentials_decide_the_method() {
    assert_eq!(method_for_credentials(true, true), AuthMethod::AppleDh);
    assert_eq!(method_for_credentials(false, true), AuthMethod::Password);
    assert_eq!(method_for_credentials(true, false), AuthMethod::NoAuth);
    assert!(requires_credentials("apple-dh"));
    assert!(!requires_credentials("none"));
    assert_eq!(AuthMethod::Vencrypt.name(), "vencrypt");
}

#[test]
fn media_failures_are_explained() {
    assert_eq!(media_stream_error_message("other"), None);
    let plugin = media_stream_error_message("Failed to start media stream: no avdec_h264");
    assert!(plugin.unwrap().contains("decoder plugin"));
    let other = media_stream_error_message("Failed to start media stream: socket");
    assert!(other.unwrap().contains("standard RFB mode"));
}
