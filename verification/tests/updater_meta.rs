use rocas::updater::{
    cleanup_script_for, current_platform_binary, extract_json_string, find_asset_url,
    parse_release_metadata, plan_update, HostPlatform, ReleaseInfo, UpdateAction, Updater,
};

fn sample_body() -> String {
    String::from(
        "{\n  \"tag_name\": \"v1.2.3\",\n  \"assets\": [\n    {\n      \"name\": \"rocas-linux\",\n      \"browser_download_url\": \"https://example.invalid/dl/rocas-linux\"\n    },\n    {\n      \"name\": \"rocas.exe\",\n      \"browser_download_url\": \"https://example.invalid/dl/rocas.exe\"\n    }\n  ]\n}",
    )
}

#[test]
fn extracts_tag_name() {
    let body = sample_body();
    assert_eq!(
        extract_json_string(&body, "tag_name"),
        Some(String::from("v1.2.3"))
    );
}

#[test]
fn extract_missing_key_is_none() {
    let body = sample_body();
    assert_eq!(extract_json_string(&body, "no_such_key"), None);
    assert_eq!(extract_json_string("", "tag_name"), None);
    // A key whose value is not a quoted string scans nothing.
    assert_eq!(extract_json_string("\"n\": 42", "n"), None);
}

#[test]
fn finds_asset_url_per_asset_name() {
    let body = sample_body();
    assert_eq!(
        find_asset_url(&body, "rocas-linux"),
        Some(String::from("https://example.invalid/dl/rocas-linux"))
    );
    assert_eq!(
        find_asset_url(&body, "rocas.exe"),
        Some(String::from("https://example.invalid/dl/rocas.exe"))
    );
    assert_eq!(find_asset_url(&body, "rocas-macos"), None);
}

#[test]
fn parses_release_metadata_or_reports_nothing() {
    let body = sample_body();
    let info = parse_release_metadata(&body, "rocas-linux").unwrap();
    assert_eq!(info.version, "v1.2.3");
    assert_eq!(info.download_url, "https://example.invalid/dl/rocas-linux");
    assert!(parse_release_metadata(&body, "rocas-macos").is_none());
    assert!(parse_release_metadata("not json at all", "rocas-linux").is_none());
}

#[test]
fn equal_version_means_no_download() {
    let info = ReleaseInfo {
        version: String::from("v1.2.3"),
        download_url: String::from("https://example.invalid/dl/rocas-linux"),
    };
    let action = plan_update("v1.2.3", &info);
    assert!(matches!(action, UpdateAction::UpToDate));
    let updater = Updater::new("v1.2.3");
    assert!(matches!(updater.plan(&info), UpdateAction::UpToDate));
}

#[test]
fn new_version_asks_for_download() {
    let info = ReleaseInfo {
        version: String::from("v2.0.0"),
        download_url: String::from("https://example.invalid/dl/rocas-linux"),
    };
    match plan_update("v1.2.3", &info) {
        UpdateAction::Download(url) => {
            assert_eq!(url, "https://example.invalid/dl/rocas-linux")
        }
        UpdateAction::UpToDate => panic!("expected a download"),
    }
}

#[test]
fn end_to_end_up_to_date_cycle() {
    // The endpoint reports the running version: no download, no restart.
    let body = sample_body();
    let updater = Updater::new("v1.2.3");
    let asset = current_platform_binary(HostPlatform::Linux);
    let info = parse_release_metadata(&body, asset).unwrap();
    assert!(matches!(updater.plan(&info), UpdateAction::UpToDate));
}

#[test]
fn platform_asset_names() {
    assert_eq!(current_platform_binary(HostPlatform::Windows), "rocas.exe");
    assert_eq!(current_platform_binary(HostPlatform::MacOs), "rocas-macos");
    assert_eq!(current_platform_binary(HostPlatform::Linux), "rocas-linux");
}

#[test]
fn cleanup_script_embeds_old_path() {
    let script = cleanup_script_for("C:\\apps\\rocas.exe");
    assert_eq!(
        script,
        "@echo off\ntimeout /t 1 /nobreak > nul\ndel \"C:\\apps\\rocas.exe\"\ndel \"%~f0\"\n"
    );
}
