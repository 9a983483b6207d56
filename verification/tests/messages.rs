use gist::error::{u16_decimal, Error, ErrorKind};

#[test]
fn numbers_print_in_decimal() {
    assert_eq!(u16_decimal(0), "0");
    assert_eq!(u16_decimal(7), "7");
    assert_eq!(u16_decimal(10), "10");
    assert_eq!(u16_decimal(404), "404");
    assert_eq!(u16_decimal(65535), "65535");
}

#[test]
fn api_errors_print_their_message() {
    let e = ErrorKind::Api {
        message: "bad scope".to_string(),
    };
    assert_eq!(e.message(), "GitHub API returns error: bad scope");
}

#[test]
fn status_errors_print_status_and_body() {
    let e = Error::new(ErrorKind::ApiWithStatus {
        status: 404,
        message: "Not Found".to_string(),
    });
    assert_eq!(
        e.message(),
        "GitHub API returns error with status 404: Not Found"
    );
}

#[test]
fn account_not_found_names_the_account() {
    let e = ErrorKind::AccountNotFound {
        name: "bob".to_string(),
    };
    assert_eq!(e.message(), "Account 'bob' is not found");
}

#[test]
fn transport_and_io_errors_print_verbatim() {
    let t = ErrorKind::HttpClient {
        message: "connection refused".to_string(),
    };
    assert_eq!(t.message(), "connection refused");
    let io = ErrorKind::Io {
        message: "permission denied".to_string(),
    };
    assert_eq!(io.message(), "permission denied");
}

#[test]
fn config_errors_print_their_cause() {
    let bad = ErrorKind::InvalidConfigFormat {
        message: "unparsable configuration".to_string(),
    };
    assert_eq!(
        bad.message(),
        "Cannot parse configuration file: unparsable configuration"
    );
    let save = ErrorKind::SaveConfigFailure {
        message: "disk full".to_string(),
    };
    assert_eq!(
        save.message(),
        "Failed to save configuration file: disk full"
    );
    assert_eq!(
        ErrorKind::EmptyConfig.message(),
        "No account is saved; log in first"
    );
    assert_eq!(
        ErrorKind::ConfigDirectoryNotDetected.message(),
        "Default configuration directory not detected. $HOME or $XDG_CONFIG_DIR may not set"
    );
}
