use gist::api::{
    access_token_request, access_token_url, auth_for, check_response, device_code_url, drive_poll,
    gist_line, gist_url, gists_url, poll_step, starred_gists_url, update_request, upload_request,
    user_gists_url, user_url, verification_code_request, AccessTokenResponse, AuthMethod,
    FileMetadata, GistResponse, PollResponse, PollStep,
};
use gist::config::{default_config_file, join_path, Login};
use gist::error::ErrorKind;

fn pending_response() -> PollResponse {
    PollResponse::Success {
        body: AccessTokenResponse::Error {
            error: "authorization_pending".to_string(),
        },
    }
}

fn token_response(t: &str) -> PollResponse {
    PollResponse::Success {
        body: AccessTokenResponse::AccessToken {
            access_token: t.to_string(),
        },
    }
}

#[test]
fn success_statuses_hand_the_body_on() {
    for status in [200u16, 201, 204, 299] {
        assert_eq!(
            check_response(status, "body".to_string()).unwrap(),
            "body".to_string()
        );
    }
}

#[test]
fn non_success_statuses_keep_status_and_body() {
    for status in [100u16, 199, 300, 301, 404, 422, 500] {
        let err = check_response(status, "the body text".to_string()).unwrap_err();
        assert_eq!(
            err.into_kind(),
            ErrorKind::ApiWithStatus {
                status,
                message: "the body text".to_string()
            }
        );
    }
}

#[test]
fn pending_poll_waits_the_interval() {
    let step = poll_step(pending_response(), 7);
    assert_eq!(step, PollStep::Pending { wait_secs: 7 });
}

#[test]
fn token_poll_authorizes_an_oauth_login() {
    let step = poll_step(token_response("tok"), 5);
    assert_eq!(
        step,
        PollStep::Authorized {
            login: Login::OAuth("tok".to_string())
        }
    );
}

#[test]
fn other_error_codes_end_the_poll_verbatim() {
    let resp = PollResponse::Success {
        body: AccessTokenResponse::Error {
            error: "access_denied".to_string(),
        },
    };
    match poll_step(resp, 5) {
        PollStep::Failed { error } => assert_eq!(
            error.into_kind(),
            ErrorKind::Api {
                message: "access_denied".to_string()
            }
        ),
        other => panic!("unexpected step: {:?}", other),
    }
}

#[test]
fn non_success_poll_keeps_status_and_body() {
    let resp = PollResponse::Failure {
        status: 503,
        message: "try later".to_string(),
    };
    match poll_step(resp, 5) {
        PollStep::Failed { error } => assert_eq!(
            error.into_kind(),
            ErrorKind::ApiWithStatus {
                status: 503,
                message: "try later".to_string()
            }
        ),
        other => panic!("unexpected step: {:?}", other),
    }
}

#[test]
fn transport_failure_ends_the_poll() {
    let resp = PollResponse::Transport {
        message: "connection reset".to_string(),
    };
    match poll_step(resp, 5) {
        PollStep::Failed { error } => assert_eq!(
            error.into_kind(),
            ErrorKind::HttpClient {
                message: "connection reset".to_string()
            }
        ),
        other => panic!("unexpected step: {:?}", other),
    }
}

#[test]
fn poll_loop_repeats_until_the_first_terminal_response() {
    let responses = vec![pending_response(), pending_response(), token_response("t")];
    let got = drive_poll(responses, 5).unwrap().unwrap();
    assert_eq!(got, Login::OAuth("t".to_string()));
}

#[test]
fn poll_loop_with_only_pending_responses_keeps_going() {
    let responses = vec![pending_response(), pending_response()];
    assert!(drive_poll(responses, 5).is_none());
}

#[test]
fn poll_loop_stops_at_the_first_terminal_even_before_a_token() {
    let denied = PollResponse::Success {
        body: AccessTokenResponse::Error {
            error: "expired_token".to_string(),
        },
    };
    let responses = vec![pending_response(), denied, token_response("t")];
    let err = drive_poll(responses, 5).unwrap().unwrap_err();
    assert_eq!(
        err.into_kind(),
        ErrorKind::Api {
            message: "expired_token".to_string()
        }
    );
}

#[test]
fn oauth_logins_use_a_token_header() {
    let login = Login::OAuth("abc".to_string());
    assert_eq!(
        auth_for(&login),
        AuthMethod::Token {
            header: "token abc".to_string()
        }
    );
}

#[test]
fn personal_access_tokens_use_basic_auth() {
    let login = Login::PersonalAccessToken {
        username: "u".to_string(),
        token: "p".to_string(),
    };
    assert_eq!(
        auth_for(&login),
        AuthMethod::Basic {
            username: "u".to_string(),
            password: "p".to_string()
        }
    );
}

#[test]
fn endpoints_are_the_fixed_github_urls() {
    assert_eq!(gists_url(), "https://api.github.com/gists");
    assert_eq!(starred_gists_url(), "https://api.github.com/gists/starred");
    assert_eq!(user_url(), "https://api.github.com/user");
    assert_eq!(device_code_url(), "https://github.com/login/device/code");
    assert_eq!(
        access_token_url(),
        "https://github.com/login/oauth/access_token"
    );
    assert_eq!(gist_url("abc123"), "https://api.github.com/gists/abc123");
    assert_eq!(
        user_gists_url("alice"),
        "https://api.github.com/users/alice/gists"
    );
}

#[test]
fn upload_request_is_public_unless_secret() {
    let files = vec![(
        "f.txt".to_string(),
        FileMetadata {
            content: "hello".to_string(),
        },
    )];
    let req = upload_request(files, Some("d".to_string()), false);
    assert!(req.public);
    assert_eq!(req.description, Some("d".to_string()));
    assert_eq!(req.files.len(), 1);
    assert_eq!(req.files[0].0, "f.txt");

    let req = upload_request(Vec::new(), None, true);
    assert!(!req.public);
    assert_eq!(req.description, None);
}

#[test]
fn update_request_keeps_files_and_marks_removals() {
    let files = vec![(
        "keep.txt".to_string(),
        FileMetadata {
            content: "c".to_string(),
        },
    )];
    let removals = vec!["gone.txt".to_string()];
    let req = update_request(files, removals, Some("d".to_string()));
    assert_eq!(req.files.len(), 2);
    assert_eq!(req.files[0].0, "keep.txt");
    assert_eq!(
        req.files[0].1,
        Some(FileMetadata {
            content: "c".to_string()
        })
    );
    assert_eq!(req.files[1].0, "gone.txt");
    assert_eq!(req.files[1].1, None);
    assert_eq!(req.description, Some("d".to_string()));
}

#[test]
fn device_flow_requests_carry_the_fixed_grant_type() {
    let vc = verification_code_request("client", "gist");
    assert_eq!(vc.client_id, "client");
    assert_eq!(vc.scope, "gist");
    let at = access_token_request("client", "device");
    assert_eq!(at.client_id, "client");
    assert_eq!(at.device_code, "device");
    assert_eq!(at.grant_type, "urn:ietf:params:oauth:grant-type:device_code");
}

#[test]
fn gist_lines_show_url_and_description() {
    let with = GistResponse {
        id: "i".to_string(),
        html_url: "https://gist.github.com/i".to_string(),
        git_pull_url: "p".to_string(),
        git_push_url: "q".to_string(),
        description: Some("notes".to_string()),
    };
    assert_eq!(gist_line(&with), "https://gist.github.com/i notes");
    let without = GistResponse {
        description: None,
        ..with
    };
    assert_eq!(gist_line(&without), "https://gist.github.com/i");
}

#[test]
fn path_helpers_join_with_slashes() {
    assert_eq!(join_path("base", "gist"), "base/gist");
    if let Some(p) = default_config_file() {
        assert!(p.ends_with("/gist/config.json"));
    }
}
