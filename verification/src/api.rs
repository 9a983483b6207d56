use vstd::prelude::*;
use vstd::string::StringExecFns;

use crate::config::{Login, LoginView};
use crate::error::{Error, ErrorKind, ErrorKindView};

verus! {

/// One file of a gist: its content. (Only text files are carried.)
#[derive(Debug, PartialEq, Eq)]
pub struct FileMetadata {
    pub content: String,
}

/// The body of a gist-creating call: files by name, an optional
/// description, and whether the gist is public.
#[derive(Debug, PartialEq, Eq)]
pub struct UploadRequest {
    pub files: Vec<(String, FileMetadata)>,
    pub description: Option<String>,
    pub public: bool,
}

/// The body of a gist-editing call: files to add or update (`Some`) or
/// to remove (`None`), and an optional new description.
#[derive(Debug, PartialEq, Eq)]
pub struct UpdateRequest {
    pub files: Vec<(String, Option<FileMetadata>)>,
    pub description: Option<String>,
}

/// What the API reports of one gist.
#[derive(Debug, PartialEq, Eq)]
pub struct GistResponse {
    pub id: String,
    pub html_url: String,
    pub git_pull_url: String,
    pub git_push_url: String,
    pub description: Option<String>,
}

/// What a listing call returns: the gists in the API's order.
pub type ListResponse = Vec<GistResponse>;

/// What the API reports of the authenticated user.
#[derive(Debug, PartialEq, Eq)]
pub struct UserResponse {
    pub login: String,
    pub html_url: String,
}

/// The body of the device-code call of the OAuth2 device flow.
#[derive(Debug, PartialEq, Eq)]
pub struct VerificationCodeRequest {
    pub client_id: String,
    pub scope: String,
}

/// What the device-code call returns: the code this client polls with,
/// the code the user enters, where the user enters it, and how many
/// seconds to wait between polls.
#[derive(Debug, PartialEq, Eq)]
pub struct VerificationCodeResponse {
    pub device_code: String,
    pub user_code: String,
    pub verification_uri: String,
    pub interval: u64,
}

/// The body of the access-token call of the OAuth2 device flow.
#[derive(Debug, PartialEq, Eq)]
pub struct AccessTokenRequest {
    pub client_id: String,
    pub device_code: String,
    pub grant_type: String,
}

/// A 2xx body of the access-token endpoint: either the token, or an
/// error code such as `authorization_pending`.
#[derive(Debug, PartialEq, Eq)]
pub enum AccessTokenResponse {
    AccessToken { access_token: String },
    Error { error: String },
}

/// True when an HTTP status code counts as success for every endpoint
/// this client calls.
pub open spec fn spec_is_success(status: u16) -> bool {
    200 <= status < 300
}

/// Decides whether a response status is in the 2xx range.
pub fn status_is_success(status: u16) -> (r: bool)
    ensures
        r == spec_is_success(status),
{
    200 <= status && status < 300
}

/// Sorts a response by its status: a 2xx hands the body on untouched;
/// anything else becomes an error carrying the status code and the body
/// text unchanged.
pub fn check_response(status: u16, body: String) -> (r: Result<String, Error>)
    ensures
        spec_is_success(status) ==> (r is Ok && r->Ok_0@ == body@),
        !spec_is_success(status) ==> (r is Err && r->Err_0@ == (ErrorKindView::ApiWithStatus {
            status: status,
            message: body@,
        })),
{
    if status_is_success(status) {
        Ok(body)
    } else {
        Err(Error::new(ErrorKind::ApiWithStatus { status, message: body }))
    }
}

/// How a credential is attached to a request: an OAuth token goes into
/// the authorization header, a personal access token into basic auth.
#[derive(Debug, PartialEq, Eq)]
pub enum AuthMethod {
    Token { header: String },
    Basic { username: String, password: String },
}

/// Maps a login to the way it authenticates a request.
pub fn auth_for(login: &Login) -> (r: AuthMethod)
    ensures
        (match login {
            Login::OAuth(t) => r matches AuthMethod::Token { header } && header@ == "token "@
                + t@,
            Login::PersonalAccessToken { username, token } => r matches AuthMethod::Basic {
                username: u,
                password: p,
            } && u@ == username@ && p@ == token@,
        }),
{
    match login {
        Login::OAuth(t) => AuthMethod::Token {
            header: String::from_str("token ").concat(t.as_str()),
        },
        Login::PersonalAccessToken { username, token } => AuthMethod::Basic {
            username: username.clone(),
            password: token.clone(),
        },
    }
}

/// The fixed endpoint for creating a gist and listing the caller's own.
pub fn gists_url() -> (r: &'static str)
    ensures
        r@ == "https://api.github.com/gists"@,
{
    "https://api.github.com/gists"
}

/// The fixed endpoint for listing the starred gists.
pub fn starred_gists_url() -> (r: &'static str)
    ensures
        r@ == "https://api.github.com/gists/starred"@,
{
    "https://api.github.com/gists/starred"
}

/// The fixed endpoint that names the authenticated user.
pub fn user_url() -> (r: &'static str)
    ensures
        r@ == "https://api.github.com/user"@,
{
    "https://api.github.com/user"
}

/// The fixed endpoint that starts the OAuth2 device flow.
pub fn device_code_url() -> (r: &'static str)
    ensures
        r@ == "https://github.com/login/device/code"@,
{
    "https://github.com/login/device/code"
}

/// The fixed endpoint the device flow polls for the access token.
pub fn access_token_url() -> (r: &'static str)
    ensures
        r@ == "https://github.com/login/oauth/access_token"@,
{
    "https://github.com/login/oauth/access_token"
}

/// The endpoint of one gist, by its ID.
pub fn gist_url(id: &str) -> (r: String)
    ensures
        r@ == "https://api.github.com/gists/"@ + id@,
{
    String::from_str("https://api.github.com/gists/").concat(id)
}

/// The endpoint that lists a user's public gists.
pub fn user_gists_url(username: &str) -> (r: String)
    ensures
        r@ == "https://api.github.com/users/"@ + username@ + "/gists"@,
{
    String::from_str("https://api.github.com/users/").concat(username).concat("/gists")
}

/// Builds the body of a gist-creating call. A gist is public unless
/// asked to be secret.
pub fn upload_request(
    files: Vec<(String, FileMetadata)>,
    description: Option<String>,
    secret: bool,
) -> (r: UploadRequest)
    ensures
        r.files == files,
        r.description == description,
        r.public == !secret,
{
    UploadRequest { files, description, public: !secret }
}

/// Builds the body of a gist-editing call: the given files are kept or
/// updated, the named ones are marked for removal, in that order.
pub fn update_request(
    files: Vec<(String, FileMetadata)>,
    files_to_remove: Vec<String>,
    description: Option<String>,
) -> (r: UpdateRequest)
    ensures
        r.files@.len() == files@.len() + files_to_remove@.len(),
        forall|i: int|
            0 <= i < files@.len() ==> r.files@[i] == (files@[i].0, Some(files@[i].1)),
        forall|i: int|
            0 <= i < files_to_remove@.len() ==> r.files@[files@.len() + i] == (
            files_to_remove@[i],
            None::<FileMetadata>,
            ),
        r.description == description,
{
    let ghost all_files = files@;
    let ghost all_removed = files_to_remove@;
    let mut out: Vec<(String, Option<FileMetadata>)> = Vec::new();
    let mut fs = files;
    while fs.len() > 0
        invariant
            out@.len() + fs@.len() == all_files.len(),
            fs@ =~= all_files.skip(out@.len() as int),
            forall|i: int|
                0 <= i < out@.len() ==> out@[i] == (all_files[i].0, Some(all_files[i].1)),
        decreases fs@.len(),
    {
        let ghost done = out@.len() as int;
        let (name, meta) = fs.remove(0);
        proof {
            assert(all_files.skip(done)[0] == all_files[done]);
            assert(fs@ =~= all_files.skip(done + 1));
        }
        out.push((name, Some(meta)));
        proof {
            assert forall|i: int|
                0 <= i < out@.len() implies out@[i] == (all_files[i].0, Some(all_files[i].1)) by {
                if i < done {
                    assert(out@[i] == out@.subrange(0, done)[i]);
                }
            }
        }
    }
    let mut rs = files_to_remove;
    while rs.len() > 0
        invariant
            out@.len() + rs@.len() == all_files.len() + all_removed.len(),
            rs@.len() <= all_removed.len(),
            all_files.len() <= out@.len(),
            rs@ =~= all_removed.skip(all_removed.len() - rs@.len()),
            forall|i: int|
                0 <= i < all_files.len() ==> out@[i] == (all_files[i].0, Some(all_files[i].1)),
            forall|i: int|
                0 <= i < all_removed.len() - rs@.len() ==> out@[all_files.len() + i] == (
                all_removed[i],
                None::<FileMetadata>,
                ),
        decreases rs@.len(),
    {
        let ghost done = all_removed.len() as int - rs@.len() as int;
        let name = rs.remove(0);
        proof {
            assert(all_removed.skip(done)[0] == all_removed[done]);
            assert(rs@ =~= all_removed.skip(done + 1));
        }
        out.push((name, None));
    }
    UpdateRequest { files: out, description }
}

/// Builds the body of the device-code call.
pub fn verification_code_request(client_id: &str, scope: &str) -> (r: VerificationCodeRequest)
    ensures
        r.client_id@ == client_id@,
        r.scope@ == scope@,
{
    VerificationCodeRequest { client_id: client_id.to_owned(), scope: scope.to_owned() }
}

/// Builds the body of the access-token call; the grant type is the
/// fixed device-flow one.
pub fn access_token_request(client_id: &str, device_code: &str) -> (r: AccessTokenRequest)
    ensures
        r.client_id@ == client_id@,
        r.device_code@ == device_code@,
        r.grant_type@ == "urn:ietf:params:oauth:grant-type:device_code"@,
{
    AccessTokenRequest {
        client_id: client_id.to_owned(),
        device_code: device_code.to_owned(),
        grant_type: String::from_str("urn:ietf:params:oauth:grant-type:device_code"),
    }
}

/// What one poll of the access-token endpoint came back with, as the
/// transport layer saw it: a transport failure, a non-2xx status with
/// the body text, or a parsed 2xx body.
#[derive(Debug, PartialEq, Eq)]
pub enum PollResponse {
    Transport { message: String },
    Failure { status: u16, message: String },
    Success { body: AccessTokenResponse },
}

/// What the device flow does after one poll: wait and poll again, stop
/// with a credential, or stop with an error.
#[derive(Debug, PartialEq, Eq)]
pub enum PollStep {
    Pending { wait_secs: u64 },
    Authorized { login: Login },
    Failed { error: Error },
}

/// The one response that keeps the device flow polling: a 2xx body
/// whose error code is `authorization_pending`.
pub open spec fn spec_poll_pending(resp: PollResponse) -> bool {
    match resp {
        PollResponse::Success { body } => match body {
            AccessTokenResponse::Error { error } => error@ == "authorization_pending"@,
            _ => false,
        },
        _ => false,
    }
}

/// How the device flow ends on a terminal response: a token authorizes
/// an OAuth login; any other error code of a 2xx body is an API error,
/// verbatim; a non-2xx status keeps its status and body; a transport
/// failure keeps its message.
pub open spec fn spec_poll_result(resp: PollResponse) -> Result<LoginView, ErrorKindView> {
    match resp {
        PollResponse::Transport { message } => Err(ErrorKindView::HttpClient { message: message@ }),
        PollResponse::Failure { status, message } => Err(ErrorKindView::ApiWithStatus {
            status: status,
            message: message@,
        }),
        PollResponse::Success { body } => match body {
            AccessTokenResponse::AccessToken { access_token } => Ok(
                LoginView::OAuth(access_token@),
            ),
            AccessTokenResponse::Error { error } => Err(ErrorKindView::Api { message: error@ }),
        },
    }
}

/// Decides one round of the device-flow poll loop: pending keeps
/// polling after `interval` seconds; everything else is terminal, as
/// [`spec_poll_result`] says.
pub fn poll_step(resp: PollResponse, interval: u64) -> (r: PollStep)
    ensures
        spec_poll_pending(resp) ==> (r matches PollStep::Pending { wait_secs } && wait_secs
            == interval),
        !spec_poll_pending(resp) ==> (match spec_poll_result(resp) {
            Ok(lv) => r matches PollStep::Authorized { login } && login@ == lv,
            Err(ev) => r matches PollStep::Failed { error } && error@ == ev,
        }),
{
    match resp {
        PollResponse::Transport { message } => PollStep::Failed {
            error: Error::new(ErrorKind::HttpClient { message }),
        },
        PollResponse::Failure { status, message } => PollStep::Failed {
            error: Error::new(ErrorKind::ApiWithStatus { status, message }),
        },
        PollResponse::Success { body } => match body {
            AccessTokenResponse::AccessToken { access_token } => PollStep::Authorized {
                login: Login::OAuth(access_token),
            },
            AccessTokenResponse::Error { error } => {
                if error == String::from_str("authorization_pending") {
                    PollStep::Pending { wait_secs: interval }
                } else {
                    PollStep::Failed { error: Error::new(ErrorKind::Api { message: error }) }
                }
            },
        },
    }
}

/// The position of the first response that ends the poll loop; the
/// length when every response keeps it pending.
pub open spec fn spec_first_terminal(rs: Seq<PollResponse>) -> int
    decreases rs.len(),
{
    if rs.len() == 0 {
        0
    } else if !spec_poll_pending(rs[0]) {
        0
    } else {
        1 + spec_first_terminal(rs.skip(1))
    }
}

/// Pins [`spec_first_terminal`] down: when everything before `k` is
/// pending and `k` (if within range) is not, then `k` is the first
/// terminal position.
pub proof fn lemma_first_terminal_at(rs: Seq<PollResponse>, k: int)
    requires
        0 <= k <= rs.len(),
        forall|j: int| 0 <= j < k ==> spec_poll_pending(rs[j]),
        k < rs.len() ==> !spec_poll_pending(rs[k]),
    ensures
        k < rs.len() ==> spec_first_terminal(rs) == k,
        k == rs.len() ==> spec_first_terminal(rs) == rs.len(),
    decreases k, rs.len(),
{
    if k == 0 {
        if rs.len() > 0 {
        }
    } else {
        assert(spec_poll_pending(rs[0]));
        assert forall|j: int| 0 <= j < k - 1 implies spec_poll_pending(rs.skip(1)[j]) by {
            assert(rs.skip(1)[j] == rs[j + 1]);
        }
        if k < rs.len() {
            assert(rs.skip(1)[k - 1] == rs[k]);
        }
        lemma_first_terminal_at(rs.skip(1), k - 1);
    }
}

/// Runs the poll decision over responses in arrival order: every
/// pending response keeps the loop going, and the first terminal one
/// decides the outcome. `None` means every response was pending and the
/// loop is still going.
pub fn drive_poll(responses: Vec<PollResponse>, interval: u64) -> (r: Option<Result<Login, Error>>)
    ensures
        (r is None) <==> (spec_first_terminal(responses@) == responses@.len()),
        (r is Some) ==> (spec_first_terminal(responses@) < responses@.len()),
        (r is Some && spec_poll_result(responses@[spec_first_terminal(responses@)]) is Ok) ==> (r->0
            is Ok && r->0->Ok_0@ == spec_poll_result(
            responses@[spec_first_terminal(responses@)],
        )->Ok_0),
        (r is Some && spec_poll_result(responses@[spec_first_terminal(responses@)]) is Err) ==> (r
            ->0 is Err && r->0->Err_0@ == spec_poll_result(
            responses@[spec_first_terminal(responses@)],
        )->Err_0),
{
    let ghost all = responses@;
    let mut rest = responses;
    #[verifier::loop_isolation(false)]
    while rest.len() > 0
        invariant
            rest@.len() <= all.len(),
            rest@ =~= all.skip(all.len() - rest@.len()),
            forall|j: int| 0 <= j < all.len() - rest@.len() ==> spec_poll_pending(all[j]),
        decreases rest@.len(),
    {
        let ghost k = all.len() - rest@.len();
        let resp = rest.remove(0);
        proof {
            assert(all.skip(k)[0] == all[k]);
            assert(resp == all[k]);
            assert(rest@ =~= all.skip(k + 1));
        }
        match poll_step(resp, interval) {
            PollStep::Pending { .. } => {
                proof {
                    assert(spec_poll_pending(all[k]));
                }
            },
            PollStep::Authorized { login } => {
                proof {
                    lemma_first_terminal_at(all, k);
                }
                return Some(Ok(login));
            },
            PollStep::Failed { error } => {
                proof {
                    lemma_first_terminal_at(all, k);
                }
                return Some(Err(error));
            },
        }
    }
    proof {
        lemma_first_terminal_at(all, all.len() as int);
    }
    None
}

/// The line a listing prints for one gist: its URL, then the
/// description when there is one.
pub fn gist_line(g: &GistResponse) -> (r: String)
    ensures
        (g.description is Some) ==> (r@ == g.html_url@ + " "@ + g.description->0@),
        (g.description is None) ==> (r@ == g.html_url@),
{
    match &g.description {
        Some(d) => {
            let mut s = g.html_url.clone();
            s.append(" ");
            s.append(d.as_str());
            s
        },
        None => g.html_url.clone(),
    }
}

} // verus!
