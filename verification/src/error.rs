use vstd::prelude::*;
use vstd::string::StringExecFns;

verus! {

/// Mathematical value of an [`ErrorKind`]: the same shape with string
/// contents abstracted to character sequences.
pub enum ErrorKindView {
    Api { message: Seq<char> },
    ApiWithStatus { status: u16, message: Seq<char> },
    ConfigDirectoryNotDetected,
    InvalidConfigFormat { message: Seq<char> },
    SaveConfigFailure { message: Seq<char> },
    HttpClient { message: Seq<char> },
    Io { message: Seq<char> },
    AccountNotFound { name: Seq<char> },
    EmptyConfig,
}

/// Every way an operation of this library can fail.
///
/// `Api` carries an error code returned in a 2xx response body of the
/// OAuth token endpoint; `ApiWithStatus` carries the status and body text
/// of a non-2xx response; the config variants describe the persistent
/// store; `AccountNotFound` and `EmptyConfig` come from account
/// resolution.
#[derive(Debug, PartialEq, Eq)]
pub enum ErrorKind {
    Api { message: String },
    ApiWithStatus { status: u16, message: String },
    ConfigDirectoryNotDetected,
    InvalidConfigFormat { message: String },
    SaveConfigFailure { message: String },
    HttpClient { message: String },
    Io { message: String },
    AccountNotFound { name: String },
    EmptyConfig,
}

impl View for ErrorKind {
    type V = ErrorKindView;

    open spec fn view(&self) -> ErrorKindView {
        match self {
            ErrorKind::Api { message } => ErrorKindView::Api { message: message@ },
            ErrorKind::ApiWithStatus { status, message } => ErrorKindView::ApiWithStatus {
                status: *status,
                message: message@,
            },
            ErrorKind::ConfigDirectoryNotDetected => ErrorKindView::ConfigDirectoryNotDetected,
            ErrorKind::InvalidConfigFormat { message } => ErrorKindView::InvalidConfigFormat {
                message: message@,
            },
            ErrorKind::SaveConfigFailure { message } => ErrorKindView::SaveConfigFailure {
                message: message@,
            },
            ErrorKind::HttpClient { message } => ErrorKindView::HttpClient { message: message@ },
            ErrorKind::Io { message } => ErrorKindView::Io { message: message@ },
            ErrorKind::AccountNotFound { name } => ErrorKindView::AccountNotFound { name: name@ },
            ErrorKind::EmptyConfig => ErrorKindView::EmptyConfig,
        }
    }
}

/// An error of this library; a wrapper around [`ErrorKind`], as the
/// callers only ever inspect the kind.
#[derive(Debug, PartialEq, Eq)]
pub struct Error {
    kind: ErrorKind,
}

impl View for Error {
    type V = ErrorKindView;

    closed spec fn view(&self) -> ErrorKindView {
        self.kind@
    }
}

impl Error {
    /// Wraps a kind into an error.
    pub fn new(kind: ErrorKind) -> (r: Error)
        ensures
            r@ == kind@,
    {
        Error { kind }
    }

    /// The kind of this error.
    pub fn kind(&self) -> (r: &ErrorKind)
        ensures
            r@ == self@,
    {
        &self.kind
    }

    /// Consumes the error and hands its kind back.
    pub fn into_kind(self) -> (r: ErrorKind)
        ensures
            r@ == self@,
    {
        self.kind
    }
}

/// The character of one decimal digit.
pub open spec fn spec_digit(d: int) -> char {
    if d == 0 {
        '0'
    } else if d == 1 {
        '1'
    } else if d == 2 {
        '2'
    } else if d == 3 {
        '3'
    } else if d == 4 {
        '4'
    } else if d == 5 {
        '5'
    } else if d == 6 {
        '6'
    } else if d == 7 {
        '7'
    } else if d == 8 {
        '8'
    } else {
        '9'
    }
}

/// A non-negative number written in decimal, most significant digit
/// first.
pub open spec fn spec_decimal(n: int) -> Seq<char>
    decreases n,
{
    if n < 10 {
        seq![spec_digit(n)]
    } else {
        spec_decimal(n / 10) + seq![spec_digit(n % 10)]
    }
}

/// One decimal digit as text.
fn digit_str(d: u16) -> (r: &'static str)
    requires
        d < 10,
    ensures
        r@ == seq![spec_digit(d as int)],
{
    let r: &'static str = if d == 0 {
        "0"
    } else if d == 1 {
        "1"
    } else if d == 2 {
        "2"
    } else if d == 3 {
        "3"
    } else if d == 4 {
        "4"
    } else if d == 5 {
        "5"
    } else if d == 6 {
        "6"
    } else if d == 7 {
        "7"
    } else if d == 8 {
        "8"
    } else {
        "9"
    };
    proof {
        reveal_strlit("0");
        reveal_strlit("1");
        reveal_strlit("2");
        reveal_strlit("3");
        reveal_strlit("4");
        reveal_strlit("5");
        reveal_strlit("6");
        reveal_strlit("7");
        reveal_strlit("8");
        reveal_strlit("9");
        assert(r@ =~= seq![spec_digit(d as int)]);
    }
    r
}

/// Writes a number in decimal.
pub fn u16_decimal(n: u16) -> (r: String)
    ensures
        r@ == spec_decimal(n as int),
    decreases n,
{
    if n < 10 {
        String::from_str(digit_str(n))
    } else {
        let mut s = u16_decimal(n / 10);
        s.append(digit_str(n % 10));
        s
    }
}

/// The printed form of each kind of error.
pub open spec fn spec_message(k: ErrorKindView) -> Seq<char> {
    match k {
        ErrorKindView::Api { message } => "GitHub API returns error: "@ + message,
        ErrorKindView::ApiWithStatus { status, message } => "GitHub API returns error with status "@
            + spec_decimal(status as int) + ": "@ + message,
        ErrorKindView::ConfigDirectoryNotDetected => "Default configuration directory not detected. $HOME or $XDG_CONFIG_DIR may not set"@,
        ErrorKindView::InvalidConfigFormat { message } => "Cannot parse configuration file: "@
            + message,
        ErrorKindView::SaveConfigFailure { message } => "Failed to save configuration file: "@
            + message,
        ErrorKindView::HttpClient { message } => message,
        ErrorKindView::Io { message } => message,
        ErrorKindView::AccountNotFound { name } => "Account '"@ + name + "' is not found"@,
        ErrorKindView::EmptyConfig => "No account is saved; log in first"@,
    }
}

impl ErrorKind {
    /// The text the top level prints for this error.
    pub fn message(&self) -> (r: String)
        ensures
            r@ == spec_message(self@),
    {
        match self {
            ErrorKind::Api { message } => String::from_str("GitHub API returns error: ").concat(
                message.as_str(),
            ),
            ErrorKind::ApiWithStatus { status, message } => {
                let mut s = String::from_str("GitHub API returns error with status ");
                let d = u16_decimal(*status);
                s.append(d.as_str());
                s.append(": ");
                s.append(message.as_str());
                s
            },
            ErrorKind::ConfigDirectoryNotDetected => String::from_str(
                "Default configuration directory not detected. $HOME or $XDG_CONFIG_DIR may not set",
            ),
            ErrorKind::InvalidConfigFormat { message } => String::from_str(
                "Cannot parse configuration file: ",
            ).concat(message.as_str()),
            ErrorKind::SaveConfigFailure { message } => String::from_str(
                "Failed to save configuration file: ",
            ).concat(message.as_str()),
            ErrorKind::HttpClient { message } => message.clone(),
            ErrorKind::Io { message } => message.clone(),
            ErrorKind::AccountNotFound { name } => {
                let mut s = String::from_str("Account '");
                s.append(name.as_str());
                s.append("' is not found");
                s
            },
            ErrorKind::EmptyConfig => String::from_str("No account is saved; log in first"),
        }
    }
}

impl Error {
    /// The text the top level prints for this error.
    pub fn message(&self) -> (r: String)
        ensures
            r@ == spec_message(self@),
    {
        self.kind.message()
    }
}

} // verus!
