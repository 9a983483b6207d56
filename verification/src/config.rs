use vstd::prelude::*;
use vstd::string::StringExecFns;

use crate::error::{Error, ErrorKind, ErrorKindView};

verus! {

/// Mathematical value of a [`Login`]: the same tagged union over
/// character sequences.
pub enum LoginView {
    OAuth(Seq<char>),
    PersonalAccessToken { username: Seq<char>, token: Seq<char> },
}

/// A credential: either an OAuth2 access token, or a username together
/// with a personal access token for basic authentication.
#[derive(Debug, PartialEq, Eq)]
pub enum Login {
    OAuth(String),
    PersonalAccessToken { username: String, token: String },
}

impl View for Login {
    type V = LoginView;

    open spec fn view(&self) -> LoginView {
        match self {
            Login::OAuth(token) => LoginView::OAuth(token@),
            Login::PersonalAccessToken { username, token } => LoginView::PersonalAccessToken {
                username: username@,
                token: token@,
            },
        }
    }
}

impl Clone for Login {
    fn clone(&self) -> (r: Self)
        ensures
            r@ == self@,
    {
        match self {
            Login::OAuth(token) => Login::OAuth(token.clone()),
            Login::PersonalAccessToken { username, token } => Login::PersonalAccessToken {
                username: username.clone(),
                token: token.clone(),
            },
        }
    }
}

/// What a [`Config`] denotes: the account entries in file order, each a
/// name paired with a credential.
pub type ConfigView = Seq<(Seq<char>, LoginView)>;

/// The first credential bound to `name` in `entries`, if any.
pub open spec fn spec_lookup(entries: ConfigView, name: Seq<char>) -> Option<LoginView>
    decreases entries.len(),
{
    if entries.len() == 0 {
        None
    } else if entries[0].0 == name {
        Some(entries[0].1)
    } else {
        spec_lookup(entries.skip(1), name)
    }
}

/// Key uniqueness of a sequence of account entries: no name occurs
/// twice.
pub open spec fn unique_keys(entries: ConfigView) -> bool {
    forall|i: int, j: int| 0 <= i < j < entries.len() ==> entries[i].0 != entries[j].0
}

/// What inserting a binding does to the entries: the first entry with
/// the same name keeps its place and gets the new credential; a fresh
/// name goes to the end.
pub open spec fn spec_insert(entries: ConfigView, name: Seq<char>, login: LoginView) -> ConfigView
    decreases entries.len(),
{
    if entries.len() == 0 {
        seq![(name, login)]
    } else if entries[0].0 == name {
        seq![(entries[0].0, login)] + entries.skip(1)
    } else {
        seq![entries[0]] + spec_insert(entries.skip(1), name, login)
    }
}

/// When the name is bound at position `i` (and nowhere earlier),
/// inserting replaces the credential at `i` and moves nothing.
pub proof fn lemma_spec_insert_found(
    entries: ConfigView,
    name: Seq<char>,
    login: LoginView,
    i: int,
)
    requires
        0 <= i < entries.len(),
        entries[i].0 == name,
        forall|j: int| 0 <= j < i ==> entries[j].0 != name,
    ensures
        spec_insert(entries, name, login) =~= entries.update(i, (entries[i].0, login)),
    decreases i,
{
    if i == 0 {
    } else {
        assert(entries[0].0 != name);
        assert forall|j: int| 0 <= j < i - 1 implies entries.skip(1)[j].0 != name by {
            assert(entries.skip(1)[j] == entries[j + 1]);
        }
        lemma_spec_insert_found(entries.skip(1), name, login, i - 1);
    }
}

/// When the name is not bound, inserting appends the new binding.
pub proof fn lemma_spec_insert_absent(entries: ConfigView, name: Seq<char>, login: LoginView)
    requires
        forall|j: int| 0 <= j < entries.len() ==> entries[j].0 != name,
    ensures
        spec_insert(entries, name, login) =~= entries.push((name, login)),
    decreases entries.len(),
{
    if entries.len() == 0 {
    } else {
        assert forall|j: int| 0 <= j < entries.skip(1).len() implies entries.skip(1)[j].0 != name by {
            assert(entries.skip(1)[j] == entries[j + 1]);
        }
        lemma_spec_insert_absent(entries.skip(1), name, login);
    }
}

/// An ordered mapping from account name to credential, as stored in the
/// config file. Iteration order is insertion (file) order; keys are
/// unique.
#[derive(Debug, PartialEq, Eq)]
pub struct Config {
    entries: Vec<(String, Login)>,
}

impl View for Config {
    type V = ConfigView;

    closed spec fn view(&self) -> ConfigView {
        self.entries@.map_values(|e: (String, Login)| (e.0@, e.1@))
    }
}

impl Config {
    /// Key uniqueness: no account name occurs twice.
    pub open spec fn wf(&self) -> bool {
        unique_keys(self@)
    }

    /// An empty config.
    pub fn new() -> (r: Config)
        ensures
            r@ =~= Seq::<(Seq<char>, LoginView)>::empty(),
            r.wf(),
    {
        Config { entries: Vec::new() }
    }

    /// How many accounts are saved.
    pub fn len(&self) -> (r: usize)
        ensures
            r == self@.len(),
    {
        self.entries.len()
    }

    /// True when no account is saved.
    pub fn is_empty(&self) -> (r: bool)
        ensures
            r == (self@.len() == 0),
    {
        self.entries.len() == 0
    }

    /// The entry at position `i`, in file order.
    pub fn entry(&self, i: usize) -> (r: &(String, Login))
        requires
            i < self@.len(),
        ensures
            (r.0@, r.1@) == self@[i as int],
    {
        &self.entries[i]
    }

    /// The credential saved under `name`, if any.
    pub fn lookup(&self, name: &String) -> (r: Option<&Login>)
        ensures
            match r {
                Some(l) => spec_lookup(self@, name@) == Some(l@),
                None => spec_lookup(self@, name@) is None,
            },
    {
        let mut i: usize = 0;
        proof {
            assert(self@.skip(0) =~= self@);
        }
        while i < self.entries.len()
            invariant
                i <= self.entries.len(),
                spec_lookup(self@, name@) == spec_lookup(self@.skip(i as int), name@),
            decreases self.entries.len() - i,
        {
            proof {
                assert(self@.skip(i as int)[0] == self@[i as int]);
            }
            if self.entries[i].0 == *name {
                return Some(&self.entries[i].1);
            }
            proof {
                assert(self@.skip(i as int).skip(1) =~= self@.skip(i as int + 1));
            }
            i += 1;
        }
        None
    }

    /// Binds `name` to `login`: an existing entry keeps its place and
    /// gets the new credential; a fresh name goes to the end.
    pub fn insert(&mut self, name: String, login: Login)
        requires
            old(self).wf(),
        ensures
            final(self)@ == spec_insert(old(self)@, name@, login@),
            final(self).wf(),
    {
        let mut i: usize = 0;
        while i < self.entries.len()
            invariant
                i <= self.entries.len(),
                self@ == old(self)@,
                unique_keys(old(self)@),
                forall|j: int| 0 <= j < i ==> old(self)@[j].0 != name@,
            decreases self.entries.len() - i,
        {
            if self.entries[i].0 == name {
                proof {
                    lemma_spec_insert_found(old(self)@, name@, login@, i as int);
                }
                self.entries[i] = (name, login);
                proof {
                    assert(self@ =~= old(self)@.update(i as int, (old(self)@[i as int].0, login@)));
                    assert(self@ == spec_insert(old(self)@, name@, login@));
                    assert forall|a: int, b: int|
                        0 <= a < b < self@.len() implies self@[a].0 != self@[b].0 by {
                        assert(self@[a].0 == old(self)@[a].0);
                        assert(self@[b].0 == old(self)@[b].0);
                    }
                }
                return ;
            }
            i += 1;
        }
        proof {
            lemma_spec_insert_absent(old(self)@, name@, login@);
        }
        self.entries.push((name, login));
        proof {
            assert(self@ =~= old(self)@.push((name@, login@)));
            assert forall|a: int, b: int|
                0 <= a < b < self@.len() implies self@[a].0 != self@[b].0 by {
                if b < old(self)@.len() {
                    assert(self@[a].0 == old(self)@[a].0);
                    assert(self@[b].0 == old(self)@[b].0);
                } else {
                    assert(self@[a].0 == old(self)@[a].0);
                    assert(self@[b].0 == name@);
                }
            }
        }
    }
}

/// Which of the three mutually exclusive credential selectors the
/// caller gave: an explicit OAuth token, an explicit username and
/// password pair, or (username alone) the name of a saved account.
pub struct Account {
    pub access_token: Option<String>,
    pub username: Option<String>,
    pub password: Option<String>,
}

/// True when resolving this selector will consult the saved config:
/// an explicit token, or an explicit username and password pair, make
/// the config unnecessary.
pub fn needs_config(account: &Account) -> (r: bool)
    ensures
        r == !(account.access_token is Some || (account.username is Some && account.password
            is Some)),
{
    !(account.access_token.is_some() || (account.username.is_some()
        && account.password.is_some()))
}

/// Chooses the credential that a command runs with.
///
/// Precedence, first match wins: an explicit token makes an OAuth
/// login; an explicit username and password make a personal access
/// token login; a username alone names a saved account, which must
/// exist; with no selector at all the first saved account is used, and
/// an empty config is an error.
pub fn select_account(account: &Account, config: &Config) -> (r: Result<Login, Error>)
    ensures
        (account.access_token is Some) ==> (r is Ok && r->Ok_0@ == LoginView::OAuth(
            account.access_token->0@,
        )),
        (account.access_token is None && account.username is Some && account.password is Some)
            ==> (r is Ok && r->Ok_0@ == (LoginView::PersonalAccessToken {
            username: account.username->0@,
            token: account.password->0@,
        })),
        (account.access_token is None && account.username is Some && account.password is None)
            ==> (match spec_lookup(config@, account.username->0@) {
            Some(lv) => r is Ok && r->Ok_0@ == lv,
            None => r is Err && r->Err_0@ == (ErrorKindView::AccountNotFound {
                name: account.username->0@,
            }),
        }),
        (account.access_token is None && account.username is None) ==> (if config@.len() > 0 {
            r is Ok && r->Ok_0@ == config@[0].1
        } else {
            r is Err && r->Err_0@ == ErrorKindView::EmptyConfig
        }),
{
    if let Some(t) = &account.access_token {
        return Ok(Login::OAuth(t.clone()));
    }
    if account.username.is_some() && account.password.is_some() {
        let u = account.username.as_ref().unwrap();
        let p = account.password.as_ref().unwrap();
        return Ok(Login::PersonalAccessToken { username: u.clone(), token: p.clone() });
    }
    if let Some(u) = &account.username {
        return match config.lookup(u) {
            Some(l) => Ok(l.clone()),
            None => Err(Error::new(ErrorKind::AccountNotFound { name: u.clone() })),
        };
    }
    if config.is_empty() {
        Err(Error::new(ErrorKind::EmptyConfig))
    } else {
        Ok(config.entry(0).1.clone())
    }
}

/// `suffix` closes `s`.
pub open spec fn spec_ends_with(s: Seq<char>, suffix: Seq<char>) -> bool {
    suffix.len() <= s.len() && s.skip(s.len() - suffix.len()) == suffix
}

/// Relies on dirs::config_dir: the platform's configuration directory.
/// The value depends on the environment, so nothing is promised of it.
#[verifier::external_body]
fn os_config_dir() -> Option<String> {
    dirs::config_dir().and_then(|p| p.to_str().map(|s| s.to_string()))
}

/// Joins one path component onto a base path.
pub fn join_path(base: &str, name: &str) -> (r: String)
    ensures
        r@ == base@ + "/"@ + name@,
{
    let mut s = base.to_owned();
    s.append("/");
    s.append(name);
    s
}

/// The directory this tool keeps its state under: `gist` inside the
/// platform's configuration directory, when the environment defines
/// one.
pub fn default_config_dir() -> (r: Option<String>)
    ensures
        (r is Some) ==> spec_ends_with(r->0@, "/gist"@),
{
    match os_config_dir() {
        None => None,
        Some(base) => {
            let d = join_path(base.as_str(), "gist");
            proof {
                reveal_strlit("/");
                reveal_strlit("gist");
                reveal_strlit("/gist");
                assert(d@.skip(d@.len() - 5) =~= "/gist"@);
            }
            Some(d)
        },
    }
}

/// The file the config is saved to: `config.json` inside the default
/// config directory, when the environment defines one.
pub fn default_config_file() -> (r: Option<String>)
    ensures
        (r is Some) ==> spec_ends_with(r->0@, "/gist/config.json"@),
{
    match default_config_dir() {
        None => None,
        Some(dir) => {
            let f = join_path(dir.as_str(), "config.json");
            proof {
                reveal_strlit("/");
                reveal_strlit("gist");
                reveal_strlit("/gist");
                reveal_strlit("config.json");
                reveal_strlit("/gist/config.json");
                let n = dir@.len() as int;
                assert(f@.len() == n + 12);
                assert forall|i: int| 0 <= i < 17 implies f@.skip(n - 5)[i]
                    == "/gist/config.json"@[i] by {
                    assert(f@.skip(n - 5)[i] == f@[n - 5 + i]);
                    if i < 5 {
                        assert(f@[n - 5 + i] == dir@[n - 5 + i]);
                        assert(dir@.skip(n - 5)[i] == dir@[n - 5 + i]);
                    } else if i == 5 {
                        assert(f@[n] == "/"@[0]);
                    } else {
                        assert(f@[n - 5 + i] == "config.json"@[i - 6]);
                    }
                }
                assert(f@.skip(f@.len() - 17) =~= "/gist/config.json"@);
            }
            Some(f)
        },
    }
}

} // verus!
