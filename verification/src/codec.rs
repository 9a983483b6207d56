//! The textual form of the config file: a JSON object that maps each
//! account name to its credential, written and read by this module
//! alone. The encoder and the parser are both specified against the
//! spec-level functions here, and parsing is proved to invert encoding.

use vstd::prelude::*;
use vstd::string::StrSliceExecFns;
use vstd::string::StringExecFns;

use crate::config::{
    spec_insert, unique_keys, Config, ConfigView, Login, LoginView,
};
use crate::error::{Error, ErrorKind, ErrorKindView};

verus! {

/// How one character is written inside a JSON string: quotes and
/// backslashes get a backslash in front, everything else stands as it
/// is.
pub open spec fn spec_escape_char(c: char) -> Seq<char> {
    if c == '"' || c == '\\' {
        seq!['\\', c]
    } else {
        seq![c]
    }
}

/// A string's characters, escaped one by one.
pub open spec fn spec_escape(s: Seq<char>) -> Seq<char>
    decreases s.len(),
{
    if s.len() == 0 {
        Seq::empty()
    } else {
        spec_escape_char(s[0]) + spec_escape(s.skip(1))
    }
}

/// A JSON string: the escaped characters between double quotes.
pub open spec fn spec_quote(s: Seq<char>) -> Seq<char> {
    seq!['"'] + spec_escape(s) + seq!['"']
}

/// What stands before the value string of an OAuth credential.
pub open spec fn oauth_prefix() -> Seq<char> {
    "{\"type\":\"oauth\",\"value\":"@
}

/// What stands before the username string of a personal access token
/// credential.
pub open spec fn pat_prefix() -> Seq<char> {
    "{\"type\":\"personal_access_token\",\"value\":{\"username\":"@
}

/// What stands between the username and the token strings.
pub open spec fn token_mid() -> Seq<char> {
    ",\"token\":"@
}

/// One credential in its JSON form, tagged by type.
pub open spec fn spec_encode_login(l: LoginView) -> Seq<char> {
    match l {
        LoginView::OAuth(t) => oauth_prefix() + spec_quote(t) + seq!['}'],
        LoginView::PersonalAccessToken { username, token } => pat_prefix() + spec_quote(username)
            + token_mid() + spec_quote(token) + seq!['}', '}'],
    }
}

/// One account entry: the quoted name, a colon, the credential.
pub open spec fn spec_encode_entry(e: (Seq<char>, LoginView)) -> Seq<char> {
    spec_quote(e.0) + seq![':'] + spec_encode_login(e.1)
}

/// The entries in file order, separated by commas.
pub open spec fn spec_encode_entries(es: ConfigView) -> Seq<char>
    decreases es.len(),
{
    if es.len() == 0 {
        Seq::empty()
    } else if es.len() == 1 {
        spec_encode_entry(es[0])
    } else {
        spec_encode_entry(es[0]) + seq![','] + spec_encode_entries(es.skip(1))
    }
}

/// The whole config file: the entries inside one JSON object.
pub open spec fn spec_encode_config(es: ConfigView) -> Seq<char> {
    seq!['{'] + spec_encode_entries(es) + seq!['}']
}

/// Reads a JSON string after its opening quote: characters up to the
/// closing quote, undoing the escapes, paired with what follows the
/// closing quote. Only the two escapes the encoder writes are
/// accepted.
pub open spec fn spec_parse_string_body(s: Seq<char>) -> Option<(Seq<char>, Seq<char>)>
    decreases s.len(),
{
    if s.len() == 0 {
        None
    } else if s[0] == '"' {
        Some((Seq::empty(), s.skip(1)))
    } else if s[0] == '\\' {
        if s.len() >= 2 && (s[1] == '"' || s[1] == '\\') {
            match spec_parse_string_body(s.skip(2)) {
                Some((v, r)) => Some((seq![s[1]] + v, r)),
                None => None,
            }
        } else {
            None
        }
    } else {
        match spec_parse_string_body(s.skip(1)) {
            Some((v, r)) => Some((seq![s[0]] + v, r)),
            None => None,
        }
    }
}

/// Reads a whole JSON string, opening quote included.
pub open spec fn spec_parse_string(s: Seq<char>) -> Option<(Seq<char>, Seq<char>)> {
    if s.len() >= 1 && s[0] == '"' {
        spec_parse_string_body(s.skip(1))
    } else {
        None
    }
}

/// `p` opens `s`.
pub open spec fn spec_starts_with(s: Seq<char>, p: Seq<char>) -> bool {
    p.len() <= s.len() && s.take(p.len() as int) == p
}

/// Reads one credential, deciding its type by the fixed text before
/// the value.
pub open spec fn spec_parse_login(s: Seq<char>) -> Option<(LoginView, Seq<char>)> {
    if spec_starts_with(s, oauth_prefix()) {
        match spec_parse_string(s.skip(oauth_prefix().len() as int)) {
            Some((t, r)) => if r.len() >= 1 && r[0] == '}' {
                Some((LoginView::OAuth(t), r.skip(1)))
            } else {
                None
            },
            None => None,
        }
    } else if spec_starts_with(s, pat_prefix()) {
        match spec_parse_string(s.skip(pat_prefix().len() as int)) {
            Some((u, r)) => if spec_starts_with(r, token_mid()) {
                match spec_parse_string(r.skip(token_mid().len() as int)) {
                    Some((t, r2)) => if r2.len() >= 2 && r2[0] == '}' && r2[1] == '}' {
                        Some(
                            (LoginView::PersonalAccessToken { username: u, token: t }, r2.skip(2)),
                        )
                    } else {
                        None
                    },
                    None => None,
                }
            } else {
                None
            },
            None => None,
        }
    } else {
        None
    }
}

/// Reads one account entry: name, colon, credential.
pub open spec fn spec_parse_entry(s: Seq<char>) -> Option<((Seq<char>, LoginView), Seq<char>)> {
    match spec_parse_string(s) {
        Some((k, r)) => if r.len() >= 1 && r[0] == ':' {
            match spec_parse_login(r.skip(1)) {
                Some((l, r2)) => Some(((k, l), r2)),
                None => None,
            }
        } else {
            None
        },
        None => None,
    }
}

/// Reads entries separated by commas up to the closing brace, which is
/// consumed.
pub open spec fn spec_parse_entries(s: Seq<char>) -> Option<(ConfigView, Seq<char>)>
    decreases s.len(),
{
    match spec_parse_entry(s) {
        // an entry always consumes at least one character, so the
        // length bound holds whenever the comma does; it is written out
        // to make termination evident
        Some((e, r)) => if r.len() >= 1 && r[0] == ',' && r.len() < s.len() {
            match spec_parse_entries(r.skip(1)) {
                Some((es, r2)) => Some((seq![e] + es, r2)),
                None => None,
            }
        } else if r.len() >= 1 && r[0] == '}' {
            Some((seq![e], r.skip(1)))
        } else {
            None
        },
        None => None,
    }
}

/// Reads a whole config text: an empty object, or an object of
/// entries, with nothing after it.
pub open spec fn spec_parse_config(s: Seq<char>) -> Option<ConfigView> {
    if s.len() == 2 && s[0] == '{' && s[1] == '}' {
        Some(Seq::empty())
    } else if s.len() >= 1 && s[0] == '{' {
        match spec_parse_entries(s.skip(1)) {
            Some((es, r)) => if r.len() == 0 {
                Some(es)
            } else {
                None
            },
            None => None,
        }
    } else {
        None
    }
}

/// The config the parsed entries make: each bound in order, a later
/// duplicate name overwriting the earlier credential in place.
pub open spec fn spec_fold_insert(es: ConfigView) -> ConfigView
    decreases es.len(),
{
    if es.len() == 0 {
        Seq::empty()
    } else {
        spec_insert(spec_fold_insert(es.drop_last()), es.last().0, es.last().1)
    }
}

/// The characters of a string slice, in order.
#[verifier::loop_isolation(false)]
pub fn str_chars(s: &str) -> (r: Vec<char>)
    ensures
        r@ == s@,
{
    let n = s.unicode_len();
    let mut v: Vec<char> = Vec::new();
    let mut i: usize = 0;
    while i < n
        invariant
            i <= n,
            n == s@.len(),
            v@ =~= s@.take(i as int),
        decreases n - i,
    {
        let c = s.get_char(i);
        v.push(c);
        proof {
            assert(v@ =~= s@.take(i as int + 1));
        }
        i = i + 1;
    }
    proof {
        assert(s@.take(n as int) =~= s@);
    }
    v
}

/// Relies on String's FromIterator over characters: collecting
/// characters builds the string of exactly those characters in order.
#[verifier::external_body]
fn chars_string(v: &Vec<char>) -> (r: String)
    ensures
        r@ == v@,
{
    v.iter().collect()
}

/// Appends the characters of a literal.
#[verifier::loop_isolation(false)]
fn push_str_chars(out: &mut Vec<char>, lit: &str)
    ensures
        final(out)@ == old(out)@ + lit@,
{
    let n = lit.unicode_len();
    let mut i: usize = 0;
    while i < n
        invariant
            i <= n,
            n == lit@.len(),
            out@ =~= old(out)@ + lit@.take(i as int),
        decreases n - i,
    {
        let c = lit.get_char(i);
        out.push(c);
        proof {
            assert(out@ =~= old(out)@ + lit@.take(i as int + 1));
        }
        i = i + 1;
    }
    proof {
        assert(lit@.take(n as int) =~= lit@);
        assert(out@ =~= old(out)@ + lit@);
    }
}

/// Escaping one more character appends its escape.
pub proof fn lemma_escape_snoc(s: Seq<char>, c: char)
    ensures
        spec_escape(s.push(c)) == spec_escape(s) + spec_escape_char(c),
    decreases s.len(),
{
    if s.len() == 0 {
        assert(s.push(c)[0] == c);
        assert(s.push(c).skip(1) =~= Seq::<char>::empty());
        assert(spec_escape(s.push(c)) == spec_escape_char(s.push(c)[0]) + spec_escape(
            s.push(c).skip(1),
        ));
        assert(spec_escape(Seq::<char>::empty()) == Seq::<char>::empty());
        assert(spec_escape_char(c) + Seq::<char>::empty() =~= spec_escape_char(c));
        assert(spec_escape(s) == Seq::<char>::empty());
        assert(spec_escape(s) + spec_escape_char(c) =~= spec_escape_char(c));
    } else {
        lemma_escape_snoc(s.skip(1), c);
        assert(s.push(c)[0] == s[0]);
        assert(s.push(c).skip(1) =~= s.skip(1).push(c));
        assert(spec_escape_char(s[0]) + (spec_escape(s.skip(1)) + spec_escape_char(c)) =~= (
        spec_escape_char(s[0]) + spec_escape(s.skip(1))) + spec_escape_char(c));
    }
}

/// Appends the escaped characters of a string.
#[verifier::loop_isolation(false)]
fn push_escaped(out: &mut Vec<char>, s: &Vec<char>)
    ensures
        final(out)@ == old(out)@ + spec_escape(s@),
{
    let n = s.len();
    let mut i: usize = 0;
    while i < n
        invariant
            i <= n,
            n == s@.len(),
            out@ =~= old(out)@ + spec_escape(s@.take(i as int)),
        decreases n - i,
    {
        let c = s[i];
        if c == '"' || c == '\\' {
            out.push('\\');
            out.push(c);
        } else {
            out.push(c);
        }
        proof {
            lemma_escape_snoc(s@.take(i as int), c);
            assert(s@.take(i as int).push(c) =~= s@.take(i as int + 1));
            assert(out@ =~= old(out)@ + spec_escape(s@.take(i as int + 1)));
        }
        i = i + 1;
    }
    proof {
        assert(s@.take(n as int) =~= s@);
    }
}

/// Appends a whole JSON string, quotes and escapes included.
fn push_quoted(out: &mut Vec<char>, s: &str)
    ensures
        final(out)@ == old(out)@ + spec_quote(s@),
{
    out.push('"');
    let cs = str_chars(s);
    push_escaped(out, &cs);
    out.push('"');
    proof {
        assert(out@ =~= old(out)@ + spec_quote(s@));
    }
}

/// Appends one credential in its JSON form.
fn push_login(out: &mut Vec<char>, login: &Login)
    ensures
        final(out)@ == old(out)@ + spec_encode_login(login@),
{
    match login {
        Login::OAuth(t) => {
            push_str_chars(out, "{\"type\":\"oauth\",\"value\":");
            push_quoted(out, t.as_str());
            out.push('}');
            proof {
                assert(out@ =~= old(out)@ + spec_encode_login(login@));
            }
        },
        Login::PersonalAccessToken { username, token } => {
            push_str_chars(out, "{\"type\":\"personal_access_token\",\"value\":{\"username\":");
            push_quoted(out, username.as_str());
            push_str_chars(out, ",\"token\":");
            push_quoted(out, token.as_str());
            out.push('}');
            out.push('}');
            proof {
                assert(out@ =~= old(out)@ + spec_encode_login(login@));
            }
        },
    }
}

/// Appends one account entry.
fn push_entry(out: &mut Vec<char>, name: &String, login: &Login)
    ensures
        final(out)@ == old(out)@ + spec_encode_entry((name@, login@)),
{
    push_quoted(out, name.as_str());
    out.push(':');
    push_login(out, login);
    proof {
        assert(out@ =~= old(out)@ + spec_encode_entry((name@, login@)));
    }
}

/// Encoding one more entry appends a comma (unless it is the first)
/// and the entry.
pub proof fn lemma_encode_entries_snoc(es: ConfigView, e: (Seq<char>, LoginView))
    ensures
        es.len() == 0 ==> spec_encode_entries(es.push(e)) == spec_encode_entry(e),
        es.len() > 0 ==> spec_encode_entries(es.push(e)) == spec_encode_entries(es) + seq![',']
            + spec_encode_entry(e),
    decreases es.len(),
{
    if es.len() == 0 {
        assert(es.push(e)[0] == e);
        assert(spec_encode_entries(es.push(e)) == spec_encode_entry(es.push(e)[0]));
    } else {
        lemma_encode_entries_snoc(es.skip(1), e);
        assert(es.push(e)[0] == es[0]);
        assert(es.push(e).skip(1) =~= es.skip(1).push(e));
        if es.len() == 1 {
            assert(spec_encode_entries(es.push(e)) == spec_encode_entry(es[0]) + seq![',']
                + spec_encode_entries(es.skip(1).push(e)));
            assert(spec_encode_entries(es) == spec_encode_entry(es[0]));
        } else {
            assert(spec_encode_entry(es[0]) + seq![','] + (spec_encode_entries(es.skip(1))
                + seq![','] + spec_encode_entry(e)) =~= (spec_encode_entry(es[0]) + seq![',']
                + spec_encode_entries(es.skip(1))) + seq![','] + spec_encode_entry(e));
        }
    }
}

/// Writes a config as the text [`spec_encode_config`] describes; what
/// [`load_config`] reads back.
#[verifier::loop_isolation(false)]
pub fn save_config(cfg: &Config) -> (r: String)
    ensures
        r@ == spec_encode_config(cfg@),
{
    let mut out: Vec<char> = Vec::new();
    out.push('{');
    let n = cfg.len();
    let mut i: usize = 0;
    while i < n
        invariant
            i <= n,
            n == cfg@.len(),
            out@ =~= seq!['{'] + spec_encode_entries(cfg@.take(i as int)),
        decreases n - i,
    {
        if i > 0 {
            out.push(',');
        }
        let e = cfg.entry(i);
        push_entry(&mut out, &e.0, &e.1);
        proof {
            lemma_encode_entries_snoc(cfg@.take(i as int), cfg@[i as int]);
            assert(cfg@.take(i as int).push(cfg@[i as int]) =~= cfg@.take(i as int + 1));
            assert(out@ =~= seq!['{'] + spec_encode_entries(cfg@.take(i as int + 1)));
        }
        i = i + 1;
    }
    out.push('}');
    proof {
        assert(cfg@.take(n as int) =~= cfg@);
        assert(out@ =~= spec_encode_config(cfg@));
    }
    chars_string(&out)
}

/// The entries a parsed vector denotes, by each pair's views.
pub open spec fn raw_view(es: Seq<(String, Login)>) -> ConfigView {
    es.map_values(|e: (String, Login)| (e.0@, e.1@))
}

/// Consumes the literal at `pos`, handing back the position after it.
#[verifier::loop_isolation(false)]
fn eat_lit(s: &Vec<char>, pos: usize, lit: &str) -> (r: Option<usize>)
    requires
        pos <= s@.len(),
    ensures
        (r is Some) ==> (spec_starts_with(s@.skip(pos as int), lit@) && r->0 == pos + lit@.len()
            && r->0 <= s@.len()),
        (r is None) ==> !spec_starts_with(s@.skip(pos as int), lit@),
{
    let n = lit.unicode_len();
    if s.len() - pos < n {
        return None;
    }
    let mut i: usize = 0;
    while i < n
        invariant
            i <= n,
            forall|j: int| 0 <= j < i ==> s@[pos + j] == lit@[j],
        decreases n - i,
    {
        let c = s[pos + i];
        if c != lit.get_char(i) {
            proof {
                assert(s@.skip(pos as int).take(n as int)[i as int] == s@[pos + i]);
                assert(s@.skip(pos as int).take(n as int) != lit@);
            }
            return None;
        }
        i = i + 1;
    }
    proof {
        assert forall|j: int| 0 <= j < n implies s@.skip(pos as int).take(n as int)[j]
            == lit@[j] by {
            assert(s@.skip(pos as int).take(n as int)[j] == s@[pos + j]);
        }
        assert(s@.skip(pos as int).take(n as int) =~= lit@);
    }
    Some(pos + n)
}

/// Reads a JSON string's characters after the opening quote, as
/// [`spec_parse_string_body`] does.
fn parse_string_body(s: &Vec<char>, pos: usize) -> (r: Option<(Vec<char>, usize)>)
    requires
        pos <= s@.len(),
    ensures
        (match r {
            Some(pr) => pos < pr.1 <= s@.len() && spec_parse_string_body(s@.skip(pos as int))
                == Some((pr.0@, s@.skip(pr.1 as int))),
            None => spec_parse_string_body(s@.skip(pos as int)) is None,
        }),
    decreases s@.len() - pos,
{
    let ghost tail = s@.skip(pos as int);
    if pos == s.len() {
        return None;
    }
    let c = s[pos];
    proof {
        assert(tail[0] == c);
    }
    if c == '"' {
        proof {
            assert(tail.skip(1) =~= s@.skip(pos as int + 1));
        }
        let v: Vec<char> = Vec::new();
        proof {
            assert(v@ =~= Seq::<char>::empty());
        }
        return Some((v, pos + 1));
    }
    if c == '\\' {
        if pos + 1 < s.len() {
            let c2 = s[pos + 1];
            proof {
                assert(tail.len() >= 2);
                assert(tail[1] == c2);
            }
            if c2 == '"' || c2 == '\\' {
                proof {
                    assert(tail.skip(2) =~= s@.skip(pos as int + 2));
                }
                match parse_string_body(s, pos + 2) {
                    Some((v, end)) => {
                        let ghost v0 = v@;
                        let mut v2 = v;
                        v2.insert(0, c2);
                        proof {
                            assert(v2@ =~= seq![c2] + v0);
                        }
                        return Some((v2, end));
                    },
                    None => {
                        return None;
                    },
                }
            } else {
                return None;
            }
        } else {
            proof {
                assert(tail.len() < 2);
            }
            return None;
        }
    }
    proof {
        assert(tail.skip(1) =~= s@.skip(pos as int + 1));
    }
    match parse_string_body(s, pos + 1) {
        Some((v, end)) => {
            let ghost v0 = v@;
            let mut v2 = v;
            v2.insert(0, c);
            proof {
                assert(v2@ =~= seq![c] + v0);
            }
            Some((v2, end))
        },
        None => None,
    }
}

/// Reads a whole JSON string, as [`spec_parse_string`] does.
fn parse_string(s: &Vec<char>, pos: usize) -> (r: Option<(Vec<char>, usize)>)
    requires
        pos <= s@.len(),
    ensures
        (match r {
            Some(pr) => pos < pr.1 <= s@.len() && spec_parse_string(s@.skip(pos as int)) == Some(
                (pr.0@, s@.skip(pr.1 as int)),
            ),
            None => spec_parse_string(s@.skip(pos as int)) is None,
        }),
{
    if pos < s.len() {
        let c = s[pos];
        proof {
            assert(s@.skip(pos as int)[0] == c);
        }
        if c == '"' {
            proof {
                assert(s@.skip(pos as int).skip(1) =~= s@.skip(pos as int + 1));
            }
            parse_string_body(s, pos + 1)
        } else {
            None
        }
    } else {
        None
    }
}

/// Reads one credential, as [`spec_parse_login`] does.
fn parse_login(s: &Vec<char>, pos: usize) -> (r: Option<(Login, usize)>)
    requires
        pos <= s@.len(),
    ensures
        (match r {
            Some(pr) => pos < pr.1 <= s@.len() && spec_parse_login(s@.skip(pos as int)) == Some(
                (pr.0@, s@.skip(pr.1 as int)),
            ),
            None => spec_parse_login(s@.skip(pos as int)) is None,
        }),
{
    let ghost tail = s@.skip(pos as int);
    match eat_lit(s, pos, "{\"type\":\"oauth\",\"value\":") {
        Some(p1) => {
            proof {
                assert(s@.skip(p1 as int) =~= tail.skip(oauth_prefix().len() as int));
            }
            match parse_string(s, p1) {
                Some((t, e1)) => {
                    if e1 < s.len() {
                        let cc = s[e1];
                        proof {
                            assert(s@.skip(e1 as int)[0] == cc);
                        }
                        if cc == '}' {
                            proof {
                                assert(s@.skip(e1 as int).skip(1) =~= s@.skip(e1 as int + 1));
                            }
                            return Some((Login::OAuth(chars_string(&t)), e1 + 1));
                        }
                    }
                    return None;
                },
                None => {
                    return None;
                },
            }
        },
        None => {},
    }
    match eat_lit(s, pos, "{\"type\":\"personal_access_token\",\"value\":{\"username\":") {
        Some(p1) => {
            proof {
                assert(s@.skip(p1 as int) =~= tail.skip(pat_prefix().len() as int));
            }
            match parse_string(s, p1) {
                Some((u, e1)) => {
                    match eat_lit(s, e1, ",\"token\":") {
                        Some(p2) => {
                            proof {
                                assert(s@.skip(p2 as int) =~= s@.skip(e1 as int).skip(
                                    token_mid().len() as int,
                                ));
                            }
                            match parse_string(s, p2) {
                                Some((t, e2)) => {
                                    if e2 < s.len() {
                                        if e2 + 1 < s.len() {
                                            let b0 = s[e2];
                                            let b1 = s[e2 + 1];
                                            proof {
                                                assert(s@.skip(e2 as int)[0] == b0);
                                                assert(s@.skip(e2 as int)[1] == b1);
                                            }
                                            if b0 == '}' && b1 == '}' {
                                                proof {
                                                    assert(s@.skip(e2 as int).skip(2) =~= s@.skip(
                                                        e2 as int + 2,
                                                    ));
                                                }
                                                let login = Login::PersonalAccessToken {
                                                    username: chars_string(&u),
                                                    token: chars_string(&t),
                                                };
                                                return Some((login, e2 + 2));
                                            }
                                        }
                                    }
                                    return None;
                                },
                                None => {
                                    return None;
                                },
                            }
                        },
                        None => {
                            return None;
                        },
                    }
                },
                None => {
                    return None;
                },
            }
        },
        None => {},
    }
    None
}

/// Reads one account entry, as [`spec_parse_entry`] does.
fn parse_entry(s: &Vec<char>, pos: usize) -> (r: Option<((String, Login), usize)>)
    requires
        pos <= s@.len(),
    ensures
        (match r {
            Some(pr) => pos < pr.1 <= s@.len() && spec_parse_entry(s@.skip(pos as int)) == Some(
                ((pr.0.0@, pr.0.1@), s@.skip(pr.1 as int)),
            ),
            None => spec_parse_entry(s@.skip(pos as int)) is None,
        }),
{
    match parse_string(s, pos) {
        Some((k, e0)) => {
            if e0 < s.len() {
                let c = s[e0];
                proof {
                    assert(s@.skip(e0 as int)[0] == c);
                }
                if c == ':' {
                    proof {
                        assert(s@.skip(e0 as int).skip(1) =~= s@.skip(e0 as int + 1));
                    }
                    match parse_login(s, e0 + 1) {
                        Some((l, e1)) => {
                            return Some(((chars_string(&k), l), e1));
                        },
                        None => {
                            return None;
                        },
                    }
                }
            }
            None
        },
        None => None,
    }
}

/// Reads the entries of a config object, as [`spec_parse_entries`]
/// does.
fn parse_entries(s: &Vec<char>, pos: usize) -> (r: Option<(Vec<(String, Login)>, usize)>)
    requires
        pos <= s@.len(),
    ensures
        (match r {
            Some(pr) => pos < pr.1 <= s@.len() && spec_parse_entries(s@.skip(pos as int)) == Some(
                (raw_view(pr.0@), s@.skip(pr.1 as int)),
            ),
            None => spec_parse_entries(s@.skip(pos as int)) is None,
        }),
    decreases s@.len() - pos,
{
    match parse_entry(s, pos) {
        Some((entry, e1)) => {
            if e1 < s.len() {
                let c = s[e1];
                proof {
                    assert(s@.skip(e1 as int)[0] == c);
                }
                if c == ',' {
                    proof {
                        assert(s@.skip(e1 as int).len() < s@.skip(pos as int).len());
                        assert(s@.skip(e1 as int).skip(1) =~= s@.skip(e1 as int + 1));
                    }
                    match parse_entries(s, e1 + 1) {
                        Some((es, e2)) => {
                            let ghost es0 = es@;
                            let mut es2 = es;
                            es2.insert(0, entry);
                            proof {
                                assert forall|j: int|
                                    0 <= j < es2@.len() implies raw_view(es2@)[j] == (seq![
                                    (entry.0@, entry.1@),
                                ] + raw_view(es0))[j] by {
                                    if j > 0 {
                                        assert(es2@[j] == es0[j - 1]);
                                    }
                                }
                                assert(raw_view(es2@) =~= seq![(entry.0@, entry.1@)] + raw_view(
                                    es0,
                                ));
                            }
                            return Some((es2, e2));
                        },
                        None => {
                            return None;
                        },
                    }
                } else if c == '}' {
                    proof {
                        assert(s@.skip(e1 as int).skip(1) =~= s@.skip(e1 as int + 1));
                    }
                    let mut es2: Vec<(String, Login)> = Vec::new();
                    es2.push(entry);
                    proof {
                        assert(raw_view(es2@) =~= seq![(entry.0@, entry.1@)]);
                    }
                    return Some((es2, e1 + 1));
                } else {
                    return None;
                }
            }
            None
        },
        None => None,
    }
}

/// Reads a config text, as [`spec_parse_config`] describes, and binds
/// the parsed entries in order: what [`save_config`] wrote loads back
/// unchanged.
#[verifier::loop_isolation(false)]
pub fn load_config(text: &str) -> (r: Result<Config, Error>)
    ensures
        (spec_parse_config(text@) is Some) ==> (r is Ok && r->Ok_0@ == spec_fold_insert(
            spec_parse_config(text@)->0,
        ) && r->Ok_0.wf()),
        (spec_parse_config(text@) is None) ==> (r is Err && r->Err_0@
            == (ErrorKindView::InvalidConfigFormat { message: "unparsable configuration"@ })),
{
    let cs = str_chars(text);
    if cs.len() == 2 {
        if cs[0] == '{' && cs[1] == '}' {
            return Ok(Config::new());
        }
    }
    let parse_failed = Error::new(
        ErrorKind::InvalidConfigFormat { message: String::from_str("unparsable configuration") },
    );
    if cs.len() >= 1 {
        let c0 = cs[0];
        if c0 == '{' {
            match parse_entries(&cs, 1) {
                Some((raw, end)) => {
                    if end == cs.len() {
                        proof {
                            assert(cs@.skip(end as int) =~= Seq::<char>::empty());
                        }
                        let ghost rawv = raw_view(raw@);
                        let n = raw.len();
                        let mut cfg = Config::new();
                        let mut rem = raw;
                        let mut done: usize = 0;
                        while done < n
                            invariant
                                done + rem@.len() == n,
                                n == rawv.len(),
                                rem@ =~= raw@.skip(done as int),
                                cfg.wf(),
                                cfg@ == spec_fold_insert(rawv.take(done as int)),
                            decreases n - done,
                        {
                            let (name, login) = rem.remove(0);
                            proof {
                                assert(raw@.skip(done as int)[0] == raw@[done as int]);
                                assert(rem@ =~= raw@.skip(done as int + 1));
                                assert(rawv[done as int] == (raw@[done as int].0@, raw@[
                                    done as int].1@));
                            }
                            let ghost before = cfg@;
                            cfg.insert(name, login);
                            proof {
                                let d = done as int;
                                assert(rawv.take(d + 1).drop_last() =~= rawv.take(d));
                                assert(rawv.take(d + 1).last() == rawv[d]);
                                assert(cfg@ == spec_insert(before, rawv[d].0, rawv[d].1));
                                assert(cfg@ == spec_fold_insert(rawv.take(d + 1)));
                            }
                            done = done + 1;
                        }
                        proof {
                            assert(rawv.take(n as int) =~= rawv);
                        }
                        return Ok(cfg);
                    }
                    return Err(parse_failed);
                },
                None => {
                    return Err(parse_failed);
                },
            }
        }
    }
    Err(parse_failed)
}

/// Parsing a string body inverts escaping: the escaped characters up
/// to a closing quote read back as the original characters, with the
/// rest untouched.
pub proof fn lemma_parse_escape(s: Seq<char>, rest: Seq<char>)
    ensures
        spec_parse_string_body(spec_escape(s) + seq!['"'] + rest) == Some((s, rest)),
    decreases s.len(),
{
    let input = spec_escape(s) + seq!['"'] + rest;
    if s.len() == 0 {
        assert(spec_escape(s) == Seq::<char>::empty());
        assert(input =~= seq!['"'] + rest);
        assert(input[0] == '"');
        assert(input.skip(1) =~= rest);
    } else {
        let c = s[0];
        let s1 = s.skip(1);
        lemma_parse_escape(s1, rest);
        assert(spec_escape(s) == spec_escape_char(c) + spec_escape(s1));
        if c == '"' || c == '\\' {
            assert(spec_escape_char(c) == seq!['\\', c]);
            assert(input[0] == '\\');
            assert(input[1] == c);
            assert(input.len() >= 2);
            assert(input.skip(2) =~= spec_escape(s1) + seq!['"'] + rest);
            assert(spec_parse_string_body(input.skip(2)) == Some((s1, rest)));
            assert(seq![input[1]] + s1 =~= s);
        } else {
            assert(spec_escape_char(c) == seq![c]);
            assert(input[0] == c);
            assert(input.skip(1) =~= spec_escape(s1) + seq!['"'] + rest);
            assert(spec_parse_string_body(input.skip(1)) == Some((s1, rest)));
            assert(seq![input[0]] + s1 =~= s);
        }
    }
}

/// Parsing a quoted string inverts quoting.
pub proof fn lemma_parse_quoted(s: Seq<char>, rest: Seq<char>)
    ensures
        spec_parse_string(spec_quote(s) + rest) == Some((s, rest)),
{
    let input = spec_quote(s) + rest;
    assert(input[0] == '"');
    assert(input.len() >= 1);
    assert(input.skip(1) =~= spec_escape(s) + seq!['"'] + rest);
    lemma_parse_escape(s, rest);
}

/// Parsing a credential inverts encoding it.
pub proof fn lemma_parse_login_rt(l: LoginView, rest: Seq<char>)
    ensures
        spec_parse_login(spec_encode_login(l) + rest) == Some((l, rest)),
{
    let input = spec_encode_login(l) + rest;
    match l {
        LoginView::OAuth(t) => {
            let p = oauth_prefix();
            assert(input =~= p + (spec_quote(t) + (seq!['}'] + rest)));
            assert(input.take(p.len() as int) =~= p);
            assert(spec_starts_with(input, p));
            assert(input.skip(p.len() as int) =~= spec_quote(t) + (seq!['}'] + rest));
            lemma_parse_quoted(t, seq!['}'] + rest);
            let r = seq!['}'] + rest;
            assert(r[0] == '}');
            assert(r.skip(1) =~= rest);
        },
        LoginView::PersonalAccessToken { username, token } => {
            let p = pat_prefix();
            let q = oauth_prefix();
            assert(input =~= p + (spec_quote(username) + (token_mid() + (spec_quote(token) + (
            seq!['}', '}'] + rest)))));
            assert(input.take(p.len() as int) =~= p);
            assert(spec_starts_with(input, p));
            assert(!spec_starts_with(input, q)) by {
                reveal_strlit("{\"type\":\"oauth\",\"value\":");
                reveal_strlit("{\"type\":\"personal_access_token\",\"value\":{\"username\":");
                assert(q[9] == 'o');
                assert(p[9] == 'p');
                assert(input[9] == p[9]);
                if spec_starts_with(input, q) {
                    assert(input.take(q.len() as int)[9] == input[9]);
                }
            }
            assert(input.skip(p.len() as int) =~= spec_quote(username) + (token_mid() + (
            spec_quote(token) + (seq!['}', '}'] + rest))));
            let r1 = token_mid() + (spec_quote(token) + (seq!['}', '}'] + rest));
            lemma_parse_quoted(username, r1);
            assert(r1.take(token_mid().len() as int) =~= token_mid());
            assert(spec_starts_with(r1, token_mid()));
            assert(r1.skip(token_mid().len() as int) =~= spec_quote(token) + (seq!['}', '}']
                + rest));
            let r2 = seq!['}', '}'] + rest;
            lemma_parse_quoted(token, r2);
            assert(r2.len() >= 2);
            assert(r2[0] == '}');
            assert(r2[1] == '}');
            assert(r2.skip(2) =~= rest);
        },
    }
}

/// Parsing an account entry inverts encoding it.
pub proof fn lemma_parse_entry_rt(e: (Seq<char>, LoginView), rest: Seq<char>)
    ensures
        spec_parse_entry(spec_encode_entry(e) + rest) == Some((e, rest)),
{
    let input = spec_encode_entry(e) + rest;
    assert(input =~= spec_quote(e.0) + (seq![':'] + (spec_encode_login(e.1) + rest)));
    let r0 = seq![':'] + (spec_encode_login(e.1) + rest);
    lemma_parse_quoted(e.0, r0);
    assert(r0[0] == ':');
    assert(r0.skip(1) =~= spec_encode_login(e.1) + rest);
    lemma_parse_login_rt(e.1, rest);
    assert(spec_parse_entry(input) == Some(((e.0, e.1), rest)));
    assert((e.0, e.1) == e);
}

/// Parsing a run of entries inverts encoding them, up to the closing
/// brace.
pub proof fn lemma_parse_entries_rt(es: ConfigView, rest: Seq<char>)
    requires
        es.len() >= 1,
    ensures
        spec_parse_entries(spec_encode_entries(es) + seq!['}'] + rest) == Some((es, rest)),
    decreases es.len(),
{
    let input = spec_encode_entries(es) + seq!['}'] + rest;
    if es.len() == 1 {
        assert(spec_encode_entries(es) == spec_encode_entry(es[0]));
        assert(input =~= spec_encode_entry(es[0]) + (seq!['}'] + rest));
        lemma_parse_entry_rt(es[0], seq!['}'] + rest);
        let r = seq!['}'] + rest;
        assert(r[0] == '}');
        assert(r[0] != ',');
        assert(r.skip(1) =~= rest);
        assert(seq![es[0]] =~= es);
        assert(spec_parse_entries(input) == Some((es, rest)));
    } else {
        let e0 = es[0];
        let tail = es.skip(1);
        assert(spec_encode_entries(es) == spec_encode_entry(e0) + seq![','] + spec_encode_entries(
            tail,
        ));
        let after = seq![','] + (spec_encode_entries(tail) + (seq!['}'] + rest));
        assert(input =~= spec_encode_entry(e0) + after);
        lemma_parse_entry_rt(e0, after);
        assert(after[0] == ',');
        assert(after.len() >= 1);
        assert(spec_encode_entry(e0).len() > 0) by {
            assert(spec_encode_entry(e0).len() == spec_quote(e0.0).len() + 1
                + spec_encode_login(e0.1).len());
        }
        assert(after.len() < input.len());
        assert(after.skip(1) =~= spec_encode_entries(tail) + seq!['}'] + rest);
        lemma_parse_entries_rt(tail, rest);
        assert(spec_parse_entries(after.skip(1)) == Some((tail, rest)));
        assert(seq![e0] + tail =~= es);
    }
}

/// Parsing a whole config text inverts encoding it, for any entries,
/// duplicate names included.
pub proof fn lemma_parse_config_rt(es: ConfigView)
    ensures
        spec_parse_config(spec_encode_config(es)) == Some(es),
{
    let input = spec_encode_config(es);
    if es.len() == 0 {
        assert(spec_encode_entries(es) == Seq::<char>::empty());
        assert(input =~= seq!['{', '}']);
        assert(input.len() == 2 && input[0] == '{' && input[1] == '}');
        assert(es =~= Seq::<(Seq<char>, LoginView)>::empty());
    } else {
        assert(spec_encode_entries(es).len() > 0) by {
            if es.len() == 1 {
                assert(spec_encode_entries(es) == spec_encode_entry(es[0]));
            }
            assert(spec_encode_entry(es[0]).len() == spec_quote(es[0].0).len() + 1
                + spec_encode_login(es[0].1).len());
        }
        assert(input.len() > 2);
        assert(input[0] == '{');
        assert(input.skip(1) =~= spec_encode_entries(es) + seq!['}'] + Seq::<char>::empty());
        lemma_parse_entries_rt(es, Seq::<char>::empty());
        assert(spec_parse_entries(input.skip(1)) == Some((es, Seq::<char>::empty())));
    }
}

/// Binding unique-keyed entries in order reproduces them exactly.
pub proof fn lemma_fold_insert_unique(es: ConfigView)
    requires
        unique_keys(es),
    ensures
        spec_fold_insert(es) == es,
    decreases es.len(),
{
    if es.len() == 0 {
        assert(spec_fold_insert(es) =~= es);
    } else {
        let front = es.drop_last();
        let e = es.last();
        assert(unique_keys(front)) by {
            assert forall|i: int, j: int|
                0 <= i < j < front.len() implies front[i].0 != front[j].0 by {
                assert(front[i] == es[i]);
                assert(front[j] == es[j]);
            }
        }
        lemma_fold_insert_unique(front);
        assert forall|j: int| 0 <= j < front.len() implies front[j].0 != e.0 by {
            assert(front[j] == es[j]);
            assert(e == es[es.len() - 1]);
        }
        crate::config::lemma_spec_insert_absent(front, e.0, e.1);
        assert(front.push(e) =~= es);
    }
}

/// Round trip of the persistent config: the text [`save_config`]
/// writes parses back, and loading binds the entries to exactly the
/// saved config. With the contracts of [`save_config`] and
/// [`load_config`], saving a well-formed config and loading the text
/// again yields an equal value.
pub proof fn lemma_save_load_round_trip(entries: ConfigView)
    requires
        unique_keys(entries),
    ensures
        spec_parse_config(spec_encode_config(entries)) == Some(entries),
        spec_fold_insert(entries) == entries,
{
    lemma_parse_config_rt(entries);
    lemma_fold_insert_unique(entries);
}

} // verus!
