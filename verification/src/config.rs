//! Account configuration.
//!
//! Credentials are read from the environment, the OS credential store, or a
//! file the user writes themselves; they are never entered through the app.
//! Reading and writing the file is the application's; what the configuration
//! means, and how it changes, is here.

use vstd::prelude::*;
use crate::text::{
    chars_of, is_ascii_alnum, lower_chars, lower_seq, split_chars, split_on, string_of, trim,
    trim_chars, views, lemma_split_nonempty,
};
use crate::model::opt_view;

verus! {

/// One configured account, as the configuration file holds it.
#[derive(Debug, Clone, PartialEq, Eq)]
pub struct AccountConfig {
    pub id: String,
    pub label: String,
    pub color: String,
    pub identity: String,
    /// JMAP session endpoint. Fastmail: https://api.fastmail.com/jmap/session
    pub session_url: String,
    /// The API token itself. Prefer `token_env` if you would rather it not sit
    /// on disk.
    pub token: Option<String>,
    /// Name of an environment variable holding the token. Takes precedence.
    pub token_env: Option<String>,
    /// Present when the account was connected with OAuth. Its presence is what
    /// marks the account as OAuth: the stored credential is then a refresh
    /// token rather than an API token.
    pub client_id: Option<String>,
    /// Present when the account speaks IMAP rather than JMAP. Its presence is
    /// what selects the backend.
    pub imap: Option<ImapConfig>,
}

#[derive(Debug, Clone, PartialEq, Eq)]
pub struct ImapConfig {
    pub host: String,
    pub port: u16,
    pub username: String,
}

/// What the configuration can refuse.
#[derive(Debug, Clone, PartialEq, Eq)]
pub enum ConfigError {
    /// No usable credential anywhere for the account with this id: sign in
    /// again to reconnect it.
    NoCredential(String),
    /// Neither APPDATA nor HOME is set, so there is nowhere to keep the file.
    NoHome,
}

impl AccountConfig {
    pub fn is_oauth(&self) -> (r: bool)
        ensures
            r == self.client_id is Some,
    {
        self.client_id.is_some()
    }

    pub fn is_imap(&self) -> (r: bool)
        ensures
            r == self.imap is Some,
    {
        self.imap.is_some()
    }
}

pub open spec fn default_session_url_spec() -> Seq<char> {
    "https://api.fastmail.com/jmap/session"@
}

/// Fastmail's JMAP session endpoint, the default for a JMAP account.
pub fn default_session_url() -> (r: String)
    ensures
        r@ == default_session_url_spec(),
{
    "https://api.fastmail.com/jmap/session".to_owned()
}

/// Not blank: holds something other than whitespace.
pub open spec fn non_blank(s: Seq<char>) -> bool {
    trim(s).len() > 0
}

fn is_non_blank(s: &str) -> (r: bool)
    ensures
        r == non_blank(s@),
{
    trim_chars(&chars_of(s)).len() > 0
}

/// The token the environment gives, when the account names a variable and
/// `env_value` (what that variable holds) is not blank.
pub open spec fn env_token_spec(token_env: Option<Seq<char>>, env_value: Option<Seq<char>>) -> Option<
    Seq<char>,
> {
    if token_env is Some && env_value is Some && non_blank(env_value->0) {
        env_value
    } else {
        None
    }
}

/// Where a credential comes from, in order: the environment, then the OS
/// credential store, then the legacy inline field; the first that is not
/// blank wins.
pub open spec fn resolve_token_spec(
    token_env: Option<Seq<char>>,
    env_value: Option<Seq<char>>,
    stored: Option<Seq<char>>,
    inline: Option<Seq<char>>,
) -> Option<Seq<char>> {
    if env_token_spec(token_env, env_value) is Some {
        env_token_spec(token_env, env_value)
    } else if stored is Some && non_blank(stored->0) {
        stored
    } else if inline is Some && non_blank(inline->0) {
        inline
    } else {
        None
    }
}

/// The environment takes precedence over everything: when the variable an
/// account names holds a token, that token is the credential, whatever the
/// credential store or the file holds.
pub proof fn lemma_environment_wins(
    token_env: Option<Seq<char>>,
    env_value: Option<Seq<char>>,
    stored: Option<Seq<char>>,
    inline: Option<Seq<char>>,
)
    requires
        token_env is Some,
        env_value is Some,
        non_blank(env_value->0),
    ensures
        resolve_token_spec(token_env, env_value, stored, inline) == env_value,
{
}

pub open spec fn opt_str(o: Option<&str>) -> Option<Seq<char>> {
    match o {
        Some(s) => Some(s@),
        None => None,
    }
}

impl AccountConfig {
    /// The token from the environment, if the account names a variable and
    /// it holds one. When this gives a token the credential store is not
    /// consulted at all.
    pub fn env_token(&self, env_value: Option<&str>) -> (r: Option<String>)
        ensures
            opt_view(r) == env_token_spec(opt_view(self.token_env), opt_str(env_value)),
    {
        if self.token_env.is_some() {
            match env_value {
                Some(v) => if is_non_blank(v) {
                    return Some(v.to_owned());
                },
                None => {},
            }
        }
        None
    }

    /// Environment first (useful for CI and for keeping a token out of any
    /// store at all), then the OS credential store, then the legacy inline
    /// field. `env_value` is what the variable named by `token_env` holds;
    /// `stored` is what the credential store holds for this account.
    pub fn resolve_token(&self, env_value: Option<&str>, stored: Option<&str>) -> (r: Result<
        String,
        ConfigError,
    >)
        ensures
            match r {
                Ok(t) => resolve_token_spec(
                    opt_view(self.token_env),
                    opt_str(env_value),
                    opt_str(stored),
                    opt_view(self.token),
                ) == Some(t@),
                Err(e) => resolve_token_spec(
                    opt_view(self.token_env),
                    opt_str(env_value),
                    opt_str(stored),
                    opt_view(self.token),
                ) is None && e == ConfigError::NoCredential(self.id),
            },
    {
        match self.env_token(env_value) {
            Some(t) => {
                return Ok(t);
            },
            None => {},
        }
        match stored {
            Some(s) => if is_non_blank(s) {
                return Ok(s.to_owned());
            },
            None => {},
        }
        match &self.token {
            Some(t) => if is_non_blank(t.as_str()) {
                return Ok(t.clone());
            },
            None => {},
        }
        Err(ConfigError::NoCredential(self.id.clone()))
    }
}

/// Every configured account.
#[derive(Debug, Clone, Default, PartialEq, Eq)]
pub struct Config {
    pub accounts: Vec<AccountConfig>,
}

/// The place the configuration lives: a base directory from the environment
/// and the path components under it.
#[derive(Debug, Clone, PartialEq, Eq)]
pub struct ConfigLocation {
    pub base: String,
    pub components: Vec<String>,
}

pub open spec fn location_view(l: ConfigLocation) -> (Seq<char>, Seq<Seq<char>>) {
    (l.base@, crate::model::strs_view(l.components@))
}

/// `%APPDATA%\BazMail` on Windows, `~/.config/bazmail` elsewhere.
pub open spec fn config_dir_spec(appdata: Option<Seq<char>>, home: Option<Seq<char>>) -> Option<
    (Seq<char>, Seq<Seq<char>>),
> {
    match appdata {
        Some(a) => Some((a, seq!["BazMail"@])),
        None => match home {
            Some(h) => Some((h, seq![".config"@, "bazmail"@])),
            None => None,
        },
    }
}

fn strings2(a: &str, b: &str) -> (r: Vec<String>)
    ensures
        crate::model::strs_view(r@) == seq![a@, b@],
{
    let mut v: Vec<String> = Vec::new();
    v.push(a.to_owned());
    v.push(b.to_owned());
    assert(crate::model::strs_view(v@) =~= seq![a@, b@]);
    v
}

impl Config {
    /// Where the configuration directory is, given what `APPDATA` and `HOME`
    /// hold.
    pub fn config_dir(appdata: Option<&str>, home: Option<&str>) -> (r: Result<
        ConfigLocation,
        ConfigError,
    >)
        ensures
            match r {
                Ok(l) => config_dir_spec(opt_str(appdata), opt_str(home)) == Some(location_view(l)),
                Err(e) => config_dir_spec(opt_str(appdata), opt_str(home)) is None && e
                    == ConfigError::NoHome,
            },
    {
        match appdata {
            Some(a) => {
                let mut v: Vec<String> = Vec::new();
                v.push("BazMail".to_owned());
                assert(crate::model::strs_view(v@) =~= seq!["BazMail"@]);
                Ok(ConfigLocation { base: a.to_owned(), components: v })
            },
            None => match home {
                Some(h) => Ok(ConfigLocation { base: h.to_owned(), components: strings2(".config", "bazmail") }),
                None => Err(ConfigError::NoHome),
            },
        }
    }

    /// The configuration file: `config.json` in the configuration directory.
    pub fn config_path(appdata: Option<&str>, home: Option<&str>) -> (r: Result<
        ConfigLocation,
        ConfigError,
    >)
        ensures
            match r {
                Ok(l) => config_dir_spec(opt_str(appdata), opt_str(home)) matches Some(d)
                    && location_view(l) == (d.0, d.1.push("config.json"@)),
                Err(e) => config_dir_spec(opt_str(appdata), opt_str(home)) is None && e
                    == ConfigError::NoHome,
            },
    {
        match Self::config_dir(appdata, home) {
            Ok(mut l) => {
                let ghost before = crate::model::strs_view(l.components@);
                l.components.push("config.json".to_owned());
                assert(crate::model::strs_view(l.components@) =~= before.push("config.json"@));
                Ok(l)
            },
            Err(e) => Err(e),
        }
    }

    pub fn is_empty(&self) -> (r: bool)
        ensures
            r == (self.accounts@.len() == 0),
    {
        self.accounts.len() == 0
    }
}

/// Index of the first account with this id.
pub open spec fn first_with_id(s: Seq<AccountConfig>, id: Seq<char>) -> Option<int>
    decreases s.len(),
{
    if s.len() == 0 {
        None
    } else if s[0].id@ == id {
        Some(0)
    } else {
        match first_with_id(s.drop_first(), id) {
            Some(k) => Some(k + 1),
            None => None,
        }
    }
}

/// The accounts after adding or replacing one: the first entry with the same
/// id is replaced in place; with none, the account goes at the end.
pub open spec fn upsert_spec(s: Seq<AccountConfig>, account: AccountConfig) -> Seq<AccountConfig> {
    match first_with_id(s, account.id@) {
        Some(k) => s.update(k, account),
        None => s.push(account),
    }
}

/// The accounts without any whose id is `id`, the rest in order.
pub open spec fn without_id(s: Seq<AccountConfig>, id: Seq<char>) -> Seq<AccountConfig>
    decreases s.len(),
{
    if s.len() == 0 {
        s
    } else if s.last().id@ == id {
        without_id(s.drop_last(), id)
    } else {
        without_id(s.drop_last(), id).push(s.last())
    }
}

pub proof fn lemma_first_with_id(s: Seq<AccountConfig>, id: Seq<char>)
    ensures
        match first_with_id(s, id) {
            Some(k) => 0 <= k < s.len() && s[k].id@ == id && forall|q: int|
                0 <= q < k ==> (#[trigger] s[q]).id@ != id,
            None => forall|q: int| 0 <= q < s.len() ==> (#[trigger] s[q]).id@ != id,
        },
    decreases s.len(),
{
    if s.len() > 0 {
        lemma_first_with_id(s.drop_first(), id);
        assert(forall|q: int| 0 < q < s.len() ==> #[trigger] s[q] == s.drop_first()[q - 1]);
    }
}

impl Config {
    /// Adds or replaces an account by id. Replacing is how re-authenticating
    /// works, so it must not duplicate the entry.
    pub fn upsert(&mut self, account: AccountConfig)
        ensures
            final(self).accounts@ == upsert_spec(old(self).accounts@, account),
    {
        proof {
            lemma_first_with_id(self.accounts@, account.id@);
        }
        let mut i: usize = 0;
        while i < self.accounts.len()
            invariant
                i <= self.accounts.len(),
                self.accounts@ == old(self).accounts@,
                forall|q: int| 0 <= q < i ==> (#[trigger] self.accounts@[q]).id@ != account.id@,
            decreases self.accounts.len() - i,
        {
            if self.accounts[i].id == account.id {
                proof {
                    lemma_first_with_id(self.accounts@, account.id@);
                }
                self.accounts.set(i, account);
                return;
            }
            i += 1;
        }
        self.accounts.push(account);
    }

    /// Forgets every account with this id; the others stay, in order.
    pub fn remove(&mut self, account_id: &str)
        ensures
            final(self).accounts@ == without_id(old(self).accounts@, account_id@),
    {
        let mut rest: Vec<AccountConfig> = Vec::new();
        std::mem::swap(&mut rest, &mut self.accounts);
        let ghost orig = rest@;
        let total = rest.len();
        assert(orig.len() == total);
        let id = account_id.to_owned();
        let mut n: usize = 0;
        assert(self.accounts@ =~= without_id(orig.take(0), account_id@));
        while rest.len() > 0
            invariant
                n + rest.len() == orig.len(),
                orig.len() <= usize::MAX,
                rest@ == orig.skip(n as int),
                id@ == account_id@,
                self.accounts@ == without_id(orig.take(n as int), account_id@),
            decreases rest.len(),
        {
            let ghost before = rest@;
            let a = rest.remove(0);
            assert(a == orig[n as int]);
            assert(rest@ =~= orig.skip(n + 1));
            assert(orig.take(n + 1).drop_last() =~= orig.take(n as int));
            assert(orig.take(n + 1).last() == a);
            if a.id != id {
                self.accounts.push(a);
            }
            n += 1;
        }
        assert(orig.take(n as int) =~= orig);
    }
}

/// Contains an account with this id.
pub open spec fn has_id(s: Seq<AccountConfig>, id: Seq<char>) -> bool {
    exists|q: int| 0 <= q < s.len() && (#[trigger] s[q]).id@ == id
}

/// No two accounts share an id.
pub open spec fn ids_unique(s: Seq<AccountConfig>) -> bool {
    forall|i: int, j: int|
        0 <= i < s.len() && 0 <= j < s.len() && i != j ==> (#[trigger] s[i]).id@ != (
        #[trigger] s[j]).id@
}

/// Re-authenticating does not duplicate: after an upsert the account is in
/// the list, the list grows only when its id was new, and no two accounts
/// share an id that did not before.
pub proof fn lemma_upsert_does_not_duplicate(s: Seq<AccountConfig>, account: AccountConfig)
    ensures
        upsert_spec(s, account).len() == if has_id(s, account.id@) {
            s.len()
        } else {
            s.len() + 1
        },
        upsert_spec(s, account).contains(account),
        ids_unique(s) ==> ids_unique(upsert_spec(s, account)),
{
    lemma_first_with_id(s, account.id@);
    let r = upsert_spec(s, account);
    match first_with_id(s, account.id@) {
        Some(k) => {
            assert(r[k] == account);
        },
        None => {
            assert(r[s.len() as int] == account);
            assert(!has_id(s, account.id@));
        },
    }
}

proof fn lemma_without_id(s: Seq<AccountConfig>, id: Seq<char>)
    ensures
        forall|q: int| 0 <= q < without_id(s, id).len() ==> (#[trigger] without_id(s, id)[q]).id@
            != id,
        forall|a: AccountConfig| s.contains(a) && a.id@ != id ==> #[trigger] without_id(
            s,
            id,
        ).contains(a),
        forall|a: AccountConfig| #[trigger] without_id(s, id).contains(a) ==> s.contains(a),
    decreases s.len(),
{
    if s.len() > 0 {
        let init = s.drop_last();
        lemma_without_id(init, id);
        let w = without_id(init, id);
        assert forall|a: AccountConfig| s.contains(a) && a.id@ != id implies #[trigger] without_id(
            s,
            id,
        ).contains(a) by {
            let q = choose|q: int| 0 <= q < s.len() && s[q] == a;
            if q < s.len() - 1 {
                assert(init[q] == a);
                assert(init.contains(a));
                assert(w.contains(a));
                let p = choose|p: int| 0 <= p < w.len() && w[p] == a;
                if s.last().id@ != id {
                    assert(without_id(s, id)[p] == a);
                }
            } else {
                assert(without_id(s, id) == w.push(a));
                assert(without_id(s, id)[w.len() as int] == a);
            }
        }
        assert forall|a: AccountConfig| #[trigger] without_id(s, id).contains(a) implies s.contains(
            a,
        ) by {
            let p = choose|p: int| 0 <= p < without_id(s, id).len() && without_id(s, id)[p] == a;
            if p < w.len() {
                if s.last().id@ != id {
                    assert(without_id(s, id) == w.push(s.last()));
                }
                assert(w[p] == a);
                assert(w.contains(a));
                let q = choose|q: int| 0 <= q < init.len() && init[q] == a;
                assert(s[q] == a);
            } else {
                assert(without_id(s, id) == w.push(s.last()));
                assert(s[s.len() - 1] == a);
            }
        }
    }
}

/// Removing an account leaves none with its id and keeps every other.
pub proof fn lemma_remove_forgets_only_that_id(s: Seq<AccountConfig>, id: Seq<char>)
    ensures
        !has_id(without_id(s, id), id),
        forall|a: AccountConfig| s.contains(a) && a.id@ != id ==> #[trigger] without_id(
            s,
            id,
        ).contains(a),
        forall|a: AccountConfig| #[trigger] without_id(s, id).contains(a) ==> s.contains(a),
{
    lemma_without_id(s, id);
}

proof fn lemma_without_id_update(s: Seq<AccountConfig>, k: int, account: AccountConfig)
    requires
        0 <= k < s.len(),
        s[k].id@ == account.id@,
    ensures
        without_id(s.update(k, account), account.id@) == without_id(s, account.id@),
    decreases s.len(),
{
    let u = s.update(k, account);
    if k < s.len() - 1 {
        assert(u.drop_last() =~= s.drop_last().update(k, account));
        lemma_without_id_update(s.drop_last(), k, account);
        assert(u.last() == s.last());
    } else {
        assert(u.drop_last() =~= s.drop_last());
    }
}

/// Removing an account undoes adding or replacing it: what is left is the
/// same either way.
pub proof fn lemma_remove_undoes_upsert(s: Seq<AccountConfig>, account: AccountConfig)
    ensures
        without_id(upsert_spec(s, account), account.id@) == without_id(s, account.id@),
{
    lemma_first_with_id(s, account.id@);
    match first_with_id(s, account.id@) {
        Some(k) => {
            lemma_without_id_update(s, k, account);
        },
        None => {
            assert(s.push(account).drop_last() =~= s);
        },
    }
}

/// The characters an account id may hold: ASCII letters, digits and `-`.
pub open spec fn is_id_char(c: char) -> bool {
    is_ascii_alnum(c) || c == '-'
}

pub open spec fn keep_id_chars(s: Seq<char>) -> Seq<char>
    decreases s.len(),
{
    if s.len() == 0 {
        s
    } else if is_id_char(s.last()) {
        keep_id_chars(s.drop_last()).push(s.last())
    } else {
        keep_id_chars(s.drop_last())
    }
}

/// The id made from an address: the domain's first label (or, with no `@`,
/// the address's first dot-separated part), only its id characters kept,
/// lowercased; `account` when nothing is left.
pub open spec fn account_id_spec(address: Seq<char>) -> Seq<char> {
    let parts = split_on(address, '@');
    let domain = if parts.len() > 1 {
        parts[1]
    } else {
        address
    };
    let stem = split_on(domain, '.')[0];
    let cleaned = keep_id_chars(stem);
    if cleaned.len() == 0 {
        "account"@
    } else {
        lower_seq(cleaned)
    }
}

/// Derives a stable, filesystem- and keyring-safe id from an address, so
/// `you@example.com` becomes `example`.
pub fn account_id_from_address(address: &str) -> (r: String)
    ensures
        r@ == account_id_spec(address@),
{
    let chars = chars_of(address);
    let parts = split_chars(&chars, '@');
    proof {
        lemma_split_nonempty(address@, '@');
    }
    let domain = if parts.len() > 1 {
        assert(parts@[1]@ == views(parts@)[1]);
        crate::text::copy_chars(parts[1].as_slice())
    } else {
        chars
    };
    let labels = split_chars(&domain, '.');
    proof {
        lemma_split_nonempty(domain@, '.');
    }
    assert(labels@[0]@ == views(labels@)[0]);
    let stem = &labels[0];
    let mut cleaned: Vec<char> = Vec::new();
    let mut i: usize = 0;
    while i < stem.len()
        invariant
            i <= stem.len(),
            cleaned@ == keep_id_chars(stem@.take(i as int)),
        decreases stem.len() - i,
    {
        assert(stem@.take(i + 1).drop_last() =~= stem@.take(i as int));
        assert(stem@.take(i + 1).last() == stem@[i as int]);
        let c = stem[i];
        if ('a' <= c && c <= 'z') || ('A' <= c && c <= 'Z') || ('0' <= c && c <= '9') || c == '-' {
            cleaned.push(c);
        }
        i += 1;
    }
    assert(stem@.take(stem.len() as int) =~= stem@);
    if cleaned.len() == 0 {
        "account".to_owned()
    } else {
        string_of(&lower_chars(&cleaned))
    }
}

proof fn lemma_keep_id_chars(s: Seq<char>)
    ensures
        forall|i: int| 0 <= i < keep_id_chars(s).len() ==> is_id_char(#[trigger] keep_id_chars(s)[i]),
    decreases s.len(),
{
    if s.len() > 0 {
        lemma_keep_id_chars(s.drop_last());
        let k = keep_id_chars(s.drop_last());
        if is_id_char(s.last()) {
            assert forall|i: int| 0 <= i < keep_id_chars(s).len() implies is_id_char(
                #[trigger] keep_id_chars(s)[i],
            ) by {
                if i < k.len() {
                    assert(keep_id_chars(s)[i] == k[i]);
                }
            }
        }
    }
}

/// An account id is never empty and holds only lowercase ASCII letters,
/// digits and `-`, whatever the address.
pub proof fn lemma_account_id_is_safe(address: Seq<char>)
    ensures
        account_id_spec(address).len() > 0,
        forall|i: int|
            0 <= i < account_id_spec(address).len() ==> {
                let c = #[trigger] account_id_spec(address)[i];
                ('a' <= c && c <= 'z') || ('0' <= c && c <= '9') || c == '-'
            },
{
    let parts = split_on(address, '@');
    let domain = if parts.len() > 1 {
        parts[1]
    } else {
        address
    };
    lemma_split_nonempty(domain, '.');
    let cleaned = keep_id_chars(split_on(domain, '.')[0]);
    lemma_keep_id_chars(split_on(domain, '.')[0]);
    if cleaned.len() == 0 {
        reveal_strlit("account");
    } else {
        assert forall|i: int| 0 <= i < lower_seq(cleaned).len() implies {
            let c = #[trigger] lower_seq(cleaned)[i];
            ('a' <= c && c <= 'z') || ('0' <= c && c <= '9') || c == '-'
        } by {
            assert(is_id_char(cleaned[i]));
            let c = cleaned[i];
            if 'A' <= c && c <= 'Z' {
                assert((c as u32) + 32 <= 'z' as u32);
            }
        }
    }
}

} // verus!
