//! The decisions the sync engine makes.
//!
//! The engine itself holds connections, locks and the local database, and
//! lives with the application. What it decides (which account an action is
//! for, how a move changes a message's mailboxes, which mutations go first,
//! how long a token is trusted) is here.

use vstd::prelude::*;
use crate::config::{AccountConfig, Config, ImapConfig, first_with_id, account_id_from_address, account_id_spec, non_blank};
use crate::model::{
    opt_view, strs_view, Account, Connection, EmailAddress, Envelope, EnvelopeView, Mailbox,
    MailboxView, Mutation, mailboxes_view, envelopes_view,
};
use crate::text::{chars_eq, chars_of, split_chars, split_on, string_of, views, lemma_split_nonempty};
use crate::contentline::strings_view;

verus! {

/// What the engine can refuse.
#[derive(Debug, Clone, PartialEq, Eq)]
pub enum EngineError {
    /// No account is configured with this id.
    NoAccount(String),
    /// The account with this id has no mailbox with this role.
    NoMailbox { account_id: String, role: String },
    /// The account with this id exposes no inbox.
    NoInbox(String),
    /// IMAP moves a message to one place; a move with nowhere to go is
    /// refused.
    NoDestination,
    /// The account reads over IMAP, which cannot send.
    CannotSend,
    /// The account has no OAuth client id.
    NoClientId(String),
    /// A sign-in's code exchange granted no refresh token, so there is
    /// nothing to keep the account signed in with.
    NoRefreshToken,
}

/// What a sync actually did, so the UI can say something truthful.
#[derive(Debug, Clone, PartialEq, Eq)]
pub struct SyncReport {
    pub account_id: String,
    pub mailboxes: usize,
    pub envelopes: usize,
}

/// The result of a move: whether it reached the server or sits in the queue.
#[derive(Debug, Clone, PartialEq, Eq)]
pub struct ArchiveOutcome {
    pub mutation_id: i64,
    pub account_id: String,
    pub email_id: String,
    pub synced: usize,
    pub queued: usize,
}

/// What a token turned out to belong to, so the UI can confirm before saving.
#[derive(Debug, Clone, PartialEq, Eq)]
pub struct VerifiedAccount {
    pub username: String,
    pub account_name: String,
    pub suggested_id: String,
    pub suggested_label: String,
}

/// How an account authenticates: IMAP wins, then OAuth, then a plain token.
pub open spec fn connection_of(a: AccountConfig) -> Connection {
    if a.imap is Some {
        Connection::Imap
    } else if a.client_id is Some {
        Connection::Oauth
    } else {
        Connection::Token
    }
}

pub open spec fn account_matches(acc: Account, a: AccountConfig) -> bool {
    acc.id@ == a.id@ && acc.label@ == a.label@ && acc.color@ == a.color@ && acc.identity@
        == a.identity@ && acc.connection == connection_of(a)
}

/// The sidebar's accounts, in configuration order.
pub fn accounts_of(config: &Config) -> (r: Vec<Account>)
    ensures
        r@.len() == config.accounts@.len(),
        forall|i: int| 0 <= i < r@.len() ==> account_matches(#[trigger] r@[i], config.accounts@[i]),
{
    let mut out: Vec<Account> = Vec::new();
    let mut i: usize = 0;
    while i < config.accounts.len()
        invariant
            i <= config.accounts.len(),
            out@.len() == i,
            forall|k: int| 0 <= k < i ==> account_matches(#[trigger] out@[k], config.accounts@[k]),
        decreases config.accounts.len() - i,
    {
        let a = &config.accounts[i];
        let connection = if a.imap.is_some() {
            Connection::Imap
        } else if a.client_id.is_some() {
            Connection::Oauth
        } else {
            Connection::Token
        };
        out.push(
            Account {
                id: a.id.clone(),
                label: a.label.clone(),
                color: a.color.clone(),
                identity: a.identity.clone(),
                connection,
            },
        );
        i += 1;
    }
    out
}

/// The accounts after moving one a place up or down: swapped with its
/// neighbour, or left as they are at either end or when no account has the
/// id.
pub open spec fn move_account_spec(s: Seq<AccountConfig>, id: Seq<char>, up: bool) -> Seq<AccountConfig> {
    match first_with_id(s, id) {
        Some(at) => if up && at > 0 {
            s.update(at, s[at - 1]).update(at - 1, s[at])
        } else if !up && at + 1 < s.len() {
            s.update(at, s[at + 1]).update(at + 1, s[at])
        } else {
            s
        },
        None => s,
    }
}

fn position_of(accounts: &Vec<AccountConfig>, id: &str) -> (r: Option<usize>)
    ensures
        match r {
            Some(k) => first_with_id(accounts@, id@) == Some(k as int) && k < accounts@.len(),
            None => first_with_id(accounts@, id@) is None,
        },
{
    proof {
        crate::config::lemma_first_with_id(accounts@, id@);
    }
    let want = id.to_owned();
    let mut i: usize = 0;
    while i < accounts.len()
        invariant
            i <= accounts.len(),
            want@ == id@,
            forall|q: int| 0 <= q < i ==> (#[trigger] accounts@[q]).id@ != id@,
        decreases accounts.len() - i,
    {
        if accounts[i].id == want {
            proof {
                crate::config::lemma_first_with_id(accounts@, id@);
            }
            return Some(i);
        }
        i += 1;
    }
    None
}

/// Moves an account one place up or down the sidebar. Order lives in the
/// configuration list itself, and a swap of neighbours cannot produce the
/// duplicate or missing ranks a numeric ordering eventually does.
pub fn move_account(config: &mut Config, account_id: &str, up: bool)
    ensures
        final(config).accounts@ == move_account_spec(old(config).accounts@, account_id@, up),
{
    let at = match position_of(&config.accounts, account_id) {
        Some(at) => at,
        None => {
            return;
        },
    };
    let ghost s = config.accounts@;
    if up && at > 0 {
        let x = config.accounts.remove(at);
        config.accounts.insert(at - 1, x);
        assert(config.accounts@ =~= s.update(at as int, s[at - 1]).update(at - 1, s[at as int]));
    } else if !up && at < config.accounts.len() - 1 {
        let x = config.accounts.remove(at);
        config.accounts.insert(at + 1, x);
        assert(config.accounts@ =~= s.update(at as int, s[at + 1]).update(at + 1, s[at as int]));
    }
}

proof fn lemma_swap_multiset(s: Seq<AccountConfig>, i: int, j: int)
    requires
        0 <= i < s.len(),
        0 <= j < s.len(),
        i != j,
    ensures
        s.update(i, s[j]).update(j, s[i]).to_multiset() == s.to_multiset(),
{
    broadcast use vstd::seq_lib::to_multiset_update;
    broadcast use vstd::multiset::group_multiset_axioms;

    broadcast use vstd::seq_lib::to_multiset_contains;

    let s1 = s.update(i, s[j]);
    let m = s.to_multiset();
    assert(s1[j] == s[j]);
    assert(s1.to_multiset() == m.insert(s[j]).remove(s[i]));
    assert(s1.update(j, s[i]).to_multiset() == s1.to_multiset().insert(s[i]).remove(s[j]));
    assert(s.contains(s[i]));
    assert(s.contains(s[j]));
    assert(m.count(s[i]) > 0);
    assert(m.count(s[j]) > 0);
    assert(m.insert(s[j]).remove(s[i]).insert(s[i]).remove(s[j]) =~= m);
}

/// Moving an account never loses or duplicates one: the list holds the same
/// accounts, only in another order.
pub proof fn lemma_move_keeps_accounts(s: Seq<AccountConfig>, id: Seq<char>, up: bool)
    ensures
        move_account_spec(s, id, up).len() == s.len(),
        move_account_spec(s, id, up).to_multiset() == s.to_multiset(),
{
    crate::config::lemma_first_with_id(s, id);
    match first_with_id(s, id) {
        Some(at) => if up && at > 0 {
            lemma_swap_multiset(s, at, at - 1);
        } else if !up && at + 1 < s.len() {
            lemma_swap_multiset(s, at, at + 1);
        },
        None => {},
    }
}

/// Moving an account up and then back down gives the list it started as,
/// unless it was already at the top.
pub proof fn lemma_move_up_then_down(s: Seq<AccountConfig>, id: Seq<char>)
    requires
        first_with_id(s, id) matches Some(at) && at > 0,
    ensures
        move_account_spec(move_account_spec(s, id, true), id, false) == s,
{
    crate::config::lemma_first_with_id(s, id);
    let at = first_with_id(s, id)->0;
    let s1 = move_account_spec(s, id, true);
    crate::config::lemma_first_with_id(s1, id);
    assert(s1[at - 1] == s[at]);
    assert(forall|q: int| 0 <= q < at - 1 ==> #[trigger] s1[q] == s[q]);
    assert(first_with_id(s1, id) == Some(at - 1)) by {
        match first_with_id(s1, id) {
            Some(k) => {
                if k < at - 1 {
                    assert(s1[k] == s[k]);
                }
            },
            None => {
                assert(s1[at - 1].id@ == id);
            },
        }
    }
    assert(move_account_spec(s1, id, false) =~= s);
}

/// The same account with another colour.
pub open spec fn recoloured(a: AccountConfig, b: AccountConfig, color: Seq<char>) -> bool {
    b.color@ == color && b.id == a.id && b.label == a.label && b.identity == a.identity
        && b.session_url == a.session_url && b.token == a.token && b.token_env == a.token_env
        && b.client_id == a.client_id && b.imap == a.imap
}

/// Repaints an account: the first with the id gets the colour, every other
/// account stays as it was; with none, nothing changes.
pub fn set_account_color(config: &mut Config, account_id: &str, color: &str)
    ensures
        final(config).accounts@.len() == old(config).accounts@.len(),
        match first_with_id(old(config).accounts@, account_id@) {
            Some(k) => recoloured(old(config).accounts@[k], final(config).accounts@[k], color@)
                && forall|q: int|
                0 <= q < old(config).accounts@.len() && q != k
                    ==> #[trigger] final(config).accounts@[q] == old(config).accounts@[q],
            None => final(config).accounts@ == old(config).accounts@,
        },
{
    match position_of(&config.accounts, account_id) {
        Some(k) => {
            let mut a = config.accounts.remove(k);
            a.color = color.to_owned();
            config.accounts.insert(k, a);
        },
        None => {},
    }
}

/// The configuration of the account with this id.
pub fn account_config<'a>(config: &'a Config, account_id: &str) -> (r: Result<&'a AccountConfig, EngineError>)
    ensures
        match r {
            Ok(a) => first_with_id(config.accounts@, account_id@) matches Some(k) && (*a)
                == config.accounts@[k],
            Err(e) => first_with_id(config.accounts@, account_id@) is None && (e matches EngineError::NoAccount(i) && i@ == account_id@),
        },
{
    match position_of(&config.accounts, account_id) {
        Some(k) => Ok(&config.accounts[k]),
        None => Err(EngineError::NoAccount(account_id.to_owned())),
    }
}

/// What an account is labelled by default: the domain of its address, or
/// the whole address when there is none.
pub open spec fn label_from_username_spec(username: Seq<char>) -> Seq<char> {
    let parts = split_on(username, '@');
    if parts.len() > 1 && parts[1].len() > 0 {
        parts[1]
    } else {
        username
    }
}

/// The default label for an address: its domain, or the address itself.
pub fn label_from_username(username: &str) -> (r: String)
    ensures
        r@ == label_from_username_spec(username@),
{
    let parts = split_chars(&chars_of(username), '@');
    proof {
        lemma_split_nonempty(username@, '@');
    }
    if parts.len() > 1 && parts[1].len() > 0 {
        assert(parts@[1]@ == views(parts@)[1]);
        string_of(&parts[1])
    } else {
        username.to_owned()
    }
}

/// How long an access token is trusted, in seconds: what the server said (an
/// hour when it said nothing), a minute early so a call never goes out on a
/// token about to die, and never under thirty seconds.
pub open spec fn token_lifetime_spec(expires_in: Option<u64>) -> u64 {
    let given: u64 = match expires_in {
        Some(s) => s,
        None => 3600,
    };
    let early: u64 = if given >= 60 {
        (given - 60) as u64
    } else {
        0
    };
    if early < 30 {
        30
    } else {
        early
    }
}

pub fn token_lifetime(expires_in: Option<u64>) -> (r: u64)
    ensures
        r == token_lifetime_spec(expires_in),
        r >= 30,
{
    let given = match expires_in {
        Some(s) => s,
        None => 3600,
    };
    let early = given.saturating_sub(60);
    if early < 30 {
        30
    } else {
        early
    }
}

/// Whether a token response carries a rotated refresh token that must
/// replace the stored one: it carries one and it differs.
pub fn refresh_token_rotated(rotated: Option<&str>, current: &str) -> (r: bool)
    ensures
        r == (rotated matches Some(t) && t@ != current@),
{
    match rotated {
        Some(t) => !chars_eq(&chars_of(t), &chars_of(current)),
        None => false,
    }
}

/// The first mailbox with this role.
pub open spec fn with_role(ms: Seq<Mailbox>, role: Seq<char>) -> Option<int>
    decreases ms.len(),
{
    if ms.len() == 0 {
        None
    } else if opt_view(ms[0].role) == Some(role) {
        Some(0)
    } else {
        match with_role(ms.drop_first(), role) {
            Some(k) => Some(k + 1),
            None => None,
        }
    }
}

fn role_is(m: &Mailbox, role: &str) -> (r: bool)
    ensures
        r == (opt_view(m.role) == Some(role@)),
{
    match &m.role {
        Some(r) => chars_eq(&chars_of(r.as_str()), &chars_of(role)),
        None => false,
    }
}

/// The first mailbox with this role, by position.
pub fn find_role(mailboxes: &Vec<Mailbox>, role: &str) -> (r: Option<usize>)
    ensures
        match r {
            Some(k) => with_role(mailboxes@, role@) == Some(k as int) && k < mailboxes@.len(),
            None => with_role(mailboxes@, role@) is None,
        },
{
    let mut i: usize = 0;
    assert(mailboxes@.skip(0) =~= mailboxes@);
    while i < mailboxes.len()
        invariant
            i <= mailboxes.len(),
            forall|q: int| 0 <= q < i ==> opt_view(#[trigger] mailboxes@[q].role) != Some(role@),
        decreases mailboxes.len() - i,
    {
        if role_is(&mailboxes[i], role) {
            proof {
                lemma_with_role(mailboxes@, role@);
            }
            return Some(i);
        }
        i += 1;
    }
    proof {
        lemma_with_role(mailboxes@, role@);
    }
    None
}

proof fn lemma_with_role(ms: Seq<Mailbox>, role: Seq<char>)
    ensures
        match with_role(ms, role) {
            Some(k) => 0 <= k < ms.len() && opt_view(ms[k].role) == Some(role) && forall|q: int|
                0 <= q < k ==> opt_view(#[trigger] ms[q].role) != Some(role),
            None => forall|q: int| 0 <= q < ms.len() ==> opt_view(#[trigger] ms[q].role) != Some(role),
        },
    decreases ms.len(),
{
    if ms.len() > 0 {
        lemma_with_role(ms.drop_first(), role);
        assert(forall|q: int| 0 < q < ms.len() ==> #[trigger] ms[q] == ms.drop_first()[q - 1]);
    }
}

/// The id of an account's mailbox with this role.
pub fn mailbox_by_role(mailboxes: &Vec<Mailbox>, account_id: &str, role: &str) -> (r: Result<
    String,
    EngineError,
>)
    ensures
        match r {
            Ok(id) => with_role(mailboxes@, role@) matches Some(k) && id@ == mailboxes@[k].id@,
            Err(e) => with_role(mailboxes@, role@) is None && (e matches EngineError::NoMailbox {
                account_id: a,
                role: ro,
            } && a@ == account_id@ && ro@ == role@),
        },
{
    match find_role(mailboxes, role) {
        Some(k) => Ok(mailboxes[k].id.clone()),
        None => Err(EngineError::NoMailbox { account_id: account_id.to_owned(), role: role.to_owned() }),
    }
}

/// The ids of the inboxes among these mailboxes, in order.
pub open spec fn inbox_ids_spec(ms: Seq<Mailbox>) -> Seq<Seq<char>>
    decreases ms.len(),
{
    if ms.len() == 0 {
        Seq::<Seq<char>>::empty()
    } else if opt_view(ms.last().role) == Some("inbox"@) {
        inbox_ids_spec(ms.drop_last()).push(ms.last().id@)
    } else {
        inbox_ids_spec(ms.drop_last())
    }
}

/// The inboxes the unified inbox is made of.
pub fn inbox_ids(mailboxes: &Vec<Mailbox>) -> (r: Vec<String>)
    ensures
        strs_view(r@) == inbox_ids_spec(mailboxes@),
{
    let mut out: Vec<String> = Vec::new();
    let mut i: usize = 0;
    while i < mailboxes.len()
        invariant
            i <= mailboxes.len(),
            strs_view(out@) == inbox_ids_spec(mailboxes@.take(i as int)),
        decreases mailboxes.len() - i,
    {
        assert(mailboxes@.take(i + 1).drop_last() =~= mailboxes@.take(i as int));
        assert(mailboxes@.take(i + 1).last() == mailboxes@[i as int]);
        if role_is(&mailboxes[i], "inbox") {
            let ghost before = strs_view(out@);
            out.push(mailboxes[i].id.clone());
            assert(strs_view(out@) =~= before.push(mailboxes@[i as int].id@));
        }
        i += 1;
    }
    assert(mailboxes@.take(mailboxes.len() as int) =~= mailboxes@);
    out
}

/// `ids` without any of `remove`.
pub open spec fn without_all(ids: Seq<Seq<char>>, remove: Seq<Seq<char>>) -> Seq<Seq<char>>
    decreases ids.len(),
{
    if ids.len() == 0 {
        ids
    } else if remove.contains(ids.last()) {
        without_all(ids.drop_last(), remove)
    } else {
        without_all(ids.drop_last(), remove).push(ids.last())
    }
}

/// `cur` with each of `add` appended that it does not already hold.
pub open spec fn add_missing(cur: Seq<Seq<char>>, add: Seq<Seq<char>>) -> Seq<Seq<char>>
    decreases add.len(),
{
    if add.len() == 0 {
        cur
    } else {
        let c = add_missing(cur, add.drop_last());
        if c.contains(add.last()) {
            c
        } else {
            c.push(add.last())
        }
    }
}

/// A message's mailboxes after a move: the removed ones taken out, then the
/// added ones appended where missing.
pub open spec fn mailbox_change_spec(ids: Seq<Seq<char>>, add: Seq<Seq<char>>, remove: Seq<Seq<char>>) -> Seq<Seq<char>> {
    add_missing(without_all(ids, remove), add)
}

fn contains_str(v: &Vec<String>, s: &String) -> (r: bool)
    ensures
        r == strs_view(v@).contains(s@),
{
    let ghost sv = strs_view(v@);
    let mut i: usize = 0;
    while i < v.len()
        invariant
            i <= v.len(),
            sv == strs_view(v@),
            forall|k: int| 0 <= k < i ==> sv[k] != s@,
        decreases v.len() - i,
    {
        if v[i] == *s {
            assert(sv[i as int] == s@);
            return true;
        }
        i += 1;
    }
    false
}

/// Applies a mailbox change to a message's memberships: the optimistic half
/// of a move, done before the server is told.
pub fn mailbox_change(ids: &Vec<String>, add: &Vec<String>, remove: &Vec<String>) -> (r: Vec<String>)
    ensures
        strs_view(r@) == mailbox_change_spec(strs_view(ids@), strs_view(add@), strs_view(remove@)),
{
    let ghost iv = strs_view(ids@);
    let ghost av = strs_view(add@);
    let ghost rv = strs_view(remove@);
    let mut out: Vec<String> = Vec::new();
    let mut i: usize = 0;
    while i < ids.len()
        invariant
            i <= ids.len(),
            iv == strs_view(ids@),
            rv == strs_view(remove@),
            strs_view(out@) == without_all(iv.take(i as int), rv),
        decreases ids.len() - i,
    {
        assert(iv.take(i + 1).drop_last() =~= iv.take(i as int));
        assert(iv.take(i + 1).last() == ids@[i as int]@);
        if !contains_str(remove, &ids[i]) {
            let ghost before = strs_view(out@);
            out.push(ids[i].clone());
            assert(strs_view(out@) =~= before.push(ids@[i as int]@));
        }
        i += 1;
    }
    assert(iv.take(ids.len() as int) =~= iv);
    let ghost kept = strs_view(out@);
    let mut j: usize = 0;
    while j < add.len()
        invariant
            j <= add.len(),
            av == strs_view(add@),
            strs_view(out@) == add_missing(kept, av.take(j as int)),
        decreases add.len() - j,
    {
        assert(av.take(j + 1).drop_last() =~= av.take(j as int));
        assert(av.take(j + 1).last() == add@[j as int]@);
        if !contains_str(&out, &add[j]) {
            let ghost before = strs_view(out@);
            out.push(add[j].clone());
            assert(strs_view(out@) =~= before.push(add@[j as int]@));
        }
        j += 1;
    }
    assert(av.take(add.len() as int) =~= av);
    out
}

proof fn lemma_without_all(ids: Seq<Seq<char>>, remove: Seq<Seq<char>>)
    ensures
        forall|x: Seq<char>| #[trigger] without_all(ids, remove).contains(x) <==> (ids.contains(x)
            && !remove.contains(x)),
    decreases ids.len(),
{
    if ids.len() > 0 {
        let init = ids.drop_last();
        lemma_without_all(init, remove);
        let w = without_all(init, remove);
        assert forall|x: Seq<char>| #[trigger] without_all(ids, remove).contains(x) <==> (ids.contains(x)
            && !remove.contains(x)) by {
            if ids.contains(x) && !remove.contains(x) {
                let q = choose|q: int| 0 <= q < ids.len() && ids[q] == x;
                if q < ids.len() - 1 {
                    assert(init[q] == x);
                    assert(w.contains(x));
                    let p = choose|p: int| 0 <= p < w.len() && w[p] == x;
                    if !remove.contains(ids.last()) {
                        assert(without_all(ids, remove)[p] == x);
                    }
                } else {
                    assert(without_all(ids, remove) == w.push(x));
                    assert(without_all(ids, remove)[w.len() as int] == x);
                }
            }
            if without_all(ids, remove).contains(x) {
                let p = choose|p: int|
                    0 <= p < without_all(ids, remove).len() && without_all(ids, remove)[p] == x;
                if p < w.len() {
                    if !remove.contains(ids.last()) {
                        assert(without_all(ids, remove) == w.push(ids.last()));
                    }
                    assert(w[p] == x);
                    assert(w.contains(x));
                    let q = choose|q: int| 0 <= q < init.len() && init[q] == x;
                    assert(ids[q] == x);
                } else {
                    assert(without_all(ids, remove) == w.push(ids.last()));
                    assert(ids[ids.len() - 1] == x);
                }
            }
        }
    }
}

proof fn lemma_add_missing(cur: Seq<Seq<char>>, add: Seq<Seq<char>>)
    ensures
        forall|x: Seq<char>| #[trigger] add_missing(cur, add).contains(x) <==> (cur.contains(x)
            || add.contains(x)),
    decreases add.len(),
{
    if add.len() > 0 {
        let init = add.drop_last();
        lemma_add_missing(cur, init);
        let c = add_missing(cur, init);
        assert forall|x: Seq<char>| #[trigger] add_missing(cur, add).contains(x) <==> (cur.contains(x)
            || add.contains(x)) by {
            if add.contains(x) {
                let q = choose|q: int| 0 <= q < add.len() && add[q] == x;
                if q < add.len() - 1 {
                    assert(init[q] == x);
                }
            }
            if init.contains(x) {
                let q = choose|q: int| 0 <= q < init.len() && init[q] == x;
                assert(add[q] == x);
            }
            if !c.contains(add.last()) {
                let r = c.push(add.last());
                assert(r[c.len() as int] == add.last());
                if c.contains(x) {
                    let p = choose|p: int| 0 <= p < c.len() && c[p] == x;
                    assert(r[p] == x);
                }
                if r.contains(x) {
                    let p = choose|p: int| 0 <= p < r.len() && r[p] == x;
                    if p < c.len() {
                        assert(c[p] == x);
                    }
                }
            }
            assert(add[add.len() - 1] == add.last());
        }
    }
}

/// A move takes the message into every mailbox it adds, out of every mailbox
/// it removes and does not add, and leaves every other membership alone.
pub proof fn lemma_mailbox_change(ids: Seq<Seq<char>>, add: Seq<Seq<char>>, remove: Seq<Seq<char>>)
    ensures
        forall|x: Seq<char>| #[trigger] mailbox_change_spec(ids, add, remove).contains(x) <==> (
        add.contains(x) || (ids.contains(x) && !remove.contains(x))),
{
    lemma_without_all(ids, remove);
    lemma_add_missing(without_all(ids, remove), add);
}

/// Undo restores a move: archiving a message (into `archive`, out of
/// `inbox`) and then unarchiving it (into `inbox`, out of `archive`) leaves
/// it in exactly the mailboxes it was in, for a message that was in the
/// inbox and not in the archive.
pub proof fn lemma_unarchive_undoes_archive(ids: Seq<Seq<char>>, inbox: Seq<char>, archive: Seq<char>)
    requires
        ids.contains(inbox),
        !ids.contains(archive),
    ensures
        forall|x: Seq<char>|
            #[trigger] mailbox_change_spec(
                mailbox_change_spec(ids, seq![archive], seq![inbox]),
                seq![inbox],
                seq![archive],
            ).contains(x) <==> ids.contains(x),
{
    let archived = mailbox_change_spec(ids, seq![archive], seq![inbox]);
    lemma_mailbox_change(ids, seq![archive], seq![inbox]);
    lemma_mailbox_change(archived, seq![inbox], seq![archive]);
    assert forall|x: Seq<char>|
        #[trigger] mailbox_change_spec(archived, seq![inbox], seq![archive]).contains(x)
            <==> ids.contains(x) by {
        assert(seq![archive].contains(x) <==> x == archive) by {
            if x == archive {
                assert(seq![archive][0] == x);
            }
        }
        assert(seq![inbox].contains(x) <==> x == inbox) by {
            if x == inbox {
                assert(seq![inbox][0] == x);
            }
        }
        assert(archived.contains(x) <==> (x == archive || (ids.contains(x) && x != inbox)));
    }
}

/// Whether an envelope belongs in a read narrowed to these mailboxes: with
/// none named it always does, otherwise when it is in one of them.
pub open spec fn keeps_envelope(e: Envelope, filter: Seq<Seq<char>>) -> bool {
    filter.len() == 0 || exists|k: int| 0 <= k < e.mailbox_ids@.len() && filter.contains(#[trigger] e.mailbox_ids@[k]@)
}

/// Rows read newest first, narrowed to the mailboxes, stopping as soon as
/// `limit` are kept (checked after each row, so a limit of zero still keeps
/// the first row when it belongs).
pub open spec fn filter_from(rows: Seq<Envelope>, filter: Seq<Seq<char>>, limit: nat, out: Seq<Envelope>) -> Seq<Envelope>
    decreases rows.len(),
{
    if rows.len() == 0 {
        out
    } else {
        let next = if keeps_envelope(rows[0], filter) {
            out.push(rows[0])
        } else {
            out
        };
        if next.len() >= limit {
            next
        } else {
            filter_from(rows.drop_first(), filter, limit, next)
        }
    }
}

fn keeps(e: &Envelope, filter: &Vec<String>) -> (r: bool)
    ensures
        r == keeps_envelope(*e, strs_view(filter@)),
{
    if filter.len() == 0 {
        return true;
    }
    let mut k: usize = 0;
    while k < e.mailbox_ids.len()
        invariant
            k <= e.mailbox_ids.len(),
            filter@.len() > 0,
            forall|q: int| 0 <= q < k ==> !strs_view(filter@).contains(#[trigger] e.mailbox_ids@[q]@),
        decreases e.mailbox_ids.len() - k,
    {
        if contains_str(filter, &e.mailbox_ids[k]) {
            return true;
        }
        k += 1;
    }
    false
}

/// Narrows rows read newest first to the given mailboxes (none named: all of
/// them), keeping at most `limit`.
pub fn filter_envelopes(rows: Vec<Envelope>, mailbox_ids: &Vec<String>, limit: usize) -> (r: Vec<Envelope>)
    ensures
        r@ == filter_from(rows@, strs_view(mailbox_ids@), limit as nat, Seq::<Envelope>::empty()),
{
    let ghost orig = rows@;
    let mut rest = rows;
    let mut out: Vec<Envelope> = Vec::new();
    let mut n: usize = 0;
    let total = rest.len();
    while rest.len() > 0
        invariant
            n + rest.len() == orig.len(),
            orig.len() == total,
            orig == rows@,
            rest@ == orig.skip(n as int),
            out@.len() < limit || n == 0,
            filter_from(orig, strs_view(mailbox_ids@), limit as nat, Seq::<Envelope>::empty())
                == filter_from(rest@, strs_view(mailbox_ids@), limit as nat, out@),
        decreases rest.len(),
    {
        let ghost before = rest@;
        let ghost old_out = out@;
        let e = rest.remove(0);
        assert(e == before[0]);
        assert(rest@ =~= before.drop_first());
        let k = keeps(&e, mailbox_ids);
        if k {
            out.push(e);
        }
        assert(out@ == if keeps_envelope(before[0], strs_view(mailbox_ids@)) {
            old_out.push(before[0])
        } else {
            old_out
        });
        n += 1;
        assert(rest@ =~= orig.skip(n as int));
        if out.len() >= limit {
            assert(filter_from(before, strs_view(mailbox_ids@), limit as nat, old_out) == out@);
            return out;
        }
    }
    out
}

/// How many rows to read for a narrowed read: a narrowed read over-fetches
/// eightfold, because membership is checked after reading.
pub fn over_fetch(limit: usize, narrowed: bool) -> (r: usize)
    requires
        narrowed ==> limit * 8 <= usize::MAX,
    ensures
        narrowed ==> r == limit * 8,
        !narrowed ==> r == limit,
{
    if narrowed {
        limit * 8
    } else {
        limit
    }
}

/// A mutation is either a move or a flag change, never both; the flag lists
/// are what tells them apart.
pub fn is_flag_change(m: &Mutation) -> (r: bool)
    ensures
        r == (m.add_flags@.len() > 0 || m.remove_flags@.len() > 0),
{
    m.add_flags.len() > 0 || m.remove_flags.len() > 0
}

/// The message a mutation is for: its account and its id there.
pub open spec fn message_of(m: Mutation) -> (Seq<char>, Seq<char>) {
    (m.account_id@, m.email_id@)
}

pub open spec fn messages_view(v: Seq<(String, String)>) -> Seq<(Seq<char>, Seq<char>)> {
    v.map_values(|p: (String, String)| (p.0@, p.1@))
}

/// Where a drain of the outbox stands: how many mutations have reached the
/// server, and the messages one of whose mutations did not.
#[derive(Debug, Clone, PartialEq, Eq)]
pub struct Drain {
    pub sent: usize,
    pub blocked: Vec<(String, String)>,
}

impl Drain {
    /// A drain that has not started.
    pub fn new() -> (r: Drain)
        ensures
            r.sent == 0,
            r.blocked@.len() == 0,
    {
        Drain { sent: 0, blocked: Vec::new() }
    }

    /// Whether the next mutation in the queue goes out. Order matters, so a
    /// mutation whose message already had one fail in this drain stays
    /// queued behind it: an archive and its undo must not arrive reversed.
    pub fn may_send(&self, m: &Mutation) -> (r: bool)
        ensures
            r == !messages_view(self.blocked@).contains(message_of(*m)),
    {
        let ghost bv = messages_view(self.blocked@);
        let mut i: usize = 0;
        while i < self.blocked.len()
            invariant
                i <= self.blocked.len(),
                bv == messages_view(self.blocked@),
                forall|k: int| 0 <= k < i ==> bv[k] != message_of(*m),
            decreases self.blocked.len() - i,
        {
            if self.blocked[i].0 == m.account_id && self.blocked[i].1 == m.email_id {
                assert(bv[i as int] == message_of(*m));
                return false;
            }
            i += 1;
        }
        true
    }

    /// Records what became of a mutation that went out: counted when the
    /// server took it, its message blocked for the rest of the drain when
    /// it did not (a mutation that could not even be sent counts as failed).
    pub fn record(&mut self, m: &Mutation, ok: bool)
        requires
            ok ==> old(self).sent < usize::MAX,
        ensures
            ok ==> final(self).sent == old(self).sent + 1 && final(self).blocked@ == old(self).blocked@,
            !ok ==> final(self).sent == old(self).sent && messages_view(final(self).blocked@)
                == messages_view(old(self).blocked@).push(message_of(*m)),
    {
        if ok {
            self.sent = self.sent + 1;
        } else {
            let ghost before = messages_view(self.blocked@);
            self.blocked.push((m.account_id.clone(), m.email_id.clone()));
            assert(messages_view(self.blocked@) =~= before.push(message_of(*m)));
        }
    }
}

/// The messages blocked after a drain has gone through `keys` (the
/// messages of the queued mutations, oldest first), `ok[i]` being whether
/// the i-th would reach the server if sent.
pub open spec fn drain_blocked(keys: Seq<(Seq<char>, Seq<char>)>, ok: Seq<bool>) -> Seq<(Seq<char>, Seq<char>)>
    decreases keys.len(),
{
    if keys.len() == 0 {
        Seq::empty()
    } else {
        let before = drain_blocked(keys.drop_last(), ok);
        let i = keys.len() - 1;
        if !before.contains(keys[i]) && !ok[i] {
            before.push(keys[i])
        } else {
            before
        }
    }
}

/// Whether the i-th queued mutation is sent in such a drain.
pub open spec fn drain_sends(keys: Seq<(Seq<char>, Seq<char>)>, ok: Seq<bool>, i: int) -> bool {
    !drain_blocked(keys.take(i), ok).contains(keys[i])
}

/// One step of a drain, as `Drain::may_send` and `Drain::record` take it:
/// with the messages blocked so far, the next mutation is sent exactly when
/// its message is not among them, and its message joins them exactly when
/// it was sent and failed.
pub proof fn lemma_drain_step(keys: Seq<(Seq<char>, Seq<char>)>, ok: Seq<bool>, i: int)
    requires
        0 <= i < keys.len(),
    ensures
        drain_sends(keys, ok, i) == !drain_blocked(keys.take(i), ok).contains(keys[i]),
        drain_blocked(keys.take(i + 1), ok) == if drain_sends(keys, ok, i) && !ok[i] {
            drain_blocked(keys.take(i), ok).push(keys[i])
        } else {
            drain_blocked(keys.take(i), ok)
        },
{
    assert(keys.take(i + 1).drop_last() =~= keys.take(i));
    assert(keys.take(i + 1)[i] == keys[i]);
}

proof fn lemma_drain_blocked_grows(keys: Seq<(Seq<char>, Seq<char>)>, ok: Seq<bool>, i: int, j: int, x: (Seq<char>, Seq<char>))
    requires
        0 <= i <= j <= keys.len(),
        drain_blocked(keys.take(i), ok).contains(x),
    ensures
        drain_blocked(keys.take(j), ok).contains(x),
    decreases j - i,
{
    if i < j {
        lemma_drain_blocked_grows(keys, ok, i, j - 1, x);
        let b = drain_blocked(keys.take(j - 1), ok);
        assert(keys.take(j).drop_last() =~= keys.take(j - 1));
        let w = choose|w: int| 0 <= w < b.len() && b[w] == x;
        if !b.contains(keys[j - 1]) && !ok[j - 1] {
            assert(drain_blocked(keys.take(j), ok) == b.push(keys[j - 1]));
            assert(drain_blocked(keys.take(j), ok)[w] == x);
        } else {
            assert(drain_blocked(keys.take(j), ok) == b);
        }
    }
}

/// Queue order holds per message: once a mutation of a message fails to
/// reach the server, or is held back, no later mutation of that message is
/// sent in the same drain.
pub proof fn lemma_drain_keeps_order(keys: Seq<(Seq<char>, Seq<char>)>, ok: Seq<bool>, i: int, j: int)
    requires
        0 <= i < j < keys.len(),
        keys[i] == keys[j],
        !(drain_sends(keys, ok, i) && ok[i]),
    ensures
        !drain_sends(keys, ok, j),
{
    let bi = drain_blocked(keys.take(i), ok);
    if bi.contains(keys[i]) {
        lemma_drain_blocked_grows(keys, ok, i, j, keys[i]);
    } else {
        assert(keys.take(i + 1).drop_last() =~= keys.take(i));
        assert(keys.take(i + 1)[i] == keys[i]);
        assert(drain_blocked(keys.take(i + 1), ok) == bi.push(keys[i]));
        assert(drain_blocked(keys.take(i + 1), ok)[bi.len() as int] == keys[i]);
        lemma_drain_blocked_grows(keys, ok, i + 1, j, keys[i]);
    }
}

pub open spec fn http_scheme() -> Seq<char> {
    seq!['h', 't', 't', 'p']
}

pub open spec fn https_scheme() -> Seq<char> {
    seq!['h', 't', 't', 'p', 's']
}

/// Whether a link a message asks to open is handed to the browser: only the
/// two web schemes are. A sender can write `file:`, `javascript:` or
/// anything else into an href, and passing those to the shell would hand a
/// stranger the opening of local files.
pub fn opens_in_browser(scheme: &str) -> (r: bool)
    ensures
        r == (scheme@ == http_scheme() || scheme@ == https_scheme()),
{
    let c = chars_of(scheme);
    let web = c.len() >= 4 && c[0] == 'h' && c[1] == 't' && c[2] == 't' && c[3] == 'p';
    let r = web && (c.len() == 4 || (c.len() == 5 && c[4] == 's'));
    proof {
        if r {
            if c@.len() == 4 {
                assert(c@ =~= http_scheme());
            } else {
                assert(c@ =~= https_scheme());
            }
        }
    }
    r
}

/// What marking a message read or unread queues: its kind, and `$seen`
/// added or removed.
pub fn read_change(read: bool) -> (r: (String, Vec<String>, Vec<String>))
    ensures
        r.0@ == if read {
            "mark-read"@
        } else {
            "mark-unread"@
        },
        strs_view(r.1@) == if read {
            seq!["$seen"@]
        } else {
            Seq::<Seq<char>>::empty()
        },
        strs_view(r.2@) == if read {
            Seq::<Seq<char>>::empty()
        } else {
            seq!["$seen"@]
        },
{
    let mut seen: Vec<String> = Vec::new();
    seen.push("$seen".to_owned());
    assert(strs_view(seen@) =~= seq!["$seen"@]);
    let empty: Vec<String> = Vec::new();
    assert(strs_view(empty@) =~= Seq::<Seq<char>>::empty());
    if read {
        ("mark-read".to_owned(), seen, empty)
    } else {
        ("mark-unread".to_owned(), empty, seen)
    }
}

/// IMAP moves a message to one place: the first mailbox added is the
/// destination, and a move that adds none has nowhere to go.
pub fn imap_destination(add: &Vec<String>) -> (r: Result<&String, EngineError>)
    ensures
        match r {
            Ok(d) => add@.len() > 0 && *d == add@[0],
            Err(e) => add@.len() == 0 && e == EngineError::NoDestination,
        },
{
    if add.len() > 0 {
        Ok(&add[0])
    } else {
        Err(EngineError::NoDestination)
    }
}

/// Whether a listing has an inbox: an account without one is not worth
/// saving.
pub fn has_inbox(mailboxes: &Vec<Mailbox>) -> (r: bool)
    ensures
        r == with_role(mailboxes@, "inbox"@) is Some,
{
    find_role(mailboxes, "inbox").is_some()
}

/// The label for a connected account: what the user typed, or when that is
/// blank, the address's domain.
pub fn connect_label(label: String, username: &str) -> (r: String)
    ensures
        r@ == if non_blank(label@) {
            label@
        } else {
            label_from_username_spec(username@)
        },
{
    if trim_nonempty(label.as_str()) {
        label
    } else {
        label_from_username(username)
    }
}

fn trim_nonempty(s: &str) -> (r: bool)
    ensures
        r == non_blank(s@),
{
    crate::text::trim_chars(&chars_of(s)).len() > 0
}

/// Who a message is sent as: the account's identity, with no display name.
pub fn sender_for(config: &Config, account_id: &str) -> (r: Result<EmailAddress, EngineError>)
    ensures
        match r {
            Ok(a) => first_with_id(config.accounts@, account_id@) matches Some(k) && a.email@
                == config.accounts@[k].identity@ && a.name is None,
            Err(e) => first_with_id(config.accounts@, account_id@) is None && (e matches EngineError::NoAccount(i) && i@ == account_id@),
        },
{
    match account_config(config, account_id) {
        Ok(a) => Ok(EmailAddress { name: None, email: a.identity.clone() }),
        Err(e) => Err(e),
    }
}

/// What verifying a token reports: the address, the name of the primary mail
/// account (empty when the session does not list it), the id and the label
/// the account would get.
pub fn verified_account(session: &crate::jmap::Session) -> (r: VerifiedAccount)
    ensures
        r.username@ == session.username@,
        r.suggested_id@ == account_id_spec(session.username@),
        r.suggested_label@ == label_from_username_spec(session.username@),
        r.account_name@ == match crate::jmap::lookup(
            crate::jmap::entries_view(session.primary_accounts@),
            crate::jmap::CAP_MAIL@,
        ) {
            Some(id) => match account_name_of(session.accounts@, id) {
                Some(n) => n,
                None => Seq::<char>::empty(),
            },
            None => Seq::<char>::empty(),
        },
{
    let username = session.username.clone();
    let account_name = match session.mail_account_id() {
        Ok(id) => match find_account_name(&session.accounts, id) {
            Some(n) => n,
            None => String::new(),
        },
        Err(_) => String::new(),
    };
    VerifiedAccount {
        suggested_id: account_id_from_address(username.as_str()),
        suggested_label: label_from_username(username.as_str()),
        username,
        account_name,
    }
}

/// The name of the first listed account with this id.
pub open spec fn account_name_of(accounts: Seq<(String, crate::jmap::AccountInfo)>, id: Seq<char>) -> Option<Seq<char>>
    decreases accounts.len(),
{
    if accounts.len() == 0 {
        None
    } else if accounts[0].0@ == id {
        Some(accounts[0].1.name@)
    } else {
        account_name_of(accounts.drop_first(), id)
    }
}

fn find_account_name(accounts: &Vec<(String, crate::jmap::AccountInfo)>, id: &str) -> (r: Option<String>)
    ensures
        opt_view(r) == account_name_of(accounts@, id@),
{
    let want = chars_of(id);
    let mut i: usize = 0;
    assert(accounts@.skip(0) =~= accounts@);
    while i < accounts.len()
        invariant
            i <= accounts.len(),
            want@ == id@,
            account_name_of(accounts@, id@) == account_name_of(accounts@.skip(i as int), id@),
        decreases accounts.len() - i,
    {
        assert(accounts@.skip(i as int)[0] == accounts@[i as int]);
        assert(accounts@.skip(i as int).drop_first() =~= accounts@.skip(i + 1));
        if chars_eq(&chars_of(accounts[i].0.as_str()), &want) {
            return Some(accounts[i].1.name.clone());
        }
        i += 1;
    }
    None
}

/// The configuration saved for an account connected over IMAP: no session
/// URL and no token; the password goes to the credential store.
pub fn imap_account_config(id: String, label: String, color: String, host: String, port: u16, username: String) -> (r: AccountConfig)
    ensures
        r.id == id && r.label == label && r.color == color && r.identity@ == username@
            && r.session_url@.len() == 0 && r.token is None && r.token_env is None
            && r.client_id is None && (r.imap matches Some(i) && i.host == host && i.port == port
            && i.username == username),
{
    let identity = username.clone();
    AccountConfig {
        id,
        label,
        color,
        identity,
        session_url: String::new(),
        token: None,
        token_env: None,
        client_id: None,
        imap: Some(ImapConfig { host, port, username }),
    }
}

/// The configuration saved for an account connected with OAuth: the client
/// id marks it; the refresh token goes to the credential store.
pub fn oauth_account_config(id: String, label: String, color: String, identity: String, session_url: String, client_id: String) -> (r: AccountConfig)
    ensures
        r.id == id && r.label == label && r.color == color && r.identity == identity
            && r.session_url == session_url && r.token is None && r.token_env is None
            && r.client_id == Some(client_id) && r.imap is None,
{
    AccountConfig {
        id,
        label,
        color,
        identity,
        session_url,
        token: None,
        token_env: None,
        client_id: Some(client_id),
        imap: None,
    }
}

/// The configuration saved for an account connected with an API token; the
/// token goes to the credential store, not the file.
pub fn token_account_config(id: String, label: String, color: String, identity: String, session_url: String) -> (r: AccountConfig)
    ensures
        r.id == id && r.label == label && r.color == color && r.identity == identity
            && r.session_url == session_url && r.token is None && r.token_env is None
            && r.client_id is None && r.imap is None,
{
    AccountConfig {
        id,
        label,
        color,
        identity,
        session_url,
        token: None,
        token_env: None,
        client_id: None,
        imap: None,
    }
}

/// The refresh token a sign-in's code exchange granted. The account keeps
/// it, not the short-lived access token, so a grant without one (the
/// `offline_access` scope refused) cannot be saved.
pub fn granted_refresh_token(tokens: &crate::oauth::Tokens) -> (r: Result<String, EngineError>)
    ensures
        match r {
            Ok(t) => tokens.refresh_token == Some(t),
            Err(e) => tokens.refresh_token is None && e == EngineError::NoRefreshToken,
        },
{
    match &tokens.refresh_token {
        Some(t) => Ok(t.clone()),
        None => Err(EngineError::NoRefreshToken),
    }
}

/// The account an OAuth sign-in adds, and the configuration saved for it:
/// both named after the address the session belongs to, the id taken from
/// its domain and the label from what follows the `@`.
pub fn oauth_account(username: &str, color: String, session_url: String, client_id: String) -> (r: (
    Account,
    AccountConfig,
))
    ensures
        r.0.id@ == account_id_spec(username@),
        r.0.label@ == label_from_username_spec(username@),
        r.0.color == color,
        r.0.identity@ == username@,
        r.0.connection == Connection::Oauth,
        r.1.id == r.0.id && r.1.label == r.0.label && r.1.color == color
            && r.1.identity == r.0.identity && r.1.session_url == session_url
            && r.1.token is None && r.1.token_env is None
            && r.1.client_id == Some(client_id) && r.1.imap is None,
{
    let id = account_id_from_address(username);
    let label = label_from_username(username);
    let identity = string_of(&chars_of(username));
    let account = Account {
        id: id.clone(),
        label: label.clone(),
        color: color.clone(),
        identity: identity.clone(),
        connection: Connection::Oauth,
    };
    let saved = oauth_account_config(id, label, color, identity, session_url, client_id);
    (account, saved)
}

} // verus!
