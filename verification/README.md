# bazmail_core

The engine of the BazMail mail client, written in Verus: the decisions the
client makes about mail, accounts, sign-in, contacts and calendars are
functions here with contracts that Verus proves. What stays with the
application is I/O and what rides on it: the SQL the local mirror runs (its
ordering and row limit included), sockets, files and the credential store.

## Layout

- `src/` — the verified library.
  - `model.rs`: the canonical model (accounts, mailboxes, envelopes, mutations).
  - `text.rs`: character and decimal helpers, with their laws.
  - `config.rs`: account configuration, credentials precedence, account ids.
  - `engine.rs`: what the engine decides: sidebar order, roles, moves and
    their undo, narrowed reads, token lifetimes, the accounts it saves.
  - `imap.rs`: message ids, mailbox roles, previews, list rows, sorting.
  - `jmap.rs`: session accounts, method responses, patches, send plans.
  - `auth.rs`: reading `Authentication-Results` into a verified domain.
  - `oauth.rs`: PKCE, percent-encoding, the authorize URL, the redirect.
  - `contentline.rs`, `vcard.rs`, `ical.rs`: vCard and iCalendar.
  - `xml.rs`, `dav.rs`: WebDAV replies and discovery.
  - `smtp.rs`: the message an SMTP account sends.
  - `at_rest.rs`: what the filesystem's answers about encryption mean.
- `tests/` — tests of the library on concrete values.
- `app/` — the application around it: files, the OS credential store, the
  SQLite mirror, TLS and HTTP clients, and the engine that runs them.

Calls into outside crates (`base64`, `sha2`, `getrandom`, `mail-parser`,
`mail-send`'s message builder, `roxmltree`, and `url` as `reqwest` re-exports
it, `reqwest::Url`) sit behind small trusted wrappers whose contracts say what
the crate documents, and nothing more.
