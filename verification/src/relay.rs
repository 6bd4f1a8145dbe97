//! The relay client: who is sending, where the server is, and the address of
//! each request it serves.
use vstd::prelude::*;

use crate::connection::{Connection, ConnectionModel};
use crate::decimal::{decimal, decimal_chars};
use crate::text::{chars_of, push_all, push_str, replace_char, replace_char_chars, string_of};

verus! {

/// The name a sender goes by when the environment gives none.
pub open spec fn anonymous_user() -> Seq<char> {
    "ANONYM"@
}

/// A client of the relay server, as the user `username`.
pub struct PiRelayClient {
    connection: Connection,
    username: String,
}

/// A client as plain values.
pub struct RelayModel {
    pub connection: ConnectionModel,
    pub username: Seq<char>,
}

impl View for PiRelayClient {
    type V = RelayModel;

    closed spec fn view(&self) -> RelayModel {
        RelayModel { connection: self.connection@, username: self.username@ }
    }
}

/// The base URL of the relay server: the configured URL when one is set,
/// else `https://<ip>:<port>`.
pub open spec fn base_url_of(c: ConnectionModel) -> Seq<char> {
    if c.url.len() > 0 {
        c.url
    } else {
        "https://"@ + c.ip + ":"@ + decimal(c.port as nat)
    }
}

/// The identifier of a file on the server: the user name, `'_'`, and the
/// relative path with every `'/'` turned into `'_'`.
pub open spec fn file_id_of(username: Seq<char>, relative_path: Seq<char>) -> Seq<char> {
    username + "_"@ + replace_char(relative_path, '/', '_')
}

/// Where the configuration is posted.
pub open spec fn config_url_of(c: ConnectionModel) -> Seq<char> {
    base_url_of(c) + "/config"@
}

/// Where a file sent in one request is posted.
pub open spec fn small_file_url_of(
    c: ConnectionModel,
    recipient: Seq<char>,
    file_id: Seq<char>,
) -> Seq<char> {
    base_url_of(c) + "/send/"@ + recipient + "/"@ + file_id
}

/// Where chunk `index` of a file sent in chunks is posted.
pub open spec fn chunk_url_of(
    c: ConnectionModel,
    recipient: Seq<char>,
    file_id: Seq<char>,
    index: nat,
) -> Seq<char> {
    small_file_url_of(c, recipient, file_id) + "/"@ + decimal(index)
}

/// Where files are fetched: the mailbox for an empty sender, else the files
/// of that sender.
pub open spec fn receive_url_of(c: ConnectionModel, sender: Seq<char>) -> Seq<char> {
    if sender.len() == 0 {
        base_url_of(c) + "/receive/"@
    } else {
        base_url_of(c) + "/receive/"@ + sender
    }
}

impl PiRelayClient {
    /// A client for the server of `conn`, as the user named by the `USER`
    /// environment variable (`user`), or `ANONYM` when there is none.
    pub fn new(conn: Connection, user: Option<String>) -> (c: Self)
        ensures
            c@.connection == conn@,
            c@.username == (match user {
                Some(u) => u@,
                None => anonymous_user(),
            }),
    {
        let username = match user {
            Some(u) => u,
            None => string_of(&chars_of("ANONYM")),
        };
        PiRelayClient { connection: conn, username }
    }

    /// The user the client sends as.
    pub fn username(&self) -> (u: &String)
        ensures
            u@ == self@.username,
    {
        &self.username
    }

    /// The server settings.
    pub fn connection(&self) -> (c: &Connection)
        ensures
            c@ == self@.connection,
    {
        &self.connection
    }

    fn base_url_chars(&self) -> (r: Vec<char>)
        ensures
            r@ == base_url_of(self@.connection),
    {
        let url = chars_of(self.connection.url.as_str());
        if url.len() > 0 {
            return url;
        }
        let mut out = chars_of("https://");
        push_str(&mut out, self.connection.ip.as_str());
        push_str(&mut out, ":");
        let port = decimal_chars(self.connection.port as u64);
        push_all(&mut out, &port);
        out
    }

    /// The base URL of the server: its configured URL, or
    /// `https://<ip>:<port>` when none is set.
    pub fn base_url(&self) -> (r: String)
        ensures
            r@ == base_url_of(self@.connection),
    {
        string_of(&self.base_url_chars())
    }

    /// The address the configuration is posted to.
    pub fn config_url(&self) -> (r: String)
        ensures
            r@ == config_url_of(self@.connection),
    {
        let mut out = self.base_url_chars();
        push_str(&mut out, "/config");
        string_of(&out)
    }

    fn small_file_url_chars(&self, recipient: &str, file_id: &str) -> (r: Vec<char>)
        ensures
            r@ == small_file_url_of(self@.connection, recipient@, file_id@),
    {
        let mut out = self.base_url_chars();
        push_str(&mut out, "/send/");
        push_str(&mut out, recipient);
        push_str(&mut out, "/");
        push_str(&mut out, file_id);
        out
    }

    /// The address a file sent in one request is posted to.
    pub fn small_file_url(&self, recipient: &str, file_id: &str) -> (r: String)
        ensures
            r@ == small_file_url_of(self@.connection, recipient@, file_id@),
    {
        string_of(&self.small_file_url_chars(recipient, file_id))
    }

    /// The address chunk `index` of a file is posted to.
    pub fn chunk_url(&self, recipient: &str, file_id: &str, index: usize) -> (r: String)
        ensures
            r@ == chunk_url_of(self@.connection, recipient@, file_id@, index as nat),
    {
        let mut out = self.small_file_url_chars(recipient, file_id);
        push_str(&mut out, "/");
        let digits = decimal_chars(index as u64);
        push_all(&mut out, &digits);
        string_of(&out)
    }

    /// The address files of `sender` (the mailbox when empty) are fetched from.
    pub fn receive_url(&self, sender: &str) -> (r: String)
        ensures
            r@ == receive_url_of(self@.connection, sender@),
    {
        let mut out = self.base_url_chars();
        push_str(&mut out, "/receive/");
        let s = chars_of(sender);
        if s.len() > 0 {
            push_all(&mut out, &s);
        }
        string_of(&out)
    }

    /// The identifier of the file at `relative_path`.
    pub fn file_id(&self, relative_path: &str) -> (r: String)
        ensures
            r@ == file_id_of(self@.username, relative_path@),
    {
        let mut out = chars_of(self.username.as_str());
        push_str(&mut out, "_");
        let rel = chars_of(relative_path);
        let replaced = replace_char_chars(&rel, '/', '_');
        push_all(&mut out, &replaced);
        string_of(&out)
    }
}

/// The mailbox and the files of a sender are fetched from one prefix: the
/// mailbox address is the sender address for an empty sender name.
pub proof fn lemma_receive_url_uniform(c: ConnectionModel, sender: Seq<char>)
    ensures
        receive_url_of(c, sender) == base_url_of(c) + "/receive/"@ + sender,
{
    if sender.len() == 0 {
        assert(base_url_of(c) + "/receive/"@ + sender =~= base_url_of(c) + "/receive/"@);
    }
}

/// A file identifier holds no `'/'` after the user name and its `'_'`, and
/// is as long as user name, separator and path together.
pub proof fn lemma_file_id_flat(username: Seq<char>, relative_path: Seq<char>)
    ensures
        file_id_of(username, relative_path).len() == username.len() + "_"@.len()
            + relative_path.len(),
        forall|i: int|
            username.len() + "_"@.len() <= i < file_id_of(username, relative_path).len()
                ==> #[trigger] file_id_of(username, relative_path)[i] != '/',
{
}

/// A file identifier is the user name, `'_'`, and the relative path with
/// exactly its `'/'` characters turned into `'_'`: every other character of
/// the path, letters in any case included, is kept as it is and where it is.
pub proof fn lemma_file_id_chars(username: Seq<char>, relative_path: Seq<char>)
    ensures
        file_id_of(username, relative_path).len() == username.len() + 1 + relative_path.len(),
        forall|i: int|
            0 <= i < username.len() ==> #[trigger] file_id_of(username, relative_path)[i]
                == username[i],
        file_id_of(username, relative_path)[username.len() as int] == '_',
        forall|i: int|
            0 <= i < relative_path.len() ==> #[trigger] file_id_of(username, relative_path)[username.len()
                + 1 + i] == (if relative_path[i] == '/' {
                '_'
            } else {
                relative_path[i]
            }),
{
    reveal_strlit("_");
}

} // verus!
