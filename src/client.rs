//! Session set-up of the command-line client.

use vstd::prelude::*;

verus! {

/// A chat session in one chatroom.
#[derive(Clone, Debug)]
pub struct Chat {
    pub chatroom: String,
    pub username: String,
    pub password: Option<String>,
}

impl Chat {
    pub fn new(chatroom: String, username: String, password: Option<String>) -> (r: Chat)
        ensures
            r.chatroom == chatroom,
            r.username == username,
            r.password == password,
    {
        Chat { chatroom, username, password }
    }

    /// Runs the session. A chat has nothing to exchange yet, so it returns
    /// at once.
    pub fn execute(&self) {
    }
}

/// What the client was asked to do.
#[derive(Clone, Debug)]
pub enum ClientCommand {
    Chat(Chat),
    Upload,
    Download,
}

/// The SHA-256 digest of the UTF-8 encoding of a text, in lowercase hex.
pub uninterp spec fn sha256_hex(s: Seq<char>) -> Seq<char>;

/// Relies on `sha256::digest`: the SHA-256 digest of the UTF-8 bytes of
/// `plain`, hex-encoded by `hex::encode` (64 lowercase digits).
#[verifier::external_body]
pub fn hash(plain: &String) -> (r: String)
    ensures
        r@ == sha256_hex(plain@),
        r@.len() == 64,
{
    sha256::digest(plain)
}

/// The text whose digest names this client's affiliate.
pub const AFFILIATE_SEED: &'static str = "my-going-to-be-random-id";

impl ClientCommand {
    /// The cluster a session joins: a chat joins the digest of its chatroom;
    /// other commands join `default_cluster_id`.
    pub fn cluster_id(&self, default_cluster_id: String) -> (r: String)
        ensures
            self matches ClientCommand::Chat(chat) ==> r@ == sha256_hex(chat.chatroom@),
            !(self is Chat) ==> r == default_cluster_id,
    {
        match self {
            ClientCommand::Chat(chat) => hash(&chat.chatroom),
            _ => default_cluster_id,
        }
    }
}

/// The affiliate id of this client: the digest of a fixed seed.
pub fn affiliate_id() -> (r: String)
    ensures
        r@ == sha256_hex(AFFILIATE_SEED@),
{
    hash(&AFFILIATE_SEED.to_owned())
}

} // verus!
