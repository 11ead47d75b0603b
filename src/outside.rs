use vstd::prelude::*;

use std::collections::BTreeMap;

use argon2::password_hash::{PasswordHasher, PasswordVerifier, SaltString};
use convert_case::Casing;
use hmac::{Hmac, Mac};
use jwt::{SignWithKey, VerifyWithKey};
use rand::Rng;
use sha2::Sha256;
use tokio::sync::broadcast::{Receiver, Sender};

use crate::database::{opt_view, ChatMessage};

verus! {

/// Relies on xid::new and the Display of xid::Id: twenty characters drawn
/// from `0-9a-v`, different on each call (nothing is stated of that).
#[verifier::external_body]
pub(crate) fn new_xid() -> (r: String)
    ensures
        r@.len() == 20,
{
    xid::new().to_string()
}

/// Relies on time::OffsetDateTime::now_utc and unix_timestamp: the current
/// time in whole seconds; nothing is stated of its value.
#[verifier::external_body]
pub(crate) fn now_unix() -> (r: i64) {
    time::OffsetDateTime::now_utc().unix_timestamp()
}

/// Whether argon2 accepts `password` for the PHC hash string `hashed`.
pub uninterp spec fn argon2_accepts(hashed: Seq<char>, password: Seq<char>) -> bool;

/// The HS256 token whose claims are `{"sub": user_id}`, signed with `secret`;
/// `None` where signing fails.
pub uninterp spec fn signed_token(secret: Seq<char>, user_id: Seq<char>) -> Option<Seq<char>>;

/// For a token that verifies under `secret`, its `sub` claim, if any; `None`
/// for a token that does not verify.
pub uninterp spec fn token_subject(secret: Seq<char>, token: Seq<char>) -> Option<
    Option<Seq<char>>,
>;

/// The kebab-case form of `s`: lower-case words joined by `-`.
pub uninterp spec fn kebab_of(s: Seq<char>) -> Seq<char>;

/// Relies on argon2's PasswordHasher::hash_password with default parameters and
/// a SaltString drawn from rand_core's OsRng: the PHC hash string and the salt,
/// or the error's text. The salt is random; the hash string carries it and the
/// parameters, so argon2's verification of `password` against it succeeds.
#[verifier::external_body]
pub(crate) fn argon2_hash(password: &str) -> (r: Result<(String, String), String>)
    ensures
        r matches Ok(pair) ==> argon2_accepts(pair.0@, password@),
{
    let salt = SaltString::generate(&mut rand_core::OsRng);
    match argon2::Argon2::default().hash_password(password.as_bytes(), &salt) {
        Ok(hash) => Ok((hash.to_string(), salt.to_string())),
        Err(e) => Err(e.to_string()),
    }
}

/// Relies on argon2::PasswordHash::new and Argon2::verify_password: whether
/// `hashed` parses as a PHC string that `password` matches.
#[verifier::external_body]
pub(crate) fn argon2_verify(hashed: &str, password: &str) -> (r: bool)
    ensures
        r == argon2_accepts(hashed@, password@),
{
    match argon2::PasswordHash::new(hashed) {
        Ok(parsed) => argon2::Argon2::default().verify_password(password.as_bytes(), &parsed).is_ok(),
        Err(_) => false,
    }
}

/// Relies on hmac's Hmac::<Sha256>::new_from_slice, which takes a key of any
/// length, and jwt's sign_with_key on the claims `{"sub": user_id}`, whose
/// serialisation cannot fail: the token verifies under the same secret and
/// carries `user_id` as its `sub`.
#[verifier::external_body]
pub(crate) fn sign_subject(secret: &str, user_id: &str) -> (r: Option<String>)
    ensures
        opt_view(r) == signed_token(secret@, user_id@),
        r is Some,
        r matches Some(t) ==> token_subject(secret@, t@) == Some(Some(user_id@)),
{
    let key: Hmac<Sha256> = Hmac::new_from_slice(secret.as_bytes()).ok()?;
    let mut claims = BTreeMap::new();
    claims.insert("sub", user_id);
    claims.sign_with_key(&key).ok()
}

/// Relies on hmac's Hmac::<Sha256>::new_from_slice and jwt's verify_with_key
/// into string claims, of which the `sub` entry is taken.
#[verifier::external_body]
pub(crate) fn verify_subject(secret: &str, token: &str) -> (r: Option<Option<String>>)
    ensures
        match r {
            None => token_subject(secret@, token@) is None,
            Some(sub) => token_subject(secret@, token@) == Some(opt_view(sub)),
        },
{
    let key: Hmac<Sha256> = Hmac::new_from_slice(secret.as_bytes()).ok()?;
    let claims: BTreeMap<String, String> = token.verify_with_key(&key).ok()?;
    Some(claims.get("sub").cloned())
}

/// An ASCII letter or digit.
pub open spec fn is_alphanumeric(c: char) -> bool {
    ('a' <= c && c <= 'z') || ('A' <= c && c <= 'Z') || ('0' <= c && c <= '9')
}

/// Relies on rand's thread_rng sampled through distributions::Alphanumeric,
/// which draws from `A-Z`, `a-z` and `0-9`: `len` random such characters.
#[verifier::external_body]
pub(crate) fn random_alphanumeric(len: usize) -> (r: String)
    ensures
        r@.len() == len,
        forall|i: int| 0 <= i < len ==> is_alphanumeric(#[trigger] r@[i]),
{
    rand::thread_rng().sample_iter(&rand::distributions::Alphanumeric).take(len).map(char::from).collect()
}

/// Relies on convert_case's Casing::to_case with Case::Kebab.
#[verifier::external_body]
pub(crate) fn to_kebab(s: &str) -> (r: String)
    ensures
        r@ == kebab_of(s@),
{
    s.to_case(convert_case::Case::Kebab)
}

/// Number of messages a live room buffers, at least, for a subscriber that lags.
pub const CHANNEL_CAPACITY: usize = 1000;

#[verifier::external_type_specification]
#[verifier::external_body]
#[verifier::reject_recursive_types(T)]
pub struct ExSender<T>(Sender<T>);

#[verifier::external_type_specification]
#[verifier::external_body]
#[verifier::reject_recursive_types(T)]
pub struct ExReceiver<T>(Receiver<T>);

/// Relies on tokio::sync::broadcast::channel, which panics only on a zero or
/// oversized capacity: a new channel that buffers `capacity` messages, rounded
/// up to a power of two.
#[verifier::external_body]
pub(crate) fn open_channel(capacity: usize) -> (r: Sender<ChatMessage>)
    requires
        0 < capacity <= usize::MAX / 2,
{
    tokio::sync::broadcast::channel::<ChatMessage>(capacity).0
}

/// `rx` receives from the channel that `tx` sends into.
pub uninterp spec fn subscribed(rx: Receiver<ChatMessage>, tx: Sender<ChatMessage>) -> bool;

/// Relies on tokio::sync::broadcast::Sender::subscribe: a receiver built on the
/// sender's own shared channel, which gets every message sent after this call.
#[verifier::external_body]
pub(crate) fn subscribe(sender: &Sender<ChatMessage>) -> (r: Receiver<ChatMessage>)
    ensures
        subscribed(r, *sender),
{
    sender.subscribe()
}

/// Relies on tokio::sync::broadcast::Sender::send: `Some(n)` with the number of
/// receivers subscribed when the message was sent (some may drop or lag before
/// they see it), `None` when there were none.
#[verifier::external_body]
pub(crate) fn broadcast(sender: &Sender<ChatMessage>, msg: ChatMessage) -> (r: Option<usize>)
    ensures
        r matches Some(n) ==> n >= 1,
{
    sender.send(msg).ok()
}

} // verus!
