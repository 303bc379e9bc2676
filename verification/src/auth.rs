//! Authentication of clients against the registry.

use vstd::prelude::*;

use crate::headers;
use crate::registry;
use crate::registry::{Registry, RegistryView};
use crate::reply;
use crate::reply::Reply;
use crate::text;
use crate::token;
use crate::token::Credentials;

verus! {

/// Least number of seconds between two writes of a client's `last_seen`.
pub const LAST_SEEN_FLUSH_SECS: u64 = 60;

/// A client whose credentials were found in the registry.
#[derive(Clone, Debug, PartialEq, Eq)]
pub struct AuthenticatedClient {
    pub uuid: u128,
    pub name: String,
}

impl View for AuthenticatedClient {
    type V = (u128, Seq<char>);

    open spec fn view(&self) -> (u128, Seq<char>) {
        (self.uuid, self.name@)
    }
}

/// Which copy of the registry is looked at.
#[derive(Clone, Debug, PartialEq, Eq)]
pub enum AuthPhase {
    /// The copy read under the shared lock.
    Reading,
    /// The copy read again under the exclusive lock.
    Updating,
}

/// What is to be done after a copy of the registry was looked at.
#[derive(Clone, Debug, PartialEq, Eq)]
pub enum AuthAction {
    /// Take the exclusive lock, read the registry again and look at it in phase `Updating`.
    Reload,
    /// Write this registry, then finish with the name of this client.
    Save { client: String, registry: Registry },
    /// The name of the client, or none where nobody answers to the credentials.
    Finish { name: Option<String>, registry: Registry },
}

#[verifier::ext_equal]
pub enum AuthActionView {
    Reload,
    Save { client: Seq<char>, registry: RegistryView },
    Finish { name: Option<Seq<char>>, registry: RegistryView },
}

impl View for AuthAction {
    type V = AuthActionView;

    open spec fn view(&self) -> AuthActionView {
        match self {
            AuthAction::Reload => AuthActionView::Reload,
            AuthAction::Save { client, registry } => AuthActionView::Save {
                client: client@,
                registry: registry@,
            },
            AuthAction::Finish { name, registry } => AuthActionView::Finish {
                name: reply::text_view(*name),
                registry: registry@,
            },
        }
    }
}

/// Whether a client was last seen long enough ago to write it down again.
pub open spec fn is_stale(last_seen: u64, now: u64) -> bool {
    now - last_seen >= LAST_SEEN_FLUSH_SECS
}

/// A registry in which the `i`-th client was last seen now.
pub open spec fn touched(r: RegistryView, i: int, now: u64) -> RegistryView {
    RegistryView {
        clients: r.clients.update(
            i,
            registry::ClientView { last_seen: now, ..r.clients[i] },
        ),
        codes: r.codes,
    }
}

/// What follows from a copy of the registry for presented credentials.
pub open spec fn auth_action(
    phase: AuthPhase,
    r: RegistryView,
    uuid: u128,
    token_hash: Seq<char>,
    now: u64,
) -> AuthActionView {
    let i = registry::client_index(r.clients, uuid, token_hash);
    if i >= r.clients.len() {
        AuthActionView::Finish { name: None, registry: r }
    } else if !is_stale(r.clients[i].last_seen, now) {
        AuthActionView::Finish { name: Some(r.clients[i].name), registry: r }
    } else {
        match phase {
            AuthPhase::Reading => AuthActionView::Reload,
            AuthPhase::Updating => AuthActionView::Save {
                client: r.clients[i].name,
                registry: touched(r, i, now),
            },
        }
    }
}

/// Looks for the client that answers to the credentials in a copy of the registry, and decides
/// whether its `last_seen` is written.
pub fn authenticate_disk(
    phase: AuthPhase,
    registry: Registry,
    credentials: &Credentials,
    now: u64,
) -> (r: AuthAction)
    ensures
        r@ == auth_action(phase, registry@, credentials@.0, credentials@.1, now),
{
    let ghost before = registry@;
    let mut registry = registry;
    let i: usize = registry.find_client(credentials.uuid, credentials.token_hash.as_str());
    proof {
        registry::lemma_client_index(before.clients, credentials@.0, credentials@.1);
    }
    if i >= registry.clients.len() {
        return AuthAction::Finish { name: None, registry };
    }
    assert(before.clients[i as int] == registry.clients@[i as int]@);
    let name = registry.clients[i].name.clone();
    let unseen: u64 = now.saturating_sub(registry.clients[i].last_seen);
    if unseen < LAST_SEEN_FLUSH_SECS {
        return AuthAction::Finish { name: Some(name), registry };
    }
    match phase {
        AuthPhase::Reading => AuthAction::Reload,
        AuthPhase::Updating => {
            registry.clients[i].last_seen = now;
            assert(registry@.clients =~= touched(before, i as int, now).clients);
            assert(registry@.codes =~= before.codes);
            AuthAction::Save { client: name, registry }
        },
    }
}

/// The credentials in a text `uuid:token`, or the answer that refuses it.
pub fn authenticate_token(value: &str) -> (r: Result<Credentials, Reply>)
    ensures
        match r {
            Ok(credentials) => token::credentials_of(value@) == Some(credentials@),
            Err(refusal) => token::credentials_of(value@) is None && refusal@ == reply::unauthorized(),
        },
{
    match token::parse_credentials(value) {
        Some(credentials) => Ok(credentials),
        None => Err(reply::unauthorized_reply()),
    }
}

/// What the fields of a relay request present.
pub open spec fn relay_credentials(fields: Seq<(Seq<char>, Seq<u8>)>) -> Option<(u128, Seq<char>)> {
    match headers::text_of_header(fields, text::lower("x-omp-relay-token"@)) {
        Some(value) => token::credentials_of(value),
        None => None,
    }
}

/// The credentials of a request to the relay itself, or the answer that refuses it.
pub fn authenticate(headers: &http::HeaderMap<http::HeaderValue>) -> (r: Result<Credentials, Reply>)
    ensures
        match r {
            Ok(credentials) => relay_credentials(headers::header_fields(*headers)) == Some(credentials@),
            Err(refusal) => relay_credentials(headers::header_fields(*headers)) is None && refusal@
                == reply::unauthorized(),
        },
{
    proof {
        reveal_strlit("x-omp-relay-token");
    }
    match headers::header_text(headers, "x-omp-relay-token") {
        Some(value) => authenticate_token(value.as_str()),
        None => Err(reply::unauthorized_reply()),
    }
}

/// What a look at the registry comes to.
pub open spec fn conclusion(uuid: u128, found: Result<Option<Seq<char>>, ()>) -> Result<
    (u128, Seq<char>),
    reply::ReplyView,
> {
    match found {
        Ok(Some(name)) => Ok((uuid, name)),
        Ok(None) => Err(reply::unauthorized()),
        Err(_) => Err(reply::internal()),
    }
}

/// The client, once the registry was looked at: an error stands for a registry that could not be
/// read or written, `None` for credentials to which nobody answers.
pub fn conclude(uuid: u128, found: Result<Option<String>, ()>) -> (r: Result<
    AuthenticatedClient,
    Reply,
>)
    ensures
        match found {
            Ok(Some(name)) => r is Ok && r->Ok_0@ == (uuid, name@),
            Ok(None) => r is Err && r->Err_0@ == reply::unauthorized(),
            Err(_) => r is Err && r->Err_0@ == reply::internal(),
        },
        match r {
            Ok(client) => conclusion(
                uuid,
                match found {
                    Ok(name) => Ok(reply::text_view(name)),
                    Err(e) => Err(e),
                },
            ) == Ok::<(u128, Seq<char>), reply::ReplyView>(client@),
            Err(refusal) => conclusion(
                uuid,
                match found {
                    Ok(name) => Ok(reply::text_view(name)),
                    Err(e) => Err(e),
                },
            ) == Err::<(u128, Seq<char>), reply::ReplyView>(refusal@),
        },
{
    match found {
        Ok(Some(name)) => Ok(AuthenticatedClient { uuid, name }),
        Ok(None) => Err(reply::unauthorized_reply()),
        Err(_) => Err(reply::internal_error()),
    }
}

/// The credentials of a request to the relay are those in its `X-Omp-Relay-Token` field, and in no
/// other.
pub proof fn law_relay_credentials_come_from_their_field(
    fields: Seq<(Seq<char>, Seq<u8>)>,
    id: Seq<char>,
    token: Seq<char>,
)
    requires
        !id.contains(':'),
    ensures
        headers::text_of_header(fields, "x-omp-relay-token"@) is None ==> relay_credentials(fields) is None,
        headers::text_of_header(fields, "x-omp-relay-token"@) == Some(id) ==> relay_credentials(
            fields,
        ) is None,
        headers::text_of_header(fields, "x-omp-relay-token"@) == Some(id + seq![':'] + token) ==> {
            &&& token::uuid_of_text(id) matches Some(uuid) ==> relay_credentials(fields) == Some(
                (uuid, token::hashed(token)),
            )
            &&& token::uuid_of_text(id) is None ==> relay_credentials(fields) is None
        },
{
    reveal_strlit("x-omp-relay-token");
    assert(text::lower("x-omp-relay-token"@) =~= "x-omp-relay-token"@);
    token::law_credentials_are_exact(id, token);
}

/// What an action is seen as is what it holds; a client is seen as its identifier and its name.
pub proof fn law_views_of_actions_are_faithful(action: AuthAction, client: AuthenticatedClient)
    ensures
        action is Reload ==> action@ is Reload,
        action matches AuthAction::Save { client: name, registry } ==> action@ == (
        AuthActionView::Save { client: name@, registry: registry@ }),
        action matches AuthAction::Finish { name, registry } ==> action@ == (AuthActionView::Finish {
            name: reply::text_view(name),
            registry: registry@,
        }),
        client@ == (client.uuid, client.name@),
{
}

/// A client that was found is let in under the identifier that was presented and its own name; where
/// there is none the answer is 401, and where the registry failed it is 500.
pub proof fn law_conclusions_are_exact(uuid: u128, name: Seq<char>)
    ensures
        conclusion(uuid, Ok(Some(name))) == Ok::<(u128, Seq<char>), reply::ReplyView>((uuid, name)),
        conclusion(uuid, Ok(None)) == Err::<(u128, Seq<char>), reply::ReplyView>(
            reply::ReplyView {
                status: 401,
                proxy_authenticate: None,
                body: reply::BodyView::Error { error: "unauthorized"@, detail: None },
            },
        ),
        conclusion(uuid, Err(())) == Err::<(u128, Seq<char>), reply::ReplyView>(
            reply::ReplyView {
                status: 500,
                proxy_authenticate: None,
                body: reply::BodyView::Error { error: "internal"@, detail: None },
            },
        ),
{
}

} // verus!
