//! What the relay tells its clients and its administrator about itself.

use vstd::prelude::*;

use crate::auth::AuthenticatedClient;
use crate::registry;
use crate::registry::{Client, ClientView, Registry};
use crate::reply;
use crate::reply::Reply;
use crate::text;
use crate::token;

verus! {

pub open spec fn line_views(lines: Seq<String>) -> Seq<Seq<char>> {
    lines.map_values(|line: String| line@)
}

/// The line of a client in the list of clients.
pub open spec fn client_line(client: ClientView) -> Seq<char> {
    token::uuid_text(client.uuid) + seq!['\t'] + client.name + seq!['\t'] + text::decimal(
        client.created as nat,
    ) + seq!['\t'] + text::decimal(client.last_seen as nat)
}

/// The list of clients, line by line.
pub open spec fn client_list(clients: Seq<ClientView>) -> Seq<Seq<char>> {
    if clients.len() == 0 {
        seq!["No paired clients."@]
    } else {
        seq!["UUID\tNAME\tCREATED\tLAST_SEEN"@] + clients.map_values(|c: ClientView| client_line(c))
    }
}

fn list_line(client: &Client) -> (r: String)
    ensures
        r@ == client_line(client@),
{
    let mut line = token::format_uuid(client.uuid);
    line.push('\t');
    line.append(client.name.as_str());
    line.push('\t');
    line.append(text::decimal_text(client.created).as_str());
    line.push('\t');
    line.append(text::decimal_text(client.last_seen).as_str());
    assert(line@ =~= client_line(client@));
    line
}

/// Lists the clients of a registry, line by line.
pub fn list_clients(registry: &Registry) -> (r: Vec<String>)
    ensures
        line_views(r@) == client_list(registry@.clients),
{
    let ghost clients = registry@.clients;
    let mut lines: Vec<String> = Vec::new();
    if registry.clients.len() == 0 {
        lines.push("No paired clients.".to_owned());
        assert(line_views(lines@) =~= client_list(clients));
        return lines;
    }
    lines.push("UUID\tNAME\tCREATED\tLAST_SEEN".to_owned());
    let mut i: usize = 0;
    assert(line_views(lines@) =~= seq!["UUID\tNAME\tCREATED\tLAST_SEEN"@] + clients.take(0).map_values(
        |c: ClientView| client_line(c),
    ));
    while i < registry.clients.len()
        invariant
            i <= registry.clients@.len(),
            clients == registry@.clients,
            line_views(lines@) == seq!["UUID\tNAME\tCREATED\tLAST_SEEN"@] + clients.take(
                i as int,
            ).map_values(|c: ClientView| client_line(c)),
        decreases registry.clients@.len() - i,
    {
        let ghost before = lines@;
        let line = list_line(&registry.clients[i]);
        assert(clients[i as int] == registry.clients@[i as int]@);
        lines.push(line);
        i += 1;
        assert(line_views(lines@) =~= line_views(before).push(line@));
        assert(clients.take(i as int) =~= clients.take(i - 1).push(clients[i - 1]));
        assert(line_views(lines@) =~= seq!["UUID\tNAME\tCREATED\tLAST_SEEN"@] + clients.take(
            i as int,
        ).map_values(|c: ClientView| client_line(c)));
    }
    assert(clients.take(i as int) =~= clients);
    lines
}

/// What is said where a client is to be revoked.
pub open spec fn revocation_answer(clients: Seq<ClientView>, uuid: u128) -> Result<
    Seq<char>,
    Seq<char>,
> {
    if registry::is_paired(clients, uuid) {
        Ok("Revoked "@ + token::uuid_text(uuid))
    } else {
        Err("client "@ + token::uuid_text(uuid) + " not found"@)
    }
}

/// Revokes a client. Says so, or says that there is no such client.
pub fn revoke_client(registry: &mut Registry, uuid: u128) -> (r: Result<String, String>)
    ensures
        final(registry)@ == registry::revoked(old(registry)@, uuid),
        match r {
            Ok(said) => {
                &&& registry::is_paired(old(registry)@.clients, uuid)
                &&& said@ == "Revoked "@ + token::uuid_text(uuid)
            },
            Err(error) => {
                &&& !registry::is_paired(old(registry)@.clients, uuid)
                &&& error@ == "client "@ + token::uuid_text(uuid) + " not found"@
            },
        },
        match r {
            Ok(said) => revocation_answer(old(registry)@.clients, uuid) == Ok::<Seq<char>, Seq<char>>(
                said@,
            ),
            Err(error) => revocation_answer(old(registry)@.clients, uuid) == Err::<
                Seq<char>,
                Seq<char>,
            >(error@),
        },
{
    let id = token::format_uuid(uuid);
    if registry.revoke(uuid) {
        Ok(text::joined("Revoked ", id.as_str()))
    } else {
        let mut error = text::joined("client ", id.as_str());
        error.append(" not found");
        Err(error)
    }
}

/// What the relay reports of its state.
#[derive(Clone, Debug, PartialEq, Eq)]
pub struct StatusReport {
    pub uptime_s: u64,
    pub clients: usize,
    pub active_streams: usize,
    pub debug: bool,
}

/// The report for an authenticated client. The number of clients comes from the registry, which
/// may not be readable.
pub fn status(
    found: Result<AuthenticatedClient, Reply>,
    clients: Result<usize, ()>,
    uptime_s: u64,
    active_streams: usize,
    debug: bool,
) -> (r: Result<StatusReport, Reply>)
    ensures
        match found {
            Err(refusal) => r == Err::<StatusReport, Reply>(refusal),
            Ok(_) => match clients {
                Err(_) => r is Err && r->Err_0@ == reply::internal(),
                Ok(n) => r == Ok::<StatusReport, Reply>(
                    StatusReport { uptime_s, clients: n, active_streams, debug },
                ),
            },
        },
{
    match found {
        Err(refusal) => Err(refusal),
        Ok(_) => match clients {
            Err(_) => Err(reply::internal_error()),
            Ok(clients) => Ok(StatusReport { uptime_s, clients, active_streams, debug }),
        },
    }
}

/// Switches the logging of requests, for an authenticated client only. Gives back the new setting.
pub fn debug(
    found: Result<AuthenticatedClient, Reply>,
    setting: &mut bool,
    enabled: bool,
) -> (r: Result<bool, Reply>)
    ensures
        match found {
            Err(refusal) => r == Err::<bool, Reply>(refusal) && *final(setting) == *old(setting),
            Ok(_) => r == Ok::<bool, Reply>(enabled) && *final(setting) == enabled,
        },
{
    match found {
        Err(refusal) => Err(refusal),
        Ok(_) => {
            *setting = enabled;
            Ok(enabled)
        },
    }
}

/// The list of clients has a line for each client behind its heading, in their order: the identifier,
/// the name and the two times in decimal, with a tab between each and the next.
pub proof fn law_client_lists_are_exact(clients: Seq<ClientView>, k: int)
    ensures
        clients.len() == 0 ==> client_list(clients) == seq!["No paired clients."@],
        clients.len() > 0 ==> client_list(clients).len() == clients.len() + 1,
        clients.len() > 0 ==> client_list(clients)[0] == "UUID\tNAME\tCREATED\tLAST_SEEN"@,
        0 <= k < clients.len() ==> client_list(clients)[k + 1] == token::uuid_text(clients[k].uuid)
            + seq!['\t'] + clients[k].name + seq!['\t'] + text::decimal(clients[k].created as nat)
            + seq!['\t'] + text::decimal(clients[k].last_seen as nat),
{
}

/// What lines are seen as is what they hold, each in its place.
pub proof fn law_views_of_lines_are_faithful(lines: Seq<String>, k: int)
    ensures
        line_views(lines).len() == lines.len(),
        0 <= k < lines.len() ==> line_views(lines)[k] == lines[k]@,
{
}

/// Revocation succeeds exactly where some client has the identifier, and names it either way.
pub proof fn law_revocations_are_answered(clients: Seq<ClientView>, uuid: u128, k: int)
    ensures
        0 <= k < clients.len() && clients[k].uuid == uuid ==> revocation_answer(clients, uuid) == Ok::<
            Seq<char>,
            Seq<char>,
        >("Revoked "@ + token::uuid_text(uuid)),
        (forall|j: int| 0 <= j < clients.len() ==> (#[trigger] clients[j]).uuid != uuid)
            ==> revocation_answer(clients, uuid) == Err::<Seq<char>, Seq<char>>(
            "client "@ + token::uuid_text(uuid) + " not found"@,
        ),
{
}

} // verus!
