//! The client's commands and the request each of them sends.

use vstd::prelude::*;
use vstd::string::*;
use vstd::utf8::encode_utf8;
use crate::addr::dotted;
use crate::client::{
    url_encoded, Method, RequestSpec, iface_path, health_request, list_ifaces_request, create_iface_request,
    delete_iface_request, list_dnat_request, add_dnat_request, delete_dnat_request,
};

verus! {

/// Interface commands.
#[derive(Debug)]
pub enum IfaceCmd {
    List,
    Create { name: String },
    Delete { name: String },
}

/// Mapping commands; a mapping is a DNAT mapping of an interface.
#[derive(Debug)]
pub enum MappingCmd {
    List { iface: String },
    Add { iface: String, orig: u32, new: u32 },
    Delete { iface: String, orig: u32 },
}

/// A client command.
#[derive(Debug)]
pub enum Command {
    Health,
    Iface(IfaceCmd),
    Mapping(MappingCmd),
}

/// The client's command line: where the daemon is, its token, the configuration file,
/// JSON output, and the command.
#[derive(Debug)]
pub struct Cli {
    pub url: Option<String>,
    pub token: Option<String>,
    pub config: Option<String>,
    pub json: bool,
    pub command: Command,
}

/// The method, path and need of a token of the request a command sends.
pub open spec fn command_request_spec(c: Command) -> (Method, Seq<char>, bool) {
    match c {
        Command::Health => (Method::Get, "/health"@, false),
        Command::Iface(IfaceCmd::List) => (Method::Get, "/interfaces"@, false),
        Command::Iface(IfaceCmd::Create { .. }) => (Method::Post, "/interfaces"@, true),
        Command::Iface(IfaceCmd::Delete { name }) => (Method::Delete, iface_path(encode_utf8(name@), Seq::empty()), true),
        Command::Mapping(MappingCmd::List { iface }) => (Method::Get, iface_path(encode_utf8(iface@), "/dnat"@), false),
        Command::Mapping(MappingCmd::Add { iface, .. }) => (Method::Post, iface_path(encode_utf8(iface@), "/dnat"@), true),
        Command::Mapping(MappingCmd::Delete { iface, orig }) => (
            Method::Delete,
            iface_path(encode_utf8(iface@), "/dnat/"@ + dotted(orig)),
            true,
        ),
    }
}

/// The request a command sends.
pub fn command_request(c: &Command) -> (r: RequestSpec)
    ensures
        (r.method, r.path@, r.mutating) == command_request_spec(*c),
{
    match c {
        Command::Health => health_request(),
        Command::Iface(IfaceCmd::List) => list_ifaces_request(),
        Command::Iface(IfaceCmd::Create { .. }) => create_iface_request(),
        Command::Iface(IfaceCmd::Delete { name }) => delete_iface_request(name.as_str()),
        Command::Mapping(MappingCmd::List { iface }) => list_dnat_request(iface.as_str()),
        Command::Mapping(MappingCmd::Add { iface, .. }) => add_dnat_request(iface.as_str()),
        Command::Mapping(MappingCmd::Delete { iface, orig }) => delete_dnat_request(iface.as_str(), *orig),
    }
}


/// The three mapping commands address one and the same DNAT collection of an interface:
/// listing reads `/interfaces/{iface}/dnat`, with the name percent-encoded from its
/// UTF-8 bytes; adding POSTs to that very path and needs the token; deleting sends a
/// DELETE, with the token, to the path of the mapping's original address under it.
pub proof fn lemma_mapping_commands_share_path(iface: String, orig: u32, new: u32)
    ensures
        ({
            let list = command_request_spec(Command::Mapping(MappingCmd::List { iface }));
            let add = command_request_spec(Command::Mapping(MappingCmd::Add { iface, orig, new }));
            let del = command_request_spec(Command::Mapping(MappingCmd::Delete { iface, orig }));
            &&& list.0 == Method::Get && !list.2
            &&& list.1 == "/interfaces/"@ + url_encoded(encode_utf8(iface@)) + "/dnat"@
            &&& add.0 == Method::Post && add.2
            &&& add.1 == list.1
            &&& del.0 == Method::Delete && del.2
            &&& del.1 == list.1 + "/"@ + dotted(orig)
        }),
{
    reveal_strlit("/dnat/");
    reveal_strlit("/dnat");
    reveal_strlit("/");
    let e = "/interfaces/"@ + url_encoded(encode_utf8(iface@));
    assert(e + ("/dnat/"@ + dotted(orig)) =~= e + "/dnat"@ + "/"@ + dotted(orig));
}


/// The interface commands address the interface collection: listing GETs `/interfaces`
/// without the token, creating POSTs to the same path with it, and deleting sends a
/// DELETE, with the token, to the interface's own path below it, under which its DNAT
/// mappings lie; the health check GETs `/health` without the token.
pub proof fn lemma_iface_commands_share_path(name: String)
    ensures
        ({
            let health = command_request_spec(Command::Health);
            let list = command_request_spec(Command::Iface(IfaceCmd::List));
            let create = command_request_spec(Command::Iface(IfaceCmd::Create { name }));
            let del = command_request_spec(Command::Iface(IfaceCmd::Delete { name }));
            let mappings = command_request_spec(Command::Mapping(MappingCmd::List { iface: name }));
            &&& health == (Method::Get, "/health"@, false)
            &&& list == (Method::Get, "/interfaces"@, false)
            &&& create.0 == Method::Post && create.2 && create.1 == list.1
            &&& del.0 == Method::Delete && del.2
            &&& del.1 == list.1 + "/"@ + url_encoded(encode_utf8(name@))
            &&& mappings.1 == del.1 + "/dnat"@
        }),
{
    reveal_strlit("/interfaces/");
    reveal_strlit("/interfaces");
    reveal_strlit("/");
    let u = url_encoded(encode_utf8(name@));
    assert("/interfaces/"@ + u + Seq::<char>::empty() =~= "/interfaces"@ + "/"@ + u);
    assert("/interfaces/"@ + u + "/dnat"@ =~= "/interfaces"@ + "/"@ + u + "/dnat"@);
}

} // verus!
