//! A small service to try the gateway with: it answers with what it was asked.

use crate::headers::header_fields;
use crate::string_map::StringMap;
use crate::text::{decimal, decimal_round_trip, parse_u64, parsed_u64};
use crate::trace_record::{show_headers, shown, text_map};
use http::header::HeaderMap;
use vstd::prelude::*;

verus! {

/// What the service calls itself, which cluster it belongs to and where it listens.
#[derive(Debug, Clone)]
pub struct EchoSettings {
    pub service_name: String,
    pub cluster_type: String,
    pub port: u16,
}

/// What the service answers.
#[derive(Debug)]
pub struct EchoResponse {
    pub service: String,
    pub cluster: String,
    pub path: String,
    pub headers: StringMap<String>,
}

/// The argument at a place, or else a default.
pub open spec fn argument_or(args: Seq<String>, i: int, default: Seq<char>) -> Seq<char> {
    if i < args.len() {
        args[i]@
    } else {
        default
    }
}

/// The port that a text names, or else the usual one.
pub open spec fn port_or_default(text: Seq<char>) -> u16 {
    match parsed_u64(text) {
        Some(n) => if n <= 0xffff {
            n as u16
        } else {
            8081
        },
        None => 8081,
    }
}

fn argument(args: &Vec<String>, i: usize, default: &str) -> (r: String)
    ensures
        r@ == argument_or(args@, i as int, default@),
{
    if i < args.len() {
        args[i].clone()
    } else {
        default.to_string()
    }
}

impl EchoSettings {
    /// The settings that the arguments of a program give. The first argument is the name
    /// of the program.
    pub fn from_args(args: &Vec<String>) -> (r: Self)
        ensures
            r.service_name@ == argument_or(args@, 1, "user-service"@),
            r.cluster_type@ == argument_or(args@, 2, "stable"@),
            r.port == port_or_default(argument_or(args@, 3, "8081"@)),
    {
        let port = match parse_u64(argument(args, 3, "8081").as_str()) {
            Some(n) => if n <= 0xffff {
                n as u16
            } else {
                8081
            },
            None => 8081,
        };
        EchoSettings {
            service_name: argument(args, 1, "user-service"),
            cluster_type: argument(args, 2, "stable"),
            port,
        }
    }

    /// The answer to a request: its path, and its headers that show as text.
    pub fn echo(&self, headers: &HeaderMap, path: &str) -> (r: EchoResponse)
        ensures
            r.service@ == self.service_name@,
            r.cluster@ == self.cluster_type@,
            r.path@ == path@,
            text_map(r.headers@) == shown(header_fields(*headers), true),
    {
        EchoResponse {
            service: self.service_name.clone(),
            cluster: self.cluster_type.clone(),
            path: path.to_string(),
            headers: show_headers(headers, true),
        }
    }
}

/// A number up to the largest port is the port, and any larger one gives the usual port.
pub proof fn written_ports_are_read(n: u64)
    ensures
        n <= 65535 ==> port_or_default(decimal(n as nat)) == n,
        n > 65535 ==> port_or_default(decimal(n as nat)) == 8081,
{
    decimal_round_trip(n);
}

/// An argument that is there is taken as it is.
pub proof fn given_arguments_are_taken(args: Seq<String>, i: int, default: Seq<char>)
    requires
        0 <= i,
    ensures
        i < args.len() ==> argument_or(args, i, default) == args[i]@,
        i >= args.len() ==> argument_or(args, i, default) == default,
{
}

} // verus!
