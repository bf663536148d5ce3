//! How the program's command line chooses what to run: `server`, or
//! `client <server_address> [udp]`. The server listens on TCP port 8080 and UDP
//! port 8081 of every interface; a client connects to the port of its protocol.
use vstd::prelude::*;
use crate::text::{concat3, same_text};

verus! {

/// What the command line asks for.
#[derive(Debug, Clone, PartialEq)]
pub enum Launch {
    /// Too few arguments: show how to use the program.
    Usage,
    /// Run the server, with the TCP and the UDP address to listen on.
    Server { tcp_address: String, udp_address: String },
    /// `client` without a server address: show how to use the client.
    ClientUsage,
    /// Run a client that talks to `address`, over UDP if `use_udp`.
    Client { address: String, use_udp: bool },
    /// An unknown mode.
    Invalid,
}

/// What the command line asks for, as a value.
pub enum LaunchView {
    Usage,
    Server { tcp_address: Seq<char>, udp_address: Seq<char> },
    ClientUsage,
    Client { address: Seq<char>, use_udp: bool },
    Invalid,
}

impl View for Launch {
    type V = LaunchView;

    open spec fn view(&self) -> LaunchView {
        match self {
            Launch::Usage => LaunchView::Usage,
            Launch::Server { tcp_address, udp_address } => LaunchView::Server {
                tcp_address: tcp_address@,
                udp_address: udp_address@,
            },
            Launch::ClientUsage => LaunchView::ClientUsage,
            Launch::Client { address, use_udp } => LaunchView::Client {
                address: address@,
                use_udp: *use_udp,
            },
            Launch::Invalid => LaunchView::Invalid,
        }
    }
}

/// What the arguments `args` (the program's name first) ask for.
pub open spec fn launch_view(args: Seq<Seq<char>>) -> LaunchView {
    if args.len() < 2 {
        LaunchView::Usage
    } else if args[1] == "server"@ {
        LaunchView::Server { tcp_address: "0.0.0.0:8080"@, udp_address: "0.0.0.0:8081"@ }
    } else if args[1] == "client"@ {
        if args.len() < 3 {
            LaunchView::ClientUsage
        } else {
            let use_udp = args.len() > 3 && args[3] == "udp"@;
            LaunchView::Client {
                address: args[2] + ":"@ + (if use_udp {
                    "8081"@
                } else {
                    "8080"@
                }),
                use_udp,
            }
        }
    } else {
        LaunchView::Invalid
    }
}

/// What the command-line arguments `args` (the program's name first) ask for.
pub fn parse_args(args: &Vec<String>) -> (r: Launch)
    ensures
        r@ == launch_view(args@.map_values(|a: String| a@)),
{
    let ghost v = args@.map_values(|a: String| a@);
    if args.len() < 2 {
        return Launch::Usage;
    }
    assert(v[1] == args@[1]@);
    if same_text(args[1].as_str(), "server") {
        Launch::Server {
            tcp_address: String::from_str("0.0.0.0:8080"),
            udp_address: String::from_str("0.0.0.0:8081"),
        }
    } else if same_text(args[1].as_str(), "client") {
        if args.len() < 3 {
            return Launch::ClientUsage;
        }
        assert(v[2] == args@[2]@);
        let use_udp = if args.len() > 3 {
            assert(v[3] == args@[3]@);
            same_text(args[3].as_str(), "udp")
        } else {
            false
        };
        let port = if use_udp {
            "8081"
        } else {
            "8080"
        };
        Launch::Client { address: concat3(args[2].as_str(), ":", port), use_udp }
    } else {
        Launch::Invalid
    }
}

} // verus!
