//! `net`: inspect and mutate network rules at runtime.

use vstd::prelude::*;

use crate::json::Json;
use crate::labd::client::Call;
use crate::text::{cat7, decimal, decimal_string};

verus! {

/// Network rules at runtime.
#[allow(inconsistent_fields)]
#[derive(Debug)]
pub enum NetCmd {
    /// List L3 rules across the lab's segments
    Rules,
    /// Block traffic to a CIDR/IP on a segment
    Block { segment: String, cidr: String },
    /// Redirect ip[:port] to ip[:port] on a segment
    Redirect { segment: String, from: String, to: String },
    /// Forward a host port to a guest port
    Forward { segment: String, host_port: u16, vm: String, guest_port: u16 },
}

/// Whether an argument is this text.
pub open spec fn is_text(p: (String, Json), key: Seq<char>, value: Seq<char>) -> bool {
    p.0@ == key && (p.1 matches Json::Text(s) && s@ == value)
}

/// Whether an argument is this number.
pub open spec fn is_number(p: (String, Json), key: Seq<char>, value: u64) -> bool {
    p.0@ == key && p.1 == Json::Unsigned(value)
}

/// Whether a call is the one that a verb makes.
pub open spec fn calls(c: Call, cmd: NetCmd) -> bool {
    match cmd {
        NetCmd::Rules => c.cmd@ == "net.rules"@ && c.args is Null,
        NetCmd::Block { segment, cidr } => {
            &&& c.cmd@ == "net.block"@
            &&& c.args matches Json::Object(p)
            &&& p@.len() == 2
            &&& is_text(p@[0], "segment"@, segment@)
            &&& is_text(p@[1], "cidr"@, cidr@)
        },
        NetCmd::Redirect { segment, from, to } => {
            &&& c.cmd@ == "net.redirect"@
            &&& c.args matches Json::Object(p)
            &&& p@.len() == 3
            &&& is_text(p@[0], "segment"@, segment@)
            &&& is_text(p@[1], "from"@, from@)
            &&& is_text(p@[2], "to"@, to@)
        },
        NetCmd::Forward { segment, host_port, vm, guest_port } => {
            &&& c.cmd@ == "net.forward"@
            &&& c.args matches Json::Object(p)
            &&& p@.len() == 4
            &&& is_text(p@[0], "segment"@, segment@)
            &&& is_number(p@[1], "host_port"@, host_port as u64)
            &&& is_text(p@[2], "vm"@, vm@)
            &&& is_number(p@[3], "guest_port"@, guest_port as u64)
        },
    }
}

fn text_arg(key: &str, value: &String) -> (r: (String, Json))
    ensures
        is_text(r, key@, value@),
{
    (key.to_owned(), Json::Text(value.clone()))
}

/// The call that a verb makes.
pub fn cmd_net(cmd: &NetCmd) -> (r: Call)
    ensures
        calls(r, *cmd),
{
    let mut pairs: Vec<(String, Json)> = Vec::new();
    match cmd {
        NetCmd::Rules => Call { cmd: "net.rules".to_owned(), args: Json::Null },
        NetCmd::Block { segment, cidr } => {
            pairs.push(text_arg("segment", segment));
            pairs.push(text_arg("cidr", cidr));
            Call { cmd: "net.block".to_owned(), args: Json::Object(pairs) }
        },
        NetCmd::Redirect { segment, from, to } => {
            pairs.push(text_arg("segment", segment));
            pairs.push(text_arg("from", from));
            pairs.push(text_arg("to", to));
            Call { cmd: "net.redirect".to_owned(), args: Json::Object(pairs) }
        },
        NetCmd::Forward { segment, host_port, vm, guest_port } => {
            pairs.push(text_arg("segment", segment));
            pairs.push(("host_port".to_owned(), Json::Unsigned(*host_port as u64)));
            pairs.push(text_arg("vm", vm));
            pairs.push(("guest_port".to_owned(), Json::Unsigned(*guest_port as u64)));
            Call { cmd: "net.forward".to_owned(), args: Json::Object(pairs) }
        },
    }
}

/// What is said once a rule is in place.
pub open spec fn rule_text(cmd: NetCmd, id: Seq<char>) -> Option<Seq<char>> {
    match cmd {
        NetCmd::Rules => None,
        NetCmd::Block { segment, cidr } => Some(
            "blocked "@ + cidr@ + " on "@ + segment@ + " (rule "@ + id + ")"@,
        ),
        NetCmd::Redirect { segment, from, to } => Some(
            "redirect "@ + from@ + " -> "@ + to@ + " on "@ + segment@ + " (rule "@ + id + ")"@,
        ),
        NetCmd::Forward { segment, host_port, vm, guest_port } => Some(
            "forward host:"@ + decimal(host_port as nat) + " -> "@ + vm@ + ":"@ + decimal(
                guest_port as nat,
            ) + " (rule "@ + id + ")"@,
        ),
    }
}

/// What is said once a rule is in place, under the number that it got.
pub fn rule_message(cmd: &NetCmd, id: &str) -> (r: Option<String>)
    ensures
        r.deep_view() == rule_text(*cmd, id@),
{
    match cmd {
        NetCmd::Rules => None,
        NetCmd::Block { segment, cidr } => Some(
            cat7("blocked ", cidr.as_str(), " on ", segment.as_str(), " (rule ", id, ")"),
        ),
        NetCmd::Redirect { segment, from, to } => {
            let mut s = cat7(
                "redirect ",
                from.as_str(),
                " -> ",
                to.as_str(),
                " on ",
                segment.as_str(),
                " (rule ",
            );
            s.append(id);
            s.append(")");
            Some(s)
        },
        NetCmd::Forward { segment, host_port, vm, guest_port } => {
            let h = decimal_string(*host_port as u64);
            let g = decimal_string(*guest_port as u64);
            let mut s = cat7(
                "forward host:",
                h.as_str(),
                " -> ",
                vm.as_str(),
                ":",
                g.as_str(),
                " (rule ",
            );
            s.append(id);
            s.append(")");
            Some(s)
        },
    }
}

} // verus!
