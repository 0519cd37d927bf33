//! The command line: `hamesh p2p <ipv4|ipv6> [--inbound|--outbound <host_port>:<remote_host_port>/<tcp|udp>]...`.
use vstd::prelude::*;
use vstd::string::*;
use crate::content::str_equal;
use crate::control_datagram::owned;
use crate::pattern::{pattern_find_all, pattern_is_match, regex_find_iter, regex_is_match};
use crate::settings_models::{lemma_protocol_text_parses, port_settings_text, protocol_text,
    spec_parse_protocol, PortSettings, Protocol};
use crate::text::{decimal, is_digit, joined, join_from, lemma_decimal, lemma_decimal_parses,
    lemma_occurs_after_prefix, lemma_part_occurs_in_joined, lemma_split_join, lemma_split_single,
    occurs_in, parse_u16, spec_parse_u16, split_chars,
    split_on, text_contains};

verus! {

/// The whole command line that the program accepts.
pub open spec fn command_pattern() -> Seq<char> {
    "^hamash p2p (?:ipv4|ipv6)(?: --(?:inbound|outbound) \\d+:\\d+/(?:tcp|udp))*$"@
}

/// One forwarding argument.
pub open spec fn forwarding_pattern() -> Seq<char> {
    "--(?:inbound|outbound) \\d+:\\d+/(?:tcp|udp)"@
}

fn command_pattern_text() -> (res: &'static str)
    ensures
        res@ == command_pattern(),
{
    "^hamash p2p (?:ipv4|ipv6)(?: --(?:inbound|outbound) \\d+:\\d+/(?:tcp|udp))*$"
}

fn forwarding_pattern_text() -> (res: &'static str)
    ensures
        res@ == forwarding_pattern(),
{
    "--(?:inbound|outbound) \\d+:\\d+/(?:tcp|udp)"
}

/// What to do with the command line.
#[derive(Debug, Clone, Copy, PartialEq, Eq)]
pub enum ArgumentCheck {
    /// The arguments do not follow the usage: print the help message.
    ShowHelp,
    /// No `--inbound` or `--outbound` argument: ask for one.
    MissingForwarding,
    /// The arguments are fine.
    Run,
    /// The regular expression engine refused the usage pattern.
    PatternRejected,
}

/// The arguments after the program name, joined with spaces.
pub open spec fn arguments_text(args: Seq<String>) -> Seq<char> {
    joined(args.skip(1).map_values(|a: String| a@), " "@)
}

/// The decision on the command line `args` (`args[0]` is the program).
pub open spec fn spec_check_arguments(args: Seq<String>) -> ArgumentCheck {
    if args.len() < 2 {
        ArgumentCheck::ShowHelp
    } else {
        let line = "hamash "@ + arguments_text(args);
        match regex_is_match(command_pattern(), line) {
            None => ArgumentCheck::PatternRejected,
            Some(false) => ArgumentCheck::ShowHelp,
            Some(true) => if !occurs_in("--inbound"@, line) && !occurs_in("--outbound"@, line) {
                ArgumentCheck::MissingForwarding
            } else {
                ArgumentCheck::Run
            },
        }
    }
}

/// Checks the command line before the program starts.
pub fn check_arguments(args: &Vec<String>) -> (res: ArgumentCheck)
    ensures
        res == spec_check_arguments(args@),
{
    if args.len() < 2 {
        return ArgumentCheck::ShowHelp;
    }
    let mut line = owned("hamash ");
    line.append(join_from(args, 1, " ").as_str());
    match pattern_is_match(command_pattern_text(), line.as_str()) {
        None => ArgumentCheck::PatternRejected,
        Some(false) => ArgumentCheck::ShowHelp,
        Some(true) => {
            if !text_contains(line.as_str(), "--inbound") && !text_contains(
                line.as_str(),
                "--outbound",
            ) {
                ArgumentCheck::MissingForwarding
            } else {
                ArgumentCheck::Run
            }
        },
    }
}

/// Reading the forwarding argument `m` (`--inbound 8080:8081/tcp`) finds both ports, as
/// numbers that fit a `u16`.
pub open spec fn forwarding_readable(m: Seq<char>) -> bool {
    let parts = split_on(m, ' ');
    &&& parts.len() >= 2
    &&& split_on(parts[1], '/').len() >= 2
    &&& split_on(split_on(parts[1], '/')[0], ':').len() >= 2
    &&& spec_parse_u16(split_on(split_on(parts[1], '/')[0], ':')[0]) is Some
    &&& spec_parse_u16(split_on(split_on(parts[1], '/')[0], ':')[1]) is Some
}

/// The forwarding that `m` names, with whether it is inbound; `None` for an unknown protocol
/// or direction.
pub open spec fn spec_forwarding(m: Seq<char>) -> Option<(bool, PortSettings)> {
    let parts = split_on(m, ' ');
    let ports_and_protocol = split_on(parts[1], '/');
    let ports = split_on(ports_and_protocol[0], ':');
    match spec_parse_protocol(ports_and_protocol[1]) {
        None => None,
        Some(protocol) => {
            let s = PortSettings {
                protocol,
                host_port: spec_parse_u16(ports[0]).unwrap(),
                remote_host_port: spec_parse_u16(ports[1]).unwrap(),
            };
            if parts[0] == "--inbound"@ {
                Some((true, s))
            } else if parts[0] == "--outbound"@ {
                Some((false, s))
            } else {
                None
            }
        },
    }
}

/// Reads one forwarding argument.
pub fn parse_forwarding(m: &str) -> (res: Option<(bool, PortSettings)>)
    requires
        forwarding_readable(m@),
    ensures
        res == spec_forwarding(m@),
{
    let parts = split_chars(m, ' ');
    let ghost pv = parts@.map_values(|p: String| p@);
    assert(pv[0] == parts@[0]@ && pv[1] == parts@[1]@);
    let ports_and_protocol = split_chars(parts[1].as_str(), '/');
    let ghost ppv = ports_and_protocol@.map_values(|p: String| p@);
    assert(ppv[0] == ports_and_protocol@[0]@ && ppv[1] == ports_and_protocol@[1]@);
    let ports = split_chars(ports_and_protocol[0].as_str(), ':');
    let ghost portsv = ports@.map_values(|p: String| p@);
    assert(portsv[0] == ports@[0]@ && portsv[1] == ports@[1]@);
    let host_port = parse_u16(ports[0].as_str()).unwrap();
    let remote_host_port = parse_u16(ports[1].as_str()).unwrap();
    let protocol = match Protocol::parse(ports_and_protocol[1].as_str()) {
        None => {
            return None;
        },
        Some(p) => p,
    };
    let s = PortSettings { protocol, host_port, remote_host_port };
    if str_equal(parts[0].as_str(), "--inbound") {
        Some((true, s))
    } else if str_equal(parts[0].as_str(), "--outbound") {
        Some((false, s))
    } else {
        None
    }
}

/// The inbound and the outbound forwardings named by the arguments `ms`, each list in order.
pub open spec fn forwardings_of(ms: Seq<Seq<char>>) -> (Seq<PortSettings>, Seq<PortSettings>)
    decreases ms.len(),
{
    if ms.len() == 0 {
        (Seq::empty(), Seq::empty())
    } else {
        let (inbound, outbound) = forwardings_of(ms.drop_last());
        match spec_forwarding(ms.last()) {
            None => (inbound, outbound),
            Some((true, s)) => (inbound.push(s), outbound),
            Some((false, s)) => (inbound, outbound.push(s)),
        }
    }
}

/// Reads the forwarding arguments `matches`.
pub fn parse_port_settings_arguments(matches: &Vec<String>) -> (res: (Vec<PortSettings>, Vec<PortSettings>))
    requires
        forall|i: int| 0 <= i < matches@.len() ==> forwarding_readable(#[trigger] matches@[i]@),
    ensures
        (res.0@, res.1@) == forwardings_of(matches@.map_values(|m: String| m@)),
{
    let ghost ms = matches@.map_values(|m: String| m@);
    let mut inbound: Vec<PortSettings> = Vec::new();
    let mut outbound: Vec<PortSettings> = Vec::new();
    let mut i: usize = 0;
    while i < matches.len()
        invariant
            i <= matches@.len(),
            ms == matches@.map_values(|m: String| m@),
            forall|k: int| 0 <= k < matches@.len() ==> forwarding_readable(#[trigger] matches@[k]@),
            (inbound@, outbound@) == forwardings_of(ms.take(i as int)),
        decreases matches@.len() - i,
    {
        assert(ms.take(i + 1).drop_last() =~= ms.take(i as int));
        assert(ms[i as int] == matches@[i as int]@);
        match parse_forwarding(matches[i].as_str()) {
            None => {},
            Some((true, s)) => inbound.push(s),
            Some((false, s)) => outbound.push(s),
        }
        i = i + 1;
    }
    assert(ms.take(i as int) =~= ms);
    (inbound, outbound)
}

/// All forwarding arguments can be read.
pub open spec fn all_readable(ms: Seq<Seq<char>>) -> bool {
    forall|i: int| 0 <= i < ms.len() ==> forwarding_readable(#[trigger] ms[i])
}

/// The forwardings on the command line `args`: `None` when the regular expression engine
/// refuses the pattern or a port does not fit a `u16`.
pub open spec fn spec_settings(args: Seq<String>) -> Option<(Seq<PortSettings>, Seq<PortSettings>)> {
    match regex_find_iter(forwarding_pattern(), arguments_text(args)) {
        None => None,
        Some(ms) => if all_readable(ms) {
            Some(forwardings_of(ms))
        } else {
            None
        },
    }
}

/// The inbound and outbound forwardings named on the command line `args`.
pub fn get_settings(args: &Vec<String>) -> (res: Option<(Vec<PortSettings>, Vec<PortSettings>)>)
    requires
        args@.len() >= 1,
    ensures
        match res {
            Some((inbound, outbound)) => spec_settings(args@) == Some((inbound@, outbound@)),
            None => spec_settings(args@) is None,
        },
{
    let line = join_from(args, 1, " ");
    let matches = match pattern_find_all(forwarding_pattern_text(), line.as_str()) {
        None => {
            return None;
        },
        Some(m) => m,
    };
    let ghost ms = matches@.map_values(|m: String| m@);
    let mut i: usize = 0;
    while i < matches.len()
        invariant
            i <= matches@.len(),
            ms == matches@.map_values(|m: String| m@),
            regex_find_iter(forwarding_pattern(), arguments_text(args@)) == Some(ms),
            forall|k: int| 0 <= k < i ==> forwarding_readable(#[trigger] matches@[k]@),
        decreases matches@.len() - i,
    {
        if !forwarding_argument_readable(matches[i].as_str()) {
            assert(ms[i as int] == matches@[i as int]@);
            return None;
        }
        i = i + 1;
    }
    assert forall|k: int| 0 <= k < ms.len() implies forwarding_readable(#[trigger] ms[k]) by {
        assert(ms[k] == matches@[k]@);
    }
    Some(parse_port_settings_arguments(&matches))
}

/// Whether the forwarding argument `m` can be read (`forwarding_readable`).
pub fn forwarding_argument_readable(m: &str) -> (res: bool)
    ensures
        res == forwarding_readable(m@),
{
    let parts = split_chars(m, ' ');
    let ghost pv = parts@.map_values(|p: String| p@);
    if parts.len() < 2 {
        return false;
    }
    assert(pv[1] == parts@[1]@);
    let ports_and_protocol = split_chars(parts[1].as_str(), '/');
    let ghost ppv = ports_and_protocol@.map_values(|p: String| p@);
    if ports_and_protocol.len() < 2 {
        return false;
    }
    assert(ppv[0] == ports_and_protocol@[0]@);
    let ports = split_chars(ports_and_protocol[0].as_str(), ':');
    let ghost portsv = ports@.map_values(|p: String| p@);
    if ports.len() < 2 {
        return false;
    }
    assert(portsv[0] == ports@[0]@ && portsv[1] == ports@[1]@);
    parse_u16(ports[0].as_str()).is_some() && parse_u16(ports[1].as_str()).is_some()
}


/// No character of `s` is `c`.
spec fn free_of(s: Seq<char>, c: char) -> bool {
    forall|i: int| 0 <= i < s.len() ==> s[i] != c
}

proof fn lemma_decimal_free(n: nat, c: char)
    requires
        !is_digit(c),
    ensures
        free_of(decimal(n), c),
{
    lemma_decimal(n);
}

proof fn lemma_forwarding_of_direction(direction: Seq<char>, s: PortSettings)
    requires
        free_of(direction, ' '),
    ensures
        ({
            let m = direction + " "@ + port_settings_text(s);
            &&& forwarding_readable(m)
            &&& split_on(m, ' ')[0] == direction
            &&& spec_forwarding(m) == if direction == "--inbound"@ {
                Some((true, s))
            } else if direction == "--outbound"@ {
                Some((false, s))
            } else {
                None
            }
        }),
{
    reveal_strlit(" ");
    reveal_strlit(":");
    reveal_strlit("/");
    reveal_strlit("tcp");
    reveal_strlit("udp");
    let dh = decimal(s.host_port as nat);
    let dr = decimal(s.remote_host_port as nat);
    let proto = protocol_text(s.protocol);
    let a = dh + seq![':'] + dr;
    let t = a + seq!['/'] + proto;
    assert(port_settings_text(s) =~= t);
    let m = direction + seq![' '] + t;
    assert(direction + " "@ + port_settings_text(s) =~= m);
    lemma_decimal_free(s.host_port as nat, ' ');
    lemma_decimal_free(s.host_port as nat, '/');
    lemma_decimal_free(s.host_port as nat, ':');
    lemma_decimal_free(s.remote_host_port as nat, ' ');
    lemma_decimal_free(s.remote_host_port as nat, '/');
    lemma_decimal_free(s.remote_host_port as nat, ':');
    assert(free_of(proto, ' ') && free_of(proto, '/'));
    assert(free_of(a, ' ') && free_of(a, '/'));
    assert(free_of(t, ' '));
    lemma_split_single(direction, ' ');
    lemma_split_single(t, ' ');
    lemma_split_join(direction, ' ', t);
    assert(split_on(m, ' ') =~= seq![direction, t]);
    lemma_split_single(a, '/');
    lemma_split_single(proto, '/');
    lemma_split_join(a, '/', proto);
    assert(split_on(t, '/') =~= seq![a, proto]);
    lemma_split_single(dh, ':');
    lemma_split_single(dr, ':');
    lemma_split_join(dh, ':', dr);
    assert(split_on(a, ':') =~= seq![dh, dr]);
    lemma_decimal_parses(s.host_port as nat);
    lemma_decimal_parses(s.remote_host_port as nat);
    lemma_protocol_text_parses(s.protocol);
}

/// A forwarding written in its display form after `--inbound` or `--outbound` reads back as
/// that forwarding in that direction.
pub proof fn law_forwarding_argument_round_trip(s: PortSettings)
    ensures
        forwarding_readable("--inbound"@ + " "@ + port_settings_text(s)),
        spec_forwarding("--inbound"@ + " "@ + port_settings_text(s)) == Some((true, s)),
        forwarding_readable("--outbound"@ + " "@ + port_settings_text(s)),
        spec_forwarding("--outbound"@ + " "@ + port_settings_text(s)) == Some((false, s)),
{
    reveal_strlit("--inbound");
    reveal_strlit("--outbound");
    assert("--inbound"@[2] != "--outbound"@[2]);
    lemma_forwarding_of_direction("--inbound"@, s);
    lemma_forwarding_of_direction("--outbound"@, s);
}

/// A command line that follows the usage runs as soon as it names one forwarding: any
/// argument after the program name that is `--inbound` or `--outbound` is enough.
pub proof fn law_one_forwarding_is_enough(args: Seq<String>, k: int)
    requires
        args.len() >= 2,
        regex_is_match(command_pattern(), "hamash "@ + arguments_text(args)) == Some(true),
        1 <= k < args.len(),
        args[k]@ == "--inbound"@ || args[k]@ == "--outbound"@,
    ensures
        spec_check_arguments(args) == ArgumentCheck::Run,
{
    let parts = args.skip(1).map_values(|a: String| a@);
    assert(parts[k - 1] == args[k]@);
    lemma_part_occurs_in_joined(parts, " "@, k - 1);
    lemma_occurs_after_prefix(args[k]@, "hamash "@, arguments_text(args));
}

/// The command line is refused for want of a forwarding only when neither `--inbound` nor
/// `--outbound` occurs in it, and only when it follows the usage.
pub proof fn law_missing_forwarding_only_without_one(args: Seq<String>)
    ensures
        spec_check_arguments(args) == ArgumentCheck::MissingForwarding ==> {
            let line = "hamash "@ + arguments_text(args);
            &&& args.len() >= 2
            &&& regex_is_match(command_pattern(), line) == Some(true)
            &&& !occurs_in("--inbound"@, line)
            &&& !occurs_in("--outbound"@, line)
        },
{
}

} // verus!
