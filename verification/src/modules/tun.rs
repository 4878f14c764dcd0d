//! The TUN side of the client: packets of the device, and the routes that lead traffic to it.

use vstd::prelude::*;
use vstd::string::*;
use vstd::utf8::*;

use crate::config::ClientConfig;
use crate::frame;
use crate::text;

verus! {

/// The packet that carries an IP packet of the TUN device.
pub open spec fn device_packet(ip_packet: Seq<u8>) -> Seq<u8> {
    frame::packet_bytes(frame::TUN, 0, seq![], ip_packet)
}

/// The packet that one read from the TUN device of the client sends, if it sends any.
pub open spec fn device_read_packet(read: Seq<u8>) -> Option<Seq<u8>> {
    if read.len() > 0 {
        Some(device_packet(read))
    } else {
        None
    }
}

/// An IP packet goes into the tunnel whole, in one packet that has no connection and no key. An
/// empty read sends nothing.
pub proof fn law_device_packet_holds_ip_packet(read: Seq<u8>)
    ensures
        frame::carries(device_packet(read), 2, 0, seq![], read),
        device_read_packet(read) is Some <==> read.len() > 0,
        device_read_packet(read) matches Some(packet) ==> frame::carries(
            packet,
            2,
            0,
            seq![],
            read,
        ),
{
    frame::law_packet_carries_its_parts(2, 0, seq![], read);
}

/// The packet that carries an IP packet of the TUN device.
pub fn tun_packet(ip_packet: &[u8]) -> (packet: Vec<u8>)
    requires
        13 + ip_packet@.len() <= isize::MAX,
    ensures
        packet@ == device_packet(ip_packet@),
        packet@ == frame::packet_bytes(frame::TUN, 0, seq![], ip_packet@),
{
    proof {
        reveal_strlit("");
    }
    assert(""@ =~= seq![]);
    frame::encode_packet(frame::TUN, 0, "", ip_packet)
}

/// What one read from the TUN device of the client sends to the server. An empty read stands
/// for the end of the device, or for a failure: nothing is sent, and the device is read no more.
pub fn tun_upstream(read: &[u8]) -> (packet: Option<Vec<u8>>)
    requires
        13 + read@.len() <= isize::MAX,
    ensures
        match packet {
            Some(bytes) => device_read_packet(read@) == Some(bytes@),
            None => device_read_packet(read@) is None,
        },
        match packet {
            Some(bytes) => read@.len() > 0 && bytes@ == frame::packet_bytes(
                frame::TUN,
                0,
                seq![],
                read@,
            ),
            None => read@.len() == 0,
        },
{
    if read.len() == 0 {
        None
    } else {
        Some(tun_packet(read))
    }
}

// ---------------------------------------------------------------------------------------------
// Routes
// ---------------------------------------------------------------------------------------------

/// A command of the operating system.
#[derive(Debug)]
pub struct RouteCommand {
    pub program: String,
    pub args: Vec<String>,
}

/// The words of a command.
pub open spec fn words(args: Seq<String>) -> Seq<Seq<char>> {
    args.map_values(|arg: String| arg@)
}

impl View for RouteCommand {
    type V = Seq<Seq<char>>;

    /// The program and its arguments.
    open spec fn view(&self) -> Seq<Seq<char>> {
        seq![self.program@] + words(self.args@)
    }
}

/// Commands as lists of words.
pub open spec fn command_lines(commands: Seq<RouteCommand>) -> Seq<Seq<Seq<char>>> {
    commands.map_values(|command: RouteCommand| command@)
}

/// The host of the server, without its port.
pub open spec fn server_ip(server_host: Seq<char>) -> Seq<char> {
    text::before_first(server_host, ':')
}

/// The commands that set up the routes on Linux: one that keeps the server reachable through
/// the default gateway, where both are known, and two that lead everything else to the device.
pub open spec fn linux_route_plan(
    server_host: Seq<char>,
    gateway: Seq<char>,
    tun_name: Seq<char>,
) -> Seq<Seq<Seq<char>>> {
    let pin = seq!["ip"@, "route"@, "add"@, server_ip(server_host), "via"@, gateway];
    let low = seq!["ip"@, "route"@, "add"@, "0.0.0.0/1"@, "dev"@, tun_name];
    let high = seq!["ip"@, "route"@, "add"@, "128.0.0.0/1"@, "dev"@, tun_name];
    if gateway.len() > 0 && server_ip(server_host).len() > 0 {
        seq![pin, low, high]
    } else {
        seq![low, high]
    }
}

/// The commands that set up the routes on Windows.
pub open spec fn windows_route_plan(server_host: Seq<char>, tun_gateway: Seq<char>) -> Seq<
    Seq<Seq<char>>,
> {
    seq![
        seq!["route"@, "add"@, server_ip(server_host), "mask"@, "255.255.255.255"@],
        seq!["route"@, "add"@, "0.0.0.0"@, "mask"@, "128.0.0.0"@, tun_gateway],
        seq!["route"@, "add"@, "128.0.0.0"@, "mask"@, "128.0.0.0"@, tun_gateway],
    ]
}

/// A command is shown as its program and then its arguments, each as it is.
pub proof fn law_command_is_shown_whole(command: RouteCommand, i: int)
    requires
        0 <= i < command.args@.len(),
    ensures
        command@.len() == 1 + command.args@.len(),
        command@[0] == command.program@,
        command@[1 + i] == command.args@[i]@,
{
}

/// Commands are shown in order, each as it is.
pub proof fn law_commands_are_shown_in_order(commands: Seq<RouteCommand>, i: int)
    requires
        0 <= i < commands.len(),
    ensures
        command_lines(commands).len() == commands.len(),
        command_lines(commands)[i] == commands[i]@,
{
}

/// The routes on Linux. Whatever is configured and whatever the gateway is, the last two commands
/// lead the lower and the upper half of all addresses to the device that is configured. The only
/// command before them leads to the host of the server, without its port, through the gateway; it
/// is there if and only if neither of the two is empty.
pub proof fn law_linux_routes_lead_to_device(
    host: Seq<char>,
    port: Option<Seq<char>>,
    gateway: Seq<char>,
    tun_name: Seq<char>,
)
    requires
        !host.contains(':'),
    ensures
        ({
            let server_host = match port {
                Some(port) => host + seq![':'] + port,
                None => host,
            };
            let plan = linux_route_plan(server_host, gateway, tun_name);
            let n = plan.len() as int;
            &&& 2 <= n <= 3
            &&& n == 3 <==> host.len() > 0 && gateway.len() > 0
            &&& forall|i: int|
                0 <= i < n ==> (#[trigger] plan[i]).len() == 6 && plan[i][0] == "ip"@ && plan[i][1]
                    == "route"@ && plan[i][2] == "add"@
            &&& plan[n - 2][3] == "0.0.0.0/1"@
            &&& plan[n - 2][4] == "dev"@
            &&& plan[n - 2][5] == tun_name
            &&& plan[n - 1][3] == "128.0.0.0/1"@
            &&& plan[n - 1][4] == "dev"@
            &&& plan[n - 1][5] == tun_name
            &&& forall|i: int|
                0 <= i < n - 2 ==> (#[trigger] plan[i])[3] == host && plan[i][4] == "via"@
                    && plan[i][5] == gateway
        }),
{
    let rest = match port {
        Some(port) => port,
        None => seq![],
    };
    text::law_fields_at_the_ends(host, rest, seq![], ':');
}

/// Configurations that differ in the name of the device give routes that differ, and so do
/// gateways that differ, where the server is known.
pub proof fn law_linux_routes_differ(
    server_host: Seq<char>,
    gateways: (Seq<char>, Seq<char>),
    tun_names: (Seq<char>, Seq<char>),
)
    ensures
        tun_names.0 != tun_names.1 ==> {
            let one = linux_route_plan(server_host, gateways.0, tun_names.0);
            let two = linux_route_plan(server_host, gateways.1, tun_names.1);
            one.last() != two.last() && one[one.len() - 2] != two[two.len() - 2]
        },
        gateways.0 != gateways.1 && server_host.len() > 0 && server_host[0] != ':'
            ==> linux_route_plan(server_host, gateways.0, tun_names.0) != linux_route_plan(
            server_host,
            gateways.1,
            tun_names.1,
        ),
{
    let one = linux_route_plan(server_host, gateways.0, tun_names.0);
    let two = linux_route_plan(server_host, gateways.1, tun_names.1);
    assert(one.last()[5] == tun_names.0);
    assert(two.last()[5] == tun_names.1);
    assert(one[one.len() - 2][5] == tun_names.0);
    assert(two[two.len() - 2][5] == tun_names.1);
    if gateways.0 != gateways.1 && server_host.len() > 0 && server_host[0] != ':' {
        assert(server_ip(server_host).len() > 0);
        if one.len() == 3 && two.len() == 3 {
            assert(one[0][5] == gateways.0);
            assert(two[0][5] == gateways.1);
        } else {
            assert(gateways.0.len() == 0 ==> gateways.1.len() > 0) by {
                if gateways.0.len() == 0 && gateways.1.len() == 0 {
                    assert(gateways.0 =~= gateways.1);
                }
            }
        }
    }
}

/// The routes on Windows. Whatever is configured, the first command names the host of the server,
/// without its port, on its own, and the other two lead the lower and the upper half of all
/// addresses to the gateway that is configured.
pub proof fn law_windows_routes_lead_to_gateway(
    host: Seq<char>,
    port: Option<Seq<char>>,
    tun_gateway: Seq<char>,
)
    requires
        !host.contains(':'),
    ensures
        ({
            let server_host = match port {
                Some(port) => host + seq![':'] + port,
                None => host,
            };
            let plan = windows_route_plan(server_host, tun_gateway);
            &&& plan.len() == 3
            &&& forall|i: int|
                0 <= i < 3 ==> (#[trigger] plan[i])[0] == "route"@ && plan[i][1] == "add"@
                    && plan[i][3] == "mask"@
            &&& plan[0].len() == 5
            &&& plan[0][2] == host
            &&& plan[0][4] == "255.255.255.255"@
            &&& plan[1].len() == 6
            &&& plan[1][2] == "0.0.0.0"@
            &&& plan[1][4] == "128.0.0.0"@
            &&& plan[1][5] == tun_gateway
            &&& plan[2].len() == 6
            &&& plan[2][2] == "128.0.0.0"@
            &&& plan[2][4] == "128.0.0.0"@
            &&& plan[2][5] == tun_gateway
        }),
{
    let rest = match port {
        Some(port) => port,
        None => seq![],
    };
    text::law_fields_at_the_ends(host, rest, seq![], ':');
}

/// The commands that set up the routes on Linux, where `output` is what the query for the default
/// gateway printed.
pub open spec fn linux_plan_of_output(
    server_host: Seq<char>,
    output: Seq<u8>,
    tun_name: Seq<char>,
) -> Seq<Seq<Seq<char>>> {
    linux_route_plan(server_host, text::trimmed(text::lossy_text(output), false), tun_name)
}

/// The gateway is what the query printed, without the white space around it.
pub proof fn law_gateway_is_what_was_printed(
    server_host: Seq<char>,
    before: Seq<char>,
    gateway: Seq<char>,
    after: Seq<char>,
    tun_name: Seq<char>,
)
    requires
        forall|k: int| 0 <= k < before.len() ==> text::is_white_space(#[trigger] before[k]),
        forall|k: int| 0 <= k < after.len() ==> text::is_white_space(#[trigger] after[k]),
        gateway.len() > 0 ==> !text::is_white_space(gateway[0]) && !text::is_white_space(
            gateway.last(),
        ),
    ensures
        linux_plan_of_output(server_host, encode_utf8(before + gateway + after), tun_name)
            == linux_route_plan(server_host, gateway, tun_name),
{
    text::law_encoded_text_is_decoded(before + gateway + after);
    text::law_trim_undoes_padding(before, gateway, after, false);
}

/// The commands that set up the routes on Linux for the configuration `cfg`.
pub open spec fn linux_plan_for(cfg: ClientConfig, gateway: Seq<char>) -> Seq<Seq<Seq<char>>> {
    linux_route_plan(cfg.server_host@, gateway, cfg.tun_name@)
}

/// The commands that set up the routes on Windows for the configuration `cfg`.
pub open spec fn windows_plan_for(cfg: ClientConfig) -> Seq<Seq<Seq<char>>> {
    windows_route_plan(cfg.server_host@, cfg.tun_gateway@)
}

/// For every configuration and gateway, the last two routes on Linux end in the words `dev` and
/// the name of the configured device, and the last two routes on Windows end in the configured
/// gateway. Every other command names the host of the configured server, on Linux with the
/// gateway. So configurations that differ in the device, or in the gateway of the tunnel, give
/// different commands.
pub proof fn law_routes_follow_configuration(
    cfg: ClientConfig,
    other: ClientConfig,
    gateway: Seq<char>,
)
    ensures
        ({
            let plan = linux_plan_for(cfg, gateway);
            let n = plan.len() as int;
            &&& 2 <= n <= 3
            &&& forall|i: int|
                n - 2 <= i < n ==> (#[trigger] plan[i]).len() == 6 && plan[i][4] == "dev"@
                    && plan[i][5] == cfg.tun_name@
            &&& plan[n - 2][3] == "0.0.0.0/1"@
            &&& plan[n - 1][3] == "128.0.0.0/1"@
            &&& forall|i: int|
                0 <= i < n - 2 ==> (#[trigger] plan[i])[3] == text::before_first(
                    cfg.server_host@,
                    ':',
                ) && plan[i].last() == gateway
            &&& cfg.tun_name@ != other.tun_name@ ==> plan != linux_plan_for(other, gateway)
        }),
        ({
            let plan = windows_plan_for(cfg);
            &&& plan.len() == 3
            &&& plan[0][2] == text::before_first(cfg.server_host@, ':')
            &&& plan[1].last() == cfg.tun_gateway@
            &&& plan[2].last() == cfg.tun_gateway@
            &&& cfg.tun_gateway@ != other.tun_gateway@ ==> plan != windows_plan_for(other)
        }),
{
    let one = linux_plan_for(cfg, gateway);
    let two = linux_plan_for(other, gateway);
    assert(one.last()[5] == cfg.tun_name@);
    assert(two.last()[5] == other.tun_name@);
    assert(windows_plan_for(cfg)[2].last() == cfg.tun_gateway@);
    assert(windows_plan_for(other)[2].last() == other.tun_gateway@);
}

/// `ip route add <net> <how> <to>`.
fn ip_route_add(net: &str, how: &str, to: &str) -> (command: RouteCommand)
    ensures
        command@ == seq!["ip"@, "route"@, "add"@, net@, how@, to@],
{
    let mut args: Vec<String> = Vec::new();
    args.push("route".to_string());
    args.push("add".to_string());
    args.push(net.to_string());
    args.push(how.to_string());
    args.push(to.to_string());
    let command = RouteCommand { program: "ip".to_string(), args };
    assert(command@ =~= seq!["ip"@, "route"@, "add"@, net@, how@, to@]);
    command
}

/// `route add <net> mask <mask>`, without a gateway.
fn route_add(net: &str, mask: &str) -> (command: RouteCommand)
    ensures
        command@ == seq!["route"@, "add"@, net@, "mask"@, mask@],
{
    let mut args: Vec<String> = Vec::new();
    args.push("add".to_string());
    args.push(net.to_string());
    args.push("mask".to_string());
    args.push(mask.to_string());
    let command = RouteCommand { program: "route".to_string(), args };
    assert(command@ =~= seq!["route"@, "add"@, net@, "mask"@, mask@]);
    command
}

/// `route add <net> mask <mask> <gateway>`.
fn route_add_via(net: &str, mask: &str, gateway: &str) -> (command: RouteCommand)
    ensures
        command@ == seq!["route"@, "add"@, net@, "mask"@, mask@, gateway@],
{
    let mut command = route_add(net, mask);
    let ghost before = command;
    command.args.push(gateway.to_string());
    assert(command@ =~= before@.push(gateway@));
    assert(command@ =~= seq!["route"@, "add"@, net@, "mask"@, mask@, gateway@]);
    command
}

/// The commands that set up the routes on Linux, where `gateway` is the address of the default
/// gateway, or empty.
pub fn linux_routes_via(cfg: &ClientConfig, gateway: &str) -> (commands: Vec<RouteCommand>)
    ensures
        command_lines(commands@) == linux_plan_for(*cfg, gateway@),
        command_lines(commands@) == linux_route_plan(
            cfg.server_host@,
            gateway@,
            cfg.tun_name@,
        ),
{
    let server: String = text::first_field(cfg.server_host.as_str(), ':');
    let mut commands: Vec<RouteCommand> = Vec::new();
    if !gateway.is_empty() && !server.as_str().is_empty() {
        commands.push(ip_route_add(server.as_str(), "via", gateway));
    }
    commands.push(ip_route_add("0.0.0.0/1", "dev", cfg.tun_name.as_str()));
    commands.push(ip_route_add("128.0.0.0/1", "dev", cfg.tun_name.as_str()));
    assert(command_lines(commands@) =~= linux_route_plan(
        cfg.server_host@,
        gateway@,
        cfg.tun_name@,
    ));
    commands
}

/// The commands that set up the routes on Linux, where `gateway_output` is what the query for
/// the default gateway printed.
pub fn linux_routes(cfg: &ClientConfig, gateway_output: &[u8]) -> (commands: Vec<RouteCommand>)
    ensures
        command_lines(commands@) == linux_plan_of_output(
            cfg.server_host@,
            gateway_output@,
            cfg.tun_name@,
        ),
        command_lines(commands@) == linux_route_plan(
            cfg.server_host@,
            text::trimmed(text::lossy_text(gateway_output@), false),
            cfg.tun_name@,
        ),
{
    let gateway: String = text::trim(text::decode_lossy(gateway_output).as_str(), false);
    linux_routes_via(cfg, gateway.as_str())
}

/// The commands that set up the routes on Windows.
pub fn windows_routes(cfg: &ClientConfig) -> (commands: Vec<RouteCommand>)
    ensures
        command_lines(commands@) == windows_plan_for(*cfg),
        command_lines(commands@) == windows_route_plan(cfg.server_host@, cfg.tun_gateway@),
{
    let server: String = text::first_field(cfg.server_host.as_str(), ':');
    let gateway: &str = cfg.tun_gateway.as_str();
    let mut commands: Vec<RouteCommand> = Vec::new();
    commands.push(route_add(server.as_str(), "255.255.255.255"));
    commands.push(route_add_via("0.0.0.0", "128.0.0.0", gateway));
    commands.push(route_add_via("128.0.0.0", "128.0.0.0", gateway));
    assert(command_lines(commands@) =~= windows_route_plan(cfg.server_host@, cfg.tun_gateway@));
    commands
}

} // verus!
