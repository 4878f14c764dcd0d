use typroxy::client::{routing_mode, routing_mode_of_name, RoutingMode};
use typroxy::config::{
    runs_client, select_answered_mode, select_mode, select_named_mode, ClientConfig, Config,
    CONFIG_TEMPLATE,
};
use typroxy::modules::tun::{linux_routes, linux_routes_via, windows_routes, RouteCommand};
use typroxy::tls::{alpn_protocols, server_name};

#[test]
fn template_holds_the_default_configuration() {
    let table: toml::Table = CONFIG_TEMPLATE.parse().unwrap();
    let config = Config::default();
    let text = |section: &str, name: &str| table[section][name].as_str().unwrap().to_string();
    assert_eq!(table["mode"].as_str().unwrap(), config.mode);
    assert_eq!(text("server", "bind_addr"), config.server.bind_addr);
    assert_eq!(text("server", "wallet_path"), config.server.wallet_path);
    assert_eq!(
        table["server"]["tun_enabled"].as_bool().unwrap(),
        config.server.tun_enabled
    );
    assert_eq!(text("server", "tun_name"), config.server.tun_name);
    assert_eq!(text("server", "tun_ip"), config.server.tun_ip);
    assert_eq!(text("client", "server_host"), config.client.server_host);
    assert_eq!(text("client", "routing_mode"), config.client.routing_mode);
    assert_eq!(text("client", "socks_bind_addr"), config.client.socks_bind_addr);
    assert_eq!(text("client", "tun_name"), config.client.tun_name);
    assert_eq!(text("client", "tun_ip"), config.client.tun_ip);
    assert_eq!(text("client", "tun_gateway"), config.client.tun_gateway);
}

#[test]
fn default_configuration() {
    let config = Config::default();
    assert_eq!(config.mode, "ask");
    assert_eq!(config.server.bind_addr, "0.0.0.0:8888");
    assert_eq!(config.server.wallet_path, "server.wallet");
    assert!(config.server.tun_enabled);
    assert_eq!(config.server.tun_name, "typroxy-srv");
    assert_eq!(config.server.tun_ip, "10.8.0.1");
    assert_eq!(config.client.server_host, "127.0.0.1:8888");
    assert_eq!(config.client.routing_mode, "socks5");
    assert_eq!(config.client.socks_bind_addr, "127.0.0.1:1080");
    assert_eq!(config.client.tun_name, "typroxy-tun");
    assert_eq!(config.client.tun_ip, "10.8.0.2");
    assert_eq!(config.client.tun_gateway, "10.8.0.1");
    assert_eq!(select_mode(&config.mode), None);
    assert_eq!(routing_mode(&config.client.routing_mode), RoutingMode::Socks5);
}

#[test]
fn mode_is_read_in_any_case() {
    assert_eq!(select_mode("server"), Some("server".to_string()));
    assert_eq!(select_mode("SERVER"), Some("server".to_string()));
    assert_eq!(select_mode("Client"), Some("client".to_string()));
    assert_eq!(select_mode("cLIENT"), Some("client".to_string()));
    assert_eq!(select_mode("ask"), None);
    assert_eq!(select_mode(" server"), None);
    assert_eq!(select_mode(""), None);
    assert_eq!(select_mode("SERVERÄ"), None);
    assert_eq!(select_named_mode("SERVER"), None);
}

#[test]
fn answers() {
    assert_eq!(select_answered_mode("2\n"), "client");
    assert_eq!(select_answered_mode("  2 \r\n"), "client");
    assert_eq!(select_answered_mode("1\n"), "server");
    assert_eq!(select_answered_mode(""), "server");
    assert_eq!(select_answered_mode("22"), "server");
    assert_eq!(select_answered_mode("client"), "server");
}

#[test]
fn only_client_runs_the_client() {
    assert!(runs_client("client"));
    assert!(!runs_client("server"));
    assert!(!runs_client("Client"));
}

#[test]
fn routing_modes() {
    assert_eq!(routing_mode("tun"), RoutingMode::Tun);
    assert_eq!(routing_mode("TUN"), RoutingMode::Tun);
    assert_eq!(routing_mode("tUn"), RoutingMode::Tun);
    assert_eq!(routing_mode("socks5"), RoutingMode::Socks5);
    assert_eq!(routing_mode("tun "), RoutingMode::Socks5);
    assert_eq!(routing_mode("TÜN"), RoutingMode::Socks5);
    assert_eq!(routing_mode(""), RoutingMode::Socks5);
    assert_eq!(routing_mode_of_name("TUN"), RoutingMode::Socks5);
}

fn client(server_host: &str) -> ClientConfig {
    ClientConfig {
        server_host: server_host.to_string(),
        ..Config::default().client
    }
}

fn lines(commands: Vec<RouteCommand>) -> Vec<String> {
    commands
        .iter()
        .map(|command| format!("{} {}", command.program, command.args.join(" ")))
        .collect()
}

#[test]
fn linux_routes_pin_the_server() {
    assert_eq!(
        lines(linux_routes(&client("203.0.113.7:8888"), b"192.168.1.1\n")),
        vec![
            "ip route add 203.0.113.7 via 192.168.1.1",
            "ip route add 0.0.0.0/1 dev typroxy-tun",
            "ip route add 128.0.0.0/1 dev typroxy-tun",
        ]
    );
}

#[test]
fn linux_routes_without_gateway_or_server() {
    let rest = vec![
        "ip route add 0.0.0.0/1 dev typroxy-tun",
        "ip route add 128.0.0.0/1 dev typroxy-tun",
    ];
    assert_eq!(lines(linux_routes(&client("203.0.113.7:8888"), b" \n")), rest);
    assert_eq!(lines(linux_routes(&client(":8888"), b"192.168.1.1")), rest);
    assert_eq!(lines(linux_routes_via(&client(""), "192.168.1.1")), rest);
}

#[test]
fn linux_routes_repair_the_gateway_text() {
    assert_eq!(
        lines(linux_routes(&client("h:1"), b"10.\xFF\n"))[0],
        "ip route add h via 10.\u{FFFD}"
    );
}

#[test]
fn windows_routes_go_through_the_tunnel() {
    assert_eq!(
        lines(windows_routes(&client("203.0.113.7:8888"))),
        vec![
            "route add 203.0.113.7 mask 255.255.255.255",
            "route add 0.0.0.0 mask 128.0.0.0 10.8.0.1",
            "route add 128.0.0.0 mask 128.0.0.0 10.8.0.1",
        ]
    );
}

#[test]
fn tls_names() {
    assert_eq!(server_name().unwrap().to_str(), "typroxy");
    assert_eq!(alpn_protocols(), vec![b"typroxy".to_vec()]);
}
