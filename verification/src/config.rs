//! The configuration, and the choice between server and client.

use vstd::prelude::*;
use vstd::string::*;
use vstd::utf8::*;

use crate::text;

verus! {

/// The configuration of the program.
#[derive(Debug, Clone)]
pub struct Config {
    /// `server`, `client` or `ask`.
    pub mode: String,
    pub server: ServerConfig,
    pub client: ClientConfig,
}

/// The configuration of the server.
#[derive(Debug, Clone)]
pub struct ServerConfig {
    pub bind_addr: String,
    pub wallet_path: String,
    pub tun_enabled: bool,
    pub tun_name: String,
    pub tun_ip: String,
}

/// The configuration of the client.
#[derive(Debug, Clone)]
pub struct ClientConfig {
    pub server_host: String,
    /// `socks5` or `tun`.
    pub routing_mode: String,
    pub socks_bind_addr: String,
    pub tun_name: String,
    pub tun_ip: String,
    pub tun_gateway: String,
}

impl Default for Config {
    fn default() -> (config: Self)
        ensures
            config.mode@ == "ask"@,
            config.server.bind_addr@ == "0.0.0.0:8888"@,
            config.server.wallet_path@ == "server.wallet"@,
            config.server.tun_enabled,
            config.server.tun_name@ == "typroxy-srv"@,
            config.server.tun_ip@ == "10.8.0.1"@,
            config.client.server_host@ == "127.0.0.1:8888"@,
            config.client.routing_mode@ == "socks5"@,
            config.client.socks_bind_addr@ == "127.0.0.1:1080"@,
            config.client.tun_name@ == "typroxy-tun"@,
            config.client.tun_ip@ == "10.8.0.2"@,
            config.client.tun_gateway@ == "10.8.0.1"@,
    {
        Config {
            mode: "ask".to_string(),
            server: ServerConfig {
                bind_addr: "0.0.0.0:8888".to_string(),
                wallet_path: "server.wallet".to_string(),
                tun_enabled: true,
                tun_name: "typroxy-srv".to_string(),
                tun_ip: "10.8.0.1".to_string(),
            },
            client: ClientConfig {
                server_host: "127.0.0.1:8888".to_string(),
                routing_mode: "socks5".to_string(),
                socks_bind_addr: "127.0.0.1:1080".to_string(),
                tun_name: "typroxy-tun".to_string(),
                tun_ip: "10.8.0.2".to_string(),
                tun_gateway: "10.8.0.1".to_string(),
            },
        }
    }
}

/// The text of a new configuration file: the default configuration, with comments.
pub const CONFIG_TEMPLATE: &'static str = r#"# Режим запуска: "server", "client" или "ask"
        mode = "ask"

        [server]
        bind_addr = "0.0.0.0:8888"
        wallet_path = "server.wallet"
        tun_enabled = true
        tun_name = "typroxy-srv"
        tun_ip = "10.8.0.1"

        [client]
        server_host = "127.0.0.1:8888"
        # routing_mode: "socks5" или "tun"
        routing_mode = "socks5"
        socks_bind_addr = "127.0.0.1:1080"

        # Настройки для TUN режима (требуются root/admin права) (не работает в Termux билде без ROOT прав)
        tun_name = "typroxy-tun"
        tun_ip = "10.8.0.2"
        tun_gateway = "10.8.0.1"
        "#;

// ---------------------------------------------------------------------------------------------
// Server or client
// ---------------------------------------------------------------------------------------------

/// The mode that a lower-case name stands for, if it names one.
pub open spec fn mode_of_name(name: Seq<char>) -> Option<Seq<char>> {
    if name == "server"@ {
        Some("server"@)
    } else if name == "client"@ {
        Some("client"@)
    } else {
        None
    }
}

/// The mode that an answer to the question for it stands for: `2` is the client, and anything
/// else the server.
pub open spec fn mode_of_answer(answer: Seq<char>) -> Seq<char> {
    if text::trimmed(answer, false) == "2"@ {
        "client"@
    } else {
        "server"@
    }
}

/// A name that stands for a mode is the name of that mode, and there are two modes.
pub proof fn law_modes_are_named_as_they_are(name: Seq<char>)
    ensures
        mode_of_name(name) is Some <==> name == seq!['s', 'e', 'r', 'v', 'e', 'r'] || name == seq![
            'c',
            'l',
            'i',
            'e',
            'n',
            't',
        ],
        mode_of_name(name) matches Some(mode) ==> mode == name,
{
    reveal_strlit("server");
    reveal_strlit("client");
    assert("server"@ =~= seq!['s', 'e', 'r', 'v', 'e', 'r']);
    assert("client"@ =~= seq!['c', 'l', 'i', 'e', 'n', 't']);
}

/// The mode that is configured as `configured`, in upper or lower case, if it names one.
pub open spec fn configured_mode(configured: Seq<char>) -> Option<Seq<char>> {
    mode_of_name(text::lowercase(configured))
}

/// An ASCII name without upper-case letters is configured as what it stands for.
pub proof fn law_lower_case_name_is_configured(name: Seq<char>)
    requires
        is_ascii_chars(name),
        forall|i: int| 0 <= i < name.len() ==> !(65 <= #[trigger] name[i] as int <= 90),
    ensures
        configured_mode(name) == mode_of_name(name),
{
    let lower = text::lowercase(name);
    assert forall|i: int| 0 <= i < name.len() implies lower[i] == name[i] by {
        text::law_lowercase_letter_by_letter(name, i);
    }
    assert(lower =~= name);
}

/// Upper and lower case make no difference to which mode an ASCII name stands for.
pub proof fn law_mode_ignores_case(a: Seq<char>, b: Seq<char>)
    requires
        is_ascii_chars(a),
        is_ascii_chars(b),
        a.len() == b.len(),
        forall|i: int|
            0 <= i < a.len() ==> {
                ||| #[trigger] a[i] == b[i]
                ||| 65 <= a[i] as int <= 90 && b[i] as int == a[i] as int + 32
                ||| 65 <= b[i] as int <= 90 && a[i] as int == b[i] as int + 32
            },
    ensures
        configured_mode(a) == configured_mode(b),
{
    let lower_a = text::lowercase(a);
    let lower_b = text::lowercase(b);
    assert forall|i: int| 0 <= i < a.len() implies lower_a[i] == lower_b[i] by {
        text::law_lowercase_letter_by_letter(a, i);
        text::law_lowercase_letter_by_letter(b, i);
        assert(lower_a[i] as int == lower_b[i] as int);
    }
    assert(lower_a =~= lower_b);
}

/// The answer `2`, with any white space around it, stands for the client, and every other answer
/// for the server.
pub proof fn law_only_two_answers_client(
    before: Seq<char>,
    answer: Seq<char>,
    after: Seq<char>,
)
    requires
        forall|k: int| 0 <= k < before.len() ==> text::is_white_space(#[trigger] before[k]),
        forall|k: int| 0 <= k < after.len() ==> text::is_white_space(#[trigger] after[k]),
        answer.len() > 0 ==> !text::is_white_space(answer[0]) && !text::is_white_space(
            answer.last(),
        ),
    ensures
        ({
            let mode = mode_of_answer(before + answer + after);
            &&& answer == seq!['2'] ==> mode == seq!['c', 'l', 'i', 'e', 'n', 't']
            &&& answer != seq!['2'] ==> mode == seq!['s', 'e', 'r', 'v', 'e', 'r']
        }),
{
    reveal_strlit("2");
    reveal_strlit("server");
    reveal_strlit("client");
    assert("2"@ =~= seq!['2']);
    assert("server"@ =~= seq!['s', 'e', 'r', 'v', 'e', 'r']);
    assert("client"@ =~= seq!['c', 'l', 'i', 'e', 'n', 't']);
    text::law_trim_undoes_padding(before, answer, after, false);
}

/// The mode that the lower-case name `name` stands for, if it names one.
pub fn select_named_mode(name: &str) -> (mode: Option<String>)
    ensures
        match mode {
            Some(mode) => mode_of_name(name@) == Some(mode@),
            None => mode_of_name(name@) is None,
        },
{
    if text::same_text(name, "server") {
        Some("server".to_string())
    } else if text::same_text(name, "client") {
        Some("client".to_string())
    } else {
        None
    }
}

/// The mode that is configured as `configured_mode`, in upper or lower case, if it names one.
/// Otherwise the user is to be asked.
pub fn select_mode(configured_mode: &str) -> (mode: Option<String>)
    ensures
        match mode {
            Some(mode) => self::configured_mode(configured_mode@) == Some(mode@),
            None => self::configured_mode(configured_mode@) is None,
        },
        match mode {
            Some(mode) => mode_of_name(text::lowercase(configured_mode@)) == Some(mode@),
            None => mode_of_name(text::lowercase(configured_mode@)) is None,
        },
{
    select_named_mode(text::lower_text(configured_mode).as_str())
}

/// The mode that the line `answer`, typed by the user, stands for.
pub fn select_answered_mode(answer: &str) -> (mode: String)
    ensures
        mode@ == mode_of_answer(answer@),
{
    if text::same_text(text::trim(answer, false).as_str(), "2") {
        "client".to_string()
    } else {
        "server".to_string()
    }
}

/// Whether the selected mode runs the client. Any other mode runs the server.
pub fn runs_client(selected_mode: &str) -> (client: bool)
    ensures
        client == (selected_mode@ == "client"@),
{
    text::same_text(selected_mode, "client")
}

} // verus!
