use meetwo::commands::{
    list_reply, list_step, log_freshness, parse_player_list, player_list_from_captures, pong_reply,
    relay_command, relay_text, status_embed, status_line, status_report, stop_reply, stop_step, CommandStep, Data,
    PlayerListPattern,
};
use meetwo::config::{ConfigError, ServerConfig};
use meetwo::decimal::IntErrorKind;
use meetwo::rcon::{rcon_args, rcon_failure_message, rcon_output};

fn env(pairs: &[(&str, &str)]) -> Vec<(String, String)> {
    pairs.iter().map(|(k, v)| (k.to_string(), v.to_string())).collect()
}

fn two_servers() -> Vec<(String, String)> {
    env(&[
        ("DISCORD_TOKEN", "xxxxxxxx"),
        ("SERVER_COUNT", "2"),
        ("SERVER_1_NAME", "server1"),
        ("SERVER_1_CHANNEL_ID", "1517703749118853250"),
        ("SERVER_1_LOG_PATH", "/app/logs_1/latest.log"),
        ("SERVER_1_RCON_HOST", "host.docker.internal"),
        ("SERVER_1_RCON_PORT", "25577"),
        ("SERVER_1_RCON_PASSWORD", "null"),
        ("SERVER_2_NAME", "server2"),
        ("SERVER_2_CHANNEL_ID", "42"),
        ("SERVER_2_LOG_PATH", "/app/logs_2/latest.log"),
        ("SERVER_2_RCON_HOST", "host.docker.internal"),
        ("SERVER_2_RCON_PORT", "25576"),
        ("SERVER_2_RCON_PASSWORD", "null"),
    ])
}

fn without(mut e: Vec<(String, String)>, key: &str) -> Vec<(String, String)> {
    e.retain(|(k, _)| k != key);
    e
}

fn with(mut e: Vec<(String, String)>, key: &str, value: &str) -> Vec<(String, String)> {
    for (k, v) in e.iter_mut() {
        if k == key {
            *v = value.to_string();
        }
    }
    e
}

fn message_of(r: Result<Vec<ServerConfig>, ConfigError>) -> String {
    match r {
        Ok(_) => panic!("expected an error"),
        Err(e) => e.message(),
    }
}

#[test]
fn loads_every_configured_server_in_order() {
    let servers = ServerConfig::load_all_from_env(&two_servers()).unwrap();
    assert_eq!(servers.len(), 2);
    assert_eq!(servers[0].name, "server1");
    assert_eq!(servers[0].channel_id, 1517703749118853250);
    assert_eq!(servers[0].log_path, "/app/logs_1/latest.log");
    assert_eq!(servers[0].rcon_host, "host.docker.internal");
    assert_eq!(servers[0].rcon_port, 25577);
    assert_eq!(servers[0].rcon_password, "null");
    assert_eq!(servers[1].name, "server2");
    assert_eq!(servers[1].channel_id, 42);
    assert_eq!(servers[1].rcon_port, 25576);
    let copy = servers[1].clone();
    assert_eq!(copy.log_path, "/app/logs_2/latest.log");
}

#[test]
fn zero_servers_is_an_empty_list() {
    let e = env(&[("SERVER_COUNT", "0")]);
    assert_eq!(ServerConfig::load_all_from_env(&e).unwrap().len(), 0);
}

#[test]
fn missing_count_is_reported() {
    let e = without(two_servers(), "SERVER_COUNT");
    assert_eq!(message_of(ServerConfig::load_all_from_env(&e)), "missing SERVER_COUNT");
}

#[test]
fn invalid_count_is_reported() {
    let e = with(two_servers(), "SERVER_COUNT", "two");
    assert!(matches!(ServerConfig::load_all_from_env(&e), Err(ConfigError::InvalidCount)));
    assert_eq!(message_of(ServerConfig::load_all_from_env(&e)), "invalid SERVER_COUNT");
}

#[test]
fn missing_server_variable_names_it() {
    let e = without(two_servers(), "SERVER_2_NAME");
    assert_eq!(message_of(ServerConfig::load_all_from_env(&e)), "missing SERVER_2_NAME");
    let e = with(two_servers(), "SERVER_COUNT", "3");
    assert_eq!(message_of(ServerConfig::load_all_from_env(&e)), "missing SERVER_3_NAME");
}

#[test]
fn first_problem_wins() {
    let e = without(without(two_servers(), "SERVER_1_RCON_PASSWORD"), "SERVER_2_NAME");
    assert_eq!(message_of(ServerConfig::load_all_from_env(&e)), "missing SERVER_1_RCON_PASSWORD");
    let e = with(without(two_servers(), "SERVER_1_LOG_PATH"), "SERVER_1_CHANNEL_ID", "x");
    assert_eq!(message_of(ServerConfig::load_all_from_env(&e)), "invalid digit found in string");
}

#[test]
fn bad_numbers_are_reported() {
    let e = with(two_servers(), "SERVER_1_RCON_PORT", "70000");
    assert!(matches!(
        ServerConfig::load_all_from_env(&e),
        Err(ConfigError::InvalidNumber(IntErrorKind::PosOverflow))
    ));
    assert_eq!(
        message_of(ServerConfig::load_all_from_env(&e)),
        "number too large to fit in target type"
    );
    let e = with(two_servers(), "SERVER_2_CHANNEL_ID", "");
    assert_eq!(
        message_of(ServerConfig::load_all_from_env(&e)),
        "cannot parse integer from empty string"
    );
}

#[test]
fn from_env_reads_one_server() {
    let c = ServerConfig::from_env(&two_servers(), 2).unwrap();
    assert_eq!(c.name, "server2");
    assert!(matches!(ServerConfig::from_env(&two_servers(), 3), Err(ConfigError::Missing(_))));
}

fn data() -> Data {
    Data { servers: ServerConfig::load_all_from_env(&two_servers()).unwrap() }
}

#[test]
fn find_server_by_channel() {
    let d = data();
    assert_eq!(d.find_server(42), Some(1));
    assert_eq!(d.find_server(1517703749118853250), Some(0));
    assert_eq!(d.find_server(7), None);
    let mut twice = data();
    twice.servers[1].channel_id = 1517703749118853250;
    assert_eq!(twice.find_server(1517703749118853250), Some(0));
}

#[test]
fn list_and_stop_steps() {
    let d = data();
    match list_step(&d, 42) {
        CommandStep::Rcon { server, command } => {
            assert_eq!(server, 1);
            assert_eq!(command, "list");
        },
        CommandStep::Reply(_) => panic!("expected a server command"),
    }
    match stop_step(&d, 1517703749118853250) {
        CommandStep::Rcon { server, command } => {
            assert_eq!(server, 0);
            assert_eq!(command, "stop");
        },
        CommandStep::Reply(_) => panic!("expected a server command"),
    }
    match list_step(&d, 5) {
        CommandStep::Reply(t) => assert_eq!(t, "このチャンネルに紐づいたサーバーが見つかりません"),
        CommandStep::Rcon { .. } => panic!("expected a reply"),
    }
    match stop_step(&d, 5) {
        CommandStep::Reply(t) => assert_eq!(t, "このチャンネルに紐づいたサーバーが見つかりません"),
        CommandStep::Rcon { .. } => panic!("expected a reply"),
    }
}

#[test]
fn command_replies() {
    assert_eq!(list_reply(&Ok("There are 0 of a max of 20 players online:".to_string())),
        "There are 0 of a max of 20 players online:");
    assert_eq!(list_reply(&Err("boom".to_string())), "だめでした: boom");
    assert_eq!(stop_reply("server1", &Ok(String::new())), "server1を停止しました");
    assert_eq!(stop_reply("server1", &Err("boom".to_string())), "だめでした: boom");
    assert_eq!(pong_reply(), "MinecraftサーバーのログをDiscordに転送し、コマンドでサーバーに指示を送れるbot");
}

#[test]
fn chat_messages_are_relayed_as_say() {
    let d = data();
    assert_eq!(relay_command(&d, 42, false, "alice", "hi all"), Some((1, "say alice: hi all".to_string())));
    assert_eq!(relay_command(&d, 42, true, "bot", "hi"), None);
    assert_eq!(relay_command(&d, 9, false, "alice", "hi"), None);
    assert_eq!(relay_text("alice", "hi"), "alice: hi");
}

#[test]
fn log_age_in_words() {
    assert_eq!(log_freshness(None), "不明");
    assert_eq!(log_freshness(Some(0)), "0秒前");
    assert_eq!(log_freshness(Some(59)), "59秒前");
    assert_eq!(log_freshness(Some(60)), "1分前");
    assert_eq!(log_freshness(Some(3599)), "59分前");
    assert_eq!(log_freshness(Some(3600)), "1時間前");
    assert_eq!(log_freshness(Some(86399)), "23時間前");
    assert_eq!(log_freshness(Some(86400)), "1日前");
    assert_eq!(log_freshness(Some(10 * 86400 + 5)), "10日前");
}

#[test]
fn player_list_is_read_from_the_answer() {
    let p = PlayerListPattern::new().unwrap();
    assert_eq!(
        parse_player_list(&p, "There are 2 of a max of 20 players online: Steve, Alex"),
        ("2/20人".to_string(), Some("Steve, Alex".to_string()))
    );
    assert_eq!(
        parse_player_list(&p, "There are 0 of a max of 20 players online:"),
        ("0/20人".to_string(), None)
    );
    assert_eq!(parse_player_list(&p, "no idea"), ("no idea".to_string(), None));
}

#[test]
fn player_list_from_given_groups() {
    let caps = Some(vec![
        Some("whole".to_string()),
        Some("1".to_string()),
        Some("10".to_string()),
        Some("  Steve ".to_string()),
    ]);
    assert_eq!(player_list_from_captures("whole", &caps), ("1/10人".to_string(), Some("Steve".to_string())));
    assert_eq!(player_list_from_captures("x", &None), ("x".to_string(), None));
}

#[test]
fn status_cards() {
    let p = PlayerListPattern::new().unwrap();
    let up = status_embed(
        &p,
        "server1",
        &Some("There are 1 of a max of 20 players online: Steve".to_string()),
        "3秒前",
    );
    assert_eq!(up.title, "🟢 server1");
    assert_eq!(up.color, (46, 204, 113));
    let fields: Vec<(String, String, bool)> =
        up.fields.into_iter().map(|f| (f.name, f.value, f.inline)).collect();
    assert_eq!(
        fields,
        vec![
            ("プレイヤー".to_string(), "1/20人".to_string(), true),
            ("最終ログ更新".to_string(), "3秒前".to_string(), true),
            ("参加者".to_string(), "Steve".to_string(), false),
        ]
    );
    let down = status_embed(&p, "server2", &None, "不明");
    assert_eq!(down.title, "🔴 server2");
    assert_eq!(down.color, (231, 76, 60));
    let fields: Vec<(String, String, bool)> =
        down.fields.into_iter().map(|f| (f.name, f.value, f.inline)).collect();
    assert_eq!(
        fields,
        vec![
            ("状態".to_string(), "応答なし".to_string(), true),
            ("最終ログ更新".to_string(), "不明".to_string(), true),
        ]
    );
}

#[test]
fn rcon_invocation_and_output() {
    let d = data();
    assert_eq!(
        rcon_args(&d.servers[0], "say hi"),
        vec!["-H", "host.docker.internal", "-P", "25577", "-p", "null", "say hi"]
    );
    assert_eq!(
        rcon_output("  \u{1b}[0mThere are 0 of a max of 20 players online:\u{1b}[0m\n"),
        "There are 0 of a max of 20 players online:"
    );
    assert_eq!(rcon_output("plain"), "plain");
    assert_eq!(
        rcon_failure_message("exit status: 1", "Connection failed."),
        "mcrcon exited with exit status: 1: Connection failed."
    );
}

#[test]
fn status_report_lines() {
    assert_eq!(status_line("server1", &Some("There are 0 of a max of 20 players online:".to_string())),
        "🟢 server1: 起動中 (There are 0 of a max of 20 players online:)");
    assert_eq!(status_line("server2", &None), "🔴 server2: 応答なし");
    let entries = vec![
        ("server1".to_string(), Some("ok".to_string())),
        ("server2".to_string(), None),
    ];
    assert_eq!(status_report(&entries), "🟢 server1: 起動中 (ok)\n🔴 server2: 応答なし");
    assert_eq!(status_report(&[]), "");
}

#[test]
fn older_logs_never_read_as_newer() {
    fn rank(t: &str) -> (u32, u64) {
        let (num, unit) = t.split_at(t.find(|c: char| !c.is_ascii_digit()).unwrap());
        let u = match unit {
            "秒前" => 0,
            "分前" => 1,
            "時間前" => 2,
            "日前" => 3,
            _ => panic!("unexpected unit"),
        };
        (u, num.parse().unwrap())
    }
    let samples = [0u64, 1, 59, 60, 61, 119, 120, 3599, 3600, 7199, 86399, 86400, 172800, 999999];
    for a in samples {
        for b in samples {
            if a <= b {
                assert!(rank(&log_freshness(Some(a))) <= rank(&log_freshness(Some(b))));
            }
        }
    }
}

#[test]
fn player_names_are_trimmed_runs_of_the_answer() {
    let p = PlayerListPattern::new().unwrap();
    let answer = "There are 2 of a max of 20 players online:   Steve, Alex   ";
    let (count, names) = parse_player_list(&p, answer);
    let names = names.unwrap();
    assert_eq!(names, "Steve, Alex");
    assert_eq!(names.trim(), names);
    assert!(answer.contains(names.as_str()));
    assert!(count.ends_with("人"));
}
