//! What the bot's chat commands and message relay decide: which server a
//! channel belongs to, what to run on it, and what to answer.
use vstd::prelude::*;
use crate::config::{ServerConfig, ServerSpec};
use crate::decimal::{decimal, decimal_spec};
use crate::pattern::{regex_captures_of, regex_compiles, Groups, Pattern, PatternError};
use crate::text::{
    chars_of, ends_with_spec, is_substring, lemma_trim_idempotent, lemma_trim_is_substring, owned, push_str, string_of, trim, trim_spec,
};

verus! {

/// Answer when no server is tied to the channel.
pub const NOT_FOUND_REPLY: &'static str = "このチャンネルに紐づいたサーバーが見つかりません";

/// Start of the answer when a server command failed.
pub const FAILURE_PREFIX: &'static str = "だめでした: ";

/// End of the answer when a server was stopped.
pub const STOPPED_SUFFIX: &'static str = "を停止しました";

/// Answer of the help command.
pub const PONG_REPLY: &'static str =
    "MinecraftサーバーのログをDiscordに転送し、コマンドでサーバーに指示を送れるbot";

/// The server command that lists the players online.
pub const LIST_COMMAND: &'static str = "list";

/// The server command that stops the server.
pub const STOP_COMMAND: &'static str = "stop";

/// Start of the server command that relays a chat message.
pub const SAY_PREFIX: &'static str = "say ";

/// Between the author and the text of a relayed message.
pub const RELAY_SEPARATOR: &'static str = ": ";

/// The settings every command sees: the watched servers.
pub struct Data {
    pub servers: Vec<ServerConfig>,
}

/// Position of the first server tied to `channel_id`, or -1.
pub open spec fn find_server_from(servers: Seq<ServerSpec>, channel_id: u64, i: int) -> int
    decreases servers.len() - i,
{
    if i < 0 || i >= servers.len() {
        -1
    } else if servers[i].channel_id == channel_id {
        i
    } else {
        find_server_from(servers, channel_id, i + 1)
    }
}

/// Position of the first server tied to `channel_id`, or -1.
pub open spec fn find_server_spec(servers: Seq<ServerSpec>, channel_id: u64) -> int {
    find_server_from(servers, channel_id, 0)
}

proof fn lemma_find_server_skip(servers: Seq<ServerSpec>, channel_id: u64, i: int)
    requires
        0 <= i <= servers.len(),
        forall|j: int| 0 <= j < i ==> servers[j].channel_id != channel_id,
    ensures
        find_server_from(servers, channel_id, 0) == find_server_from(servers, channel_id, i),
    decreases i,
{
    if i > 0 {
        lemma_find_server_skip(servers, channel_id, i - 1);
    }
}

/// The first position in `servers` whose channel is `channel_id`, or -1 where
/// there is none; it is always -1 or a position whose channel matches.
pub proof fn lemma_find_server_is_first_match(servers: Seq<ServerSpec>, channel_id: u64)
    ensures
        find_server_spec(servers, channel_id) == -1 || (0 <= find_server_spec(servers, channel_id)
            < servers.len() && servers[find_server_spec(servers, channel_id)].channel_id
            == channel_id && forall|j: int|
            0 <= j < find_server_spec(servers, channel_id) ==> servers[j].channel_id
                != channel_id),
        find_server_spec(servers, channel_id) == -1 <==> forall|j: int|
            0 <= j < servers.len() ==> servers[j].channel_id != channel_id,
{
    lemma_find_server_range(servers, channel_id, 0);
}

proof fn lemma_find_server_range(servers: Seq<ServerSpec>, channel_id: u64, i: int)
    requires
        0 <= i,
    ensures
        find_server_from(servers, channel_id, i) == -1 || (i <= find_server_from(
            servers,
            channel_id,
            i,
        ) < servers.len() && servers[find_server_from(servers, channel_id, i)].channel_id
            == channel_id && forall|j: int|
            i <= j < find_server_from(servers, channel_id, i) ==> servers[j].channel_id
                != channel_id),
        find_server_from(servers, channel_id, i) == -1 <==> forall|j: int|
            i <= j < servers.len() ==> servers[j].channel_id != channel_id,
    decreases servers.len() - i,
{
    if i < servers.len() && servers[i].channel_id != channel_id {
        lemma_find_server_range(servers, channel_id, i + 1);
    }
}

impl Data {
    /// The views of the watched servers.
    pub open spec fn servers_view(&self) -> Seq<ServerSpec> {
        crate::config::servers_view(self.servers@)
    }

    /// Position of the first server tied to `channel_id`.
    pub fn find_server(&self, channel_id: u64) -> (r: Option<usize>)
        ensures
            match r {
                Some(i) => find_server_spec(self.servers_view(), channel_id) == i as int,
                None => find_server_spec(self.servers_view(), channel_id) == -1,
            },
    {
        let mut i: usize = 0;
        while i < self.servers.len()
            invariant
                i <= self.servers.len(),
                forall|j: int| 0 <= j < i ==> self.servers_view()[j].channel_id != channel_id,
            decreases self.servers.len() - i,
        {
            if self.servers[i].channel_id == channel_id {
                proof {
                    lemma_find_server_skip(self.servers_view(), channel_id, i as int);
                }
                return Some(i);
            }
            i = i + 1;
        }
        proof {
            lemma_find_server_range(self.servers_view(), channel_id, 0);
        }
        None
    }
}

/// What a command does next: answer at once, or run a command on a server
/// (given by its position) and answer from the result.
pub enum CommandStep {
    Reply(String),
    Rcon { server: usize, command: String },
}

/// The step of a command that runs `command` on the server of `channel_id`:
/// run it there, or answer that no server is tied to the channel.
pub open spec fn server_step_spec(data: &Data, channel_id: u64, command: Seq<char>, step: CommandStep) -> bool {
    let i = find_server_spec(data.servers_view(), channel_id);
    match step {
        CommandStep::Reply(t) => i == -1 && t@ == NOT_FOUND_REPLY@,
        CommandStep::Rcon { server, command: c } => i == server as int && c@ == command,
    }
}

fn server_step(data: &Data, channel_id: u64, command: &str) -> (r: CommandStep)
    ensures
        server_step_spec(data, channel_id, command@, r),
{
    match data.find_server(channel_id) {
        Some(i) => CommandStep::Rcon { server: i, command: owned(command) },
        None => CommandStep::Reply(owned(NOT_FOUND_REPLY)),
    }
}

/// First step of the player list command issued in `channel_id`.
pub fn list_step(data: &Data, channel_id: u64) -> (r: CommandStep)
    ensures
        server_step_spec(data, channel_id, LIST_COMMAND@, r),
{
    server_step(data, channel_id, LIST_COMMAND)
}

/// First step of the stop command issued in `channel_id`.
pub fn stop_step(data: &Data, channel_id: u64) -> (r: CommandStep)
    ensures
        server_step_spec(data, channel_id, STOP_COMMAND@, r),
{
    server_step(data, channel_id, STOP_COMMAND)
}

/// Answer of the player list command: the server's answer, or the failure.
pub fn list_reply(result: &Result<String, String>) -> (r: String)
    ensures
        r@ == match result {
            Ok(out) => out@,
            Err(e) => FAILURE_PREFIX@ + e@,
        },
{
    match result {
        Ok(out) => out.clone(),
        Err(e) => {
            let mut r = owned(FAILURE_PREFIX);
            push_str(&mut r, e.as_str());
            r
        },
    }
}

/// Answer of the stop command for the server named `server_name`.
pub fn stop_reply(server_name: &str, result: &Result<String, String>) -> (r: String)
    ensures
        r@ == match result {
            Ok(_) => server_name@ + STOPPED_SUFFIX@,
            Err(e) => FAILURE_PREFIX@ + e@,
        },
{
    match result {
        Ok(_) => {
            let mut r = owned(server_name);
            push_str(&mut r, STOPPED_SUFFIX);
            r
        },
        Err(e) => {
            let mut r = owned(FAILURE_PREFIX);
            push_str(&mut r, e.as_str());
            r
        },
    }
}

/// Answer of the help command.
pub fn pong_reply() -> (r: String)
    ensures
        r@ == PONG_REPLY@,
{
    owned(PONG_REPLY)
}

/// A chat message as relayed: author, separator, text.
pub fn relay_text(user: &str, content: &str) -> (r: String)
    ensures
        r@ == user@ + RELAY_SEPARATOR@ + content@,
{
    crate::text::concat3(user, RELAY_SEPARATOR, content)
}

/// The relay of a chat message posted in `channel_id` by `user`: none for a
/// bot's message or a channel tied to no server, else the first server tied
/// to the channel and the command `say user: content`.
pub open spec fn relay_spec(
    servers: Seq<ServerSpec>,
    channel_id: u64,
    author_is_bot: bool,
    user: Seq<char>,
    content: Seq<char>,
) -> Option<(int, Seq<char>)> {
    if author_is_bot || find_server_spec(servers, channel_id) == -1 {
        None
    } else {
        Some(
            (
                find_server_spec(servers, channel_id),
                SAY_PREFIX@ + user + RELAY_SEPARATOR@ + content,
            ),
        )
    }
}

/// A chat message is relayed exactly when its author is not a bot and some
/// server is tied to its channel, whatever the message says; it then goes to
/// the first such server as `say <user>: <content>`, the content unchanged.
pub proof fn lemma_relay_decision(
    servers: Seq<ServerSpec>,
    channel_id: u64,
    author_is_bot: bool,
    user: Seq<char>,
    content: Seq<char>,
)
    ensures
        relay_spec(servers, channel_id, author_is_bot, user, content) is Some <==> (!author_is_bot
            && exists|j: int| 0 <= j < servers.len() && #[trigger] servers[j].channel_id == channel_id),
        relay_spec(servers, channel_id, author_is_bot, user, content) matches Some((i, c)) ==> {
            &&& 0 <= i < servers.len()
            &&& servers[i].channel_id == channel_id
            &&& forall|j: int| 0 <= j < i ==> #[trigger] servers[j].channel_id != channel_id
            &&& c == SAY_PREFIX@ + user + RELAY_SEPARATOR@ + content
        },
{
    lemma_find_server_is_first_match(servers, channel_id);
}

/// Decides what becomes of a chat message: which server to send it to and
/// the command that says it there.
pub fn relay_command(
    data: &Data,
    channel_id: u64,
    author_is_bot: bool,
    user: &str,
    content: &str,
) -> (r: Option<(usize, String)>)
    ensures
        match r {
            Some((i, c)) => relay_spec(data.servers_view(), channel_id, author_is_bot, user@, content@)
                == Some((i as int, c@)),
            None => relay_spec(data.servers_view(), channel_id, author_is_bot, user@, content@) is None,
        },
{
    if author_is_bot {
        return None;
    }
    match data.find_server(channel_id) {
        None => None,
        Some(i) => {
            let t = relay_text(user, content);
            let mut c = owned(SAY_PREFIX);
            push_str(&mut c, t.as_str());
            assert(c@ == SAY_PREFIX@ + user@ + RELAY_SEPARATOR@ + content@);
            Some((i, c))
        },
    }
}

/// Age text for an unknown log age.
pub const AGE_UNKNOWN: &'static str = "不明";

/// Suffix for an age in seconds.
pub const AGE_SECONDS: &'static str = "秒前";

/// Suffix for an age in minutes.
pub const AGE_MINUTES: &'static str = "分前";

/// Suffix for an age in hours.
pub const AGE_HOURS: &'static str = "時間前";

/// Suffix for an age in days.
pub const AGE_DAYS: &'static str = "日前";

/// How long ago a log was last written, in words: seconds below a minute,
/// whole minutes below an hour, whole hours below a day, else whole days;
/// unknown where the age could not be found.
pub open spec fn log_freshness_spec(elapsed: Option<u64>) -> Seq<char> {
    match elapsed {
        None => AGE_UNKNOWN@,
        Some(s) => if s < 60 {
            decimal_spec(s as nat) + AGE_SECONDS@
        } else if s < 3600 {
            decimal_spec((s / 60) as nat) + AGE_MINUTES@
        } else if s < 86400 {
            decimal_spec((s / 3600) as nat) + AGE_HOURS@
        } else {
            decimal_spec((s / 86400) as nat) + AGE_DAYS@
        },
    }
}

/// How long ago a log was last written, from the seconds since it was, if
/// known.
pub fn log_freshness(elapsed: Option<u64>) -> (r: String)
    ensures
        r@ == log_freshness_spec(elapsed),
{
    match elapsed {
        None => owned(AGE_UNKNOWN),
        Some(s) => {
            let (n, unit) = if s < 60 {
                (s, AGE_SECONDS)
            } else if s < 3600 {
                (s / 60, AGE_MINUTES)
            } else if s < 86400 {
                (s / 3600, AGE_HOURS)
            } else {
                (s / 86400, AGE_DAYS)
            };
            let mut r = decimal(n);
            push_str(&mut r, unit);
            r
        },
    }
}

/// The unit in which an age of `s` seconds is told: 0 seconds, 1 minutes,
/// 2 hours, 3 days.
pub open spec fn age_unit(s: u64) -> nat {
    if s < 60 {
        0
    } else if s < 3600 {
        1
    } else if s < 86400 {
        2
    } else {
        3
    }
}

/// The whole number of units in an age of `s` seconds.
pub open spec fn age_number(s: u64) -> nat {
    if s < 60 {
        s as nat
    } else if s < 3600 {
        (s / 60) as nat
    } else if s < 86400 {
        (s / 3600) as nat
    } else {
        (s / 86400) as nat
    }
}

/// The words after the number, by unit.
pub open spec fn unit_suffix(unit: nat) -> Seq<char> {
    if unit == 0 {
        AGE_SECONDS@
    } else if unit == 1 {
        AGE_MINUTES@
    } else if unit == 2 {
        AGE_HOURS@
    } else {
        AGE_DAYS@
    }
}

/// An older log never reads as newer: an age is told as a number and a
/// unit, and a longer age has a larger unit, or the same unit and a number
/// at least as large.
pub proof fn lemma_freshness_monotonic(e1: u64, e2: u64)
    requires
        e1 <= e2,
    ensures
        log_freshness_spec(Some(e1)) == decimal_spec(age_number(e1)) + unit_suffix(age_unit(e1)),
        log_freshness_spec(Some(e2)) == decimal_spec(age_number(e2)) + unit_suffix(age_unit(e2)),
        age_unit(e1) <= age_unit(e2),
        age_unit(e1) == age_unit(e2) ==> age_number(e1) <= age_number(e2),
{
    vstd::arithmetic::div_mod::lemma_div_is_ordered(e1 as int, e2 as int, 60);
    vstd::arithmetic::div_mod::lemma_div_is_ordered(e1 as int, e2 as int, 3600);
    vstd::arithmetic::div_mod::lemma_div_is_ordered(e1 as int, e2 as int, 86400);
}

/// The pattern of the answer to `list`: online count, maximum, and names.
pub const PLAYER_LIST_PATTERN: &'static str =
    r"There are (\d+) of a max of (\d+) players online:?\s*(.*)";

/// Between the online count and the maximum.
pub const COUNT_SEPARATOR: &'static str = "/";

/// After the maximum.
pub const COUNT_SUFFIX: &'static str = "人";

/// The compiled pattern of the answer to `list`.
pub struct PlayerListPattern {
    pattern: Pattern,
}

impl PlayerListPattern {
    #[verifier::type_invariant]
    spec fn from_its_source(self) -> bool {
        self.pattern@ == PLAYER_LIST_PATTERN@
    }

    /// Compiles the pattern: succeeds exactly when the `regex` crate
    /// accepts it.
    pub fn new() -> (r: Result<PlayerListPattern, PatternError>)
        ensures
            r is Ok <==> regex_compiles(PLAYER_LIST_PATTERN@),
            r matches Err(e) ==> e == PatternError::Invalid,
    {
        let pattern = Pattern::new(PLAYER_LIST_PATTERN)?;
        Ok(PlayerListPattern { pattern })
    }

    fn captures(&self, output: &str) -> (r: Option<Groups>)
        ensures
            r.deep_view() == regex_captures_of(PLAYER_LIST_PATTERN@, output@),
            r.deep_view() matches Some(g) ==> forall|i: int|
                0 <= i < g.len() && #[trigger] g[i] is Some ==> is_substring(g[i].unwrap(), output@),
    {
        proof {
            use_type_invariant(self);
        }
        self.pattern.captures(output)
    }
}

/// Whether a search result holds groups 1 to 3.
pub open spec fn has_player_groups(g: Seq<Option<Seq<char>>>) -> bool {
    g.len() >= 4 && g[1] is Some && g[2] is Some && g[3] is Some
}

/// The player count and names read from the answer to `list`, given the
/// search result of the player list pattern in it: `online/max人` and the
/// names without surrounding white space (none if empty); the answer itself
/// and no names where the pattern did not match.
pub open spec fn player_list_spec(output: Seq<char>, caps: Option<Seq<Option<Seq<char>>>>) -> (
    Seq<char>,
    Option<Seq<char>>,
) {
    match caps {
        Some(g) if has_player_groups(g) => {
            let names = trim_spec(g[3].unwrap());
            (
                g[1].unwrap() + COUNT_SEPARATOR@ + g[2].unwrap() + COUNT_SUFFIX@,
                if names.len() == 0 {
                    None
                } else {
                    Some(names)
                },
            )
        },
        _ => (output, None),
    }
}

/// Names read from an answer to `list` are never empty and carry no
/// surrounding white space, and whenever names were read the count text
/// ends with `人`.
pub proof fn lemma_player_names_trimmed(output: Seq<char>, caps: Option<Seq<Option<Seq<char>>>>)
    ensures
        player_list_spec(output, caps).1 matches Some(n) ==> n.len() > 0 && trim_spec(n) == n
            && ends_with_spec(player_list_spec(output, caps).0, COUNT_SUFFIX@),
{
    if let Some(g) = caps {
        if has_player_groups(g) {
            lemma_trim_idempotent(g[3].unwrap());
            let a = g[1].unwrap() + COUNT_SEPARATOR@ + g[2].unwrap();
            assert((a + COUNT_SUFFIX@).skip(a.len() as int) =~= COUNT_SUFFIX@);
            assert(a + COUNT_SUFFIX@ == g[1].unwrap() + COUNT_SEPARATOR@ + g[2].unwrap()
                + COUNT_SUFFIX@);
        }
    }
}

/// The player count and names, from the answer to `list` and the search
/// result of the player list pattern in it.
pub fn player_list_from_captures(output: &str, caps: &Option<Groups>) -> (r: (String, Option<String>))
    requires
        caps.deep_view() matches Some(g) ==> has_player_groups(g),
    ensures
        (r.0@, r.1.deep_view()) == player_list_spec(output@, caps.deep_view()),
{
    match caps {
        None => (owned(output), None),
        Some(g) => {
            proof {
                assert(g.deep_view()[1] == g@[1].deep_view());
                assert(g.deep_view()[2] == g@[2].deep_view());
                assert(g.deep_view()[3] == g@[3].deep_view());
            }
            let online = g[1].as_ref().unwrap();
            let max = g[2].as_ref().unwrap();
            let rest = g[3].as_ref().unwrap();
            let mut count = online.clone();
            push_str(&mut count, COUNT_SEPARATOR);
            push_str(&mut count, max.as_str());
            push_str(&mut count, COUNT_SUFFIX);
            let rest_chars = chars_of(rest.as_str());
            let names = trim(rest_chars.as_slice());
            if names.len() == 0 {
                (count, None)
            } else {
                (count, Some(string_of(names.as_slice())))
            }
        },
    }
}

/// The player count and names read from the answer to `list`; the names
/// are a run of the answer's own text.
pub fn parse_player_list(pattern: &PlayerListPattern, output: &str) -> (r: (String, Option<String>))
    ensures
        (r.0@, r.1.deep_view()) == player_list_spec(
            output@,
            regex_captures_of(PLAYER_LIST_PATTERN@, output@),
        ),
        r.1.deep_view() matches Some(n) ==> is_substring(n, output@),
{
    let caps = pattern.captures(output);
    let usable = match &caps {
        None => true,
        Some(g) => g.len() >= 4 && g[1].is_some() && g[2].is_some() && g[3].is_some(),
    };
    if usable {
        proof {
            let ghost gc = caps;
            if let Some(g) = gc {
                assert(g.deep_view()[1] == g@[1].deep_view());
                assert(g.deep_view()[2] == g@[2].deep_view());
                assert(g.deep_view()[3] == g@[3].deep_view());
                let gv = g.deep_view();
                assert(gv[3] is Some);
                lemma_trim_is_substring(gv[3].unwrap(), output@);
            }
        }
        player_list_from_captures(output, &caps)
    } else {
        proof {
            let ghost gc = caps;
            if let Some(g) = gc {
                if g.len() >= 4 {
                    assert(g.deep_view()[1] == g@[1].deep_view());
                    assert(g.deep_view()[2] == g@[2].deep_view());
                    assert(g.deep_view()[3] == g@[3].deep_view());
                }
            }
        }
        (owned(output), None)
    }
}

/// Title start of a server that answered.
pub const ONLINE_MARK: &'static str = "🟢 ";

/// Title start of a server that did not answer.
pub const OFFLINE_MARK: &'static str = "🔴 ";

/// Name of the player count field.
pub const FIELD_PLAYERS: &'static str = "プレイヤー";

/// Name of the log age field.
pub const FIELD_LOG_AGE: &'static str = "最終ログ更新";

/// Name of the player names field.
pub const FIELD_NAMES: &'static str = "参加者";

/// Name of the state field.
pub const FIELD_STATE: &'static str = "状態";

/// Value of the state field of a server that did not answer.
pub const NO_ANSWER: &'static str = "応答なし";

/// One field of a status card: name, value, and whether it sits beside
/// its neighbours.
pub struct EmbedField {
    pub name: String,
    pub value: String,
    pub inline: bool,
}

/// The status card of one server: title, colour (red, green, blue) and
/// fields.
pub struct StatusEmbed {
    pub title: String,
    pub color: (u8, u8, u8),
    pub fields: Vec<EmbedField>,
}

/// The mathematical value of a field.
pub open spec fn field_view(f: EmbedField) -> (Seq<char>, Seq<char>, bool) {
    (f.name@, f.value@, f.inline)
}

/// The mathematical value of a list of fields.
pub open spec fn fields_view(v: Seq<EmbedField>) -> Seq<(Seq<char>, Seq<char>, bool)> {
    v.map_values(|f: EmbedField| field_view(f))
}

/// Colour of a server that answered.
pub open spec fn online_color() -> (u8, u8, u8) {
    (46u8, 204u8, 113u8)
}

/// Colour of a server that did not answer.
pub open spec fn offline_color() -> (u8, u8, u8) {
    (231u8, 76u8, 60u8)
}

/// The status card of server `name`, given its answer to `list` where it
/// answered in time, and the age of its log in words.
pub open spec fn status_embed_spec(name: Seq<char>, answer: Option<Seq<char>>, age: Seq<char>) -> (
    Seq<char>,
    (u8, u8, u8),
    Seq<(Seq<char>, Seq<char>, bool)>,
) {
    match answer {
        Some(out) => {
            let (count, names) = player_list_spec(
                out,
                regex_captures_of(PLAYER_LIST_PATTERN@, out),
            );
            let base = seq![(FIELD_PLAYERS@, count, true), (FIELD_LOG_AGE@, age, true)];
            (
                ONLINE_MARK@ + name,
                online_color(),
                match names {
                    Some(n) => base.push((FIELD_NAMES@, n, false)),
                    None => base,
                },
            )
        },
        None => (
            OFFLINE_MARK@ + name,
            offline_color(),
            seq![(FIELD_STATE@, NO_ANSWER@, true), (FIELD_LOG_AGE@, age, true)],
        ),
    }
}

fn field(name: &str, value: String, inline: bool) -> (r: EmbedField)
    ensures
        field_view(r) == (name@, value@, inline),
{
    EmbedField { name: owned(name), value, inline }
}

/// The status card of the server named `server_name`: `answer` is its
/// answer to `list` where it answered in time, `log_age` the age of its
/// log in words.
pub fn status_embed(
    pattern: &PlayerListPattern,
    server_name: &str,
    answer: &Option<String>,
    log_age: &str,
) -> (r: StatusEmbed)
    ensures
        (r.title@, r.color, fields_view(r.fields@)) == status_embed_spec(
            server_name@,
            answer.deep_view(),
            log_age@,
        ),
{
    let mut fields: Vec<EmbedField> = Vec::new();
    match answer {
        Some(out) => {
            let (count, names) = parse_player_list(pattern, out.as_str());
            fields.push(field(FIELD_PLAYERS, count, true));
            fields.push(field(FIELD_LOG_AGE, owned(log_age), true));
            let ghost base = fields_view(fields@);
            match names {
                Some(n) => {
                    fields.push(field(FIELD_NAMES, n, false));
                    assert(fields_view(fields@) =~= base.push((FIELD_NAMES@, n@, false)));
                },
                None => {},
            }
            let title = crate::text::concat2(ONLINE_MARK, server_name);
            StatusEmbed { title, color: (46u8, 204u8, 113u8), fields }
        },
        None => {
            fields.push(field(FIELD_STATE, owned(NO_ANSWER), true));
            fields.push(field(FIELD_LOG_AGE, owned(log_age), true));
            let title = crate::text::concat2(OFFLINE_MARK, server_name);
            StatusEmbed { title, color: (231u8, 76u8, 60u8), fields }
        },
    }
}

/// Between a server's name and its state in the status report.
pub const STATE_SEPARATOR: &'static str = ": ";

/// State text of a server that answered, before its answer.
pub const RUNNING_OPEN: &'static str = "起動中 (";

/// After the answer of a server that answered.
pub const RUNNING_CLOSE: &'static str = ")";

/// The status report line of server `name`: `🟢 name: 起動中 (answer)` where
/// it answered `list` in time, else `🔴 name: 応答なし`.
pub open spec fn status_line_spec(name: Seq<char>, answer: Option<Seq<char>>) -> Seq<char> {
    match answer {
        Some(out) => ONLINE_MARK@ + name + STATE_SEPARATOR@ + RUNNING_OPEN@ + out + RUNNING_CLOSE@,
        None => OFFLINE_MARK@ + name + STATE_SEPARATOR@ + NO_ANSWER@,
    }
}

/// The status report line of one server.
pub fn status_line(server_name: &str, answer: &Option<String>) -> (r: String)
    ensures
        r@ == status_line_spec(server_name@, answer.deep_view()),
{
    let mut r = match answer {
        Some(_) => owned(ONLINE_MARK),
        None => owned(OFFLINE_MARK),
    };
    push_str(&mut r, server_name);
    push_str(&mut r, STATE_SEPARATOR);
    match answer {
        Some(out) => {
            push_str(&mut r, RUNNING_OPEN);
            push_str(&mut r, out.as_str());
            push_str(&mut r, RUNNING_CLOSE);
        },
        None => {
            push_str(&mut r, NO_ANSWER);
        },
    }
    r
}

/// The status report: one line per server, in order, separated by line feeds.
pub open spec fn status_report_spec(entries: Seq<(Seq<char>, Option<Seq<char>>)>) -> Seq<char>
    decreases entries.len(),
{
    if entries.len() == 0 {
        Seq::empty()
    } else if entries.len() == 1 {
        status_line_spec(entries[0].0, entries[0].1)
    } else {
        status_report_spec(entries.drop_last()) + seq!['\n'] + status_line_spec(
            entries.last().0,
            entries.last().1,
        )
    }
}

/// The status report of all servers, from each server's name and its answer
/// to `list` where it answered in time.
pub fn status_report(entries: &[(String, Option<String>)]) -> (r: String)
    ensures
        r@ == status_report_spec(entries.deep_view()),
{
    let mut r = String::new();
    let mut i: usize = 0;
    while i < entries.len()
        invariant
            i <= entries.len(),
            r@ == status_report_spec(entries.deep_view().take(i as int)),
        decreases entries.len() - i,
    {
        let line = status_line(entries[i].0.as_str(), &entries[i].1);
        let ghost t = entries.deep_view().take(i + 1);
        assert(t.drop_last() == entries.deep_view().take(i as int));
        assert(t.last() == entries.deep_view()[i as int]);
        if i > 0 {
            push_str(&mut r, "\n");
            proof {
                reveal_strlit("\n");
            }
        }
        push_str(&mut r, line.as_str());
        i = i + 1;
    }
    assert(entries.deep_view().take(entries.len() as int) == entries.deep_view());
    r
}


/// A status card's mark and colour tell only whether the server answered in
/// time, never what it answered: green with the online colour for an
/// answer, red with the offline colour and the no-answer field otherwise.
/// The player count always comes first and the log age second; a names
/// field follows exactly when names were read.
pub proof fn lemma_status_card_marks(name: Seq<char>, answer: Option<Seq<char>>, age: Seq<char>)
    ensures
        answer is Some ==> {
            let card = status_embed_spec(name, answer, age);
            let out = answer.unwrap();
            let players = player_list_spec(out, regex_captures_of(PLAYER_LIST_PATTERN@, out));
            &&& card.0 == ONLINE_MARK@ + name
            &&& card.1 == (46u8, 204u8, 113u8)
            &&& card.2.len() >= 2
            &&& card.2[0] == (FIELD_PLAYERS@, players.0, true)
            &&& card.2[1] == (FIELD_LOG_AGE@, age, true)
            &&& (card.2.len() == 3 <==> players.1 is Some)
            &&& card.2.len() <= 3
        },
        answer is None ==> status_embed_spec(name, answer, age) == (
            OFFLINE_MARK@ + name,
            (231u8, 76u8, 60u8),
            seq![(FIELD_STATE@, NO_ANSWER@, true), (FIELD_LOG_AGE@, age, true)],
        ),
        answer is Some ==> status_line_spec(name, answer).take((ONLINE_MARK@ + name).len() as int)
            == ONLINE_MARK@ + name,
        answer is None ==> status_line_spec(name, answer).take((OFFLINE_MARK@ + name).len() as int)
            == OFFLINE_MARK@ + name,
{
    if let Some(out) = answer {
        let a = ONLINE_MARK@ + name;
        let l = status_line_spec(name, answer);
        assert(l =~= a + (STATE_SEPARATOR@ + RUNNING_OPEN@ + out + RUNNING_CLOSE@));
        assert(l.take(a.len() as int) =~= a);
    } else {
        let a = OFFLINE_MARK@ + name;
        let l = status_line_spec(name, answer);
        assert(l =~= a + (STATE_SEPARATOR@ + NO_ANSWER@));
        assert(l.take(a.len() as int) =~= a);
    }
}

} // verus!
