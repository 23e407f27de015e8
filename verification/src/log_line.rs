//! Recognising server log lines worth forwarding, and the chat text that
//! each kind of line becomes.
use vstd::prelude::*;
use crate::pattern::{
    group_text, group_text_spec, regex_captures_of, regex_compiles, Groups, Pattern, PatternError,
};
use crate::text::{owned, push_str};

verus! {

/// A line written over RCON; group 1 is the text after the marker.
pub const RCON_PATTERN: &'static str = r"\[Not Secure\] \[Rcon\] (.+)";

/// The server finished starting; group 1 is the time it took, in seconds.
pub const START_PATTERN: &'static str = r"Dedicated server took ([\d.]+) seconds to load";

/// The server is stopping.
pub const STOP_PATTERN: &'static str = r"Stopping (?:the )?server";

/// An advancement, goal or challenge; group 1 is the whole announcement.
pub const ADVANCEMENT_PATTERN: &'static str =
    r"MinecraftServer/\]: (.+ has (?:made the advancement|reached the goal|completed the challenge) \[.+\])";

/// A death; group 1 is the whole announcement.
pub const DEATH_PATTERN: &'static str =
    r"MinecraftServer/\]: (.+ (?:died|was slain|fell|drowned|burned|blew up).*)";

/// A chat message or a join or leave notice; group 1 is the whole text,
/// which is forwarded as it is.
pub const CHAT_PATTERN: &'static str = r"MinecraftServer/\]: (<.+>.+|.+ (?:joined|left) the game)";

/// Text around the start-up time.
pub const START_PREFIX: &'static str = "サーバー起動完了(";

/// Text after the start-up time.
pub const START_SUFFIX: &'static str = "秒)";

/// The message for a stopping server.
pub const STOP_MESSAGE: &'static str = "サーバー終了";

/// Text before an advancement announcement.
pub const ADVANCEMENT_PREFIX: &'static str = "実績解除:";

/// The kinds of log line that are forwarded, in the order in which they
/// are tried.
#[derive(Clone, Copy, Debug, PartialEq, Eq, Structural)]
pub enum LineKind {
    Rcon,
    Start,
    Stop,
    Advancement,
    Death,
    Chat,
}

/// The pattern that recognises lines of a kind.
pub open spec fn pattern_of(kind: LineKind) -> Seq<char> {
    match kind {
        LineKind::Rcon => RCON_PATTERN@,
        LineKind::Start => START_PATTERN@,
        LineKind::Stop => STOP_PATTERN@,
        LineKind::Advancement => ADVANCEMENT_PATTERN@,
        LineKind::Death => DEATH_PATTERN@,
        LineKind::Chat => CHAT_PATTERN@,
    }
}

/// The `i`-th kind in the order in which they are tried.
pub open spec fn kind_at(i: int) -> LineKind {
    if i == 0 {
        LineKind::Rcon
    } else if i == 1 {
        LineKind::Start
    } else if i == 2 {
        LineKind::Stop
    } else if i == 3 {
        LineKind::Advancement
    } else if i == 4 {
        LineKind::Death
    } else {
        LineKind::Chat
    }
}

/// Number of kinds of forwarded line.
pub const KIND_COUNT: usize = 6;

/// The chat text for a line of kind `kind` whose group 1 captured `cap`.
pub open spec fn format_spec(kind: LineKind, cap: Seq<char>) -> Seq<char> {
    match kind {
        LineKind::Rcon => cap,
        LineKind::Start => START_PREFIX@ + cap + START_SUFFIX@,
        LineKind::Stop => STOP_MESSAGE@,
        LineKind::Advancement => ADVANCEMENT_PREFIX@ + cap,
        LineKind::Death => cap,
        LineKind::Chat => cap,
    }
}

/// The chat text for a search result of the pattern of `kind`: none where
/// the pattern did not match, else group 1 (empty if absent) formatted.
pub open spec fn match_message_spec(kind: LineKind, caps: Option<Seq<Option<Seq<char>>>>) -> Option<
    Seq<char>,
> {
    match group_text_spec(caps, 1) {
        Some(cap) => Some(format_spec(kind, cap)),
        None => None,
    }
}

/// The chat text for `line` trying the kinds from position `i` of the order
/// on: the first kind whose pattern matches decides, later ones are not
/// consulted.
pub open spec fn message_from(line: Seq<char>, i: int) -> Option<Seq<char>>
    decreases 6 - i,
{
    if i < 0 || i >= 6 {
        None
    } else {
        match match_message_spec(kind_at(i), regex_captures_of(pattern_of(kind_at(i)), line)) {
            Some(m) => Some(m),
            None => message_from(line, i + 1),
        }
    }
}

/// The chat text that a log line is forwarded as, if any.
pub open spec fn line_message_spec(line: Seq<char>) -> Option<Seq<char>> {
    message_from(line, 0)
}

/// What each kind of line becomes, for every capture: start-up lines the
/// start text around the time, the stop line the stop message whatever was
/// captured, advancements the advancement prefix before the whole capture,
/// and RCON, death and chat lines the capture itself.
pub proof fn lemma_format_by_kind(cap: Seq<char>)
    ensures
        format_spec(LineKind::Rcon, cap) == cap,
        format_spec(LineKind::Start, cap) == START_PREFIX@ + cap + START_SUFFIX@,
        format_spec(LineKind::Stop, cap) == STOP_MESSAGE@,
        format_spec(LineKind::Advancement, cap) == ADVANCEMENT_PREFIX@ + cap,
        format_spec(LineKind::Death, cap) == cap,
        format_spec(LineKind::Chat, cap) == cap,
{
}

proof fn lemma_message_from(line: Seq<char>, i: int)
    requires
        0 <= i <= 6,
    ensures
        message_from(line, i) is None <==> forall|j: int|
            i <= j < 6 ==> regex_captures_of(pattern_of(kind_at(j)), line) is None,
        message_from(line, i) matches Some(m) ==> exists|k: int|
            #![trigger kind_at(k)]
            i <= k < 6 && (forall|j: int|
                i <= j < k ==> regex_captures_of(pattern_of(#[trigger] kind_at(j)), line) is None)
                && regex_captures_of(pattern_of(kind_at(k)), line) is Some && m == format_spec(
                kind_at(k),
                group_text_spec(regex_captures_of(pattern_of(kind_at(k)), line), 1).unwrap(),
            ),
    decreases 6 - i,
{
    if i < 6 {
        lemma_message_from(line, i + 1);
        let caps = regex_captures_of(pattern_of(kind_at(i)), line);
        if caps is Some {
            assert(message_from(line, i) == Some(format_spec(kind_at(i), group_text_spec(caps, 1).unwrap())));
        } else {
            if let Some(m) = message_from(line, i + 1) {
                let k = choose|k: int|
                    #![trigger kind_at(k)]
                    i + 1 <= k < 6 && (forall|j: int|
                        i + 1 <= j < k ==> regex_captures_of(pattern_of(#[trigger] kind_at(j)), line)
                            is None) && regex_captures_of(pattern_of(kind_at(k)), line) is Some && m
                        == format_spec(
                        kind_at(k),
                        group_text_spec(regex_captures_of(pattern_of(kind_at(k)), line), 1).unwrap(),
                    );
                assert(forall|j: int|
                    i <= j < k ==> regex_captures_of(pattern_of(#[trigger] kind_at(j)), line) is None);
            }
        }
    }
}

/// A log line is forwarded exactly when one of the six patterns matches it;
/// the message is then made by the first pattern in the order that matches,
/// from its group 1, and later patterns play no part.
pub proof fn lemma_first_match_decides(line: Seq<char>)
    ensures
        line_message_spec(line) is None <==> forall|j: int|
            0 <= j < 6 ==> regex_captures_of(pattern_of(#[trigger] kind_at(j)), line) is None,
        line_message_spec(line) matches Some(m) ==> exists|k: int|
            #![trigger kind_at(k)]
            0 <= k < 6 && (forall|j: int|
                0 <= j < k ==> regex_captures_of(pattern_of(#[trigger] kind_at(j)), line) is None)
                && regex_captures_of(pattern_of(kind_at(k)), line) is Some && m == format_spec(
                kind_at(k),
                group_text_spec(regex_captures_of(pattern_of(kind_at(k)), line), 1).unwrap(),
            ),
{
    lemma_message_from(line, 0);
}

/// The chat text for a line of kind `kind` whose group 1 captured `cap`.
pub fn format_capture(kind: LineKind, cap: &str) -> (r: String)
    ensures
        r@ == format_spec(kind, cap@),
{
    match kind {
        LineKind::Rcon => owned(cap),
        LineKind::Start => crate::text::concat3(START_PREFIX, cap, START_SUFFIX),
        LineKind::Stop => owned(STOP_MESSAGE),
        LineKind::Advancement => {
            let mut r = owned(ADVANCEMENT_PREFIX);
            push_str(&mut r, cap);
            r
        },
        LineKind::Death => owned(cap),
        LineKind::Chat => owned(cap),
    }
}

/// The chat text for a search result of the pattern of `kind`.
pub fn match_message(kind: LineKind, caps: &Option<Groups>) -> (r: Option<String>)
    ensures
        r.deep_view() == match_message_spec(kind, caps.deep_view()),
{
    match group_text(caps, 1) {
        Some(cap) => Some(format_capture(kind, cap.as_str())),
        None => None,
    }
}

/// The six compiled patterns for forwarded log lines.
pub struct LogPatterns {
    rcon: Pattern,
    start: Pattern,
    stop: Pattern,
    advancement: Pattern,
    death: Pattern,
    chat: Pattern,
}

impl LogPatterns {
    #[verifier::type_invariant]
    spec fn each_from_its_source(self) -> bool {
        &&& self.rcon@ == RCON_PATTERN@
        &&& self.start@ == START_PATTERN@
        &&& self.stop@ == STOP_PATTERN@
        &&& self.advancement@ == ADVANCEMENT_PATTERN@
        &&& self.death@ == DEATH_PATTERN@
        &&& self.chat@ == CHAT_PATTERN@
    }

    /// Compiles the six patterns: succeeds exactly when the `regex` crate
    /// accepts every one of them.
    pub fn new() -> (r: Result<LogPatterns, PatternError>)
        ensures
            r is Ok <==> forall|i: int| 0 <= i < 6 ==> regex_compiles(#[trigger] pattern_of(kind_at(i))),
            r matches Err(e) ==> e == PatternError::Invalid,
    {
        proof {
            assert(pattern_of(kind_at(0)) == RCON_PATTERN@);
            assert(pattern_of(kind_at(1)) == START_PATTERN@);
            assert(pattern_of(kind_at(2)) == STOP_PATTERN@);
            assert(pattern_of(kind_at(3)) == ADVANCEMENT_PATTERN@);
            assert(pattern_of(kind_at(4)) == DEATH_PATTERN@);
            assert(pattern_of(kind_at(5)) == CHAT_PATTERN@);
        }
        let rcon = Pattern::new(RCON_PATTERN)?;
        let start = Pattern::new(START_PATTERN)?;
        let stop = Pattern::new(STOP_PATTERN)?;
        let advancement = Pattern::new(ADVANCEMENT_PATTERN)?;
        let death = Pattern::new(DEATH_PATTERN)?;
        let chat = Pattern::new(CHAT_PATTERN)?;
        proof {
            assert forall|i: int| 0 <= i < 6 implies regex_compiles(
                #[trigger] pattern_of(kind_at(i)),
            ) by {
                if i == 0 {
                } else if i == 1 {
                } else if i == 2 {
                } else if i == 3 {
                } else if i == 4 {
                } else {
                }
            }
        }
        Ok(LogPatterns { rcon, start, stop, advancement, death, chat })
    }

    fn pattern(&self, kind: LineKind) -> (r: &Pattern)
        ensures
            r@ == pattern_of(kind),
    {
        proof {
            use_type_invariant(self);
        }
        match kind {
            LineKind::Rcon => &self.rcon,
            LineKind::Start => &self.start,
            LineKind::Stop => &self.stop,
            LineKind::Advancement => &self.advancement,
            LineKind::Death => &self.death,
            LineKind::Chat => &self.chat,
        }
    }

    /// The chat text that `line` is forwarded as: the patterns are tried in
    /// order and the first that matches decides; `None` if none matches.
    pub fn line_message(&self, line: &str) -> (r: Option<String>)
        ensures
            r.deep_view() == line_message_spec(line@),
    {
        let mut i: usize = 0;
        while i < KIND_COUNT
            invariant
                i <= 6,
                message_from(line@, 0) == message_from(line@, i as int),
            decreases 6 - i,
        {
            let kind = kind_exec(i);
            let caps = self.pattern(kind).captures(line);
            let m = match_message(kind, &caps);
            if m.is_some() {
                return m;
            }
            i = i + 1;
        }
        None
    }
}

fn kind_exec(i: usize) -> (r: LineKind)
    requires
        i < 6,
    ensures
        r == kind_at(i as int),
{
    if i == 0 {
        LineKind::Rcon
    } else if i == 1 {
        LineKind::Start
    } else if i == 2 {
        LineKind::Stop
    } else if i == 3 {
        LineKind::Advancement
    } else if i == 4 {
        LineKind::Death
    } else {
        LineKind::Chat
    }
}

} // verus!
