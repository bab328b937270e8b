//! Decoding of the commands that arrive on the bus for a stove: the topic
//! names the stove and the attribute, the payload holds the value.
use vstd::prelude::*;
use crate::reconcile::COMMON_BASE_TOPIC;
use crate::stove::StoveCommand;
use crate::text::{all_digits, digits_value, holds_at, lemma_digits_value_grows, text_eq};

verus! {

/// A message received from the bus.
#[derive(Clone, Debug)]
pub struct MqttMessage {
    pub topic: String,
    pub payload: String,
}

/// A command for the stove whose topics start with `topic_prefix`.
#[derive(Clone, Debug)]
pub struct RikaFirenetCommand {
    pub topic_prefix: String,
    pub command: StoveCommand,
}

/// Why a message is not a command.
#[derive(Clone, Debug, PartialEq, Eq)]
pub enum CommandError {
    /// The topic is not `rika-firenet/<stove>/<attribute>/set`.
    UnparsableTopic,
    /// The topic names no known attribute.
    UnsupportedAttribute(String),
    /// The payload is not a value that the attribute takes.
    InvalidPayload,
}

/// A topic segment: not empty, without `/`.
pub open spec fn is_segment(s: Seq<char>) -> bool {
    s.len() > 0 && forall|i: int| 0 <= i < s.len() ==> s[i] != '/'
}

/// The topic on which the attribute `attribute` of stove `stove` is set.
pub open spec fn command_topic(stove: Seq<char>, attribute: Seq<char>) -> Seq<char> {
    COMMON_BASE_TOPIC@ + seq!['/'] + stove + seq!['/'] + attribute + "/set"@
}

/// The decimal text that `rust_decimal` gives back for the number `s`
/// spells, if it spells one.
pub uninterp spec fn decimal_text_of(s: Seq<char>) -> Option<Seq<char>>;

/// Relies on rust_decimal's `Decimal::from_str` and its `Display`: the
/// number read from the text, written back, a function of the text alone.
#[verifier::external_body]
fn decimal_text(s: &str) -> (r: Option<String>)
    ensures
        r is Some == decimal_text_of(s@) is Some,
        r is Some ==> decimal_text_of(s@) == Some(r->0@),
{
    s.parse::<rust_decimal::Decimal>().ok().map(|d| d.to_string())
}

/// The boolean that `bool::from_str` reads: `true` or `false`, exactly.
pub open spec fn bool_of(s: Seq<char>) -> Option<bool> {
    if s == "true"@ {
        Some(true)
    } else if s == "false"@ {
        Some(false)
    } else {
        None
    }
}

/// The integer that `i32::from_str` reads: an optional sign, then at least
/// one ASCII digit, within the range of `i32`.
pub open spec fn i32_of(s: Seq<char>) -> Option<i32> {
    let negative = s.len() > 0 && s[0] == '-';
    let signed = s.len() > 0 && (s[0] == '-' || s[0] == '+');
    let digits = if signed {
        s.drop_first()
    } else {
        s
    };
    let magnitude = digits_value(digits) as int;
    let value = if negative {
        -magnitude
    } else {
        magnitude
    };
    if digits.len() > 0 && all_digits(digits) && i32::MIN <= value <= i32::MAX {
        Some(value as i32)
    } else {
        None
    }
}

fn parse_bool(s: &str) -> (r: Option<bool>)
    ensures
        r == bool_of(s@),
{
    if text_eq(s, "true") {
        Some(true)
    } else if text_eq(s, "false") {
        Some(false)
    } else {
        None
    }
}

fn parse_i32(s: &str) -> (r: Option<i32>)
    ensures
        r == i32_of(s@),
{
    let n = s.unicode_len();
    if n == 0 {
        return None;
    }
    let first = s.get_char(0);
    let negative = first == '-';
    let start: usize = if first == '-' || first == '+' {
        1
    } else {
        0
    };
    let ghost digits = s@.subrange(start as int, n as int);
    assert(first == s@[0]);
    assert((start == 1) == (s@[0] == '-' || s@[0] == '+'));
    assert(negative == (s@[0] == '-'));
    proof {
        if start == 1 {
            assert(digits =~= s@.drop_first());
        } else {
            assert(digits =~= s@);
        }
    }
    if start == n {
        return None;
    }
    let limit: u64 = if negative {
        2147483648
    } else {
        2147483647
    };
    let mut value: u64 = 0;
    let mut i: usize = start;
    while i < n
        invariant
            n == s@.len(),
            start <= i <= n,
            digits == s@.subrange(start as int, n as int),
            all_digits(digits.subrange(0, i - start)),
            value == digits_value(digits.subrange(0, i - start)),
            value <= limit,
            limit == if negative { 2147483648u64 } else { 2147483647u64 },
            n > 0,
            start <= 1,
            (start == 1) == (s@[0] == '-' || s@[0] == '+'),
            negative == (s@[0] == '-'),
            start == 1 ==> digits == s@.drop_first(),
            start == 0 ==> digits == s@,
        decreases n - i,
    {
        let c = s.get_char(i);
        assert(digits.subrange(0, i - start + 1).drop_last() =~= digits.subrange(0, i - start));
        assert(digits[i - start] == c);
        if c < '0' || c > '9' {
            assert(!crate::text::is_digit(digits[i - start]));
            assert(!all_digits(digits));
            return None;
        }
        let d = (c as u32 - '0' as u32) as u64;
        value = value * 10 + d;
        if value > limit {
            proof {
                assert(digits.subrange(0, i - start + 1).last() == c);
                assert(digits_value(digits.subrange(0, i - start + 1)) == value);
                lemma_digits_value_grows(digits, i - start + 1, digits.len() as int);
                assert(digits.subrange(0, digits.len() as int) =~= digits);
            }
            return None;
        }
        i = i + 1;
        assert forall|j: int| 0 <= j < i - start implies crate::text::is_digit(
            #[trigger] digits.subrange(0, i - start)[j],
        ) by {
            if j < i - start - 1 {
                assert(digits.subrange(0, i - start)[j] == digits.subrange(0, i - start - 1)[j]);
            }
        }
    }
    assert(digits.subrange(0, n - start) =~= digits);
    if negative {
        Some((0 - value as i64) as i32)
    } else {
        Some(value as i32)
    }
}

/// The two variable parts of a command topic.
pub struct TopicParts {
    /// `rika-firenet/<stove>`: the stove's topic prefix.
    pub prefix: String,
    pub attribute: String,
}

/// The first position from `from` on where `s` holds `/`, if any.
fn next_slash(s: &str, from: usize) -> (r: Option<usize>)
    requires
        from <= s@.len(),
    ensures
        match r {
            Some(p) => from <= p < s@.len() && s@[p as int] == '/' && forall|j: int|
                from <= j < p ==> s@[j] != '/',
            None => forall|j: int| from <= j < s@.len() ==> s@[j] != '/',
        },
{
    let n = s.unicode_len();
    let mut i: usize = from;
    while i < n
        invariant
            n == s@.len(),
            from <= i <= n,
            forall|j: int| from <= j < i ==> s@[j] != '/',
        decreases n - i,
    {
        if s.get_char(i) == '/' {
            return Some(i);
        }
        i = i + 1;
    }
    None
}

/// Splits a command topic `rika-firenet/<stove>/<attribute>/set` into its
/// prefix `rika-firenet/<stove>` and its attribute.
pub fn split_command_topic(topic: &str) -> (r: Option<TopicParts>)
    ensures
        r is Some <==> exists|stove: Seq<char>, attribute: Seq<char>|
            is_segment(stove) && is_segment(attribute) && topic@ == command_topic(stove, attribute),
        r is Some ==> exists|stove: Seq<char>|
            {
                &&& #[trigger] is_segment(stove)
                &&& is_segment(r->0.attribute@)
                &&& topic@ == command_topic(stove, r->0.attribute@)
                &&& r->0.prefix@ == COMMON_BASE_TOPIC@ + seq!['/'] + stove
            },
{
    proof {
        reveal_strlit("rika-firenet");
        reveal_strlit("/set");
    }
    let ghost t = topic@;
    let n = topic.unicode_len();
    let base_len = COMMON_BASE_TOPIC.unicode_len();
    let ghost suffix = "/set"@;
    let parsed: Option<(usize, usize)> = if n > base_len && holds_at(topic, 0, COMMON_BASE_TOPIC)
        && topic.get_char(base_len) == '/' {
        match next_slash(topic, base_len + 1) {
            None => None,
            Some(p) => match next_slash(topic, p + 1) {
                None => None,
                Some(q) => {
                    if p > base_len + 1 && q > p + 1 && n - q == 4 && holds_at(topic, q, "/set") {
                        Some((p, q))
                    } else {
                        None
                    }
                },
            },
        }
    } else {
        None
    };
    proof {
        if exists|stove: Seq<char>, attribute: Seq<char>|
            is_segment(stove) && is_segment(attribute) && t == command_topic(stove, attribute) {
            let (stove, attribute) = choose|stove: Seq<char>, attribute: Seq<char>|
                is_segment(stove) && is_segment(attribute) && t == command_topic(stove, attribute);
            let b = COMMON_BASE_TOPIC@;
            let p: int = b.len() as int + 1 + stove.len();
            let q: int = p + 1 + attribute.len();
            assert(t.len() == q + 4);
            assert(t.subrange(0, b.len() as int) =~= b);
            assert(t[b.len() as int] == '/');
            assert forall|j: int| b.len() + 1 <= j < p implies t[j] != '/' by {
                assert(t[j] == stove[j - b.len() - 1]);
            }
            assert(t[p] == '/');
            assert forall|j: int| p + 1 <= j < q implies t[j] != '/' by {
                assert(t[j] == attribute[j - p - 1]);
            }
            assert(t[q] == '/');
            assert(t.subrange(q, q + 4) =~= suffix);
            assert(parsed == Some((p as usize, q as usize)));
        }
    }
    match parsed {
        None => None,
        Some((p, q)) => {
            let prefix = String::from_str(topic.substring_char(0, p));
            let attribute = String::from_str(topic.substring_char(p + 1, q));
            proof {
                let b = COMMON_BASE_TOPIC@;
                let stove = t.subrange(b.len() as int + 1, p as int);
                assert(prefix@ =~= b + seq!['/'] + stove);
                assert forall|j: int| 0 <= j < stove.len() implies stove[j] != '/' by {
                    assert(stove[j] == t[b.len() + 1 + j]);
                }
                assert forall|j: int| 0 <= j < attribute@.len() implies attribute@[j] != '/' by {
                    assert(attribute@[j] == t[p + 1 + j]);
                }
                assert(t =~= command_topic(stove, attribute@));
                assert(is_segment(stove));
                assert(is_segment(attribute@));
                assert(prefix@ == COMMON_BASE_TOPIC@ + seq!['/'] + stove);
            }
            let res = TopicParts { prefix, attribute };
            proof {
                let b = COMMON_BASE_TOPIC@;
                let st = t.subrange(b.len() as int + 1, p as int);
                assert(is_segment(st));
                assert(is_segment(res.attribute@));
                assert(topic@ == command_topic(st, res.attribute@));
                assert(res.prefix@ == COMMON_BASE_TOPIC@ + seq!['/'] + st);
            }
            Some(res)
        },
    }
}

/// Whether `c` is what `payload` on the topic of `attribute` asks for.
pub open spec fn command_matches(attribute: Seq<char>, payload: Seq<char>, c: StoveCommand) -> bool {
    match c {
        StoveCommand::OnOff(v) => attribute == "power-on"@ && bool_of(payload) == Some(v),
        StoveCommand::OperatingMode(v) => attribute == "operating-mode"@ && i32_of(payload) == Some(v),
        StoveCommand::TargetTemperature(v) => attribute == "target-temp"@ && decimal_text_of(payload)
            == Some(v@),
        StoveCommand::IdleTemperature(v) => attribute == "idle-temp"@ && decimal_text_of(payload)
            == Some(v@),
        StoveCommand::PowerHeating(v) => attribute == "power-heating"@ && i32_of(payload) == Some(v),
        StoveCommand::DailySchedulesEnabled(v) => attribute == "daily-schedules-enable"@ && bool_of(
            payload,
        ) == Some(v),
        StoveCommand::FrostProtectionEnabled(v) => attribute == "frost-protection-enable"@ && bool_of(
            payload,
        ) == Some(v),
        StoveCommand::FrostProtectionTemperature(v) => attribute == "frost-protection-temp"@
            && decimal_text_of(payload) == Some(v@),
    }
}

/// Whether `attribute` names a stove attribute that commands may set.
pub open spec fn known_attribute(attribute: Seq<char>) -> bool {
    attribute == "power-on"@ || attribute == "operating-mode"@ || attribute == "target-temp"@
        || attribute == "idle-temp"@ || attribute == "power-heating"@ || attribute
        == "daily-schedules-enable"@ || attribute == "frost-protection-enable"@ || attribute
        == "frost-protection-temp"@
}

/// Whether `payload` is a value that `attribute` takes.
pub open spec fn payload_fits(attribute: Seq<char>, payload: Seq<char>) -> bool {
    if attribute == "power-on"@ || attribute == "daily-schedules-enable"@ || attribute
        == "frost-protection-enable"@ {
        bool_of(payload) is Some
    } else if attribute == "operating-mode"@ || attribute == "power-heating"@ {
        i32_of(payload) is Some
    } else {
        decimal_text_of(payload) is Some
    }
}

fn command_for(attribute: &str, payload: &str) -> (r: Result<StoveCommand, CommandError>)
    ensures
        r is Ok ==> known_attribute(attribute@) && command_matches(attribute@, payload@, r->Ok_0),
        r is Err ==> {
            ||| r->Err_0 is UnsupportedAttribute && !known_attribute(attribute@)
                && r->Err_0->UnsupportedAttribute_0@ == attribute@
            ||| r->Err_0 is InvalidPayload && known_attribute(attribute@) && !payload_fits(
                attribute@,
                payload@,
            )
        },
{
    proof {
        reveal_strlit("power-on");
        reveal_strlit("operating-mode");
        reveal_strlit("target-temp");
        reveal_strlit("idle-temp");
        reveal_strlit("power-heating");
        reveal_strlit("daily-schedules-enable");
        reveal_strlit("frost-protection-enable");
        reveal_strlit("frost-protection-temp");
        assert("power-on"@.len() == 8);
        assert("operating-mode"@.len() == 14);
        assert("target-temp"@.len() == 11);
        assert("idle-temp"@.len() == 9);
        assert("power-heating"@.len() == 13);
        assert("daily-schedules-enable"@.len() == 22);
        assert("frost-protection-enable"@.len() == 23);
        assert("frost-protection-temp"@.len() == 21);
    }
    if text_eq(attribute, "power-on") {
        match parse_bool(payload) {
            Some(v) => Ok(StoveCommand::OnOff(v)),
            None => Err(CommandError::InvalidPayload),
        }
    } else if text_eq(attribute, "operating-mode") {
        match parse_i32(payload) {
            Some(v) => Ok(StoveCommand::OperatingMode(v)),
            None => Err(CommandError::InvalidPayload),
        }
    } else if text_eq(attribute, "target-temp") {
        match decimal_text(payload) {
            Some(v) => Ok(StoveCommand::TargetTemperature(v)),
            None => Err(CommandError::InvalidPayload),
        }
    } else if text_eq(attribute, "idle-temp") {
        match decimal_text(payload) {
            Some(v) => Ok(StoveCommand::IdleTemperature(v)),
            None => Err(CommandError::InvalidPayload),
        }
    } else if text_eq(attribute, "power-heating") {
        match parse_i32(payload) {
            Some(v) => Ok(StoveCommand::PowerHeating(v)),
            None => Err(CommandError::InvalidPayload),
        }
    } else if text_eq(attribute, "daily-schedules-enable") {
        match parse_bool(payload) {
            Some(v) => Ok(StoveCommand::DailySchedulesEnabled(v)),
            None => Err(CommandError::InvalidPayload),
        }
    } else if text_eq(attribute, "frost-protection-enable") {
        match parse_bool(payload) {
            Some(v) => Ok(StoveCommand::FrostProtectionEnabled(v)),
            None => Err(CommandError::InvalidPayload),
        }
    } else if text_eq(attribute, "frost-protection-temp") {
        match decimal_text(payload) {
            Some(v) => Ok(StoveCommand::FrostProtectionTemperature(v)),
            None => Err(CommandError::InvalidPayload),
        }
    } else {
        Err(CommandError::UnsupportedAttribute(String::from_str(attribute)))
    }
}

impl RikaFirenetCommand {
    /// Decodes a message received on `rika-firenet/<stove>/<attribute>/set`
    /// into a command for that stove.
    pub fn try_from(msg: MqttMessage) -> (r: Result<RikaFirenetCommand, CommandError>)
        ensures
            (r == Err::<RikaFirenetCommand, CommandError>(CommandError::UnparsableTopic)) <==> !exists|
                stove: Seq<char>,
                attribute: Seq<char>,
            |
                is_segment(stove) && is_segment(attribute) && msg.topic@ == command_topic(
                    stove,
                    attribute,
                ),
            forall|stove: Seq<char>, attribute: Seq<char>|
                is_segment(stove) && is_segment(attribute) && #[trigger] command_topic(stove, attribute)
                    == msg.topic@ ==> match r {
                    Ok(c) => {
                        &&& c.topic_prefix@ == COMMON_BASE_TOPIC@ + seq!['/'] + stove
                        &&& known_attribute(attribute)
                        &&& command_matches(attribute, msg.payload@, c.command)
                    },
                    Err(CommandError::UnsupportedAttribute(a)) => !known_attribute(attribute) && a@
                        == attribute,
                    Err(CommandError::InvalidPayload) => known_attribute(attribute) && !payload_fits(
                        attribute,
                        msg.payload@,
                    ),
                    Err(CommandError::UnparsableTopic) => false,
                },
    {
        match split_command_topic(msg.topic.as_str()) {
            None => Err(CommandError::UnparsableTopic),
            Some(parts) => {
                proof {
                    lemma_command_topic_unique(msg.topic@, parts.attribute@);
                }
                match command_for(parts.attribute.as_str(), msg.payload.as_str()) {
                    Ok(command) => Ok(RikaFirenetCommand { topic_prefix: parts.prefix, command }),
                    Err(e) => Err(e),
                }
            },
        }
    }
}

/// A command topic determines its stove and its attribute.
proof fn lemma_command_topic_unique(topic: Seq<char>, attribute: Seq<char>)
    ensures
        forall|s1: Seq<char>, a1: Seq<char>, s2: Seq<char>, a2: Seq<char>|
            is_segment(s1) && is_segment(a1) && is_segment(s2) && is_segment(a2) && #[trigger] command_topic(s1, a1)
                == topic && #[trigger] command_topic(s2, a2) == topic ==> s1 == s2 && a1 == a2,
{
    assert forall|s1: Seq<char>, a1: Seq<char>, s2: Seq<char>, a2: Seq<char>|
        is_segment(s1) && is_segment(a1) && is_segment(s2) && is_segment(a2) && #[trigger] command_topic(s1, a1)
            == topic && #[trigger] command_topic(s2, a2) == topic implies s1 == s2 && a1 == a2 by {
        lemma_segments_agree(topic, s1, a1, s2, a2);
    }
}

proof fn lemma_segments_agree(topic: Seq<char>, s1: Seq<char>, a1: Seq<char>, s2: Seq<char>, a2: Seq<char>)
    requires
        is_segment(s1),
        is_segment(a1),
        is_segment(s2),
        is_segment(a2),
        command_topic(s1, a1) == topic,
        command_topic(s2, a2) == topic,
    ensures
        s1 == s2,
        a1 == a2,
{
    reveal_strlit("/set");
    let b = COMMON_BASE_TOPIC@;
    let o: int = b.len() as int + 1;
    // the stove part ends at the first `/` after the base
    if s1.len() < s2.len() {
        assert(topic[o + s1.len()] == '/');
        assert(topic[o + s1.len()] == s2[s1.len() as int]);
    } else if s2.len() < s1.len() {
        assert(topic[o + s2.len()] == '/');
        assert(topic[o + s2.len()] == s1[s2.len() as int]);
    }
    assert(s1.len() == s2.len());
    assert forall|j: int| 0 <= j < s1.len() implies s1[j] == s2[j] by {
        assert(topic[o + j] == s1[j]);
        assert(topic[o + j] == s2[j]);
    }
    assert(s1 =~= s2);
    assert(command_topic(s1, a1).len() == o + s1.len() + 1 + a1.len() + 4);
    assert(command_topic(s2, a2).len() == o + s2.len() + 1 + a2.len() + 4);
    let o2: int = o + s1.len() + 1;
    assert(a1.len() == a2.len());
    assert forall|j: int| 0 <= j < a1.len() implies a1[j] == a2[j] by {
        assert(topic[o2 + j] == a1[j]);
        assert(topic[o2 + j] == a2[j]);
    }
    assert(a1 =~= a2);
}

} // verus!
