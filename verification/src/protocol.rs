//! Wire protocol: the tagged messages exchanged over a session socket and
//! their JSON text form.
//!
//! Every application frame is one JSON object `{"Tag":payload}`, where the
//! payload is a quoted string (chat text, a status name, a score) or
//! `null`.  Chat text is escaped: quote, backslash, newline, carriage
//! return and tab by their two-character escapes, any other control
//! character as `\u00XX` with two lowercase hex digits.

use crate::scores::parse_scores_text;
use crate::scores::scores_text;
use crate::scores::Scores;
use crate::text::chars_to_string;
use crate::text::digit_char;
use crate::text::digit_val;
use crate::text::is_digit;
use crate::text::str_to_chars;
use vstd::prelude::*;

verus! {

/// Where a user stands: unknown to the coordinator, in an active pair,
/// waiting to be paired, or connected but resting.
#[derive(Clone, Copy, Debug, PartialEq, Eq, Structural)]
pub enum UserStatus {
    Disconnected,
    Connected,
    Waiting,
    Idle,
}

/// A lifecycle transition a client may request.
#[derive(Clone, Copy, Debug, PartialEq, Eq, Structural)]
pub enum ChangeState {
    Waiting,
    Idle,
}

/// One application frame, in either direction.
#[derive(Clone, Debug)]
pub enum SocketMessage {
    /// Chat text for the peer.
    User(String),
    /// A server-originated notice.
    Info(String),
    /// The peer's score, disclosed when a pair starts.
    PeerScores(Scores),
    /// Answer to a status query.
    Status(UserStatus),
    /// A request to move to the named state.
    StateChange(ChangeState),
    /// The peer has departed; the session is over.
    ConnectionClosed,
    /// A status query.
    GetStatus,
    /// Liveness probe; any inbound frame refreshes the read-timeout.
    Ping,
    /// Liveness answer.
    Pong,
}

impl SocketMessage {
    /// A message whose payload is legal: scores within range.  Text
    /// payloads are unrestricted.
    pub open spec fn wf(self) -> bool {
        match self {
            SocketMessage::PeerScores(sc) => sc.wf(),
            _ => true,
        }
    }
}

/// Two messages carry the same tag and the same payload.  Text payloads
/// are compared by their characters.
pub open spec fn msg_matches(a: SocketMessage, b: SocketMessage) -> bool {
    match (a, b) {
        (SocketMessage::User(x), SocketMessage::User(y)) => x@ == y@,
        (SocketMessage::Info(x), SocketMessage::Info(y)) => x@ == y@,
        _ => a == b,
    }
}

/// Lowercase hex digit for a value in 0 ..= 15.
pub open spec fn hex_char(v: int) -> char {
    if v < 10 {
        digit_char(v)
    } else if v == 10 {
        'a'
    } else if v == 11 {
        'b'
    } else if v == 12 {
        'c'
    } else if v == 13 {
        'd'
    } else if v == 14 {
        'e'
    } else {
        'f'
    }
}

/// Lowercase hex digit test.
pub open spec fn is_hex(c: char) -> bool {
    is_digit(c) || ('a' <= c && c <= 'f')
}

/// Numeric value of a lowercase hex digit.
pub open spec fn hex_val(c: char) -> int {
    if is_digit(c) {
        digit_val(c)
    } else {
        c as int - 'a' as int + 10
    }
}

/// The escape of one character of chat text.
pub open spec fn escape_char(c: char) -> Seq<char> {
    if c == '"' {
        seq!['\\', '"']
    } else if c == '\\' {
        seq!['\\', '\\']
    } else if c == '\n' {
        seq!['\\', 'n']
    } else if c == '\r' {
        seq!['\\', 'r']
    } else if c == '\t' {
        seq!['\\', 't']
    } else if (c as u32) < 32 {
        seq!['\\', 'u', '0', '0', hex_char(c as u32 as int / 16), hex_char(c as u32 as int % 16)]
    } else {
        seq![c]
    }
}

/// The escaped form of a text.
pub open spec fn escape(s: Seq<char>) -> Seq<char>
    decreases s.len(),
{
    if s.len() == 0 {
        Seq::empty()
    } else {
        escape_char(s[0]) + escape(s.drop_first())
    }
}

/// Reads an escaped text back.  Nothing is accepted after a backslash but
/// the five named escapes and `\u00XX` with a value below 32, and a bare
/// quote is refused.
pub open spec fn unescape(s: Seq<char>) -> Option<Seq<char>>
    decreases s.len(),
{
    if s.len() == 0 {
        Some(Seq::empty())
    } else if s[0] == '\\' {
        if s.len() >= 2 && (s[1] == '"' || s[1] == '\\' || s[1] == 'n' || s[1] == 'r' || s[1]
            == 't') {
            let c = if s[1] == '"' {
                '"'
            } else if s[1] == '\\' {
                '\\'
            } else if s[1] == 'n' {
                '\n'
            } else if s[1] == 'r' {
                '\r'
            } else {
                '\t'
            };
            match unescape(s.skip(2)) {
                Some(t) => Some(seq![c] + t),
                None => None,
            }
        } else if s.len() >= 6 && s[1] == 'u' && s[2] == '0' && s[3] == '0' && is_hex(s[4])
            && is_hex(s[5]) && hex_val(s[4]) * 16 + hex_val(s[5]) < 32 {
            match unescape(s.skip(6)) {
                Some(t) => Some(seq![(hex_val(s[4]) * 16 + hex_val(s[5])) as char] + t),
                None => None,
            }
        } else {
            None
        }
    } else if s[0] == '"' {
        None
    } else {
        match unescape(s.skip(1)) {
            Some(t) => Some(seq![s[0]] + t),
            None => None,
        }
    }
}

/// A whole frame: the tag as an object key, then the body.
pub open spec fn frame(tag: Seq<char>, body: Seq<char>) -> Seq<char> {
    seq!['{', '"'] + tag + seq!['"', ':'] + body + seq!['}']
}

/// A string payload between quotes.
pub open spec fn quoted(payload: Seq<char>) -> Seq<char> {
    seq!['"'] + payload + seq!['"']
}

/// The wire name of a status.
pub open spec fn status_text(st: UserStatus) -> Seq<char> {
    match st {
        UserStatus::Disconnected => "Disconnected"@,
        UserStatus::Connected => "Connected"@,
        UserStatus::Waiting => "Waiting"@,
        UserStatus::Idle => "Idle"@,
    }
}

/// The wire name of a requested state.
pub open spec fn change_text(cs: ChangeState) -> Seq<char> {
    match cs {
        ChangeState::Waiting => "Waiting"@,
        ChangeState::Idle => "Idle"@,
    }
}

/// The tag of a message.
pub open spec fn tag_text(m: SocketMessage) -> Seq<char> {
    match m {
        SocketMessage::User(_) => "User"@,
        SocketMessage::Info(_) => "Info"@,
        SocketMessage::PeerScores(_) => "PeerScores"@,
        SocketMessage::Status(_) => "Status"@,
        SocketMessage::StateChange(_) => "StateChange"@,
        SocketMessage::ConnectionClosed => "ConnectionClosed"@,
        SocketMessage::GetStatus => "GetStatus"@,
        SocketMessage::Ping => "Ping"@,
        SocketMessage::Pong => "Pong"@,
    }
}

/// The body of a message: a quoted payload, or `null` for the bare tags.
pub open spec fn body_text(m: SocketMessage) -> Seq<char> {
    match m {
        SocketMessage::User(s) => quoted(escape(s@)),
        SocketMessage::Info(s) => quoted(escape(s@)),
        SocketMessage::PeerScores(sc) => quoted(scores_text(sc)),
        SocketMessage::Status(st) => quoted(status_text(st)),
        SocketMessage::StateChange(cs) => quoted(change_text(cs)),
        _ => "null"@,
    }
}

/// The full wire text of a message.
pub open spec fn spec_encode(m: SocketMessage) -> Seq<char> {
    frame(tag_text(m), body_text(m))
}

/// Appends the characters of a string slice.
fn push_str_chars(out: &mut Vec<char>, s: &str)
    ensures
        final(out)@ == old(out)@ + s@,
{
    let n = s.unicode_len();
    let mut i: usize = 0;
    while i < n
        invariant
            n == s@.len(),
            i <= n,
            out@ == old(out)@ + s@.subrange(0, i as int),
        decreases n - i,
    {
        out.push(s.get_char(i));
        i = i + 1;
        proof {
            assert(out@ =~= old(out)@ + s@.subrange(0, i as int));
        }
    }
    proof {
        assert(out@ =~= old(out)@ + s@);
    }
}

/// Lowercase hex digit for an executable value below sixteen.
fn hex_exec(v: u32) -> (c: char)
    requires
        v < 16,
    ensures
        c == hex_char(v as int),
{
    match v {
        0 => '0',
        1 => '1',
        2 => '2',
        3 => '3',
        4 => '4',
        5 => '5',
        6 => '6',
        7 => '7',
        8 => '8',
        9 => '9',
        10 => 'a',
        11 => 'b',
        12 => 'c',
        13 => 'd',
        14 => 'e',
        _ => 'f',
    }
}

/// Appends the escape of one character.
fn escape_push(out: &mut Vec<char>, c: char)
    ensures
        final(out)@ == old(out)@ + escape_char(c),
{
    if c == '"' {
        out.push('\\');
        out.push('"');
    } else if c == '\\' {
        out.push('\\');
        out.push('\\');
    } else if c == '\n' {
        out.push('\\');
        out.push('n');
    } else if c == '\r' {
        out.push('\\');
        out.push('r');
    } else if c == '\t' {
        out.push('\\');
        out.push('t');
    } else {
        let code = c as u32;
        if code < 32 {
            out.push('\\');
            out.push('u');
            out.push('0');
            out.push('0');
            out.push(hex_exec(code / 16));
            out.push(hex_exec(code % 16));
        } else {
            out.push(c);
        }
    }
    proof {
        assert(out@ =~= old(out)@ + escape_char(c));
    }
}

/// Appends the escaped form of a text.
fn escape_chars(out: &mut Vec<char>, v: &Vec<char>)
    ensures
        final(out)@ == old(out)@ + escape(v@),
{
    let mut i: usize = 0;
    while i < v.len()
        invariant
            i <= v@.len(),
            out@ == old(out)@ + escape(v@.subrange(0, i as int)),
        decreases v@.len() - i,
    {
        proof {
            lemma_escape_append(v@.subrange(0, i as int), seq![v@[i as int]]);
            assert(v@.subrange(0, i + 1) =~= v@.subrange(0, i as int) + seq![v@[i as int]]);
            assert(seq![v@[i as int]].drop_first() =~= Seq::<char>::empty());
            assert(escape(Seq::<char>::empty()) =~= Seq::<char>::empty());
            assert(escape(seq![v@[i as int]]) =~= escape_char(v@[i as int]));
        }
        escape_push(out, v[i]);
        i = i + 1;
    }
    proof {
        assert(v@.subrange(0, v@.len() as int) =~= v@);
    }
}

/// Renders a message as its wire text.
pub fn encode_message(m: &SocketMessage) -> (r: String)
    requires
        m.wf(),
    ensures
        r@ == spec_encode(*m),
{
    let mut out: Vec<char> = Vec::new();
    match m {
        SocketMessage::User(s) => {
            push_str_chars(&mut out, "{\"User\":\"");
            let sv = str_to_chars(s.as_str());
            escape_chars(&mut out, &sv);
            push_str_chars(&mut out, "\"}");
            proof {
                reveal_strlit("{\"User\":\"");
                reveal_strlit("\"}");
                reveal_strlit("User");
            }
        },
        SocketMessage::Info(s) => {
            push_str_chars(&mut out, "{\"Info\":\"");
            let sv = str_to_chars(s.as_str());
            escape_chars(&mut out, &sv);
            push_str_chars(&mut out, "\"}");
            proof {
                reveal_strlit("{\"Info\":\"");
                reveal_strlit("\"}");
                reveal_strlit("Info");
            }
        },
        SocketMessage::PeerScores(sc) => {
            push_str_chars(&mut out, "{\"PeerScores\":\"");
            let t = sc.to_text();
            push_str_chars(&mut out, t.as_str());
            push_str_chars(&mut out, "\"}");
            proof {
                reveal_strlit("{\"PeerScores\":\"");
                reveal_strlit("\"}");
                reveal_strlit("PeerScores");
            }
        },
        SocketMessage::Status(st) => {
            push_str_chars(&mut out, "{\"Status\":\"");
            match st {
                UserStatus::Disconnected => push_str_chars(&mut out, "Disconnected"),
                UserStatus::Connected => push_str_chars(&mut out, "Connected"),
                UserStatus::Waiting => push_str_chars(&mut out, "Waiting"),
                UserStatus::Idle => push_str_chars(&mut out, "Idle"),
            }
            push_str_chars(&mut out, "\"}");
            proof {
                reveal_strlit("{\"Status\":\"");
                reveal_strlit("\"}");
                reveal_strlit("Status");
            }
        },
        SocketMessage::StateChange(cs) => {
            push_str_chars(&mut out, "{\"StateChange\":\"");
            match cs {
                ChangeState::Waiting => push_str_chars(&mut out, "Waiting"),
                ChangeState::Idle => push_str_chars(&mut out, "Idle"),
            }
            push_str_chars(&mut out, "\"}");
            proof {
                reveal_strlit("{\"StateChange\":\"");
                reveal_strlit("\"}");
                reveal_strlit("StateChange");
            }
        },
        SocketMessage::ConnectionClosed => {
            push_str_chars(&mut out, "{\"ConnectionClosed\":null}");
            proof {
                reveal_strlit("{\"ConnectionClosed\":null}");
                reveal_strlit("ConnectionClosed");
                reveal_strlit("null");
            }
        },
        SocketMessage::GetStatus => {
            push_str_chars(&mut out, "{\"GetStatus\":null}");
            proof {
                reveal_strlit("{\"GetStatus\":null}");
                reveal_strlit("GetStatus");
                reveal_strlit("null");
            }
        },
        SocketMessage::Ping => {
            push_str_chars(&mut out, "{\"Ping\":null}");
            proof {
                reveal_strlit("{\"Ping\":null}");
                reveal_strlit("Ping");
                reveal_strlit("null");
            }
        },
        SocketMessage::Pong => {
            push_str_chars(&mut out, "{\"Pong\":null}");
            proof {
                reveal_strlit("{\"Pong\":null}");
                reveal_strlit("Pong");
                reveal_strlit("null");
            }
        },
    }
    proof {
        assert(out@ =~= spec_encode(*m));
    }
    chars_to_string(&out)
}

/// Escaping distributes over concatenation.
pub proof fn lemma_escape_append(s1: Seq<char>, s2: Seq<char>)
    ensures
        escape(s1 + s2) == escape(s1) + escape(s2),
    decreases s1.len(),
{
    if s1.len() == 0 {
        assert(s1 + s2 =~= s2);
        assert(escape(s1) + escape(s2) =~= escape(s2));
    } else {
        lemma_escape_append(s1.drop_first(), s2);
        assert((s1 + s2).drop_first() =~= s1.drop_first() + s2);
        assert((s1 + s2)[0] == s1[0]);
        assert(escape(s1 + s2) =~= escape_char(s1[0]) + (escape(s1.drop_first()) + escape(s2)));
        assert(escape(s1) + escape(s2) =~= escape_char(s1[0]) + (escape(s1.drop_first()) + escape(
            s2,
        )));
    }
}

/// Reading an escaped text back gives the text.
pub proof fn lemma_unescape_escape(s: Seq<char>)
    ensures
        unescape(escape(s)) == Some(s),
    decreases s.len(),
{
    if s.len() == 0 {
    } else {
        let c = s[0];
        let rest = s.drop_first();
        lemma_unescape_escape(rest);
        let e = escape(s);
        assert(e == escape_char(c) + escape(rest));
        if c == '"' || c == '\\' || c == '\n' || c == '\r' || c == '\t' {
            assert(e[0] == '\\');
            assert(e.skip(2) =~= escape(rest));
            assert(seq![c] + rest =~= s);
        } else if (c as u32) < 32 {
            let code = c as u32 as int;
            assert(e[0] == '\\');
            assert(e[1] == 'u');
            assert(e[2] == '0');
            assert(e[3] == '0');
            assert(e[4] == hex_char(code / 16));
            assert(e[5] == hex_char(code % 16));
            assert(0 <= code < 32);
            assert(is_hex(hex_char(code / 16)));
            assert(is_hex(hex_char(code % 16)));
            assert(hex_val(hex_char(code / 16)) == code / 16);
            assert(hex_val(hex_char(code % 16)) == code % 16);
            assert((code / 16) * 16 + code % 16 == code);
            assert(e.skip(6) =~= escape(rest));
            vstd::utf8::char_u32_cast(c, c as u32);
            assert((code as char) == c);
            assert(seq![c] + rest =~= s);
        } else {
            assert(e[0] == c);
            assert(e.skip(1) =~= escape(rest));
            assert(seq![c] + rest =~= s);
        }
    }
}

/// Two messages built by the same constructor.
pub open spec fn same_variant(a: SocketMessage, b: SocketMessage) -> bool {
    match (a, b) {
        (SocketMessage::User(_), SocketMessage::User(_)) => true,
        (SocketMessage::Info(_), SocketMessage::Info(_)) => true,
        (SocketMessage::PeerScores(_), SocketMessage::PeerScores(_)) => true,
        (SocketMessage::Status(_), SocketMessage::Status(_)) => true,
        (SocketMessage::StateChange(_), SocketMessage::StateChange(_)) => true,
        (SocketMessage::ConnectionClosed, SocketMessage::ConnectionClosed) => true,
        (SocketMessage::GetStatus, SocketMessage::GetStatus) => true,
        (SocketMessage::Ping, SocketMessage::Ping) => true,
        (SocketMessage::Pong, SocketMessage::Pong) => true,
        _ => false,
    }
}

/// Lengths and distinguishing characters of the nine tags.
proof fn lemma_tag_facts()
    ensures
        "User"@.len() == 4 && "User"@[0] == 'U',
        "Info"@.len() == 4 && "Info"@[0] == 'I',
        "PeerScores"@.len() == 10 && "PeerScores"@[0] == 'P' && "PeerScores"@[1] == 'e',
        "Status"@.len() == 6 && "Status"@[0] == 'S' && "Status"@[1] == 't' && "Status"@[4] == 'u',
        "StateChange"@.len() == 11 && "StateChange"@[0] == 'S' && "StateChange"@[1] == 't'
            && "StateChange"@[4] == 'e',
        "ConnectionClosed"@.len() == 16 && "ConnectionClosed"@[0] == 'C',
        "GetStatus"@.len() == 9 && "GetStatus"@[0] == 'G',
        "Ping"@.len() == 4 && "Ping"@[0] == 'P' && "Ping"@[1] == 'i',
        "Pong"@.len() == 4 && "Pong"@[0] == 'P' && "Pong"@[1] == 'o',
{
    reveal_strlit("User");
    reveal_strlit("Info");
    reveal_strlit("PeerScores");
    reveal_strlit("Status");
    reveal_strlit("StateChange");
    reveal_strlit("ConnectionClosed");
    reveal_strlit("GetStatus");
    reveal_strlit("Ping");
    reveal_strlit("Pong");
}

/// Lengths of the status and state names, which tell them apart.
proof fn lemma_name_facts()
    ensures
        "Disconnected"@.len() == 12,
        "Connected"@.len() == 9,
        "Waiting"@.len() == 7,
        "Idle"@.len() == 4,
{
    reveal_strlit("Disconnected");
    reveal_strlit("Connected");
    reveal_strlit("Waiting");
    reveal_strlit("Idle");
}

/// The opening characters of a frame expose the tag.
proof fn lemma_encode_head(m: SocketMessage)
    ensures
        spec_encode(m).len() == tag_text(m).len() + body_text(m).len() + 5,
        tag_text(m).len() >= 1 ==> spec_encode(m)[2] == tag_text(m)[0],
        tag_text(m).len() >= 2 ==> spec_encode(m)[3] == tag_text(m)[1],
        tag_text(m).len() >= 5 ==> spec_encode(m)[6] == tag_text(m)[4],
{
}

/// Equal frames carry the same tag, hence come from the same constructor.
proof fn lemma_same_variant(m1: SocketMessage, m2: SocketMessage)
    requires
        spec_encode(m1) == spec_encode(m2),
    ensures
        same_variant(m1, m2),
{
    lemma_tag_facts();
    lemma_encode_head(m1);
    lemma_encode_head(m2);
    let e = spec_encode(m1);
    let t1 = tag_text(m1);
    let t2 = tag_text(m2);
    assert(t1.len() >= 4 && t2.len() >= 4);
    assert(e[2] == t1[0] && e[2] == t2[0]);
    assert(e[3] == t1[1] && e[3] == t2[1]);
    assert(t1.len() >= 5 ==> e[6] == t1[4]);
    assert(t2.len() >= 5 ==> e[6] == t2[4]);
    assert(same_variant(m1, m2));
}

/// How a frame with a quoted body splits into prefix, payload and close.
proof fn lemma_quoted_frame(tag: Seq<char>, payload: Seq<char>, s: Seq<char>)
    requires
        s == frame(tag, quoted(payload)),
    ensures
        s.len() == tag.len() + payload.len() + 7,
        s.subrange(0, tag.len() as int + 5) == seq!['{', '"'] + tag + seq!['"', ':', '"'],
        payload == s.subrange(tag.len() as int + 5, s.len() as int - 2),
        s[s.len() - 2] == '"',
        s[s.len() - 1] == '}',
{
    assert(s.subrange(0, tag.len() as int + 5) =~= seq!['{', '"'] + tag + seq!['"', ':', '"']);
    assert(payload =~= s.subrange(tag.len() as int + 5, s.len() as int - 2));
}

/// Two well-formed messages with the same wire text carry the same tag and
/// the same payload.
pub proof fn lemma_encode_injective(m1: SocketMessage, m2: SocketMessage)
    requires
        m1.wf(),
        m2.wf(),
        spec_encode(m1) == spec_encode(m2),
    ensures
        msg_matches(m1, m2),
{
    lemma_same_variant(m1, m2);
    lemma_encode_head(m1);
    lemma_encode_head(m2);
    let e = spec_encode(m1);
    let lt = tag_text(m1).len() as int;
    assert(tag_text(m1) == tag_text(m2));
    assert(body_text(m1) =~= e.subrange(lt + 4, e.len() - 1));
    assert(body_text(m2) =~= e.subrange(lt + 4, e.len() - 1));
    match (m1, m2) {
        (SocketMessage::User(s1), SocketMessage::User(s2)) => {
            let b = body_text(m1);
            assert(escape(s1@) =~= b.subrange(1, b.len() - 1));
            assert(escape(s2@) =~= b.subrange(1, b.len() - 1));
            lemma_unescape_escape(s1@);
            lemma_unescape_escape(s2@);
        },
        (SocketMessage::Info(s1), SocketMessage::Info(s2)) => {
            let b = body_text(m1);
            assert(escape(s1@) =~= b.subrange(1, b.len() - 1));
            assert(escape(s2@) =~= b.subrange(1, b.len() - 1));
            lemma_unescape_escape(s1@);
            lemma_unescape_escape(s2@);
        },
        (SocketMessage::PeerScores(sc1), SocketMessage::PeerScores(sc2)) => {
            let b = body_text(m1);
            assert(scores_text(sc1) =~= b.subrange(1, b.len() - 1));
            assert(scores_text(sc2) =~= b.subrange(1, b.len() - 1));
            crate::scores::lemma_scores_text_injective(sc1, sc2);
        },
        (SocketMessage::Status(st1), SocketMessage::Status(st2)) => {
            let b = body_text(m1);
            assert(status_text(st1) =~= b.subrange(1, b.len() - 1));
            assert(status_text(st2) =~= b.subrange(1, b.len() - 1));
            lemma_name_facts();
            assert(st1 == st2);
        },
        (SocketMessage::StateChange(c1), SocketMessage::StateChange(c2)) => {
            let b = body_text(m1);
            assert(change_text(c1) =~= b.subrange(1, b.len() - 1));
            assert(change_text(c2) =~= b.subrange(1, b.len() - 1));
            lemma_name_facts();
            assert(c1 == c2);
        },
        _ => {},
    }
}

/// Compares a character vector with a string slice.
fn chars_eq(v: &Vec<char>, p: &str) -> (r: bool)
    ensures
        r == (v@ == p@),
{
    let n = p.unicode_len();
    if v.len() != n {
        return false;
    }
    let mut i: usize = 0;
    while i < n
        invariant
            n == p@.len() == v@.len(),
            i <= n,
            forall|j: int| 0 <= j < i ==> v@[j] == p@[j],
        decreases n - i,
    {
        if v[i] != p.get_char(i) {
            return false;
        }
        i = i + 1;
    }
    proof {
        assert(v@ =~= p@);
    }
    true
}

/// Does the vector start with the characters of `p`?
fn has_prefix(v: &Vec<char>, p: &str) -> (r: bool)
    ensures
        r == (v@.len() >= p@.len() && v@.subrange(0, p@.len() as int) == p@),
{
    let n = p.unicode_len();
    if v.len() < n {
        return false;
    }
    let mut i: usize = 0;
    while i < n
        invariant
            n == p@.len() <= v@.len(),
            i <= n,
            forall|j: int| 0 <= j < i ==> v@[j] == p@[j],
        decreases n - i,
    {
        if v[i] != p.get_char(i) {
            proof {
                assert(v@.subrange(0, p@.len() as int)[i as int] != p@[i as int]);
            }
            return false;
        }
        i = i + 1;
    }
    proof {
        assert(v@.subrange(0, p@.len() as int) =~= p@);
    }
    true
}

/// Copies the characters between `start` and `end` into a fresh vector.
fn copy_range(v: &Vec<char>, start: usize, end: usize) -> (r: Vec<char>)
    requires
        start <= end <= v@.len(),
    ensures
        r@ == v@.subrange(start as int, end as int),
{
    let mut r: Vec<char> = Vec::new();
    let mut i: usize = start;
    while i < end
        invariant
            start <= i <= end <= v@.len(),
            r@ == v@.subrange(start as int, i as int),
        decreases end - i,
    {
        r.push(v[i]);
        i = i + 1;
        proof {
            assert(r@ =~= v@.subrange(start as int, i as int));
        }
    }
    r
}

/// The numeric value of a lowercase hex digit character, or nothing.
fn hex_digit(c: char) -> (r: Option<u32>)
    ensures
        r is Some <==> is_hex(c),
        r is Some ==> r->0 == hex_val(c) && r->0 < 16,
{
    match c {
        '0' => Some(0),
        '1' => Some(1),
        '2' => Some(2),
        '3' => Some(3),
        '4' => Some(4),
        '5' => Some(5),
        '6' => Some(6),
        '7' => Some(7),
        '8' => Some(8),
        '9' => Some(9),
        'a' => Some(10),
        'b' => Some(11),
        'c' => Some(12),
        'd' => Some(13),
        'e' => Some(14),
        'f' => Some(15),
        _ => None,
    }
}

/// Reads an escaped text back, character by character.
fn unescape_chars(v: &Vec<char>) -> (r: Option<Vec<char>>)
    ensures
        unescape(v@) is Some ==> r is Some && r->0@ == unescape(v@)->0,
        unescape(v@) is None ==> r is None,
{
    let mut out: Vec<char> = Vec::new();
    let mut i: usize = 0;
    let n = v.len();
    proof {
        assert(v@.skip(0) =~= v@);
    }
    while i < n
        invariant
            i <= n == v@.len(),
            unescape(v@) is Some <==> unescape(v@.skip(i as int)) is Some,
            unescape(v@) is Some ==> unescape(v@)->0 == out@ + unescape(v@.skip(i as int))->0,
        decreases n - i,
    {
        let ghost rem = v@.skip(i as int);
        proof {
            assert(rem[0] == v@[i as int]);
        }
        let c = v[i];
        if c == '\\' {
            if i + 1 >= n {
                proof {
                    assert(rem.len() == 1);
                    assert(unescape(rem) is None);
                }
                return None;
            }
            proof {
                assert(rem[1] == v@[i + 1]);
            }
            let c2 = v[i + 1];
            if c2 == '"' || c2 == '\\' || c2 == 'n' || c2 == 'r' || c2 == 't' {
                let mapped = if c2 == '"' {
                    '"'
                } else if c2 == '\\' {
                    '\\'
                } else if c2 == 'n' {
                    '\n'
                } else if c2 == 'r' {
                    '\r'
                } else {
                    '\t'
                };
                proof {
                    assert(rem.skip(2) =~= v@.skip(i + 2));
                }
                out.push(mapped);
                i = i + 2;
                proof {
                    if unescape(v@) is Some {
                        assert(out@ + unescape(v@.skip(i as int))->0 =~= out@.drop_last() + (seq![
                            mapped,
                        ] + unescape(v@.skip(i as int))->0));
                    }
                }
            } else if c2 == 'u' {
                if n - i < 6 {
                    proof {
                        assert(rem.len() < 6);
                        assert(unescape(rem) is None);
                    }
                    return None;
                }
                proof {
                    assert(rem[2] == v@[i + 2]);
                    assert(rem[3] == v@[i + 3]);
                    assert(rem[4] == v@[i + 4]);
                    assert(rem[5] == v@[i + 5]);
                }
                if v[i + 2] != '0' || v[i + 3] != '0' {
                    proof {
                        assert(unescape(rem) is None);
                    }
                    return None;
                }
                let h = hex_digit(v[i + 4]);
                let l = hex_digit(v[i + 5]);
                match (h, l) {
                    (Some(h), Some(l)) => {
                        let code = h * 16 + l;
                        if code >= 32 {
                            proof {
                                assert(unescape(rem) is None);
                            }
                            return None;
                        }
                        let mapped = (code as u8) as char;
                        proof {
                            assert(mapped == (hex_val(rem[4]) * 16 + hex_val(rem[5])) as char);
                            assert(rem.skip(6) =~= v@.skip(i + 6));
                        }
                        out.push(mapped);
                        i = i + 6;
                        proof {
                            if unescape(v@) is Some {
                                assert(out@ + unescape(v@.skip(i as int))->0 =~= out@.drop_last()
                                    + (seq![mapped] + unescape(v@.skip(i as int))->0));
                            }
                        }
                    },
                    _ => {
                        proof {
                            assert(unescape(rem) is None);
                        }
                        return None;
                    },
                }
            } else {
                proof {
                    assert(unescape(rem) is None);
                }
                return None;
            }
        } else if c == '"' {
            proof {
                assert(unescape(rem) is None);
            }
            return None;
        } else {
            proof {
                assert(rem.skip(1) =~= v@.skip(i + 1));
            }
            out.push(c);
            i = i + 1;
            proof {
                if unescape(v@) is Some {
                    assert(out@ + unescape(v@.skip(i as int))->0 =~= out@.drop_last() + (seq![c]
                        + unescape(v@.skip(i as int))->0));
                }
            }
        }
    }
    proof {
        assert(v@.skip(n as int) =~= Seq::<char>::empty());
        if unescape(v@) is Some {
            assert(unescape(v@)->0 =~= out@);
        }
    }
    Some(out)
}

impl SocketMessage {
    /// The wire text of a chat message.
    pub fn user_msg(msg: String) -> (r: String)
        ensures
            r@ == spec_encode(SocketMessage::User(msg)),
    {
        encode_message(&SocketMessage::User(msg))
    }

    /// The wire text of a server notice.
    pub fn info_msg(msg: String) -> (r: String)
        ensures
            r@ == spec_encode(SocketMessage::Info(msg)),
    {
        encode_message(&SocketMessage::Info(msg))
    }

    /// The wire text disclosing a peer's score.
    pub fn peer_scores(scores: Scores) -> (r: String)
        requires
            scores.wf(),
        ensures
            r@ == spec_encode(SocketMessage::PeerScores(scores)),
    {
        encode_message(&SocketMessage::PeerScores(scores))
    }

    /// The wire text of this message.
    pub fn into_message(self) -> (r: String)
        requires
            self.wf(),
        ensures
            r@ == spec_encode(self),
    {
        encode_message(&self)
    }

    /// The wire text announcing the session's end.
    pub fn close_connection() -> (r: String)
        ensures
            r@ == spec_encode(SocketMessage::ConnectionClosed),
    {
        encode_message(&SocketMessage::ConnectionClosed)
    }

    /// The wire text of a liveness probe.
    pub fn ping() -> (r: String)
        ensures
            r@ == spec_encode(SocketMessage::Ping),
    {
        encode_message(&SocketMessage::Ping)
    }

    /// The wire text of a liveness answer.
    pub fn pong() -> (r: String)
        ensures
            r@ == spec_encode(SocketMessage::Pong),
    {
        encode_message(&SocketMessage::Pong)
    }
}

/// The text payload of a chat or notice message.
pub open spec fn text_payload(m: SocketMessage) -> Seq<char> {
    match m {
        SocketMessage::User(s) => s@,
        SocketMessage::Info(s) => s@,
        _ => Seq::empty(),
    }
}

/// The wire text of every constant frame.
proof fn lemma_constant_frames()
    ensures
        spec_encode(SocketMessage::ConnectionClosed) == "{\"ConnectionClosed\":null}"@,
        spec_encode(SocketMessage::GetStatus) == "{\"GetStatus\":null}"@,
        spec_encode(SocketMessage::Ping) == "{\"Ping\":null}"@,
        spec_encode(SocketMessage::Pong) == "{\"Pong\":null}"@,
        spec_encode(SocketMessage::Status(UserStatus::Disconnected))
            == "{\"Status\":\"Disconnected\"}"@,
        spec_encode(SocketMessage::Status(UserStatus::Connected)) == "{\"Status\":\"Connected\"}"@,
        spec_encode(SocketMessage::Status(UserStatus::Waiting)) == "{\"Status\":\"Waiting\"}"@,
        spec_encode(SocketMessage::Status(UserStatus::Idle)) == "{\"Status\":\"Idle\"}"@,
        spec_encode(SocketMessage::StateChange(ChangeState::Waiting))
            == "{\"StateChange\":\"Waiting\"}"@,
        spec_encode(SocketMessage::StateChange(ChangeState::Idle))
            == "{\"StateChange\":\"Idle\"}"@,
{
    reveal_strlit("{\"ConnectionClosed\":null}");
    reveal_strlit("{\"GetStatus\":null}");
    reveal_strlit("{\"Ping\":null}");
    reveal_strlit("{\"Pong\":null}");
    reveal_strlit("{\"Status\":\"Disconnected\"}");
    reveal_strlit("{\"Status\":\"Connected\"}");
    reveal_strlit("{\"Status\":\"Waiting\"}");
    reveal_strlit("{\"Status\":\"Idle\"}");
    reveal_strlit("{\"StateChange\":\"Waiting\"}");
    reveal_strlit("{\"StateChange\":\"Idle\"}");
    reveal_strlit("ConnectionClosed");
    reveal_strlit("GetStatus");
    reveal_strlit("Ping");
    reveal_strlit("Pong");
    reveal_strlit("Status");
    reveal_strlit("StateChange");
    reveal_strlit("Disconnected");
    reveal_strlit("Connected");
    reveal_strlit("Waiting");
    reveal_strlit("Idle");
    reveal_strlit("null");
    assert(spec_encode(SocketMessage::ConnectionClosed)
        =~= "{\"ConnectionClosed\":null}"@);
    assert(spec_encode(SocketMessage::GetStatus) =~= "{\"GetStatus\":null}"@);
    assert(spec_encode(SocketMessage::Ping) =~= "{\"Ping\":null}"@);
    assert(spec_encode(SocketMessage::Pong) =~= "{\"Pong\":null}"@);
    assert(spec_encode(SocketMessage::Status(UserStatus::Disconnected))
        =~= "{\"Status\":\"Disconnected\"}"@);
    assert(spec_encode(SocketMessage::Status(UserStatus::Connected))
        =~= "{\"Status\":\"Connected\"}"@);
    assert(spec_encode(SocketMessage::Status(UserStatus::Waiting))
        =~= "{\"Status\":\"Waiting\"}"@);
    assert(spec_encode(SocketMessage::Status(UserStatus::Idle)) =~= "{\"Status\":\"Idle\"}"@);
    assert(spec_encode(SocketMessage::StateChange(ChangeState::Waiting))
        =~= "{\"StateChange\":\"Waiting\"}"@);
    assert(spec_encode(SocketMessage::StateChange(ChangeState::Idle))
        =~= "{\"StateChange\":\"Idle\"}"@);
}

/// The opening text of the three quoted-payload frames.
proof fn lemma_prefix_frames()
    ensures
        "{\"User\":\""@ == seq!['{', '"'] + "User"@ + seq!['"', ':', '"'],
        "{\"User\":\""@.len() == 9,
        "{\"User\":\""@[2] == 'U',
        "{\"Info\":\""@ == seq!['{', '"'] + "Info"@ + seq!['"', ':', '"'],
        "{\"Info\":\""@.len() == 9,
        "{\"Info\":\""@[2] == 'I',
        "{\"PeerScores\":\""@ == seq!['{', '"'] + "PeerScores"@ + seq!['"', ':', '"'],
        "{\"PeerScores\":\""@.len() == 15,
        "{\"PeerScores\":\""@[2] == 'P',
        "{\"PeerScores\":\""@[3] == 'e',
{
    reveal_strlit("{\"User\":\"");
    reveal_strlit("{\"Info\":\"");
    reveal_strlit("{\"PeerScores\":\"");
    reveal_strlit("User");
    reveal_strlit("Info");
    reveal_strlit("PeerScores");
    assert("{\"User\":\""@ =~= seq!['{', '"'] + "User"@ + seq!['"', ':', '"']);
    assert("{\"Info\":\""@ =~= seq!['{', '"'] + "Info"@ + seq!['"', ':', '"']);
    assert("{\"PeerScores\":\""@ =~= seq!['{', '"'] + "PeerScores"@ + seq!['"', ':', '"']);
}

/// A frame that opens with `U` in tag position is a chat frame, and its
/// quoted middle is the escape of the chat text.
proof fn lemma_user_frame(m: SocketMessage, s: Seq<char>)
    requires
        m.wf(),
        s == spec_encode(m),
        s.len() > 2,
        s[2] == 'U',
    ensures
        m is User,
        s.len() >= 11,
        s.subrange(9, s.len() as int - 2) == escape(text_payload(m)),
        unescape(s.subrange(9, s.len() as int - 2)) == Some(text_payload(m)),
{
    lemma_tag_facts();
    lemma_encode_head(m);
    assert(m is User);
    lemma_quoted_frame(tag_text(m), escape(text_payload(m)), s);
    lemma_unescape_escape(text_payload(m));
}

/// The same for a notice frame, opening with `I`.
proof fn lemma_info_frame(m: SocketMessage, s: Seq<char>)
    requires
        m.wf(),
        s == spec_encode(m),
        s.len() > 2,
        s[2] == 'I',
    ensures
        m is Info,
        s.len() >= 11,
        s.subrange(9, s.len() as int - 2) == escape(text_payload(m)),
        unescape(s.subrange(9, s.len() as int - 2)) == Some(text_payload(m)),
{
    lemma_tag_facts();
    lemma_encode_head(m);
    assert(m is Info);
    lemma_quoted_frame(tag_text(m), escape(text_payload(m)), s);
    lemma_unescape_escape(text_payload(m));
}

/// The same for a score frame, opening with `Pe`.
proof fn lemma_peer_scores_frame(m: SocketMessage, s: Seq<char>)
    requires
        m.wf(),
        s == spec_encode(m),
        s.len() > 3,
        s[2] == 'P',
        s[3] == 'e',
    ensures
        m is PeerScores,
        s.len() >= 17,
        s.subrange(15, s.len() as int - 2) == scores_text(m->PeerScores_0),
        parse_scores_text(s.subrange(15, s.len() as int - 2)) == Some(m->PeerScores_0),
{
    lemma_tag_facts();
    lemma_encode_head(m);
    assert(m is PeerScores);
    lemma_quoted_frame(tag_text(m), scores_text(m->PeerScores_0), s);
    crate::scores::lemma_scores_text_roundtrip(m->PeerScores_0);
}

/// Reads a frame that opens like a chat frame.
fn decode_user(v: &Vec<char>) -> (r: Option<SocketMessage>)
    requires
        v@.len() >= 9,
        v@.subrange(0, 9) == "{\"User\":\""@,
    ensures
        r is Some ==> r->0.wf() && v@ == spec_encode(r->0),
        forall|m: SocketMessage|
            m.wf() && v@ == spec_encode(m) ==> r is Some && msg_matches(r->0, m),
{
    proof {
        lemma_prefix_frames();
        assert(v@[2] == v@.subrange(0, 9)[2]);
    }
    if v.len() < 11 {
        proof {
            assert forall|m: SocketMessage| !(m.wf() && v@ == spec_encode(m)) by {
                if m.wf() && v@ == spec_encode(m) {
                    lemma_user_frame(m, v@);
                }
            }
        }
        return None;
    }
    let middle = copy_range(v, 9, v.len() - 2);
    match unescape_chars(&middle) {
        Some(t) => {
            let ts = chars_to_string(&t);
            let m0 = SocketMessage::User(ts);
            let enc = encode_message(&m0);
            if chars_eq(v, enc.as_str()) {
                proof {
                    assert forall|m: SocketMessage|
                        m.wf() && v@ == spec_encode(m) implies msg_matches(m0, m) by {
                        lemma_encode_injective(m0, m);
                    }
                }
                Some(m0)
            } else {
                proof {
                    assert forall|m: SocketMessage| !(m.wf() && v@ == spec_encode(m)) by {
                        if m.wf() && v@ == spec_encode(m) {
                            lemma_user_frame(m, v@);
                            assert(t@ == text_payload(m));
                            assert(escape(ts@) == escape(text_payload(m)));
                            assert(spec_encode(m0) == spec_encode(m));
                        }
                    }
                }
                None
            }
        },
        None => {
            proof {
                assert forall|m: SocketMessage| !(m.wf() && v@ == spec_encode(m)) by {
                    if m.wf() && v@ == spec_encode(m) {
                        lemma_user_frame(m, v@);
                    }
                }
            }
            None
        },
    }
}

/// Reads a frame that opens like a notice frame.
fn decode_info(v: &Vec<char>) -> (r: Option<SocketMessage>)
    requires
        v@.len() >= 9,
        v@.subrange(0, 9) == "{\"Info\":\""@,
    ensures
        r is Some ==> r->0.wf() && v@ == spec_encode(r->0),
        forall|m: SocketMessage|
            m.wf() && v@ == spec_encode(m) ==> r is Some && msg_matches(r->0, m),
{
    proof {
        lemma_prefix_frames();
        assert(v@[2] == v@.subrange(0, 9)[2]);
    }
    if v.len() < 11 {
        proof {
            assert forall|m: SocketMessage| !(m.wf() && v@ == spec_encode(m)) by {
                if m.wf() && v@ == spec_encode(m) {
                    lemma_info_frame(m, v@);
                }
            }
        }
        return None;
    }
    let middle = copy_range(v, 9, v.len() - 2);
    match unescape_chars(&middle) {
        Some(t) => {
            let ts = chars_to_string(&t);
            let m0 = SocketMessage::Info(ts);
            let enc = encode_message(&m0);
            if chars_eq(v, enc.as_str()) {
                proof {
                    assert forall|m: SocketMessage|
                        m.wf() && v@ == spec_encode(m) implies msg_matches(m0, m) by {
                        lemma_encode_injective(m0, m);
                    }
                }
                Some(m0)
            } else {
                proof {
                    assert forall|m: SocketMessage| !(m.wf() && v@ == spec_encode(m)) by {
                        if m.wf() && v@ == spec_encode(m) {
                            lemma_info_frame(m, v@);
                            assert(t@ == text_payload(m));
                            assert(escape(ts@) == escape(text_payload(m)));
                            assert(spec_encode(m0) == spec_encode(m));
                        }
                    }
                }
                None
            }
        },
        None => {
            proof {
                assert forall|m: SocketMessage| !(m.wf() && v@ == spec_encode(m)) by {
                    if m.wf() && v@ == spec_encode(m) {
                        lemma_info_frame(m, v@);
                    }
                }
            }
            None
        },
    }
}

/// Reads a frame that opens like a peer-score frame.
fn decode_peer_scores(v: &Vec<char>) -> (r: Option<SocketMessage>)
    requires
        v@.len() >= 15,
        v@.subrange(0, 15) == "{\"PeerScores\":\""@,
    ensures
        r is Some ==> r->0.wf() && v@ == spec_encode(r->0),
        forall|m: SocketMessage|
            m.wf() && v@ == spec_encode(m) ==> r is Some && msg_matches(r->0, m),
{
    proof {
        lemma_prefix_frames();
        assert(v@[2] == v@.subrange(0, 15)[2]);
        assert(v@[3] == v@.subrange(0, 15)[3]);
    }
    if v.len() < 17 {
        proof {
            assert forall|m: SocketMessage| !(m.wf() && v@ == spec_encode(m)) by {
                if m.wf() && v@ == spec_encode(m) {
                    lemma_peer_scores_frame(m, v@);
                }
            }
        }
        return None;
    }
    let middle = copy_range(v, 15, v.len() - 2);
    let mid_str = chars_to_string(&middle);
    match Scores::from_text(mid_str.as_str()) {
        Some(sc) => {
            let m0 = SocketMessage::PeerScores(sc);
            let enc = encode_message(&m0);
            if chars_eq(v, enc.as_str()) {
                proof {
                    assert forall|m: SocketMessage|
                        m.wf() && v@ == spec_encode(m) implies msg_matches(m0, m) by {
                        lemma_encode_injective(m0, m);
                    }
                }
                Some(m0)
            } else {
                proof {
                    assert forall|m: SocketMessage| !(m.wf() && v@ == spec_encode(m)) by {
                        if m.wf() && v@ == spec_encode(m) {
                            lemma_peer_scores_frame(m, v@);
                            assert(sc == m->PeerScores_0);
                            assert(spec_encode(m0) == spec_encode(m));
                        }
                    }
                }
                None
            }
        },
        None => {
            proof {
                assert forall|m: SocketMessage| !(m.wf() && v@ == spec_encode(m)) by {
                    if m.wf() && v@ == spec_encode(m) {
                        lemma_peer_scores_frame(m, v@);
                    }
                }
            }
            None
        },
    }
}

/// Reads a wire frame back into a message.  Exactly the texts produced by
/// `encode_message` are accepted: decoding succeeds on the encoding of any
/// well-formed message and returns that message, and whatever it accepts
/// re-encodes to the given text.
pub fn decode_message(s: &str) -> (r: Option<SocketMessage>)
    ensures
        r is Some ==> r->0.wf() && s@ == spec_encode(r->0),
        forall|m: SocketMessage|
            m.wf() && s@ == spec_encode(m) ==> r is Some && msg_matches(r->0, m),
{
    let v = str_to_chars(s);
    if chars_eq(&v, "{\"ConnectionClosed\":null}") {
        proof {
            lemma_constant_frames();
            assert forall|m: SocketMessage|
                m.wf() && s@ == spec_encode(m) implies msg_matches(
                SocketMessage::ConnectionClosed,
                m,
            ) by {
                lemma_encode_injective(SocketMessage::ConnectionClosed, m);
            }
        }
        return Some(SocketMessage::ConnectionClosed);
    }
    if chars_eq(&v, "{\"GetStatus\":null}") {
        proof {
            lemma_constant_frames();
            assert forall|m: SocketMessage|
                m.wf() && s@ == spec_encode(m) implies msg_matches(SocketMessage::GetStatus, m) by {
                lemma_encode_injective(SocketMessage::GetStatus, m);
            }
        }
        return Some(SocketMessage::GetStatus);
    }
    if chars_eq(&v, "{\"Ping\":null}") {
        proof {
            lemma_constant_frames();
            assert forall|m: SocketMessage|
                m.wf() && s@ == spec_encode(m) implies msg_matches(SocketMessage::Ping, m) by {
                lemma_encode_injective(SocketMessage::Ping, m);
            }
        }
        return Some(SocketMessage::Ping);
    }
    if chars_eq(&v, "{\"Pong\":null}") {
        proof {
            lemma_constant_frames();
            assert forall|m: SocketMessage|
                m.wf() && s@ == spec_encode(m) implies msg_matches(SocketMessage::Pong, m) by {
                lemma_encode_injective(SocketMessage::Pong, m);
            }
        }
        return Some(SocketMessage::Pong);
    }
    if chars_eq(&v, "{\"Status\":\"Disconnected\"}") {
        let m0 = SocketMessage::Status(UserStatus::Disconnected);
        proof {
            lemma_constant_frames();
            assert forall|m: SocketMessage|
                m.wf() && s@ == spec_encode(m) implies msg_matches(
                SocketMessage::Status(UserStatus::Disconnected),
                m,
            ) by {
                lemma_encode_injective(SocketMessage::Status(UserStatus::Disconnected), m);
            }
        }
        return Some(m0);
    }
    if chars_eq(&v, "{\"Status\":\"Connected\"}") {
        let m0 = SocketMessage::Status(UserStatus::Connected);
        proof {
            lemma_constant_frames();
            assert forall|m: SocketMessage|
                m.wf() && s@ == spec_encode(m) implies msg_matches(
                SocketMessage::Status(UserStatus::Connected),
                m,
            ) by {
                lemma_encode_injective(SocketMessage::Status(UserStatus::Connected), m);
            }
        }
        return Some(m0);
    }
    if chars_eq(&v, "{\"Status\":\"Waiting\"}") {
        let m0 = SocketMessage::Status(UserStatus::Waiting);
        proof {
            lemma_constant_frames();
            assert forall|m: SocketMessage|
                m.wf() && s@ == spec_encode(m) implies msg_matches(
                SocketMessage::Status(UserStatus::Waiting),
                m,
            ) by {
                lemma_encode_injective(SocketMessage::Status(UserStatus::Waiting), m);
            }
        }
        return Some(m0);
    }
    if chars_eq(&v, "{\"Status\":\"Idle\"}") {
        let m0 = SocketMessage::Status(UserStatus::Idle);
        proof {
            lemma_constant_frames();
            assert forall|m: SocketMessage|
                m.wf() && s@ == spec_encode(m) implies msg_matches(
                SocketMessage::Status(UserStatus::Idle),
                m,
            ) by {
                lemma_encode_injective(SocketMessage::Status(UserStatus::Idle), m);
            }
        }
        return Some(m0);
    }
    if chars_eq(&v, "{\"StateChange\":\"Waiting\"}") {
        let m0 = SocketMessage::StateChange(ChangeState::Waiting);
        proof {
            lemma_constant_frames();
            assert forall|m: SocketMessage|
                m.wf() && s@ == spec_encode(m) implies msg_matches(
                SocketMessage::StateChange(ChangeState::Waiting),
                m,
            ) by {
                lemma_encode_injective(SocketMessage::StateChange(ChangeState::Waiting), m);
            }
        }
        return Some(m0);
    }
    if chars_eq(&v, "{\"StateChange\":\"Idle\"}") {
        let m0 = SocketMessage::StateChange(ChangeState::Idle);
        proof {
            lemma_constant_frames();
            assert forall|m: SocketMessage|
                m.wf() && s@ == spec_encode(m) implies msg_matches(
                SocketMessage::StateChange(ChangeState::Idle),
                m,
            ) by {
                lemma_encode_injective(SocketMessage::StateChange(ChangeState::Idle), m);
            }
        }
        return Some(m0);
    }
    if has_prefix(&v, "{\"User\":\"") {
        proof {
            lemma_prefix_frames();
        }
        return decode_user(&v);
    }
    if has_prefix(&v, "{\"Info\":\"") {
        proof {
            lemma_prefix_frames();
        }
        return decode_info(&v);
    }
    if has_prefix(&v, "{\"PeerScores\":\"") {
        proof {
            lemma_prefix_frames();
        }
        return decode_peer_scores(&v);
    }
    proof {
        lemma_constant_frames();
        lemma_prefix_frames();
        assert forall|m: SocketMessage| !(m.wf() && s@ == spec_encode(m)) by {
            if m.wf() && s@ == spec_encode(m) {
                match m {
                    SocketMessage::User(t) => {
                        lemma_quoted_frame("User"@, escape(t@), s@);
                        assert(s@.subrange(0, 9) == "{\"User\":\""@);
                    },
                    SocketMessage::Info(t) => {
                        lemma_quoted_frame("Info"@, escape(t@), s@);
                        assert(s@.subrange(0, 9) == "{\"Info\":\""@);
                    },
                    SocketMessage::PeerScores(sc) => {
                        lemma_quoted_frame("PeerScores"@, scores_text(sc), s@);
                        assert(s@.subrange(0, 15) == "{\"PeerScores\":\""@);
                    },
                    _ => {},
                }
            }
        }
    }
    None
}

} // verus!
