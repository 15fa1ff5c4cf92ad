//! Telnet sessions: option negotiation, the login dialogue, and picking the output of a command
//! out of what a terminal shows.
use vstd::prelude::*;
use vstd::slice::slice_subrange;

use crate::capture::MAX_CAPTURE_BYTES;
use crate::failure::{failure, FailureModel, RemoteFailure};
use crate::model::{HostProfile, ProfileModel};
use crate::remote::{verified_models, RemoteResult, ResultModel, VerifiedHostKey, VerifiedModel};
use crate::secret::Secret;
use crate::text::{
    ascii_lower, byte_len, chars_of, contains, contains_text, find_first, find_last,
    is_line_padding, lemma_trim_end, lemma_trim_start, lossy_text, no_earlier, no_later, occurs_at,
    read_lossy, string_of, texts, to_ascii_lower, trim, trim_end, trimmed, trimmed_end,
    trimmed_lines, utf8_len,
};

verus! {

pub const IAC: u8 = 255;

pub const DONT: u8 = 254;

pub const DO: u8 = 253;

pub const WONT: u8 = 252;

pub const WILL: u8 = 251;

pub const SB: u8 = 250;

pub const SE: u8 = 240;

pub const BEGIN_MARKER: &'static str = "__CODEX_HOSTS_BEGIN__";

pub const END_MARKER: &'static str = "__CODEX_HOSTS_END__";

/// The markers are typed with an empty shell quote inside, so that a terminal that echoes input
/// never shows the marker itself; only the command's own output does.
pub const BEGIN_MARKER_SOURCE: &'static str = "__CODEX_HOSTS_BEG''IN__";

pub const END_MARKER_SOURCE: &'static str = "__CODEX_HOSTS_E''ND__";

/// How long, in milliseconds, the server must be quiet before the command is typed.
pub const SHELL_SETTLE: u64 = 500;

/// How long a silent server is waited for.
pub const SHELL_SILENT_LIMIT: u64 = 3000;

#[derive(Debug, Clone, Copy, PartialEq, Eq, Structural)]
pub enum ParserState {
    Data,
    Command,
    Option(u8),
    Subnegotiation,
    SubnegotiationCommand,
}

/// The state after a byte.
pub open spec fn next_state(state: ParserState, byte: u8) -> ParserState {
    match state {
        ParserState::Data => if byte == IAC {
            ParserState::Command
        } else {
            ParserState::Data
        },
        ParserState::Command => if byte == DO || byte == DONT || byte == WILL || byte == WONT {
            ParserState::Option(byte)
        } else if byte == SB {
            ParserState::Subnegotiation
        } else {
            ParserState::Data
        },
        ParserState::Option(_) => ParserState::Data,
        ParserState::Subnegotiation => if byte == IAC {
            ParserState::SubnegotiationCommand
        } else {
            ParserState::Subnegotiation
        },
        ParserState::SubnegotiationCommand => if byte == SE {
            ParserState::Data
        } else {
            ParserState::Subnegotiation
        },
    }
}

/// The byte that is text for the terminal, if the byte is or completes one.
pub open spec fn text_byte(state: ParserState, byte: u8) -> Seq<u8> {
    match state {
        ParserState::Data => if byte == IAC {
            Seq::empty()
        } else {
            seq![byte]
        },
        ParserState::Command => if byte == IAC {
            seq![IAC]
        } else {
            Seq::empty()
        },
        _ => Seq::empty(),
    }
}

/// The answer that a byte calls for: every option is refused.
pub open spec fn reply_to(state: ParserState, byte: u8) -> Seq<u8> {
    match state {
        ParserState::Option(command) => if command == DO || command == DONT {
            seq![IAC, WONT, byte]
        } else {
            seq![IAC, DONT, byte]
        },
        _ => Seq::empty(),
    }
}

/// What a run of bytes does.
pub struct Parsed {
    pub state: ParserState,
    pub data: Seq<u8>,
    pub replies: Seq<u8>,
}

pub open spec fn parsed(state: ParserState, bytes: Seq<u8>) -> Parsed
    decreases bytes.len(),
{
    if bytes.len() == 0 {
        Parsed { state, data: Seq::empty(), replies: Seq::empty() }
    } else {
        let before = parsed(state, bytes.drop_last());
        let byte = bytes.last();
        Parsed {
            state: next_state(before.state, byte),
            data: before.data + text_byte(before.state, byte),
            replies: before.replies + reply_to(before.state, byte),
        }
    }
}

/// Separates terminal text from option negotiation. The state lives on between reads.
#[derive(Debug)]
pub struct TelnetParser {
    pub state: ParserState,
}

impl Default for TelnetParser {
    fn default() -> (r: Self)
        ensures
            r.state == ParserState::Data,
    {
        TelnetParser { state: ParserState::Data }
    }
}

#[derive(Debug)]
pub struct ParsedChunk {
    pub data: Vec<u8>,
    pub replies: Vec<u8>,
}

impl TelnetParser {
    pub fn consume(&mut self, bytes: &[u8]) -> (r: ParsedChunk)
        ensures
            final(self).state == parsed(old(self).state, bytes@).state,
            r.data@ == parsed(old(self).state, bytes@).data,
            r.replies@ == parsed(old(self).state, bytes@).replies,
    {
        let mut data: Vec<u8> = Vec::new();
        let mut replies: Vec<u8> = Vec::new();
        let mut i: usize = 0;
        let ghost start = self.state;
        while i < bytes.len()
            invariant
                i <= bytes@.len(),
                self.state == parsed(start, bytes@.take(i as int)).state,
                data@ == parsed(start, bytes@.take(i as int)).data,
                replies@ == parsed(start, bytes@.take(i as int)).replies,
            decreases bytes@.len() - i,
        {
            let byte: u8 = bytes[i];
            let ghost more = bytes@.take(i + 1);
            assert(more.drop_last() =~= bytes@.take(i as int));
            assert(more.last() == byte);
            self.state = match self.state {
                ParserState::Data => if byte == IAC {
                    ParserState::Command
                } else {
                    data.push(byte);
                    ParserState::Data
                },
                ParserState::Command => if byte == IAC {
                    data.push(IAC);
                    ParserState::Data
                } else if byte == DO || byte == DONT || byte == WILL || byte == WONT {
                    ParserState::Option(byte)
                } else if byte == SB {
                    ParserState::Subnegotiation
                } else {
                    ParserState::Data
                },
                ParserState::Option(command) => {
                    replies.push(IAC);
                    replies.push(
                        if command == DO || command == DONT {
                            WONT
                        } else {
                            DONT
                        },
                    );
                    replies.push(byte);
                    ParserState::Data
                },
                ParserState::Subnegotiation => if byte == IAC {
                    ParserState::SubnegotiationCommand
                } else {
                    ParserState::Subnegotiation
                },
                ParserState::SubnegotiationCommand => if byte == SE {
                    ParserState::Data
                } else {
                    ParserState::Subnegotiation
                },
            };
            assert(data@ =~= parsed(start, more).data);
            assert(replies@ =~= parsed(start, more).replies);
            i = i + 1;
        }
        assert(bytes@.take(bytes@.len() as int) =~= bytes@);
        ParsedChunk { data, replies }
    }
}

/// It makes no difference where the network cuts the stream: reading two pieces one after the
/// other comes to the same as reading them at once.
pub proof fn reads_can_be_cut_anywhere(state: ParserState, first: Seq<u8>, second: Seq<u8>)
    ensures
        ({
            let head = parsed(state, first);
            let tail = parsed(head.state, second);
            let whole = parsed(state, first + second);
            &&& whole.state == tail.state
            &&& whole.data == head.data + tail.data
            &&& whole.replies == head.replies + tail.replies
        }),
    decreases second.len(),
{
    if second.len() == 0 {
        assert(first + second =~= first);
        assert(parsed(state, first).data + Seq::<u8>::empty() =~= parsed(state, first).data);
        assert(parsed(state, first).replies + Seq::<u8>::empty() =~= parsed(state, first).replies);
    } else {
        let whole = first + second;
        assert(whole.drop_last() =~= first + second.drop_last());
        assert(whole.last() == second.last());
        reads_can_be_cut_anywhere(state, first, second.drop_last());
        let head = parsed(state, first);
        let middle = parsed(head.state, second.drop_last());
        assert((head.data + middle.data) + text_byte(middle.state, second.last()) =~= head.data + (
        middle.data + text_byte(middle.state, second.last())));
        assert((head.replies + middle.replies) + reply_to(middle.state, second.last())
            =~= head.replies + (middle.replies + reply_to(middle.state, second.last())));
    }
}

/// Text without the escape byte passes unchanged and is answered with nothing.
pub proof fn plain_text_passes_unchanged(bytes: Seq<u8>)
    requires
        forall|i: int| 0 <= i < bytes.len() ==> bytes[i] != IAC,
    ensures
        parsed(ParserState::Data, bytes) == (Parsed {
            state: ParserState::Data,
            data: bytes,
            replies: Seq::empty(),
        }),
    decreases bytes.len(),
{
    if bytes.len() > 0 {
        let before = bytes.drop_last();
        assert(forall|i: int| 0 <= i < before.len() ==> before[i] == bytes[i]);
        plain_text_passes_unchanged(before);
        assert(bytes[bytes.len() - 1] != IAC);
        assert(before + seq![bytes.last()] =~= bytes);
        assert(Seq::<u8>::empty() + Seq::<u8>::empty() =~= Seq::<u8>::empty());
    } else {
        assert(bytes =~= Seq::empty());
    }
}

/// The `i`-th answer is a refusal.
pub open spec fn is_refusal(replies: Seq<u8>, i: int) -> bool {
    &&& 0 <= 3 * i
    &&& 3 * i + 2 < replies.len()
    &&& replies[3 * i] == IAC
    &&& replies[3 * i + 1] == WONT || replies[3 * i + 1] == DONT
}

/// Whatever the server proposes, every answer is a refusal: three bytes, the second of which is
/// `WONT` or `DONT`.
pub proof fn every_option_is_refused(state: ParserState, bytes: Seq<u8>)
    ensures
        parsed(state, bytes).replies.len() % 3 == 0,
        forall|i: int|
            0 <= i < parsed(state, bytes).replies.len() / 3 ==> #[trigger] is_refusal(
                parsed(state, bytes).replies,
                i,
            ),
    decreases bytes.len(),
{
    if bytes.len() > 0 {
        every_option_is_refused(state, bytes.drop_last());
        let before = parsed(state, bytes.drop_last());
        let after = parsed(state, bytes);
        let extra = reply_to(before.state, bytes.last());
        assert(after.replies == before.replies + extra);
        assert(extra.len() == 0 || extra.len() == 3);
        assert forall|i: int| 0 <= i < after.replies.len() / 3 implies #[trigger] is_refusal(
            after.replies,
            i,
        ) by {
            if i < before.replies.len() / 3 {
                assert(is_refusal(before.replies, i));
            } else {
                assert(3 * i == before.replies.len());
                assert(after.replies[3 * i] == extra[0]);
                assert(after.replies[3 * i + 1] == extra[1]);
            }
        }
    }
}

/// The texts that a login waits for.
#[derive(Debug)]
pub struct LoginPrompts {
    pub login: Vec<String>,
    pub password: Vec<String>,
}

/// The prompts for one field: what the profile says, unless that is blank.
pub open spec fn chosen_prompts(custom: Option<Seq<char>>, defaults: Seq<Seq<char>>) -> Seq<
    Seq<char>,
> {
    match custom {
        Some(text) => if trimmed(text).len() > 0 {
            seq![trimmed(text)]
        } else {
            defaults
        },
        None => defaults,
    }
}

pub open spec fn default_login_prompts() -> Seq<Seq<char>> {
    seq!["login:"@, "username:"@, "user:"@]
}

pub open spec fn default_password_prompts() -> Seq<Seq<char>> {
    seq!["password:"@]
}

pub open spec fn custom_login(host: ProfileModel) -> Option<Seq<char>> {
    match host.advanced.telnet_prompts {
        Some(prompts) => Some(prompts.login),
        None => None,
    }
}

pub open spec fn custom_password(host: ProfileModel) -> Option<Seq<char>> {
    match host.advanced.telnet_prompts {
        Some(prompts) => Some(prompts.password),
        None => None,
    }
}

/// Prompts of the profile replace the default ones; a blank one keeps the defaults, so that a
/// half-filled form never makes a login impossible.
pub fn login_prompts(profile: &HostProfile) -> (r: LoginPrompts)
    ensures
        texts(r.login@) == chosen_prompts(custom_login(profile@), default_login_prompts()),
        texts(r.password@) == chosen_prompts(
            custom_password(profile@),
            default_password_prompts(),
        ),
        r.login@.len() > 0 && r.password@.len() > 0,
        profile.advanced.telnet_prompts is None ==> texts(r.login@) == seq![
            "login:"@,
            "username:"@,
            "user:"@,
        ] && texts(r.password@) == seq!["password:"@],
        profile.advanced.telnet_prompts matches Some(prompts) ==> (trimmed(prompts.login@).len() > 0
            ==> texts(r.login@) == seq![trimmed(prompts.login@)]) && (trimmed(
            prompts.password@,
        ).len() > 0 ==> texts(r.password@) == seq![trimmed(prompts.password@)]),
{
    let mut login: Vec<String> = Vec::new();
    let mut password: Vec<String> = Vec::new();
    if let Some(prompts) = &profile.advanced.telnet_prompts {
        let wanted = trim(prompts.login.as_str());
        if !wanted.is_empty() {
            login.push(wanted.to_owned());
        }
        let wanted = trim(prompts.password.as_str());
        if !wanted.is_empty() {
            password.push(wanted.to_owned());
        }
    }
    if login.len() == 0 {
        login.push("login:".to_owned());
        login.push("username:".to_owned());
        login.push("user:".to_owned());
    }
    if password.len() == 0 {
        password.push("password:".to_owned());
    }
    assert(texts(login@) =~= chosen_prompts(custom_login(profile@), default_login_prompts()));
    assert(texts(password@) =~= chosen_prompts(
        custom_password(profile@),
        default_password_prompts(),
    ));
    LoginPrompts { login, password }
}

/// The text holds a line end.
pub open spec fn has_line_end(text: Seq<char>) -> bool {
    exists|i: int| 0 <= i < text.len() && (#[trigger] text[i] == '\r' || text[i] == '\n')
}

/// The command cannot share a line with the markers.
pub open spec fn needs_own_line(command: Seq<char>) -> bool {
    has_line_end(trimmed_end(command)) || (trimmed_end(command).len() > 0 && trimmed_end(
        command,
    ).last() == '&')
}

/// What is typed for a command: one line when possible, so that no prompt appears between the
/// markers and the output; a command of several lines, or one that ends in `&`, which `;` would
/// break, gets lines of its own.
pub open spec fn typed(command: Seq<char>) -> Seq<char> {
    if needs_own_line(command) {
        "echo "@ + BEGIN_MARKER_SOURCE@ + "\r\n"@ + command + "\r\necho "@ + END_MARKER_SOURCE@
            + "\r\n"@
    } else {
        "echo "@ + BEGIN_MARKER_SOURCE@ + "; "@ + trimmed_end(command) + "; echo "@
            + END_MARKER_SOURCE@ + "\r\n"@
    }
}

pub fn request_line(command: &str) -> (r: String)
    ensures
        r@ == typed(command@),
{
    let short = trim_end(command);
    let chars = chars_of(short);
    let mut own_line = false;
    let mut i: usize = 0;
    while i < chars.len()
        invariant
            i <= chars@.len(),
            own_line == exists|j: int|
                0 <= j < i && (#[trigger] chars@[j] == '\r' || chars@[j] == '\n'),
        decreases chars@.len() - i,
    {
        let here = chars[i] == '\r' || chars[i] == '\n';
        assert(chars@[i as int] == chars[i as int]);
        own_line = own_line || here;
        i = i + 1;
    }
    if chars.len() > 0 && chars[chars.len() - 1] == '&' {
        own_line = true;
    }
    let mut line = "echo ".to_owned();
    line.append(BEGIN_MARKER_SOURCE);
    if own_line {
        line.append("\r\n");
        line.append(command);
        line.append("\r\necho ");
    } else {
        line.append("; ");
        line.append(short);
        line.append("; echo ");
    }
    line.append(END_MARKER_SOURCE);
    line.append("\r\n");
    line
}

/// What follows the last occurrence of a marker; everything when there is none.
pub open spec fn after_last(text: Seq<char>, marker: Seq<char>) -> Seq<char> {
    if contains_text(text, marker) {
        let at = choose|at: int| occurs_at(text, marker, at) && no_later(text, marker, at);
        text.skip(at + marker.len())
    } else {
        text
    }
}

/// What precedes the first occurrence of a marker; everything when there is none.
pub open spec fn before_first(text: Seq<char>, marker: Seq<char>) -> Seq<char> {
    if contains_text(text, marker) {
        let at = choose|at: int| occurs_at(text, marker, at) && no_earlier(text, marker, at);
        text.take(at)
    } else {
        text
    }
}

/// The output of a command: what was printed between the two markers, without the line ends and
/// spaces around it.
pub open spec fn output_of(transcript: Seq<char>) -> Seq<char> {
    trimmed_lines(before_first(after_last(transcript, BEGIN_MARKER@), END_MARKER@))
}

proof fn lemma_after_last(text: Seq<char>, marker: Seq<char>, at: int)
    requires
        occurs_at(text, marker, at),
        no_later(text, marker, at),
    ensures
        after_last(text, marker) == text.skip(at + marker.len()),
{
    let chosen = choose|at: int| occurs_at(text, marker, at) && no_later(text, marker, at);
    assert(occurs_at(text, marker, chosen) && no_later(text, marker, chosen));
    assert(chosen == at);
}

proof fn lemma_before_first(text: Seq<char>, marker: Seq<char>, at: int)
    requires
        occurs_at(text, marker, at),
        no_earlier(text, marker, at),
    ensures
        before_first(text, marker) == text.take(at),
{
    let chosen = choose|at: int| occurs_at(text, marker, at) && no_earlier(text, marker, at);
    assert(occurs_at(text, marker, chosen) && no_earlier(text, marker, chosen));
    assert(chosen == at);
}

pub fn extract_output(transcript: &str) -> (r: String)
    ensures
        r@ == output_of(transcript@),
{
    let all = chars_of(transcript);
    let begin = chars_of(BEGIN_MARKER);
    let end = chars_of(END_MARKER);
    let total: usize = all.len();
    let start: usize = match find_last(&all, &begin) {
        Some(at) => {
            proof {
                lemma_after_last(all@, begin@, at as int);
                assert(at + begin@.len() <= total);
            }
            at + begin.len()
        },
        None => 0,
    };
    let mut rest: Vec<char> = Vec::new();
    let mut i: usize = start;
    while i < all.len()
        invariant
            start <= i <= all@.len(),
            rest@ == all@.subrange(start as int, i as int),
        decreases all@.len() - i,
    {
        rest.push(all[i]);
        assert(all@.subrange(start as int, i + 1) =~= all@.subrange(start as int, i as int).push(
            all@[i as int],
        ));
        i = i + 1;
    }
    assert(rest@ =~= after_last(transcript@, BEGIN_MARKER@));
    let stop: usize = match find_first(&rest, &end) {
        Some(at) => {
            proof {
                lemma_before_first(rest@, end@, at as int);
            }
            at
        },
        None => rest.len(),
    };
    let ghost shown = before_first(rest@, end@);
    assert(shown =~= rest@.take(stop as int));
    let mut first: usize = 0;
    while first < stop && (rest[first] == '\r' || rest[first] == '\n' || rest[first] == ' ')
        invariant
            first <= stop <= rest@.len(),
            shown == rest@.take(stop as int),
            forall|j: int| 0 <= j < first ==> is_line_padding(#[trigger] shown[j]),
        decreases stop - first,
    {
        assert(shown[first as int] == rest@[first as int]);
        first = first + 1;
    }
    let mut last: usize = stop;
    while last > first && (rest[last - 1] == '\r' || rest[last - 1] == '\n' || rest[last - 1]
        == ' ')
        invariant
            first <= last <= stop <= rest@.len(),
            shown == rest@.take(stop as int),
            forall|j: int| last <= j < stop ==> is_line_padding(#[trigger] shown[j]),
        decreases last,
    {
        assert(shown[last - 1] == rest@[last - 1]);
        last = last - 1;
    }
    proof {
        let class = |c: char| is_line_padding(c);
        if first < stop {
            assert(shown[first as int] == rest@[first as int]);
        }
        lemma_trim_start(shown, class, first as int);
        let middle = shown.skip(first as int);
        assert forall|j: int| last - first <= j < middle.len() implies class(#[trigger] middle[j]) by {
            assert(middle[j] == shown[j + first]);
        }
        if last > first {
            assert(middle[last - first - 1] == rest@[last - 1]);
        }
        lemma_trim_end(middle, class, last - first);
        assert(middle.take(last - first) =~= rest@.subrange(first as int, last as int));
    }
    string_of(slice_subrange(rest.as_slice(), first, last))
}

/// A transcript that shows something, the first marker, the output, the second marker and more
/// gives the output, whatever stands around the markers.
pub proof fn output_stands_between_the_markers(
    before: Seq<char>,
    output: Seq<char>,
    after: Seq<char>,
)
    requires
        no_later(
            before + BEGIN_MARKER@ + output + END_MARKER@ + after,
            BEGIN_MARKER@,
            before.len() as int,
        ),
        no_earlier(output + END_MARKER@ + after, END_MARKER@, output.len() as int),
    ensures
        output_of(before + BEGIN_MARKER@ + output + END_MARKER@ + after) == trimmed_lines(output),
{
    let whole = before + BEGIN_MARKER@ + output + END_MARKER@ + after;
    let tail = output + END_MARKER@ + after;
    let at = before.len() as int;
    assert(whole.subrange(at, at + BEGIN_MARKER@.len()) =~= BEGIN_MARKER@);
    lemma_after_last(whole, BEGIN_MARKER@, at);
    assert(whole.skip(at + BEGIN_MARKER@.len()) =~= tail);
    let stop = output.len() as int;
    assert(tail.subrange(stop, stop + END_MARKER@.len()) =~= END_MARKER@);
    lemma_before_first(tail, END_MARKER@, stop);
    assert(tail.take(stop) =~= output);
}

/// Characters that the markers are made of.
spec fn is_marker_char(c: char) -> bool {
    c == '_' || 'A' <= c <= 'Z'
}

/// The marker cannot stand where a character that it does not have would fall into it.
proof fn lemma_not_across(text: Seq<char>, marker: Seq<char>, at: int, wall: int)
    requires
        forall|i: int| 0 <= i < marker.len() ==> is_marker_char(#[trigger] marker[i]),
        0 <= wall < text.len(),
        !is_marker_char(text[wall]),
        occurs_at(text, marker, at),
    ensures
        wall < at || at + marker.len() <= wall,
{
    if at <= wall < at + marker.len() {
        assert(text.subrange(at, at + marker.len())[wall - at] == marker[wall - at]);
    }
}

proof fn lemma_marker_chars()
    ensures
        BEGIN_MARKER@.len() == 21,
        END_MARKER@.len() == 19,
        forall|i: int| 0 <= i < BEGIN_MARKER@.len() ==> is_marker_char(#[trigger] BEGIN_MARKER@[i]),
        forall|i: int| 0 <= i < END_MARKER@.len() ==> is_marker_char(#[trigger] END_MARKER@[i]),
{
    reveal_strlit("__CODEX_HOSTS_BEGIN__");
    reveal_strlit("__CODEX_HOSTS_END__");
    let b = BEGIN_MARKER@;
    let e = END_MARKER@;
    assert forall|i: int| 0 <= i < b.len() implies is_marker_char(#[trigger] b[i]) by {
        assert(i == 0 || i == 1 || i == 2 || i == 3 || i == 4 || i == 5 || i == 6 || i == 7 || i == 8
            || i == 9 || i == 10 || i == 11 || i == 12 || i == 13 || i == 14 || i == 15 || i == 16
            || i == 17 || i == 18 || i == 19 || i == 20);
    }
    assert forall|i: int| 0 <= i < e.len() implies is_marker_char(#[trigger] e[i]) by {
        assert(i == 0 || i == 1 || i == 2 || i == 3 || i == 4 || i == 5 || i == 6 || i == 7 || i == 8
            || i == 9 || i == 10 || i == 11 || i == 12 || i == 13 || i == 14 || i == 15 || i == 16
            || i == 17 || i == 18);
    }
}

/// What stands in a part of a text stands in that part.
proof fn lemma_inside(text: Seq<char>, marker: Seq<char>, at: int, from: int, to: int)
    requires
        occurs_at(text, marker, at),
        0 <= from <= at,
        at + marker.len() <= to <= text.len(),
    ensures
        contains_text(text.subrange(from, to), marker),
{
    let part = text.subrange(from, to);
    assert(part.subrange(at - from, at - from + marker.len()) =~= text.subrange(
        at,
        at + marker.len(),
    ));
    assert(occurs_at(part, marker, at - from));
}

/// Typing a command never shows a marker: an echo of the typed line holds one only where the
/// command itself does.
pub proof fn echoed_input_holds_no_marker(command: Seq<char>)
    requires
        !contains_text(command, BEGIN_MARKER@),
        !contains_text(command, END_MARKER@),
    ensures
        !contains_text(typed(command), BEGIN_MARKER@),
        !contains_text(typed(command), END_MARKER@),
{
    lemma_marker_chars();
    lemma_no_marker(command, BEGIN_MARKER@);
    lemma_no_marker(command, END_MARKER@);
}

proof fn lemma_no_marker(command: Seq<char>, marker: Seq<char>)
    requires
        !contains_text(command, marker),
        19 <= marker.len() <= 21,
        forall|i: int| 0 <= i < marker.len() ==> is_marker_char(#[trigger] marker[i]),
    ensures
        !contains_text(typed(command), marker),
{
    reveal_strlit("echo ");
    reveal_strlit("__CODEX_HOSTS_BEG''IN__");
    reveal_strlit("__CODEX_HOSTS_E''ND__");
    reveal_strlit("\r\n");
    reveal_strlit("\r\necho ");
    reveal_strlit("; ");
    reveal_strlit("; echo ");
    let line = typed(command);
    let own = needs_own_line(command);
    let middle = if own {
        command
    } else {
        trimmed_end(command)
    };
    crate::text::lemma_trim_end_shape(command, |c: char| crate::text::is_whitespace_char(c));
    assert(!own ==> middle =~= command.subrange(0, middle.len() as int));
    let n = middle.len() as int;
    assert forall|at: int| !occurs_at(line, marker, at) by {
        if occurs_at(line, marker, at) {
            assert(line[4] == ' ');
            lemma_not_across(line, marker, at, 4);
            assert(line[22] == '\'');
            lemma_not_across(line, marker, at, 22);
            assert(line[28] == if own {
                '\r'
            } else {
                ';'
            });
            lemma_not_across(line, marker, at, 28);
            assert(line[29] == if own {
                '\n'
            } else {
                ' '
            });
            lemma_not_across(line, marker, at, 29);
            assert(line[30 + n] == if own {
                '\r'
            } else {
                ';'
            });
            lemma_not_across(line, marker, at, 30 + n);
            assert(line.subrange(30, 30 + n) =~= middle);
            if at >= 30 && at + marker.len() <= 30 + n {
                lemma_inside(line, marker, at, 30, 30 + n);
                let k = choose|k: int| occurs_at(middle, marker, k);
                assert(command.subrange(k, k + marker.len()) =~= middle.subrange(
                    k,
                    k + marker.len(),
                ));
                assert(occurs_at(command, marker, k));
            }
            let q = 37 + n;
            assert(line[q - 1] == ' ');
            lemma_not_across(line, marker, at, q - 1);
            assert(line[q + 15] == '\'');
            lemma_not_across(line, marker, at, q + 15);
            assert(line.len() == q + 23);
        }
    }
}

/// The server said that it did not accept the login.
pub open spec fn login_refused(transcript: Seq<u8>) -> bool {
    let shown = ascii_lower(lossy_text(transcript));
    contains_text(shown, "login incorrect"@) || contains_text(shown, "authentication failed"@)
        || contains_text(shown, "access denied"@)
}

pub open spec fn login_refusal() -> FailureModel {
    failure("AUTH_FAILED"@, "The Telnet server rejected the user name or password."@)
}

pub fn check_login_failure(transcript: &[u8]) -> (r: Result<(), RemoteFailure>)
    ensures
        r is Ok <==> !login_refused(transcript@),
        r matches Err(error) ==> error@ == login_refusal(),
{
    let shown = read_lossy(transcript);
    let folded = to_ascii_lower(shown.as_str());
    if contains(folded.as_str(), "login incorrect") || contains(
        folded.as_str(),
        "authentication failed",
    ) || contains(folded.as_str(), "access denied") {
        return Err(
            RemoteFailure::new(
                "AUTH_FAILED",
                "The Telnet server rejected the user name or password.",
            ),
        );
    }
    Ok(())
}

/// One of the texts is shown, in whatever case.
pub open spec fn shows_any(transcript: Seq<u8>, needles: Seq<Seq<char>>) -> bool {
    exists|i: int|
        0 <= i < needles.len() && contains_text(
            ascii_lower(lossy_text(transcript)),
            ascii_lower(#[trigger] needles[i]),
        )
}

fn any_shown(transcript: &[u8], needles: &Vec<String>) -> (r: bool)
    ensures
        r == shows_any(transcript@, texts(needles@)),
{
    let shown = read_lossy(transcript);
    let folded = to_ascii_lower(shown.as_str());
    let mut i: usize = 0;
    while i < needles.len()
        invariant
            i <= needles@.len(),
            folded@ == ascii_lower(lossy_text(transcript@)),
            forall|j: int|
                0 <= j < i ==> !contains_text(
                    folded@,
                    ascii_lower(#[trigger] texts(needles@)[j]),
                ),
        decreases needles@.len() - i,
    {
        let needle = to_ascii_lower(needles[i].as_str());
        if contains(folded.as_str(), needle.as_str()) {
            assert(contains_text(folded@, ascii_lower(texts(needles@)[i as int])));
            return true;
        }
        i = i + 1;
    }
    false
}

/// The transcript with more text, as far as the limit allows.
pub open spec fn grown(transcript: Seq<u8>, data: Seq<u8>) -> Seq<u8> {
    let room = if transcript.len() <= MAX_CAPTURE_BYTES {
        MAX_CAPTURE_BYTES - transcript.len()
    } else {
        0
    };
    transcript + data.take(
        if data.len() <= room {
            data.len() as int
        } else {
            room
        },
    )
}

/// How far a session has come.
#[derive(Debug, Clone, Copy, PartialEq, Eq, Structural)]
pub enum TelnetPhase {
    /// Waiting for the login prompt.
    Login,
    /// Waiting for the password prompt.
    Password,
    /// Waiting for the shell to go quiet; whether anything came yet.
    Settling { received: bool },
    /// Waiting for the output of the command.
    Output,
    Over,
}

/// What came from the network.
#[derive(Debug)]
pub enum TelnetEvent {
    Bytes(Vec<u8>),
    /// Nothing came for the time that was waited.
    Quiet,
    Closed,
    ReadFailed(String),
}

/// What to do: send the answers, then what is to be typed, then read on, or stop.
#[derive(Debug)]
pub struct TelnetStep {
    pub replies: Vec<u8>,
    pub outcome: TelnetOutcome,
}

#[derive(Debug)]
pub enum TelnetOutcome {
    /// Read on; for at most this many milliseconds where there is a limit.
    Read { wait: Option<u64> },
    /// Type the text, then read on.
    Type { text: String, wait: Option<u64> },
    Done(String),
    Fail(RemoteFailure),
}

/// A login and one command.
pub struct TelnetSession {
    pub username: String,
    pub password: Secret,
    pub command: String,
    pub prompts: LoginPrompts,
    pub parser: TelnetParser,
    pub transcript: Vec<u8>,
    pub phase: TelnetPhase,
}

/// The time to wait in a phase.
pub open spec fn wait_in(phase: TelnetPhase) -> Option<u64> {
    match phase {
        TelnetPhase::Settling { received } => Some(
            if received {
                SHELL_SETTLE
            } else {
                SHELL_SILENT_LIMIT
            },
        ),
        _ => None,
    }
}

/// The step reads on in this phase.
pub open spec fn reads_on(outcome: TelnetOutcome, phase: TelnetPhase) -> bool {
    outcome == (TelnetOutcome::Read { wait: wait_in(phase) })
}

/// The step types a text and reads on in this phase.
pub open spec fn types(outcome: TelnetOutcome, text: Seq<char>, phase: TelnetPhase) -> bool {
    outcome matches TelnetOutcome::Type { text: sent, wait } && sent@ == text && wait == wait_in(
        phase,
    )
}

pub open spec fn stops_with(
    outcome: TelnetOutcome,
    code: Seq<char>,
    message: Seq<char>,
) -> bool {
    outcome matches TelnetOutcome::Fail(error) && error@ == failure(code, message)
}

pub open spec fn output_limit_message() -> Seq<char> {
    "Telnet output exceeded the one-megabyte safety limit."@
}

/// What new text brings about in a phase that waits for one of several texts.
pub open spec fn after_text(
    phase: TelnetPhase,
    transcript: Seq<u8>,
    session: TelnetSession,
    outcome: TelnetOutcome,
    next: TelnetPhase,
    left: Seq<u8>,
) -> bool {
    match phase {
        TelnetPhase::Login => if shows_any(transcript, texts(session.prompts.login@)) {
            next is Password && left.len() == 0 && types(
                outcome,
                session.username@ + "\r\n"@,
                next,
            )
        } else if transcript.len() >= MAX_CAPTURE_BYTES {
            next is Over && left == transcript && stops_with(
                outcome,
                "OUTPUT_LIMIT"@,
                output_limit_message(),
            )
        } else {
            next is Login && left == transcript && reads_on(outcome, next)
        },
        TelnetPhase::Password => if shows_any(transcript, texts(session.prompts.password@)) {
            next == (TelnetPhase::Settling { received: false }) && left.len() == 0 && types(
                outcome,
                session.password@ + "\r\n"@,
                next,
            )
        } else if transcript.len() >= MAX_CAPTURE_BYTES {
            next is Over && left == transcript && stops_with(
                outcome,
                "OUTPUT_LIMIT"@,
                output_limit_message(),
            )
        } else {
            next is Password && left == transcript && reads_on(outcome, next)
        },
        TelnetPhase::Settling { .. } => if login_refused(transcript) {
            next is Over && left == transcript && (outcome matches TelnetOutcome::Fail(error)
                && error@ == login_refusal())
        } else {
            next == (TelnetPhase::Settling { received: true }) && left == transcript && reads_on(
                outcome,
                next,
            )
        },
        TelnetPhase::Output => if shows_any(transcript, seq![END_MARKER@]) {
            next is Over && left == transcript && (outcome matches TelnetOutcome::Done(text)
                && text@ == output_of(lossy_text(transcript)))
        } else if login_refused(transcript) {
            next is Over && left == transcript && (outcome matches TelnetOutcome::Fail(error)
                && error@ == login_refusal())
        } else if transcript.len() >= MAX_CAPTURE_BYTES {
            next is Over && left == transcript && stops_with(
                outcome,
                "OUTPUT_LIMIT"@,
                output_limit_message(),
            )
        } else {
            next is Output && left == transcript && reads_on(outcome, next)
        },
        TelnetPhase::Over => false,
    }
}

/// What an event brings about.
pub open spec fn steps_to(
    before: TelnetSession,
    event: TelnetEvent,
    after: TelnetSession,
    r: TelnetStep,
) -> bool {
    &&& after.username == before.username
    &&& after.password == before.password
    &&& after.command == before.command
    &&& after.prompts == before.prompts
    &&& match event {
        TelnetEvent::Bytes(bytes) => {
            let chunk = parsed(before.parser.state, bytes@);
            &&& after.parser.state == chunk.state
            &&& r.replies@ == chunk.replies
            &&& after_text(
                before.phase,
                grown(before.transcript@, chunk.data),
                before,
                r.outcome,
                after.phase,
                after.transcript@,
            )
        },
        TelnetEvent::Quiet => {
            &&& r.replies@.len() == 0
            &&& after.parser == before.parser
            &&& after.phase is Output
            &&& after.transcript@.len() == 0
            &&& types(r.outcome, typed(before.command@), after.phase)
        },
        TelnetEvent::Closed => {
            &&& r.replies@.len() == 0
            &&& after.phase is Over
            &&& stops_with(
                r.outcome,
                "TELNET_CLOSED"@,
                if before.phase is Settling {
                    "The Telnet server closed the connection after the password."@
                } else {
                    "The Telnet server closed the connection."@
                },
            )
        },
        TelnetEvent::ReadFailed(text) => {
            &&& r.replies@.len() == 0
            &&& after.phase is Over
            &&& stops_with(r.outcome, "TELNET_READ_FAILED"@, text@)
        },
    }
}

fn line_of(text: &str) -> (r: String)
    ensures
        r@ == text@ + "\r\n"@,
{
    let mut line = text.to_owned();
    line.append("\r\n");
    line
}

impl TelnetSession {
    pub fn start(
        username: String,
        password: Secret,
        command: String,
        prompts: LoginPrompts,
    ) -> (r: Self)
        ensures
            r.username == username,
            r.password == password,
            r.command == command,
            r.prompts == prompts,
            r.parser.state == ParserState::Data,
            r.transcript@.len() == 0,
            r.phase == TelnetPhase::Login,
    {
        TelnetSession {
            username,
            password,
            command,
            prompts,
            parser: TelnetParser { state: ParserState::Data },
            transcript: Vec::new(),
            phase: TelnetPhase::Login,
        }
    }

    /// Takes the session one step further.
    pub fn step(&mut self, event: TelnetEvent) -> (r: TelnetStep)
        requires
            !(old(self).phase is Over),
            event is Quiet ==> old(self).phase is Settling,
        ensures
            final(self).username == old(self).username,
            final(self).password == old(self).password,
            final(self).command == old(self).command,
            final(self).prompts == old(self).prompts,
            steps_to(*old(self), event, *final(self), r),
            event matches TelnetEvent::Bytes(bytes) ==> {
                let data = parsed(old(self).parser.state, bytes@).data;
                r.outcome is Read && old(self).transcript@.len() + data.len() <= MAX_CAPTURE_BYTES
                    ==> final(self).transcript@ == old(self).transcript@ + data
            },
    {
        match event {
            TelnetEvent::Quiet => {
                self.transcript = Vec::new();
                self.phase = TelnetPhase::Output;
                TelnetStep {
                    replies: Vec::new(),
                    outcome: TelnetOutcome::Type {
                        text: request_line(self.command.as_str()),
                        wait: None,
                    },
                }
            },
            TelnetEvent::Closed => {
                let message = match self.phase {
                    TelnetPhase::Settling { .. } => {
                        "The Telnet server closed the connection after the password."
                    },
                    _ => "The Telnet server closed the connection.",
                };
                self.phase = TelnetPhase::Over;
                TelnetStep {
                    replies: Vec::new(),
                    outcome: TelnetOutcome::Fail(RemoteFailure::new("TELNET_CLOSED", message)),
                }
            },
            TelnetEvent::ReadFailed(text) => {
                self.phase = TelnetPhase::Over;
                TelnetStep {
                    replies: Vec::new(),
                    outcome: TelnetOutcome::Fail(
                        RemoteFailure::new("TELNET_READ_FAILED", text.as_str()),
                    ),
                }
            },
            TelnetEvent::Bytes(bytes) => {
                let chunk = self.parser.consume(bytes.as_slice());
                self.grow(&chunk.data);
                let outcome = self.judge();
                assert(chunk.data@.take(chunk.data@.len() as int) =~= chunk.data@);
                TelnetStep { replies: chunk.replies, outcome }
            },
        }
    }

    fn grow(&mut self, data: &Vec<u8>)
        ensures
            final(self).transcript@ == grown(old(self).transcript@, data@),
            final(self).username == old(self).username,
            final(self).password == old(self).password,
            final(self).command == old(self).command,
            final(self).prompts == old(self).prompts,
            final(self).parser == old(self).parser,
            final(self).phase == old(self).phase,
    {
        let room: usize = if self.transcript.len() <= MAX_CAPTURE_BYTES {
            MAX_CAPTURE_BYTES - self.transcript.len()
        } else {
            0
        };
        let taken: usize = if data.len() <= room {
            data.len()
        } else {
            room
        };
        crate::fido::append_bytes(
            &mut self.transcript,
            slice_subrange(data.as_slice(), 0, taken),
        );
        assert(data@.subrange(0, taken as int) =~= data@.take(taken as int));
    }

    /// Decides what the transcript calls for.
    fn judge(&mut self) -> (outcome: TelnetOutcome)
        requires
            !(old(self).phase is Over),
        ensures
            final(self).username == old(self).username,
            final(self).password == old(self).password,
            final(self).command == old(self).command,
            final(self).prompts == old(self).prompts,
            final(self).parser == old(self).parser,
            after_text(
                old(self).phase,
                old(self).transcript@,
                *old(self),
                outcome,
                final(self).phase,
                final(self).transcript@,
            ),
    {
        let transcript = self.transcript.as_slice();
        let full = self.transcript.len() >= MAX_CAPTURE_BYTES;
        let phase = self.phase;
        match phase {
            TelnetPhase::Login => {
                if any_shown(transcript, &self.prompts.login) {
                    self.transcript = Vec::new();
                    self.phase = TelnetPhase::Password;
                    return TelnetOutcome::Type { text: line_of(self.username.as_str()), wait: None };
                }
            },
            TelnetPhase::Password => {
                if any_shown(transcript, &self.prompts.password) {
                    self.transcript = Vec::new();
                    self.phase = TelnetPhase::Settling { received: false };
                    return TelnetOutcome::Type {
                        text: line_of(self.password.as_str()),
                        wait: Some(SHELL_SILENT_LIMIT),
                    };
                }
            },
            TelnetPhase::Settling { .. } => {
                if let Err(error) = check_login_failure(transcript) {
                    self.phase = TelnetPhase::Over;
                    return TelnetOutcome::Fail(error);
                }
                self.phase = TelnetPhase::Settling { received: true };
                return TelnetOutcome::Read { wait: Some(SHELL_SETTLE) };
            },
            TelnetPhase::Output => {
                let mut markers: Vec<String> = Vec::new();
                markers.push(END_MARKER.to_owned());
                assert(texts(markers@) =~= seq![END_MARKER@]);
                if any_shown(transcript, &markers) {
                    let shown = read_lossy(transcript);
                    self.phase = TelnetPhase::Over;
                    return TelnetOutcome::Done(extract_output(shown.as_str()));
                }
                if let Err(error) = check_login_failure(transcript) {
                    self.phase = TelnetPhase::Over;
                    return TelnetOutcome::Fail(error);
                }
            },
            TelnetPhase::Over => {},
        }
        if full {
            self.phase = TelnetPhase::Over;
            return TelnetOutcome::Fail(
                RemoteFailure::new(
                    "OUTPUT_LIMIT",
                    "Telnet output exceeded the one-megabyte safety limit.",
                ),
            );
        }
        TelnetOutcome::Read { wait: None }
    }
}

/// The result of a Telnet command; the exit code is not known and counts as zero.
pub fn telnet_result(profile: &HostProfile, output: String) -> (r: RemoteResult)
    ensures
        r@ == (ResultModel {
            status: "ok"@,
            alias: profile@.alias,
            exit_code: 0,
            stdout: output@,
            stderr: Seq::empty(),
            output_truncated: utf8_len(output@) >= MAX_CAPTURE_BYTES,
            host_fingerprint: None,
            host_key_algorithm: None,
            auth_key_fingerprint: None,
            verified_host_keys: Seq::empty(),
        }),
{
    let truncated = byte_len(output.as_str()) >= MAX_CAPTURE_BYTES;
    let keys: Vec<VerifiedHostKey> = Vec::new();
    assert(verified_models(keys@) =~= Seq::<VerifiedModel>::empty());
    RemoteResult {
        status: "ok",
        alias: profile.alias.clone(),
        exit_code: 0,
        stdout: output,
        stderr: String::new(),
        output_truncated: truncated,
        host_fingerprint: None,
        host_key_algorithm: None,
        auth_key_fingerprint: None,
        verified_host_keys: keys,
    }
}

/// Two outcomes come to the same.
pub open spec fn same_outcome(a: TelnetOutcome, b: TelnetOutcome) -> bool {
    match (a, b) {
        (TelnetOutcome::Read { wait: x }, TelnetOutcome::Read { wait: y }) => x == y,
        (TelnetOutcome::Type { text: s, wait: x }, TelnetOutcome::Type { text: t, wait: y }) => s@
            == t@ && x == y,
        (TelnetOutcome::Done(s), TelnetOutcome::Done(t)) => s@ == t@,
        (TelnetOutcome::Fail(x), TelnetOutcome::Fail(y)) => x@ == y@,
        _ => false,
    }
}

proof fn lemma_grown_twice(transcript: Seq<u8>, first: Seq<u8>, second: Seq<u8>)
    ensures
        grown(grown(transcript, first), second) =~= grown(transcript, first + second),
{
}

/// While a session reads on, all the text of a phase is kept, in the order in which it came.
pub proof fn text_is_gathered_over_reads(
    before: TelnetSession,
    bytes: Vec<u8>,
    after: TelnetSession,
    step: TelnetStep,
)
    requires
        steps_to(before, TelnetEvent::Bytes(bytes), after, step),
        step.outcome is Read,
        before.transcript@.len() + bytes@.len() <= MAX_CAPTURE_BYTES,
    ensures
        after.transcript@ == before.transcript@ + parsed(before.parser.state, bytes@).data,
        before.parser.state is Data && (forall|i: int|
            0 <= i < bytes@.len() ==> (#[trigger] bytes@[i]) != 255u8) ==> after.transcript@
            == before.transcript@ + bytes@,
        before.phase is Settling == after.phase is Settling,
        before.phase is Login == after.phase is Login,
        before.phase is Password == after.phase is Password,
        before.phase is Output == after.phase is Output,
{
    let data = parsed(before.parser.state, bytes@).data;
    lemma_text_is_no_longer(before.parser.state, bytes@);
    assert(data.take(data.len() as int) =~= data);
    if before.parser.state is Data && (forall|i: int|
        0 <= i < bytes@.len() ==> (#[trigger] bytes@[i]) != 255u8) {
        plain_text_passes_unchanged(bytes@);
    }
}

proof fn lemma_text_is_no_longer(state: ParserState, bytes: Seq<u8>)
    ensures
        parsed(state, bytes).data.len() <= bytes.len(),
    decreases bytes.len(),
{
    if bytes.len() > 0 {
        lemma_text_is_no_longer(state, bytes.drop_last());
    }
}

/// It makes no difference to a session how the network cuts the stream: where a first read leaves
/// it reading on, a second one ends as a single read of both would have, with the same transcript,
/// the same answers and the same outcome.
pub proof fn two_reads_come_to_one(
    before: TelnetSession,
    first: Vec<u8>,
    middle: TelnetSession,
    first_step: TelnetStep,
    second: Vec<u8>,
    end: TelnetSession,
    second_step: TelnetStep,
    whole: Vec<u8>,
    once: TelnetSession,
    step: TelnetStep,
)
    requires
        whole@ == first@ + second@,
        steps_to(before, TelnetEvent::Bytes(first), middle, first_step),
        first_step.outcome is Read,
        steps_to(middle, TelnetEvent::Bytes(second), end, second_step),
        steps_to(before, TelnetEvent::Bytes(whole), once, step),
    ensures
        end.phase == once.phase,
        end.transcript@ == once.transcript@,
        end.parser.state == once.parser.state,
        step.replies@ == first_step.replies@ + second_step.replies@,
        same_outcome(second_step.outcome, step.outcome),
{
    reads_can_be_cut_anywhere(before.parser.state, first@, second@);
    let x = parsed(before.parser.state, first@).data;
    let y = parsed(middle.parser.state, second@).data;
    lemma_grown_twice(before.transcript@, x, y);
    assert(grown(middle.transcript@, y) == grown(before.transcript@, x + y));
}

/// The text shows another one, whatever the case of its ASCII letters.
pub open spec fn shows_in_any_case(shown: Seq<char>, wanted: Seq<char>) -> bool {
    exists|at: int|
        0 <= at && at + wanted.len() <= shown.len() && #[trigger] reads_alike(shown, wanted, at)
}

/// From a place on, a text reads as another one, whatever the case of its ASCII letters.
pub open spec fn reads_alike(shown: Seq<char>, wanted: Seq<char>, at: int) -> bool {
    forall|i: int|
        0 <= i < wanted.len() ==> crate::text::ascii_lower_char(#[trigger] shown[at + i])
            == crate::text::ascii_lower_char(wanted[i])
}

proof fn lemma_shown(shown: Seq<char>, wanted: Seq<char>)
    ensures
        contains_text(ascii_lower(shown), ascii_lower(wanted)) <==> shows_in_any_case(
            shown,
            wanted,
        ),
{
    let low = ascii_lower(shown);
    let needle = ascii_lower(wanted);
    if contains_text(low, needle) {
        let at = choose|at: int| occurs_at(low, needle, at);
        assert forall|i: int| 0 <= i < wanted.len() implies crate::text::ascii_lower_char(
            #[trigger] shown[at + i],
        ) == crate::text::ascii_lower_char(wanted[i]) by {
            assert(low.subrange(at, at + needle.len())[i] == needle[i]);
        }
        assert(reads_alike(shown, wanted, at));
    }
    if shows_in_any_case(shown, wanted) {
        let at = choose|at: int|
            0 <= at && at + wanted.len() <= shown.len() && #[trigger] reads_alike(
                shown,
                wanted,
                at,
            );
        assert forall|i: int| 0 <= i < needle.len() implies low.subrange(
            at,
            at + needle.len(),
        )[i] == needle[i] by {
            assert(crate::text::ascii_lower_char(shown[at + i])
                == crate::text::ascii_lower_char(wanted[i]));
        }
        assert(low.subrange(at, at + needle.len()) =~= needle);
        assert(occurs_at(low, needle, at));
    }
}

/// The dialogue: once one of the login prompts is shown, in whatever case, the user name is typed
/// on a line of its own; once one of the password prompts is, the password; and when the shell has
/// gone quiet, the line for the command. Nothing is typed before.
pub proof fn the_dialogue_answers_its_prompts(
    before: TelnetSession,
    bytes: Vec<u8>,
    after: TelnetSession,
    step: TelnetStep,
)
    requires
        steps_to(before, TelnetEvent::Bytes(bytes), after, step),
        before.transcript@.len() + bytes@.len() <= MAX_CAPTURE_BYTES,
    ensures
        ({
            let shown = lossy_text(
                before.transcript@ + parsed(before.parser.state, bytes@).data,
            );
            &&& before.phase is Login ==> (step.outcome is Type <==> exists|i: int|
                0 <= i < before.prompts.login@.len() && shows_in_any_case(
                    shown,
                    (#[trigger] before.prompts.login@[i])@,
                ))
            &&& before.phase is Password ==> (step.outcome is Type <==> exists|i: int|
                0 <= i < before.prompts.password@.len() && shows_in_any_case(
                    shown,
                    (#[trigger] before.prompts.password@[i])@,
                ))
        }),
        step.outcome matches TelnetOutcome::Type { text, wait } ==> {
            &&& after.transcript@.len() == 0
            &&& before.phase is Login || before.phase is Password
            &&& before.phase is Login ==> text@ == before.username@ + "\r\n"@ && after.phase
                is Password && wait is None
            &&& before.phase is Password ==> text@ == before.password@ + "\r\n"@ && after.phase
                is Settling && wait == Some(3000u64)
        },
        before.phase is Settling && step.outcome is Read ==> step.outcome == (TelnetOutcome::Read {
            wait: Some(500u64),
        }),
{
    let data = parsed(before.parser.state, bytes@).data;
    lemma_text_is_no_longer(before.parser.state, bytes@);
    assert(data.take(data.len() as int) =~= data);
    let all = before.transcript@ + data;
    let shown = lossy_text(all);
    assert(grown(before.transcript@, data) == all);
    lemma_any_shown(all, before.prompts.login@);
    lemma_any_shown(all, before.prompts.password@);
}

proof fn lemma_any_shown(transcript: Seq<u8>, needles: Seq<String>)
    ensures
        shows_any(transcript, texts(needles)) <==> exists|i: int|
            0 <= i < needles.len() && shows_in_any_case(
                lossy_text(transcript),
                (#[trigger] needles[i])@,
            ),
{
    let list = texts(needles);
    assert forall|i: int| 0 <= i < needles.len() implies contains_text(
        ascii_lower(lossy_text(transcript)),
        ascii_lower(#[trigger] list[i]),
    ) == shows_in_any_case(lossy_text(transcript), needles[i]@) by {
        lemma_shown(lossy_text(transcript), needles[i]@);
    }
    if shows_any(transcript, list) {
        let i = choose|i: int|
            0 <= i < list.len() && contains_text(
                ascii_lower(lossy_text(transcript)),
                ascii_lower(#[trigger] list[i]),
            );
        assert(shows_in_any_case(lossy_text(transcript), needles[i]@));
    }
    if exists|i: int|
        0 <= i < needles.len() && shows_in_any_case(
            lossy_text(transcript),
            (#[trigger] needles[i])@,
        ) {
        let i = choose|i: int|
            0 <= i < needles.len() && shows_in_any_case(
                lossy_text(transcript),
                (#[trigger] needles[i])@,
            );
        assert(contains_text(
            ascii_lower(lossy_text(transcript)),
            ascii_lower(list[i]),
        ));
    }
}

/// A login that the server refuses is reported as such, and as nothing else: after the password,
/// and while the output is waited for, one of the three texts ends the session.
pub proof fn refused_logins_are_reported(
    before: TelnetSession,
    bytes: Vec<u8>,
    after: TelnetSession,
    step: TelnetStep,
)
    requires
        steps_to(before, TelnetEvent::Bytes(bytes), after, step),
        before.phase is Settling,
        before.transcript@.len() + bytes@.len() <= MAX_CAPTURE_BYTES,
    ensures
        ({
            let shown = lossy_text(
                before.transcript@ + parsed(before.parser.state, bytes@).data,
            );
            &&& step.outcome is Fail <==> shows_in_any_case(shown, "login incorrect"@)
                || shows_in_any_case(shown, "authentication failed"@) || shows_in_any_case(
                shown,
                "access denied"@,
            )
            &&& step.outcome is Fail || step.outcome is Read
        }),
        step.outcome matches TelnetOutcome::Fail(error) ==> error.code@ == "AUTH_FAILED"@,
{
    let data = parsed(before.parser.state, bytes@).data;
    lemma_text_is_no_longer(before.parser.state, bytes@);
    assert(data.take(data.len() as int) =~= data);
    let all = before.transcript@ + data;
    let shown = lossy_text(all);
    assert(grown(before.transcript@, data) == all);
    lemma_lower_texts();
    lemma_shown(shown, "login incorrect"@);
    lemma_shown(shown, "authentication failed"@);
    lemma_shown(shown, "access denied"@);
    if step.outcome is Fail {
        assert(step.outcome->Fail_0@.code == "AUTH_FAILED"@);
    }
}

proof fn lemma_lower_texts()
    ensures
        ascii_lower("login incorrect"@) == "login incorrect"@,
        ascii_lower("authentication failed"@) == "authentication failed"@,
        ascii_lower("access denied"@) == "access denied"@,
{
    reveal_strlit("login incorrect");
    reveal_strlit("authentication failed");
    reveal_strlit("access denied");
    assert(ascii_lower("login incorrect"@) =~= "login incorrect"@);
    assert(ascii_lower("authentication failed"@) =~= "authentication failed"@);
    assert(ascii_lower("access denied"@) =~= "access denied"@);
}

/// The output of the command is what stands between the two markers, however much was read
/// before, and the session is over with it.
pub proof fn a_session_ends_with_the_output(
    before: TelnetSession,
    bytes: Vec<u8>,
    after: TelnetSession,
    step: TelnetStep,
    noise: Seq<char>,
    output: Seq<char>,
    rest: Seq<char>,
)
    requires
        steps_to(before, TelnetEvent::Bytes(bytes), after, step),
        before.phase is Output,
        before.transcript@.len() + bytes@.len() <= MAX_CAPTURE_BYTES,
        lossy_text(before.transcript@ + parsed(before.parser.state, bytes@).data) == noise
            + "__CODEX_HOSTS_BEGIN__"@ + output + "__CODEX_HOSTS_END__"@ + rest,
        no_later(
            noise + "__CODEX_HOSTS_BEGIN__"@ + output + "__CODEX_HOSTS_END__"@ + rest,
            "__CODEX_HOSTS_BEGIN__"@,
            noise.len() as int,
        ),
        no_earlier(
            output + "__CODEX_HOSTS_END__"@ + rest,
            "__CODEX_HOSTS_END__"@,
            output.len() as int,
        ),
    ensures
        step.outcome matches TelnetOutcome::Done(text) && is_core_of(text@, output),
        after.phase is Over,
{
    let data = parsed(before.parser.state, bytes@).data;
    lemma_text_is_no_longer(before.parser.state, bytes@);
    assert(data.take(data.len() as int) =~= data);
    let all = before.transcript@ + data;
    let shown = lossy_text(all);
    assert(grown(before.transcript@, data) == all);
    assert(shown.subrange(
        (noise.len() + "__CODEX_HOSTS_BEGIN__"@.len() + output.len()) as int,
        (noise.len() + "__CODEX_HOSTS_BEGIN__"@.len() + output.len()
            + "__CODEX_HOSTS_END__"@.len()) as int,
    ) =~= "__CODEX_HOSTS_END__"@);
    let at = (noise.len() + "__CODEX_HOSTS_BEGIN__"@.len() + output.len()) as int;
    assert(reads_alike(shown, END_MARKER@, at)) by {
        assert forall|i: int| 0 <= i < END_MARKER@.len() implies crate::text::ascii_lower_char(
            #[trigger] shown[at + i],
        ) == crate::text::ascii_lower_char(END_MARKER@[i]) by {
            assert(shown.subrange(at, at + END_MARKER@.len())[i] == END_MARKER@[i]);
        }
    }
    lemma_shown(shown, END_MARKER@);
    let wanted = seq![END_MARKER@];
    assert(wanted[0] == END_MARKER@);
    assert(shows_any(all, wanted)) by {
        assert(contains_text(ascii_lower(lossy_text(all)), ascii_lower(wanted[0])));
    }
    output_stands_between_the_markers(noise, output, rest);
    lemma_core(output);
}

/// The text is another one without line ends and spaces around it.
pub open spec fn is_core_of(core: Seq<char>, text: Seq<char>) -> bool {
    &&& exists|before: Seq<char>, after: Seq<char>|
        text == #[trigger] (before + core + after) && all_padding(before) && all_padding(after)
    &&& core.len() > 0 ==> !(core[0] == '\r' || core[0] == '\n' || core[0] == ' ') && !(core.last()
        == '\r' || core.last() == '\n' || core.last() == ' ')
}

/// Nothing but line ends and spaces.
pub open spec fn all_padding(text: Seq<char>) -> bool {
    forall|i: int|
        0 <= i < text.len() ==> (#[trigger] text[i]) == '\r' || text[i] == '\n' || text[i] == ' '
}

proof fn lemma_core(text: Seq<char>)
    ensures
        is_core_of(trimmed_lines(text), text),
{
    let class = |c: char| is_line_padding(c);
    let first = crate::text::trim_start_by(text, class);
    let core = crate::text::trim_end_by(first, class);
    crate::text::lemma_trim_start_shape(text, class);
    crate::text::lemma_trim_end_shape(first, class);
    crate::text::lemma_dropped_front(text, class);
    crate::text::lemma_dropped_back(first, class);
    let before = text.take(text.len() - first.len());
    let after = first.skip(core.len() as int);
    assert(before + core + after =~= text);
    assert(trimmed_lines(text) == core);
    if core.len() > 0 {
        assert(core[0] == first[0]);
    }
}

/// What is typed runs the command between two lines that print the markers: a command of one line
/// stands on one line with them, any other one stands on lines of its own, as it is.
pub proof fn the_command_is_typed_between_the_markers(command: Seq<char>)
    ensures
        has_line_end(trimmed_end(command)) || (trimmed_end(command).len() > 0 && trimmed_end(
            command,
        ).last() == '&') ==> typed(command) == "echo __CODEX_HOSTS_BEG''IN__\r\n"@ + command
            + "\r\necho __CODEX_HOSTS_E''ND__\r\n"@,
        !has_line_end(trimmed_end(command)) && !(trimmed_end(command).len() > 0 && trimmed_end(
            command,
        ).last() == '&') ==> typed(command) == "echo __CODEX_HOSTS_BEG''IN__; "@ + trimmed_end(
            command,
        ) + "; echo __CODEX_HOSTS_E''ND__\r\n"@,
{
    reveal_strlit("echo ");
    reveal_strlit("__CODEX_HOSTS_BEG''IN__");
    reveal_strlit("__CODEX_HOSTS_E''ND__");
    reveal_strlit("\r\n");
    reveal_strlit("\r\necho ");
    reveal_strlit("; ");
    reveal_strlit("; echo ");
    reveal_strlit("echo __CODEX_HOSTS_BEG''IN__\r\n");
    reveal_strlit("\r\necho __CODEX_HOSTS_E''ND__\r\n");
    reveal_strlit("echo __CODEX_HOSTS_BEG''IN__; ");
    reveal_strlit("; echo __CODEX_HOSTS_E''ND__\r\n");
    assert("echo __CODEX_HOSTS_BEG''IN__\r\n"@ =~= "echo "@ + BEGIN_MARKER_SOURCE@ + "\r\n"@);
    assert("\r\necho __CODEX_HOSTS_E''ND__\r\n"@ =~= "\r\necho "@ + END_MARKER_SOURCE@
        + "\r\n"@);
    assert("echo __CODEX_HOSTS_BEG''IN__; "@ =~= "echo "@ + BEGIN_MARKER_SOURCE@ + "; "@);
    assert("; echo __CODEX_HOSTS_E''ND__\r\n"@ =~= "; echo "@ + END_MARKER_SOURCE@ + "\r\n"@);
    if needs_own_line(command) {
        assert(typed(command) =~= "echo __CODEX_HOSTS_BEG''IN__\r\n"@ + command
            + "\r\necho __CODEX_HOSTS_E''ND__\r\n"@);
    } else {
        assert(typed(command) =~= "echo __CODEX_HOSTS_BEG''IN__; "@ + trimmed_end(command)
            + "; echo __CODEX_HOSTS_E''ND__\r\n"@);
    }
}

/// An option that the server asks for or offers is refused with the answer that fits, an escaped
/// escape byte is text, and what stands in a subnegotiation is not shown and not answered.
pub proof fn negotiation_is_kept_out_of_the_text(option: u8, inside: Seq<u8>)
    requires
        forall|i: int| 0 <= i < inside.len() ==> (#[trigger] inside[i]) != 255u8,
    ensures
        parsed(ParserState::Data, seq![255u8, 253u8, option]).replies == seq![255u8, 252u8, option],
        parsed(ParserState::Data, seq![255u8, 254u8, option]).replies == seq![255u8, 252u8, option],
        parsed(ParserState::Data, seq![255u8, 251u8, option]).replies == seq![255u8, 254u8, option],
        parsed(ParserState::Data, seq![255u8, 252u8, option]).replies == seq![255u8, 254u8, option],
        parsed(ParserState::Data, seq![255u8, 253u8, option]).data.len() == 0,
        parsed(ParserState::Data, seq![255u8, 251u8, option]).data.len() == 0,
        parsed(ParserState::Data, seq![255u8, 255u8]).data == seq![255u8],
        parsed(ParserState::Data, seq![255u8, 255u8]).replies.len() == 0,
        parsed(
            ParserState::Data,
            seq![255u8, 250u8] + inside + seq![255u8, 240u8],
        ) == (Parsed {
            state: ParserState::Data,
            data: Seq::empty(),
            replies: Seq::empty(),
        }),
{
    lemma_three(255u8, 253u8, option);
    lemma_three(255u8, 254u8, option);
    lemma_three(255u8, 251u8, option);
    lemma_three(255u8, 252u8, option);
    lemma_two(ParserState::Data, 255u8, 255u8);
    lemma_subnegotiation(inside);
}

proof fn lemma_subnegotiation(inside: Seq<u8>)
    requires
        forall|i: int| 0 <= i < inside.len() ==> (#[trigger] inside[i]) != 255u8,
    ensures
        parsed(
            ParserState::Data,
            seq![255u8, 250u8] + inside + seq![255u8, 240u8],
        ) == (Parsed {
            state: ParserState::Data,
            data: Seq::empty(),
            replies: Seq::empty(),
        }),
{
    let head = seq![255u8, 250u8];
    let tail = seq![255u8, 240u8];
    lemma_two(ParserState::Data, 255u8, 250u8);
    lemma_two(ParserState::Subnegotiation, 255u8, 240u8);
    lemma_inside_subnegotiation(inside);
    reads_can_be_cut_anywhere(ParserState::Data, head, inside);
    reads_can_be_cut_anywhere(ParserState::Data, head + inside, tail);
    let whole = parsed(ParserState::Data, head + inside + tail);
    assert(whole.data =~= Seq::empty());
    assert(whole.replies =~= Seq::empty());
}

proof fn lemma_two(state: ParserState, a: u8, b: u8)
    ensures
        ({
            let middle = next_state(state, a);
            parsed(state, seq![a, b]) == (Parsed {
                state: next_state(middle, b),
                data: text_byte(state, a) + text_byte(middle, b),
                replies: reply_to(state, a) + reply_to(middle, b),
            })
        }),
        text_byte(state, a).len() == 0 ==> parsed(state, seq![a, b]).data == text_byte(
            next_state(state, a),
            b,
        ),
{
    lemma_one(state, a);
    lemma_one(next_state(state, a), b);
    reads_can_be_cut_anywhere(state, seq![a], seq![b]);
    assert(seq![a] + seq![b] =~= seq![a, b]);
    if text_byte(state, a).len() == 0 {
        assert(parsed(state, seq![a, b]).data =~= text_byte(next_state(state, a), b));
    }
}

proof fn lemma_one(state: ParserState, byte: u8)
    ensures
        parsed(state, seq![byte]) == (Parsed {
            state: next_state(state, byte),
            data: text_byte(state, byte),
            replies: reply_to(state, byte),
        }),
{
    let one = seq![byte];
    assert(one.drop_last() =~= Seq::empty());
    assert(one.last() == byte);
    assert(Seq::<u8>::empty() + text_byte(state, byte) =~= text_byte(state, byte));
    assert(Seq::<u8>::empty() + reply_to(state, byte) =~= reply_to(state, byte));
    assert(parsed(state, Seq::empty()).state == state);
}

proof fn lemma_three(a: u8, b: u8, c: u8)
    requires
        a == 255u8,
        b == 253u8 || b == 254u8 || b == 251u8 || b == 252u8,
    ensures
        parsed(ParserState::Data, seq![a, b, c]).data.len() == 0,
        parsed(ParserState::Data, seq![a, b, c]).replies == reply_to(ParserState::Option(b), c),
{
    lemma_one(ParserState::Data, a);
    lemma_one(ParserState::Command, b);
    lemma_one(ParserState::Option(b), c);
    reads_can_be_cut_anywhere(ParserState::Data, seq![a], seq![b]);
    assert(seq![a] + seq![b] =~= seq![a, b]);
    reads_can_be_cut_anywhere(ParserState::Data, seq![a, b], seq![c]);
    assert(seq![a, b] + seq![c] =~= seq![a, b, c]);
    assert(parsed(ParserState::Data, seq![a, b, c]).replies =~= reply_to(
        ParserState::Option(b),
        c,
    ));
}

proof fn lemma_inside_subnegotiation(inside: Seq<u8>)
    requires
        forall|i: int| 0 <= i < inside.len() ==> (#[trigger] inside[i]) != 255u8,
    ensures
        parsed(ParserState::Subnegotiation, inside) == (Parsed {
            state: ParserState::Subnegotiation,
            data: Seq::empty(),
            replies: Seq::empty(),
        }),
    decreases inside.len(),
{
    if inside.len() > 0 {
        let before = inside.drop_last();
        assert(forall|i: int| 0 <= i < before.len() ==> before[i] == inside[i]);
        lemma_inside_subnegotiation(before);
        assert(inside[inside.len() - 1] != 255u8);
        assert(Seq::<u8>::empty() + Seq::<u8>::empty() =~= Seq::<u8>::empty());
    }
}

/// Every option that the server asks for or offers is refused, by its own number.
pub proof fn options_are_refused(option: u8)
    ensures
        reply_to(ParserState::Option(253), option) == seq![255u8, 252u8, option],
        reply_to(ParserState::Option(251), option) == seq![255u8, 254u8, option],
        reply_to(ParserState::Option(254), option) == seq![255u8, 252u8, option],
        reply_to(ParserState::Option(252), option) == seq![255u8, 254u8, option],
        reply_to(ParserState::Data, option).len() == 0,
{
}

} // verus!
