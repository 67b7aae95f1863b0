//! The dialogue with the video player: commands and replies, one line of JSON
//! each.
use vstd::prelude::*;

use crate::json::{
    json_members, json_read, lookup, member, members_of, parse, value_view, JsonValue, JsonView,
};
use crate::text::{decimal, decimal_text, same, to_chars, trim, trimmed};

verus! {

/// What the video player says of itself at a moment. Times are the bits of
/// floating-point seconds.
#[derive(Clone, Copy, Debug, PartialEq, Eq, Structural)]
pub struct MpvPoll {
    pub time_pos: u64,
    pub duration: u64,
    pub paused: bool,
}

/// The number in the data of a reply, as the bits of a floating-point number;
/// no value counts as zero.
pub open spec fn data_number(v: Option<JsonView>) -> Option<u64> {
    match v {
        Some(JsonView::Null) => Some(0),
        Some(JsonView::Number(_, _, bits)) => bits,
        _ => None,
    }
}

/// The number in the data of a reply.
pub fn parse_data_number(v: &Option<JsonValue>) -> (r: Option<u64>)
    ensures
        r == data_number(value_view(*v)),
{
    match v {
        Some(JsonValue::Null) => Some(0),
        Some(JsonValue::Number(_, _, bits)) => *bits,
        _ => None,
    }
}

/// The number of the request that a reply answers; a negative one counts as the
/// unsigned number with the same bits.
pub open spec fn reply_number(v: Option<JsonView>) -> Option<u64> {
    match v {
        Some(JsonView::Number(Some(n), _, _)) => Some(n),
        Some(JsonView::Number(None, Some(i), _)) => Some(i as u64),
        _ => None,
    }
}

/// Whether a reply answers the request with this number.
pub fn rid_match(request_id: &Option<JsonValue>, want: u64) -> (r: bool)
    ensures
        r == (reply_number(value_view(*request_id)) == Some(want)),
{
    match request_id {
        Some(JsonValue::Number(Some(n), _, _)) => *n == want,
        Some(JsonValue::Number(None, Some(i), _)) => {
            let n: u64 = #[verifier::truncate]
            (*i as u64);
            n == want
        },
        _ => false,
    }
}

/// Whether a reply tells of success.
pub open spec fn is_success(v: Option<JsonView>) -> bool {
    v == Some(JsonView::Text("success"@))
}

fn succeeded(v: &Option<JsonValue>) -> (r: bool)
    ensures
        r == is_success(value_view(*v)),
{
    match v {
        Some(JsonValue::Text(s)) => same(s.as_str(), "success"),
        _ => false,
    }
}

/// The truth value in the data of a reply.
pub open spec fn data_bool(v: Option<JsonView>) -> Option<bool> {
    match v {
        Some(JsonView::Bool(b)) => Some(b),
        _ => None,
    }
}

/// The text of a command with the number of its request: `body` is what stands
/// between the brackets of the command.
pub open spec fn command(body: Seq<char>, id: u64) -> Seq<char> {
    "{\"command\":["@ + body + "],\"request_id\":"@ + decimal(id as nat) + "}"@
}

fn command_text(body: &str, id: u64) -> (r: String)
    ensures
        r@ == command(body@, id),
{
    let mut out = "{\"command\":[".to_string();
    out.append(body);
    out.append("],\"request_id\":");
    out.append(decimal_text(id).as_str());
    out.append("}");
    out
}

/// What is asked of a property.
pub open spec fn get_body(name: Seq<char>) -> Seq<char> {
    "\"get_property\",\""@ + name + "\""@
}

/// The command that asks for a property.
pub fn get_command(name: &str, id: u64) -> (r: String)
    ensures
        r@ == command(get_body(name@), id),
{
    let mut body = "\"get_property\",\"".to_string();
    body.append(name);
    body.append("\"");
    command_text(body.as_str(), id)
}

/// What pauses or resumes.
pub open spec fn pause_body(paused: bool) -> Seq<char> {
    if paused {
        "\"set_property\",\"pause\",true"@
    } else {
        "\"set_property\",\"pause\",false"@
    }
}

/// The command that pauses or resumes.
pub fn pause_command(paused: bool, id: u64) -> (r: String)
    ensures
        r@ == command(pause_body(paused), id),
{
    if paused {
        command_text("\"set_property\",\"pause\",true", id)
    } else {
        command_text("\"set_property\",\"pause\",false", id)
    }
}

/// What sets the volume.
pub open spec fn volume_body(level: Seq<char>) -> Seq<char> {
    "\"set_property\",\"volume\","@ + level
}

/// The command that sets the volume; `level` is the number as text.
pub fn volume_command(level: &str, id: u64) -> (r: String)
    ensures
        r@ == command(volume_body(level@), id),
{
    let mut body = "\"set_property\",\"volume\",".to_string();
    body.append(level);
    command_text(body.as_str(), id)
}

/// A whole number in decimal notation, with a minus sign where it is negative.
pub open spec fn signed_decimal(n: int) -> Seq<char> {
    if n < 0 {
        seq!['-'] + decimal((-n) as nat)
    } else {
        decimal(n as nat)
    }
}

/// A whole number in decimal notation.
pub fn signed_decimal_text(n: i64) -> (r: String)
    ensures
        r@ == signed_decimal(n as int),
{
    if n < 0 {
        let mut out = String::new();
        out.push('-');
        let size: u64 = (-(n as i128)) as u64;
        out.append(decimal_text(size).as_str());
        assert(out@ =~= signed_decimal(n as int));
        out
    } else {
        decimal_text(n as u64)
    }
}

/// What moves the position by so many seconds.
pub open spec fn seek_body(delta_secs: i64) -> Seq<char> {
    "\"seek\","@ + signed_decimal(delta_secs as int) + ",\"relative\""@
}

/// The command that moves the position by so many seconds.
pub fn seek_command(delta_secs: i64, id: u64) -> (r: String)
    ensures
        r@ == command(seek_body(delta_secs), id),
{
    let mut body = "\"seek\",".to_string();
    body.append(signed_decimal_text(delta_secs).as_str());
    body.append(",\"relative\"");
    command_text(body.as_str(), id)
}

/// The numbers of requests: each is one more than the last.
pub struct MpvIpc {
    pub next_rid: u64,
}

/// A snapshot that is being read: the numbers of its three requests, what was
/// answered so far, and how many lines were asked for.
#[derive(Clone, Copy, Debug, PartialEq, Eq, Structural)]
pub struct Snapshot {
    pub id_time: u64,
    pub id_duration: u64,
    pub id_pause: u64,
    pub time: Option<u64>,
    pub duration: Option<u64>,
    pub paused: Option<bool>,
    pub lines: usize,
}

/// Why a reply cannot be read.
#[derive(Debug, PartialEq, Eq)]
pub enum IpcError {
    /// Too many lines came without the replies that are waited for.
    TooManyLines,
    /// A line is not JSON, and what is wrong with it.
    BadJson(String),
    /// Too many lines came behind a command.
    DrainOverflow,
}

impl IpcError {
    /// What is told of it.
    pub open spec fn text(self) -> Seq<char> {
        match self {
            IpcError::TooManyLines => "mpv IPC: too many lines while waiting for replies"@,
            IpcError::BadJson(words) => "mpv IPC JSON: "@ + words@,
            IpcError::DrainOverflow => "mpv IPC: drain reply overflow"@,
        }
    }

    /// What is told of it.
    pub fn message(&self) -> (r: String)
        ensures
            r@ == self.text(),
    {
        match self {
            IpcError::TooManyLines => {
                "mpv IPC: too many lines while waiting for replies".to_string()
            },
            IpcError::BadJson(words) => {
                let mut out = "mpv IPC JSON: ".to_string();
                out.append(words.as_str());
                out
            },
            IpcError::DrainOverflow => "mpv IPC: drain reply overflow".to_string(),
        }
    }
}

impl MpvIpc {
    /// A dialogue at its start.
    pub fn new() -> (r: Self)
        ensures
            r.next_rid == 1000,
    {
        MpvIpc { next_rid: 1000 }
    }

    /// The number of the next request.
    pub fn next_id(&mut self) -> (r: u64)
        requires
            old(self).next_rid < u64::MAX,
        ensures
            r == old(self).next_rid + 1,
            final(self).next_rid == r,
    {
        self.next_rid = self.next_rid + 1;
        self.next_rid
    }

    /// Begins a snapshot: the three commands that ask for it, and what reads the
    /// replies.
    pub fn poll_snapshot(&mut self) -> (r: (Vec<String>, Snapshot))
        requires
            old(self).next_rid <= u64::MAX - 3,
        ensures
            final(self).next_rid == old(self).next_rid + 3,
            r.0.len() == 3,
            r.0@[0]@ == command(get_body("time-pos"@), (old(self).next_rid + 1) as u64),
            r.0@[1]@ == command(get_body("duration"@), (old(self).next_rid + 2) as u64),
            r.0@[2]@ == command(get_body("pause"@), (old(self).next_rid + 3) as u64),
            r.1 == (Snapshot {
                id_time: (old(self).next_rid + 1) as u64,
                id_duration: (old(self).next_rid + 2) as u64,
                id_pause: (old(self).next_rid + 3) as u64,
                time: None,
                duration: None,
                paused: None,
                lines: 0,
            }),
    {
        let id_time = self.next_id();
        let id_duration = self.next_id();
        let id_pause = self.next_id();
        let mut commands: Vec<String> = Vec::new();
        commands.push(get_command("time-pos", id_time));
        commands.push(get_command("duration", id_duration));
        commands.push(get_command("pause", id_pause));
        let reader = Snapshot {
            id_time,
            id_duration,
            id_pause,
            time: None,
            duration: None,
            paused: None,
            lines: 0,
        };
        (commands, reader)
    }

    /// Pauses or resumes: the command, and the wait for its reply.
    pub fn set_pause(&mut self, paused: bool) -> (r: (String, Drain))
        requires
            old(self).next_rid < u64::MAX,
        ensures
            final(self).next_rid == old(self).next_rid + 1,
            r.0@ == command(pause_body(paused), final(self).next_rid),
            r.1 == (Drain { want: final(self).next_rid, lines: 0 }),
    {
        let id = self.next_id();
        (pause_command(paused, id), Drain::new(id))
    }

    /// Sets the volume to the number that `level` is the text of: the command, and
    /// the wait for its reply.
    pub fn set_volume_keet(&mut self, level: &str) -> (r: (String, Drain))
        requires
            old(self).next_rid < u64::MAX,
        ensures
            final(self).next_rid == old(self).next_rid + 1,
            r.0@ == command(volume_body(level@), final(self).next_rid),
            r.1 == (Drain { want: final(self).next_rid, lines: 0 }),
    {
        let id = self.next_id();
        (volume_command(level, id), Drain::new(id))
    }

    /// Moves the position by so many seconds: the command, and the wait for its
    /// reply.
    pub fn seek_relative(&mut self, delta_secs: i64) -> (r: (String, Drain))
        requires
            old(self).next_rid < u64::MAX,
        ensures
            final(self).next_rid == old(self).next_rid + 1,
            r.0@ == command(seek_body(delta_secs), final(self).next_rid),
            r.1 == (Drain { want: final(self).next_rid, lines: 0 }),
    {
        let id = self.next_id();
        (seek_command(delta_secs, id), Drain::new(id))
    }
}

/// The bits of a number that is not negative: those of zero stand for all else.
pub open spec fn not_negative(bits: u64) -> u64 {
    if bits > 0x7ff0_0000_0000_0000 {
        0
    } else {
        bits
    }
}

fn at_least_zero(bits: Option<u64>) -> (r: u64)
    ensures
        r == (match bits {
            Some(b) => not_negative(b),
            None => 0,
        }),
{
    match bits {
        Some(b) => if b > 0x7ff0_0000_0000_0000 {
            0
        } else {
            b
        },
        None => 0,
    }
}

/// Whether a line of the dialogue is passed over.
pub open spec fn is_blank_line(line: Seq<char>) -> bool {
    trimmed(line).len() == 0 || trimmed(line)[0] == '#'
}

impl Snapshot {
    /// Whether everything was answered.
    pub open spec fn complete(self) -> bool {
        self.time is Some && self.duration is Some && self.paused is Some
    }

    /// What a reply adds: the value for the first of the three requests that it
    /// answers, where it tells of success.
    pub open spec fn with_reply(
        self,
        request_id: Option<JsonView>,
        error: Option<JsonView>,
        data: Option<JsonView>,
    ) -> Snapshot {
        let n = reply_number(request_id);
        if n == Some(self.id_time) {
            if is_success(error) {
                Snapshot { time: data_number(data), ..self }
            } else {
                self
            }
        } else if n == Some(self.id_duration) {
            if is_success(error) {
                Snapshot { duration: data_number(data), ..self }
            } else {
                self
            }
        } else if n == Some(self.id_pause) {
            if is_success(error) {
                Snapshot { paused: data_bool(data), ..self }
            } else {
                self
            }
        } else {
            self
        }
    }

    /// Whether another line is to be read; after so many it is given up.
    pub fn wants_line(&mut self) -> (r: Result<bool, IpcError>)
        requires
            old(self).lines < usize::MAX,
        ensures
            old(self).complete() ==> r == Ok::<bool, IpcError>(false) && *final(self) == *old(self),
            !old(self).complete() ==> *final(self) == (Snapshot {
                lines: (old(self).lines + 1) as usize,
                ..*old(self)
            }) && r == if old(self).lines >= 4096 {
                Err::<bool, IpcError>(IpcError::TooManyLines)
            } else {
                Ok::<bool, IpcError>(true)
            },
    {
        if self.time.is_some() && self.duration.is_some() && self.paused.is_some() {
            return Ok(false);
        }
        self.lines = self.lines + 1;
        if self.lines > 4096 {
            return Err(IpcError::TooManyLines);
        }
        Ok(true)
    }

    /// Takes in a reply with these members.
    pub fn note_reply(
        &mut self,
        request_id: &Option<JsonValue>,
        error: &Option<JsonValue>,
        data: &Option<JsonValue>,
    )
        ensures
            *final(self) == old(self).with_reply(
                value_view(*request_id),
                value_view(*error),
                value_view(*data),
            ),
    {
        let good = succeeded(error);
        if rid_match(request_id, self.id_time) {
            if good {
                self.time = parse_data_number(data);
            }
        } else if rid_match(request_id, self.id_duration) {
            if good {
                self.duration = parse_data_number(data);
            }
        } else if rid_match(request_id, self.id_pause) {
            if good {
                self.paused = match data {
                    Some(JsonValue::Bool(b)) => Some(*b),
                    _ => None,
                };
            }
        }
    }

    /// Reads a line. Empty lines and comments are passed over; a line that is
    /// not JSON is an error.
    pub fn read_line(&mut self, line: &str) -> (r: Result<(), IpcError>)
        ensures
            is_blank_line(line@) ==> r is Ok && *final(self) == *old(self),
            !is_blank_line(line@) ==> match json_read(trimmed(line@)) {
                Ok(m) => r is Ok && *final(self) == old(self).with_reply(
                    lookup(m, "request_id"@),
                    lookup(m, "error"@),
                    lookup(m, "data"@),
                ),
                Err(words) => {
                    &&& r matches Err(IpcError::BadJson(told)) && told@ == words
                    &&& *final(self) == *old(self)
                },
            },
    {
        let text = trim(line);
        let v = to_chars(text.as_str());
        if v.len() == 0 || v[0] == '#' {
            return Ok(());
        }
        match parse(text.as_str()) {
            Ok(value) => {
                let request_id = member(&value, "request_id");
                let error = member(&value, "error");
                let data = member(&value, "data");
                proof {
                    let m = members_of(value);
                    assert(value_view(request_id) == lookup(m, "request_id"@));
                    assert(value_view(error) == lookup(m, "error"@));
                    assert(value_view(data) == lookup(m, "data"@));
                }
                self.note_reply(&request_id, &error, &data);
                Ok(())
            },
            Err(words) => Err(IpcError::BadJson(words)),
        }
    }

    /// What was learned; what was not answered counts as zero and not paused.
    pub fn finish(&self) -> (r: MpvPoll)
        ensures
            r == (MpvPoll {
                time_pos: match self.time {
                    Some(b) => not_negative(b),
                    None => 0,
                },
                duration: match self.duration {
                    Some(b) => not_negative(b),
                    None => 0,
                },
                paused: self.paused == Some(true),
            }),
    {
        MpvPoll {
            time_pos: at_least_zero(self.time),
            duration: at_least_zero(self.duration),
            paused: match self.paused {
                Some(b) => b,
                None => false,
            },
        }
    }
}

/// A wait for the reply to one request.
#[derive(Clone, Copy, Debug, PartialEq, Eq, Structural)]
pub struct Drain {
    pub want: u64,
    pub lines: usize,
}

impl Drain {
    /// A wait for the reply to this request.
    pub fn new(want: u64) -> (r: Self)
        ensures
            r == (Drain { want, lines: 0 }),
    {
        Drain { want, lines: 0 }
    }

    /// Counts one more line; after so many the wait is given up.
    pub fn wants_line(&mut self) -> (r: Result<(), IpcError>)
        requires
            old(self).lines < usize::MAX,
        ensures
            *final(self) == (Drain { lines: (old(self).lines + 1) as usize, ..*old(self) }),
            r == if old(self).lines >= 2048 {
                Err::<(), IpcError>(IpcError::DrainOverflow)
            } else {
                Ok::<(), IpcError>(())
            },
    {
        self.lines = self.lines + 1;
        if self.lines > 2048 {
            Err(IpcError::DrainOverflow)
        } else {
            Ok(())
        }
    }

    /// Whether a line is the reply that is waited for. Lines that are not JSON
    /// are passed over.
    pub fn answered_by(&self, line: &str) -> (r: bool)
        ensures
            r == (trimmed(line@).len() > 0 && match json_members(trimmed(line@)) {
                Some(m) => reply_number(lookup(m, "request_id"@)) == Some(self.want),
                None => false,
            }),
    {
        let text = trim(line);
        let v = to_chars(text.as_str());
        if v.len() == 0 {
            return false;
        }
        match parse(text.as_str()) {
            Ok(value) => {
                let request_id = member(&value, "request_id");
                assert(value_view(request_id) == lookup(members_of(value), "request_id"@));
                rid_match(&request_id, self.want)
            },
            Err(_) => false,
        }
    }
}

/// Replies to one request never change what was learned from another, and a
/// snapshot that was learned is kept by replies to other requests.
pub proof fn law_replies_are_apart(
    s: Snapshot,
    request_id: Option<JsonView>,
    error: Option<JsonView>,
    data: Option<JsonView>,
)
    requires
        s.id_time != s.id_duration && s.id_time != s.id_pause && s.id_duration != s.id_pause,
    ensures
        reply_number(request_id) != Some(s.id_time) ==> s.with_reply(request_id, error, data).time
            == s.time,
        reply_number(request_id) != Some(s.id_duration) ==> s.with_reply(
            request_id,
            error,
            data,
        ).duration == s.duration,
        reply_number(request_id) != Some(s.id_pause) ==> s.with_reply(
            request_id,
            error,
            data,
        ).paused == s.paused,
{
}

/// A time or duration that is reported is never negative: its bits are at most
/// those of infinity.
pub proof fn law_times_are_not_negative(bits: u64)
    ensures
        not_negative(bits) <= 0x7ff0_0000_0000_0000,
        not_negative(not_negative(bits)) == not_negative(bits),
{
}

/// How long to wait before the video player is called again, in milliseconds,
/// when it could not be reached so many times; after eighty it is called once
/// more and then given up.
pub fn retry_after(failures: u32) -> (r: Option<u64>)
    ensures
        r == (if failures <= 80 {
            Some(25u64)
        } else {
            None
        }),
{
    if failures <= 80 {
        Some(25)
    } else {
        None
    }
}

/// A reply of success to one of the three requests gives what was asked for, and only that.
pub proof fn law_replies_give_what_was_asked(
    s: Snapshot,
    signed: Option<i64>,
    bits: Option<u64>,
    told: Option<u64>,
    paused: bool,
)
    requires
        s.id_time != s.id_duration && s.id_time != s.id_pause && s.id_duration != s.id_pause,
    ensures
        ({
            let good = Some(JsonView::Text("success"@));
            let number = Some(JsonView::Number(told, signed, bits));
            let flag = Some(JsonView::Bool(paused));
            let time = Some(JsonView::Number(Some(s.id_time), signed, bits));
            let duration = Some(JsonView::Number(Some(s.id_duration), signed, bits));
            let pause = Some(JsonView::Number(Some(s.id_pause), signed, bits));
            &&& s.with_reply(time, good, number) == Snapshot { time: bits, ..s }
            &&& s.with_reply(time, good, Some(JsonView::Null)) == Snapshot { time: Some(0u64), ..s }
            &&& s.with_reply(duration, good, number) == Snapshot { duration: bits, ..s }
            &&& s.with_reply(duration, good, Some(JsonView::Null)) == Snapshot {
                duration: Some(0u64),
                ..s
            }
            &&& s.with_reply(pause, good, flag) == Snapshot { paused: Some(paused), ..s }
            &&& s.with_reply(pause, good, number) == Snapshot { paused: None, ..s }
            &&& s.with_reply(time, good, flag) == Snapshot { time: None, ..s }
        }),
{
}

/// A reply that tells of no success, or that has no number, or that of another request, gives
/// nothing.
pub proof fn law_other_replies_give_nothing(
    s: Snapshot,
    request_id: Option<JsonView>,
    error: Option<JsonView>,
    data: Option<JsonView>,
    n: u64,
)
    ensures
        error != Some(JsonView::Text("success"@)) ==> s.with_reply(request_id, error, data) == s,
        !(request_id matches Some(JsonView::Number(_, _, _))) ==> s.with_reply(
            request_id,
            error,
            data,
        ) == s,
        n != s.id_time && n != s.id_duration && n != s.id_pause ==> s.with_reply(
            Some(JsonView::Number(Some(n), None, None)),
            error,
            data,
        ) == s,
{
}

/// The number of a reply is the one that it holds; a negative one counts from the end of the
/// unsigned numbers.
pub proof fn law_replies_are_numbered(n: u64, i: i64, signed: Option<i64>, bits: Option<u64>)
    ensures
        reply_number(Some(JsonView::Number(Some(n), signed, bits))) == Some(n),
        i >= 0 ==> reply_number(Some(JsonView::Number(None, Some(i), bits))) == Some(i as u64),
        i < 0 ==> reply_number(Some(JsonView::Number(None, Some(i), bits))) == Some(
            (i + 0x1_0000_0000_0000_0000) as u64,
        ),
        reply_number(Some(JsonView::Number(None, None, bits))) is None,
{
    assert(i < 0i64 ==> (i as u64) as i128 == i as i128 + 0x1_0000_0000_0000_0000i128)
        by (bit_vector);
}

/// Times that are numbers from zero to infinity are taken as they are; others count as zero.
pub proof fn law_times_are_taken_as_they_are(bits: u64)
    ensures
        bits <= 0x7ff0_0000_0000_0000 ==> not_negative(bits) == bits,
        bits > 0x7ff0_0000_0000_0000 ==> not_negative(bits) == 0,
{
}

/// The commands as they go to the video player.
pub proof fn law_commands_are_lines_of_json(name: Seq<char>, level: Seq<char>, id: u64)
    ensures
        command(get_body(name), id) == "{\"command\":[\"get_property\",\""@ + name
            + "\"],\"request_id\":"@ + decimal(id as nat) + seq!['}'],
        command(volume_body(level), id) == "{\"command\":[\"set_property\",\"volume\","@ + level
            + "],\"request_id\":"@ + decimal(id as nat) + seq!['}'],
        command(pause_body(true), id)
            == "{\"command\":[\"set_property\",\"pause\",true],\"request_id\":"@ + decimal(
            id as nat,
        ) + seq!['}'],
        command(pause_body(false), id)
            == "{\"command\":[\"set_property\",\"pause\",false],\"request_id\":"@ + decimal(
            id as nat,
        ) + seq!['}'],
{
    reveal_strlit("{\"command\":[");
    reveal_strlit("],\"request_id\":");
    reveal_strlit("}");
    reveal_strlit("\"get_property\",\"");
    reveal_strlit("\"");
    reveal_strlit("{\"command\":[\"get_property\",\"");
    reveal_strlit("\"],\"request_id\":");
    reveal_strlit("\"set_property\",\"volume\",");
    reveal_strlit("{\"command\":[\"set_property\",\"volume\",");
    reveal_strlit("\"set_property\",\"pause\",true");
    reveal_strlit("\"set_property\",\"pause\",false");
    reveal_strlit("{\"command\":[\"set_property\",\"pause\",true],\"request_id\":");
    reveal_strlit("{\"command\":[\"set_property\",\"pause\",false],\"request_id\":");
    assert(command(get_body(name), id) =~= "{\"command\":[\"get_property\",\""@ + name
        + "\"],\"request_id\":"@ + decimal(id as nat) + seq!['}']);
    assert(command(volume_body(level), id)
        =~= "{\"command\":[\"set_property\",\"volume\","@ + level + "],\"request_id\":"@
        + decimal(id as nat) + seq!['}']);
    assert(command(pause_body(true), id)
        =~= "{\"command\":[\"set_property\",\"pause\",true],\"request_id\":"@ + decimal(
        id as nat,
    ) + seq!['}']);
    assert(command(pause_body(false), id)
        =~= "{\"command\":[\"set_property\",\"pause\",false],\"request_id\":"@ + decimal(
        id as nat,
    ) + seq!['}']);
}

/// Seeking goes by so many seconds from where the video is, forward or, behind a minus sign,
/// back.
pub proof fn law_seeking_is_relative(forward: i64, back: i64, id: u64)
    requires
        forward >= 0 && back < 0,
    ensures
        command(seek_body(forward), id) == "{\"command\":[\"seek\","@ + decimal(forward as nat)
            + ",\"relative\"],\"request_id\":"@ + decimal(id as nat) + seq!['}'],
        command(seek_body(back), id) == "{\"command\":[\"seek\",-"@ + decimal(
            (0 - back) as nat,
        ) + ",\"relative\"],\"request_id\":"@ + decimal(id as nat) + seq!['}'],
{
    reveal_strlit("{\"command\":[");
    reveal_strlit("],\"request_id\":");
    reveal_strlit("}");
    reveal_strlit("\"seek\",");
    reveal_strlit(",\"relative\"");
    reveal_strlit("{\"command\":[\"seek\",");
    reveal_strlit("{\"command\":[\"seek\",-");
    reveal_strlit(",\"relative\"],\"request_id\":");
    assert(command(seek_body(forward), id) =~= "{\"command\":[\"seek\","@ + decimal(
        forward as nat,
    ) + ",\"relative\"],\"request_id\":"@ + decimal(id as nat) + seq!['}']);
    assert(command(seek_body(back), id) =~= "{\"command\":[\"seek\",-"@ + decimal(
        (0 - back) as nat,
    ) + ",\"relative\"],\"request_id\":"@ + decimal(id as nat) + seq!['}']);
}

} // verus!
