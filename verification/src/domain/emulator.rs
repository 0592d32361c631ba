use crate::domain::wire::{received_text, text_of};
use vstd::prelude::*;

verus! {

/// The number of bytes that are read from a connection at a time. A command that is
/// longer is cut there.
pub const COMMAND_BUFFER_SIZE: usize = 10;

/// The number of parts that make a power of one: readings count parts of this size.
pub const POWER_SCALE: u32 = 16777216;

/// A power reading below one, counted in parts of `1 / POWER_SCALE`.
#[derive(Clone, Copy, Debug)]
pub struct PowerReading {
    parts: u32,
}

impl PowerReading {
    #[verifier::type_invariant]
    spec fn in_range(&self) -> bool {
        self.parts < POWER_SCALE
    }

    /// The number of parts of the reading.
    pub closed spec fn parts(&self) -> nat {
        self.parts as nat
    }

    /// The reading of no power.
    pub fn zero() -> (r: PowerReading)
        ensures
            r.parts() == 0,
    {
        PowerReading { parts: 0 }
    }

    /// The reading of that many parts, where they stay below one.
    pub fn new(parts: u32) -> (r: Option<PowerReading>)
        ensures
            match r {
                Some(reading) => parts < POWER_SCALE && reading.parts() == parts,
                None => parts >= POWER_SCALE,
            },
    {
        if parts < POWER_SCALE {
            Some(PowerReading { parts })
        } else {
            None
        }
    }

    /// The number of parts of the reading, which is below `POWER_SCALE`.
    pub fn numerator(&self) -> (r: u32)
        ensures
            r == self.parts(),
            r < POWER_SCALE,
    {
        proof {
            use_type_invariant(self);
        }
        self.parts
    }
}

/// The commands of a socket.
#[derive(Clone, Copy, Debug, PartialEq, Eq, Structural)]
pub enum Command {
    SetOn,
    SetOff,
    Get,
}

/// The command that a token names, if it names one.
pub open spec fn command_of(token: Seq<char>) -> Option<Command> {
    if token == "SET1"@ {
        Some(Command::SetOn)
    } else if token == "SET0"@ {
        Some(Command::SetOff)
    } else if token == "GET"@ {
        Some(Command::Get)
    } else {
        None
    }
}

/// The token that names a command.
pub open spec fn command_token_text(command: Command) -> Seq<char> {
    match command {
        Command::SetOn => "SET1"@,
        Command::SetOff => "SET0"@,
        Command::Get => "GET"@,
    }
}

/// Every command is read back from its own token: what a client sends for a command is
/// what the socket takes for it.
pub proof fn lemma_command_round_trip(command: Command)
    ensures
        command_of(command_token_text(command)) == Some(command),
{
    reveal_strlit("SET1");
    reveal_strlit("SET0");
    reveal_strlit("GET");
    assert("SET1"@[3] == '1');
    assert("SET0"@[3] == '0');
    assert("GET"@.len() == 3);
    assert("SET1"@.len() == 4);
    assert("SET0"@.len() == 4);
}

impl Command {
    /// The token to send for this command.
    pub fn token(self) -> (r: &'static str)
        ensures
            r@ == command_token_text(self),
    {
        match self {
            Command::SetOn => "SET1",
            Command::SetOff => "SET0",
            Command::Get => "GET",
        }
    }

    /// Reads `SET1`, `SET0` or `GET`; every other token names no command.
    pub fn parse(token: &str) -> (r: Option<Command>)
        ensures
            r == command_of(token@),
    {
        let token = String::from_str(token);
        if token == String::from_str("SET1") {
            Some(Command::SetOn)
        } else if token == String::from_str("SET0") {
            Some(Command::SetOff)
        } else if token == String::from_str("GET") {
            Some(Command::Get)
        } else {
            None
        }
    }
}

/// Why a socket refused a query.
#[derive(Debug)]
pub enum DeviceError {
    SocketError(String),
}

/// The text of a refusal.
pub open spec fn device_error_text(e: DeviceError) -> Seq<char> {
    match e {
        DeviceError::SocketError(detail) => "SmartSocket error: "@ + detail@,
    }
}

impl DeviceError {
    /// The error as one line of text.
    pub fn to_string(&self) -> (r: String)
        ensures
            r@ == device_error_text(*self),
    {
        match self {
            DeviceError::SocketError(detail) => String::from_str("SmartSocket error: ").concat(
                detail.as_str(),
            ),
        }
    }
}

/// The status record of a socket: whether it is on, and its power reading.
#[derive(Clone, Copy, Debug)]
pub struct SocketStatus {
    pub enabled: bool,
    pub power: PowerReading,
}

/// A socket that can be switched: it is off and draws nothing, or it is on and draws what
/// was last read.
#[derive(Debug)]
pub struct SmartSocket {
    enabled: bool,
    power: PowerReading,
}

/// The power after a reading was taken: a socket that is on shows the new reading, one
/// that is off keeps what it had.
pub open spec fn refreshed_power(on: bool, power: nat, sample: nat) -> nat {
    if on {
        sample
    } else {
        power
    }
}

impl SmartSocket {
    #[verifier::type_invariant]
    spec fn consistent(&self) -> bool {
        !self.enabled ==> self.power.parts() == 0
    }

    /// The socket is on.
    pub closed spec fn is_on(&self) -> bool {
        self.enabled
    }

    /// The parts of the socket's power.
    pub closed spec fn power(&self) -> nat {
        self.power.parts()
    }

    /// The record shows this socket.
    pub open spec fn shown_by(&self, status: SocketStatus) -> bool {
        status.enabled == self.is_on() && status.power.parts() == self.power()
    }

    /// A socket that is off.
    pub fn new() -> (r: SmartSocket)
        ensures
            !r.is_on(),
            r.power() == 0,
    {
        SmartSocket { enabled: false, power: PowerReading::zero() }
    }

    /// Takes a new reading: a socket that is on shows it from now on.
    pub fn update(&mut self, sample: PowerReading)
        ensures
            final(self).is_on() == old(self).is_on(),
            final(self).power() == refreshed_power(
                old(self).is_on(),
                old(self).power(),
                sample.parts(),
            ),
    {
        if self.enabled {
            self.power = sample;
        }
    }

    /// The power that the socket draws.
    pub fn get_power_usage(&self) -> (r: PowerReading)
        ensures
            r.parts() == self.power(),
            !self.is_on() ==> r.parts() == 0,
    {
        proof {
            use_type_invariant(self);
        }
        self.power
    }

    /// Whether the socket is on.
    pub fn get_enabled(&self) -> (r: bool)
        ensures
            r == self.is_on(),
    {
        self.enabled
    }

    /// Switches the socket on. Its power stays what it was until the next reading.
    pub fn set_on(&mut self)
        ensures
            final(self).is_on(),
            final(self).power() == old(self).power(),
    {
        self.enabled = true
    }

    /// Switches the socket off. It draws nothing from now on.
    pub fn set_off(&mut self)
        ensures
            !final(self).is_on(),
            final(self).power() == 0,
    {
        let zero = PowerReading::zero();
        *self = SmartSocket { enabled: false, power: zero };
    }

    /// The status record of the socket. A socket that is off never shows power.
    pub fn get_status(&self) -> (r: SocketStatus)
        ensures
            self.shown_by(r),
            !r.enabled ==> r.power.parts() == 0,
            r.power.parts() < POWER_SCALE,
    {
        proof {
            use_type_invariant(self);
            use_type_invariant(&self.power);
        }
        SocketStatus { enabled: self.enabled, power: self.power }
    }

    /// Takes a reading, then runs the query.
    ///
    /// `SET1` switches the socket on, `SET0` switches it off, `GET` changes nothing
    /// more. Each of them answers with the status after the command. Any other query
    /// is refused; the reading was taken all the same.
    pub fn execute(&mut self, query: &str, sample: PowerReading) -> (r: Result<
        SocketStatus,
        DeviceError,
    >)
        ensures
            match command_of(query@) {
                Some(Command::SetOn) => final(self).is_on() && final(self).power()
                    == refreshed_power(old(self).is_on(), old(self).power(), sample.parts()),
                Some(Command::SetOff) => !final(self).is_on() && final(self).power() == 0,
                _ => final(self).is_on() == old(self).is_on() && final(self).power()
                    == refreshed_power(old(self).is_on(), old(self).power(), sample.parts()),
            },
            match r {
                Ok(status) => {
                    &&& command_of(query@).is_some()
                    &&& final(self).shown_by(status)
                    &&& !status.enabled ==> status.power.parts() == 0
                    &&& status.power.parts() < POWER_SCALE
                },
                Err(DeviceError::SocketError(detail)) => command_of(query@).is_none() && detail@
                    == "Unrecognized command "@ + query@,
            },
    {
        self.update(sample);
        match Command::parse(query) {
            Some(Command::SetOn) => {
                self.set_on();
                Ok(self.get_status())
            },
            Some(Command::SetOff) => {
                self.set_off();
                Ok(self.get_status())
            },
            Some(Command::Get) => Ok(self.get_status()),
            None => Err(
                DeviceError::SocketError(String::from_str("Unrecognized command ").concat(query)),
            ),
        }
    }
}

impl Default for SmartSocket {
    fn default() -> (r: SmartSocket)
        ensures
            !r.is_on(),
            r.power() == 0,
    {
        SmartSocket::new()
    }
}

/// White space, as text is trimmed of it.
pub open spec fn is_whitespace(c: char) -> bool {
    ||| ('\u{0009}' <= c && c <= '\u{000D}')
    ||| c == ' '
    ||| c == '\u{0085}'
    ||| c == '\u{00A0}'
    ||| c == '\u{1680}'
    ||| ('\u{2000}' <= c && c <= '\u{200A}')
    ||| c == '\u{2028}'
    ||| c == '\u{2029}'
    ||| c == '\u{202F}'
    ||| c == '\u{205F}'
    ||| c == '\u{3000}'
}

/// The length of `s` without the zero characters at its end.
pub open spec fn padded_end(s: Seq<char>) -> int
    decreases s.len(),
{
    if s.len() > 0 && s.last() == '\0' {
        padded_end(s.drop_last())
    } else {
        s.len() as int
    }
}

/// The length of `s` without the white space at its end.
pub open spec fn trimmed_end(s: Seq<char>) -> int
    decreases s.len(),
{
    if s.len() > 0 && is_whitespace(s.last()) {
        trimmed_end(s.drop_last())
    } else {
        s.len() as int
    }
}

/// The number of white space characters at the start of `s`.
pub open spec fn trimmed_start(s: Seq<char>) -> int
    decreases s.len(),
{
    if s.len() > 0 && is_whitespace(s[0]) {
        1 + trimmed_start(s.drop_first())
    } else {
        0
    }
}

/// The command token in what was received: the text without the zero characters that
/// pad its end, and then without the white space around it.
pub open spec fn command_token_of(received: Seq<char>) -> Seq<char> {
    let unpadded = received.subrange(0, padded_end(received));
    let ended = unpadded.subrange(0, trimmed_end(unpadded));
    ended.subrange(trimmed_start(ended), ended.len() as int)
}

/// Where the trimmed end of a text lies: within the text, after a character that is no
/// white space, with white space alone behind it.
pub proof fn lemma_trimmed_end(s: Seq<char>)
    ensures
        0 <= trimmed_end(s) <= s.len(),
        trimmed_end(s) > 0 ==> !is_whitespace(s[trimmed_end(s) - 1]),
        forall|i: int| trimmed_end(s) <= i < s.len() ==> is_whitespace(#[trigger] s[i]),
    decreases s.len(),
{
    if s.len() > 0 && is_whitespace(s.last()) {
        let rest = s.drop_last();
        lemma_trimmed_end(rest);
        assert forall|i: int| trimmed_end(s) <= i < s.len() implies is_whitespace(
            #[trigger] s[i],
        ) by {
            if i < rest.len() {
                assert(s[i] == rest[i]);
            }
        }
    }
}

/// Where the trimmed start of a text lies: within the text, before a character that is
/// no white space, with white space alone in front of it.
pub proof fn lemma_trimmed_start(s: Seq<char>)
    ensures
        0 <= trimmed_start(s) <= s.len(),
        trimmed_start(s) < s.len() ==> !is_whitespace(s[trimmed_start(s)]),
        forall|i: int| 0 <= i < trimmed_start(s) ==> is_whitespace(#[trigger] s[i]),
    decreases s.len(),
{
    if s.len() > 0 && is_whitespace(s[0]) {
        let rest = s.drop_first();
        lemma_trimmed_start(rest);
        assert forall|i: int| 0 <= i < trimmed_start(s) implies is_whitespace(
            #[trigger] s[i],
        ) by {
            if i > 0 {
                assert(s[i] == rest[i - 1]);
            }
        }
    }
}

/// Where the padding of a text begins: within the text, after a character that is no
/// zero character, with zero characters alone behind it.
pub proof fn lemma_padded_end(s: Seq<char>)
    ensures
        0 <= padded_end(s) <= s.len(),
        padded_end(s) > 0 ==> s[padded_end(s) - 1] != '\0',
        forall|i: int| padded_end(s) <= i < s.len() ==> #[trigger] s[i] == '\0',
    decreases s.len(),
{
    if s.len() > 0 && s.last() == '\0' {
        let rest = s.drop_last();
        lemma_padded_end(rest);
        assert forall|i: int| padded_end(s) <= i < s.len() implies #[trigger] s[i] == '\0' by {
            if i < rest.len() {
                assert(s[i] == rest[i]);
            }
        }
    }
}

/// A command token is a stretch of what was received, and neither begins nor ends with
/// white space.
pub proof fn lemma_command_token_is_trimmed(received: Seq<char>)
    ensures
        command_token_of(received).len() <= received.len(),
        command_token_of(received).len() > 0 ==> !is_whitespace(command_token_of(received)[0])
            && !is_whitespace(command_token_of(received).last()),
        exists|from: int|
            0 <= from && from + command_token_of(received).len() <= received.len()
                && command_token_of(received) == #[trigger] received.subrange(
                from,
                from + command_token_of(received).len(),
            ),
{
    lemma_padded_end(received);
    let unpadded = received.subrange(0, padded_end(received));
    lemma_trimmed_end(unpadded);
    let ended = unpadded.subrange(0, trimmed_end(unpadded));
    lemma_trimmed_start(ended);
    let from = trimmed_start(ended);
    let token = command_token_of(received);
    assert(token =~= received.subrange(from, from + token.len()));
    if token.len() > 0 {
        assert(token[0] == ended[from]);
        assert(token.last() == unpadded[trimmed_end(unpadded) - 1]);
    }
}

/// A token that names a command is cut out of a reception that holds it alone, padded
/// with zero characters to any length.
pub proof fn lemma_padded_command_is_cut_out(command: Command, padding: Seq<char>)
    requires
        forall|i: int| 0 <= i < padding.len() ==> #[trigger] padding[i] == '\0',
    ensures
        command_token_of(command_token_text(command) + padding) == command_token_text(command),
{
    let token = command_token_text(command);
    let received = token + padding;
    reveal_strlit("SET1");
    reveal_strlit("SET0");
    reveal_strlit("GET");
    assert(token.len() >= 3);
    assert(token.last() == '1' || token.last() == '0' || token.last() == 'T');
    assert(token[0] == 'S' || token[0] == 'G');
    lemma_padded_end(received);
    assert(padded_end(received) == token.len()) by {
        let e = padded_end(received);
        if e < token.len() {
            assert(received[token.len() - 1] == token.last());
        } else if e > token.len() {
            assert(received[e - 1] == padding[e - 1 - token.len()]);
        }
    }
    let unpadded = received.subrange(0, padded_end(received));
    assert(unpadded =~= token);
    lemma_trimmed_end(token);
    assert(trimmed_end(token) == token.len());
    assert(token.subrange(0, token.len() as int) =~= token);
    lemma_trimmed_start(token);
    assert(trimmed_start(token) == 0);
}

fn is_space(c: char) -> (r: bool)
    ensures
        r == is_whitespace(c),
{
    ('\u{0009}' <= c && c <= '\u{000D}') || c == ' ' || c == '\u{0085}' || c == '\u{00A0}' || c
        == '\u{1680}' || ('\u{2000}' <= c && c <= '\u{200A}') || c == '\u{2028}' || c
        == '\u{2029}' || c == '\u{202F}' || c == '\u{205F}' || c == '\u{3000}'
}

/// The position where the zero characters at the end of the text begin.
fn find_padded_end(text: &str, len: usize) -> (end: usize)
    requires
        len == text@.len(),
    ensures
        end == padded_end(text@),
        end <= len,
{
    let mut end: usize = len;
    assert(text@.subrange(0, len as int) =~= text@);
    while end > 0 && text.get_char(end - 1) == '\0'
        invariant
            end <= len,
            len == text@.len(),
            padded_end(text@) == padded_end(text@.subrange(0, end as int)),
        decreases end,
    {
        assert(text@.subrange(0, end as int).drop_last() =~= text@.subrange(0, end - 1));
        end = end - 1;
    }
    end
}

/// The position where the white space at the end of the first `limit` characters begins.
fn find_trimmed_end(text: &str, limit: usize) -> (stop: usize)
    requires
        limit <= text@.len(),
    ensures
        stop == trimmed_end(text@.subrange(0, limit as int)),
        stop <= limit,
{
    let ghost whole = text@.subrange(0, limit as int);
    let mut stop: usize = limit;
    assert(whole.subrange(0, limit as int) =~= whole);
    while stop > 0 && is_space(text.get_char(stop - 1))
        invariant
            stop <= limit <= text@.len(),
            whole == text@.subrange(0, limit as int),
            trimmed_end(whole) == trimmed_end(whole.subrange(0, stop as int)),
        decreases stop,
    {
        assert(whole.subrange(0, stop as int).drop_last() =~= whole.subrange(0, stop - 1));
        stop = stop - 1;
    }
    stop
}

/// The number of white space characters at the start of the first `limit` characters.
fn find_trimmed_start(text: &str, limit: usize) -> (start: usize)
    requires
        limit <= text@.len(),
    ensures
        start == trimmed_start(text@.subrange(0, limit as int)),
        start <= limit,
{
    let ghost whole = text@.subrange(0, limit as int);
    let mut start: usize = 0;
    assert(whole.subrange(0, limit as int) =~= whole);
    while start < limit && is_space(text.get_char(start))
        invariant
            start <= limit <= text@.len(),
            whole == text@.subrange(0, limit as int),
            trimmed_start(whole) == start + trimmed_start(
                whole.subrange(start as int, limit as int),
            ),
        decreases limit - start,
    {
        assert(whole.subrange(start as int, limit as int).drop_first() =~= whole.subrange(
            start + 1,
            limit as int,
        ));
        start = start + 1;
    }
    start
}

/// Cuts the command token out of what was received.
pub fn command_token(received: &str) -> (r: String)
    ensures
        r@ == command_token_of(received@),
{
    let len: usize = received.unicode_len();
    let end = find_padded_end(received, len);
    let stop = find_trimmed_end(received, end);
    let start = find_trimmed_start(received, stop);
    let token = received.substring_char(start, stop);
    proof {
        let unpadded = received@.subrange(0, end as int);
        assert(unpadded.subrange(0, stop as int) =~= received@.subrange(0, stop as int));
        assert(token@ =~= command_token_of(received@));
    }
    String::from_str(token)
}

/// Frames a response for the wire: the body, then a line feed.
pub fn frame_response(body: String) -> (r: String)
    ensures
        r@ == body@ + seq!['\n'],
{
    proof {
        reveal_strlit("\n");
        assert("\n"@ =~= seq!['\n']);
    }
    body.concat("\n")
}

/// Serves one command of a connection: takes what was received for text, cuts the token
/// out of it, takes the reading and runs the token on the socket.
pub fn handle_command(device: &mut SmartSocket, received: &[u8], sample: PowerReading) -> (r:
    Result<SocketStatus, DeviceError>)
    ensures
        match command_of(command_token_of(text_of(received@))) {
            Some(Command::SetOn) => final(device).is_on() && final(device).power()
                == refreshed_power(old(device).is_on(), old(device).power(), sample.parts()),
            Some(Command::SetOff) => !final(device).is_on() && final(device).power() == 0,
            _ => final(device).is_on() == old(device).is_on() && final(device).power()
                == refreshed_power(old(device).is_on(), old(device).power(), sample.parts()),
        },
        match r {
            Ok(status) => {
                &&& command_of(command_token_of(text_of(received@))).is_some()
                &&& final(device).shown_by(status)
                &&& !status.enabled ==> status.power.parts() == 0
                &&& status.power.parts() < POWER_SCALE
            },
            Err(DeviceError::SocketError(detail)) => command_of(
                command_token_of(text_of(received@)),
            ).is_none() && detail@ == "Unrecognized command "@ + command_token_of(
                text_of(received@),
            ),
        },
{
    let text = received_text(received);
    let token = command_token(text.as_str());
    device.execute(token.as_str(), sample)
}

/// What follows a read from a connection.
#[derive(Debug)]
pub enum Next {
    /// The peer has closed the connection: the handler ends.
    Close,
    /// The answer to what was read: it is written back, and the handler reads on,
    /// also after a command that was refused.
    Reply(Result<SocketStatus, DeviceError>),
}

/// Decides what follows a read of `bytes_read` bytes into the buffer `received`.
///
/// A read of no bytes means that the peer has closed the connection; the socket stays
/// as it was. After any other read the whole buffer is served as one command.
pub fn serve_read(
    device: &mut SmartSocket,
    bytes_read: usize,
    received: &[u8],
    sample: PowerReading,
) -> (r: Next)
    ensures
        bytes_read == 0 ==> {
            &&& r is Close
            &&& final(device).is_on() == old(device).is_on()
            &&& final(device).power() == old(device).power()
        },
        bytes_read != 0 ==> r is Reply,
        bytes_read != 0 ==> match command_of(command_token_of(text_of(received@))) {
            Some(Command::SetOn) => final(device).is_on() && final(device).power()
                == refreshed_power(old(device).is_on(), old(device).power(), sample.parts()),
            Some(Command::SetOff) => !final(device).is_on() && final(device).power() == 0,
            _ => final(device).is_on() == old(device).is_on() && final(device).power()
                == refreshed_power(old(device).is_on(), old(device).power(), sample.parts()),
        },
        match r {
            Next::Close => bytes_read == 0,
            Next::Reply(Ok(status)) => {
                &&& command_of(command_token_of(text_of(received@))).is_some()
                &&& final(device).shown_by(status)
                &&& !status.enabled ==> status.power.parts() == 0
                &&& status.power.parts() < POWER_SCALE
            },
            Next::Reply(Err(DeviceError::SocketError(detail))) => command_of(
                command_token_of(text_of(received@)),
            ).is_none() && detail@ == "Unrecognized command "@ + command_token_of(
                text_of(received@),
            ),
        },
{
    if bytes_read == 0 {
        Next::Close
    } else {
        Next::Reply(handle_command(device, received, sample))
    }
}

} // verus!
