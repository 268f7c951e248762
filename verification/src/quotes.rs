//! The quote streaming service: the `STREAM` command a client sends, what
//! the server answers to each line it reads, and the client's side of the
//! exchange.
use vstd::prelude::*;
use crate::chars::{trim, trimmed, words, split_whitespace, split_on, split_on_char, views, decimal, push_decimal};
use crate::strings::{uppercase, to_uppercase, chars_of, chars_eq, string_from_chars, push_str, push_char};

verus! {

/// Where the server listens.
pub const SERVER_ADDR: &'static str = "127.0.0.1:11000";

/// Seconds between two pings of a client.
pub const PING_INTERVAL_SECS: u64 = 3;

/// Milliseconds without a ping after which the server stops streaming.
pub const PING_TIMEOUT_MILLISECS: u64 = 5000;

/// A request to stream quotes of some companies to a UDP address.
#[derive(Debug)]
pub struct StreamCommand {
    /// The client's address, as it was written after `udp://`.
    pub client_udp_addr: String,
    /// The tickers asked for, uppercased, in order.
    pub tickers: Vec<String>,
}

/// The message for a line that is not a `STREAM` command.
pub open spec fn command_format_text() -> Seq<char> {
    "Неверный формат команды: STREAM udp://host:port TICKER1,TICKER2"@
}

/// The uppercased tickers that are not empty, in order.
pub open spec fn upper_tickers(pieces: Seq<Seq<char>>) -> Seq<Seq<char>>
    decreases pieces.len(),
{
    if pieces.len() == 0 {
        Seq::empty()
    } else {
        let rest = upper_tickers(pieces.drop_last());
        let u = uppercase(pieces.last());
        if u.len() > 0 {
            rest.push(u)
        } else {
            rest
        }
    }
}

/// The non-empty texts among `us`, in order.
pub open spec fn non_empty(us: Seq<Seq<char>>) -> Seq<Seq<char>> {
    us.filter(|u: Seq<char>| u.len() > 0)
}

/// Every piece uppercased, in order.
pub open spec fn uppercased(pieces: Seq<Seq<char>>) -> Seq<Seq<char>> {
    pieces.map_values(|p: Seq<char>| uppercase(p))
}

/// The tickers of a piece list are its pieces uppercased, with the empty
/// ones left out.
proof fn lemma_upper_tickers_filter(pieces: Seq<Seq<char>>)
    ensures
        upper_tickers(pieces) == non_empty(uppercased(pieces)),
    decreases pieces.len(),
{
    reveal(Seq::filter);
    if pieces.len() == 0 {
        assert(uppercased(pieces) =~= Seq::<Seq<char>>::empty());
    } else {
        lemma_upper_tickers_filter(pieces.drop_last());
        let us = uppercased(pieces);
        assert(us.drop_last() =~= uppercased(pieces.drop_last()));
        assert(us.last() == uppercase(pieces.last()));
    }
}

/// What reading a command line gives before its address is checked: the
/// address written after `udp://` and the tickers, or the message saying
/// what is wrong.
pub open spec fn stream_request_of(input: Seq<char>) -> Result<(Seq<char>, Seq<Seq<char>>), Seq<char>> {
    let parts = words(trim(input));
    if parts.len() != 3 || uppercase(parts[0]) != "STREAM"@ {
        Err(command_format_text())
    } else if !("udp://"@.is_prefix_of(parts[1])) {
        Err("Принимаем только UDP: в адресе нет префикса udp://"@)
    } else {
        Ok((parts[1].skip(6), upper_tickers(split_on(parts[2], ','))))
    }
}

/// The tickers of a `STREAM` command that reads are exactly the pieces of
/// its third word between commas, each uppercased, with those that come
/// out empty left out, in the order written, whatever their length: every
/// ticker is non-empty, every non-empty uppercased piece is a ticker, and
/// there are no more tickers than such pieces allow.
pub proof fn law_stream_tickers(input: Seq<char>)
    requires
        stream_request_of(input) is Ok,
    ensures
        ({
            let parts = words(trim(input));
            let us = uppercased(split_on(parts[2], ','));
            let tickers = stream_request_of(input)->Ok_0.1;
            &&& tickers == non_empty(us)
            &&& tickers.len() <= us.len()
            &&& forall|i: int| 0 <= i < tickers.len() ==> #[trigger] tickers[i].len() > 0
            &&& forall|i: int| 0 <= i < us.len() && us[i].len() > 0 ==> tickers.contains(#[trigger] us[i])
        }),
{
    let parts = words(trim(input));
    let us = uppercased(split_on(parts[2], ','));
    lemma_upper_tickers_filter(split_on(parts[2], ','));
    broadcast use vstd::seq_lib::group_filter_ensures;
    assert forall|i: int| 0 <= i < us.len() && us[i].len() > 0 implies non_empty(us).contains(
        #[trigger] us[i],
    ) by {
        us.lemma_filter_contains(|u: Seq<char>| u.len() > 0, i);
    }
    assert forall|i: int| 0 <= i < non_empty(us).len() implies #[trigger] non_empty(us)[i].len() > 0 by {
        us.lemma_filter_pred(|u: Seq<char>| u.len() > 0, i);
    }
    us.lemma_filter_len(|u: Seq<char>| u.len() > 0);
}


/// address, `addr_error` being the error of that reading if it failed.
pub open spec fn stream_command_of(
    addr: Seq<char>,
    tickers: Seq<Seq<char>>,
    addr_error: Option<Seq<char>>,
) -> Result<(Seq<char>, Seq<Seq<char>>), Seq<char>> {
    match addr_error {
        Some(e) => Err("Адрес не распарсился "@ + addr + ": "@ + e),
        None => if tickers.len() == 0 {
            Err("Не указано ни одной компании"@)
        } else {
            Ok((addr, tickers))
        },
    }
}

/// The strings as character sequences.
pub open spec fn string_views(v: Seq<String>) -> Seq<Seq<char>> {
    v.map_values(|s: String| s@)
}

/// Whether `p` starts `s`.
fn starts_with(s: &[char], p: &[char]) -> (r: bool)
    ensures
        r == p@.is_prefix_of(s@),
{
    if p.len() > s.len() {
        return false;
    }
    let mut i: usize = 0;
    while i < p.len()
        invariant
            i <= p@.len() <= s@.len(),
            forall|j: int| 0 <= j < i ==> p@[j] == s@[j],
        decreases p@.len() - i,
    {
        if p[i] != s[i] {
            return false;
        }
        i = i + 1;
    }
    true
}

/// The uppercased, non-empty tickers among `pieces`.
fn collect_tickers(pieces: &Vec<Vec<char>>) -> (r: Vec<String>)
    ensures
        string_views(r@) == upper_tickers(views(pieces@)),
{
    let mut tickers: Vec<String> = Vec::new();
    let mut i: usize = 0;
    assert(views(pieces@).take(0) =~= Seq::<Seq<char>>::empty());
    assert(string_views(tickers@) =~= Seq::<Seq<char>>::empty());
    while i < pieces.len()
        invariant
            i <= pieces@.len(),
            string_views(tickers@) == upper_tickers(views(pieces@).take(i as int)),
        decreases pieces@.len() - i,
    {
        let ghost before = string_views(tickers@);
        let piece = string_from_chars(pieces[i].as_slice());
        let upper = to_uppercase(piece.as_str());
        proof {
            let t = views(pieces@).take(i + 1);
            assert(t.drop_last() =~= views(pieces@).take(i as int));
            assert(t.last() == pieces@[i as int]@);
        }
        if !upper.as_str().is_empty() {
            tickers.push(upper);
            assert(string_views(tickers@) =~= before.push(uppercase(pieces@[i as int]@)));
        } else {
            assert(upper@.len() == 0);
        }
        i = i + 1;
    }
    assert(views(pieces@).take(i as int) =~= views(pieces@));
    tickers
}

/// A `STREAM` command whose address has not been checked yet.
#[derive(Debug)]
pub struct StreamRequest {
    /// The address as it was written after `udp://`.
    pub addr: String,
    /// The tickers asked for, uppercased, empty ones left out, in order.
    pub tickers: Vec<String>,
}

/// Reads `STREAM udp://host:port TICKER1,TICKER2`: three words, the first
/// `STREAM` in any case, the second starting with `udp://`, the third the
/// tickers separated by commas.
pub fn read_stream_request(input: &str) -> (r: Result<StreamRequest, String>)
    ensures
        match stream_request_of(input@) {
            Ok((addr, tickers)) => r matches Ok(q) && q.addr@ == addr && string_views(q.tickers@)
                == tickers,
            Err(m) => r matches Err(x) && x@ == m,
        },
{
    let cs = chars_of(input);
    let t = trimmed(cs.as_slice());
    let parts = split_whitespace(t.as_slice());
    if parts.len() != 3 {
        return Err("Неверный формат команды: STREAM udp://host:port TICKER1,TICKER2".to_owned());
    }
    assert(parts@[0]@ == words(trim(input@))[0]);
    assert(parts@[1]@ == words(trim(input@))[1]);
    assert(parts@[2]@ == words(trim(input@))[2]);
    let command_word = string_from_chars(parts[0].as_slice());
    let upper = to_uppercase(command_word.as_str());
    let stream_word = chars_of("STREAM");
    let upper_chars = chars_of(upper.as_str());
    if !chars_eq(upper_chars.as_slice(), stream_word.as_slice()) {
        return Err("Неверный формат команды: STREAM udp://host:port TICKER1,TICKER2".to_owned());
    }
    let prefix = chars_of("udp://");
    proof {
        reveal_strlit("udp://");
    }
    if !starts_with(parts[1].as_slice(), prefix.as_slice()) {
        return Err("Принимаем только UDP: в адресе нет префикса udp://".to_owned());
    }
    let mut addr_chars: Vec<char> = Vec::new();
    let mut k: usize = 6;
    while k < parts[1].len()
        invariant
            parts@.len() == 3,
            6 <= k <= parts@[1]@.len(),
            addr_chars@ == parts@[1]@.subrange(6, k as int),
        decreases parts@[1]@.len() - k,
    {
        addr_chars.push(parts[1][k]);
        k = k + 1;
        assert(addr_chars@ =~= parts@[1]@.subrange(6, k as int));
    }
    assert(addr_chars@ =~= parts@[1]@.skip(6));
    let addr = string_from_chars(addr_chars.as_slice());
    let pieces = split_on_char(parts[2].as_slice(), ',');
    let tickers = collect_tickers(&pieces);
    Ok(StreamRequest { addr, tickers })
}

impl StreamCommand {
    /// The command a request makes once its address has been read as a
    /// socket address (`addr_error` is that reading's error, if it failed):
    /// a bad address first, then a request with no ticker, is refused.
    pub fn from_request(request: StreamRequest, addr_error: Option<String>) -> (r: Result<Self, String>)
        ensures
            match stream_command_of(
                request.addr@,
                string_views(request.tickers@),
                match addr_error {
                    Some(e) => Some(e@),
                    None => None,
                },
            ) {
                Ok((addr, tickers)) => r matches Ok(c) && c.client_udp_addr@ == addr && string_views(
                    c.tickers@,
                ) == tickers,
                Err(m) => r matches Err(x) && x@ == m,
            },
    {
        match addr_error {
            Some(e) => {
                let mut m = "Адрес не распарсился ".to_owned();
                push_str(&mut m, request.addr.as_str());
                push_str(&mut m, ": ");
                push_str(&mut m, e.as_str());
                Err(m)
            },
            None => {
                if request.tickers.len() == 0 {
                    return Err("Не указано ни одной компании".to_owned());
                }
                Ok(StreamCommand { client_udp_addr: request.addr, tickers: request.tickers })
            },
        }
    }
}

/// The answer to a line that holds nothing but whitespace.
pub open spec fn empty_input_text() -> Seq<char> {
    "Вы ничего не ввели. Введите команду в формате: STREAM udp://host:port TICKER1,TICKER2\n"@
}

/// What the server does with one line read from a client.
pub enum LineAction {
    /// The client closed the connection.
    Close,
    /// Send this text back and wait for the next line.
    Reply(String),
    /// Check the request's address, then start streaming.
    Start(StreamRequest),
}

/// The answer that reports an error to the client.
pub fn error_reply(e: &str) -> (r: String)
    ensures
        r@ == "ERROR: "@ + e@ + "\n"@,
{
    let mut m = "ERROR: ".to_owned();
    push_str(&mut m, e);
    push_str(&mut m, "\n");
    m
}

/// Decides what to do with a line of `bytes_read` bytes read from a
/// client: nothing read means the client left; a blank line is answered
/// with the expected format; otherwise the trimmed line is read as a
/// `STREAM` request, and an error answered with `ERROR: ` and its message.
pub fn request_action(bytes_read: usize, line: &str) -> (r: LineAction)
    ensures
        bytes_read == 0 ==> r is Close,
        bytes_read > 0 && trim(line@).len() == 0 ==> (r matches LineAction::Reply(m) && m@
            == empty_input_text()),
        bytes_read > 0 && trim(line@).len() > 0 ==> match stream_request_of(trim(line@)) {
            Ok((addr, tickers)) => r matches LineAction::Start(q) && q.addr@ == addr
                && string_views(q.tickers@) == tickers,
            Err(e) => r matches LineAction::Reply(m) && m@ == "ERROR: "@ + e + "\n"@,
        },
{
    if bytes_read == 0 {
        return LineAction::Close;
    }
    let cs = chars_of(line);
    let t = trimmed(cs.as_slice());
    if t.len() == 0 {
        return LineAction::Reply(
            "Вы ничего не ввели. Введите команду в формате: STREAM udp://host:port TICKER1,TICKER2\n".to_owned(),
        );
    }
    let command = string_from_chars(t.as_slice());
    match read_stream_request(command.as_str()) {
        Ok(request) => LineAction::Start(request),
        Err(e) => LineAction::Reply(error_reply(e.as_str())),
    }
}

/// The pieces joined by `sep`.
pub open spec fn joined_with(pieces: Seq<Seq<char>>, sep: char) -> Seq<char>
    decreases pieces.len(),
{
    if pieces.len() == 0 {
        Seq::empty()
    } else if pieces.len() == 1 {
        pieces[0]
    } else {
        joined_with(pieces.drop_last(), sep).push(sep) + pieces.last()
    }
}

/// The command a client sends to stream the `subscriptions` to its UDP port
/// on this machine.
pub fn stream_request_command(udp_client_port: u16, subscriptions: &Vec<String>) -> (r: String)
    ensures
        r@ == "STREAM udp://127.0.0.1:"@ + decimal(udp_client_port as nat) + " "@ + joined_with(
            string_views(subscriptions@),
            ',',
        ),
{
    let mut command = "STREAM udp://127.0.0.1:".to_owned();
    push_decimal(&mut command, udp_client_port as u64);
    push_str(&mut command, " ");
    let ghost head = command@;
    let mut i: usize = 0;
    assert(string_views(subscriptions@).take(0) =~= Seq::<Seq<char>>::empty());
    while i < subscriptions.len()
        invariant
            i <= subscriptions@.len(),
            command@ == head + joined_with(string_views(subscriptions@).take(i as int), ','),
        decreases subscriptions@.len() - i,
    {
        let ghost before = command@;
        let ghost t = string_views(subscriptions@).take(i + 1);
        assert(t.drop_last() =~= string_views(subscriptions@).take(i as int));
        assert(t.last() == subscriptions@[i as int]@);
        if i > 0 {
            push_char(&mut command, ',');
        }
        push_str(&mut command, subscriptions[i].as_str());
        proof {
            if i == 0 {
                assert(t =~= seq![subscriptions@[0]@]);
                assert(command@ =~= head + joined_with(t, ','));
            } else {
                assert(command@ =~= head + joined_with(t, ','));
            }
        }
        i = i + 1;
    }
    assert(string_views(subscriptions@).take(i as int) =~= string_views(subscriptions@));
    command
}

/// What a server's answer to a `STREAM` command says, by its first word.
#[derive(Debug, PartialEq, Eq, Structural)]
pub enum ResponseKind {
    /// `OK:`, streaming has started.
    Streaming,
    /// `ERROR:`, the command was refused.
    Refused,
    /// Anything else.
    Other,
}

/// What an answer says, by its first word.
pub open spec fn response_kind_of(response: Seq<char>) -> ResponseKind {
    let w = words(response);
    if w.len() > 0 && w[0] == "OK:"@ {
        ResponseKind::Streaming
    } else if w.len() > 0 && w[0] == "ERROR:"@ {
        ResponseKind::Refused
    } else {
        ResponseKind::Other
    }
}

/// Reads the first word of a server's answer.
pub fn response_kind(response: &str) -> (r: ResponseKind)
    ensures
        r == response_kind_of(response@),
{
    let cs = chars_of(response);
    let w = split_whitespace(cs.as_slice());
    if w.len() == 0 {
        return ResponseKind::Other;
    }
    assert(w@[0]@ == words(response@)[0]);
    let ok_word = chars_of("OK:");
    let error_word = chars_of("ERROR:");
    if chars_eq(w[0].as_slice(), ok_word.as_slice()) {
        ResponseKind::Streaming
    } else if chars_eq(w[0].as_slice(), error_word.as_slice()) {
        ResponseKind::Refused
    } else {
        ResponseKind::Other
    }
}

/// Whether a datagram is a ping: `PING` with whitespace around it.
pub fn is_ping(msg: &str) -> (r: bool)
    ensures
        r == (trim(msg@) == "PING"@),
{
    let cs = chars_of(msg);
    let t = trimmed(cs.as_slice());
    let ping = chars_of("PING");
    chars_eq(t.as_slice(), ping.as_slice())
}

/// Whether a client last heard from at `last` (milliseconds) has been
/// silent too long at `now`; a clock that went back counts as no time.
pub fn ping_timed_out(now: u64, last: u64) -> (r: bool)
    ensures
        r == (now > last && now - last > PING_TIMEOUT_MILLISECS),
{
    now.saturating_sub(last) > PING_TIMEOUT_MILLISECS
}

/// The pieces one after another.
pub open spec fn concatenated(pieces: Seq<Seq<char>>) -> Seq<char>
    decreases pieces.len(),
{
    if pieces.len() == 0 {
        Seq::empty()
    } else {
        concatenated(pieces.drop_last()) + pieces.last()
    }
}

/// Appends the tickers to `command`, one after another with nothing
/// between them.
pub fn _append_tickers(command: &mut String, tickers_vec: Vec<String>)
    ensures
        final(command)@ == old(command)@ + concatenated(string_views(tickers_vec@)),
{
    let mut i: usize = 0;
    let ghost head = command@;
    assert(string_views(tickers_vec@).take(0) =~= Seq::<Seq<char>>::empty());
    assert(head + Seq::<char>::empty() =~= head);
    while i < tickers_vec.len()
        invariant
            i <= tickers_vec@.len(),
            command@ == head + concatenated(string_views(tickers_vec@).take(i as int)),
        decreases tickers_vec@.len() - i,
    {
        let ghost t = string_views(tickers_vec@).take(i + 1);
        assert(t.drop_last() =~= string_views(tickers_vec@).take(i as int));
        assert(t.last() == tickers_vec@[i as int]@);
        push_str(command, tickers_vec[i].as_str());
        assert(command@ =~= head + concatenated(t));
        i = i + 1;
    }
    assert(string_views(tickers_vec@).take(i as int) =~= string_views(tickers_vec@));
}

} // verus!
