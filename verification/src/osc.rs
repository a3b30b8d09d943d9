//! Operating-system commands: the escape sequences that carry text out of band.

use vstd::prelude::*;
use vstd::utf8::*;

use crate::semantic::{event_views, EventView, SemanticEvent};
use crate::text::{
    chars_of, decimal_text, decode_lossy, decode_strict, find_char, first_index, has_prefix, i32_text,
    law_cutting_undoes_joining, law_decimal_text_reads_back, law_integers_are_read_from_their_text,
    law_prefixes_come_off, law_splitting_undoes_joining, lemma_first_index, parse_i32, range_is, split,
    split_once, string_of, strip_prefix, text_of,
};

verus! {

/// The value of an ASCII hexadecimal digit.
pub open spec fn hex_digit(b: u8) -> Option<u8> {
    if 0x30 <= b <= 0x39 {
        Some((b - 0x30) as u8)
    } else if 0x41 <= b <= 0x46 {
        Some((b - 0x41 + 10) as u8)
    } else if 0x61 <= b <= 0x66 {
        Some((b - 0x61 + 10) as u8)
    } else {
        None
    }
}

/// The value of an ASCII hexadecimal digit.
pub fn parse_hex_digit(b: u8) -> (v: Option<u8>)
    ensures
        v == hex_digit(b),
        v matches Some(d) ==> d < 16,
{
    if 0x30 <= b && b <= 0x39 {
        Some(b - 0x30)
    } else if 0x41 <= b && b <= 0x46 {
        Some(b - 0x41 + 10)
    } else if 0x61 <= b && b <= 0x66 {
        Some(b - 0x61 + 10)
    } else {
        None
    }
}

/// The byte that two hexadecimal digits spell. A plus sign is read as no digit.
pub open spec fn hex_pair(hi: u8, lo: u8) -> Option<u8> {
    match (hex_digit(hi), hex_digit(lo)) {
        (Some(h), Some(l)) => Some((h * 16 + l) as u8),
        (None, Some(l)) => if hi == 0x2B {
            Some(l)
        } else {
            None
        },
        _ => None,
    }
}

/// The byte that two hexadecimal digits spell. A plus sign is read as no digit.
pub fn parse_hex_pair(hi: u8, lo: u8) -> (v: Option<u8>)
    ensures
        v == hex_pair(hi, lo),
{
    match (parse_hex_digit(hi), parse_hex_digit(lo)) {
        (Some(h), Some(l)) => Some(h * 16 + l),
        (None, Some(l)) => if hi == 0x2B {
            Some(l)
        } else {
            None
        },
        _ => None,
    }
}

/// `bytes` with every `%XX` replaced by the byte it stands for. A percent sign
/// that no digit pair follows stands for itself.
pub open spec fn percent_decoded(bytes: Seq<u8>) -> Seq<u8>
    decreases bytes.len(),
{
    if bytes.len() == 0 {
        Seq::empty()
    } else if bytes[0] == 0x25 && bytes.len() > 2 && hex_pair(bytes[1], bytes[2]) is Some {
        seq![hex_pair(bytes[1], bytes[2])->0] + percent_decoded(bytes.skip(3))
    } else {
        seq![bytes[0]] + percent_decoded(bytes.skip(1))
    }
}

/// The text that a percent-encoded path stands for.
pub fn percent_decode(s: &str) -> (text: String)
    ensures
        text@ == text_of(percent_decoded(encode_utf8(s@))),
        valid_utf8(percent_decoded(encode_utf8(s@))) ==> encode_utf8(text@) == percent_decoded(
            encode_utf8(s@),
        ),
{
    let bytes = s.as_bytes();
    let mut out: Vec<u8> = Vec::new();
    let mut i: usize = 0;
    assert(bytes@.skip(0) =~= bytes@);
    assert(out@ + percent_decoded(bytes@) =~= percent_decoded(bytes@));
    while i < bytes.len()
        invariant
            i <= bytes@.len(),
            out@ + percent_decoded(bytes@.skip(i as int)) == percent_decoded(bytes@),
        decreases bytes@.len() - i,
    {
        let ghost rest = bytes@.skip(i as int);
        let ghost sent = out@;
        let mut escape: Option<u8> = None;
        if bytes[i] == 0x25 && bytes.len() - i > 2 {
            escape = parse_hex_pair(bytes[i + 1], bytes[i + 2]);
        }
        match escape {
            Some(b) => {
                out.push(b);
                i += 3;
                assert(rest.skip(3) =~= bytes@.skip(i as int));
            },
            None => {
                out.push(bytes[i]);
                i += 1;
                assert(rest.skip(1) =~= bytes@.skip(i as int));
            },
        }
        assert(out@ + percent_decoded(bytes@.skip(i as int)) =~= sent + percent_decoded(rest));
    }
    assert(bytes@.skip(i as int) =~= Seq::empty());
    assert(out@ =~= percent_decoded(bytes@));
    let text = decode_lossy(out.as_slice());
    proof {
        encode_utf8_decode_utf8(text@);
    }
    text
}

/// The first part that says `cmd=…`, without that prefix.
pub open spec fn command_of(parts: Seq<Seq<char>>) -> Option<Seq<char>>
    decreases parts.len(),
{
    if parts.len() == 0 {
        None
    } else if has_prefix(parts[0], "cmd="@) {
        Some(parts[0].skip("cmd="@.len() as int))
    } else {
        command_of(parts.drop_first())
    }
}

/// What an `OSC 133` payload (everything after `133;`) means.
pub open spec fn osc133_event(payload: Seq<char>) -> Option<EventView> {
    let parts = split(payload, ';');
    if parts[0] == "A"@ {
        Some(EventView::PromptStart)
    } else if parts[0] == "B"@ {
        Some(EventView::CommandStart)
    } else if parts[0] == "C"@ {
        Some(EventView::OutputStart { command: command_of(parts.drop_first()) })
    } else if parts[0] == "D"@ {
        Some(
            EventView::CommandDone {
                exit: if parts.len() > 1 {
                    i32_text(parts[1])
                } else {
                    None
                },
            },
        )
    } else {
        None
    }
}

/// What an `OSC 7` payload means: the path of a `file://<host>/<path>` address.
pub open spec fn osc7_event(payload: Seq<char>) -> Option<EventView> {
    let rest = payload.skip("file://"@.len() as int);
    let slash = first_index(rest, '/');
    if has_prefix(payload, "file://"@) && slash < rest.len() {
        Some(EventView::Cwd(text_of(percent_decoded(encode_utf8(rest.skip(slash))))))
    } else {
        None
    }
}

/// What an `OSC 777` payload means. Its only member is `notify`.
pub open spec fn osc777_event(payload: Seq<char>) -> Option<EventView> {
    if has_prefix(payload, "notify;"@) {
        let body = payload.skip("notify;"@.len() as int);
        match split_once(body, ';') {
            Some((title, text)) => Some(EventView::Notification { title: Some(title), body: text }),
            None => Some(EventView::Notification { title: None, body }),
        }
    } else {
        None
    }
}

/// What a complete payload `<number>;<rest>` means. Clipboard requests
/// (`OSC 52`) are not here: the terminal reports them itself.
pub open spec fn osc_event(payload: Seq<char>) -> Option<EventView> {
    let (number, rest) = match split_once(payload, ';') {
        Some((n, r)) => (n, r),
        None => (payload, Seq::empty()),
    };
    if number == "0"@ || number == "2"@ {
        Some(EventView::Title(rest))
    } else if number == "7"@ {
        osc7_event(rest)
    } else if number == "9"@ {
        if rest.len() > 0 {
            Some(EventView::Notification { title: None, body: rest })
        } else {
            None
        }
    } else if number == "777"@ {
        osc777_event(rest)
    } else if number == "133"@ {
        osc133_event(rest)
    } else {
        None
    }
}

/// The view of an optional event.
pub open spec fn event_view(event: Option<SemanticEvent>) -> Option<EventView> {
    match event {
        Some(e) => Some(e@),
        None => None,
    }
}

/// A field never starts before the one before it ends.
proof fn lemma_split_head(s: Seq<char>)
    ensures
        split(s, ';').len() >= 1,
        split(s, ';')[0] == s.take(first_index(s, ';')),
        first_index(s, ';') < s.len() ==> split(s, ';').drop_first() == split(
            s.skip(first_index(s, ';') + 1),
            ';',
        ),
        first_index(s, ';') == s.len() ==> split(s, ';').drop_first() == Seq::<Seq<char>>::empty(),
{
    lemma_first_index(s, ';');
    let at = first_index(s, ';');
    if at < s.len() {
        assert(split(s, ';').drop_first() =~= split(s.skip(at + 1), ';'));
    } else {
        assert(s.take(at) =~= s);
        assert(split(s, ';').drop_first() =~= Seq::empty());
    }
}

/// The command named in the `;`-separated fields of `chars[from..]`.
fn find_command(chars: &Vec<char>, from: usize) -> (command: Option<String>)
    requires
        from <= chars@.len(),
    ensures
        crate::semantic::text_view(command) == command_of(
            split(chars@.skip(from as int), ';'),
        ),
{
    let n: usize = chars.len();
    let mut at: usize = from;
    loop
        invariant
            from <= at <= n == chars@.len(),
            command_of(split(chars@.skip(from as int), ';')) == command_of(
                split(chars@.skip(at as int), ';'),
            ),
        decreases n - at,
    {
        let ghost rest = chars@.skip(at as int);
        let end = find_char(chars, at, n, ';');
        proof {
            assert(chars@.subrange(at as int, n as int) =~= rest);
            lemma_split_head(rest);
            assert(chars@.subrange(at as int, end as int) =~= rest.take(end - at));
        }
        let ghost field = rest.take(end - at);
        match strip_prefix(chars, at, end, "cmd=") {
            Some(start) => {
                let text = string_of(chars, start, end);
                assert(text@ =~= field.skip("cmd="@.len() as int));
                return Some(text);
            },
            None => {},
        }
        if end == n {
            assert(command_of(split(rest, ';')) == command_of(split(rest, ';').drop_first()));
            return None;
        }
        assert(rest.skip(end - at + 1) =~= chars@.skip(end + 1));
        at = end + 1;
    }
}

/// Parses `chars[from..]` as an `OSC 133` payload.
fn parse_osc133_at(chars: &Vec<char>, from: usize) -> (event: Option<SemanticEvent>)
    requires
        from <= chars@.len(),
    ensures
        event_view(event) == osc133_event(chars@.skip(from as int)),
{
    let n: usize = chars.len();
    let ghost payload = chars@.skip(from as int);
    let end = find_char(chars, from, n, ';');
    proof {
        assert(chars@.subrange(from as int, n as int) =~= payload);
        lemma_split_head(payload);
        assert(chars@.subrange(from as int, end as int) =~= payload.take(end - from));
        if end < n {
            assert(payload.skip(end - from + 1) =~= chars@.skip(end + 1));
        }
    }
    if range_is(chars, from, end, "A") {
        Some(SemanticEvent::PromptStart)
    } else if range_is(chars, from, end, "B") {
        Some(SemanticEvent::CommandStart)
    } else if range_is(chars, from, end, "C") {
        let command = if end < n {
            find_command(chars, end + 1)
        } else {
            None
        };
        Some(SemanticEvent::OutputStart { command })
    } else if range_is(chars, from, end, "D") {
        let exit: Option<i32> = if end < n {
            let stop = find_char(chars, end + 1, n, ';');
            proof {
                let rest = chars@.skip(end + 1);
                assert(chars@.subrange(end + 1, n as int) =~= rest);
                lemma_split_head(rest);
                assert(chars@.subrange(end + 1, stop as int) =~= rest.take(stop - end - 1));
                assert(split(payload, ';')[1] == split(payload, ';').drop_first()[0]);
            }
            parse_i32(chars, end + 1, stop)
        } else {
            assert(split(payload, ';').drop_first().len() == 0);
            None
        };
        Some(SemanticEvent::CommandDone { exit })
    } else {
        None
    }
}

/// Parses the payload of an `OSC 133` sequence (everything after `133;`).
pub fn parse_osc133(payload: &str) -> (event: Option<SemanticEvent>)
    ensures
        event_view(event) == osc133_event(payload@),
{
    let chars = chars_of(payload);
    assert(chars@.skip(0) =~= payload@);
    parse_osc133_at(&chars, 0)
}

/// Parses `chars[from..]` as an `OSC 7` payload.
fn parse_osc7_at(chars: &Vec<char>, from: usize) -> (event: Option<SemanticEvent>)
    requires
        from <= chars@.len(),
    ensures
        event_view(event) == osc7_event(chars@.skip(from as int)),
{
    let n: usize = chars.len();
    let ghost payload = chars@.skip(from as int);
    assert(chars@.subrange(from as int, n as int) =~= payload);
    match strip_prefix(chars, from, n, "file://") {
        None => None,
        Some(start) => {
            let ghost rest = payload.skip("file://"@.len() as int);
            assert(chars@.subrange(start as int, n as int) =~= rest);
            let slash = find_char(chars, start, n, '/');
            if slash == n {
                return None;
            }
            let path = string_of(chars, slash, n);
            assert(path@ =~= rest.skip(slash - start));
            Some(SemanticEvent::Cwd(percent_decode(path.as_str())))
        },
    }
}

/// Parses `OSC 7`: `file://<host>/<path>`.
pub fn parse_osc7(payload: &str) -> (event: Option<SemanticEvent>)
    ensures
        event_view(event) == osc7_event(payload@),
{
    let chars = chars_of(payload);
    assert(chars@.skip(0) =~= payload@);
    parse_osc7_at(&chars, 0)
}

/// Parses `chars[from..]` as an `OSC 777` payload.
fn parse_osc777_at(chars: &Vec<char>, from: usize) -> (event: Option<SemanticEvent>)
    requires
        from <= chars@.len(),
    ensures
        event_view(event) == osc777_event(chars@.skip(from as int)),
{
    let n: usize = chars.len();
    let ghost payload = chars@.skip(from as int);
    assert(chars@.subrange(from as int, n as int) =~= payload);
    match strip_prefix(chars, from, n, "notify;") {
        None => None,
        Some(start) => {
            let ghost body = payload.skip("notify;"@.len() as int);
            assert(chars@.subrange(start as int, n as int) =~= body);
            let semi = find_char(chars, start, n, ';');
            if semi < n {
                let title = string_of(chars, start, semi);
                let text = string_of(chars, semi + 1, n);
                assert(title@ =~= body.take(semi - start));
                assert(text@ =~= body.skip(semi - start + 1));
                Some(SemanticEvent::Notification { title: Some(title), body: text })
            } else {
                let text = string_of(chars, start, n);
                Some(SemanticEvent::Notification { title: None, body: text })
            }
        },
    }
}

/// Dispatches a complete payload (`<number>;<rest>`).
pub fn parse_osc(payload: &str) -> (event: Option<SemanticEvent>)
    ensures
        event_view(event) == osc_event(payload@),
{
    let chars = chars_of(payload);
    let n: usize = chars.len();
    let semi = find_char(&chars, 0, n, ';');
    let start: usize = if semi < n {
        semi + 1
    } else {
        n
    };
    proof {
        assert(chars@.subrange(0, n as int) =~= payload@);
        assert(chars@.subrange(0, semi as int) =~= payload@.take(semi as int));
        if semi == n {
            assert(payload@.take(semi as int) =~= payload@);
            assert(chars@.skip(start as int) =~= Seq::empty());
        } else {
            assert(chars@.skip(start as int) =~= payload@.skip(semi + 1));
        }
        assert(chars@.subrange(start as int, n as int) =~= chars@.skip(start as int));
    }
    if range_is(&chars, 0, semi, "0") || range_is(&chars, 0, semi, "2") {
        Some(SemanticEvent::Title(string_of(&chars, start, n)))
    } else if range_is(&chars, 0, semi, "7") {
        parse_osc7_at(&chars, start)
    } else if range_is(&chars, 0, semi, "9") {
        if start < n {
            Some(SemanticEvent::Notification { title: None, body: string_of(&chars, start, n) })
        } else {
            None
        }
    } else if range_is(&chars, 0, semi, "777") {
        parse_osc777_at(&chars, start)
    } else if range_is(&chars, 0, semi, "133") {
        parse_osc133_at(&chars, start)
    } else {
        None
    }
}

/// Where a sniffer stands in the byte stream.
#[derive(Debug, Clone, Copy, PartialEq, Eq, Structural)]
pub enum SnifferState {
    Ground,
    /// Saw `ESC`.
    Escape,
    /// Inside a payload.
    Osc,
    /// Saw `ESC` inside a payload: its end, if a backslash follows.
    OscEscape,
}

/// A payload of more bytes than this is a runaway, and is dropped.
pub const MAX_OSC_PAYLOAD: usize = 65536;

/// Scans a byte stream for operating-system commands.
///
/// It only listens: the bytes go on to the terminal untouched. Its state
/// outlives a call, so a sequence split across two reads still resolves.
#[derive(Debug)]
pub struct OscSniffer {
    state: SnifferState,
    buf: Vec<u8>,
    overflown: bool,
    events: Vec<SemanticEvent>,
}

/// What a sniffer has seen.
pub struct SnifferView {
    pub state: SnifferState,
    /// The payload so far, up to its limit.
    pub buf: Seq<u8>,
    /// Whether the payload went on past its limit.
    pub overflown: bool,
    pub events: Seq<EventView>,
}

impl View for OscSniffer {
    type V = SnifferView;

    closed spec fn view(&self) -> SnifferView {
        SnifferView {
            state: self.state,
            buf: self.buf@,
            overflown: self.overflown,
            events: event_views(self.events@),
        }
    }
}

/// A sniffer that has seen nothing.
pub open spec fn fresh_sniffer() -> SnifferView {
    SnifferView {
        state: SnifferState::Ground,
        buf: Seq::empty(),
        overflown: false,
        events: Seq::empty(),
    }
}

/// The event that a finished payload stands for, if it is text and means
/// anything.
pub open spec fn payload_event(buf: Seq<u8>) -> Option<EventView> {
    if valid_utf8(buf) {
        osc_event(decode_utf8(buf))
    } else {
        None
    }
}

/// The sniffer after the end of a payload.
pub open spec fn finish_payload(v: SnifferView) -> SnifferView {
    SnifferView {
        state: SnifferState::Ground,
        buf: Seq::empty(),
        overflown: false,
        events: match payload_event(v.buf) {
            Some(e) => if v.overflown {
                v.events
            } else {
                v.events.push(e)
            },
            None => v.events,
        },
    }
}

/// The sniffer at the start of a payload.
pub open spec fn start_payload(v: SnifferView) -> SnifferView {
    SnifferView { state: SnifferState::Osc, buf: Seq::empty(), overflown: false, ..v }
}

/// The sniffer after one byte.
pub open spec fn sniff_byte(v: SnifferView, b: u8) -> SnifferView {
    match v.state {
        SnifferState::Ground => if b == 0x1B {
            SnifferView { state: SnifferState::Escape, ..v }
        } else if b == 0x07 {
            SnifferView { events: v.events.push(EventView::Bell), ..v }
        } else if b == 0x9D {
            start_payload(v)
        } else {
            v
        },
        SnifferState::Escape => if b == 0x5D {
            start_payload(v)
        } else if b == 0x1B {
            v
        } else {
            SnifferView { state: SnifferState::Ground, ..v }
        },
        SnifferState::Osc => if b == 0x07 || b == 0x9C {
            finish_payload(v)
        } else if b == 0x1B {
            SnifferView { state: SnifferState::OscEscape, ..v }
        } else if v.buf.len() < MAX_OSC_PAYLOAD {
            SnifferView { buf: v.buf.push(b), ..v }
        } else {
            SnifferView { overflown: true, ..v }
        },
        SnifferState::OscEscape => if b == 0x5C {
            finish_payload(v)
        } else {
            SnifferView { state: SnifferState::Ground, buf: Seq::empty(), overflown: false, ..v }
        },
    }
}

/// The sniffer after a run of bytes.
pub open spec fn sniff(v: SnifferView, bytes: Seq<u8>) -> SnifferView
    decreases bytes.len(),
{
    if bytes.len() == 0 {
        v
    } else {
        sniff_byte(sniff(v, bytes.drop_last()), bytes.last())
    }
}

/// Where the stream is cut into reads makes no difference.
pub proof fn law_sniffing_ignores_chunk_boundaries(v: SnifferView, a: Seq<u8>, b: Seq<u8>)
    ensures
        sniff(v, a + b) == sniff(sniff(v, a), b),
    decreases b.len(),
{
    if b.len() == 0 {
        assert(a + b =~= a);
    } else {
        law_sniffing_ignores_chunk_boundaries(v, a, b.drop_last());
        assert((a + b).drop_last() =~= a + b.drop_last());
    }
}

/// However much is fed, the payload held never grows past its limit.
pub proof fn law_payload_is_bounded(v: SnifferView, bytes: Seq<u8>)
    requires
        v.buf.len() <= MAX_OSC_PAYLOAD,
    ensures
        sniff(v, bytes).buf.len() <= MAX_OSC_PAYLOAD,
    decreases bytes.len(),
{
    if bytes.len() > 0 {
        law_payload_is_bounded(v, bytes.drop_last());
    }
}

proof fn lemma_payload_fills(v: SnifferView, bytes: Seq<u8>)
    requires
        v.state is Osc,
        forall|i: int|
            0 <= i < bytes.len() ==> #[trigger] bytes[i] != 0x07 && bytes[i] != 0x9C && bytes[i]
                != 0x1B,
    ensures
        ({
            let after = sniff(v, bytes);
            &&& after.state is Osc
            &&& after.events == v.events
            &&& if v.buf.len() + bytes.len() <= MAX_OSC_PAYLOAD {
                after.overflown == v.overflown && after.buf == v.buf + bytes
            } else {
                v.buf.len() <= MAX_OSC_PAYLOAD && bytes.len() > 0 ==> after.overflown && after.buf.len()
                    == MAX_OSC_PAYLOAD
            }
        }),
    decreases bytes.len(),
{
    if bytes.len() > 0 {
        let rest = bytes.drop_last();
        assert forall|i: int| 0 <= i < rest.len() implies #[trigger] rest[i] != 0x07 && rest[i]
            != 0x9C && rest[i] != 0x1B by {
            assert(rest[i] == bytes[i]);
        }
        lemma_payload_fills(v, rest);
        if v.buf.len() + bytes.len() <= MAX_OSC_PAYLOAD {
            assert((v.buf + rest).push(bytes.last()) =~= v.buf + bytes);
        }
    } else {
        assert(v.buf + bytes =~= v.buf);
    }
}

/// A payload is read where it ends: within its limit it says what it says, and
/// past it nothing at all.
pub proof fn law_a_runaway_payload_is_dropped(v: SnifferView, payload: Seq<u8>)
    requires
        v.state is Ground,
        forall|i: int|
            0 <= i < payload.len() ==> #[trigger] payload[i] != 0x07 && payload[i] != 0x9C
                && payload[i] != 0x1B,
    ensures
        sniff(v, seq![0x1Bu8, 0x5Du8] + payload + seq![0x07u8]).events == if payload.len()
            <= MAX_OSC_PAYLOAD && payload_event(payload) is Some {
            v.events.push(payload_event(payload)->0)
        } else {
            v.events
        },
{
    let open = seq![0x1Bu8, 0x5Du8];
    let close = seq![0x07u8];
    reveal_with_fuel(sniff, 3);
    let started = sniff(v, open);
    assert(open.drop_last() =~= seq![0x1Bu8]);
    assert(started == start_payload(v));
    law_sniffing_ignores_chunk_boundaries(v, open, payload);
    law_sniffing_ignores_chunk_boundaries(v, open + payload, close);
    lemma_payload_fills(started, payload);
    assert(started.buf + payload =~= payload);
    let held = sniff(started, payload);
    assert(close.drop_last() =~= Seq::empty());
    assert(sniff(held, close) == finish_payload(held));
}

/// Events are only ever added, in the order of the bytes that caused them.
pub proof fn law_events_are_only_added(v: SnifferView, bytes: Seq<u8>)
    ensures
        v.events.len() <= sniff(v, bytes).events.len(),
        sniff(v, bytes).events.take(v.events.len() as int) == v.events,
    decreases bytes.len(),
{
    if bytes.len() == 0 {
        assert(v.events.take(v.events.len() as int) =~= v.events);
    } else {
        let before = sniff(v, bytes.drop_last());
        law_events_are_only_added(v, bytes.drop_last());
        let after = sniff(v, bytes);
        let n = v.events.len() as int;
        assert(after.events.take(n) =~= before.events.take(n));
    }
}

/// Text without control bytes says nothing out of band.
pub proof fn law_plain_text_is_silent(v: SnifferView, bytes: Seq<u8>)
    requires
        v.state is Ground,
        forall|i: int|
            0 <= i < bytes.len() ==> #[trigger] bytes[i] != 0x1B && bytes[i] != 0x07 && bytes[i]
                != 0x9D,
    ensures
        sniff(v, bytes) == v,
    decreases bytes.len(),
{
    if bytes.len() > 0 {
        let rest = bytes.drop_last();
        assert forall|i: int| 0 <= i < rest.len() implies #[trigger] rest[i] != 0x1B && rest[i]
            != 0x07 && rest[i] != 0x9D by {
            assert(rest[i] == bytes[i]);
        }
        law_plain_text_is_silent(v, rest);
    }
}

impl OscSniffer {
    pub fn new() -> (s: OscSniffer)
        ensures
            s@ == fresh_sniffer(),
    {
        let s = OscSniffer {
            state: SnifferState::Ground,
            buf: Vec::new(),
            overflown: false,
            events: Vec::new(),
        };
        assert(s@.events =~= Seq::empty());
        s
    }

    /// Looks at the next bytes of the stream.
    pub fn feed(&mut self, bytes: &[u8])
        ensures
            final(self)@ == sniff(old(self)@, bytes@),
    {
        let mut i: usize = 0;
        assert(bytes@.take(0) =~= Seq::empty());
        while i < bytes.len()
            invariant
                i <= bytes@.len(),
                self@ == sniff(old(self)@, bytes@.take(i as int)),
            decreases bytes@.len() - i,
        {
            let b: u8 = bytes[i];
            let ghost before = self@;
            proof {
                assert(bytes@.take(i + 1).drop_last() =~= bytes@.take(i as int));
            }
            match self.state {
                SnifferState::Ground => {
                    if b == 0x1B {
                        self.state = SnifferState::Escape;
                    } else if b == 0x07 {
                        self.events.push(SemanticEvent::Bell);
                        assert(self@.events =~= before.events.push(EventView::Bell));
                    } else if b == 0x9D {
                        self.buf.clear();
                        self.overflown = false;
                        self.state = SnifferState::Osc;
                    }
                },
                SnifferState::Escape => {
                    if b == 0x5D {
                        self.buf.clear();
                        self.overflown = false;
                        self.state = SnifferState::Osc;
                    } else if b != 0x1B {
                        self.state = SnifferState::Ground;
                    }
                },
                SnifferState::Osc => {
                    if b == 0x07 || b == 0x9C {
                        self.finish();
                    } else if b == 0x1B {
                        self.state = SnifferState::OscEscape;
                    } else if self.buf.len() < MAX_OSC_PAYLOAD {
                        self.buf.push(b);
                    } else {
                        self.overflown = true;
                    }
                },
                SnifferState::OscEscape => {
                    if b == 0x5C {
                        self.finish();
                    } else {
                        self.buf.clear();
                        self.overflown = false;
                        self.state = SnifferState::Ground;
                    }
                },
            }
            assert(self@ == sniff_byte(before, b));
            i += 1;
        }
        assert(bytes@.take(i as int) =~= bytes@);
    }

    /// Closes the payload and emits what it means.
    fn finish(&mut self)
        ensures
            final(self)@ == finish_payload(old(self)@),
    {
        let mut payload: Vec<u8> = Vec::new();
        core::mem::swap(&mut payload, &mut self.buf);
        self.state = SnifferState::Ground;
        let runaway = self.overflown;
        self.overflown = false;
        if runaway {
            return;
        }
        match decode_strict(payload) {
            None => {},
            Some(text) => {
                proof {
                    encode_utf8_decode_utf8(text@);
                }
                match parse_osc(text.as_str()) {
                    Some(event) => {
                        self.events.push(event);
                        assert(event_views(self.events@) =~= old(self)@.events.push(event@));
                    },
                    None => {},
                }
            },
        }
    }

    /// Takes the events seen so far.
    pub fn drain(&mut self) -> (events: Vec<SemanticEvent>)
        ensures
            event_views(events@) == old(self)@.events,
            final(self)@ == (SnifferView { events: Seq::empty(), ..old(self)@ }),
    {
        let mut events: Vec<SemanticEvent> = Vec::new();
        core::mem::swap(&mut events, &mut self.events);
        assert(self@.events =~= Seq::empty());
        events
    }

    pub fn is_empty(&self) -> (yes: bool)
        ensures
            yes == (self@.events.len() == 0),
    {
        self.events.len() == 0
    }
}

impl Default for OscSniffer {
    fn default() -> (s: OscSniffer)
        ensures
            s@ == fresh_sniffer(),
    {
        OscSniffer::new()
    }
}

/// Hexadecimal digits are the ten figures and the letters from a to f, small or
/// capital, and nothing else.
pub proof fn law_hexadecimal_digits(v: u8, b: u8)
    requires
        v < 16,
    ensures
        hex_digit(b) == Some(v) <==> (v < 10 && b == '0' as u8 + v) || (v >= 10 && (b == 'a' as u8 + v
            - 10 || b == 'A' as u8 + v - 10)),
        hex_digit(b) is Some ==> hex_digit(b)->0 < 16,
{
}

/// The capital hexadecimal digit of a number.
pub open spec fn capital_digit(v: int) -> u8 {
    if v < 10 {
        (0x30 + v) as u8
    } else {
        (0x41 + v - 10) as u8
    }
}

/// Bytes written as percent escapes, every one of them.
pub open spec fn percent_encoded(bytes: Seq<u8>) -> Seq<u8>
    decreases bytes.len(),
{
    if bytes.len() == 0 {
        Seq::empty()
    } else {
        seq![0x25u8, capital_digit(bytes[0] as int / 16), capital_digit(bytes[0] as int % 16)]
            + percent_encoded(bytes.skip(1))
    }
}

/// Decoding percent escapes gives back the bytes that were written as them.
pub proof fn law_percent_escapes_read_back(bytes: Seq<u8>)
    ensures
        percent_decoded(percent_encoded(bytes)) == bytes,
    decreases bytes.len(),
{
    if bytes.len() > 0 {
        law_percent_escapes_read_back(bytes.skip(1));
        let e = percent_encoded(bytes);
        let h = bytes[0] as int / 16;
        let l = bytes[0] as int % 16;
        assert(hex_digit(capital_digit(h)) == Some(h as u8));
        assert(hex_digit(capital_digit(l)) == Some(l as u8));
        assert(e.skip(3) =~= percent_encoded(bytes.skip(1)));
        assert(hex_pair(e[1], e[2]) == Some(bytes[0]));
        assert(percent_decoded(e) =~= bytes);
    }
}

/// A percent escape is decoded wherever it stands, its letters small or capital,
/// and every byte that is no percent sign stands for itself.
pub proof fn law_percent_escapes_are_decoded_one_by_one(
    hi: u8,
    lo: u8,
    b: u8,
    rest: Seq<u8>,
)
    requires
        hex_digit(hi) is Some,
        hex_digit(lo) is Some,
        b != 0x25,
    ensures
        percent_decoded(seq![0x25u8, hi, lo] + rest) == seq![
            (16 * hex_digit(hi)->0 + hex_digit(lo)->0) as u8,
        ] + percent_decoded(rest),
        percent_decoded(seq![b] + rest) == seq![b] + percent_decoded(rest),
        percent_decoded(Seq::<u8>::empty()) == Seq::<u8>::empty(),
{
    assert((seq![0x25u8, hi, lo] + rest).skip(3) =~= rest);
    assert((seq![b] + rest).skip(1) =~= rest);
}

/// A text without percent signs stands for itself.
pub proof fn law_plain_paths_stand_for_themselves(bytes: Seq<u8>)
    requires
        !bytes.contains(0x25u8),
    ensures
        percent_decoded(bytes) == bytes,
    decreases bytes.len(),
{
    if bytes.len() > 0 {
        let rest = bytes.skip(1);
        assert(bytes.contains(bytes[0]));
        assert(!rest.contains(0x25u8)) by {
            if rest.contains(0x25u8) {
                let i = choose|i: int| 0 <= i < rest.len() && rest[i] == 0x25u8;
                assert(bytes[i + 1] == 0x25u8);
            }
        }
        law_plain_paths_stand_for_themselves(rest);
        assert(percent_decoded(bytes) =~= bytes);
    }
}

/// A command number and what follows it, joined by a semicolon.
pub open spec fn numbered(number: Seq<char>, rest: Seq<char>) -> Seq<char> {
    number.push(';') + rest
}

proof fn lemma_numbered(number: Seq<char>, rest: Seq<char>)
    requires
        !number.contains(';'),
    ensures
        split_once(numbered(number, rest), ';') == Some((number, rest)),
        split(numbered(number, rest), ';') == seq![number] + split(rest, ';'),
        split_once(number, ';') is None,
        split(number, ';') == seq![number],
{
    law_cutting_undoes_joining(number, ';', rest);
    law_splitting_undoes_joining(number, ';', rest);
}

/// Commands 0 and 2 set the title to the whole rest, whatever it holds, even
/// nothing.
pub proof fn law_titles_are_the_whole_rest(rest: Seq<char>)
    ensures
        osc_event(numbered(seq!['0'], rest)) == Some(EventView::Title(rest)),
        osc_event(numbered(seq!['2'], rest)) == Some(EventView::Title(rest)),
{
    reveal_strlit("0");
    reveal_strlit("2");
    lemma_numbered(seq!['0'], rest);
    lemma_numbered(seq!['2'], rest);
    assert("0"@ =~= seq!['0']);
    assert("2"@ =~= seq!['2']);
}

/// Command 9 is a notification of the whole rest, unless that is empty.
pub proof fn law_notifications_are_the_whole_rest(rest: Seq<char>)
    ensures
        rest.len() > 0 ==> osc_event(numbered(seq!['9'], rest)) == Some(
            EventView::Notification { title: None, body: rest },
        ),
        rest.len() == 0 ==> osc_event(numbered(seq!['9'], rest)) is None,
{
    reveal_strlit("0");
    reveal_strlit("2");
    reveal_strlit("7");
    reveal_strlit("9");
    lemma_numbered(seq!['9'], rest);
    assert("9"@ =~= seq!['9']);
    assert("0"@[0] != '9' && "2"@[0] != '9' && "7"@[0] != '9');
}

/// Command 777 with `notify` is a notification with a title, up to the next
/// semicolon, and a body, which is all the rest; without that semicolon it has
/// no title.
pub proof fn law_titled_notifications(title: Seq<char>, body: Seq<char>)
    requires
        !title.contains(';'),
    ensures
        osc_event(numbered(seq!['7', '7', '7'], numbered("notify"@, numbered(title, body)))) == Some(
            EventView::Notification { title: Some(title), body },
        ),
        osc_event(numbered(seq!['7', '7', '7'], numbered("notify"@, title))) == Some(
            EventView::Notification { title: None, body: title },
        ),
{
    reveal_strlit("0");
    reveal_strlit("2");
    reveal_strlit("7");
    reveal_strlit("9");
    reveal_strlit("777");
    reveal_strlit("notify");
    reveal_strlit("notify;");
    let n = seq!['7', '7', '7'];
    assert("777"@ =~= n);
    assert("0"@.len() == 1 && "2"@.len() == 1 && "7"@.len() == 1 && "9"@.len() == 1);
    assert("notify;"@ =~= "notify"@.push(';'));
    lemma_numbered(n, numbered("notify"@, numbered(title, body)));
    lemma_numbered(n, numbered("notify"@, title));
    lemma_numbered(title, body);
    law_prefixes_come_off("notify;"@, numbered(title, body));
    law_prefixes_come_off("notify;"@, title);
}

/// Command 133 marks the parts of a command: A its prompt, B the end of the
/// prompt, C the start of its output and D its end, with the exit code that
/// follows, or none where none does or it is no number.
pub proof fn law_prompt_marks(code: i32, rest: Seq<char>, junk: Seq<char>)
    requires
        !junk.contains(';'),
        i32_text(junk) is None,
    ensures
        osc_event(numbered(seq!['1', '3', '3'], seq!['A'])) == Some(EventView::PromptStart),
        osc_event(numbered(seq!['1', '3', '3'], seq!['B'])) == Some(EventView::CommandStart),
        osc_event(numbered(seq!['1', '3', '3'], seq!['C'])) == Some(
            EventView::OutputStart { command: None },
        ),
        osc_event(numbered(seq!['1', '3', '3'], seq!['D'])) == Some(
            EventView::CommandDone { exit: None },
        ),
        code >= 0 ==> osc_event(
            numbered(seq!['1', '3', '3'], numbered(seq!['D'], decimal_text(code as int))),
        ) == Some(EventView::CommandDone { exit: Some(code) }),
        code <= 0 ==> osc_event(
            numbered(seq!['1', '3', '3'], numbered(seq!['D'], seq!['-'] + decimal_text(-code))),
        ) == Some(EventView::CommandDone { exit: Some(code) }),
        osc_event(numbered(seq!['1', '3', '3'], numbered(seq!['D'], junk))) == Some(
            EventView::CommandDone { exit: None },
        ),
        osc_event(numbered(seq!['1', '3', '3'], numbered(seq!['A'], rest))) == Some(
            EventView::PromptStart,
        ),
        osc_event(numbered(seq!['1', '3', '3'], numbered(seq!['B'], rest))) == Some(
            EventView::CommandStart,
        ),
{
    lemma_133(seq!['A']);
    lemma_133(seq!['B']);
    lemma_133(seq!['C']);
    lemma_133(seq!['D']);
    lemma_133(numbered(seq!['A'], rest));
    lemma_133(numbered(seq!['B'], rest));
    lemma_133(numbered(seq!['D'], junk));
    lemma_letters();
    lemma_numbered(seq!['A'], rest);
    lemma_numbered(seq!['B'], rest);
    lemma_numbered(seq!['C'], rest);
    lemma_numbered(seq!['D'], junk);
    lemma_numbered(junk, rest);
    assert(split(seq!['C'], ';').drop_first() =~= Seq::<Seq<char>>::empty());
    law_integers_are_read_from_their_text(code);
    if code >= 0 {
        let t = decimal_text(code as int);
        law_decimal_text_reads_back(code as int);
        assert(!t.contains(';'));
        lemma_133(numbered(seq!['D'], t));
        lemma_numbered(seq!['D'], t);
        lemma_numbered(t, rest);
    }
    if code <= 0 {
        let t = seq!['-'] + decimal_text(-code);
        law_decimal_text_reads_back(-code);
        assert(!t.contains(';')) by {
            if t.contains(';') {
                let i = choose|i: int| 0 <= i < t.len() && t[i] == ';';
                assert(decimal_text(-code)[i - 1] == ';');
            }
        }
        lemma_133(numbered(seq!['D'], t));
        lemma_numbered(seq!['D'], t);
        lemma_numbered(t, rest);
    }
}

proof fn lemma_letters()
    ensures
        "A"@ == seq!['A'],
        "B"@ == seq!['B'],
        "C"@ == seq!['C'],
        "D"@ == seq!['D'],
        seq!['A'] != seq!['B'],
        seq!['A'] != seq!['C'],
        seq!['A'] != seq!['D'],
        seq!['B'] != seq!['C'],
        seq!['B'] != seq!['D'],
        seq!['C'] != seq!['D'],
{
    reveal_strlit("A");
    reveal_strlit("B");
    reveal_strlit("C");
    reveal_strlit("D");
    assert("A"@ =~= seq!['A']);
    assert("B"@ =~= seq!['B']);
    assert("C"@ =~= seq!['C']);
    assert("D"@ =~= seq!['D']);
    assert(seq!['A'][0] != seq!['B'][0]);
    assert(seq!['A'][0] != seq!['C'][0]);
    assert(seq!['A'][0] != seq!['D'][0]);
    assert(seq!['B'][0] != seq!['C'][0]);
    assert(seq!['B'][0] != seq!['D'][0]);
    assert(seq!['C'][0] != seq!['D'][0]);
}

proof fn lemma_133(rest: Seq<char>)
    ensures
        osc_event(numbered(seq!['1', '3', '3'], rest)) == osc133_event(rest),
{
    reveal_strlit("0");
    reveal_strlit("2");
    reveal_strlit("7");
    reveal_strlit("9");
    reveal_strlit("777");
    reveal_strlit("133");
    let n = seq!['1', '3', '3'];
    assert("133"@ =~= n);
    assert("0"@.len() == 1 && "2"@.len() == 1 && "7"@.len() == 1 && "9"@.len() == 1);
    assert("777"@[0] != n[0]);
    lemma_numbered(n, rest);
}

/// The command of a start mark is what follows `cmd=`, up to the next semicolon,
/// wherever among the fields that stands.
pub proof fn law_commands_are_named_in_their_mark(
    command: Seq<char>,
    before: Seq<char>,
    after: Seq<char>,
)
    requires
        !command.contains(';'),
        !before.contains(';'),
        !has_prefix(before, "cmd="@),
    ensures
        osc_event(numbered(seq!['1', '3', '3'], numbered(seq!['C'], "cmd="@ + command))) == Some(
            EventView::OutputStart { command: Some(command) },
        ),
        osc_event(
            numbered(
                seq!['1', '3', '3'],
                numbered(seq!['C'], numbered(before, numbered("cmd="@ + command, after))),
            ),
        ) == Some(EventView::OutputStart { command: Some(command) }),
        osc_event(numbered(seq!['1', '3', '3'], numbered(seq!['C'], before))) == Some(
            EventView::OutputStart { command: None },
        ),
{
    reveal_strlit("cmd=");
    let field = "cmd="@ + command;
    assert(!field.contains(';')) by {
        if field.contains(';') {
            let i = choose|i: int| 0 <= i < field.len() && field[i] == ';';
            assert(i >= 4);
            assert(command[i - 4] == ';');
        }
    }
    law_prefixes_come_off("cmd="@, command);
    lemma_letters();
    lemma_133(numbered(seq!['C'], field));
    lemma_numbered(seq!['C'], field);
    lemma_numbered(field, after);
    let late = numbered(before, numbered(field, after));
    lemma_133(numbered(seq!['C'], late));
    lemma_numbered(seq!['C'], late);
    lemma_numbered(before, numbered(field, after));
    lemma_133(numbered(seq!['C'], before));
    lemma_numbered(seq!['C'], before);
    reveal_with_fuel(command_of, 3);
    assert((seq![seq!['C']] + split(field, ';')).drop_first() =~= split(field, ';'));
    assert((seq![seq!['C']] + split(late, ';')).drop_first() =~= split(late, ';'));
    assert((seq![seq!['C']] + split(before, ';')).drop_first() =~= split(before, ';'));
    assert(split(late, ';').drop_first() =~= split(numbered(field, after), ';'));
    assert(split(before, ';').drop_first() =~= Seq::<Seq<char>>::empty());
}

/// Command 7 tells the directory: the path of a `file` address, from the first
/// slash behind the host on, with its percent escapes decoded.
pub proof fn law_directories_are_the_path_of_an_address(host: Seq<char>, path: Seq<char>)
    requires
        !host.contains('/'),
    ensures
        osc_event(numbered(seq!['7'], "file://"@ + host + seq!['/'] + path)) == Some(
            EventView::Cwd(text_of(percent_decoded(encode_utf8(seq!['/'] + path)))),
        ),
        osc_event(numbered(seq!['7'], "file://"@ + host)) is None,
{
    reveal_strlit("0");
    reveal_strlit("2");
    reveal_strlit("7");
    assert("7"@ =~= seq!['7']);
    assert("0"@[0] != '7' && "2"@[0] != '7');
    let a = "file://"@ + host + seq!['/'] + path;
    let rest = host.push('/') + path;
    assert(a =~= "file://"@ + rest);
    lemma_numbered(seq!['7'], a);
    lemma_numbered(seq!['7'], "file://"@ + host);
    law_prefixes_come_off("file://"@, rest);
    law_prefixes_come_off("file://"@, host);
    lemma_first_index(rest, '/');
    lemma_first_index(host, '/');
    law_cutting_undoes_joining(host, '/', path);
    assert(rest[host.len() as int] == '/');
    let at = first_index(rest, '/');
    if at < host.len() {
        assert(host[at] == rest[at]);
        assert(host.contains('/'));
    }
    assert(at == host.len());
    assert(rest.skip(at) =~= seq!['/'] + path);
    if first_index(host, '/') < host.len() {
        assert(host.contains(host[first_index(host, '/')]));
    }
}

/// A command with any other number says nothing here. The clipboard, number 52,
/// is among them: the terminal reports it itself.
pub proof fn law_other_numbers_say_nothing(number: Seq<char>, rest: Seq<char>)
    requires
        !number.contains(';'),
        number != seq!['0'],
        number != seq!['2'],
        number != seq!['7'],
        number != seq!['9'],
        number != seq!['7', '7', '7'],
        number != seq!['1', '3', '3'],
    ensures
        osc_event(numbered(number, rest)) is None,
        osc_event(number) is None,
{
    reveal_strlit("0");
    reveal_strlit("2");
    reveal_strlit("7");
    reveal_strlit("9");
    reveal_strlit("777");
    reveal_strlit("133");
    lemma_numbered(number, rest);
    assert("0"@ =~= seq!['0']);
    assert("2"@ =~= seq!['2']);
    assert("7"@ =~= seq!['7']);
    assert("9"@ =~= seq!['9']);
    assert("777"@ =~= seq!['7', '7', '7']);
    assert("133"@ =~= seq!['1', '3', '3']);
}

/// A payload is heard between either introducer and any terminator: `ESC ]` or
/// the single byte 9D, and BEL, `ESC \` or the single byte 9C.
pub proof fn law_payloads_are_heard_between_their_marks(
    v: SnifferView,
    payload: Seq<u8>,
    start: Seq<u8>,
    end: Seq<u8>,
)
    requires
        v.state == SnifferState::Ground,
        payload.len() <= 65536,
        forall|i: int|
            0 <= i < payload.len() ==> #[trigger] payload[i] != 0x07 && payload[i] != 0x9C
                && payload[i] != 0x1B,
        start == seq![0x1Bu8, 0x5Du8] || start == seq![0x9Du8],
        end == seq![0x07u8] || end == seq![0x9Cu8] || end == seq![0x1Bu8, 0x5Cu8],
    ensures
        ({
            let after = sniff(v, start + payload + end);
            &&& after.state == SnifferState::Ground
            &&& valid_utf8(payload) && osc_event(decode_utf8(payload)) is Some ==> after.events
                == v.events.push(osc_event(decode_utf8(payload))->0)
            &&& !(valid_utf8(payload) && osc_event(decode_utf8(payload)) is Some) ==> after.events
                == v.events
        }),
{
    reveal_with_fuel(sniff, 3);
    assert(seq![0x1Bu8, 0x5Du8].drop_last() =~= seq![0x1Bu8]);
    assert(seq![0x1Bu8, 0x5Cu8].drop_last() =~= seq![0x1Bu8]);
    assert(seq![0x1Bu8].drop_last() =~= Seq::<u8>::empty());
    assert(seq![0x9Du8].drop_last() =~= Seq::<u8>::empty());
    assert(seq![0x07u8].drop_last() =~= Seq::<u8>::empty());
    assert(seq![0x9Cu8].drop_last() =~= Seq::<u8>::empty());
    let started = sniff(v, start);
    assert(started == start_payload(v));
    law_sniffing_ignores_chunk_boundaries(v, start, payload);
    law_sniffing_ignores_chunk_boundaries(v, start + payload, end);
    lemma_payload_fills(started, payload);
    assert(started.buf + payload =~= payload);
}

/// A bell outside of a payload is a bell, and a payload that an escape breaks off
/// says nothing.
pub proof fn law_bells_and_broken_payloads(v: SnifferView, payload: Seq<u8>, b: u8)
    requires
        v.state == SnifferState::Ground,
        b != 0x5C,
        forall|i: int|
            0 <= i < payload.len() ==> #[trigger] payload[i] != 0x07 && payload[i] != 0x9C
                && payload[i] != 0x1B,
    ensures
        sniff(v, seq![0x07u8]).events == v.events.push(EventView::Bell),
        sniff(v, seq![0x07u8]).state == SnifferState::Ground,
        sniff(v, seq![0x9Du8] + payload + seq![0x1Bu8, b]).events == v.events,
        sniff(v, seq![0x9Du8] + payload + seq![0x1Bu8, b]).state == SnifferState::Ground,
{
    reveal_with_fuel(sniff, 3);
    let start = seq![0x9Du8];
    let end = seq![0x1Bu8, b];
    assert(end.drop_last() =~= seq![0x1Bu8]);
    assert(seq![0x1Bu8].drop_last() =~= Seq::<u8>::empty());
    assert(start.drop_last() =~= Seq::<u8>::empty());
    assert(seq![0x07u8].drop_last() =~= Seq::<u8>::empty());
    let started = sniff(v, start);
    law_sniffing_ignores_chunk_boundaries(v, start, payload);
    law_sniffing_ignores_chunk_boundaries(v, start + payload, end);
    lemma_payload_fills(started, payload);
}

/// Behind an escape only a bracket opens a payload, another escape waits for one
/// still, and anything else is no news.
pub proof fn law_an_escape_waits_for_its_bracket(v: SnifferView, b: u8)
    requires
        v.state is Escape,
    ensures
        b == 0x5D <==> sniff_byte(v, b).state is Osc,
        b == 0x1B <==> sniff_byte(v, b).state is Escape,
        b != 0x5D && b != 0x1B <==> sniff_byte(v, b).state is Ground,
        sniff_byte(v, b).events == v.events,
        b == 0x5D ==> sniff_byte(v, b).buf.len() == 0 && !sniff_byte(v, b).overflown,
{
}

} // verus!
