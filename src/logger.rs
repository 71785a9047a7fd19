use vstd::prelude::*;
use vstd::utf8::*;
use std::io::Write;

use crate::console::{Channel, Console, BUFFER_CAPACITY};
use crate::model::byte_len;
use crate::stream::{delivered, finished, lemma_feed_matches_write, pending_after};

verus! {

broadcast use vstd::utf8::group_utf8_lib;

/// Severity of a log event, from most to least severe.
#[derive(Clone, Copy, Debug, PartialEq, Eq, Structural)]
pub enum Level {
    Error,
    Warn,
    Info,
    Debug,
    Trace,
}

/// The channel that events of `level` go to: trace shares the debug channel.
pub open spec fn channel_of(level: Level) -> Channel {
    match level {
        Level::Error => Channel::Error,
        Level::Warn => Channel::Warn,
        Level::Info => Channel::Info,
        Level::Debug => Channel::Debug,
        Level::Trace => Channel::Debug,
    }
}

/// The level's name, left-aligned in five columns.
pub open spec fn level_label(level: Level) -> Seq<char> {
    match level {
        Level::Error => seq!['E', 'R', 'R', 'O', 'R'],
        Level::Warn => seq!['W', 'A', 'R', 'N', ' '],
        Level::Info => seq!['I', 'N', 'F', 'O', ' '],
        Level::Debug => seq!['D', 'E', 'B', 'U', 'G'],
        Level::Trace => seq!['T', 'R', 'A', 'C', 'E'],
    }
}

/// The decimal digit for `d < 10`.
pub open spec fn digit(d: nat) -> char {
    seq!['0', '1', '2', '3', '4', '5', '6', '7', '8', '9'][d as int]
}

/// The decimal notation of `n`, without leading zeros.
pub open spec fn decimal(n: nat) -> Seq<char>
    decreases n,
{
    if n < 10 {
        seq![digit(n)]
    } else {
        decimal(n / 10).push(digit(n % 10))
    }
}

/// The color a level is highlighted with on a terminal.
#[derive(Clone, Copy, Debug, PartialEq, Eq, Structural)]
pub enum Tint {
    Red,
    Yellow,
    Green,
    Cyan,
    Blue,
}

/// The file shown when an event carries none.
pub open spec fn unknown_file() -> Seq<char> {
    seq!['U', 'N', 'K', 'N', 'O', 'W', 'N']
}

/// The fragments, in order, that make up the line `<level> {<file>:<line>} - <message>`.
pub open spec fn line_pieces(level: Level, file: Seq<char>, line: nat, message: Seq<char>) -> Seq<
    Seq<char>,
> {
    seq![
        level_label(level),
        seq![' ', '{'],
        file,
        seq![':'],
        decimal(line),
        seq!['}', ' ', '-', ' '],
        message,
    ]
}

/// The characters of each string.
pub open spec fn strings(v: Seq<String>) -> Seq<Seq<char>> {
    v.map_values(|s: String| s@)
}

/// The characters of each string slice.
pub open spec fn texts(v: Seq<&str>) -> Seq<Seq<char>> {
    v.map_values(|s: &str| s@)
}

/// Relies on the `Display` impl of `u32` behind `to_string`: plain decimal
/// notation without sign or leading zeros.
#[verifier::external_body]
fn decimal_text(n: u32) -> (r: String)
    ensures
        r@ == decimal(n as nat),
{
    n.to_string()
}

proof fn lemma_decimal_short(n: nat, k: nat, p: nat)
    requires
        1 <= k,
        n < p,
        p <= pow10(k),
    ensures
        decimal(n).len() <= k,
        is_ascii_chars(decimal(n)),
    decreases n,
{
    if n >= 10 {
        assert(k >= 2) by {
            if k == 1 {
                assert(pow10(1) == 10) by {
                    reveal_with_fuel(pow10, 2);
                }
            }
        }
        assert(pow10(k) == 10 * pow10((k - 1) as nat));
        assert(n / 10 < pow10((k - 1) as nat)) by (nonlinear_arith)
            requires
                n < p,
                p <= 10 * pow10((k - 1) as nat),
        ;
        lemma_decimal_short(n / 10, (k - 1) as nat, pow10((k - 1) as nat));
    }
}

/// Ten to the power `k`.
pub open spec fn pow10(k: nat) -> nat
    decreases k,
{
    if k == 0 {
        1
    } else {
        10 * pow10((k - 1) as nat)
    }
}

#[verifier::external_type_specification]
#[verifier::external_body]
pub struct ExRecord<'a>(log::Record<'a>);

#[verifier::external_type_specification]
#[verifier::external_body]
pub struct ExMetadata<'a>(log::Metadata<'a>);

#[verifier::external_type_specification]
#[verifier::external_body]
pub struct ExSetLoggerError(log::SetLoggerError);

/// Relies on log::set_logger: installs the global logger once; later calls fail.
#[verifier::external_body]
fn install() -> (r: Result<(), log::SetLoggerError>) {
    log::set_logger(&Logger)
}

/// Relies on log::Record::level: the event's level, variant for variant.
#[verifier::external_body]
fn record_level(record: &log::Record) -> (r: Level) {
    match record.level() {
        log::Level::Error => Level::Error,
        log::Level::Warn => Level::Warn,
        log::Level::Info => Level::Info,
        log::Level::Debug => Level::Debug,
        log::Level::Trace => Level::Trace,
    }
}

/// Relies on log::Record::file: the source file, when the event has one.
#[verifier::external_body]
fn record_file<'a>(record: &log::Record<'a>) -> (r: Option<&'a str>) {
    record.file()
}

/// Relies on log::Record::line: the source line, when the event has one.
#[verifier::external_body]
fn record_line(record: &log::Record) -> (r: Option<u32>) {
    record.line()
}

/// Relies on log::Record::args: the event's message, formatted.
#[verifier::external_body]
fn record_message(record: &log::Record) -> (r: String) {
    format!("{}", record.args())
}

/// Relies on std's standard output: sends one chunk as one line.
#[verifier::external_body]
fn emit(text: &str) {
    let _ = writeln!(std::io::stdout().lock(), "{}", text);
}

/// The longest prefix of `text` that ends on a character boundary and has at
/// most `max` bytes.
pub fn clip(text: &str, max: usize) -> (r: &str)
    ensures
        byte_len(text@) <= max ==> r@ == text@,
        byte_len(r@) <= max,
        encode_utf8(r@) == encode_utf8(text@).subrange(0, byte_len(r@) as int),
        forall|k: int|
            byte_len(r@) < k <= max && k <= byte_len(text@) ==> !is_char_boundary(
                encode_utf8(text@),
                k,
            ),
{
    let n = text.as_bytes().len();
    if n <= max {
        return text;
    }
    let ghost bytes = encode_utf8(text@);
    let mut mid = max;
    while !text.is_char_boundary(mid)
        invariant
            mid <= max < bytes.len(),
            bytes == encode_utf8(text@),
            forall|k: int| mid < k <= max ==> !is_char_boundary(bytes, k),
        decreases mid,
    {
        proof {
            is_char_boundary_start_end_of_seq(bytes);
        }
        mid = mid - 1;
    }
    let (head, _) = text.split_at(mid);
    head
}

/// Sets the global logger.
pub fn init() -> (r: Result<(), log::SetLoggerError>) {
    install()
}

impl log::Log for Logger {
    fn enabled(&self, _metadata: &log::Metadata) -> bool {
        true
    }

    fn log(&self, record: &log::Record) {
        Logger::print(record);
    }

    fn flush(&self) {
    }
}

/// The unit logger: it renders each event as one line and streams it
/// through a bounded sink.
pub struct Logger;

impl Logger {
    /// The channel for events of `level`.
    pub fn channel(level: Level) -> (r: Channel)
        ensures
            r == channel_of(level),
    {
        match level {
            Level::Error => Channel::Error,
            Level::Warn => Channel::Warn,
            Level::Info => Channel::Info,
            Level::Debug => Channel::Debug,
            Level::Trace => Channel::Debug,
        }
    }

    /// The color for events of `level`.
    pub fn tint(level: Level) -> (r: Tint)
        ensures
            r == match level {
                Level::Error => Tint::Red,
                Level::Warn => Tint::Yellow,
                Level::Info => Tint::Green,
                Level::Debug => Tint::Cyan,
                Level::Trace => Tint::Blue,
            },
    {
        match level {
            Level::Error => Tint::Red,
            Level::Warn => Tint::Yellow,
            Level::Info => Tint::Green,
            Level::Debug => Tint::Cyan,
            Level::Trace => Tint::Blue,
        }
    }

    /// The level's name, left-aligned in five columns.
    pub fn label(level: Level) -> (r: &'static str)
        ensures
            r@ == level_label(level),
    {
        match level {
            Level::Error => {
                proof {
                    reveal_strlit("ERROR");
                }
                "ERROR"
            },
            Level::Warn => {
                proof {
                    reveal_strlit("WARN ");
                }
                "WARN "
            },
            Level::Info => {
                proof {
                    reveal_strlit("INFO ");
                }
                "INFO "
            },
            Level::Debug => {
                proof {
                    reveal_strlit("DEBUG");
                }
                "DEBUG"
            },
            Level::Trace => {
                proof {
                    reveal_strlit("TRACE");
                }
                "TRACE"
            },
        }
    }

    /// Prints one event: each chunk of its rendered line goes out as one
    /// line. A file name or message longer than the buffer is cut to fit.
    pub fn print(record: &log::Record) {
        let level = record_level(record);
        let file = match record_file(record) {
            Some(f) => Some(clip(f, BUFFER_CAPACITY)),
            None => None,
        };
        let line = record_line(record);
        let message = record_message(record);
        let (_channel, chunks) = Logger::render(level, file, line, clip(message.as_str(), BUFFER_CAPACITY));
        let mut i: usize = 0;
        while i < chunks.len()
            invariant
                i <= chunks@.len(),
            decreases chunks@.len() - i,
        {
            emit(chunks[i].as_str());
            i = i + 1;
        }
    }

    /// Writes `pieces` one by one into a fresh sink of `BUFFER_CAPACITY`
    /// bytes and ends with a flush of whatever remains; returns every chunk
    /// the sink handed out, in order.
    pub fn stream(pieces: &Vec<&str>) -> (r: Vec<String>)
        requires
            forall|j: int| 0 <= j < pieces@.len() ==> byte_len(#[trigger] pieces@[j]@) <= BUFFER_CAPACITY,
        ensures
            strings(r@) == finished(BUFFER_CAPACITY as nat, texts(pieces@)),
    {
        let ghost cap = BUFFER_CAPACITY as nat;
        let ghost all = texts(pieces@);
        let mut console = Console::new(Channel::Info);
        let mut out: Vec<String> = Vec::new();
        let mut i: usize = 0;
        assert(all.take(0) =~= Seq::<Seq<char>>::empty());
        assert(strings(out@) =~= delivered(cap, all.take(0)));
        while i < pieces.len()
            invariant
                i <= pieces@.len(),
                all == texts(pieces@),
                cap == BUFFER_CAPACITY,
                console.wf(),
                console.capacity() == cap,
                forall|j: int| 0 <= j < pieces@.len() ==> byte_len(#[trigger] pieces@[j]@) <= BUFFER_CAPACITY,
                strings(out@) == delivered(cap, all.take(i as int)),
                console.pending() == pending_after(cap, all.take(i as int)),
            decreases pieces@.len() - i,
        {
            let piece = pieces[i];
            proof {
                lemma_feed_matches_write(cap, all.take(i as int), piece@);
                assert(all.take(i as int).push(piece@) =~= all.take(i + 1));
            }
            match console.write_text(piece) {
                Some(c) => {
                    out.push(c);
                    assert(strings(out@) =~= delivered(cap, all.take(i + 1)));
                },
                None => {},
            }
            i = i + 1;
        }
        assert(all.take(i as int) =~= all);
        match console.last_flush() {
            Some(c) => {
                out.push(c);
                assert(strings(out@) =~= finished(cap, all));
            },
            None => {},
        }
        out
    }

    /// Renders one event as `<level> {<file>:<line>} - <message>`, with
    /// `UNKNOWN` for a missing file and `0` for a missing line, and streams it
    /// through a sink; returns the channel for the event and the chunks to
    /// send there, in order.
    pub fn render(level: Level, file: Option<&str>, line: Option<u32>, message: &str) -> (r: (
        Channel,
        Vec<String>,
    ))
        requires
            file matches Some(f) ==> byte_len(f@) <= BUFFER_CAPACITY,
            byte_len(message@) <= BUFFER_CAPACITY,
        ensures
            r.0 == channel_of(level),
            strings(r.1@) == finished(
                BUFFER_CAPACITY as nat,
                line_pieces(
                    level,
                    match file {
                        Some(f) => f@,
                        None => unknown_file(),
                    },
                    match line {
                        Some(n) => n as nat,
                        None => 0,
                    },
                    message@,
                ),
            ),
    {
        let file_text: &str = match file {
            Some(f) => f,
            None => {
                proof {
                    reveal_strlit("UNKNOWN");
                    assert("UNKNOWN"@ =~= unknown_file());
                    assert(is_ascii_chars(unknown_file()));
                    assert(byte_len(unknown_file()) == 7);
                }
                "UNKNOWN"
            },
        };
        let line_number: u32 = match line {
            Some(n) => n,
            None => 0,
        };
        let number = decimal_text(line_number);
        proof {
            reveal_strlit(" {");
            reveal_strlit(":");
            reveal_strlit("} - ");
            assert(pow10(10) > u32::MAX) by {
                reveal_with_fuel(pow10, 11);
            }
            lemma_decimal_short(line_number as nat, 10, pow10(10));
            assert(" {"@ =~= seq![' ', '{']);
            assert(":"@ =~= seq![':']);
            assert("} - "@ =~= seq!['}', ' ', '-', ' ']);
        }
        let pieces: Vec<&str> = vec![
            Logger::label(level),
            " {",
            file_text,
            ":",
            number.as_str(),
            "} - ",
            message,
        ];
        proof {
            assert(pieces@.len() == 7);
            assert(texts(pieces@) =~= line_pieces(level, file_text@, line_number as nat, message@));
            assert forall|j: int| 0 <= j < pieces@.len() implies byte_len(
                #[trigger] pieces@[j]@,
            ) <= BUFFER_CAPACITY by {
                assert(pieces@[j]@ == texts(pieces@)[j]);
                let x = pieces@[j]@;
                if j == 0 {
                    assert(is_ascii_chars(level_label(level)));
                } else if j == 4 {
                    assert(is_ascii_chars(x));
                } else if j != 2 && j != 6 {
                    assert(is_ascii_chars(x));
                }
            }
        }
        let chunks = Logger::stream(&pieces);
        (Logger::channel(level), chunks)
    }
}

} // verus!
