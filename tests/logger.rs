use cute_log::console::Channel;
use cute_log::logger::{Level, Logger};

#[test]
fn channels_by_level() {
    assert_eq!(Logger::channel(Level::Error), Channel::Error);
    assert_eq!(Logger::channel(Level::Warn), Channel::Warn);
    assert_eq!(Logger::channel(Level::Info), Channel::Info);
    assert_eq!(Logger::channel(Level::Debug), Channel::Debug);
    assert_eq!(Logger::channel(Level::Trace), Channel::Debug);
}

#[test]
fn labels_are_five_wide() {
    assert_eq!(Logger::label(Level::Error), "ERROR");
    assert_eq!(Logger::label(Level::Warn), "WARN ");
    assert_eq!(Logger::label(Level::Info), "INFO ");
    assert_eq!(Logger::label(Level::Debug), "DEBUG");
    assert_eq!(Logger::label(Level::Trace), "TRACE");
}

#[test]
fn renders_one_line() {
    let (ch, chunks) = Logger::render(Level::Info, Some("src/main.rs"), Some(42), "it works!");
    assert_eq!(ch, Channel::Info);
    assert_eq!(chunks, vec!["INFO  {src/main.rs:42} - it works!".to_string()]);
}

#[test]
fn missing_location_defaults() {
    let (ch, chunks) = Logger::render(Level::Trace, None, None, "x");
    assert_eq!(ch, Channel::Debug);
    assert_eq!(chunks, vec!["TRACE {UNKNOWN:0} - x".to_string()]);
}

#[test]
fn large_line_number() {
    let (_, chunks) = Logger::render(Level::Warn, Some("a.rs"), Some(4294967295), "m");
    assert_eq!(chunks, vec!["WARN  {a.rs:4294967295} - m".to_string()]);
}

#[test]
fn long_message_goes_in_its_own_chunk() {
    let message = "m".repeat(4090);
    let (ch, chunks) = Logger::render(Level::Error, Some("f"), Some(1234), &message);
    assert_eq!(ch, Channel::Error);
    assert_eq!(chunks, vec!["ERROR {f:1234} - ".to_string(), message]);
}

#[test]
fn stream_empty_pieces() {
    assert!(Logger::stream(&vec![]).is_empty());
    assert!(Logger::stream(&vec!["", ""]).is_empty());
}

#[test]
fn stream_collects_in_order() {
    let a = "a".repeat(3000);
    let b = "b".repeat(2000);
    let chunks = Logger::stream(&vec![a.as_str(), b.as_str(), "c"]);
    assert_eq!(chunks, vec![a.clone(), format!("{}c", b)]);
}

#[test]
fn clip_keeps_text_that_fits() {
    assert_eq!(cute_log::logger::clip("hello", 5), "hello");
    assert_eq!(cute_log::logger::clip("", 0), "");
}

#[test]
fn clip_cuts_at_a_char_boundary() {
    assert_eq!(cute_log::logger::clip("hello", 3), "hel");
    // "é" takes bytes 1..3, so a cut at 2 falls back to 1.
    assert_eq!(cute_log::logger::clip("aéb", 2), "a");
    assert_eq!(cute_log::logger::clip("aéb", 3), "aé");
}

#[test]
fn clip_oversized_fragment_to_capacity() {
    let big = "x".repeat(5000);
    let cut = cute_log::logger::clip(&big, cute_log::console::BUFFER_CAPACITY);
    assert_eq!(cut.len(), 4096);
    let (_, chunks) = Logger::render(Level::Info, None, None, cut);
    assert_eq!(chunks.len(), 2);
    assert_eq!(chunks[1], cut);
}
