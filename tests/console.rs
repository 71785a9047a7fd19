use cute_log::console::{Channel, Console, BUFFER_CAPACITY};

fn concat(parts: &[String]) -> String {
    let mut all = String::new();
    for p in parts {
        all.push_str(p);
    }
    all
}

#[test]
fn new_sink_is_empty() {
    let mut c = Console::new(Channel::Warn);
    assert_eq!(c.len(), 0);
    assert_eq!(c.buffer_capacity(), BUFFER_CAPACITY);
    assert_eq!(c.destination(), Channel::Warn);
    assert_eq!(c.last_flush(), None);
}

#[test]
fn capacity_ten_scenario() {
    let mut c = Console::with_capacity(Channel::Info, 10);
    assert_eq!(c.write_text("ab"), None);
    assert_eq!(c.write_text("cdefg"), None);
    assert_eq!(c.len(), 7);
    // 7 + 3 reaches the capacity, so the buffer is flushed before "hij".
    assert_eq!(c.write_text("hij"), Some("abcdefg".to_string()));
    assert_eq!(c.write_text("k"), None);
    assert_eq!(c.len(), 4);
    assert_eq!(c.last_flush(), Some("hijk".to_string()));
    assert_eq!(c.len(), 0);
}

#[test]
fn flush_before_the_write_that_overflows() {
    let mut c = Console::with_capacity(Channel::Info, 10);
    assert_eq!(c.write_text("abcdefgh"), None);
    assert_eq!(c.write_text("ijk"), Some("abcdefgh".to_string()));
    assert_eq!(c.last_flush(), Some("ijk".to_string()));
}

#[test]
fn writes_below_capacity_reach_one_final_flush() {
    let mut c = Console::with_capacity(Channel::Debug, 16);
    for w in ["one ", "two ", "three"] {
        assert_eq!(c.write_text(w), None);
    }
    assert_eq!(c.last_flush(), Some("one two three".to_string()));
}

#[test]
fn splitting_is_lossless_and_bounded() {
    let writes = ["alpha", "beta", "gamma", "delta", "epsilon", "zeta", "eta", "theta"];
    let mut c = Console::with_capacity(Channel::Error, 12);
    let mut out: Vec<String> = Vec::new();
    for w in writes {
        if let Some(chunk) = c.write_text(w) {
            out.push(chunk);
        }
    }
    if let Some(chunk) = c.last_flush() {
        out.push(chunk);
    }
    assert_eq!(concat(&out), writes.concat());
    assert!(out.iter().all(|s| s.len() <= 12));
    assert_eq!(out, vec!["alphabeta", "gammadelta", "epsilonzeta", "etatheta"]);
}

#[test]
fn multibyte_writes_stay_whole() {
    let mut c = Console::with_capacity(Channel::Info, 8);
    assert_eq!(c.write_text("é"), None);
    assert_eq!(c.write_text("ü€"), None);
    assert_eq!(c.len(), 7);
    assert_eq!(c.write_text("日"), Some("éü€".to_string()));
    assert_eq!(c.len(), 3);
    assert_eq!(c.last_flush(), Some("日".to_string()));
}

#[test]
fn explicit_flush_empties_the_buffer() {
    let mut c = Console::with_capacity(Channel::Info, 32);
    c.write_text("pending");
    assert_eq!(c.flush(), "pending");
    assert_eq!(c.len(), 0);
    assert_eq!(c.flush(), "");
    assert_eq!(c.last_flush(), None);
}

#[test]
fn write_of_exactly_capacity_into_empty_sink() {
    let mut c = Console::with_capacity(Channel::Info, 4);
    assert_eq!(c.write_text("abcd"), Some(String::new()));
    assert_eq!(c.len(), 4);
    assert_eq!(c.last_flush(), Some("abcd".to_string()));
}

#[test]
fn oversized_fragment_is_cut_and_flushed_once() {
    let big = "y".repeat(5000);
    let mut c = Console::new(Channel::Info);
    let cut = cute_log::logger::clip(&big, c.buffer_capacity());
    assert_eq!(cut.len(), BUFFER_CAPACITY);
    // Nothing was buffered, so the flush before the append hands out nothing.
    assert_eq!(c.write_text(cut), Some(String::new()));
    assert_eq!(c.len(), BUFFER_CAPACITY);
    let last = c.last_flush().unwrap();
    assert_eq!(last.len(), 4096);
    assert_eq!(last, "y".repeat(4096));
}

#[test]
fn as_slice_holds_the_encoding() {
    let mut c = Console::with_capacity(Channel::Warn, 16);
    c.write_text("a€");
    assert_eq!(c.as_slice(), "a€".as_bytes());
}
