use tcmalloc::align::check_power_of_two;
use tcmalloc::AllocRequest;
use tcmalloc::text::print_stats;

#[test]
fn decode_plain_ascii() {
    let raw = vec![0x68, 0x65, 0x6c, 0x6c, 0x6f, 0x00];
    assert_eq!(print_stats(&raw), "hello");
}

#[test]
fn decode_stops_at_first_nul() {
    let raw = vec![0x68, 0x69, 0x00, 0x6f, 0x6f, 0x00];
    assert_eq!(print_stats(&raw), "hi");
}

#[test]
fn decode_without_terminator_takes_all() {
    let raw = vec![0x41, 0x42];
    assert_eq!(print_stats(&raw), "AB");
}

#[test]
fn decode_empty_report() {
    assert_eq!(print_stats(&Vec::new()), "");
    assert_eq!(print_stats(&vec![0x00]), "");
}

#[test]
fn decode_multibyte_scalars() {
    let mut raw = "h\u{e9}llo \u{1f642}".as_bytes().to_vec();
    raw.push(0);
    assert_eq!(print_stats(&raw), "h\u{e9}llo \u{1f642}");
}

#[test]
fn decode_replaces_stray_byte() {
    let raw = vec![0xff, 0x41, 0x00];
    assert_eq!(print_stats(&raw), "\u{fffd}A");
}

#[test]
fn decode_replaces_overlong_encoding() {
    // 0xc0 0x80 is an overlong encoding of NUL and must not decode to NUL.
    let raw = vec![0xc0, 0x80, 0x00];
    assert_eq!(print_stats(&raw), "\u{fffd}\u{fffd}");
}

#[test]
fn decode_replaces_surrogate_encoding() {
    // 0xed 0xa0 0x80 would encode the surrogate U+D800.
    let raw = vec![0xed, 0xa0, 0x80, 0x00];
    assert_eq!(print_stats(&raw), "\u{fffd}\u{fffd}\u{fffd}");
}

#[test]
fn decode_replaces_truncated_scalar() {
    // A truncated three-byte encoding is one maximal subpart: one marker.
    let raw = vec![0xe2, 0x82];
    assert_eq!(print_stats(&raw), "\u{fffd}");
}

#[test]
fn decode_keeps_text_around_damage() {
    let raw = vec![0x6f, 0x6b, 0x20, 0xf0, 0x9f, 0x20, 0x6f, 0x6b, 0x00];
    // The 0xf0 0x9f pair starts a four-byte encoding that never completes:
    // together they are one maximal subpart, one marker.
    assert_eq!(print_stats(&raw), "ok \u{fffd} ok");
}

#[test]
fn decode_maximal_subpart_granularity() {
    // 0xe0 0xa0 could still have grown into a well-formed encoding: one
    // marker for the pair.
    assert_eq!(print_stats(&vec![0xe0, 0xa0]), "\u{fffd}");
    // 0xe0 0x80 could not (any completion would be overlong): one marker
    // for the lead, one for the stray continuation byte.
    assert_eq!(print_stats(&vec![0xe0, 0x80]), "\u{fffd}\u{fffd}");
    // Three good bytes of a four-byte encoding: still one subpart.
    assert_eq!(print_stats(&vec![0xf0, 0x9f, 0x92]), "\u{fffd}");
    // A lead whose smallest completion is beyond the last scalar.
    assert_eq!(print_stats(&vec![0xf5, 0x80, 0x41, 0x00]), "\u{fffd}\u{fffd}A");
}

#[test]
fn decode_never_fails_on_arbitrary_bytes() {
    // Every byte value once, in order: decoding must return some text.
    let mut raw = Vec::new();
    for b in 1..=255u8 {
        raw.push(b);
    }
    let s = print_stats(&raw);
    assert!(!s.is_empty());
}

#[test]
fn decode_agrees_with_std_lossy() {
    let mut cases: Vec<Vec<u8>> = vec![
        vec![0x68, 0x65, 0x6c, 0x6c, 0x6f],
        vec![0xff, 0x41],
        vec![0xc0, 0x80],
        vec![0xed, 0xa0, 0x80],
        vec![0xe2, 0x82],
        vec![0xe0, 0xa0],
        vec![0xe0, 0x80],
        vec![0xf0, 0x9f],
        vec![0xf0, 0x9f, 0x92],
        vec![0xf4, 0x90, 0x80, 0x80],
        vec![0xf5, 0x80, 0x41],
        vec![0x6f, 0x6b, 0x20, 0xf0, 0x9f, 0x20, 0x6f, 0x6b],
        "h\u{e9}llo \u{1f642}".as_bytes().to_vec(),
    ];
    // A deterministic sweep of NUL-free byte soup.
    let mut soup = Vec::new();
    for i in 0..4096usize {
        soup.push(((i * 31 + 7) % 255 + 1) as u8);
    }
    cases.push(soup);
    for raw in cases {
        let expected = String::from_utf8_lossy(&raw).to_string();
        assert_eq!(print_stats(&raw), expected);
    }
}

#[test]
fn power_of_two_check() {
    assert!(check_power_of_two(1));
    assert!(check_power_of_two(2));
    assert!(check_power_of_two(8));
    assert!(check_power_of_two(1024));
    assert!(!check_power_of_two(0));
    assert!(!check_power_of_two(3));
    assert!(!check_power_of_two(12));
}

#[test]
fn request_rejects_bad_alignment() {
    assert!(AllocRequest::from_size_align(8, 0).is_none());
    assert!(AllocRequest::from_size_align(8, 3).is_none());
    let req = AllocRequest::from_size_align(8, 16).unwrap();
    assert_eq!(req.size(), 8);
    assert_eq!(req.align(), 16);
}
