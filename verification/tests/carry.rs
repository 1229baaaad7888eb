use mdream::carry::CarryScanner;

#[test]
fn unfinished_quoted_tag_scans_only_appended_bytes() {
    let mut carry: Vec<u8> = b"<a title=\"".to_vec();
    let mut scanner = CarryScanner::new();
    scanner.reset(&carry);

    for _ in 0..32 * 1024 {
        carry.push(b'x');
        assert!(!scanner.advance(&carry));
        assert_eq!(scanner.scanned, carry.len());
    }

    carry.extend_from_slice(b"\">text");
    assert!(scanner.advance(&carry));
}

#[test]
fn oversized_numeric_entity_carry_is_compacted() {
    let mut carry: Vec<u8> = b"&#".to_vec();
    let mut scanner = CarryScanner::new();
    scanner.reset(&carry);
    for _ in 0..1024 {
        carry.push(b'9');
        assert!(!scanner.advance(&carry));
        scanner.compact_numeric(&mut carry);
        assert!(carry.len() <= 20);
    }
    carry.push(b';');
    assert!(!scanner.advance(&carry));
    carry.push(b' ');
    assert!(scanner.advance(&carry));
}
