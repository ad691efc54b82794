use rusty_pee::capture::capture_output;

#[test]
fn captured_outputs_in_argv_order_with_separator() {
    let out = capture_output(&vec![b"alpha".to_vec(), b"bravo".to_vec()]);
    assert_eq!(out, b"alpha\nbravo\n");
}

#[test]
fn capture_keeps_existing_line_feed() {
    let out = capture_output(&vec![b"alpha\n".to_vec(), b"bravo\ncharlie".to_vec()]);
    assert_eq!(out, b"alpha\nbravo\ncharlie\n");
}

#[test]
fn capture_silent_child_emits_nothing() {
    let out = capture_output(&vec![b"visible".to_vec(), Vec::new(), b"after".to_vec()]);
    assert_eq!(out, b"visible\nafter\n");
}

#[test]
fn capture_of_no_output_is_empty() {
    assert!(capture_output(&vec![]).is_empty());
    assert!(capture_output(&vec![Vec::new(), Vec::new()]).is_empty());
}

#[test]
fn capture_binary_bytes_untouched() {
    let out = capture_output(&vec![vec![0u8, 255, 10, 7]]);
    assert_eq!(out, vec![0u8, 255, 10, 7, 10]);
}
