use maccleanup::bytes::bytes_contains;
use maccleanup::bytes::bytes_eq;
use maccleanup::bytes::bytes_starts_with;
use maccleanup::bytes::last_field_u64;

#[test]
fn last_field_reads_a_page_counter_line() {
    assert_eq!(last_field_u64(&b"Pages inactive:               378832.".to_vec()), 378832);
    assert_eq!(last_field_u64(&b"Pages free:  1.".to_vec()), 1);
}

#[test]
fn last_field_takes_the_final_token() {
    assert_eq!(last_field_u64(&b"one 2 three 44.".to_vec()), 44);
    assert_eq!(last_field_u64(&b"hw.memsize: 17179869184".to_vec()), 17179869184);
    assert_eq!(last_field_u64(&b"  12345  ".to_vec()), 12345);
}

#[test]
fn last_field_trims_every_trailing_dot() {
    assert_eq!(last_field_u64(&b"count 42...".to_vec()), 42);
    assert_eq!(last_field_u64(&b"....".to_vec()), 0);
}

#[test]
fn unreadable_fields_count_as_zero() {
    assert_eq!(last_field_u64(&b"".to_vec()), 0);
    assert_eq!(last_field_u64(&b"   \t\n".to_vec()), 0);
    assert_eq!(last_field_u64(&b"pages abc".to_vec()), 0);
    assert_eq!(last_field_u64(&b"pages 12a3".to_vec()), 0);
    // Past the counter's range.
    assert_eq!(last_field_u64(&b"pages 99999999999999999999999999".to_vec()), 0);
    assert_eq!(last_field_u64(&b"exact 18446744073709551615".to_vec()), u64::MAX);
    assert_eq!(last_field_u64(&b"over 18446744073709551616".to_vec()), 0);
}

#[test]
fn byte_string_helpers() {
    assert!(bytes_eq(&b"node_modules".to_vec(), &b"node_modules".to_vec()));
    assert!(!bytes_eq(&b"node_modules".to_vec(), &b"node_module".to_vec()));
    assert!(bytes_starts_with(&b"/System/Library".to_vec(), &b"/System".to_vec()));
    assert!(!bytes_starts_with(&b"/Sys".to_vec(), &b"/System".to_vec()));
}

#[test]
fn contains_finds_a_label_anywhere_in_a_line() {
    let line = b"Pages inactive:               378832.".to_vec();
    assert!(bytes_contains(&line, &b"Pages inactive:".to_vec()));
    assert!(bytes_contains(&line, &b"inactive".to_vec()));
    assert!(bytes_contains(&line, &b"".to_vec()));
    assert!(!bytes_contains(&line, &b"Pages active:".to_vec()));
    assert!(!bytes_contains(&b"short".to_vec(), &b"much longer pattern".to_vec()));
}
