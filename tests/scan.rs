use decode_bench::bench::run;
use decode_bench::scan::{next_cursor, scan, ScanCounts};

#[test]
fn one_instruction_then_invalid_byte() {
    // xor eax, eax (two bytes), then 0x06, which is no instruction in 64-bit mode
    let code = [0x31u8, 0xc0, 0x06];
    assert_eq!(scan(&code), ScanCounts { decoded: 1, skipped: 1 });
    let r = run(&code, 1);
    assert_eq!(r.decoded, 1);
    assert_eq!(r.skipped, 1);
}

#[test]
fn five_invalid_bytes_twice() {
    let code = [0x06u8; 5];
    assert_eq!(scan(&code), ScanCounts { decoded: 0, skipped: 5 });
    let r = run(&code, 2);
    assert_eq!(r.decoded, 0);
    assert_eq!(r.skipped, 10);
}

#[test]
fn empty_buffer_many_repetitions() {
    let r = run(&[], 1000);
    assert_eq!(r.decoded, 0);
    assert_eq!(r.skipped, 0);
}

#[test]
fn empty_buffer_single_scan() {
    assert_eq!(scan(&[]), ScanCounts { decoded: 0, skipped: 0 });
}

#[test]
fn zero_repetitions_make_no_attempts() {
    let code = [0x90u8, 0x06, 0xc3];
    let r = run(&code, 0);
    assert_eq!(r.decoded, 0);
    assert_eq!(r.skipped, 0);
}

#[test]
fn repetitions_repeat_one_scan() {
    let code = [0x48u8, 0x89, 0xe5, 0x06, 0x90, 0x0f];
    let one = scan(&code);
    assert_eq!(one, ScanCounts { decoded: 2, skipped: 2 });
    let r = run(&code, 3);
    assert_eq!(r.decoded, 3 * one.decoded as u128);
    assert_eq!(r.skipped, 3 * one.skipped as u128);
}

#[test]
fn decoded_lengths_move_the_cursor() {
    // mov rbp, rsp (three bytes) then ret: two instructions, nothing skipped
    assert_eq!(scan(&[0x48, 0x89, 0xe5, 0xc3]), ScanCounts { decoded: 2, skipped: 0 });
    // two one-byte nops
    assert_eq!(scan(&[0x90, 0x90]), ScanCounts { decoded: 2, skipped: 0 });
}

#[test]
fn truncated_instruction_is_skipped_byte_by_byte() {
    // mov without its ModRM byte, then the lone opcode byte
    assert_eq!(scan(&[0x48, 0x89]), ScanCounts { decoded: 0, skipped: 2 });
    assert_eq!(scan(&[0x0f]), ScanCounts { decoded: 0, skipped: 1 });
}

#[test]
fn failure_advances_by_one() {
    assert_eq!(next_cursor(2, None), 3);
    assert_eq!(next_cursor(0, None), 1);
}

#[test]
fn success_advances_by_length() {
    assert_eq!(next_cursor(0, Some(2)), 2);
    assert_eq!(next_cursor(7, Some(15)), 22);
}

#[test]
fn zero_length_success_advances_by_one() {
    assert_eq!(next_cursor(5, Some(0)), 6);
}

#[test]
fn advance_past_usize_max_is_held() {
    assert_eq!(next_cursor(usize::MAX - 1, Some(10)), usize::MAX);
}
