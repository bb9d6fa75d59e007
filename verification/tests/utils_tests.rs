use fast_discord_tui::proxy::utils::{
    extract_channel_id, format_count_response, generate_next_count_response,
    generate_snowflake_nonce, parse_leading_number, snowflake_nonce, DISCORD_EPOCH_MS,
};

#[test]
fn channel_id_from_raw_id() {
    assert_eq!(extract_channel_id("123456789012345678"), "123456789012345678");
}

#[test]
fn channel_id_from_guild_link() {
    assert_eq!(
        extract_channel_id("https://discord.com/channels/111111/222222333333444444"),
        "222222333333444444"
    );
}

#[test]
fn channel_id_from_direct_message_link() {
    assert_eq!(
        extract_channel_id("https://canary.discord.com/channels/@me/222222333333444444"),
        "222222333333444444"
    );
}

#[test]
fn channel_id_ignores_trailing_slashes_and_spaces() {
    assert_eq!(extract_channel_id("  https://discord.com/channels/1/987//  "), "987");
}

#[test]
fn channel_id_falls_back_to_all_digits() {
    // The last segment holds no digit: every digit of the input is kept.
    assert_eq!(extract_channel_id("a1/b2/xyz"), "12");
    assert_eq!(extract_channel_id("///"), "");
    assert_eq!(extract_channel_id("  12 34 "), "1234");
    assert_eq!(extract_channel_id(""), "");
}

#[test]
fn channel_id_is_stable() {
    let once = extract_channel_id("https://discord.com/channels/111/222");
    assert_eq!(extract_channel_id(&once), once);
}

#[test]
fn leading_number_examples() {
    assert_eq!(parse_leading_number("1243 nice great"), Some(1243));
    assert_eq!(parse_leading_number("123a"), Some(123));
    assert_eq!(parse_leading_number("123withanything"), Some(123));
    assert_eq!(parse_leading_number("hello 12"), None);
    assert_eq!(parse_leading_number(""), None);
}

#[test]
fn leading_number_skips_spaces_and_underscores() {
    assert_eq!(parse_leading_number("  _ _42_7"), Some(42));
    assert_eq!(parse_leading_number("\t\n 7\n"), Some(7));
    assert_eq!(parse_leading_number("__"), None);
    assert_eq!(parse_leading_number("0007"), Some(7));
}

#[test]
fn leading_number_out_of_range() {
    assert_eq!(parse_leading_number("9223372036854775807"), Some(i64::MAX));
    assert_eq!(parse_leading_number("9223372036854775808"), None);
    assert_eq!(parse_leading_number("99999999999999999999999 x"), None);
}

#[test]
fn next_count_examples() {
    assert_eq!(generate_next_count_response("1243 nice"), Some("1244".to_string()));
    assert_eq!(generate_next_count_response("1243 gg"), Some("1244 ggs!".to_string()));
    assert_eq!(generate_next_count_response("1243 GG wp"), Some("1244 ggs!".to_string()));
    assert_eq!(generate_next_count_response("9 gG"), Some("10 ggs!".to_string()));
    assert_eq!(generate_next_count_response("5 g g"), Some("6".to_string()));
    assert_eq!(generate_next_count_response("no number"), None);
}

#[test]
fn next_count_reply_reads_back() {
    let reply = generate_next_count_response("41 gg").unwrap();
    assert_eq!(parse_leading_number(&reply), Some(42));
}

#[test]
fn count_response_formats_negative_numbers() {
    assert_eq!(format_count_response(-5, "x"), "-5");
    assert_eq!(format_count_response(i64::MIN, "gg"), "-9223372036854775808 ggs!");
    assert_eq!(format_count_response(0, "ggg"), "0 ggs!");
}

#[test]
fn snowflake_layout() {
    // 1000 ms after the Discord epoch, increment 5.
    let expected: u64 = (1000u64 << 22) | (1 << 17) | (1 << 12) | 5;
    assert_eq!(snowflake_nonce(DISCORD_EPOCH_MS + 1000, 5), expected.to_string());
    // Before the epoch the time part is 0.
    let early: u64 = (1 << 17) | (1 << 12) | 4095;
    assert_eq!(snowflake_nonce(0, 4095), early.to_string());
}

#[test]
fn generated_nonce_has_worker_and_process_bits() {
    let nonce: u64 = generate_snowflake_nonce().parse().unwrap();
    assert_eq!((nonce >> 12) & 0b11111_11111, (1 << 5) | 1);
    assert!(nonce >> 22 > 0);
}
