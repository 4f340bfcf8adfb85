use miniredis::decode;
use miniredis::decode_tokens;
use miniredis::parse_u64;
use miniredis::split_lines;
use miniredis::tokenize;
use miniredis::DecodeError;
use miniredis::RedisCommand;

fn toks(words: &[&str]) -> Vec<String> {
    words.iter().map(|w| w.to_string()).collect()
}

#[test]
fn decode_ping_framed() {
    assert_eq!(decode("*1\r\n$4\r\nPING\r\n"), Ok(RedisCommand::Ping));
}

#[test]
fn decode_echo_loose_framing() {
    assert_eq!(
        decode("$4\r\nECHO\r\n$5\r\nhello\r\n"),
        Ok(RedisCommand::Echo("hello".to_string()))
    );
}

#[test]
fn decode_is_case_insensitive() {
    assert_eq!(decode_tokens(&toks(&["ping"])), Ok(RedisCommand::Ping));
    assert_eq!(decode_tokens(&toks(&["PiNg"])), Ok(RedisCommand::Ping));
    assert_eq!(decode_tokens(&toks(&["PING"])), Ok(RedisCommand::Ping));
    assert_eq!(decode("*1\r\n$4\r\nping\r\n"), Ok(RedisCommand::Ping));
    assert_eq!(decode("*1\r\n$4\r\nPiNg\r\n"), Ok(RedisCommand::Ping));
}

#[test]
fn keys_and_values_keep_their_case() {
    assert_eq!(
        decode_tokens(&toks(&["get", "MyKey"])),
        Ok(RedisCommand::Get("MyKey".to_string()))
    );
    assert_eq!(
        decode("$4\r\nECHO\r\n$5\r\nHeLLo\r\n"),
        Ok(RedisCommand::Echo("HeLLo".to_string()))
    );
}

#[test]
fn set_without_ttl_tokens() {
    assert_eq!(
        decode_tokens(&toks(&["SET", "k", "v"])),
        Ok(RedisCommand::SetValue("k".to_string(), "v".to_string(), None))
    );
}

#[test]
fn set_with_ttl_tokens() {
    assert_eq!(
        decode_tokens(&toks(&["SET", "k", "v", "PX", "100"])),
        Ok(RedisCommand::SetValue(
            "k".to_string(),
            "v".to_string(),
            Some(100)
        ))
    );
}

#[test]
fn set_with_malformed_ttl_drops_it() {
    assert_eq!(
        decode_tokens(&toks(&["SET", "k", "v", "PX", "abc"])),
        Ok(RedisCommand::SetValue("k".to_string(), "v".to_string(), None))
    );
}

#[test]
fn set_with_only_four_tokens_has_no_ttl() {
    assert_eq!(
        decode_tokens(&toks(&["SET", "k", "v", "PX"])),
        Ok(RedisCommand::SetValue("k".to_string(), "v".to_string(), None))
    );
}

#[test]
fn set_without_value_defaults_to_empty() {
    assert_eq!(
        decode_tokens(&toks(&["SET", "k"])),
        Ok(RedisCommand::SetValue("k".to_string(), String::new(), None))
    );
}

#[test]
fn set_without_key_is_missing_argument() {
    assert_eq!(
        decode_tokens(&toks(&["SET"])),
        Err(DecodeError::MissingArgument)
    );
}

#[test]
fn echo_without_argument_is_missing_argument() {
    assert_eq!(
        decode_tokens(&toks(&["ECHO"])),
        Err(DecodeError::MissingArgument)
    );
}

#[test]
fn get_without_argument_is_missing_argument() {
    assert_eq!(
        decode_tokens(&toks(&["GET"])),
        Err(DecodeError::MissingArgument)
    );
}

#[test]
fn get_with_key() {
    assert_eq!(
        decode("*2\r\n$3\r\nGET\r\n$3\r\nfoo\r\n"),
        Ok(RedisCommand::Get("foo".to_string()))
    );
}

#[test]
fn set_full_request() {
    assert_eq!(
        decode("*5\r\n$3\r\nSET\r\n$3\r\nkey\r\n$5\r\nvalue\r\n$2\r\npx\r\n$3\r\n250\r\n"),
        Ok(RedisCommand::SetValue(
            "key".to_string(),
            "value".to_string(),
            Some(250)
        ))
    );
}

#[test]
fn info_request() {
    assert_eq!(decode("*1\r\n$4\r\nINFO\r\n"), Ok(RedisCommand::Info));
}

#[test]
fn unknown_command_keeps_the_token() {
    assert_eq!(
        decode_tokens(&toks(&["Flush"])),
        Err(DecodeError::UnknownCommand("Flush".to_string()))
    );
}

#[test]
fn no_tokens_is_missing_argument() {
    assert_eq!(decode("\r\n"), Err(DecodeError::MissingArgument));
    assert_eq!(decode_tokens(&Vec::new()), Err(DecodeError::MissingArgument));
}

#[test]
fn parse_u64_accepts_digits() {
    assert_eq!(parse_u64(&"0".to_string()), Some(0));
    assert_eq!(parse_u64(&"100".to_string()), Some(100));
    assert_eq!(
        parse_u64(&"18446744073709551615".to_string()),
        Some(u64::MAX)
    );
}

#[test]
fn parse_u64_rejects_bad_input() {
    assert_eq!(parse_u64(&String::new()), None);
    assert_eq!(parse_u64(&"12a".to_string()), None);
    assert_eq!(parse_u64(&"-5".to_string()), None);
    assert_eq!(parse_u64(&"18446744073709551616".to_string()), None);
}

#[test]
fn split_lines_on_crlf() {
    assert_eq!(split_lines("a\r\nb\r\n"), vec!["a".to_string(), "b".to_string()]);
    assert_eq!(split_lines("a\r\nb"), vec!["a".to_string(), "b".to_string()]);
    assert_eq!(split_lines(""), Vec::<String>::new());
}

#[test]
fn tokenize_takes_lines_after_length_lines() {
    let lines = split_lines("*2\r\n$3\r\nfoo\r\n$3\r\nbar\r\n");
    assert_eq!(tokenize(&lines), vec!["foo".to_string(), "bar".to_string()]);
}

#[test]
fn tokenize_takes_following_line_verbatim() {
    let lines = vec!["$3".to_string(), "$5".to_string(), "x".to_string()];
    assert_eq!(tokenize(&lines), vec!["$5".to_string()]);
}

#[test]
fn declared_length_is_informational_only() {
    assert_eq!(
        decode("$99\r\nECHO\r\n$1\r\nlonger\r\n"),
        Ok(RedisCommand::Echo("longer".to_string()))
    );
}
