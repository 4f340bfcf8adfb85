mod decoder;
mod reply;
mod store;

pub use store::compute_expiry;
pub use store::distinct_keys;
pub use store::entries_map;
pub use store::expiry_instant;
pub use store::spec_expired;
pub use store::spec_expiry;
pub use store::spec_get;
pub use store::spec_get_after;
pub use store::spec_set;
pub use store::EntryModel;
pub use store::RedisData;
pub use store::Storage;
pub use decoder::all_digits;
pub use decoder::dec_val;
pub use decoder::decode;
pub use decoder::decode_tokens;
pub use decoder::digit_val;
pub use decoder::is_digit_char;
pub use decoder::parse_u64;
pub use decoder::spec_after_line;
pub use decoder::spec_decode;
pub use decoder::spec_first_line;
pub use decoder::spec_lines;
pub use decoder::spec_parse_u64;
pub use decoder::spec_resolve;
pub use decoder::spec_tokens;
pub use decoder::spec_upper;
pub use decoder::spec_upper_char;
pub use decoder::split_lines;
pub use decoder::strip_cr;
pub use decoder::tokenize;
pub use decoder::CommandModel;
pub use decoder::DecodeError;
pub use decoder::DecodeErrorModel;
pub use decoder::RedisCommand;
pub use reply::encode_bulk;
pub use reply::execute;
pub use reply::execute_at;
pub use reply::info_reply;
pub use reply::null_bulk_reply;
pub use reply::ok_reply;
pub use reply::pong_reply;
pub use reply::spec_bulk;
pub use reply::spec_dec;
pub use reply::spec_digit_char;
pub use reply::spec_execute;
pub use reply::spec_info;
pub use reply::u64_to_string;
pub use store::lemma_distinct_keys_no_lost_update;
pub use store::lemma_get_never_written;
pub use store::lemma_overwrite;
pub use store::lemma_set_then_get;
pub use store::lemma_set_ttl_then_get;
