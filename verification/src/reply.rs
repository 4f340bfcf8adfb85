use crate::decoder::CommandModel;
use crate::decoder::RedisCommand;
use crate::store::spec_expiry;
use crate::store::spec_get;
use crate::store::spec_get_after;
use crate::store::spec_set;
use crate::store::EntryModel;
use crate::store::Storage;
use vstd::prelude::*;

verus! {

/// The decimal digit character for `d`.
pub open spec fn spec_digit_char(d: nat) -> char {
    if d == 0 {
        '0'
    } else if d == 1 {
        '1'
    } else if d == 2 {
        '2'
    } else if d == 3 {
        '3'
    } else if d == 4 {
        '4'
    } else if d == 5 {
        '5'
    } else if d == 6 {
        '6'
    } else if d == 7 {
        '7'
    } else if d == 8 {
        '8'
    } else {
        '9'
    }
}

/// The decimal rendering of `n`, most significant digit first, with no
/// leading zeros (zero itself renders as one digit).
pub open spec fn spec_dec(n: nat) -> Seq<char>
    decreases n,
{
    if n < 10 {
        seq![spec_digit_char(n)]
    } else {
        spec_dec(n / 10) + seq![spec_digit_char(n % 10)]
    }
}

fn digit_str(d: u64) -> (r: &'static str)
    requires
        d < 10,
    ensures
        r@ == seq![spec_digit_char(d as nat)],
{
    proof {
        reveal_strlit("0");
        reveal_strlit("1");
        reveal_strlit("2");
        reveal_strlit("3");
        reveal_strlit("4");
        reveal_strlit("5");
        reveal_strlit("6");
        reveal_strlit("7");
        reveal_strlit("8");
        reveal_strlit("9");
    }
    let r = if d == 0 {
        "0"
    } else if d == 1 {
        "1"
    } else if d == 2 {
        "2"
    } else if d == 3 {
        "3"
    } else if d == 4 {
        "4"
    } else if d == 5 {
        "5"
    } else if d == 6 {
        "6"
    } else if d == 7 {
        "7"
    } else if d == 8 {
        "8"
    } else {
        "9"
    };
    proof {
        assert(r@ =~= seq![spec_digit_char(d as nat)]);
    }
    r
}

/// Renders `n` in decimal.
pub fn u64_to_string(n: u64) -> (r: String)
    ensures
        r@ == spec_dec(n as nat),
    decreases n,
{
    if n < 10 {
        digit_str(n).to_owned()
    } else {
        let front = u64_to_string(n / 10);
        front.concat(digit_str(n % 10))
    }
}

/// The bulk-string framing of a payload: `$`, the payload's byte length in
/// decimal, a line break, the payload, a line break.
pub open spec fn spec_bulk(s: Seq<char>) -> Seq<char> {
    seq!['$'] + spec_dec(vstd::utf8::encode_utf8(s).len()) + seq!['\r', '\n'] + s + seq![
        '\r',
        '\n',
    ]
}

/// Frames a payload as a bulk string.
pub fn encode_bulk(s: &str) -> (r: String)
    ensures
        r@ == spec_bulk(s@),
{
    let len = s.as_bytes().len();
    let num = u64_to_string(len as u64);
    proof {
        reveal_strlit("$");
        reveal_strlit("\r\n");
    }
    let mut out = String::from_str("$");
    out.append(num.as_str());
    out.append("\r\n");
    out.append(s);
    out.append("\r\n");
    proof {
        assert(out@ =~= spec_bulk(s@));
    }
    out
}

/// The acknowledgement for a `PING`.
pub fn pong_reply() -> (r: String)
    ensures
        r@ == "+PONG\r\n"@,
{
    String::from_str("+PONG\r\n")
}

/// The acknowledgement for a completed write.
pub fn ok_reply() -> (r: String)
    ensures
        r@ == "+OK\r\n"@,
{
    String::from_str("+OK\r\n")
}

/// The reply that denotes "no value".
pub fn null_bulk_reply() -> (r: String)
    ensures
        r@ == "$-1\r\n"@,
{
    String::from_str("$-1\r\n")
}

/// The static `INFO` reply for the process's role label.
pub open spec fn spec_info(is_master: bool) -> Seq<char> {
    (if is_master {
        "$87\r\nrole:master:"@
    } else {
        "$86\r\nrole:slave:"@
    }) + "master_replid:8371b4fb1155b71f4a04d3e1bc3e18c4a990aeeb:"@ + "master_repl_offset:0\r\n"@
}

/// Builds the static `INFO` reply for the process's role label.
pub fn info_reply(is_master: bool) -> (r: String)
    ensures
        r@ == spec_info(is_master),
{
    let mut out = if is_master {
        String::from_str("$87\r\nrole:master:")
    } else {
        String::from_str("$86\r\nrole:slave:")
    };
    out.append("master_replid:8371b4fb1155b71f4a04d3e1bc3e18c4a990aeeb:");
    out.append("master_repl_offset:0\r\n");
    out
}

/// How one command, run at instant `now`, transforms the store's mapping
/// and what reply it produces. A `Get` answers the bulk encoding of the
/// value it reads — the empty string included — and "no value" exactly
/// when the key is absent or expired; a write always answers the plain
/// acknowledgement; `Ping`, `Echo` and `Info` leave the store alone.
pub open spec fn spec_execute(
    m: Map<Seq<char>, EntryModel>,
    c: CommandModel,
    now: i64,
    is_master: bool,
) -> (Map<Seq<char>, EntryModel>, Seq<char>) {
    match c {
        CommandModel::Ping => (m, "+PONG\r\n"@),
        CommandModel::Echo(s) => (m, spec_bulk(s)),
        CommandModel::SetValue(k, v, ttl) => (
            spec_set(m, k, v, spec_expiry(now, ttl)),
            "+OK\r\n"@,
        ),
        CommandModel::Get(k) => (
            spec_get_after(m, k, now),
            match spec_get(m, k, now) {
                Option::Some(v) => spec_bulk(v),
                Option::None => "$-1\r\n"@,
            },
        ),
        CommandModel::Info => (m, spec_info(is_master)),
    }
}

/// Runs one decoded command against the store as of the explicit instant
/// `now` and returns the wire reply.
pub fn execute_at(cmd: &RedisCommand, store: &mut Storage, now: i64, is_master: bool) -> (r:
    String)
    requires
        old(store).wf(),
    ensures
        final(store).wf(),
        (final(store)@, r@) == spec_execute(old(store)@, cmd@, now, is_master),
{
    match cmd {
        RedisCommand::Ping => pong_reply(),
        RedisCommand::Echo(s) => encode_bulk(s.as_str()),
        RedisCommand::SetValue(k, v, ttl) => {
            store.set_at(k.clone(), v.clone(), *ttl, now);
            ok_reply()
        },
        RedisCommand::Get(k) => {
            match store.get_at(k, now) {
                Option::Some(v) => encode_bulk(v.as_str()),
                Option::None => null_bulk_reply(),
            }
        },
        RedisCommand::Info => info_reply(is_master),
    }
}

/// Runs one decoded command against the store at the current wall-clock
/// instant and returns the wire reply. Whatever instant the clock
/// reports, the outcome is that of `spec_execute` at some instant, and
/// commands other than `SetValue` and `Get` leave the store untouched.
pub fn execute(cmd: &RedisCommand, store: &mut Storage, is_master: bool) -> (r: String)
    requires
        old(store).wf(),
    ensures
        final(store).wf(),
        exists|t: i64| (final(store)@, r@) == spec_execute(old(store)@, cmd@, t, is_master),
        !(cmd@ is SetValue) && !(cmd@ is Get) ==> final(store)@ == old(store)@,
{
    let now = crate::store::now_millis();
    let r = execute_at(cmd, store, now, is_master);
    proof {
        assert((store@, r@) == spec_execute(old(store)@, cmd@, now, is_master));
    }
    r
}

} // verus!

