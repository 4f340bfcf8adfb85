use vstd::prelude::*;

verus! {

/// One decoded client request. Command words are matched without regard
/// to case; keys, values and echoed text keep their original case.
#[derive(Debug, Clone, PartialEq)]
pub enum RedisCommand {
    Ping,
    Echo(String),
    SetValue(String, String, Option<u64>),
    Get(String),
    Info,
}

/// Why a token sequence failed to resolve to a command: an unrecognized
/// first token, or too few tokens for a command that requires more.
#[derive(Debug, Clone, PartialEq)]
pub enum DecodeError {
    UnknownCommand(String),
    MissingArgument,
}

/// The mathematical content of a decoded command.
pub enum CommandModel {
    Ping,
    Echo(Seq<char>),
    SetValue(Seq<char>, Seq<char>, Option<u64>),
    Get(Seq<char>),
    Info,
}

/// The mathematical content of a decode failure.
pub enum DecodeErrorModel {
    UnknownCommand(Seq<char>),
    MissingArgument,
}

impl View for RedisCommand {
    type V = CommandModel;

    open spec fn view(&self) -> CommandModel {
        match self {
            RedisCommand::Ping => CommandModel::Ping,
            RedisCommand::Echo(s) => CommandModel::Echo(s@),
            RedisCommand::SetValue(k, v, ttl) => CommandModel::SetValue(k@, v@, *ttl),
            RedisCommand::Get(k) => CommandModel::Get(k@),
            RedisCommand::Info => CommandModel::Info,
        }
    }
}

impl View for DecodeError {
    type V = DecodeErrorModel;

    open spec fn view(&self) -> DecodeErrorModel {
        match self {
            DecodeError::UnknownCommand(s) => DecodeErrorModel::UnknownCommand(s@),
            DecodeError::MissingArgument => DecodeErrorModel::MissingArgument,
        }
    }
}

/// ASCII upper-casing of one character; anything but a lower-case ASCII
/// letter is left alone.
pub open spec fn spec_upper_char(c: char) -> char {
    if 'a' <= c && c <= 'z' {
        ((c as u8) - 32) as char
    } else {
        c
    }
}

/// ASCII upper-casing of a whole character sequence.
pub open spec fn spec_upper(s: Seq<char>) -> Seq<char> {
    Seq::new(s.len(), |i: int| spec_upper_char(s[i]))
}

fn upper_char(c: char) -> (r: char)
    ensures
        r == spec_upper_char(c),
{
    if 'a' <= c && c <= 'z' {
        ((c as u8) - 32) as char
    } else {
        c
    }
}

/// A line with one trailing carriage return, if any, taken off.
pub open spec fn strip_cr(l: Seq<char>) -> Seq<char> {
    if l.len() > 0 && l.last() == '\r' {
        l.drop_last()
    } else {
        l
    }
}

/// The prefix of `s` up to (excluding) its first line feed, or all of `s`
/// if it has none.
pub open spec fn spec_first_line(s: Seq<char>) -> Seq<char>
    decreases s.len(),
{
    if s.len() == 0 {
        s
    } else if s[0] == '\n' {
        Seq::empty()
    } else {
        seq![s[0]] + spec_first_line(s.drop_first())
    }
}

/// What follows the first line feed of `s`, or the empty sequence if `s`
/// has none.
pub open spec fn spec_after_line(s: Seq<char>) -> Seq<char>
    decreases s.len(),
{
    if s.len() == 0 {
        s
    } else if s[0] == '\n' {
        s.drop_first()
    } else {
        spec_after_line(s.drop_first())
    }
}

proof fn lemma_after_line_len(s: Seq<char>)
    requires
        s.len() > 0,
    ensures
        spec_after_line(s).len() < s.len(),
    decreases s.len(),
{
    if s[0] != '\n' {
        if s.len() > 1 {
            lemma_after_line_len(s.drop_first());
        } else {
            assert(spec_after_line(s.drop_first()) == s.drop_first());
        }
    }
}

/// The lines of `s`: line-feed-separated segments, each with one trailing
/// carriage return stripped; a trailing segment is a line only if
/// non-empty.
pub open spec fn spec_lines(s: Seq<char>) -> Seq<Seq<char>>
    decreases s.len(),
    via spec_lines_dec
{
    if s.len() == 0 {
        Seq::empty()
    } else {
        seq![strip_cr(spec_first_line(s))] + spec_lines(spec_after_line(s))
    }
}

#[via_fn]
proof fn spec_lines_dec(s: Seq<char>) {
    if s.len() > 0 {
        lemma_after_line_len(s);
    }
}

proof fn lemma_line_at(s: Seq<char>, j: int)
    requires
        0 <= j < s.len(),
        s[j] == '\n',
        forall|p: int| 0 <= p < j ==> s[p] != '\n',
    ensures
        spec_first_line(s) == s.take(j),
        spec_after_line(s) == s.skip(j + 1),
    decreases j,
{
    if j == 0 {
        assert(spec_first_line(s) =~= s.take(0));
        assert(s.drop_first() =~= s.skip(1));
    } else {
        let d = s.drop_first();
        assert(d[j - 1] == '\n');
        assert(forall|p: int| 0 <= p < j - 1 ==> d[p] != '\n');
        lemma_line_at(d, j - 1);
        assert(seq![s[0]] + d.take(j - 1) =~= s.take(j));
        assert(d.skip(j) =~= s.skip(j + 1));
    }
}

proof fn lemma_line_none(s: Seq<char>)
    requires
        s.len() > 0,
        forall|p: int| 0 <= p < s.len() ==> s[p] != '\n',
    ensures
        spec_first_line(s) == s,
        spec_after_line(s) == Seq::<char>::empty(),
    decreases s.len(),
{
    if s.len() > 1 {
        lemma_line_none(s.drop_first());
        assert(seq![s[0]] + s.drop_first() =~= s);
    } else {
        assert(spec_first_line(s.drop_first()) == s.drop_first());
        assert(spec_after_line(s.drop_first()) == s.drop_first());
        assert(seq![s[0]] + spec_first_line(s.drop_first()) =~= s);
        assert(s.drop_first() =~= Seq::<char>::empty());
    }
}

/// Strips one trailing carriage return from `l`, if present.
fn strip_cr_exec(l: &str) -> (r: String)
    ensures
        r@ == strip_cr(l@),
{
    let n = l.unicode_len();
    if n > 0 && l.get_char(n - 1) == '\r' {
        let cut = l.substring_char(0, n - 1);
        proof {
            assert(l@.subrange(0, n - 1) =~= l@.drop_last());
        }
        cut.to_owned()
    } else {
        l.to_owned()
    }
}

/// Splits a request buffer into its lines.
pub fn split_lines(s: &str) -> (lines: Vec<String>)
    ensures
        lines.deep_view() == spec_lines(s@),
{
    let n = s.unicode_len();
    let mut lines: Vec<String> = Vec::new();
    let mut start: usize = 0;
    let mut i: usize = 0;
    proof {
        assert(lines.deep_view() =~= Seq::<Seq<char>>::empty());
        assert(s@.skip(0) =~= s@);
    }
    while i < n
        invariant
            start <= i <= n,
            n == s@.len(),
            forall|p: int| start <= p < i ==> s@[p] != '\n',
            spec_lines(s@) =~= lines.deep_view() + spec_lines(s@.skip(start as int)),
        decreases n - i,
    {
        if s.get_char(i) == '\n' {
            let ghost rest = s@.skip(start as int);
            let ghost prev = lines.deep_view();
            let line = s.substring_char(start, i);
            let stripped = strip_cr_exec(line);
            proof {
                assert(rest[i - start] == '\n');
                assert(forall|p: int| 0 <= p < i - start ==> rest[p] != '\n');
                lemma_line_at(rest, i - start);
                assert(rest.take(i - start) =~= line@);
                assert(rest.skip(i - start + 1) =~= s@.skip(i + 1));
            }
            lines.push(stripped);
            proof {
                assert(lines.deep_view() =~= prev.push(stripped@));
                assert(spec_lines(rest) == seq![strip_cr(line@)] + spec_lines(s@.skip(i + 1)));
                assert(prev.push(stripped@) + spec_lines(s@.skip(i + 1)) =~= prev + spec_lines(
                    rest,
                ));
            }
            start = i + 1;
        }
        i = i + 1;
    }
    if start < n {
        let ghost rest = s@.skip(start as int);
        let ghost prev = lines.deep_view();
        let line = s.substring_char(start, n);
        let stripped = strip_cr_exec(line);
        proof {
            assert(rest =~= line@);
            lemma_line_none(rest);
            assert(spec_lines(Seq::<char>::empty()) == Seq::<Seq<char>>::empty());
            assert(spec_lines(rest) =~= seq![strip_cr(rest)]);
        }
        lines.push(stripped);
        proof {
            assert(lines.deep_view() =~= prev.push(stripped@));
            assert(prev.push(stripped@) =~= prev + seq![strip_cr(rest)]);
        }
    } else {
        proof {
            assert(s@.skip(start as int) =~= Seq::<char>::empty());
            assert(spec_lines(Seq::<char>::empty()) == Seq::<Seq<char>>::empty());
        }
    }
    proof {
        assert(lines.deep_view() =~= spec_lines(s@));
    }
    lines
}

/// The argument tokens among `lines`: each line that follows a
/// `$`-prefixed length line is one token, taken verbatim; every other
/// line, arity lines among them, is ignored.
pub open spec fn spec_tokens(lines: Seq<Seq<char>>) -> Seq<Seq<char>>
    decreases lines.len(),
{
    if lines.len() == 0 {
        Seq::empty()
    } else if lines[0].len() > 0 && lines[0][0] == '$' {
        if lines.len() >= 2 {
            seq![lines[1]] + spec_tokens(lines.skip(2))
        } else {
            Seq::empty()
        }
    } else {
        spec_tokens(lines.skip(1))
    }
}

/// Collects the argument tokens of a request's lines.
pub fn tokenize(lines: &Vec<String>) -> (tokens: Vec<String>)
    ensures
        tokens.deep_view() == spec_tokens(lines.deep_view()),
{
    let ghost lm = lines.deep_view();
    let mut tokens: Vec<String> = Vec::new();
    let mut i: usize = 0;
    proof {
        assert(tokens.deep_view() =~= Seq::<Seq<char>>::empty());
        assert(lm.skip(0) =~= lm);
    }
    while i < lines.len()
        invariant
            i <= lines@.len(),
            lm == lines.deep_view(),
            spec_tokens(lm) =~= tokens.deep_view() + spec_tokens(lm.skip(i as int)),
        decreases lines@.len() - i,
    {
        let line = &lines[i];
        let is_length_line = line.as_str().unicode_len() > 0 && line.as_str().get_char(0) == '$';
        proof {
            assert(lm.skip(i as int)[0] == lm[i as int]);
            assert(lm[i as int] == lines@[i as int]@);
        }
        if is_length_line && i + 1 < lines.len() {
            let ghost prev = tokens.deep_view();
            tokens.push(lines[i + 1].clone());
            proof {
                assert(lm.skip(i as int)[1] == lm[i as int + 1]);
                assert(lm.skip(i as int).skip(2) =~= lm.skip(i as int + 2));
                assert(tokens.deep_view() =~= prev.push(lm[i as int + 1]));
                assert(spec_tokens(lm.skip(i as int)) == seq![lm[i as int + 1]] + spec_tokens(
                    lm.skip(i as int + 2),
                ));
                assert(prev.push(lm[i as int + 1]) + spec_tokens(lm.skip(i as int + 2))
                    =~= prev + spec_tokens(lm.skip(i as int)));
            }
            i = i + 2;
        } else {
            proof {
                assert(lm.skip(i as int).skip(1) =~= lm.skip(i as int + 1));
                if is_length_line {
                    assert(lm.skip(i as int).len() == 1);
                    assert(spec_tokens(lm.skip(i as int)) == Seq::<Seq<char>>::empty());
                    assert(spec_tokens(lm.skip(i as int + 1)) == Seq::<Seq<char>>::empty());
                }
            }
            i = i + 1;
        }
    }
    proof {
        assert(lm.skip(i as int) =~= Seq::<Seq<char>>::empty());
        assert(spec_tokens(Seq::<Seq<char>>::empty()) == Seq::<Seq<char>>::empty());
        assert(tokens.deep_view() =~= spec_tokens(lm));
    }
    tokens
}

/// Whether `c` is an ASCII decimal digit.
pub open spec fn is_digit_char(c: char) -> bool {
    '0' <= c && c <= '9'
}

/// The numeric value of an ASCII decimal digit.
pub open spec fn digit_val(c: char) -> nat {
    ((c as u8) - 48) as nat
}

/// Whether every character of `s` is an ASCII decimal digit.
pub open spec fn all_digits(s: Seq<char>) -> bool {
    forall|i: int| 0 <= i < s.len() ==> is_digit_char(s[i])
}

/// The numeric value of a sequence of decimal digits, most significant
/// first.
pub open spec fn dec_val(s: Seq<char>) -> nat
    decreases s.len(),
{
    if s.len() == 0 {
        0
    } else {
        dec_val(s.drop_last()) * 10 + digit_val(s.last())
    }
}

/// What parsing an unsigned decimal number yields: the value of a
/// non-empty, all-digit sequence whose value is representable; `None` for
/// anything else.
pub open spec fn spec_parse_u64(s: Seq<char>) -> Option<u64> {
    if s.len() > 0 && all_digits(s) && dec_val(s) <= u64::MAX {
        Option::Some(dec_val(s) as u64)
    } else {
        Option::None
    }
}

proof fn lemma_dec_val_prefix(s: Seq<char>, i: int)
    requires
        0 <= i <= s.len(),
    ensures
        dec_val(s.take(i)) <= dec_val(s),
    decreases s.len() - i,
{
    if i < s.len() {
        lemma_dec_val_prefix(s, i + 1);
        assert(s.take(i + 1).drop_last() =~= s.take(i));
        assert(dec_val(s.take(i + 1)) == dec_val(s.take(i)) * 10 + digit_val(s.take(i + 1).last()));
    } else {
        assert(s.take(i) =~= s);
    }
}

/// Parses an unsigned decimal number, rejecting empty input, any
/// non-digit character, and values too large to represent.
pub fn parse_u64(s: &String) -> (r: Option<u64>)
    ensures
        r == spec_parse_u64(s@),
{
    let ts = s.as_str();
    let n = ts.unicode_len();
    if n == 0 {
        return None;
    }
    let mut acc: u64 = 0;
    let mut i: usize = 0;
    while i < n
        invariant
            i <= n,
            n == s@.len(),
            ts@ == s@,
            all_digits(s@.take(i as int)),
            acc == dec_val(s@.take(i as int)),
        decreases n - i,
    {
        let c = ts.get_char(i);
        if !('0' <= c && c <= '9') {
            proof {
                assert(!is_digit_char(s@[i as int]));
            }
            return None;
        }
        let d: u64 = ((c as u8) - 48) as u64;
        proof {
            assert(s@.take(i as int + 1).drop_last() =~= s@.take(i as int));
            assert(s@.take(i as int + 1).last() == s@[i as int]);
            assert(dec_val(s@.take(i as int + 1)) == acc * 10 + d);
        }
        let next = match acc.checked_mul(10) {
            Option::Some(x) => x.checked_add(d),
            Option::None => None,
        };
        match next {
            Option::Some(x) => {
                acc = x;
            },
            Option::None => {
                proof {
                    assert(dec_val(s@.take(i as int + 1)) > u64::MAX);
                    if all_digits(s@) && dec_val(s@) <= u64::MAX {
                        lemma_dec_val_prefix(s@, i as int + 1);
                    }
                }
                return None;
            },
        }
        proof {
            assert(forall|p: int|
                0 <= p < i as int + 1 ==> is_digit_char(#[trigger] s@.take(i as int + 1)[p]));
        }
        i = i + 1;
    }
    proof {
        assert(s@.take(n as int) =~= s@);
    }
    Some(acc)
}

/// Whether the upper-cased `t` reads exactly as `w`.
fn token_matches(t: &String, w: &str) -> (r: bool)
    ensures
        r == (spec_upper(t@) == w@),
{
    let ts = t.as_str();
    let n = ts.unicode_len();
    let m = w.unicode_len();
    if n != m {
        proof {
            assert(spec_upper(t@).len() != w@.len());
        }
        return false;
    }
    let mut i: usize = 0;
    while i < n
        invariant
            i <= n,
            n == t@.len(),
            n == w@.len(),
            ts@ == t@,
            forall|j: int| 0 <= j < i ==> spec_upper_char(t@[j]) == w@[j],
        decreases n - i,
    {
        let c = upper_char(ts.get_char(i));
        let d = w.get_char(i);
        if c != d {
            proof {
                assert(spec_upper(t@)[i as int] != w@[i as int]);
            }
            return false;
        }
        i = i + 1;
    }
    proof {
        assert(spec_upper(t@) =~= w@);
    }
    true
}

/// How a token sequence resolves to a command: the first token, upper-
/// cased, selects the variant. `ECHO` and `GET` take one argument; `SET`
/// takes a key, a value that defaults to the empty string, and a
/// time-to-live that is consulted only when both a fourth and a fifth
/// token are present — a fifth token that is not a number silently means
/// no time-to-live. An empty token sequence, or too few tokens, fails
/// with `MissingArgument`; an unrecognized first token fails with
/// `UnknownCommand` carrying that token.
pub open spec fn spec_resolve(t: Seq<Seq<char>>) -> Result<CommandModel, DecodeErrorModel> {
    if t.len() == 0 {
        Result::Err(DecodeErrorModel::MissingArgument)
    } else {
        let w = spec_upper(t[0]);
        if w == "PING"@ {
            Result::Ok(CommandModel::Ping)
        } else if w == "ECHO"@ {
            if t.len() >= 2 {
                Result::Ok(CommandModel::Echo(t[1]))
            } else {
                Result::Err(DecodeErrorModel::MissingArgument)
            }
        } else if w == "SET"@ {
            if t.len() >= 2 {
                let value = if t.len() >= 3 {
                    t[2]
                } else {
                    Seq::empty()
                };
                let ttl = if t.len() >= 5 {
                    spec_parse_u64(t[4])
                } else {
                    Option::None
                };
                Result::Ok(CommandModel::SetValue(t[1], value, ttl))
            } else {
                Result::Err(DecodeErrorModel::MissingArgument)
            }
        } else if w == "GET"@ {
            if t.len() >= 2 {
                Result::Ok(CommandModel::Get(t[1]))
            } else {
                Result::Err(DecodeErrorModel::MissingArgument)
            }
        } else if w == "INFO"@ {
            Result::Ok(CommandModel::Info)
        } else {
            Result::Err(DecodeErrorModel::UnknownCommand(t[0]))
        }
    }
}

/// What decoding a whole request buffer yields: its lines' argument
/// tokens, resolved to a command.
pub open spec fn spec_decode(s: Seq<char>) -> Result<CommandModel, DecodeErrorModel> {
    spec_resolve(spec_tokens(spec_lines(s)))
}

/// Resolves already-split argument tokens to a command.
pub fn decode_tokens(tokens: &Vec<String>) -> (r: Result<RedisCommand, DecodeError>)
    ensures
        match r {
            Result::Ok(c) => spec_resolve(tokens.deep_view()) == Result::<
                CommandModel,
                DecodeErrorModel,
            >::Ok(c@),
            Result::Err(e) => spec_resolve(tokens.deep_view()) == Result::<
                CommandModel,
                DecodeErrorModel,
            >::Err(e@),
        },
{
    if tokens.len() == 0 {
        return Err(DecodeError::MissingArgument);
    }
    let first = &tokens[0];
    if token_matches(first, "PING") {
        Ok(RedisCommand::Ping)
    } else if token_matches(first, "ECHO") {
        if tokens.len() >= 2 {
            Ok(RedisCommand::Echo(tokens[1].clone()))
        } else {
            Err(DecodeError::MissingArgument)
        }
    } else if token_matches(first, "SET") {
        if tokens.len() >= 2 {
            let value = if tokens.len() >= 3 {
                tokens[2].clone()
            } else {
                String::new()
            };
            let ttl = if tokens.len() >= 5 {
                parse_u64(&tokens[4])
            } else {
                None
            };
            Ok(RedisCommand::SetValue(tokens[1].clone(), value, ttl))
        } else {
            Err(DecodeError::MissingArgument)
        }
    } else if token_matches(first, "GET") {
        if tokens.len() >= 2 {
            Ok(RedisCommand::Get(tokens[1].clone()))
        } else {
            Err(DecodeError::MissingArgument)
        }
    } else if token_matches(first, "INFO") {
        Ok(RedisCommand::Info)
    } else {
        Err(DecodeError::UnknownCommand(first.clone()))
    }
}

/// Decodes one raw request buffer into a command: the buffer is split
/// into lines, the argument tokens are collected, and the tokens are
/// resolved.
pub fn decode(s: &str) -> (r: Result<RedisCommand, DecodeError>)
    ensures
        match r {
            Result::Ok(c) => spec_decode(s@) == Result::<CommandModel, DecodeErrorModel>::Ok(c@),
            Result::Err(e) => spec_decode(s@) == Result::<CommandModel, DecodeErrorModel>::Err(
                e@,
            ),
        },
{
    let lines = split_lines(s);
    let tokens = tokenize(&lines);
    decode_tokens(&tokens)
}

} // verus!
