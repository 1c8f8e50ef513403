//! The wire codec. A message is one self-delimiting textual frame:
//! a one-character command tag, three fixed-width decimal fields
//! (timestamp, key length, value length), then the key and the value
//! themselves. Fixed-width numerals keep every frame self-describing
//! without escaping, whatever characters the key and the value hold.

use vstd::prelude::*;
use vstd::arithmetic::div_mod::{
    lemma_fundamental_div_mod, lemma_fundamental_div_mod_converse, lemma_mod_bound,
    lemma_small_mod,
};
use vstd::string::StringExecFns;

use crate::message::{Command, Message, MessageView};

verus! {

/// Width of each decimal field: 20 digits cover every `u64`.
pub const FIELD_WIDTH: usize = 20;

/// Length of the fixed frame header: the tag plus three decimal fields.
pub const HEADER_LEN: usize = 61;

pub open spec fn pow10(w: nat) -> nat
    decreases w,
{
    if w == 0 {
        1
    } else {
        10 * pow10((w - 1) as nat)
    }
}

pub open spec fn is_digit(c: char) -> bool {
    48 <= c as u32 <= 57
}

pub open spec fn digit_val(c: char) -> nat {
    (c as u32 - 48) as nat
}

pub open spec fn char_of_digit(d: nat) -> char {
    if d == 0 {
        '0'
    } else if d == 1 {
        '1'
    } else if d == 2 {
        '2'
    } else if d == 3 {
        '3'
    } else if d == 4 {
        '4'
    } else if d == 5 {
        '5'
    } else if d == 6 {
        '6'
    } else if d == 7 {
        '7'
    } else if d == 8 {
        '8'
    } else {
        '9'
    }
}

pub open spec fn all_digits(s: Seq<char>) -> bool {
    forall|i: int| 0 <= i < s.len() ==> is_digit(#[trigger] s[i])
}

/// The fixed-width decimal numeral of `n % pow10(width)`, most
/// significant digit first.
pub open spec fn dec_of(n: nat, width: nat) -> Seq<char>
    decreases width,
{
    if width == 0 {
        Seq::empty()
    } else {
        dec_of(n / 10, (width - 1) as nat).push(char_of_digit(n % 10))
    }
}

/// The value of a digit string, most significant digit first.
pub open spec fn val_of(s: Seq<char>) -> nat
    decreases s.len(),
{
    if s.len() == 0 {
        0
    } else {
        val_of(s.drop_last()) * 10 + digit_val(s.last())
    }
}

pub proof fn lemma_pow10_pos(w: nat)
    ensures
        pow10(w) >= 1,
    decreases w,
{
    if w > 0 {
        lemma_pow10_pos((w - 1) as nat);
    }
}

pub proof fn lemma_pow10_20()
    ensures
        pow10(20) == 0x56bc75e2d63100000,
{
    reveal_with_fuel(pow10, 21);
}

pub proof fn lemma_digit_char_val(d: nat)
    requires
        d < 10,
    ensures
        is_digit(char_of_digit(d)),
        digit_val(char_of_digit(d)) == d,
{
}

pub proof fn lemma_dec_of_len(n: nat, w: nat)
    ensures
        dec_of(n, w).len() == w,
        all_digits(dec_of(n, w)),
    decreases w,
{
    if w > 0 {
        lemma_dec_of_len(n / 10, (w - 1) as nat);
        lemma_digit_char_val(n % 10);
        let s = dec_of(n, w);
        assert(forall|i: int| 0 <= i < s.len() - 1 ==> s[i] == dec_of(n / 10, (w - 1) as nat)[i]);
        assert(s[s.len() - 1] == char_of_digit(n % 10));
    }
}

/// Reading back the numeral of `n` gives `n` modulo the field's range.
pub proof fn lemma_val_of_dec_of(n: nat, w: nat)
    ensures
        val_of(dec_of(n, w)) == n % pow10(w),
    decreases w,
{
    if w == 0 {
        assert(pow10(0) == 1);
        assert(n % 1 == 0) by {
            lemma_small_mod(0, 1);
            lemma_fundamental_div_mod_converse(n as int, 1, n as int, 0);
        }
    } else {
        let p = pow10((w - 1) as nat);
        lemma_pow10_pos((w - 1) as nat);
        lemma_val_of_dec_of(n / 10, (w - 1) as nat);
        lemma_digit_char_val(n % 10);
        let s = dec_of(n, w);
        assert(s.drop_last() =~= dec_of(n / 10, (w - 1) as nat));
        assert(s.last() == char_of_digit(n % 10));
        assert(val_of(s) == ((n / 10) % p) * 10 + n % 10);
        // n == (10 * p) * ((n / 10) / p) + (((n / 10) % p) * 10 + n % 10)
        let q = ((n as int) / 10) / (p as int);
        let r = ((n as int) / 10) % (p as int);
        lemma_fundamental_div_mod(n as int, 10);
        lemma_fundamental_div_mod((n as int) / 10, p as int);
        lemma_mod_bound((n as int) / 10, p as int);
        assert(n == 10 * ((p as int) * q + r) + n % 10);
        assert(10 * ((p as int) * q + r) == (10 * (p as int)) * q + 10 * r) by (nonlinear_arith);
        assert(n == (10 * (p as int)) * q + (r * 10 + n % 10));
        assert(0 <= r * 10 + n % 10 < 10 * (p as int));
        lemma_fundamental_div_mod_converse(n as int, 10 * (p as int), q, r * 10 + (n as int) % 10);
    }
}

/// A digit string's value is below the field's range.
pub proof fn lemma_val_of_bound(s: Seq<char>)
    requires
        all_digits(s),
    ensures
        val_of(s) < pow10(s.len()),
    decreases s.len(),
{
    if s.len() > 0 {
        assert(all_digits(s.drop_last()));
        lemma_val_of_bound(s.drop_last());
        assert(is_digit(s.last()));
        assert(digit_val(s.last()) <= 9);
    }
}

/// One digit as a string slice.
fn digit_str(d: u64) -> (r: &'static str)
    requires
        d < 10,
    ensures
        r@ =~= seq![char_of_digit(d as nat)],
{
    proof {
        reveal_strlit("0");
        reveal_strlit("1");
        reveal_strlit("2");
        reveal_strlit("3");
        reveal_strlit("4");
        reveal_strlit("5");
        reveal_strlit("6");
        reveal_strlit("7");
        reveal_strlit("8");
        reveal_strlit("9");
    }
    if d == 0 {
        "0"
    } else if d == 1 {
        "1"
    } else if d == 2 {
        "2"
    } else if d == 3 {
        "3"
    } else if d == 4 {
        "4"
    } else if d == 5 {
        "5"
    } else if d == 6 {
        "6"
    } else if d == 7 {
        "7"
    } else if d == 8 {
        "8"
    } else {
        "9"
    }
}

/// Appends the fixed-width decimal numeral of `n` to `out`.
fn push_dec(n: u64, width: usize, out: &mut String)
    ensures
        final(out)@ == old(out)@ + dec_of(n as nat, width as nat),
    decreases width,
{
    if width == 0 {
        proof {
            assert(old(out)@ + dec_of(n as nat, 0) =~= old(out)@);
        }
        return ;
    }
    push_dec(n / 10, width - 1, out);
    let d = n % 10;
    out.append(digit_str(d));
    proof {
        assert((n as nat) / 10 == (n / 10) as nat);
        assert((n as nat) % 10 == d as nat);
        assert(old(out)@ + dec_of((n / 10) as nat, (width - 1) as nat) + seq![
            char_of_digit(d as nat),
        ] =~= old(out)@ + dec_of(n as nat, width as nat));
    }
}

/// Parses the 20-digit block of `s` that starts at `start`.
/// Returns its value exactly when every character there is a digit.
fn parse_field(s: &str, start: usize) -> (r: Option<u128>)
    requires
        start + FIELD_WIDTH <= s@.len(),
        s@.len() <= usize::MAX,
    ensures
        match r {
            Some(v) => all_digits(s@.subrange(start as int, start + FIELD_WIDTH))
                && v as nat == val_of(s@.subrange(start as int, start + FIELD_WIDTH)),
            None => !all_digits(s@.subrange(start as int, start + FIELD_WIDTH)),
        },
{
    let ghost whole = s@.subrange(start as int, start + FIELD_WIDTH);
    let mut acc: u128 = 0;
    let mut i: usize = 0;
    while i < FIELD_WIDTH
        invariant
            0 <= i <= FIELD_WIDTH,
            start + FIELD_WIDTH <= s@.len(),
            s@.len() <= usize::MAX,
            whole == s@.subrange(start as int, start + FIELD_WIDTH),
            all_digits(s@.subrange(start as int, start + i)),
            acc as nat == val_of(s@.subrange(start as int, start + i)),
            acc < pow10(i as nat),
        decreases FIELD_WIDTH - i,
    {
        let c = s.get_char(start + i);
        let u = c as u32;
        if u < 48 || u > 57 {
            proof {
                assert(whole[i as int] == c);
            }
            return None;
        }
        proof {
            lemma_pow10_pos(i as nat);
            lemma_pow10_20();
            assert(pow10(i as nat) <= pow10(20)) by {
                lemma_pow10_monotone(i as nat, 20);
            }
        }
        acc = acc * 10 + (u - 48) as u128;
        i = i + 1;
        proof {
            let prefix = s@.subrange(start as int, start + i - 1);
            let here = s@.subrange(start as int, start + i);
            assert(here.drop_last() =~= prefix);
            assert(here.last() == c);
            assert(all_digits(here)) by {
                assert(forall|j: int| 0 <= j < here.len() - 1 ==> here[j] == prefix[j]);
            }
        }
    }
    proof {
        assert(s@.subrange(start as int, start + i) =~= whole);
    }
    Some(acc)
}

pub proof fn lemma_pow10_monotone(a: nat, b: nat)
    requires
        a <= b,
    ensures
        pow10(a) <= pow10(b),
    decreases b,
{
    if a < b {
        lemma_pow10_monotone(a, (b - 1) as nat);
        lemma_pow10_pos((b - 1) as nat);
    }
}

/// The ordinary (shortest) decimal numeral of `n`.
pub open spec fn udec(n: nat) -> Seq<char>
    decreases n,
{
    if n < 10 {
        seq![char_of_digit(n)]
    } else {
        udec(n / 10).push(char_of_digit(n % 10))
    }
}

/// Splitting a digit string splits its value positionally.
pub proof fn lemma_val_of_concat(a: Seq<char>, b: Seq<char>)
    ensures
        val_of(a + b) == val_of(a) * pow10(b.len()) + val_of(b),
    decreases b.len(),
{
    if b.len() == 0 {
        assert(a + b =~= a);
        assert(pow10(0) == 1);
    } else {
        lemma_val_of_concat(a, b.drop_last());
        assert((a + b).drop_last() =~= a + b.drop_last());
        assert((a + b).last() == b.last());
        let p = pow10((b.len() - 1) as nat);
        assert(val_of(a + b) == (val_of(a) * p + val_of(b.drop_last())) * 10 + digit_val(b.last()));
        assert((val_of(a) * p + val_of(b.drop_last())) * 10 == val_of(a) * (10 * p) + val_of(
            b.drop_last(),
        ) * 10) by (nonlinear_arith);
    }
}

/// The ordinary numeral of `n` reads back as `n`.
pub proof fn lemma_val_of_udec(n: nat)
    ensures
        udec(n).len() >= 1,
        all_digits(udec(n)),
        val_of(udec(n)) == n,
    decreases n,
{
    if n < 10 {
        lemma_digit_char_val(n);
        let s = udec(n);
        assert(s.drop_last() =~= Seq::<char>::empty());
        assert(s.last() == char_of_digit(n));
        assert(val_of(s) == val_of(s.drop_last()) * 10 + digit_val(s.last()));
    } else {
        lemma_val_of_udec(n / 10);
        lemma_digit_char_val(n % 10);
        let s = udec(n);
        assert(s.drop_last() =~= udec(n / 10));
        assert(s.last() == char_of_digit(n % 10));
        assert(all_digits(s)) by {
            assert(forall|i: int| 0 <= i < s.len() - 1 ==> s[i] == udec(n / 10)[i]);
        }
        assert(val_of(s) == val_of(s.drop_last()) * 10 + digit_val(s.last()));
        lemma_fundamental_div_mod(n as int, 10);
    }
}

/// A port number printed in decimal parses back to itself.
pub proof fn lemma_register_port_round_trip(p: u16)
    ensures
        parses_as_u16(udec(p as nat)) == Some(p),
{
    lemma_val_of_udec(p as nat);
    let s = udec(p as nat);
    assert(s[0] != '+') by {
        assert(is_digit(s[0]));
    }
}

/// Appends the ordinary decimal numeral of `n` to `out`.
pub fn push_udec(n: u64, out: &mut String)
    ensures
        final(out)@ == old(out)@ + udec(n as nat),
    decreases n,
{
    if n < 10 {
        out.append(digit_str(n));
    } else {
        push_udec(n / 10, out);
        let d = n % 10;
        out.append(digit_str(d));
        proof {
            assert((n as nat) / 10 == (n / 10) as nat);
            assert(old(out)@ + udec((n / 10) as nat) + seq![char_of_digit((n % 10) as nat)]
                =~= old(out)@ + udec(n as nat));
        }
    }
}

/// What `str::parse::<u16>` accepts: an optional leading plus sign,
/// then one or more digits, denoting a value that fits.
pub open spec fn parses_as_u16(s: Seq<char>) -> Option<u16> {
    let d = if s.len() > 0 && s[0] == '+' {
        s.subrange(1, s.len() as int)
    } else {
        s
    };
    if d.len() > 0 && all_digits(d) && val_of(d) <= u16::MAX {
        Some(val_of(d) as u16)
    } else {
        None
    }
}

/// Parses a port number, sign and overflow handling as in
/// `str::parse::<u16>`.
pub fn parse_u16(s: &str) -> (r: Option<u16>)
    ensures
        r == parses_as_u16(s@),
{
    let n = s.unicode_len();
    let start: usize = if n > 0 && s.get_char(0) == '+' {
        1
    } else {
        0
    };
    let ghost d = if s@.len() > 0 && s@[0] == '+' {
        s@.subrange(1, s@.len() as int)
    } else {
        s@
    };
    proof {
        assert(d =~= s@.subrange(start as int, n as int));
    }
    if n == start {
        return None;
    }
    let mut acc: u64 = 0;
    let mut i: usize = start;
    while i < n
        invariant
            start <= i <= n,
            n == s@.len(),
            n <= usize::MAX,
            d == (if s@.len() > 0 && s@[0] == '+' {
                s@.subrange(1, s@.len() as int)
            } else {
                s@
            }),
            d =~= s@.subrange(start as int, n as int),
            all_digits(s@.subrange(start as int, i as int)),
            acc as nat == val_of(s@.subrange(start as int, i as int)),
            acc <= u16::MAX,
        decreases n - i,
    {
        let c = s.get_char(i);
        let u = c as u32;
        if u < 48 || u > 57 {
            proof {
                assert(d[i - start] == c);
                assert(!is_digit(d[i - start]));
            }
            return None;
        }
        acc = acc * 10 + (u - 48) as u64;
        i = i + 1;
        proof {
            let prefix = s@.subrange(start as int, i - 1);
            let here = s@.subrange(start as int, i as int);
            assert(here.drop_last() =~= prefix);
            assert(here.last() == c);
            assert(all_digits(here)) by {
                assert(forall|j: int| 0 <= j < here.len() - 1 ==> here[j] == prefix[j]);
            }
        }
        if acc > 65535 {
            proof {
                let done = s@.subrange(start as int, i as int);
                let rest = s@.subrange(i as int, n as int);
                assert(d =~= done + rest);
                lemma_val_of_concat(done, rest);
                lemma_pow10_pos(rest.len());
                assert(val_of(done) * pow10(rest.len()) >= val_of(done)) by (nonlinear_arith)
                    requires
                        pow10(rest.len()) >= 1,
                ;
            }
            return None;
        }
    }
    proof {
        assert(s@.subrange(start as int, i as int) =~= d);
    }
    Some(acc as u16)
}

/// Why a frame failed to decode. A malformed frame and a well-formed
/// frame whose command is not recognized are distinct, recoverable
/// conditions: neither closes the connection.
#[derive(Clone, Copy, PartialEq, Eq, Structural, Debug)]
pub enum DecodeError {
    Malformed,
    UnknownCommand,
}

pub open spec fn tag_char(c: Command) -> char {
    match c {
        Command::NewConnection => 'n',
        Command::Put => 'p',
        Command::Get => 'g',
        Command::Register => 'r',
        Command::Replicate => 'c',
    }
}

pub open spec fn command_of_tag(c: char) -> Option<Command> {
    if c == 'n' {
        Some(Command::NewConnection)
    } else if c == 'p' {
        Some(Command::Put)
    } else if c == 'g' {
        Some(Command::Get)
    } else if c == 'r' {
        Some(Command::Register)
    } else if c == 'c' {
        Some(Command::Replicate)
    } else {
        None
    }
}

/// The frame that carries a message: tag, timestamp, key length,
/// value length, key, value.
pub open spec fn spec_encode(m: MessageView) -> Seq<char> {
    seq![tag_char(m.command)] + dec_of(m.timestamp as nat, FIELD_WIDTH as nat) + dec_of(
        m.key.len(),
        FIELD_WIDTH as nat,
    ) + dec_of(m.value.len(), FIELD_WIDTH as nat) + m.key + m.value
}

/// What a frame decodes to. The command tag is judged only once the
/// frame itself is well formed, so an unrecognized command is reported
/// as such and not as a malformed frame.
pub open spec fn spec_decode(s: Seq<char>) -> Result<MessageView, DecodeError> {
    if s.len() < HEADER_LEN {
        Err(DecodeError::Malformed)
    } else {
        let ts_digits = s.subrange(1, 21);
        let klen_digits = s.subrange(21, 41);
        let vlen_digits = s.subrange(41, 61);
        if !(all_digits(ts_digits) && all_digits(klen_digits) && all_digits(vlen_digits)) {
            Err(DecodeError::Malformed)
        } else {
            let ts = val_of(ts_digits);
            let klen = val_of(klen_digits);
            let vlen = val_of(vlen_digits);
            if ts > u64::MAX {
                Err(DecodeError::Malformed)
            } else if HEADER_LEN + klen + vlen != s.len() {
                Err(DecodeError::Malformed)
            } else {
                match command_of_tag(s[0]) {
                    Some(cmd) => Ok(
                        MessageView {
                            command: cmd,
                            key: s.subrange(HEADER_LEN as int, HEADER_LEN + klen),
                            value: s.subrange(HEADER_LEN + klen, s.len() as int),
                            timestamp: ts as u64,
                        },
                    ),
                    None => Err(DecodeError::UnknownCommand),
                }
            }
        }
    }
}

/// The command tag as a string slice.
fn tag_str(c: Command) -> (r: &'static str)
    ensures
        r@ =~= seq![tag_char(c)],
{
    proof {
        reveal_strlit("n");
        reveal_strlit("p");
        reveal_strlit("g");
        reveal_strlit("r");
        reveal_strlit("c");
    }
    match c {
        Command::NewConnection => "n",
        Command::Put => "p",
        Command::Get => "g",
        Command::Register => "r",
        Command::Replicate => "c",
    }
}

fn tag_of_char(c: char) -> (r: Option<Command>)
    ensures
        r == command_of_tag(c),
{
    match c {
        'n' => Some(Command::NewConnection),
        'p' => Some(Command::Put),
        'g' => Some(Command::Get),
        'r' => Some(Command::Register),
        'c' => Some(Command::Replicate),
        _ => None,
    }
}

/// Serializes a message into one frame.
pub fn encode(m: &Message) -> (r: String)
    ensures
        r@ == spec_encode(m@),
{
    let mut out = String::new();
    out.append(tag_str(m.command));
    push_dec(m.timestamp, FIELD_WIDTH, &mut out);
    let klen = m.key.as_str().unicode_len();
    let vlen = m.value.as_str().unicode_len();
    push_dec(klen as u64, FIELD_WIDTH, &mut out);
    push_dec(vlen as u64, FIELD_WIDTH, &mut out);
    out.append(m.key.as_str());
    out.append(m.value.as_str());
    proof {
        assert(out@ =~= spec_encode(m@));
    }
    out
}

/// Deserializes one frame back into a message, or reports why it
/// cannot be.
pub fn decode(s: &str) -> (r: Result<Message, DecodeError>)
    ensures
        match r {
            Ok(m) => spec_decode(s@) == Ok::<MessageView, DecodeError>(m@),
            Err(e) => spec_decode(s@) == Err::<MessageView, DecodeError>(e),
        },
{
    let n = s.unicode_len();
    if n < HEADER_LEN {
        return Err(DecodeError::Malformed);
    }
    let ts = match parse_field(s, 1) {
        Some(v) => v,
        None => {
            return Err(DecodeError::Malformed);
        },
    };
    let kl = match parse_field(s, 21) {
        Some(v) => v,
        None => {
            return Err(DecodeError::Malformed);
        },
    };
    let vl = match parse_field(s, 41) {
        Some(v) => v,
        None => {
            return Err(DecodeError::Malformed);
        },
    };
    if ts > u64::MAX as u128 {
        return Err(DecodeError::Malformed);
    }
    proof {
        lemma_pow10_20();
        lemma_val_of_bound(s@.subrange(21, 41));
        lemma_val_of_bound(s@.subrange(41, 61));
    }
    if (HEADER_LEN as u128) + kl + vl != n as u128 {
        return Err(DecodeError::Malformed);
    }
    let klen = kl as usize;
    let tag = s.get_char(0);
    let command = match tag_of_char(tag) {
        Some(c) => c,
        None => {
            return Err(DecodeError::UnknownCommand);
        },
    };
    let key = s.substring_char(HEADER_LEN, HEADER_LEN + klen).to_owned();
    let value = s.substring_char(HEADER_LEN + klen, n).to_owned();
    let m = Message { command, key, value, timestamp: ts as u64 };
    proof {
        assert(spec_decode(s@) == Ok::<MessageView, DecodeError>(m@)) by {
            assert(m@ =~= spec_decode(s@)->Ok_0);
        }
    }
    Ok(m)
}

/// Decoding inverts encoding: the codec is round-trip safe for every
/// message whose key and value fit the frame's length fields.
pub proof fn lemma_decode_encode(m: MessageView)
    requires
        m.key.len() < pow10(FIELD_WIDTH as nat),
        m.value.len() < pow10(FIELD_WIDTH as nat),
    ensures
        spec_decode(spec_encode(m)) == Ok::<MessageView, DecodeError>(m),
{
    let e = spec_encode(m);
    let w = FIELD_WIDTH as nat;
    let ts_block = dec_of(m.timestamp as nat, w);
    let klen_block = dec_of(m.key.len(), w);
    let vlen_block = dec_of(m.value.len(), w);
    lemma_dec_of_len(m.timestamp as nat, w);
    lemma_dec_of_len(m.key.len(), w);
    lemma_dec_of_len(m.value.len(), w);
    assert(e.len() == HEADER_LEN + m.key.len() + m.value.len());
    assert(e.subrange(1, 21) =~= ts_block);
    assert(e.subrange(21, 41) =~= klen_block);
    assert(e.subrange(41, 61) =~= vlen_block);
    lemma_pow10_20();
    lemma_val_of_dec_of(m.timestamp as nat, w);
    lemma_small_mod(m.timestamp as nat, pow10(w));
    lemma_val_of_dec_of(m.key.len(), w);
    lemma_small_mod(m.key.len(), pow10(w));
    lemma_val_of_dec_of(m.value.len(), w);
    lemma_small_mod(m.value.len(), pow10(w));
    assert(val_of(e.subrange(1, 21)) == m.timestamp as nat);
    assert(val_of(e.subrange(21, 41)) == m.key.len());
    assert(val_of(e.subrange(41, 61)) == m.value.len());
    assert(e[0] == tag_char(m.command));
    assert(command_of_tag(tag_char(m.command)) == Some(m.command));
    assert(e.subrange(HEADER_LEN as int, HEADER_LEN + m.key.len()) =~= m.key);
    assert(e.subrange(HEADER_LEN + m.key.len(), e.len() as int) =~= m.value);
    assert(spec_decode(e) is Ok);
    assert(spec_decode(e)->Ok_0 =~= m);
}

} // verus!
