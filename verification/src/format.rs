//! Plain-text rendering of numbers and identifiers for the front-ends.
//!
//! Sizes and frequencies are scaled to a readable unit with two decimal
//! digits, truncated; long identifiers are abbreviated around an ellipsis;
//! a digest prints as unpadded lowercase hex, one or two digits per byte.

use vstd::prelude::*;
use vstd::string::StrSliceExecFns;
use vstd::string::StringExecFns;

use crate::authz::hex_char;
use crate::authz::push_char;

verus! {

/// The decimal digits of a number, most significant first.
pub open spec fn dec_of(n: nat) -> Seq<char>
    decreases n,
{
    if n < 10 {
        seq![hex_char(n as int)]
    } else {
        dec_of(n / 10) + seq![hex_char((n % 10) as int)]
    }
}

/// Prints a number in decimal.
pub fn u64_to_dec(n: u64) -> (r: String)
    ensures
        r@ == dec_of(n as nat),
    decreases n,
{
    if n < 10 {
        let mut out = String::new();
        let d = (n % 10) as u8;
        push_char(&mut out, (48 + d) as char);
        proof {
            assert(out@ =~= seq![hex_char(n as int)]);
        }
        out
    } else {
        let mut out = u64_to_dec(n / 10);
        let d = (n % 10) as u8;
        push_char(&mut out, (48 + d) as char);
        proof {
            assert(out@ =~= dec_of((n / 10) as nat) + seq![hex_char((n % 10) as int)]);
        }
        out
    }
}

/// A quantity scaled down by `divisor`, printed with two truncated
/// decimal digits: the whole part, a dot, then hundredths.
pub open spec fn scaled_two_places(value: nat, divisor: nat) -> Seq<char>
    recommends
        divisor > 0,
{
    let hundredths = value * 100 / divisor;
    dec_of(hundredths / 100) + seq!['.'] + seq![
        hex_char(((hundredths / 10) % 10) as int),
        hex_char((hundredths % 10) as int),
    ]
}

/// Prints `value / divisor` with two truncated decimal places.
fn format_two_places(value: u64, divisor: u64) -> (r: String)
    requires
        divisor > 0,
        value <= 0x00ff_ffff_ffff_ffff,
    ensures
        r@ == scaled_two_places(value as nat, divisor as nat),
{
    proof {
        assert((value as int) * 100 <= 0x00ff_ffff_ffff_ffff * 100) by (nonlinear_arith)
            requires
                value <= 0x00ff_ffff_ffff_ffff,
        ;
        assert((value as int) * 100 / (divisor as int) <= (value as int) * 100) by (nonlinear_arith)
            requires
                (divisor as int) > 0,
                (value as int) >= 0,
        ;
    }
    let hundredths = value * 100 / divisor;
    let mut out = u64_to_dec(hundredths / 100);
    push_char(&mut out, '.');
    let tens = ((hundredths / 10) % 10) as u8;
    let ones = (hundredths % 10) as u8;
    push_char(&mut out, (48 + tens) as char);
    push_char(&mut out, (48 + ones) as char);
    proof {
        assert(out@ =~= scaled_two_places(value as nat, divisor as nat));
    }
    out
}

/// What a byte count prints as: the exact count in bytes below one
/// kibibyte, else two truncated decimal places of the largest binary unit
/// it reaches.
pub open spec fn size_text(bytes: nat) -> Seq<char> {
    if bytes < 1024 {
        dec_of(bytes) + " B"@
    } else if bytes < 1024 * 1024 {
        scaled_two_places(bytes, 1024) + " KiB"@
    } else if bytes < 1024 * 1024 * 1024 {
        scaled_two_places(bytes, 1024 * 1024) + " MiB"@
    } else if bytes < 1024 * 1024 * 1024 * 1024 {
        scaled_two_places(bytes, 1024 * 1024 * 1024) + " GiB"@
    } else {
        scaled_two_places(bytes, 1024 * 1024 * 1024 * 1024) + " TiB"@
    }
}

/// Prints a byte count in its largest binary unit.
pub fn format_size(bytes: u64) -> (r: String)
    requires
        bytes <= 0x00ff_ffff_ffff_ffff,
    ensures
        r@ == size_text(bytes as nat),
{
    if bytes < 1024 {
        let mut out = u64_to_dec(bytes);
        out.append(" B");
        out
    } else if bytes < 1024 * 1024 {
        let mut out = format_two_places(bytes, 1024);
        out.append(" KiB");
        out
    } else if bytes < 1024 * 1024 * 1024 {
        let mut out = format_two_places(bytes, 1024 * 1024);
        out.append(" MiB");
        out
    } else if bytes < 1024 * 1024 * 1024 * 1024 {
        let mut out = format_two_places(bytes, 1024 * 1024 * 1024);
        out.append(" GiB");
        out
    } else {
        let mut out = format_two_places(bytes, 1024 * 1024 * 1024 * 1024);
        out.append(" TiB");
        out
    }
}

/// What a frequency prints as: gigahertz or megahertz with two truncated
/// decimal places when it reaches them, else exact hertz.
pub open spec fn frequency_text(hz: nat) -> Seq<char> {
    if hz >= 1000000000 {
        scaled_two_places(hz, 1000000000) + " GHz"@
    } else if hz >= 1000000 {
        scaled_two_places(hz, 1000000) + " MHz"@
    } else {
        dec_of(hz) + " Hz"@
    }
}

/// Prints a frequency in the largest unit it reaches.
pub fn format_frequency(freq: u64) -> (r: String)
    requires
        freq <= 0x00ff_ffff_ffff_ffff,
    ensures
        r@ == frequency_text(freq as nat),
{
    if freq >= 1000000000 {
        let mut out = format_two_places(freq, 1000000000);
        out.append(" GHz");
        out
    } else if freq >= 1000000 {
        let mut out = format_two_places(freq, 1000000);
        out.append(" MHz");
        out
    } else {
        let mut out = u64_to_dec(freq);
        out.append(" Hz");
        out
    }
}

/// What an identifier abbreviates to: itself when short, else its first
/// `prefix` and last `suffix` characters around an ellipsis.
pub open spec fn abbreviated(s: Seq<char>, prefix: int, suffix: int) -> Seq<char> {
    if s.len() <= prefix + suffix + 1 {
        s
    } else {
        s.subrange(0, prefix) + seq!['…'] + s.subrange(s.len() - suffix, s.len() as int)
    }
}

/// Abbreviates an identifier around an ellipsis.
fn abbreviate(s: &str, prefix: usize, suffix: usize) -> (r: String)
    requires
        prefix + suffix + 1 <= usize::MAX,
    ensures
        r@ == abbreviated(s@, prefix as int, suffix as int),
{
    let len = s.unicode_len();
    if len <= prefix + suffix + 1 {
        s.to_owned()
    } else {
        let mut out = s.substring_char(0, prefix).to_owned();
        push_char(&mut out, '…');
        out.append(s.substring_char(len - suffix, len));
        proof {
            assert(out@ =~= abbreviated(s@, prefix as int, suffix as int));
        }
        out
    }
}

/// Abbreviates a peer identifier to its first eight and last six
/// characters.
pub fn abbreviate_peer_id(id: &str) -> (r: String)
    ensures
        r@ == abbreviated(id@, 8, 6),
{
    abbreviate(id, 8, 6)
}

/// Abbreviates a printed digest to its first and last eight characters.
pub fn abbreviate_hash(hash_hex: &str) -> (r: String)
    ensures
        r@ == abbreviated(hash_hex@, 8, 8),
{
    abbreviate(hash_hex, 8, 8)
}

/// What a digest prints as: lowercase hex without zero padding, so a byte
/// below sixteen takes a single digit.
pub open spec fn hex_unpadded_of(data: Seq<u8>) -> Seq<char>
    decreases data.len(),
{
    if data.len() == 0 {
        Seq::empty()
    } else {
        hex_unpadded_of(data.drop_last()) + if data.last() < 16 {
            seq![hex_char(data.last() as int)]
        } else {
            seq![hex_char((data.last() / 16) as int), hex_char((data.last() % 16) as int)]
        }
    }
}

/// Prints a digest as unpadded lowercase hex.
#[verifier::loop_isolation(false)]
pub fn convert_hash_to_string(hash: &[u8]) -> (r: String)
    ensures
        r@ == hex_unpadded_of(hash@),
{
    let mut out = String::new();
    let mut i: usize = 0;
    while i < hash.len()
        invariant
            i <= hash@.len(),
            out@ =~= hex_unpadded_of(hash@.take(i as int)),
        decreases hash@.len() - i,
    {
        let b = hash[i];
        if b < 16 {
            push_char(&mut out, if b < 10 {
                (48 + b) as char
            } else {
                (87 + b) as char
            });
        } else {
            let hi = b / 16;
            let lo = b % 16;
            push_char(&mut out, if hi < 10 {
                (48 + hi) as char
            } else {
                (87 + hi) as char
            });
            push_char(&mut out, if lo < 10 {
                (48 + lo) as char
            } else {
                (87 + lo) as char
            });
        }
        proof {
            let cur = hash@.take(i + 1);
            assert(cur.drop_last() =~= hash@.take(i as int));
            assert(cur.last() == b);
            assert(out@ =~= hex_unpadded_of(cur));
        }
        i += 1;
    }
    proof {
        assert(hash@.take(hash@.len() as int) =~= hash@);
    }
    out
}

/// A decimal digit.
pub open spec fn is_digit(c: char) -> bool {
    '0' <= c && c <= '9'
}

/// Every character is a decimal digit.
pub open spec fn all_digits(s: Seq<char>) -> bool {
    forall|i: int| 0 <= i < s.len() ==> is_digit(#[trigger] s[i])
}

/// The value of a digit string, most significant first.
pub open spec fn digits_val(s: Seq<char>) -> nat
    decreases s.len(),
{
    if s.len() == 0 {
        0
    } else {
        digits_val(s.drop_last()) * 10 + ((s.last() as int - 48) as nat)
    }
}

/// What a version label parses to: the number it spells — an optional
/// leading plus, then digits that fit — and zero for anything else.
pub open spec fn version_of(label: Option<Seq<char>>) -> u32 {
    match label {
        Option::None => 0u32,
        Option::Some(s) => {
            let body = if s.len() > 0 && s[0] == '+' {
                s.drop_first()
            } else {
                s
            };
            if body.len() > 0 && all_digits(body) && digits_val(body) <= u32::MAX {
                digits_val(body) as u32
            } else {
                0u32
            }
        },
    }
}

/// Appending digits never shrinks the value.
proof fn lemma_digits_val_monotone(s: Seq<char>, i: int)
    requires
        0 <= i <= s.len(),
    ensures
        digits_val(s.take(i)) <= digits_val(s),
    decreases s.len() - i,
{
    if i < s.len() {
        lemma_digits_val_monotone(s, i + 1);
        assert(s.take(i + 1).drop_last() =~= s.take(i));
        assert(digits_val(s.take(i + 1)) == digits_val(s.take(i)) * 10 + ((s.take(
            i + 1,
        ).last() as int - 48) as nat));
        assert(digits_val(s.take(i)) <= digits_val(s.take(i)) * 10) by (nonlinear_arith);
    } else {
        assert(s.take(i) =~= s);
    }
}

/// Parses the compile-time version label the build was given: the spelled
/// number, or zero when there is none or it does not parse.
#[verifier::loop_isolation(false)]
pub fn get_version(label: Option<&str>) -> (r: u32)
    ensures
        r == version_of(match label {
            Option::Some(s) => Option::Some(s@),
            Option::None => Option::<Seq<char>>::None,
        }),
{
    let s = match label {
        Some(s) => s,
        None => {
            return 0;
        },
    };
    let len = s.unicode_len();
    let skip_plus: usize = if len > 0 && s.get_char(0) == '+' {
        1
    } else {
        0
    };
    let ghost body = if skip_plus == 1 {
        s@.drop_first()
    } else {
        s@
    };
    proof {
        assert(body =~= s@.skip(skip_plus as int));
    }
    if len == skip_plus {
        return 0;
    }
    let mut acc: u64 = 0;
    let mut i: usize = skip_plus;
    while i < len
        invariant
            skip_plus <= i <= len,
            all_digits(body.take(i - skip_plus)),
            acc == digits_val(body.take(i - skip_plus)),
            acc <= u32::MAX,
        decreases len - i,
    {
        let c = s.get_char(i);
        let code = c as u32;
        if code < 48 || code > 57 {
            proof {
                assert(body[i - skip_plus] == s@[i as int]);
                assert(!is_digit(body[i - skip_plus]));
                assert(!all_digits(body));
            }
            return 0;
        }
        let d = (code - 48) as u64;
        let next = acc * 10 + d;
        proof {
            assert(body.take(i - skip_plus + 1).drop_last() =~= body.take(i - skip_plus));
            assert(body.take(i - skip_plus + 1).last() == s@[i as int]);
        }
        if next > u32::MAX as u64 {
            proof {
                lemma_digits_val_monotone(body, i - skip_plus + 1);
            }
            return 0;
        }
        acc = next;
        i += 1;
    }
    proof {
        assert(body.take(len - skip_plus) =~= body);
    }
    acc as u32
}

} // verus!
