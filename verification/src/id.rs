use vstd::prelude::*;
use vstd::string::*;
use crate::world::Id;

verus! {

/// The ID made of a millisecond timestamp and a 10-byte random number: the timestamp in the
/// most significant 48 bits (older bits are dropped) and the random number in the least
/// significant 80 bits.
pub fn id_from_timestamp_and_random(timestamp: u128, random: u128) -> (id: Id)
    requires
        random < 0x1_0000_0000_0000_0000_0000,
    ensures
        id.value == ((timestamp << 80u128) + random) as u128,
        id.value % 0x1_0000_0000_0000_0000_0000 == random,
        id.value / 0x1_0000_0000_0000_0000_0000 == timestamp % 0x1_0000_0000_0000,
{
    let high: u128 = timestamp << 80u128;
    assert(high % 0x1_0000_0000_0000_0000_0000 == 0) by (bit_vector)
        requires high == timestamp << 80u128;
    assert(high / 0x1_0000_0000_0000_0000_0000 == timestamp % 0x1_0000_0000_0000) by (bit_vector)
        requires high == timestamp << 80u128;
    assert(high + random <= u128::MAX) by (bit_vector)
        requires high == timestamp << 80u128, random < 0x1_0000_0000_0000_0000_0000u128;
    let value: u128 = high + random;
    assert(value % 0x1_0000_0000_0000_0000_0000 == random) by (bit_vector)
        requires value == high + random, high % 0x1_0000_0000_0000_0000_0000 == 0, random < 0x1_0000_0000_0000_0000_0000u128;
    assert(value / 0x1_0000_0000_0000_0000_0000 == high / 0x1_0000_0000_0000_0000_0000) by (bit_vector)
        requires value == high + random, high % 0x1_0000_0000_0000_0000_0000 == 0, random < 0x1_0000_0000_0000_0000_0000u128;
    Id::new(value)
}

/// A new ID from the current time, given in milliseconds since the Unix epoch, and a 10-byte
/// random number, drawn from the whole range of 80 bits (see [`id_from_timestamp_and_random`]).
pub fn generate_with_timestamp(timestamp: u128) -> (id: Id)
    ensures
        id.value / 0x1_0000_0000_0000_0000_0000 == timestamp % 0x1_0000_0000_0000,
{
    let random = crate::randomness::random_in_range(0, 0x1_0000_0000_0000_0000_0000);
    id_from_timestamp_and_random(timestamp, random)
}

/// A new ID made of a random 128-bit number.
pub fn generate_random() -> Id {
    Id::new(crate::randomness::random_u128())
}

/// The lowercase hexadecimal digit of `d` (below 16).
pub open spec fn hex_char(d: int) -> char {
    if d < 10 {
        (48 + d) as char
    } else {
        (87 + d) as char
    }
}

/// The value of a hexadecimal digit (either case), if `c` is one.
pub open spec fn hex_digit_value(c: char) -> Option<int> {
    if '0' <= c <= '9' {
        Some(c as int - 48)
    } else if 'a' <= c <= 'f' {
        Some(c as int - 87)
    } else if 'A' <= c <= 'F' {
        Some(c as int - 55)
    } else {
        None
    }
}

/// The `n` lowest hexadecimal digits of `v`, most significant first.
pub open spec fn hex_text(v: nat, n: nat) -> Seq<char>
    decreases n,
{
    if n == 0 {
        Seq::empty()
    } else {
        hex_text(v / 16, (n - 1) as nat).push(hex_char((v % 16) as int))
    }
}

/// Whether every character of `s` is a hexadecimal digit.
pub open spec fn all_hex_digits(s: Seq<char>) -> bool {
    forall|i: int| 0 <= i < s.len() ==> #[trigger] hex_digit_value(s[i]) is Some
}

/// The number that the hexadecimal digits `s` (most significant first) stand for.
pub open spec fn hex_value(s: Seq<char>) -> nat
    decreases s.len(),
{
    if s.len() == 0 {
        0
    } else {
        (hex_value(s.drop_last()) * 16 + hex_digit_value(s.last())->0) as nat
    }
}

/// 16 to the power `n`.
pub open spec fn pow16(n: nat) -> nat
    decreases n,
{
    if n == 0 {
        1
    } else {
        16 * pow16((n - 1) as nat)
    }
}

/// The text of `v` as 32 lowercase hexadecimal digits, the form in which IDs are stored.
pub open spec fn id_text(id: Id) -> Seq<char> {
    hex_text(id.value as nat, 32)
}

/// The digits of `hex_text` are hexadecimal digits whose value is `v` when `v` has at most
/// `n` digits.
proof fn lemma_hex_text_value(v: nat, n: nat)
    requires
        v < pow16(n),
    ensures
        hex_text(v, n).len() == n,
        all_hex_digits(hex_text(v, n)),
        hex_value(hex_text(v, n)) == v,
    decreases n,
{
    if n > 0 {
        let p = pow16((n - 1) as nat);
        assert(v / 16 < p) by (nonlinear_arith)
            requires v < 16 * p, p > 0;
        lemma_hex_text_value(v / 16, (n - 1) as nat);
        let t = hex_text(v, n);
        let c = hex_char((v % 16) as int);
        assert(t.drop_last() =~= hex_text(v / 16, (n - 1) as nat));
        assert(hex_digit_value(c) == Some((v % 16) as int));
        assert forall|i: int| 0 <= i < t.len() implies #[trigger] hex_digit_value(t[i]) is Some by {
            if i < t.len() - 1 {
                assert(t[i] == hex_text(v / 16, (n - 1) as nat)[i]);
            }
        }
        assert((v / 16) * 16 + v % 16 == v) by (nonlinear_arith);
    } else {
        assert(v == 0);
    }
}

/// `pow16(n)` is positive.
proof fn lemma_pow16_positive(n: nat)
    ensures
        pow16(n) > 0,
    decreases n,
{
    if n > 0 {
        lemma_pow16_positive((n - 1) as nat);
    }
}

/// The digit `d` (below 16) as a one-character string.
fn hex_digit_str(d: u128) -> (s: &'static str)
    requires
        d < 16,
    ensures
        s@ == seq![hex_char(d as int)],
{
    proof {
        reveal_strlit("0");
        reveal_strlit("1");
        reveal_strlit("2");
        reveal_strlit("3");
        reveal_strlit("4");
        reveal_strlit("5");
        reveal_strlit("6");
        reveal_strlit("7");
        reveal_strlit("8");
        reveal_strlit("9");
        reveal_strlit("a");
        reveal_strlit("b");
        reveal_strlit("c");
        reveal_strlit("d");
        reveal_strlit("e");
        reveal_strlit("f");
    }
    let s = if d == 0 {
        "0"
    } else if d == 1 {
        "1"
    } else if d == 2 {
        "2"
    } else if d == 3 {
        "3"
    } else if d == 4 {
        "4"
    } else if d == 5 {
        "5"
    } else if d == 6 {
        "6"
    } else if d == 7 {
        "7"
    } else if d == 8 {
        "8"
    } else if d == 9 {
        "9"
    } else if d == 10 {
        "a"
    } else if d == 11 {
        "b"
    } else if d == 12 {
        "c"
    } else if d == 13 {
        "d"
    } else if d == 14 {
        "e"
    } else {
        "f"
    };
    assert(s@ =~= seq![hex_char(d as int)]);
    s
}

/// The text form of an ID: its value as 32 lowercase hexadecimal digits.
pub fn encode_id(id: Id) -> (text: String)
    ensures
        text@ == id_text(id),
{
    // The digits, least significant first.
    let mut digits: Vec<u128> = Vec::new();
    let mut w: u128 = id.value;
    let ghost mut suffix: Seq<char> = Seq::empty();
    let mut i: usize = 0;
    while i < 32
        invariant
            i <= 32,
            digits@.len() == i,
            forall|j: int| 0 <= j < i ==> #[trigger] digits@[j] < 16,
            suffix == Seq::new(i as nat, |j: int| hex_char(digits@[i - 1 - j] as int)),
            hex_text(id.value as nat, 32) == hex_text(w as nat, (32 - i) as nat) + suffix,
        decreases 32 - i,
    {
        let d = w % 16;
        let ghost old_suffix = suffix;
        let ghost old_w = w;
        proof {
            let t = hex_text(old_w as nat, (32 - i) as nat);
            assert(t == hex_text((old_w / 16) as nat, (32 - i - 1) as nat).push(hex_char((old_w % 16) as int)));
            suffix = seq![hex_char(d as int)] + old_suffix;
            assert(t + old_suffix =~= hex_text((old_w / 16) as nat, (32 - i - 1) as nat) + suffix);
        }
        digits.push(d);
        w = w / 16;
        i = i + 1;
        proof {
            assert(suffix =~= Seq::new(i as nat, |j: int| hex_char(digits@[i - 1 - j] as int)));
        }
    }
    assert(hex_text(w as nat, 0) =~= Seq::<char>::empty());
    assert(hex_text(id.value as nat, 32) =~= suffix);
    let mut text = String::new();
    let mut k: usize = 32;
    while k > 0
        invariant
            k <= 32,
            digits@.len() == 32,
            forall|j: int| 0 <= j < 32 ==> #[trigger] digits@[j] < 16,
            suffix == Seq::new(32, |j: int| hex_char(digits@[31 - j] as int)),
            text@ == suffix.take(32 - k),
        decreases k,
    {
        k = k - 1;
        let piece = hex_digit_str(digits[k]);
        let ghost before = text@;
        text.append(piece);
        proof {
            assert(suffix[31 - k as int] == hex_char(digits@[k as int] as int));
            assert(text@ =~= suffix.take(32 - k));
        }
    }
    assert(suffix.take(32) =~= suffix);
    text
}

/// The ID whose text form is `text`: `text` must be 1 to 32 hexadecimal digits (either case),
/// standing for the ID's value; any other text is no ID.
pub fn decode_id(text: &str) -> (r: Option<Id>)
    ensures
        r == (if 1 <= text@.len() <= 32 && all_hex_digits(text@) {
            Some(Id { value: hex_value(text@) as u128 })
        } else {
            None
        }),
{
    let n = text.unicode_len();
    if n == 0 || n > 32 {
        return None;
    }
    let mut v: u128 = 0;
    let mut i: usize = 0;
    while i < n
        invariant
            n == text@.len(),
            1 <= n <= 32,
            i <= n,
            all_hex_digits(text@.take(i as int)),
            v == hex_value(text@.take(i as int)),
            v < pow16(i as nat),
        decreases n - i,
    {
        let c = text.get_char(i);
        let d: u128 = if '0' <= c && c <= '9' {
            (c as u128) - 48
        } else if 'a' <= c && c <= 'f' {
            (c as u128) - 87
        } else if 'A' <= c && c <= 'F' {
            (c as u128) - 55
        } else {
            proof {
                assert(hex_digit_value(text@[i as int]) is None);
                assert(!all_hex_digits(text@));
            }
            return None;
        };
        proof {
            assert(hex_digit_value(c) == Some(d as int));
            lemma_pow16_positive(i as nat);
            assert(pow16(i as nat) <= pow16(31)) by {
                lemma_pow16_monotone(i as nat, 31);
            }
            lemma_pow16_values();
            assert(v * 16 + d < 16 * pow16(i as nat)) by (nonlinear_arith)
                requires v < pow16(i as nat), d < 16;
            let t = text@.take(i + 1);
            assert(t.drop_last() =~= text@.take(i as int));
            assert(t.last() == c);
        }
        v = v * 16 + d;
        i = i + 1;
        proof {
            let t = text@.take(i as int);
            assert forall|j: int| 0 <= j < t.len() implies #[trigger] hex_digit_value(t[j]) is Some by {
                if j < i - 1 {
                    assert(t[j] == text@.take(i - 1)[j]);
                }
            }
        }
    }
    assert(text@.take(n as int) =~= text@);
    Some(Id::new(v))
}

/// The powers of 16 that bound the digits of an ID.
proof fn lemma_pow16_values()
    ensures
        pow16(31) == 0x1000_0000_0000_0000_0000_0000_0000_0000,
        pow16(32) == 0x1_0000_0000_0000_0000_0000_0000_0000_0000,
{
    reveal_with_fuel(pow16, 33);
}

/// `pow16` grows with its exponent.
proof fn lemma_pow16_monotone(a: nat, b: nat)
    requires
        a <= b,
    ensures
        pow16(a) <= pow16(b),
    decreases b,
{
    lemma_pow16_positive(b);
    if a < b {
        lemma_pow16_monotone(a, (b - 1) as nat);
    }
}

/// Decoding the text form of an ID gives the ID back.
pub proof fn law_id_text_round_trip(id: Id)
    ensures
        id_text(id).len() == 32,
        all_hex_digits(id_text(id)),
        hex_value(id_text(id)) == id.value,
{
    lemma_pow16_values();
    lemma_hex_text_value(id.value as nat, 32);
}

} // verus!
