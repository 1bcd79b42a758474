//! Wire key layout: the stable textual keys under which one service's
//! payload, event, and details channels live on the wire.
//!
//! A fingerprint `F` is rendered as sixteen lowercase hexadecimal digits,
//! and the three channels of that service live under `iox2/F/payload`,
//! `iox2/F/event` and `iox2/F/details`. The mapping from `(fingerprint,
//! channel kind)` to key is injective: distinct channels never share a key.

use vstd::arithmetic::div_mod::{
    lemma_div_denominator, lemma_div_multiples_vanish, lemma_fundamental_div_mod, lemma_mod_bound,
};
use vstd::arithmetic::power::{lemma_pow0, lemma_pow_positive, pow};
use vstd::prelude::*;

verus! {

/// The messaging channel a wire key addresses.
#[derive(Clone, Copy, PartialEq, Eq, Structural, Debug)]
pub enum ChannelKind {
    Payload,
    Event,
    Details,
}

/// The lowercase hexadecimal digit for a value in `0..16`.
pub open spec fn hex_char(d: int) -> char {
    if d == 0 {
        '0'
    } else if d == 1 {
        '1'
    } else if d == 2 {
        '2'
    } else if d == 3 {
        '3'
    } else if d == 4 {
        '4'
    } else if d == 5 {
        '5'
    } else if d == 6 {
        '6'
    } else if d == 7 {
        '7'
    } else if d == 8 {
        '8'
    } else if d == 9 {
        '9'
    } else if d == 10 {
        'a'
    } else if d == 11 {
        'b'
    } else if d == 12 {
        'c'
    } else if d == 13 {
        'd'
    } else if d == 14 {
        'e'
    } else {
        'f'
    }
}

/// Two values in `0..16` with the same hexadecimal digit are equal.
pub proof fn lemma_hex_char_injective(d1: int, d2: int)
    requires
        0 <= d1 < 16,
        0 <= d2 < 16,
        hex_char(d1) == hex_char(d2),
    ensures
        d1 == d2,
{
}

/// The `n` lowercase hexadecimal digits of `v`'s low `4 * n` bits, most
/// significant digit first.
pub open spec fn spec_hex_digits(v: int, n: nat) -> Seq<char>
    decreases n,
{
    if n == 0 {
        Seq::empty()
    } else {
        spec_hex_digits(v / 16, (n - 1) as nat).push(hex_char(v % 16))
    }
}

pub proof fn lemma_hex_digits_len(v: int, n: nat)
    ensures
        spec_hex_digits(v, n).len() == n,
    decreases n,
{
    if n > 0 {
        lemma_hex_digits_len(v / 16, (n - 1) as nat);
    }
}

/// Digit `i` (counting from the most significant end) of the `n`-digit
/// rendering of `v`.
pub proof fn lemma_hex_digits_index(v: int, n: nat, i: int)
    requires
        v >= 0,
        0 <= i < n,
    ensures
        spec_hex_digits(v, n)[i] == hex_char((v / pow(16, (n - 1 - i) as nat)) % 16),
    decreases n,
{
    lemma_hex_digits_len(v / 16, (n - 1) as nat);
    if i == n - 1 {
        lemma_pow0(16);
    } else {
        lemma_hex_digits_index(v / 16, (n - 1) as nat, i);
        lemma_pow_positive(16, (n - 2 - i) as nat);
        lemma_div_denominator(v, 16, pow(16, (n - 2 - i) as nat));
        assert(pow(16, (n - 1 - i) as nat) == 16 * pow(16, (n - 2 - i) as nat)) by {
            reveal(pow);
        }
    }
}

/// Values below `16^n` are determined by their `n`-digit rendering.
pub proof fn lemma_hex_digits_injective(v1: int, v2: int, n: nat)
    requires
        0 <= v1 < pow(16, n),
        0 <= v2 < pow(16, n),
        spec_hex_digits(v1, n) == spec_hex_digits(v2, n),
    ensures
        v1 == v2,
    decreases n,
{
    if n == 0 {
        lemma_pow0(16);
    } else {
        lemma_hex_digits_len(v1 / 16, (n - 1) as nat);
        lemma_hex_digits_len(v2 / 16, (n - 1) as nat);
        assert(spec_hex_digits(v1, n).last() == hex_char(v1 % 16));
        assert(spec_hex_digits(v2, n).last() == hex_char(v2 % 16));
        lemma_mod_bound(v1, 16);
        lemma_mod_bound(v2, 16);
        lemma_hex_char_injective(v1 % 16, v2 % 16);
        assert(spec_hex_digits(v1 / 16, (n - 1) as nat) =~= spec_hex_digits(v1, n).drop_last());
        assert(spec_hex_digits(v2 / 16, (n - 1) as nat) =~= spec_hex_digits(v2, n).drop_last());
        lemma_fundamental_div_mod(v1, 16);
        lemma_fundamental_div_mod(v2, 16);
        assert(pow(16, n) == 16 * pow(16, (n - 1) as nat)) by {
            reveal(pow);
        }
        lemma_hex_digits_injective(v1 / 16, v2 / 16, (n - 1) as nat);
    }
}

/// The powers of sixteen that bound a sixteen-digit rendering.
pub proof fn lemma_pow16_table()
    ensures
        pow(16, 15) == 0x1000_0000_0000_0000,
        pow(16, 16) == 0x1_0000_0000_0000_0000,
{
    reveal(pow);
    assert(pow(16, 0) == 1);
    assert(pow(16, 1) == 16);
    assert(pow(16, 2) == 0x100);
    assert(pow(16, 3) == 0x1000);
    assert(pow(16, 4) == 0x1_0000);
    assert(pow(16, 5) == 0x10_0000);
    assert(pow(16, 6) == 0x100_0000);
    assert(pow(16, 7) == 0x1000_0000);
    assert(pow(16, 8) == 0x1_0000_0000);
    assert(pow(16, 9) == 0x10_0000_0000);
    assert(pow(16, 10) == 0x100_0000_0000);
    assert(pow(16, 11) == 0x1000_0000_0000);
    assert(pow(16, 12) == 0x1_0000_0000_0000);
    assert(pow(16, 13) == 0x10_0000_0000_0000);
    assert(pow(16, 14) == 0x100_0000_0000_0000);
    assert(pow(16, 15) == 0x1000_0000_0000_0000);
    assert(pow(16, 16) == 0x1_0000_0000_0000_0000);
}

/// The single-character string for one hexadecimal digit.
fn hex_char_str(d: u64) -> (r: &'static str)
    requires
        d < 16,
    ensures
        r@ =~= seq![hex_char(d as int)],
{
    proof {
        reveal_strlit("0");
        reveal_strlit("1");
        reveal_strlit("2");
        reveal_strlit("3");
        reveal_strlit("4");
        reveal_strlit("5");
        reveal_strlit("6");
        reveal_strlit("7");
        reveal_strlit("8");
        reveal_strlit("9");
        reveal_strlit("a");
        reveal_strlit("b");
        reveal_strlit("c");
        reveal_strlit("d");
        reveal_strlit("e");
        reveal_strlit("f");
    }
    if d == 0 {
        "0"
    } else if d == 1 {
        "1"
    } else if d == 2 {
        "2"
    } else if d == 3 {
        "3"
    } else if d == 4 {
        "4"
    } else if d == 5 {
        "5"
    } else if d == 6 {
        "6"
    } else if d == 7 {
        "7"
    } else if d == 8 {
        "8"
    } else if d == 9 {
        "9"
    } else if d == 10 {
        "a"
    } else if d == 11 {
        "b"
    } else if d == 12 {
        "c"
    } else if d == 13 {
        "d"
    } else if d == 14 {
        "e"
    } else {
        "f"
    }
}

/// The sixteen-digit lowercase hexadecimal rendering of a 64-bit value.
pub open spec fn hex16(v: u64) -> Seq<char> {
    spec_hex_digits(v as int, 16)
}

/// Renders a 64-bit value as sixteen lowercase hexadecimal digits.
pub fn hex16_string(f: u64) -> (r: String)
    ensures
        r@ == hex16(f),
{
    let mut s = String::new();
    let mut div: u64 = 0x1000_0000_0000_0000;
    let mut k: usize = 0;
    proof {
        lemma_pow16_table();
        lemma_hex_digits_len(f as int, 16);
        assert(s@ =~= spec_hex_digits(f as int, 16).subrange(0, 0));
    }
    while k < 16
        invariant
            k <= 16,
            k < 16 ==> div as int == pow(16, (15 - k) as nat),
            s@ =~= spec_hex_digits(f as int, 16).subrange(0, k as int),
        decreases 16 - k,
    {
        proof {
            lemma_pow_positive(16, (15 - k) as nat);
            lemma_mod_bound(f as int / div as int, 16);
        }
        let d = (f / div) % 16;
        let digit = hex_char_str(d);
        s.append(digit);
        proof {
            lemma_hex_digits_len(f as int, 16);
            lemma_hex_digits_index(f as int, 16, k as int);
            assert(s@ =~= spec_hex_digits(f as int, 16).subrange(0, k as int + 1));
            if k < 15 {
                assert(pow(16, (15 - k) as nat) == 16 * pow(16, (14 - k) as nat)) by {
                    reveal(pow);
                }
                lemma_div_multiples_vanish(pow(16, (14 - k) as nat), 16);
            }
        }
        div = div / 16;
        k = k + 1;
    }
    proof {
        lemma_hex_digits_len(f as int, 16);
        assert(s@ =~= spec_hex_digits(f as int, 16));
    }
    s
}

/// The leading characters shared by every wire key.
pub open spec fn key_prefix() -> Seq<char> {
    seq!['i', 'o', 'x', '2', '/']
}

/// The trailing characters that select one channel of a service.
pub open spec fn kind_suffix(kind: ChannelKind) -> Seq<char> {
    match kind {
        ChannelKind::Payload => seq!['/', 'p', 'a', 'y', 'l', 'o', 'a', 'd'],
        ChannelKind::Event => seq!['/', 'e', 'v', 'e', 'n', 't'],
        ChannelKind::Details => seq!['/', 'd', 'e', 't', 'a', 'i', 'l', 's'],
    }
}

/// The full wire key of one channel of one service.
pub open spec fn spec_service_key(f: u64, kind: ChannelKind) -> Seq<char> {
    key_prefix() + hex16(f) + kind_suffix(kind)
}

/// Distinct `(fingerprint, channel kind)` pairs map to distinct wire keys.
pub proof fn lemma_service_key_injective(f1: u64, k1: ChannelKind, f2: u64, k2: ChannelKind)
    requires
        spec_service_key(f1, k1) == spec_service_key(f2, k2),
    ensures
        f1 == f2,
        k1 == k2,
{
    lemma_hex_digits_len(f1 as int, 16);
    lemma_hex_digits_len(f2 as int, 16);
    let s1 = spec_service_key(f1, k1);
    let s2 = spec_service_key(f2, k2);
    assert(s1[22] == kind_suffix(k1)[1]);
    assert(s2[22] == kind_suffix(k2)[1]);
    assert(s1.len() == 21 + kind_suffix(k1).len());
    assert(s2.len() == 21 + kind_suffix(k2).len());
    assert(k1 == k2);
    assert forall|i: int| 0 <= i < 16 implies spec_hex_digits(f1 as int, 16)[i] == spec_hex_digits(
        f2 as int,
        16,
    )[i] by {
        assert(s1[5 + i] == spec_hex_digits(f1 as int, 16)[i]);
        assert(s2[5 + i] == spec_hex_digits(f2 as int, 16)[i]);
    }
    assert(spec_hex_digits(f1 as int, 16) =~= spec_hex_digits(f2 as int, 16));
    lemma_pow16_table();
    lemma_hex_digits_injective(f1 as int, f2 as int, 16);
}

/// The wire key of one channel of a service, as a string.
pub fn service_key(fingerprint: u64, kind: ChannelKind) -> (r: String)
    ensures
        r@ == spec_service_key(fingerprint, kind),
{
    proof {
        reveal_strlit("iox2/");
        reveal_strlit("/payload");
        reveal_strlit("/event");
        reveal_strlit("/details");
    }
    let mut s = String::from_str("iox2/");
    proof {
        assert(s@ =~= key_prefix());
    }
    let hex = hex16_string(fingerprint);
    s.append(hex.as_str());
    match kind {
        ChannelKind::Payload => s.append("/payload"),
        ChannelKind::Event => s.append("/event"),
        ChannelKind::Details => s.append("/details"),
    }
    proof {
        assert(s@ =~= spec_service_key(fingerprint, kind));
    }
    s
}

/// The wire key carrying payload samples of the given service.
pub fn publish_subscribe(fingerprint: u64) -> (r: String)
    ensures
        r@ == spec_service_key(fingerprint, ChannelKind::Payload),
{
    service_key(fingerprint, ChannelKind::Payload)
}

/// The wire key carrying event notifications of the given service.
pub fn event(fingerprint: u64) -> (r: String)
    ensures
        r@ == spec_service_key(fingerprint, ChannelKind::Event),
{
    service_key(fingerprint, ChannelKind::Event)
}

/// The wire key carrying the announced descriptor of the given service.
pub fn service_details(fingerprint: u64) -> (r: String)
    ensures
        r@ == spec_service_key(fingerprint, ChannelKind::Details),
{
    service_key(fingerprint, ChannelKind::Details)
}

} // verus!
