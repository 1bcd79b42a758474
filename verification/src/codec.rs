//! The self-describing textual encoding of a service descriptor, used to
//! announce services on the wire and to decode peer announcements.
//!
//! Numbers are rendered as sixteen lowercase hexadecimal digits; the two
//! variable-length fields (service name, payload type name) are length
//! prefixed. Encoding and decoding invert one another exactly.

use crate::descriptor::{
    MessagingPattern, MessagingPatternView, PayloadShape, ServiceDescriptor, ServiceDescriptorView,
    TypeIdentity, TypeIdentityView,
};
use crate::keys::{
    hex16, hex16_string, hex_char, lemma_hex_digits_len, spec_hex_digits,
};
use vstd::arithmetic::div_mod::{lemma_fundamental_div_mod, lemma_mod_bound};
use vstd::arithmetic::power::{lemma_pow0, lemma_pow_increases, pow};
use vstd::prelude::*;
use vstd::string::StrSliceExecFns;

verus! {

/// The numeric value of a lowercase hexadecimal digit, `-1` otherwise.
pub open spec fn hex_char_value(c: char) -> int {
    if c == '0' {
        0
    } else if c == '1' {
        1
    } else if c == '2' {
        2
    } else if c == '3' {
        3
    } else if c == '4' {
        4
    } else if c == '5' {
        5
    } else if c == '6' {
        6
    } else if c == '7' {
        7
    } else if c == '8' {
        8
    } else if c == '9' {
        9
    } else if c == 'a' {
        10
    } else if c == 'b' {
        11
    } else if c == 'c' {
        12
    } else if c == 'd' {
        13
    } else if c == 'e' {
        14
    } else if c == 'f' {
        15
    } else {
        -1
    }
}

pub open spec fn is_hex_char(c: char) -> bool {
    hex_char_value(c) >= 0
}

proof fn lemma_hex_char_value_inverse(d: int)
    requires
        0 <= d < 16,
    ensures
        hex_char_value(hex_char(d)) == d,
        is_hex_char(hex_char(d)),
{
}

/// The numeric value of a string of hexadecimal digits, most significant
/// digit first.
pub open spec fn spec_hex_value(s: Seq<char>) -> int
    decreases s.len(),
{
    if s.len() == 0 {
        0
    } else {
        16 * spec_hex_value(s.drop_last()) + hex_char_value(s.last())
    }
}

/// Reading back the digits of `v` yields `v`.
proof fn lemma_hex_value_of_digits(v: int, n: nat)
    requires
        0 <= v < pow(16, n),
    ensures
        spec_hex_value(spec_hex_digits(v, n)) == v,
    decreases n,
{
    if n == 0 {
        lemma_pow0(16);
    } else {
        lemma_hex_digits_len(v / 16, (n - 1) as nat);
        let s = spec_hex_digits(v, n);
        assert(s.last() == hex_char(v % 16));
        assert(s.drop_last() =~= spec_hex_digits(v / 16, (n - 1) as nat));
        lemma_mod_bound(v, 16);
        lemma_hex_char_value_inverse(v % 16);
        assert(pow(16, n) == 16 * pow(16, (n - 1) as nat)) by {
            reveal(pow);
        }
        lemma_fundamental_div_mod(v, 16);
        lemma_hex_value_of_digits(v / 16, (n - 1) as nat);
    }
}

/// Every digit of a rendering is a hexadecimal digit character.
proof fn lemma_hex_digits_are_hex(v: int, n: nat)
    requires
        v >= 0,
    ensures
        forall|i: int|
            0 <= i < n ==> is_hex_char(#[trigger] spec_hex_digits(v, n)[i]),
    decreases n,
{
    lemma_hex_digits_len(v, n);
    if n > 0 {
        lemma_hex_digits_len(v / 16, (n - 1) as nat);
        lemma_hex_digits_are_hex(v / 16, (n - 1) as nat);
        lemma_mod_bound(v, 16);
        lemma_hex_char_value_inverse(v % 16);
        assert forall|i: int| 0 <= i < n implies is_hex_char(
            #[trigger] spec_hex_digits(v, n)[i],
        ) by {
            if i < n - 1 {
                assert(spec_hex_digits(v, n)[i] == spec_hex_digits(v / 16, (n - 1) as nat)[i]);
            } else {
                assert(spec_hex_digits(v, n)[i] == hex_char(v % 16));
            }
        }
    }
}

/// A string of hexadecimal digits has a value below `16^len`.
proof fn lemma_hex_value_bound(s: Seq<char>)
    requires
        forall|i: int| 0 <= i < s.len() ==> is_hex_char(#[trigger] s[i]),
    ensures
        0 <= spec_hex_value(s) < pow(16, s.len()),
    decreases s.len(),
{
    if s.len() == 0 {
        lemma_pow0(16);
    } else {
        assert(forall|i: int|
            0 <= i < s.drop_last().len() ==> is_hex_char(#[trigger] s.drop_last()[i]));
        lemma_hex_value_bound(s.drop_last());
        assert(is_hex_char(s.last()));
        assert(pow(16, s.len()) == 16 * pow(16, (s.len() - 1) as nat)) by {
            reveal(pow);
        }
    }
}

/// The numeric value of one hexadecimal digit character.
fn hex_digit_value(c: char) -> (r: Option<u64>)
    ensures
        match r {
            Some(d) => d < 16 && d as int == hex_char_value(c),
            None => !is_hex_char(c),
        },
{
    if c == '0' {
        Some(0)
    } else if c == '1' {
        Some(1)
    } else if c == '2' {
        Some(2)
    } else if c == '3' {
        Some(3)
    } else if c == '4' {
        Some(4)
    } else if c == '5' {
        Some(5)
    } else if c == '6' {
        Some(6)
    } else if c == '7' {
        Some(7)
    } else if c == '8' {
        Some(8)
    } else if c == '9' {
        Some(9)
    } else if c == 'a' {
        Some(10)
    } else if c == 'b' {
        Some(11)
    } else if c == 'c' {
        Some(12)
    } else if c == 'd' {
        Some(13)
    } else if c == 'e' {
        Some(14)
    } else if c == 'f' {
        Some(15)
    } else {
        None
    }
}

/// Consume a literal from the front of the input.
pub open spec fn spec_expect(s: Seq<char>, lit: Seq<char>) -> Option<Seq<char>> {
    if lit.len() <= s.len() && s.subrange(0, lit.len() as int) == lit {
        Some(s.skip(lit.len() as int))
    } else {
        None
    }
}

/// Consume sixteen hexadecimal digits from the front of the input.
pub open spec fn spec_parse_hex16(s: Seq<char>) -> Option<(u64, Seq<char>)> {
    if s.len() >= 16 && (forall|k: int| 0 <= k < 16 ==> is_hex_char(#[trigger] s[k])) {
        Some((spec_hex_value(s.subrange(0, 16)) as u64, s.skip(16)))
    } else {
        None
    }
}

/// Consume `n` characters from the front of the input.
pub open spec fn spec_take(s: Seq<char>, n: int) -> Option<(Seq<char>, Seq<char>)> {
    if 0 <= n <= s.len() {
        Some((s.take(n), s.skip(n)))
    } else {
        None
    }
}

/// Consume the literal `lit` from the front of `s`, returning the rest.
fn expect<'a>(s: &'a str, lit: &str) -> (r: Option<&'a str>)
    ensures
        match r {
            Some(rest) => spec_expect(s@, lit@) == Some(rest@),
            None => spec_expect(s@, lit@) is None,
        },
{
    let n = lit.unicode_len();
    let s_len = s.unicode_len();
    if n > s_len {
        return None;
    }
    let mut k: usize = 0;
    while k < n
        invariant
            k <= n,
            n <= s_len,
            n == lit@.len(),
            s_len == s@.len(),
            forall|j: int| 0 <= j < k ==> s@[j] == lit@[j],
        decreases n - k,
    {
        if s.get_char(k) != lit.get_char(k) {
            proof {
                assert(s@.subrange(0, n as int)[k as int] != lit@[k as int]);
            }
            return None;
        }
        k = k + 1;
    }
    proof {
        assert(s@.subrange(0, n as int) =~= lit@);
    }
    let rest = s.substring_char(n, s_len);
    proof {
        assert(rest@ =~= s@.skip(n as int));
    }
    Some(rest)
}

/// Consume sixteen hexadecimal digits from the front of `s`, returning
/// their value and the rest.
fn parse_hex16<'a>(s: &'a str) -> (r: Option<(u64, &'a str)>)
    ensures
        match r {
            Some((v, rest)) => spec_parse_hex16(s@) == Some((v, rest@)),
            None => spec_parse_hex16(s@) is None,
        },
{
    let s_len = s.unicode_len();
    if s_len < 16 {
        return None;
    }
    let mut acc: u64 = 0;
    let mut k: usize = 0;
    proof {
        crate::keys::lemma_pow16_table();
        lemma_pow0(16);
        assert(acc as int == spec_hex_value(s@.subrange(0, 0)));
    }
    while k < 16
        invariant
            k <= 16,
            16 <= s_len,
            s_len == s@.len(),
            forall|j: int| 0 <= j < k ==> is_hex_char(#[trigger] s@[j]),
            acc as int == spec_hex_value(s@.subrange(0, k as int)),
            (acc as int) < pow(16, k as nat),
        decreases 16 - k,
    {
        let c = s.get_char(k);
        match hex_digit_value(c) {
            None => {
                return None;
            },
            Some(d) => {
                proof {
                    crate::keys::lemma_pow16_table();
                    lemma_pow_increases(16, k as nat, 15);
                    assert(acc as int <= pow(16, 15) - 1);
                    let sub1 = s@.subrange(0, k as int + 1);
                    assert(sub1.drop_last() =~= s@.subrange(0, k as int));
                    assert(sub1.last() == c);
                    assert(pow(16, (k + 1) as nat) == 16 * pow(16, k as nat)) by {
                        reveal(pow);
                    }
                }
                acc = acc * 16 + d;
            },
        }
        k = k + 1;
    }
    proof {
        crate::keys::lemma_pow16_table();
        assert(s@.subrange(0, 16) =~= s@.subrange(0, 16));
    }
    let rest = s.substring_char(16, s_len);
    proof {
        assert(rest@ =~= s@.skip(16));
    }
    Some((acc, rest))
}

/// Consume `n` characters from the front of `s`, returning them as an
/// owned string together with the rest.
fn take_chars<'a>(s: &'a str, n: usize) -> (r: Option<(String, &'a str)>)
    ensures
        match r {
            Some((t, rest)) => spec_take(s@, n as int) == Some((t@, rest@)),
            None => spec_take(s@, n as int) is None,
        },
{
    let s_len = s.unicode_len();
    if n > s_len {
        return None;
    }
    let taken = s.substring_char(0, n).to_owned();
    let rest = s.substring_char(n, s_len);
    proof {
        assert(taken@ =~= s@.take(n as int));
        assert(rest@ =~= s@.skip(n as int));
    }
    Some((taken, rest))
}

/// The textual form of a messaging pattern with its parameters.
pub open spec fn spec_encode_pattern(p: MessagingPatternView) -> Seq<char> {
    match p {
        MessagingPatternView::PublishSubscribe {
            shape,
            payload_type,
            history_size,
            max_subscribers,
        } => "pattern publish-subscribe\nshape "@ + (if shape == PayloadShape::Fixed {
            "fixed"@
        } else {
            "slice"@
        }) + "\ntype "@ + hex16(payload_type.name.len() as u64) + " "@ + payload_type.name
            + "\nsize "@ + hex16(payload_type.size) + "\nalignment "@ + hex16(payload_type.align)
            + "\nhistory "@ + hex16(history_size) + "\nsubscribers "@ + hex16(max_subscribers)
            + "\n"@,
        MessagingPatternView::Event { max_notifiers, greatest_event_id } => {
            "pattern event\nnotifiers "@ + hex16(max_notifiers) + "\ngreatest-id "@ + hex16(
                greatest_event_id,
            ) + "\n"@
        },
    }
}

/// The textual form of a service descriptor.
pub open spec fn spec_encode(d: ServiceDescriptorView) -> Seq<char> {
    "service\nfingerprint "@ + hex16(d.fingerprint) + "\nname "@ + hex16(d.name.len() as u64)
        + " "@ + d.name + "\n"@ + spec_encode_pattern(d.pattern)
}

/// The remainder of a publish-subscribe pattern after its shape word.
pub open spec fn spec_decode_pubsub_tail(s: Seq<char>, shape: PayloadShape) -> Option<
    MessagingPatternView,
> {
    match spec_expect(s, "\ntype "@) {
        None => None,
        Some(s1) => match spec_parse_hex16(s1) {
            None => None,
            Some((type_len, s2)) => match spec_expect(s2, " "@) {
                None => None,
                Some(s3) => match spec_take(s3, type_len as int) {
                    None => None,
                    Some((elem_name, s4)) => match spec_expect(s4, "\nsize "@) {
                        None => None,
                        Some(s5) => match spec_parse_hex16(s5) {
                            None => None,
                            Some((size, s6)) => match spec_expect(s6, "\nalignment "@) {
                                None => None,
                                Some(s7) => match spec_parse_hex16(s7) {
                                    None => None,
                                    Some((align, s8)) => match spec_expect(s8, "\nhistory "@) {
                                        None => None,
                                        Some(s9) => match spec_parse_hex16(s9) {
                                            None => None,
                                            Some((history_size, s10)) => match spec_expect(
                                                s10,
                                                "\nsubscribers "@,
                                            ) {
                                                None => None,
                                                Some(s11) => match spec_parse_hex16(s11) {
                                                    None => None,
                                                    Some((max_subscribers, s12)) => match spec_expect(
                                                        s12,
                                                        "\n"@,
                                                    ) {
                                                        None => None,
                                                        Some(s13) => if s13.len() == 0 {
                                                            Some(
                                                                MessagingPatternView::PublishSubscribe {
                                                                    shape,
                                                                    payload_type: TypeIdentityView {
                                                                        name: elem_name,
                                                                        size,
                                                                        align,
                                                                    },
                                                                    history_size,
                                                                    max_subscribers,
                                                                },
                                                            )
                                                        } else {
                                                            None
                                                        },
                                                    },
                                                },
                                            },
                                        },
                                    },
                                },
                            },
                        },
                    },
                },
            },
        },
    }
}

/// The remainder of an event pattern after its first label.
pub open spec fn spec_decode_event_tail(s: Seq<char>) -> Option<MessagingPatternView> {
    match spec_parse_hex16(s) {
        None => None,
        Some((max_notifiers, s1)) => match spec_expect(s1, "\ngreatest-id "@) {
            None => None,
            Some(s2) => match spec_parse_hex16(s2) {
                None => None,
                Some((greatest_event_id, s3)) => match spec_expect(s3, "\n"@) {
                    None => None,
                    Some(s4) => if s4.len() == 0 {
                        Some(MessagingPatternView::Event { max_notifiers, greatest_event_id })
                    } else {
                        None
                    },
                },
            },
        },
    }
}

/// The messaging pattern encoded at the tail of a descriptor.
pub open spec fn spec_decode_pattern(s: Seq<char>) -> Option<MessagingPatternView> {
    match spec_expect(s, "pattern publish-subscribe\nshape "@) {
        Some(s1) => match spec_expect(s1, "fixed"@) {
            Some(s2) => spec_decode_pubsub_tail(s2, PayloadShape::Fixed),
            None => match spec_expect(s1, "slice"@) {
                Some(s2) => spec_decode_pubsub_tail(s2, PayloadShape::Slice),
                None => None,
            },
        },
        None => match spec_expect(s, "pattern event\nnotifiers "@) {
            Some(s1) => spec_decode_event_tail(s1),
            None => None,
        },
    }
}

/// The descriptor encoded in a string, if it is well formed.
pub open spec fn spec_decode(s: Seq<char>) -> Option<ServiceDescriptorView> {
    match spec_expect(s, "service\nfingerprint "@) {
        None => None,
        Some(s1) => match spec_parse_hex16(s1) {
            None => None,
            Some((fingerprint, s2)) => match spec_expect(s2, "\nname "@) {
                None => None,
                Some(s3) => match spec_parse_hex16(s3) {
                    None => None,
                    Some((name_len, s4)) => match spec_expect(s4, " "@) {
                        None => None,
                        Some(s5) => match spec_take(s5, name_len as int) {
                            None => None,
                            Some((name, s6)) => match spec_expect(s6, "\n"@) {
                                None => None,
                                Some(s7) => match spec_decode_pattern(s7) {
                                    None => None,
                                    Some(pattern) => Some(
                                        ServiceDescriptorView { fingerprint, name, pattern },
                                    ),
                                },
                            },
                        },
                    },
                },
            },
        },
    }
}

/// Serializes a descriptor into its textual announcement form.
pub fn encode_descriptor(d: &ServiceDescriptor) -> (r: String)
    ensures
        r@ == spec_encode(d@),
        d@.wf(),
{
    let mut s = String::from_str("service\nfingerprint ");
    let fp_hex = hex16_string(d.fingerprint);
    s.append(fp_hex.as_str());
    s.append("\nname ");
    let name_len = d.name.as_str().unicode_len();
    let len_hex = hex16_string(name_len as u64);
    s.append(len_hex.as_str());
    s.append(" ");
    s.append(d.name.as_str());
    s.append("\n");
    match &d.pattern {
        MessagingPattern::PublishSubscribe { shape, payload_type, history_size, max_subscribers } => {
            s.append("pattern publish-subscribe\nshape ");
            match shape {
                PayloadShape::Fixed => s.append("fixed"),
                PayloadShape::Slice => s.append("slice"),
            }
            s.append("\ntype ");
            let type_len = payload_type.name.as_str().unicode_len();
            let tlen_hex = hex16_string(type_len as u64);
            s.append(tlen_hex.as_str());
            s.append(" ");
            s.append(payload_type.name.as_str());
            s.append("\nsize ");
            let size_hex = hex16_string(payload_type.size);
            s.append(size_hex.as_str());
            s.append("\nalignment ");
            let align_hex = hex16_string(payload_type.align);
            s.append(align_hex.as_str());
            s.append("\nhistory ");
            let hist_hex = hex16_string(*history_size);
            s.append(hist_hex.as_str());
            s.append("\nsubscribers ");
            let subs_hex = hex16_string(*max_subscribers);
            s.append(subs_hex.as_str());
            s.append("\n");
        },
        MessagingPattern::Event { max_notifiers, greatest_event_id } => {
            s.append("pattern event\nnotifiers ");
            let not_hex = hex16_string(*max_notifiers);
            s.append(not_hex.as_str());
            s.append("\ngreatest-id ");
            let gid_hex = hex16_string(*greatest_event_id);
            s.append(gid_hex.as_str());
            s.append("\n");
        },
    }
    proof {
        assert(s@ =~= spec_encode(d@));
    }
    s
}

/// Parses the tail of a publish-subscribe pattern after its shape word.
fn decode_pubsub_tail(s: &str, shape: PayloadShape) -> (r: Option<MessagingPattern>)
    ensures
        match r {
            Some(p) => spec_decode_pubsub_tail(s@, shape) == Some(p@) && p@.wf(),
            None => spec_decode_pubsub_tail(s@, shape) is None,
        },
{
    let s1 = match expect(s, "\ntype ") {
        Some(x) => x,
        None => {
            return None;
        },
    };
    let (type_len, s2) = match parse_hex16(s1) {
        Some(x) => x,
        None => {
            return None;
        },
    };
    let s3 = match expect(s2, " ") {
        Some(x) => x,
        None => {
            return None;
        },
    };
    let s3_len = s3.unicode_len();
    if type_len > s3_len as u64 {
        return None;
    }
    let (elem_name, s4) = match take_chars(s3, type_len as usize) {
        Some(x) => x,
        None => {
            return None;
        },
    };
    let s5 = match expect(s4, "\nsize ") {
        Some(x) => x,
        None => {
            return None;
        },
    };
    let (size, s6) = match parse_hex16(s5) {
        Some(x) => x,
        None => {
            return None;
        },
    };
    let s7 = match expect(s6, "\nalignment ") {
        Some(x) => x,
        None => {
            return None;
        },
    };
    let (align, s8) = match parse_hex16(s7) {
        Some(x) => x,
        None => {
            return None;
        },
    };
    let s9 = match expect(s8, "\nhistory ") {
        Some(x) => x,
        None => {
            return None;
        },
    };
    let (history_size, s10) = match parse_hex16(s9) {
        Some(x) => x,
        None => {
            return None;
        },
    };
    let s11 = match expect(s10, "\nsubscribers ") {
        Some(x) => x,
        None => {
            return None;
        },
    };
    let (max_subscribers, s12) = match parse_hex16(s11) {
        Some(x) => x,
        None => {
            return None;
        },
    };
    let s13 = match expect(s12, "\n") {
        Some(x) => x,
        None => {
            return None;
        },
    };
    if s13.unicode_len() != 0 {
        return None;
    }
    Some(
        MessagingPattern::PublishSubscribe {
            shape,
            payload_type: TypeIdentity { name: elem_name, size, align },
            history_size,
            max_subscribers,
        },
    )
}

/// Parses the tail of an event pattern after its first label.
fn decode_event_tail(s: &str) -> (r: Option<MessagingPattern>)
    ensures
        match r {
            Some(p) => spec_decode_event_tail(s@) == Some(p@) && p@.wf(),
            None => spec_decode_event_tail(s@) is None,
        },
{
    let (max_notifiers, s1) = match parse_hex16(s) {
        Some(x) => x,
        None => {
            return None;
        },
    };
    let s2 = match expect(s1, "\ngreatest-id ") {
        Some(x) => x,
        None => {
            return None;
        },
    };
    let (greatest_event_id, s3) = match parse_hex16(s2) {
        Some(x) => x,
        None => {
            return None;
        },
    };
    let s4 = match expect(s3, "\n") {
        Some(x) => x,
        None => {
            return None;
        },
    };
    if s4.unicode_len() != 0 {
        return None;
    }
    Some(MessagingPattern::Event { max_notifiers, greatest_event_id })
}

/// Parses a descriptor from its textual announcement form.
pub fn decode_descriptor(s: &str) -> (r: Option<ServiceDescriptor>)
    ensures
        match r {
            Some(d) => spec_decode(s@) == Some(d@) && d@.wf(),
            None => spec_decode(s@) is None,
        },
{
    let s1 = match expect(s, "service\nfingerprint ") {
        Some(x) => x,
        None => {
            return None;
        },
    };
    let (fingerprint, s2) = match parse_hex16(s1) {
        Some(x) => x,
        None => {
            return None;
        },
    };
    let s3 = match expect(s2, "\nname ") {
        Some(x) => x,
        None => {
            return None;
        },
    };
    let (name_len, s4) = match parse_hex16(s3) {
        Some(x) => x,
        None => {
            return None;
        },
    };
    let s5 = match expect(s4, " ") {
        Some(x) => x,
        None => {
            return None;
        },
    };
    let s5_len = s5.unicode_len();
    if name_len > s5_len as u64 {
        return None;
    }
    let (name, s6) = match take_chars(s5, name_len as usize) {
        Some(x) => x,
        None => {
            return None;
        },
    };
    let s7 = match expect(s6, "\n") {
        Some(x) => x,
        None => {
            return None;
        },
    };
    let pattern = match expect(s7, "pattern publish-subscribe\nshape ") {
        Some(s8) => {
            match expect(s8, "fixed") {
                Some(s9) => {
                    match decode_pubsub_tail(s9, PayloadShape::Fixed) {
                        Some(p) => p,
                        None => {
                            return None;
                        },
                    }
                },
                None => {
                    match expect(s8, "slice") {
                        Some(s9) => {
                            match decode_pubsub_tail(s9, PayloadShape::Slice) {
                                Some(p) => p,
                                None => {
                                    return None;
                                },
                            }
                        },
                        None => {
                            return None;
                        },
                    }
                },
            }
        },
        None => {
            match expect(s7, "pattern event\nnotifiers ") {
                Some(s8) => {
                    match decode_event_tail(s8) {
                        Some(p) => p,
                        None => {
                            return None;
                        },
                    }
                },
                None => {
                    return None;
                },
            }
        },
    };
    Some(ServiceDescriptor { fingerprint, name, pattern })
}

/// A literal at the front of a string is consumed exactly.
proof fn lemma_expect_prefix(lit: Seq<char>, rest: Seq<char>)
    ensures
        spec_expect(lit + rest, lit) == Some(rest),
{
    let s = lit + rest;
    assert(s.subrange(0, lit.len() as int) =~= lit);
    assert(s.skip(lit.len() as int) =~= rest);
}

/// Sixteen rendered digits at the front of a string parse back to the
/// rendered value.
proof fn lemma_hex16_prefix(v: u64, rest: Seq<char>)
    ensures
        spec_parse_hex16(hex16(v) + rest) == Some((v, rest)),
{
    crate::keys::lemma_pow16_table();
    lemma_hex_digits_len(v as int, 16);
    lemma_hex_digits_are_hex(v as int, 16);
    let s = hex16(v) + rest;
    assert(s.subrange(0, 16) =~= hex16(v));
    assert forall|k: int| 0 <= k < 16 implies is_hex_char(#[trigger] s[k]) by {
        assert(s[k] == hex16(v)[k]);
    }
    lemma_hex_value_of_digits(v as int, 16);
    assert(s.skip(16) =~= rest);
}

/// A known-length prefix is taken exactly.
proof fn lemma_take_prefix(t: Seq<char>, rest: Seq<char>)
    ensures
        spec_take(t + rest, t.len() as int) == Some((t, rest)),
{
    let s = t + rest;
    assert(s.take(t.len() as int) =~= t);
    assert(s.skip(t.len() as int) =~= rest);
}

/// Decoding inverts encoding for a messaging pattern.
proof fn lemma_pattern_round_trip(p: MessagingPatternView)
    requires
        p.wf(),
    ensures
        spec_decode_pattern(spec_encode_pattern(p)) == Some(p),
{
    match p {
        MessagingPatternView::PublishSubscribe { .. } => {
            lemma_pubsub_round_trip(p);
        },
        MessagingPatternView::Event { .. } => {
            lemma_event_round_trip(p);
        },
    }
}

/// The publish-subscribe case of the pattern round trip.
#[verifier::rlimit(100)]
proof fn lemma_pubsub_round_trip(p: MessagingPatternView)
    requires
        p.wf(),
        p is PublishSubscribe,
    ensures
        spec_decode_pattern(spec_encode_pattern(p)) == Some(p),
{
    reveal_strlit("pattern publish-subscribe\nshape ");
    reveal_strlit("fixed");
    reveal_strlit("slice");
    let lit_pubsub = "pattern publish-subscribe\nshape "@;
    match p {
        MessagingPatternView::PublishSubscribe {
            shape,
            payload_type,
            history_size,
            max_subscribers,
        } => {
            let u14: Seq<char> = Seq::empty();
            let u13 = "\n"@ + u14;
            let u12 = hex16(max_subscribers) + u13;
            let u11 = "\nsubscribers "@ + u12;
            let u10 = hex16(history_size) + u11;
            let u9 = "\nhistory "@ + u10;
            let u8 = hex16(payload_type.align) + u9;
            let u7 = "\nalignment "@ + u8;
            let u6 = hex16(payload_type.size) + u7;
            let u5 = "\nsize "@ + u6;
            let u4 = payload_type.name + u5;
            let u3 = " "@ + u4;
            let u2 = hex16(payload_type.name.len() as u64) + u3;
            let u1 = "\ntype "@ + u2;
            let u0 = (if shape == PayloadShape::Fixed {
                "fixed"@
            } else {
                "slice"@
            }) + u1;
            assert(spec_encode_pattern(p) =~= lit_pubsub + u0);
            lemma_expect_prefix(lit_pubsub, u0);
            if shape == PayloadShape::Fixed {
                lemma_expect_prefix("fixed"@, u1);
            } else {
                assert(u0[0] == 's');
                assert(u0.subrange(0, 5)[0] == u0[0]);
                assert(u0.subrange(0, 5) != "fixed"@);
                assert(spec_expect(u0, "fixed"@) is None);
                lemma_expect_prefix("slice"@, u1);
            }
            lemma_expect_prefix("\ntype "@, u2);
            lemma_hex16_prefix(payload_type.name.len() as u64, u3);
            lemma_expect_prefix(" "@, u4);
            lemma_take_prefix(payload_type.name, u5);
            lemma_expect_prefix("\nsize "@, u6);
            lemma_hex16_prefix(payload_type.size, u7);
            lemma_expect_prefix("\nalignment "@, u8);
            lemma_hex16_prefix(payload_type.align, u9);
            lemma_expect_prefix("\nhistory "@, u10);
            lemma_hex16_prefix(history_size, u11);
            lemma_expect_prefix("\nsubscribers "@, u12);
            lemma_hex16_prefix(max_subscribers, u13);
            lemma_expect_prefix("\n"@, u14);
        },
        MessagingPatternView::Event { .. } => {},
    }
}

/// The event case of the pattern round trip.
#[verifier::rlimit(100)]
proof fn lemma_event_round_trip(p: MessagingPatternView)
    requires
        p.wf(),
        p is Event,
    ensures
        spec_decode_pattern(spec_encode_pattern(p)) == Some(p),
{
    reveal_strlit("pattern publish-subscribe\nshape ");
    reveal_strlit("pattern event\nnotifiers ");
    let lit_pubsub = "pattern publish-subscribe\nshape "@;
    let lit_event = "pattern event\nnotifiers "@;
    match p {
        MessagingPatternView::PublishSubscribe { .. } => {},
        MessagingPatternView::Event { max_notifiers, greatest_event_id } => {
            let u4: Seq<char> = Seq::empty();
            let u3 = "\n"@ + u4;
            let u2 = hex16(greatest_event_id) + u3;
            let u1 = "\ngreatest-id "@ + u2;
            let u0 = hex16(max_notifiers) + u1;
            assert(spec_encode_pattern(p) =~= lit_event + u0);
            let s = spec_encode_pattern(p);
            lemma_hex_digits_len(max_notifiers as int, 16);
            assert(s[8] == 'e');
            assert(s.len() >= lit_pubsub.len());
            assert(s.subrange(0, lit_pubsub.len() as int)[8] == s[8]);
            assert(spec_expect(s, lit_pubsub) is None);
            lemma_expect_prefix(lit_event, u0);
            lemma_hex16_prefix(max_notifiers, u1);
            lemma_expect_prefix("\ngreatest-id "@, u2);
            lemma_hex16_prefix(greatest_event_id, u3);
            lemma_expect_prefix("\n"@, u4);
        },
    }
}

/// Decoding inverts encoding: every well-formed descriptor survives the
/// trip onto the wire and back unchanged.
pub proof fn lemma_descriptor_round_trip(d: ServiceDescriptorView)
    requires
        d.wf(),
    ensures
        spec_decode(spec_encode(d)) == Some(d),
{
    let u7 = spec_encode_pattern(d.pattern);
    let u6 = "\n"@ + u7;
    let u5 = d.name + u6;
    let u4 = " "@ + u5;
    let u3 = hex16(d.name.len() as u64) + u4;
    let u2 = "\nname "@ + u3;
    let u1 = hex16(d.fingerprint) + u2;
    assert(spec_encode(d) =~= "service\nfingerprint "@ + u1);
    lemma_expect_prefix("service\nfingerprint "@, u1);
    lemma_hex16_prefix(d.fingerprint, u2);
    lemma_expect_prefix("\nname "@, u3);
    lemma_hex16_prefix(d.name.len() as u64, u4);
    lemma_expect_prefix(" "@, u5);
    lemma_take_prefix(d.name, u6);
    lemma_expect_prefix("\n"@, u7);
    lemma_pattern_round_trip(d.pattern);
    assert(spec_decode(spec_encode(d)) == Some(
        ServiceDescriptorView { fingerprint: d.fingerprint, name: d.name, pattern: d.pattern },
    ));
}

/// Two well-formed descriptors with the same encoding are equal.
pub proof fn lemma_encode_injective(d1: ServiceDescriptorView, d2: ServiceDescriptorView)
    requires
        d1.wf(),
        d2.wf(),
        spec_encode(d1) == spec_encode(d2),
    ensures
        d1 == d2,
{
    lemma_descriptor_round_trip(d1);
    lemma_descriptor_round_trip(d2);
}

} // verus!
