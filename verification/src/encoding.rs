//! The encoding of message bodies: standard base64 with padding.

use vstd::prelude::*;

verus! {

/// The six bits that a character of the standard base64 alphabet stands for.
pub open spec fn sextet(c: char) -> Option<int> {
    if 'A' <= c <= 'Z' {
        Some(c as u32 - 'A' as u32)
    } else if 'a' <= c <= 'z' {
        Some(c as u32 - 'a' as u32 + 26)
    } else if '0' <= c <= '9' {
        Some(c as u32 - '0' as u32 + 52)
    } else if c == '+' {
        Some(62)
    } else if c == '/' {
        Some(63)
    } else {
        None
    }
}

/// Whether `s` is base64 text that ends in `pad` padding characters: whole
/// groups of four characters, the padding at the end only, and no bits set in
/// the last symbol beyond the bytes that it completes.
pub open spec fn is_padded_base64(s: Seq<char>, pad: int) -> bool {
    let n = s.len();
    &&& n % 4 == 0
    &&& pad <= n
    &&& forall|i: int| 0 <= i < n - pad ==> sextet(#[trigger] s[i]) is Some
    &&& forall|i: int| n - pad <= i < n ==> #[trigger] s[i] == '='
    &&& pad == 1 ==> sextet(s[n - 2])->0 % 4 == 0
    &&& pad == 2 ==> sextet(s[n - 3])->0 % 16 == 0
}

/// Whether `s` is the padded base64 text of some bytes.
pub open spec fn is_base64(s: Seq<char>) -> bool {
    is_padded_base64(s, 0) || is_padded_base64(s, 1) || is_padded_base64(s, 2)
}

/// `base64::Engine::decode` of `BASE64_STANDARD`: whether it accepts a text.
/// The engine wants the standard alphabet, canonical padding and no trailing
/// bits. The decoded bytes are not kept.
#[verifier::external_body]
pub(crate) fn decodes_as_base64(s: &str) -> (r: bool)
    ensures
        r == is_base64(s@),
{
    base64::Engine::decode(&base64::prelude::BASE64_STANDARD, s).is_ok()
}

/// The character of the standard base64 alphabet for six bits.
pub open spec fn symbol(v: int) -> char {
    if v < 26 {
        ('A' as u32 + v) as u32 as char
    } else if v < 52 {
        ('a' as u32 + (v - 26)) as u32 as char
    } else if v < 62 {
        ('0' as u32 + (v - 52)) as u32 as char
    } else if v == 62 {
        '+'
    } else {
        '/'
    }
}

/// The base64 text of some bytes: four characters for every three of them, and
/// padding where the last group is not full.
pub open spec fn encoded(bytes: Seq<u8>) -> Seq<char>
    decreases bytes.len(),
{
    let a = bytes[0] as int;
    let b = bytes[1] as int;
    let c = bytes[2] as int;
    if bytes.len() == 0 {
        Seq::empty()
    } else if bytes.len() == 1 {
        seq![symbol(a / 4), symbol(a % 4 * 16), '=', '=']
    } else if bytes.len() == 2 {
        seq![symbol(a / 4), symbol(a % 4 * 16 + b / 16), symbol(b % 16 * 4), '=']
    } else {
        seq![
            symbol(a / 4),
            symbol(a % 4 * 16 + b / 16),
            symbol(b % 16 * 4 + c / 64),
            symbol(c % 64),
        ] + encoded(bytes.skip(3))
    }
}

proof fn lemma_symbol(v: int)
    requires
        0 <= v < 64,
    ensures
        sextet(symbol(v)) == Some(v),
        symbol(v) != '=',
{
}

proof fn lemma_sextet(c: char)
    requires
        sextet(c) is Some,
    ensures
        0 <= sextet(c)->0 < 64,
        symbol(sextet(c)->0) == c,
{
}

/// How many padding characters the base64 text of some bytes has.
spec fn padding(n: nat) -> int {
    if n % 3 == 1 {
        2
    } else if n % 3 == 2 {
        1
    } else {
        0
    }
}

proof fn lemma_encoded_is_padded(bytes: Seq<u8>)
    ensures
        is_padded_base64(encoded(bytes), padding(bytes.len())),
        bytes.len() > 0 ==> encoded(bytes).len() >= 4,
    decreases bytes.len(),
{
    let a = bytes[0] as int;
    let b = bytes[1] as int;
    let c = bytes[2] as int;
    let s = encoded(bytes);
    if bytes.len() > 0 {
        lemma_symbol(a / 4);
        lemma_symbol(a % 4 * 16);
        lemma_symbol(a % 4 * 16 + b / 16);
        lemma_symbol(b % 16 * 4);
        lemma_symbol(b % 16 * 4 + c / 64);
        lemma_symbol(c % 64);
    }
    if bytes.len() >= 3 {
        let rest = encoded(bytes.skip(3));
        lemma_encoded_is_padded(bytes.skip(3));
        let pad = padding(bytes.len());
        let n = s.len();
        assert(n == rest.len() + 4);
        assert forall|i: int| 0 <= i < n - pad implies sextet(#[trigger] s[i]) is Some by {
            if i >= 4 {
                assert(s[i] == rest[i - 4]);
            }
        }
        assert forall|i: int| n - pad <= i < n implies #[trigger] s[i] == '=' by {
            assert(s[i] == rest[i - 4]);
        }
        if pad == 1 {
            assert(s[n - 2] == rest[rest.len() - 2]);
        }
        if pad == 2 {
            assert(s[n - 3] == rest[rest.len() - 3]);
        }
    }
}

/// Four times six bits are three bytes.
proof fn lemma_group(p: int, q: int, r: int, t: int)
    requires
        0 <= p < 64,
        0 <= q < 64,
        0 <= r < 64,
        0 <= t < 64,
    ensures
        ({
            let a = p * 4 + q / 16;
            let b = q % 16 * 16 + r / 4;
            let c = r % 4 * 64 + t;
            &&& 0 <= a < 256 && 0 <= b < 256 && 0 <= c < 256
            &&& a / 4 == p
            &&& a % 4 == q / 16
            &&& b / 16 == q % 16
            &&& b % 16 == r / 4
            &&& c / 64 == r % 4
            &&& c % 64 == t
        }),
{
}

proof fn lemma_one_byte(s: Seq<char>) -> (bytes: Seq<u8>)
    requires
        s.len() == 4,
        is_padded_base64(s, 2),
    ensures
        encoded(bytes) == s,
{
    lemma_sextet(s[0]);
    lemma_sextet(s[1]);
    let p = sextet(s[0])->0;
    let q = sextet(s[1])->0;
    lemma_group(p, q, 0, 0);
    let bytes = seq![(p * 4 + q / 16) as u8];
    assert(bytes[0] as int == p * 4 + q / 16);
    assert(encoded(bytes) =~= s);
    bytes
}

proof fn lemma_two_bytes(s: Seq<char>) -> (bytes: Seq<u8>)
    requires
        s.len() == 4,
        is_padded_base64(s, 1),
    ensures
        encoded(bytes) == s,
{
    lemma_sextet(s[0]);
    lemma_sextet(s[1]);
    lemma_sextet(s[2]);
    let p = sextet(s[0])->0;
    let q = sextet(s[1])->0;
    let r = sextet(s[2])->0;
    lemma_group(p, q, r, 0);
    let bytes = seq![(p * 4 + q / 16) as u8, (q % 16 * 16 + r / 4) as u8];
    assert(bytes[0] as int == p * 4 + q / 16);
    assert(bytes[1] as int == q % 16 * 16 + r / 4);
    assert(encoded(bytes) =~= s);
    bytes
}

proof fn lemma_three_bytes(s: Seq<char>, rest: Seq<u8>) -> (bytes: Seq<u8>)
    requires
        s.len() >= 4,
        sextet(s[0]) is Some,
        sextet(s[1]) is Some,
        sextet(s[2]) is Some,
        sextet(s[3]) is Some,
        encoded(rest) == s.skip(4),
    ensures
        encoded(bytes) == s,
{
    lemma_sextet(s[0]);
    lemma_sextet(s[1]);
    lemma_sextet(s[2]);
    lemma_sextet(s[3]);
    let p = sextet(s[0])->0;
    let q = sextet(s[1])->0;
    let r = sextet(s[2])->0;
    let t = sextet(s[3])->0;
    lemma_group(p, q, r, t);
    let group = seq![
        (p * 4 + q / 16) as u8,
        (q % 16 * 16 + r / 4) as u8,
        (r % 4 * 64 + t) as u8,
    ];
    let bytes = group + rest;
    assert(bytes.skip(3) =~= rest);
    assert(bytes[0] as int == p * 4 + q / 16);
    assert(bytes[1] as int == q % 16 * 16 + r / 4);
    assert(bytes[2] as int == r % 4 * 64 + t);
    assert(encoded(bytes) =~= seq![s[0], s[1], s[2], s[3]] + s.skip(4));
    assert(s =~= seq![s[0], s[1], s[2], s[3]] + s.skip(4));
    bytes
}

proof fn lemma_padded_is_encoded(s: Seq<char>, pad: int) -> (bytes: Seq<u8>)
    requires
        0 <= pad <= 2,
        is_padded_base64(s, pad),
    ensures
        encoded(bytes) == s,
    decreases s.len(),
{
    let n = s.len();
    if n == 0 {
        let none = Seq::<u8>::empty();
        assert(encoded(none) =~= s);
        none
    } else if n == 4 && pad == 2 {
        lemma_one_byte(s)
    } else if n == 4 && pad == 1 {
        lemma_two_bytes(s)
    } else {
        let tail = s.skip(4);
        assert forall|i: int| 0 <= i < tail.len() - pad implies sextet(
            #[trigger] tail[i],
        ) is Some by {
            assert(tail[i] == s[i + 4]);
        }
        assert forall|i: int| tail.len() - pad <= i < tail.len() implies #[trigger] tail[i]
            == '=' by {
            assert(tail[i] == s[i + 4]);
        }
        let rest = lemma_padded_is_encoded(tail, pad);
        lemma_three_bytes(s, rest)
    }
}

/// A text is taken as base64 exactly where it is the base64 text of some bytes,
/// whatever they are and however many.
pub proof fn law_base64_is_the_text_of_bytes(s: Seq<char>, bytes: Seq<u8>)
    ensures
        is_base64(encoded(bytes)),
        is_base64(s) ==> exists|some: Seq<u8>| #[trigger] encoded(some) == s,
{
    lemma_encoded_is_padded(bytes);
    if is_padded_base64(s, 0) {
        let some = lemma_padded_is_encoded(s, 0);
    } else if is_padded_base64(s, 1) {
        let some = lemma_padded_is_encoded(s, 1);
    } else if is_padded_base64(s, 2) {
        let some = lemma_padded_is_encoded(s, 2);
    }
}

/// The base64 text of some bytes has four characters for every three of them
/// that it begins: it is empty only where there are no bytes.
pub proof fn law_text_of_a_payload(bytes: Seq<u8>)
    ensures
        encoded(bytes).len() == (bytes.len() + 2) / 3 * 4,
    decreases bytes.len(),
{
    if bytes.len() >= 3 {
        law_text_of_a_payload(bytes.skip(3));
    }
}

} // verus!
