//! Bytes as text, by way of the `base64` crate.

use base64::engine::general_purpose::STANDARD;
use base64::Engine;
use vstd::prelude::*;

verus! {

/// The character for a group of six bits, in the standard alphabet.
pub open spec fn sextet_char(n: int) -> char {
    if n < 26 {
        (65 + n) as char
    } else if n < 52 {
        (71 + n) as char
    } else if n < 62 {
        (n - 4) as char
    } else if n == 62 {
        '+'
    } else {
        '/'
    }
}

/// Byte `i`, zero behind the end.
pub open spec fn byte_or_zero(data: Seq<u8>, i: int) -> int {
    if i < data.len() {
        data[i] as int
    } else {
        0
    }
}

/// Three bytes as one number.
pub open spec fn triple(data: Seq<u8>, g: int) -> int {
    0x10000 * byte_or_zero(data, 3 * g) + 0x100 * byte_or_zero(data, 3 * g + 1) + byte_or_zero(
        data,
        3 * g + 2,
    )
}

/// The six bits at position `k` (0 to 3) of a 24-bit number.
pub open spec fn sextet(v: int, k: int) -> int {
    if k == 0 {
        v / 0x40000
    } else if k == 1 {
        v / 0x1000 % 64
    } else if k == 2 {
        v / 64 % 64
    } else {
        v % 64
    }
}

/// Base64 with the standard alphabet and padding: three bytes become four
/// characters, and `=` stands where the data has ended.
pub open spec fn base64_text(data: Seq<u8>) -> Seq<char> {
    Seq::new(
        (4 * ((data.len() + 2) / 3)) as nat,
        |i: int|
            if i % 4 >= 2 && 3 * (i / 4) + i % 4 - 1 >= data.len() {
                '='
            } else {
                sextet_char(sextet(triple(data, i / 4), i % 4))
            },
    )
}

/// Whether the base64 text of `n` bytes fits in memory.
pub open spec fn base64_fits(n: nat) -> bool {
    4 * ((n + 2) / 3) <= isize::MAX
}

/// Whether the base64 text of `n` bytes fits in memory.
pub fn encodable(n: usize) -> (r: bool)
    ensures
        r == base64_fits(n as nat),
{
    4 * ((n as u128 + 2) / 3) <= isize::MAX as u128
}

/// `STANDARD.encode` of the `base64` crate: the base64 text of `data`.
#[verifier::external_body]
pub(crate) fn encode_base64(data: &[u8]) -> (r: String)
    requires
        base64_fits(data@.len()),
    ensures
        r@ == base64_text(data@),
{
    STANDARD.encode(data)
}

/// `STANDARD.decode` of the `base64` crate: the bytes that `text` is the base64
/// text of, and `None` where it is that of no bytes at all. Padding has to be
/// there and unused bits have to be zero.
#[verifier::external_body]
pub(crate) fn decode_base64(text: &str) -> (r: Option<Vec<u8>>)
    ensures
        r matches Some(d) ==> base64_text(d@) == text@,
        r is None ==> forall|d: Seq<u8>| #[trigger] base64_text(d) != text@,
{
    STANDARD.decode(text.as_bytes()).ok()
}

/// Different sextets have different characters, and none is `=`.
proof fn lemma_sextet_char(a: int, b: int)
    requires
        0 <= a < 64,
        0 <= b < 64,
    ensures
        sextet_char(a) != '=',
        sextet_char(a) == sextet_char(b) ==> a == b,
{
}

/// A number is put together from its sextets.
proof fn lemma_sextets(v: int)
    requires
        0 <= v < 0x1000000,
    ensures
        v == 0x40000 * sextet(v, 0) + 0x1000 * sextet(v, 1) + 64 * sextet(v, 2) + sextet(v, 3),
        forall|k: int| 0 <= k < 4 ==> 0 <= #[trigger] sextet(v, k) < 64,
{
}

/// The character at `i` of a base64 text.
proof fn lemma_char_at(d: Seq<u8>, i: int)
    requires
        0 <= i < base64_text(d).len(),
    ensures
        (base64_text(d)[i] == '=') == (i % 4 >= 2 && 3 * (i / 4) + i % 4 - 1 >= d.len()),
        0 <= triple(d, i / 4) < 0x1000000,
        0 <= sextet(triple(d, i / 4), i % 4) < 64,
{
    lemma_sextets(triple(d, i / 4));
    lemma_sextet_char(sextet(triple(d, i / 4), i % 4), 0);
}

/// Equal texts come from equally many bytes: both have the same number of
/// groups, and the padding of the last group shows how much of it is there.
proof fn lemma_same_length(a: Seq<u8>, b: Seq<u8>)
    requires
        base64_text(a) == base64_text(b),
    ensures
        a.len() == b.len(),
{
    let groups: int = (a.len() as int + 2) / 3;
    assert(base64_text(a).len() == 4 * groups);
    assert(base64_text(b).len() == 4 * ((b.len() as int + 2) / 3));
    if groups > 0 {
        let last = 4 * (groups - 1);
        lemma_char_at(a, last + 2);
        lemma_char_at(a, last + 3);
        lemma_char_at(b, last + 2);
        lemma_char_at(b, last + 3);
    }
}

/// Equal texts spell equal sextets.
proof fn lemma_same_sextet(a: Seq<u8>, b: Seq<u8>, g: int, k: int)
    requires
        base64_text(a) == base64_text(b),
        0 <= 3 * g < a.len(),
        0 <= k < 4,
    ensures
        sextet(triple(a, g), k) == sextet(triple(b, g), k),
{
    lemma_same_length(a, b);
    let at = 4 * g + k;
    let va = triple(a, g);
    let vb = triple(b, g);
    assert(at / 4 == g && at % 4 == k);
    assert(at < base64_text(a).len());
    lemma_char_at(a, at);
    lemma_char_at(b, at);
    if base64_text(a)[at] == '=' {
        lemma_padding_is_zero(a, g, k);
        lemma_padding_is_zero(b, g, k);
    } else {
        assert(base64_text(a)[at] == sextet_char(sextet(va, k)));
        assert(base64_text(b)[at] == sextet_char(sextet(vb, k)));
        lemma_sextet_char(sextet(va, k), sextet(vb, k));
    }
}

/// Bytes can be told apart by their base64 texts, so decoding undoes encoding.
pub proof fn law_base64_injective(a: Seq<u8>, b: Seq<u8>)
    requires
        base64_text(a) == base64_text(b),
    ensures
        a == b,
{
    lemma_same_length(a, b);
    assert forall|i: int| 0 <= i < a.len() implies #[trigger] a[i] == b[i] by {
        let g = i / 3;
        lemma_same_sextet(a, b, g, 0);
        lemma_same_sextet(a, b, g, 1);
        lemma_same_sextet(a, b, g, 2);
        lemma_same_sextet(a, b, g, 3);
        assert forall|k: int| 0 <= k < 4 implies #[trigger] sextet(triple(a, g), k) == sextet(
            triple(b, g),
            k,
        ) by {
            assert(k == 0 || k == 1 || k == 2 || k == 3);
        }
        lemma_same_bytes(a, b, g, i - 3 * g);
    }
    assert(a =~= b);
}

/// Equal sextets make up equal bytes.
proof fn lemma_same_bytes(a: Seq<u8>, b: Seq<u8>, g: int, j: int)
    requires
        a.len() == b.len(),
        0 <= g,
        0 <= j < 3,
        3 * g + j < a.len(),
        forall|k: int|
            0 <= k < 4 ==> #[trigger] sextet(triple(a, g), k) == sextet(triple(b, g), k),
    ensures
        a[3 * g + j] == b[3 * g + j],
{
    let va = triple(a, g);
    let vb = triple(b, g);
    lemma_same_value(va, vb);
    lemma_three_bytes(
        byte_or_zero(a, 3 * g),
        byte_or_zero(a, 3 * g + 1),
        byte_or_zero(a, 3 * g + 2),
        byte_or_zero(b, 3 * g),
        byte_or_zero(b, 3 * g + 1),
        byte_or_zero(b, 3 * g + 2),
    );
}

proof fn lemma_same_value(va: int, vb: int)
    requires
        0 <= va < 0x1000000,
        0 <= vb < 0x1000000,
        forall|k: int| 0 <= k < 4 ==> #[trigger] sextet(va, k) == sextet(vb, k),
    ensures
        va == vb,
{
    lemma_sextets(va);
    lemma_sextets(vb);
    assert(sextet(va, 0) == sextet(vb, 0));
    assert(sextet(va, 1) == sextet(vb, 1));
    assert(sextet(va, 2) == sextet(vb, 2));
    assert(sextet(va, 3) == sextet(vb, 3));
}

proof fn lemma_three_bytes(a0: int, a1: int, a2: int, b0: int, b1: int, b2: int)
    requires
        0 <= a0 < 256,
        0 <= a1 < 256,
        0 <= a2 < 256,
        0 <= b0 < 256,
        0 <= b1 < 256,
        0 <= b2 < 256,
        0x10000 * a0 + 0x100 * a1 + a2 == 0x10000 * b0 + 0x100 * b1 + b2,
    ensures
        a0 == b0,
        a1 == b1,
        a2 == b2,
{
}

/// The sextets that padding stands for are zero.
proof fn lemma_padding_is_zero(d: Seq<u8>, g: int, k: int)
    requires
        0 <= g,
        2 <= k < 4,
        3 * g + k - 1 >= d.len(),
    ensures
        sextet(triple(d, g), k) == 0,
{
}

// ---------------------------------------------------------------------
// Base64 group by group.
// ---------------------------------------------------------------------
/// The alphabet.
pub proof fn law_base64_alphabet(n: int)
    requires
        0 <= n < 64,
    ensures
        sextet_char(n)
            == "ABCDEFGHIJKLMNOPQRSTUVWXYZabcdefghijklmnopqrstuvwxyz0123456789+/"@[n],
{
    reveal_strlit("ABCDEFGHIJKLMNOPQRSTUVWXYZabcdefghijklmnopqrstuvwxyz0123456789+/");
}

/// Three bytes make four characters of six bits each; one or two bytes at the
/// end are filled up with zeros and padded to four characters.
pub proof fn law_base64_group(a: u8, b: u8, c: u8)
    ensures
        base64_text(seq![]) == Seq::<char>::empty(),
        base64_text(seq![a, b, c]) == seq![
            sextet_char(a as int / 4),
            sextet_char(a as int % 4 * 16 + b as int / 16),
            sextet_char(b as int % 16 * 4 + c as int / 64),
            sextet_char(c as int % 64),
        ],
        base64_text(seq![a, b]) == seq![
            sextet_char(a as int / 4),
            sextet_char(a as int % 4 * 16 + b as int / 16),
            sextet_char(b as int % 16 * 4),
            '=',
        ],
        base64_text(seq![a]) == seq![
            sextet_char(a as int / 4),
            sextet_char(a as int % 4 * 16),
            '=',
            '=',
        ],
{
    assert(base64_text(seq![]) =~= Seq::<char>::empty());
    lemma_group(a as int, b as int, c as int);
    lemma_group(a as int, b as int, 0);
    lemma_group(a as int, 0, 0);
    let three = seq![a, b, c];
    assert(triple(three, 0) == 0x10000 * a + 0x100 * b + c);
    lemma_one_group(three);
    let two = seq![a, b];
    assert(triple(two, 0) == 0x10000 * a + 0x100 * b + 0);
    lemma_one_group(two);
    let one = seq![a];
    assert(triple(one, 0) == 0x10000 * a + 0x100 * 0 + 0);
    lemma_one_group(one);
}

proof fn lemma_group(a: int, b: int, c: int)
    requires
        0 <= a < 256,
        0 <= b < 256,
        0 <= c < 256,
    ensures
        ({
            let v = 0x10000 * a + 0x100 * b + c;
            &&& sextet(v, 0) == a / 4
            &&& sextet(v, 1) == a % 4 * 16 + b / 16
            &&& sextet(v, 2) == b % 16 * 4 + c / 64
            &&& sextet(v, 3) == c % 64
        }),
{
    let s0 = a / 4;
    let s1 = a % 4 * 16 + b / 16;
    let s2 = b % 16 * 4 + c / 64;
    let s3 = c % 64;
    assert(a == 4 * s0 + a % 4);
    assert(b == 16 * (b / 16) + b % 16);
    assert(c == 64 * (c / 64) + s3);
    lemma_four(s0, s1, s2, s3);
}

proof fn lemma_four(s0: int, s1: int, s2: int, s3: int)
    requires
        0 <= s0 < 64,
        0 <= s1 < 64,
        0 <= s2 < 64,
        0 <= s3 < 64,
    ensures
        ({
            let v = 0x40000 * s0 + 0x1000 * s1 + 64 * s2 + s3;
            &&& sextet(v, 0) == s0
            &&& sextet(v, 1) == s1
            &&& sextet(v, 2) == s2
            &&& sextet(v, 3) == s3
        }),
{
    let v = 0x40000 * s0 + 0x1000 * s1 + 64 * s2 + s3;
    assert(v / 64 == 0x1000 * s0 + 64 * s1 + s2);
    assert(v / 0x1000 == 64 * s0 + s1);
    assert(v / 0x40000 == s0);
}

proof fn lemma_one_group(d: Seq<u8>)
    requires
        1 <= d.len() <= 3,
    ensures
        base64_text(d) == seq![
            sextet_char(sextet(triple(d, 0), 0)),
            sextet_char(sextet(triple(d, 0), 1)),
            if d.len() < 2 {
                '='
            } else {
                sextet_char(sextet(triple(d, 0), 2))
            },
            if d.len() < 3 {
                '='
            } else {
                sextet_char(sextet(triple(d, 0), 3))
            },
        ],
{
    let t = base64_text(d);
    assert(t.len() == 4);
    assert(0int / 4 == 0 && 1int / 4 == 0 && 2int / 4 == 0 && 3int / 4 == 0);
    assert(t =~= seq![t[0], t[1], t[2], t[3]]);
}

/// Whole groups are encoded one after the other.
pub proof fn law_base64_concat(a: Seq<u8>, b: Seq<u8>)
    requires
        a.len() % 3 == 0,
    ensures
        base64_text(a + b) == base64_text(a) + base64_text(b),
{
    let n = a.len() as int / 3;
    let all = base64_text(a + b);
    let two = base64_text(a) + base64_text(b);
    assert(base64_text(a).len() == 4 * n);
    assert(all.len() == two.len());
    assert forall|i: int| 0 <= i < all.len() implies #[trigger] all[i] == two[i] by {
        let g = i / 4;
        if g < n {
            assert(triple(a + b, g) == triple(a, g));
        } else {
            assert((i - 4 * n) / 4 == g - n);
            assert((i - 4 * n) % 4 == i % 4);
            assert(triple(a + b, g) == triple(b, g - n));
        }
    }
    assert(all =~= two);
}

/// What can be encoded is what has an encoding that fits in memory.
pub proof fn law_base64_fits(d: Seq<u8>)
    ensures
        base64_fits(d.len()) == (base64_text(d).len() <= isize::MAX),
{
}

} // verus!
