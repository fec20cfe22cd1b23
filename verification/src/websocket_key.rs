//! The `Sec-WebSocket-Key` of the opening handshake: 16 bytes in base64.
use vstd::prelude::*;

verus! {

/// The symbol of the base64 alphabet that stands for the 6-bit value `v`.
pub open spec fn base64_symbol(v: int) -> u8 {
    if v < 26 {
        (65 + v) as u8
    } else if v < 52 {
        (97 + (v - 26)) as u8
    } else if v < 62 {
        (48 + (v - 52)) as u8
    } else if v == 62 {
        43u8
    } else {
        47u8
    }
}

/// The `i`-th input byte, or 0 past the end (the zero bits that fill the last group).
pub open spec fn byte_or_zero(input: Seq<u8>, i: int) -> int {
    if 0 <= i < input.len() {
        input[i] as int
    } else {
        0
    }
}

/// The 6-bit value at position `pos` (0 to 3) of group `g`, where group `g`
/// covers the input bytes `3g`, `3g + 1` and `3g + 2`.
pub open spec fn sextet(input: Seq<u8>, g: int, pos: int) -> int {
    let b0 = byte_or_zero(input, 3 * g);
    let b1 = byte_or_zero(input, 3 * g + 1);
    let b2 = byte_or_zero(input, 3 * g + 2);
    if pos == 0 {
        b0 / 4
    } else if pos == 1 {
        (b0 % 4) * 16 + b1 / 16
    } else if pos == 2 {
        (b1 % 16) * 4 + b2 / 64
    } else {
        b2 % 64
    }
}

/// The `j`-th character of the padded base64 text of `input` (RFC 4648, section 4):
/// positions 2 and 3 of a group whose bytes ran out are the pad `=`.
pub open spec fn base64_char_at(input: Seq<u8>, j: int) -> u8 {
    let g = j / 4;
    let pos = j % 4;
    if pos >= 2 && 3 * g + pos - 1 >= input.len() {
        61u8
    } else {
        base64_symbol(sextet(input, g, pos))
    }
}

/// The padded base64 text of `input`: four characters for every started group of three bytes.
pub open spec fn base64_encode(input: Seq<u8>) -> Seq<u8> {
    Seq::new((4 * ((input.len() + 2) / 3)) as nat, |j: int| base64_char_at(input, j))
}

/// True of the bytes that are symbols of the base64 alphabet.
pub open spec fn is_base64_symbol(c: u8) -> bool {
    (65 <= c <= 90) || (97 <= c <= 122) || (48 <= c <= 57) || c == 43 || c == 47
}

fn alphabet_symbol(v: u32) -> (c: u8)
    requires
        v < 64,
    ensures
        c == base64_symbol(v as int),
{
    if v < 26 {
        (65 + v) as u8
    } else if v < 52 {
        (97 + (v - 26)) as u8
    } else if v < 62 {
        (48 + (v - 52)) as u8
    } else if v == 62 {
        43u8
    } else {
        47u8
    }
}

proof fn lemma_triple_sextets(b0: u32, b1: u32, b2: u32)
    by (bit_vector)
    requires
        b0 < 256,
        b1 < 256,
        b2 < 256,
    ensures
        (((b0 << 16) | (b1 << 8) | b2) >> 18) & 0x3f == b0 / 4,
        (((b0 << 16) | (b1 << 8) | b2) >> 12) & 0x3f == (b0 % 4) * 16 + b1 / 16,
        (((b0 << 16) | (b1 << 8) | b2) >> 6) & 0x3f == (b1 % 16) * 4 + b2 / 64,
        ((b0 << 16) | (b1 << 8) | b2) & 0x3f == b2 % 64,
{
}

proof fn lemma_symbol_in_alphabet(v: int)
    requires
        0 <= v < 64,
    ensures
        is_base64_symbol(base64_symbol(v)),
{
}

/// The key of any 16 bytes is 24 characters: 22 symbols of the base64
/// alphabet, then the two pad characters `==`.
pub proof fn law_key_shape(input: Seq<u8>)
    requires
        input.len() == 16,
    ensures
        base64_encode(input).len() == 24,
        forall|j: int| 0 <= j < 22 ==> is_base64_symbol(#[trigger] base64_encode(input)[j]),
        base64_encode(input)[22] == 61u8,
        base64_encode(input)[23] == 61u8,
{
    assert forall|j: int| 0 <= j < 22 implies is_base64_symbol(#[trigger] base64_encode(input)[j]) by {
        let g = j / 4;
        let pos = j % 4;
        let v = sextet(input, g, pos);
        let b0 = byte_or_zero(input, 3 * g);
        let b1 = byte_or_zero(input, 3 * g + 1);
        let b2 = byte_or_zero(input, 3 * g + 2);
        assert(0 <= b0 < 256 && 0 <= b1 < 256 && 0 <= b2 < 256);
        assert(0 <= v < 64);
        lemma_symbol_in_alphabet(v);
        assert(g <= 4 || pos < 2);
    }
}

/// The 6-bit value that the base64 symbol `c` stands for (the inverse of
/// `base64_symbol`; 0 for the pad and for bytes outside the alphabet).
pub open spec fn base64_value(c: u8) -> int {
    if 65 <= c <= 90 {
        c - 65
    } else if 97 <= c <= 122 {
        c - 97 + 26
    } else if 48 <= c <= 57 {
        c - 48 + 52
    } else if c == 43 {
        62
    } else if c == 47 {
        63
    } else {
        0
    }
}

/// How many pad characters `=` end `text` (at most two).
pub open spec fn pad_count(text: Seq<u8>) -> int {
    if text.len() >= 1 && text[text.len() - 1] == 61u8 {
        if text.len() >= 2 && text[text.len() - 2] == 61u8 {
            2
        } else {
            1
        }
    } else {
        0
    }
}

/// The `i`-th byte that padded base64 `text` decodes to: byte `i % 3` of the
/// group of four symbols that starts at `4 * (i / 3)`.
pub open spec fn decoded_byte(text: Seq<u8>, i: int) -> int {
    let g = i / 3;
    let v0 = base64_value(text[4 * g]);
    let v1 = base64_value(text[4 * g + 1]);
    let v2 = base64_value(text[4 * g + 2]);
    let v3 = base64_value(text[4 * g + 3]);
    if i % 3 == 0 {
        v0 * 4 + v1 / 16
    } else if i % 3 == 1 {
        (v1 % 16) * 16 + v2 / 4
    } else {
        (v2 % 4) * 64 + v3
    }
}

/// The bytes that padded base64 `text` decodes to (RFC 4648, section 4):
/// three for each group of four symbols, less one for each pad character.
pub open spec fn base64_decode(text: Seq<u8>) -> Seq<u8> {
    Seq::new(
        (3 * (text.len() / 4) - pad_count(text)) as nat,
        |i: int| decoded_byte(text, i) as u8,
    )
}

proof fn lemma_symbol_value(v: int)
    requires
        0 <= v < 64,
    ensures
        base64_value(base64_symbol(v)) == v,
        base64_symbol(v) != 61u8,
{
}

proof fn lemma_regroup(b0: int, b1: int, b2: int)
    by (nonlinear_arith)
    requires
        0 <= b0 < 256,
        0 <= b1 < 256,
        0 <= b2 < 256,
    ensures
        (b0 / 4) * 4 + ((b0 % 4) * 16 + b1 / 16) / 16 == b0,
        (((b0 % 4) * 16 + b1 / 16) % 16) * 16 + ((b1 % 16) * 4 + b2 / 64) / 4 == b1,
        (((b1 % 16) * 4 + b2 / 64) % 4) * 64 + b2 % 64 == b2,
        0 <= (b0 % 4) * 16 + b1 / 16 < 64,
        0 <= (b1 % 16) * 4 + b2 / 64 < 64,
        0 <= b0 / 4 < 64,
        0 <= b2 % 64 < 64,
{
}

/// Decoding the padded base64 text of any bytes gives those bytes back.
pub proof fn law_base64_decodes_back(input: Seq<u8>)
    ensures
        base64_decode(base64_encode(input)) == input,
{
    let n = input.len() as int;
    let text = base64_encode(input);
    let len = text.len() as int;
    assert(len == 4 * ((n + 2) / 3));
    // The pad characters are exactly those of the last, short group.
    if n > 0 {
        let g = (n - 1) / 3;
        assert(len - 4 == 4 * g);
        assert((len - 1) / 4 == g && (len - 1) % 4 == 3);
        assert((len - 2) / 4 == g && (len - 2) % 4 == 2);
        let b0 = byte_or_zero(input, 3 * g);
        let b1 = byte_or_zero(input, 3 * g + 1);
        let b2 = byte_or_zero(input, 3 * g + 2);
        assert(0 <= b0 < 256 && 0 <= b1 < 256 && 0 <= b2 < 256);
        lemma_regroup(b0, b1, b2);
        if n % 3 == 0 {
            lemma_symbol_value(sextet(input, g, 3));
            assert(text[len - 1] != 61u8);
            assert(pad_count(text) == 0);
        } else if n % 3 == 1 {
            assert(text[len - 1] == 61u8);
            assert(text[len - 2] == 61u8);
            assert(pad_count(text) == 2);
        } else {
            lemma_symbol_value(sextet(input, g, 2));
            assert(text[len - 1] == 61u8);
            assert(text[len - 2] != 61u8);
            assert(pad_count(text) == 1);
        }
    }
    let out = base64_decode(text);
    assert(out.len() == n);
    assert forall|i: int| 0 <= i < n implies out[i] == input[i] by {
        let g = i / 3;
        let b0 = byte_or_zero(input, 3 * g);
        let b1 = byte_or_zero(input, 3 * g + 1);
        let b2 = byte_or_zero(input, 3 * g + 2);
        assert(0 <= b0 < 256 && 0 <= b1 < 256 && 0 <= b2 < 256);
        lemma_regroup(b0, b1, b2);
        assert(4 * g + 3 < len);
        assert((4 * g) / 4 == g && (4 * g) % 4 == 0);
        assert((4 * g + 1) / 4 == g && (4 * g + 1) % 4 == 1);
        assert((4 * g + 2) / 4 == g && (4 * g + 2) % 4 == 2);
        assert((4 * g + 3) / 4 == g && (4 * g + 3) % 4 == 3);
        lemma_symbol_value(sextet(input, g, 0));
        lemma_symbol_value(sextet(input, g, 1));
        assert(text[4 * g] == base64_symbol(b0 / 4));
        assert(text[4 * g + 1] == base64_symbol((b0 % 4) * 16 + b1 / 16));
        if i % 3 == 0 {
            assert(b0 == input[i]);
        } else if i % 3 == 1 {
            lemma_symbol_value(sextet(input, g, 2));
            assert(text[4 * g + 2] == base64_symbol((b1 % 16) * 4 + b2 / 64));
            assert(b1 == input[i]);
        } else {
            lemma_symbol_value(sextet(input, g, 2));
            lemma_symbol_value(sextet(input, g, 3));
            assert(text[4 * g + 2] == base64_symbol((b1 % 16) * 4 + b2 / 64));
            assert(text[4 * g + 3] == base64_symbol(b2 % 64));
            assert(b2 == input[i]);
        }
    }
    assert(out =~= input);
}

/// Different bytes give different keys: the key determines the bytes it encodes.
pub proof fn law_key_injective(a: Seq<u8>, b: Seq<u8>)
    requires
        base64_encode(a) == base64_encode(b),
    ensures
        a == b,
{
    law_base64_decodes_back(a);
    law_base64_decodes_back(b);
}

/// Encodes the 16 random bytes of a handshake as the 24 characters of the
/// `Sec-WebSocket-Key` header: their padded base64 text.
pub fn encode_websocket_key(input: &[u8; 16]) -> (output: [u8; 24])
    ensures
        output@ == base64_encode(input@),
{
    let mut output: [u8; 24] = [0u8; 24];
    let mut index: usize = 0;
    while index < 6
        invariant
            index <= 6,
            output@.len() == 24,
            forall|j: int| 0 <= j < 4 * index ==> output@[j] == base64_char_at(input@, j),
        decreases 6 - index,
    {
        let start: usize = index * 3;
        let byte_0: u32 = input[start] as u32;
        let byte_1: u32 = if start + 1 < 16 { input[start + 1] as u32 } else { 0 };
        let byte_2: u32 = if start + 2 < 16 { input[start + 2] as u32 } else { 0 };
        let triple: u32 = (byte_0 << 16) | (byte_1 << 8) | byte_2;
        proof {
            lemma_triple_sextets(byte_0, byte_1, byte_2);
        }
        let offset: usize = index * 4;
        let c0 = alphabet_symbol((triple >> 18) & 0x3f);
        let c1 = alphabet_symbol((triple >> 12) & 0x3f);
        let c2 = if start + 1 < 16 { alphabet_symbol((triple >> 6) & 0x3f) } else { 61u8 };
        let c3 = if start + 2 < 16 { alphabet_symbol(triple & 0x3f) } else { 61u8 };
        let ghost prev = output@;
        output[offset] = c0;
        output[offset + 1] = c1;
        output[offset + 2] = c2;
        output[offset + 3] = c3;
        proof {
            let g = index as int;
            assert(byte_or_zero(input@, 3 * g) == byte_0);
            assert(byte_or_zero(input@, 3 * g + 1) == byte_1);
            assert(byte_or_zero(input@, 3 * g + 2) == byte_2);
            assert forall|j: int| 0 <= j < 4 * (index + 1) implies output@[j] == base64_char_at(
                input@,
                j,
            ) by {
                if j >= 4 * g {
                    assert(j / 4 == g);
                    assert(j % 4 == j - 4 * g);
                } else {
                    assert(output@[j] == prev[j]);
                }
            }
        }
        index = index + 1;
    }
    assert(output@ =~= base64_encode(input@));
    output
}

} // verus!
