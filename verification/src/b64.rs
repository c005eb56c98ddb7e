//! Unpadded, URL-safe base64: the framing alphabet of session tokens.
//!
//! Encoding maps each three-byte group to four characters of the
//! URL-safe alphabet and a trailing group of one or two bytes to two or
//! three characters, with no padding. Decoding is strict: it accepts
//! exactly the encoder's outputs, rejecting bad lengths, foreign
//! characters and nonzero trailing bits.

use vstd::prelude::*;

verus! {

broadcast use vstd::seq::axiom_seq_subrange_decreases;

/// The alphabet character for a six-bit value.
pub open spec fn b64_char(v: int) -> char {
    if v == 0 {
        'A'
    } else if v == 1 {
        'B'
    } else if v == 2 {
        'C'
    } else if v == 3 {
        'D'
    } else if v == 4 {
        'E'
    } else if v == 5 {
        'F'
    } else if v == 6 {
        'G'
    } else if v == 7 {
        'H'
    } else if v == 8 {
        'I'
    } else if v == 9 {
        'J'
    } else if v == 10 {
        'K'
    } else if v == 11 {
        'L'
    } else if v == 12 {
        'M'
    } else if v == 13 {
        'N'
    } else if v == 14 {
        'O'
    } else if v == 15 {
        'P'
    } else if v == 16 {
        'Q'
    } else if v == 17 {
        'R'
    } else if v == 18 {
        'S'
    } else if v == 19 {
        'T'
    } else if v == 20 {
        'U'
    } else if v == 21 {
        'V'
    } else if v == 22 {
        'W'
    } else if v == 23 {
        'X'
    } else if v == 24 {
        'Y'
    } else if v == 25 {
        'Z'
    } else if v == 26 {
        'a'
    } else if v == 27 {
        'b'
    } else if v == 28 {
        'c'
    } else if v == 29 {
        'd'
    } else if v == 30 {
        'e'
    } else if v == 31 {
        'f'
    } else if v == 32 {
        'g'
    } else if v == 33 {
        'h'
    } else if v == 34 {
        'i'
    } else if v == 35 {
        'j'
    } else if v == 36 {
        'k'
    } else if v == 37 {
        'l'
    } else if v == 38 {
        'm'
    } else if v == 39 {
        'n'
    } else if v == 40 {
        'o'
    } else if v == 41 {
        'p'
    } else if v == 42 {
        'q'
    } else if v == 43 {
        'r'
    } else if v == 44 {
        's'
    } else if v == 45 {
        't'
    } else if v == 46 {
        'u'
    } else if v == 47 {
        'v'
    } else if v == 48 {
        'w'
    } else if v == 49 {
        'x'
    } else if v == 50 {
        'y'
    } else if v == 51 {
        'z'
    } else if v == 52 {
        '0'
    } else if v == 53 {
        '1'
    } else if v == 54 {
        '2'
    } else if v == 55 {
        '3'
    } else if v == 56 {
        '4'
    } else if v == 57 {
        '5'
    } else if v == 58 {
        '6'
    } else if v == 59 {
        '7'
    } else if v == 60 {
        '8'
    } else if v == 61 {
        '9'
    } else if v == 62 {
        '-'
    } else {
        '_'
    }
}

/// Whether `c` is a character of the URL-safe alphabet.
pub open spec fn is_b64_char(c: char) -> bool {
    exists|v: int| 0 <= v < 64 && c == b64_char(v)
}

/// The six-bit value of an alphabet character, if it is one.
pub open spec fn b64_val(c: char) -> Option<int> {
    let u = c as u32;
    if 65 <= u <= 90 {
        Some(u - 65)
    } else if 97 <= u <= 122 {
        Some(u - 97 + 26)
    } else if 48 <= u <= 57 {
        Some(u - 48 + 52)
    } else if u == 45 {
        Some(62int)
    } else if u == 95 {
        Some(63int)
    } else {
        None
    }
}

/// The value of an alphabet character is the one it encodes, and no
/// alphabet character is a dot.
pub proof fn lemma_b64_char_val(v: int)
    requires
        0 <= v < 64,
    ensures
        b64_val(b64_char(v)) == Some(v),
        is_b64_char(b64_char(v)),
        b64_char(v) != '.',
{
}

/// A character with a value is the alphabet character of that value.
pub proof fn lemma_b64_val_char(c: char)
    ensures
        match b64_val(c) {
            Some(v) => 0 <= v < 64 && b64_char(v) == c && is_b64_char(c),
            None => !is_b64_char(c),
        },
{
    if b64_val(c) is Some {
        let v = b64_val(c)->Some_0;
        lemma_b64_char_val(v);
        assert(b64_char(v) as u32 == c as u32);
        vstd::utf8::char_u32_cast(b64_char(v), b64_char(v) as u32);
        vstd::utf8::char_u32_cast(c, c as u32);
    } else {
        if is_b64_char(c) {
            let v = choose|v: int| 0 <= v < 64 && c == b64_char(v);
            lemma_b64_char_val(v);
            assert(false);
        }
    }
}

/// The unpadded base64url encoding of a byte string.
pub open spec fn spec_b64_encode(b: Seq<u8>) -> Seq<char>
    decreases b.len(),
{
    if b.len() == 0 {
        Seq::empty()
    } else if b.len() == 1 {
        seq![b64_char(b[0] as int / 4), b64_char((b[0] as int % 4) * 16)]
    } else if b.len() == 2 {
        seq![
            b64_char(b[0] as int / 4),
            b64_char((b[0] as int % 4) * 16 + b[1] as int / 16),
            b64_char((b[1] as int % 16) * 4),
        ]
    } else {
        seq![
            b64_char(b[0] as int / 4),
            b64_char((b[0] as int % 4) * 16 + b[1] as int / 16),
            b64_char((b[1] as int % 16) * 4 + b[2] as int / 64),
            b64_char(b[2] as int % 64),
        ] + spec_b64_encode(b.skip(3))
    }
}

/// Every character of an encoding is an alphabet character; in
/// particular none is a dot, so token framing can split on dots.
pub proof fn lemma_b64_encode_chars(b: Seq<u8>)
    ensures
        forall|i: int|
            0 <= i < spec_b64_encode(b).len() ==> is_b64_char(#[trigger] spec_b64_encode(b)[i])
                && spec_b64_encode(b)[i] != '.',
    decreases b.len(),
{
    if b.len() == 0 {
    } else if b.len() == 1 {
        lemma_b64_char_val(b[0] as int / 4);
        lemma_b64_char_val((b[0] as int % 4) * 16);
    } else if b.len() == 2 {
        lemma_b64_char_val(b[0] as int / 4);
        lemma_b64_char_val((b[0] as int % 4) * 16 + b[1] as int / 16);
        lemma_b64_char_val((b[1] as int % 16) * 4);
    } else {
        lemma_b64_encode_chars(b.skip(3));
        lemma_b64_char_val(b[0] as int / 4);
        lemma_b64_char_val((b[0] as int % 4) * 16 + b[1] as int / 16);
        lemma_b64_char_val((b[1] as int % 16) * 4 + b[2] as int / 64);
        lemma_b64_char_val(b[2] as int % 64);
        assert forall|i: int| 0 <= i < spec_b64_encode(b).len() implies is_b64_char(
            #[trigger] spec_b64_encode(b)[i],
        ) && spec_b64_encode(b)[i] != '.' by {
            if i >= 4 {
                assert(spec_b64_encode(b)[i] == spec_b64_encode(b.skip(3))[i - 4]);
            }
        }
    }
}

/// The one-character string slice of an alphabet value.
fn b64_char_str(v: u8) -> (r: &'static str)
    requires
        v < 64,
    ensures
        r@ =~= seq![b64_char(v as int)],
{
    if v == 0 {
        let s = "A";
        proof { reveal_strlit("A"); }
        s
    } else if v == 1 {
        let s = "B";
        proof { reveal_strlit("B"); }
        s
    } else if v == 2 {
        let s = "C";
        proof { reveal_strlit("C"); }
        s
    } else if v == 3 {
        let s = "D";
        proof { reveal_strlit("D"); }
        s
    } else if v == 4 {
        let s = "E";
        proof { reveal_strlit("E"); }
        s
    } else if v == 5 {
        let s = "F";
        proof { reveal_strlit("F"); }
        s
    } else if v == 6 {
        let s = "G";
        proof { reveal_strlit("G"); }
        s
    } else if v == 7 {
        let s = "H";
        proof { reveal_strlit("H"); }
        s
    } else if v == 8 {
        let s = "I";
        proof { reveal_strlit("I"); }
        s
    } else if v == 9 {
        let s = "J";
        proof { reveal_strlit("J"); }
        s
    } else if v == 10 {
        let s = "K";
        proof { reveal_strlit("K"); }
        s
    } else if v == 11 {
        let s = "L";
        proof { reveal_strlit("L"); }
        s
    } else if v == 12 {
        let s = "M";
        proof { reveal_strlit("M"); }
        s
    } else if v == 13 {
        let s = "N";
        proof { reveal_strlit("N"); }
        s
    } else if v == 14 {
        let s = "O";
        proof { reveal_strlit("O"); }
        s
    } else if v == 15 {
        let s = "P";
        proof { reveal_strlit("P"); }
        s
    } else if v == 16 {
        let s = "Q";
        proof { reveal_strlit("Q"); }
        s
    } else if v == 17 {
        let s = "R";
        proof { reveal_strlit("R"); }
        s
    } else if v == 18 {
        let s = "S";
        proof { reveal_strlit("S"); }
        s
    } else if v == 19 {
        let s = "T";
        proof { reveal_strlit("T"); }
        s
    } else if v == 20 {
        let s = "U";
        proof { reveal_strlit("U"); }
        s
    } else if v == 21 {
        let s = "V";
        proof { reveal_strlit("V"); }
        s
    } else if v == 22 {
        let s = "W";
        proof { reveal_strlit("W"); }
        s
    } else if v == 23 {
        let s = "X";
        proof { reveal_strlit("X"); }
        s
    } else if v == 24 {
        let s = "Y";
        proof { reveal_strlit("Y"); }
        s
    } else if v == 25 {
        let s = "Z";
        proof { reveal_strlit("Z"); }
        s
    } else if v == 26 {
        let s = "a";
        proof { reveal_strlit("a"); }
        s
    } else if v == 27 {
        let s = "b";
        proof { reveal_strlit("b"); }
        s
    } else if v == 28 {
        let s = "c";
        proof { reveal_strlit("c"); }
        s
    } else if v == 29 {
        let s = "d";
        proof { reveal_strlit("d"); }
        s
    } else if v == 30 {
        let s = "e";
        proof { reveal_strlit("e"); }
        s
    } else if v == 31 {
        let s = "f";
        proof { reveal_strlit("f"); }
        s
    } else if v == 32 {
        let s = "g";
        proof { reveal_strlit("g"); }
        s
    } else if v == 33 {
        let s = "h";
        proof { reveal_strlit("h"); }
        s
    } else if v == 34 {
        let s = "i";
        proof { reveal_strlit("i"); }
        s
    } else if v == 35 {
        let s = "j";
        proof { reveal_strlit("j"); }
        s
    } else if v == 36 {
        let s = "k";
        proof { reveal_strlit("k"); }
        s
    } else if v == 37 {
        let s = "l";
        proof { reveal_strlit("l"); }
        s
    } else if v == 38 {
        let s = "m";
        proof { reveal_strlit("m"); }
        s
    } else if v == 39 {
        let s = "n";
        proof { reveal_strlit("n"); }
        s
    } else if v == 40 {
        let s = "o";
        proof { reveal_strlit("o"); }
        s
    } else if v == 41 {
        let s = "p";
        proof { reveal_strlit("p"); }
        s
    } else if v == 42 {
        let s = "q";
        proof { reveal_strlit("q"); }
        s
    } else if v == 43 {
        let s = "r";
        proof { reveal_strlit("r"); }
        s
    } else if v == 44 {
        let s = "s";
        proof { reveal_strlit("s"); }
        s
    } else if v == 45 {
        let s = "t";
        proof { reveal_strlit("t"); }
        s
    } else if v == 46 {
        let s = "u";
        proof { reveal_strlit("u"); }
        s
    } else if v == 47 {
        let s = "v";
        proof { reveal_strlit("v"); }
        s
    } else if v == 48 {
        let s = "w";
        proof { reveal_strlit("w"); }
        s
    } else if v == 49 {
        let s = "x";
        proof { reveal_strlit("x"); }
        s
    } else if v == 50 {
        let s = "y";
        proof { reveal_strlit("y"); }
        s
    } else if v == 51 {
        let s = "z";
        proof { reveal_strlit("z"); }
        s
    } else if v == 52 {
        let s = "0";
        proof { reveal_strlit("0"); }
        s
    } else if v == 53 {
        let s = "1";
        proof { reveal_strlit("1"); }
        s
    } else if v == 54 {
        let s = "2";
        proof { reveal_strlit("2"); }
        s
    } else if v == 55 {
        let s = "3";
        proof { reveal_strlit("3"); }
        s
    } else if v == 56 {
        let s = "4";
        proof { reveal_strlit("4"); }
        s
    } else if v == 57 {
        let s = "5";
        proof { reveal_strlit("5"); }
        s
    } else if v == 58 {
        let s = "6";
        proof { reveal_strlit("6"); }
        s
    } else if v == 59 {
        let s = "7";
        proof { reveal_strlit("7"); }
        s
    } else if v == 60 {
        let s = "8";
        proof { reveal_strlit("8"); }
        s
    } else if v == 61 {
        let s = "9";
        proof { reveal_strlit("9"); }
        s
    } else if v == 62 {
        let s = "-";
        proof { reveal_strlit("-"); }
        s
    } else {
        let s = "_";
        proof { reveal_strlit("_"); }
        s
    }
}

/// Encodes a byte string as an unpadded base64url string.
pub fn b64_encode(b: &[u8]) -> (r: String)
    ensures
        r@ == spec_b64_encode(b@),
{
    let mut out = String::new();
    let mut i: usize = 0;
    let n = b.len();
    proof {
        assert(b@.skip(0) =~= b@);
    }
    while n - i >= 3
        invariant
            i <= n,
            n == b@.len(),
            spec_b64_encode(b@) =~= out@ + spec_b64_encode(b@.skip(i as int)),
        decreases n - i,
    {
        let ghost pre = out@;
        let b0 = b[i];
        let b1 = b[i + 1];
        let b2 = b[i + 2];
        out.append(b64_char_str(b0 / 4));
        out.append(b64_char_str((b0 % 4) * 16 + b1 / 16));
        out.append(b64_char_str((b1 % 16) * 4 + b2 / 64));
        out.append(b64_char_str(b2 % 64));
        proof {
            let rest = b@.skip(i as int);
            assert(rest[0] == b@[i as int]);
            assert(rest[1] == b@[i as int + 1]);
            assert(rest[2] == b@[i as int + 2]);
            assert(rest.skip(3) =~= b@.skip(i as int + 3));
            assert(out@ =~= pre + seq![
                b64_char(b@[i as int] as int / 4),
                b64_char((b@[i as int] as int % 4) * 16 + b@[i as int + 1] as int / 16),
                b64_char((b@[i as int + 1] as int % 16) * 4 + b@[i as int + 2] as int / 64),
                b64_char(b@[i as int + 2] as int % 64),
            ]);
        }
        i = i + 3;
    }
    let ghost pre = out@;
    if n - i == 1 {
        let b0 = b[i];
        out.append(b64_char_str(b0 / 4));
        out.append(b64_char_str((b0 % 4) * 16));
        proof {
            let rest = b@.skip(i as int);
            assert(rest[0] == b@[i as int]);
            assert(out@ =~= pre + seq![
                b64_char(b@[i as int] as int / 4),
                b64_char((b@[i as int] as int % 4) * 16),
            ]);
            assert(out@ =~= spec_b64_encode(b@));
        }
    } else if n - i == 2 {
        let b0 = b[i];
        let b1 = b[i + 1];
        out.append(b64_char_str(b0 / 4));
        out.append(b64_char_str((b0 % 4) * 16 + b1 / 16));
        out.append(b64_char_str((b1 % 16) * 4));
        proof {
            let rest = b@.skip(i as int);
            assert(rest[0] == b@[i as int]);
            assert(rest[1] == b@[i as int + 1]);
            assert(out@ =~= pre + seq![
                b64_char(b@[i as int] as int / 4),
                b64_char((b@[i as int] as int % 4) * 16 + b@[i as int + 1] as int / 16),
                b64_char((b@[i as int + 1] as int % 16) * 4),
            ]);
            assert(out@ =~= spec_b64_encode(b@));
        }
    } else {
        proof {
            assert(b@.skip(i as int) =~= Seq::empty());
            assert(out@ =~= spec_b64_encode(b@));
        }
    }
    out
}

/// The strict decoding of an unpadded base64url string: accepts exactly
/// the encoder's outputs.
pub open spec fn spec_b64_decode(s: Seq<char>) -> Option<Seq<u8>>
    decreases s.len(),
{
    if s.len() == 0 {
        Some(Seq::empty())
    } else if s.len() == 1 {
        None
    } else if s.len() == 2 {
        match (b64_val(s[0]), b64_val(s[1])) {
            (Some(v1), Some(v2)) => if v2 % 16 == 0 {
                Some(seq![(v1 * 4 + v2 / 16) as u8])
            } else {
                None
            },
            _ => None,
        }
    } else if s.len() == 3 {
        match (b64_val(s[0]), b64_val(s[1]), b64_val(s[2])) {
            (Some(v1), Some(v2), Some(v3)) => if v3 % 4 == 0 {
                Some(seq![(v1 * 4 + v2 / 16) as u8, ((v2 % 16) * 16 + v3 / 4) as u8])
            } else {
                None
            },
            _ => None,
        }
    } else {
        match (b64_val(s[0]), b64_val(s[1]), b64_val(s[2]), b64_val(s[3])) {
            (Some(v1), Some(v2), Some(v3), Some(v4)) => match spec_b64_decode(s.skip(4)) {
                Some(rest) => Some(
                    seq![
                        (v1 * 4 + v2 / 16) as u8,
                        ((v2 % 16) * 16 + v3 / 4) as u8,
                        ((v3 % 4) * 64 + v4) as u8,
                    ] + rest,
                ),
                None => None,
            },
            _ => None,
        }
    }
}

/// Decoding inverts encoding.
pub proof fn lemma_b64_decode_of_encode(b: Seq<u8>)
    ensures
        spec_b64_decode(spec_b64_encode(b)) == Some(b),
    decreases b.len(),
{
    if b.len() == 0 {
        assert(spec_b64_encode(b) =~= Seq::empty());
        assert(spec_b64_decode(spec_b64_encode(b))->Some_0 =~= b);
    } else if b.len() == 1 {
        lemma_b64_char_val(b[0] as int / 4);
        lemma_b64_char_val((b[0] as int % 4) * 16);
        assert(spec_b64_decode(spec_b64_encode(b))->Some_0 =~= b);
    } else if b.len() == 2 {
        lemma_b64_char_val(b[0] as int / 4);
        lemma_b64_char_val((b[0] as int % 4) * 16 + b[1] as int / 16);
        lemma_b64_char_val((b[1] as int % 16) * 4);
        assert(spec_b64_decode(spec_b64_encode(b))->Some_0 =~= b);
    } else {
        lemma_b64_decode_of_encode(b.skip(3));
        lemma_b64_char_val(b[0] as int / 4);
        lemma_b64_char_val((b[0] as int % 4) * 16 + b[1] as int / 16);
        lemma_b64_char_val((b[1] as int % 16) * 4 + b[2] as int / 64);
        lemma_b64_char_val(b[2] as int % 64);
        let s = spec_b64_encode(b);
        assert(s.len() >= 4);
        assert(s.skip(4) =~= spec_b64_encode(b.skip(3)));
        assert(spec_b64_decode(s)->Some_0 =~= b);
    }
}

/// The six-bit value of a character, if it is an alphabet character.
fn b64_val_of(c: char) -> (r: Option<u8>)
    ensures
        match r {
            Some(v) => b64_val(c) == Some(v as int),
            None => b64_val(c) is None,
        },
{
    let u = c as u32;
    if 65 <= u && u <= 90 {
        Some((u - 65) as u8)
    } else if 97 <= u && u <= 122 {
        Some((u - 97 + 26) as u8)
    } else if 48 <= u && u <= 57 {
        Some((u - 48 + 52) as u8)
    } else if u == 45 {
        Some(62)
    } else if u == 95 {
        Some(63)
    } else {
        None
    }
}

/// Decodes an unpadded base64url string, strictly: exactly the
/// encoder's outputs are accepted.
#[verifier::rlimit(100)]
pub fn b64_decode(s: &str) -> (r: Option<Vec<u8>>)
    ensures
        match r {
            Some(b) => spec_b64_decode(s@) == Some(b@),
            None => spec_b64_decode(s@) is None,
        },
{
    let n = s.unicode_len();
    let mut out: Vec<u8> = Vec::new();
    let mut i: usize = 0;
    proof {
        assert(s@.skip(0) =~= s@);
        assert(out@ =~= Seq::empty());
    }
    while n - i >= 4
        invariant
            i <= n,
            n == s@.len(),
            spec_b64_decode(s@) == match spec_b64_decode(s@.skip(i as int)) {
                Some(rest) => Some(out@ + rest),
                None => None::<Seq<u8>>,
            },
        decreases n - i,
    {
        let ghost pre = out@;
        let ghost tail = s@.skip(i as int);
        let v1 = match b64_val_of(s.get_char(i)) {
            Option::Some(v) => v,
            Option::None => {
                proof {
                    assert(tail[0] == s@[i as int]);
                }
                return None;
            },
        };
        let v2 = match b64_val_of(s.get_char(i + 1)) {
            Option::Some(v) => v,
            Option::None => {
                proof {
                    assert(tail[1] == s@[i as int + 1]);
                }
                return None;
            },
        };
        let v3 = match b64_val_of(s.get_char(i + 2)) {
            Option::Some(v) => v,
            Option::None => {
                proof {
                    assert(tail[2] == s@[i as int + 2]);
                }
                return None;
            },
        };
        let v4 = match b64_val_of(s.get_char(i + 3)) {
            Option::Some(v) => v,
            Option::None => {
                proof {
                    assert(tail[3] == s@[i as int + 3]);
                }
                return None;
            },
        };
        out.push(v1 * 4 + v2 / 16);
        out.push((v2 % 16) * 16 + v3 / 4);
        out.push((v3 % 4) * 64 + v4);
        proof {
            assert(tail[0] == s@[i as int]);
            assert(tail[1] == s@[i as int + 1]);
            assert(tail[2] == s@[i as int + 2]);
            assert(tail[3] == s@[i as int + 3]);
            assert(tail.skip(4) =~= s@.skip(i as int + 4));
            assert(out@ =~= pre + seq![
                (v1 as int * 4 + v2 as int / 16) as u8,
                ((v2 as int % 16) * 16 + v3 as int / 4) as u8,
                ((v3 as int % 4) * 64 + v4 as int) as u8,
            ]);
            if spec_b64_decode(s@.skip(i as int + 4)) is Some {
                let rest = spec_b64_decode(s@.skip(i as int + 4))->Some_0;
                assert(pre + (seq![
                    (v1 as int * 4 + v2 as int / 16) as u8,
                    ((v2 as int % 16) * 16 + v3 as int / 4) as u8,
                    ((v3 as int % 4) * 64 + v4 as int) as u8,
                ] + rest) =~= out@ + rest);
            }
        }
        i = i + 4;
    }
    let ghost tail = s@.skip(i as int);
    if n - i == 0 {
        proof {
            assert(tail =~= Seq::empty());
            assert(out@ + Seq::<u8>::empty() =~= out@);
        }
        Some(out)
    } else if n - i == 2 {
        let v1 = match b64_val_of(s.get_char(i)) {
            Option::Some(v) => v,
            Option::None => {
                proof {
                    assert(tail[0] == s@[i as int]);
                }
                return None;
            },
        };
        let v2 = match b64_val_of(s.get_char(i + 1)) {
            Option::Some(v) => v,
            Option::None => {
                proof {
                    assert(tail[1] == s@[i as int + 1]);
                }
                return None;
            },
        };
        proof {
            assert(tail[0] == s@[i as int]);
            assert(tail[1] == s@[i as int + 1]);
        }
        if v2 % 16 != 0 {
            return None;
        }
        let ghost pre = out@;
        out.push(v1 * 4 + v2 / 16);
        proof {
            assert(out@ =~= pre + seq![(v1 as int * 4 + v2 as int / 16) as u8]);
        }
        Some(out)
    } else if n - i == 3 {
        let v1 = match b64_val_of(s.get_char(i)) {
            Option::Some(v) => v,
            Option::None => {
                proof {
                    assert(tail[0] == s@[i as int]);
                }
                return None;
            },
        };
        let v2 = match b64_val_of(s.get_char(i + 1)) {
            Option::Some(v) => v,
            Option::None => {
                proof {
                    assert(tail[1] == s@[i as int + 1]);
                }
                return None;
            },
        };
        let v3 = match b64_val_of(s.get_char(i + 2)) {
            Option::Some(v) => v,
            Option::None => {
                proof {
                    assert(tail[2] == s@[i as int + 2]);
                }
                return None;
            },
        };
        proof {
            assert(tail[0] == s@[i as int]);
            assert(tail[1] == s@[i as int + 1]);
            assert(tail[2] == s@[i as int + 2]);
        }
        if v3 % 4 != 0 {
            return None;
        }
        let ghost pre = out@;
        out.push(v1 * 4 + v2 / 16);
        out.push((v2 % 16) * 16 + v3 / 4);
        proof {
            assert(out@ =~= pre + seq![
                (v1 as int * 4 + v2 as int / 16) as u8,
                ((v2 as int % 16) * 16 + v3 as int / 4) as u8,
            ]);
        }
        Some(out)
    } else {
        // One trailing character cannot carry a whole byte.
        None
    }
}

/// An ASCII code bound carries over to the character ordering.
proof fn lemma_char_code_ascii_b64(c: char)
    requires
        c as u32 <= 127,
    ensures
        '\0' <= c <= '\u{7f}',
{
}

/// Encodings are ASCII character strings.
pub proof fn lemma_b64_encode_ascii(b: Seq<u8>)
    ensures
        vstd::utf8::is_ascii_chars(spec_b64_encode(b)),
{
    lemma_b64_encode_chars(b);
    assert forall|i: int| 0 <= i < spec_b64_encode(b).len() implies '\0'
        <= #[trigger] spec_b64_encode(b)[i] <= '\u{7f}' by {
        let c = spec_b64_encode(b)[i];
        assert(is_b64_char(c));
        let v = choose|v: int| 0 <= v < 64 && c == b64_char(v);
        assert(b64_char(v) as u32 <= 127);
        lemma_char_code_ascii_b64(c);
    }
}

} // verus!
