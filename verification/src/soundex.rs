//! Soundex phonetic encoding: a word becomes its first letter, uppercased,
//! followed by digits for the consonant classes of the remaining letters.
//! Adjacent letters of the same class collapse into one digit, vowels and
//! the letters h, w, y separate classes without producing a digit, and
//! non-letters are ignored. The code is cut off once it reaches four bytes
//! and padded with zeros up to four characters otherwise.

use vstd::prelude::*;

verus! {

use crate::scan::clamp_to;

/// True for the 26 ASCII letters, in either case.
pub open spec fn spec_is_ascii_letter(c: char) -> bool {
    (65 <= (c as u32) && (c as u32) <= 90) || (97 <= (c as u32) && (c as u32) <= 122)
}

/// Uppercases an ASCII lowercase letter; any other character is unchanged.
pub open spec fn spec_to_ascii_upper(c: char) -> char {
    if 97 <= (c as u32) && (c as u32) <= 122 {
        (((c as u32) - 32) as u8) as char
    } else {
        c
    }
}

/// The soundex class digit of an uppercase letter: '1'..'6' for the six
/// consonant classes, '0' for the letters that only separate classes.
pub open spec fn spec_class_digit(u: char) -> char {
    if u == 'B' || u == 'F' || u == 'P' || u == 'V' {
        '1'
    } else if u == 'C' || u == 'G' || u == 'J' || u == 'K' || u == 'Q' || u == 'S' || u == 'X'
        || u == 'Z' {
        '2'
    } else if u == 'D' || u == 'T' {
        '3'
    } else if u == 'L' {
        '4'
    } else if u == 'M' || u == 'N' {
        '5'
    } else if u == 'R' {
        '6'
    } else {
        '0'
    }
}

/// The phonetic code of a character: `None` for a non-letter, otherwise
/// the class digit of its uppercase form.
pub open spec fn spec_phonetic(c: char) -> Option<char> {
    if spec_is_ascii_letter(c) {
        Some(spec_class_digit(spec_to_ascii_upper(c)))
    } else {
        None
    }
}

/// Bytes a character occupies in UTF-8.
pub open spec fn spec_char_len(c: char) -> nat {
    if (c as u32) < 0x80 {
        1
    } else if (c as u32) < 0x800 {
        2
    } else if (c as u32) < 0x10000 {
        3
    } else {
        4
    }
}

/// Bytes a character sequence occupies in UTF-8.
pub open spec fn spec_bytes_len(s: Seq<char>) -> nat
    decreases s.len(),
{
    if s.len() == 0 {
        0
    } else {
        spec_bytes_len(s.drop_last()) + spec_char_len(s.last())
    }
}

/// Pads a code shorter than four characters with zeros on the right.
pub open spec fn spec_pad(acc: Seq<char>) -> Seq<char> {
    if acc.len() >= 4 {
        acc
    } else {
        acc + Seq::new((4 - acc.len()) as nat, |i: int| '0')
    }
}

/// One step per remaining character: a skipped letter resets the previous
/// class to '0', a letter of a new class appends its digit (stopping the
/// encoding the moment the code reaches four bytes), anything else changes
/// nothing. At the end the code is padded to four characters.
pub open spec fn spec_encode_rest(
    rest: Seq<char>,
    prev: Option<char>,
    acc: Seq<char>,
    acc_bytes: nat,
) -> Seq<char>
    decreases rest.len(),
{
    if rest.len() == 0 {
        spec_pad(acc)
    } else {
        let p = spec_phonetic(rest[0]);
        if p == Some('0') {
            spec_encode_rest(rest.drop_first(), Some('0'), acc, acc_bytes)
        } else if p is Some && p != prev {
            let acc2 = acc.push(p.unwrap());
            if acc_bytes + 1 == 4 {
                acc2
            } else {
                spec_encode_rest(rest.drop_first(), p, acc2, acc_bytes + 1)
            }
        } else {
            spec_encode_rest(rest.drop_first(), prev, acc, acc_bytes)
        }
    }
}

/// The full soundex code of a non-empty word.
pub open spec fn spec_soundex(word: Seq<char>) -> Seq<char>
    recommends
        word.len() >= 1,
{
    let first_up = spec_to_ascii_upper(word[0]);
    spec_encode_rest(
        word.drop_first(),
        spec_phonetic(first_up),
        seq![first_up],
        spec_char_len(first_up),
    )
}

/// Relies on `String::push`: appends exactly the one given character.
#[verifier::external_body]
fn push_char(s: &mut String, c: char)
    ensures
        final(s)@ == old(s)@.push(c),
{
    s.push(c);
}

/// Uppercases an ASCII lowercase letter; any other character is unchanged.
fn to_ascii_upper(c: char) -> (r: char)
    ensures
        r == spec_to_ascii_upper(c),
{
    let u = c as u32;
    if 97 <= u && u <= 122 {
        ((u - 32) as u8) as char
    } else {
        c
    }
}

/// The phonetic code of a character: `None` for a non-letter, `Some('0')`
/// for a letter that only separates classes, otherwise the digit
/// `'1'..'6'` of the letter's consonant class.
pub fn get_phonetic(c: char) -> (r: Option<char>)
    ensures
        r == spec_phonetic(c),
{
    let u = c as u32;
    if !((65 <= u && u <= 90) || (97 <= u && u <= 122)) {
        return None;
    }
    let up = to_ascii_upper(c);
    if up == 'B' || up == 'F' || up == 'P' || up == 'V' {
        Some('1')
    } else if up == 'C' || up == 'G' || up == 'J' || up == 'K' || up == 'Q' || up == 'S' || up
        == 'X' || up == 'Z' {
        Some('2')
    } else if up == 'D' || up == 'T' {
        Some('3')
    } else if up == 'L' {
        Some('4')
    } else if up == 'M' || up == 'N' {
        Some('5')
    } else if up == 'R' {
        Some('6')
    } else {
        Some('0')
    }
}

/// Bytes the character occupies in UTF-8.
fn char_len(c: char) -> (n: usize)
    ensures
        n == spec_char_len(c),
{
    let u = c as u32;
    if u < 0x80 {
        1
    } else if u < 0x800 {
        2
    } else if u < 0x10000 {
        3
    } else {
        4
    }
}

/// Pushing a pad zero onto a code shorter than four characters does not
/// change the padded code.
proof fn lemma_pad_push_zero(acc: Seq<char>)
    requires
        acc.len() < 4,
    ensures
        spec_pad(acc.push('0')) == spec_pad(acc),
{
    assert(spec_pad(acc.push('0')) =~= spec_pad(acc));
}

/// The soundex code of a non-empty word.
pub fn soundex(word: &str) -> (r: String)
    requires
        word@.len() >= 1,
    ensures
        r@ == spec_soundex(word@),
{
    let n: usize = word.unicode_len();
    let first_up = to_ascii_upper(word.get_char(0));
    let mut result = String::new();
    push_char(&mut result, first_up);
    let mut bytes_sat: usize = char_len(first_up);
    let mut chars_sat: usize = 1;
    let mut previous = get_phonetic(first_up);
    let mut i: usize = 1;
    proof {
        assert(result@ =~= seq![first_up]);
        assert(spec_bytes_len(result@) == spec_char_len(first_up)) by {
            assert(spec_bytes_len(Seq::<char>::empty()) == 0);
            assert(result@.drop_last() =~= Seq::<char>::empty());
            assert(result@.last() == first_up);
        }
        assert(word@.drop_first() =~= word@.skip(1));
    }
    while i < n
        invariant
            1 <= i <= n,
            n == word@.len(),
            1 <= result@.len(),
            bytes_sat == clamp_to(spec_bytes_len(result@) as int, 5),
            chars_sat == clamp_to(result@.len() as int, 4),
            spec_encode_rest(word@.skip(i as int), previous, result@, spec_bytes_len(result@))
                == spec_soundex(word@),
        decreases n - i,
    {
        proof {
            let rest = word@.skip(i as int);
            assert(rest[0] == word@[i as int]);
            assert(rest.drop_first() =~= word@.skip(i as int + 1));
        }
        let c = word.get_char(i);
        let phonetic = get_phonetic(c);
        match phonetic {
            Some(d) => {
                if d == '0' {
                    previous = Some('0');
                } else {
                    let is_same = match previous {
                        Some(q) => q == d,
                        None => false,
                    };
                    if !is_same {
                        let ghost pre = result@;
                        push_char(&mut result, d);
                        proof {
                            assert(result@.drop_last() =~= pre);
                            assert(spec_char_len(d) == 1);
                            assert(spec_bytes_len(result@) == spec_bytes_len(pre) + 1);
                        }
                        if bytes_sat <= 4 {
                            bytes_sat = bytes_sat + 1;
                        }
                        if chars_sat < 4 {
                            chars_sat = chars_sat + 1;
                        }
                        previous = Some(d);
                        if bytes_sat == 4 {
                            return result;
                        }
                    }
                }
            }
            None => {},
        }
        i = i + 1;
    }
    proof {
        assert(word@.skip(n as int) =~= Seq::<char>::empty());
        assert(spec_pad(result@) == spec_soundex(word@));
    }
    while chars_sat < 4
        invariant
            chars_sat == clamp_to(result@.len() as int, 4),
            spec_pad(result@) == spec_soundex(word@),
        decreases 4 - chars_sat,
    {
        proof {
            lemma_pad_push_zero(result@);
        }
        push_char(&mut result, '0');
        chars_sat = chars_sat + 1;
    }
    proof {
        assert(result@.len() >= 4);
    }
    result
}

} // verus!
