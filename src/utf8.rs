use vstd::prelude::*;

verus! {

/// A continuation byte of a multi-byte character.
pub open spec fn is_cont(b: u8) -> bool {
    0x80 <= b <= 0xbf
}

/// The second byte allowed after the lead byte `b0` of a three-byte
/// character: no overlong forms, no surrogates.
pub open spec fn second_of_three(b0: u8, b1: u8) -> bool {
    if b0 == 0xe0 {
        0xa0 <= b1 <= 0xbf
    } else if b0 == 0xed {
        0x80 <= b1 <= 0x9f
    } else {
        is_cont(b1)
    }
}

/// The second byte allowed after the lead byte `b0` of a four-byte
/// character: no overlong forms, nothing above U+10FFFF.
pub open spec fn second_of_four(b0: u8, b1: u8) -> bool {
    if b0 == 0xf0 {
        0x90 <= b1 <= 0xbf
    } else if b0 == 0xf4 {
        0x80 <= b1 <= 0x8f
    } else {
        is_cont(b1)
    }
}

/// The length of the well-formed UTF-8 character that starts at `i`, or 0
/// when none does.
pub open spec fn char_len(s: Seq<u8>, i: int) -> int {
    let b0 = s[i];
    if b0 <= 0x7f {
        1
    } else if 0xc2 <= b0 <= 0xdf {
        if i + 1 < s.len() && is_cont(s[i + 1]) { 2 } else { 0 }
    } else if 0xe0 <= b0 <= 0xef {
        if i + 2 < s.len() && second_of_three(b0, s[i + 1]) && is_cont(s[i + 2]) { 3 } else { 0 }
    } else if 0xf0 <= b0 <= 0xf4 {
        if i + 3 < s.len() && second_of_four(b0, s[i + 1]) && is_cont(s[i + 2]) && is_cont(s[i + 3]) { 4 } else { 0 }
    } else {
        0
    }
}

/// The bytes from `i` on are a sequence of well-formed characters.
pub open spec fn valid_from(s: Seq<u8>, i: int) -> bool
    decreases s.len() - i,
{
    if i < 0 || i >= s.len() {
        true
    } else {
        char_len(s, i) > 0 && valid_from(s, i + char_len(s, i))
    }
}

/// `s` is well-formed UTF-8.
pub open spec fn valid_utf8(s: Seq<u8>) -> bool {
    valid_from(s, 0)
}

fn char_len_at(s: &Vec<u8>, i: usize) -> (r: usize)
    requires
        i < s@.len(),
    ensures
        r == char_len(s@, i as int),
{
    let b0 = s[i];
    let n = s.len();
    if b0 <= 0x7f {
        1
    } else if 0xc2 <= b0 && b0 <= 0xdf {
        if i + 1 < n && 0x80 <= s[i + 1] && s[i + 1] <= 0xbf { 2 } else { 0 }
    } else if 0xe0 <= b0 && b0 <= 0xef {
        if n - i <= 2 {
            return 0;
        }
        let b1 = s[i + 1];
        let second = if b0 == 0xe0 {
            0xa0 <= b1 && b1 <= 0xbf
        } else if b0 == 0xed {
            0x80 <= b1 && b1 <= 0x9f
        } else {
            0x80 <= b1 && b1 <= 0xbf
        };
        if second && 0x80 <= s[i + 2] && s[i + 2] <= 0xbf { 3 } else { 0 }
    } else if 0xf0 <= b0 && b0 <= 0xf4 {
        if n - i <= 3 {
            return 0;
        }
        let b1 = s[i + 1];
        let second = if b0 == 0xf0 {
            0x90 <= b1 && b1 <= 0xbf
        } else if b0 == 0xf4 {
            0x80 <= b1 && b1 <= 0x8f
        } else {
            0x80 <= b1 && b1 <= 0xbf
        };
        if second && 0x80 <= s[i + 2] && s[i + 2] <= 0xbf && 0x80 <= s[i + 3] && s[i + 3] <= 0xbf { 4 } else { 0 }
    } else {
        0
    }
}

/// Tells whether `s` is well-formed UTF-8.
pub fn is_valid_utf8(s: &Vec<u8>) -> (r: bool)
    ensures
        r == valid_utf8(s@),
{
    let mut i: usize = 0;
    while i < s.len()
        invariant
            i <= s@.len(),
            valid_utf8(s@) == valid_from(s@, i as int),
        decreases s@.len() - i,
    {
        let k = char_len_at(s, i);
        if k == 0 {
            return false;
        }
        i = i + k;
    }
    true
}

} // verus!
