//! Mapping between the characters used by the bigram examples and the
//! indices of a 27-entry alphabet table: `.` is 0 and `a`..`z` are 1..26.

use vstd::prelude::*;

verus! {

/// Maps `.` to 0 and a lowercase letter to its 1-based alphabet position.
pub fn char_to_index(c: char) -> (i: usize)
    requires
        c == '.' || ('a' <= c && c <= 'z'),
    ensures
        c == '.' ==> i == 0,
        c != '.' ==> i == c as u32 - 'a' as u32 + 1,
        i <= 26,
{
    if c == '.' {
        return 0;
    }
    (c as u32 - 'a' as u32 + 1) as usize
}

/// Maps 0 back to `.` and 1..26 back to the corresponding lowercase letter.
pub fn index_to_char(i: usize) -> (c: char)
    requires
        i <= 26,
    ensures
        i == 0 ==> c == '.',
        i != 0 ==> c as u32 == 'a' as u32 + i - 1,
{
    if i == 0 {
        return '.';
    }
    (('a' as u32 + i as u32 - 1) as u8) as char
}

} // verus!
