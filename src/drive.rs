//! Drive letters and their slots in the drive table.
use vstd::prelude::*;

verus! {

/// Number of drive letters, `a` to `z`.
pub const DRIVE_COUNT: usize = 26;

/// True for an ASCII letter, upper or lower case.
pub open spec fn is_drive_letter(c: char) -> bool {
    ('a' <= c && c <= 'z') || ('A' <= c && c <= 'Z')
}

/// The slot of a drive letter: its position in the alphabet, case ignored.
pub open spec fn drive_index(c: char) -> int {
    if 'A' <= c && c <= 'Z' {
        c as int - 'A' as int
    } else {
        c as int - 'a' as int
    }
}

/// The lower-case letter of a slot.
pub open spec fn drive_letter(i: int) -> char {
    ('a' as int + i) as char
}

/// The slot of a drive letter; `C` and `c` give the same slot.
pub fn drive_to_index(drive: char) -> (r: usize)
    requires
        is_drive_letter(drive),
    ensures
        r as int == drive_index(drive),
        r < DRIVE_COUNT,
{
    if 'A' <= drive && drive <= 'Z' {
        (drive as u32 - 'A' as u32) as usize
    } else {
        (drive as u32 - 'a' as u32) as usize
    }
}

/// The lower-case letter that names a slot.
pub fn index_to_drive(index: usize) -> (r: char)
    requires
        index < DRIVE_COUNT,
    ensures
        r == drive_letter(index as int),
        'a' <= r && r <= 'z',
        drive_index(r) == index,
{
    (('a' as u8) + (index as u8)) as char
}

/// Upper and lower case of one letter name the same slot.
pub proof fn lemma_drive_case_insensitive(lower: char, upper: char)
    requires
        'a' <= lower && lower <= 'z',
        upper as int == lower as int - 32,
    ensures
        is_drive_letter(upper),
        drive_index(upper) == drive_index(lower),
{
}

} // verus!
