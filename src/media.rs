//! Which files an analysis looks at: images and videos, told by the extension of
//! the file name, with ASCII letters taken without regard to case.

use vstd::prelude::*;

verus! {

/// The kinds of file that an analysis compares.
#[derive(Clone, Copy, Debug, PartialEq, Eq, Structural)]
pub enum MediaKind {
    Image,
    Video,
}

pub open spec fn lower_byte(b: u8) -> u8 {
    if ('A' as u8) <= b <= ('Z' as u8) {
        (b + 32) as u8
    } else {
        b
    }
}

/// `s` is the three letters `x`, `y`, `z`, whatever their case.
pub open spec fn spells3(s: Seq<u8>, x: u8, y: u8, z: u8) -> bool {
    s.len() == 3 && lower_byte(s[0]) == x && lower_byte(s[1]) == y && lower_byte(s[2]) == z
}

/// `s` is the four letters `w`, `x`, `y`, `z`, whatever their case.
pub open spec fn spells4(s: Seq<u8>, w: u8, x: u8, y: u8, z: u8) -> bool {
    s.len() == 4 && lower_byte(s[0]) == w && lower_byte(s[1]) == x && lower_byte(s[2]) == y
        && lower_byte(s[3]) == z
}

/// The kind of a file whose name ends in the extension `ext` (without the dot):
/// jpg, jpeg, png, gif, bmp, webp, tif, tiff and heic are images; mp4, mov, avi,
/// mkv and webm are videos; anything else is neither.
pub open spec fn kind_of_extension(ext: Seq<u8>) -> Option<MediaKind> {
    if spells3(ext, ('j' as u8), ('p' as u8), ('g' as u8)) || spells4(ext, ('j' as u8), ('p' as u8), ('e' as u8), ('g' as u8)) || spells3(
        ext,
        ('p' as u8),
        ('n' as u8),
        ('g' as u8),
    ) || spells3(ext, ('g' as u8), ('i' as u8), ('f' as u8)) || spells3(ext, ('b' as u8), ('m' as u8), ('p' as u8)) || spells4(
        ext,
        ('w' as u8),
        ('e' as u8),
        ('b' as u8),
        ('p' as u8),
    ) || spells3(ext, ('t' as u8), ('i' as u8), ('f' as u8)) || spells4(ext, ('t' as u8), ('i' as u8), ('f' as u8), ('f' as u8)) || spells4(
        ext,
        ('h' as u8),
        ('e' as u8),
        ('i' as u8),
        ('c' as u8),
    ) {
        Some(MediaKind::Image)
    } else if spells3(ext, ('m' as u8), ('p' as u8), ('4' as u8)) || spells3(ext, ('m' as u8), ('o' as u8), ('v' as u8)) || spells3(
        ext,
        ('a' as u8),
        ('v' as u8),
        ('i' as u8),
    ) || spells3(ext, ('m' as u8), ('k' as u8), ('v' as u8)) || spells4(ext, ('w' as u8), ('e' as u8), ('b' as u8), ('m' as u8)) {
        Some(MediaKind::Video)
    } else {
        None
    }
}

fn lower(b: u8) -> (r: u8)
    ensures
        r == lower_byte(b),
{
    if ('A' as u8) <= b && b <= ('Z' as u8) {
        b + 32
    } else {
        b
    }
}

/// The kind of a file with extension `ext`, or `None` where an analysis skips it.
pub fn media_kind(ext: &Vec<u8>) -> (r: Option<MediaKind>)
    ensures
        r == kind_of_extension(ext@),
{
    let n = ext.len();
    if n == 3 {
        let (a, b, c) = (lower(ext[0]), lower(ext[1]), lower(ext[2]));
        if (a == ('j' as u8) && b == ('p' as u8) && c == ('g' as u8)) || (a == ('p' as u8) && b == ('n' as u8) && c == ('g' as u8)) || (a
            == ('g' as u8) && b == ('i' as u8) && c == ('f' as u8)) || (a == ('b' as u8) && b == ('m' as u8) && c == ('p' as u8)) || (a
            == ('t' as u8) && b == ('i' as u8) && c == ('f' as u8)) {
            Some(MediaKind::Image)
        } else if (a == ('m' as u8) && b == ('p' as u8) && c == ('4' as u8)) || (a == ('m' as u8) && b == ('o' as u8) && c == ('v' as u8))
            || (a == ('a' as u8) && b == ('v' as u8) && c == ('i' as u8)) || (a == ('m' as u8) && b == ('k' as u8) && c == ('v' as u8)) {
            Some(MediaKind::Video)
        } else {
            None
        }
    } else if n == 4 {
        let (a, b, c, d) = (lower(ext[0]), lower(ext[1]), lower(ext[2]), lower(ext[3]));
        if (a == ('j' as u8) && b == ('p' as u8) && c == ('e' as u8) && d == ('g' as u8)) || (a == ('w' as u8) && b == ('e' as u8) && c
            == ('b' as u8) && d == ('p' as u8)) || (a == ('t' as u8) && b == ('i' as u8) && c == ('f' as u8) && d == ('f' as u8)) || (a
            == ('h' as u8) && b == ('e' as u8) && c == ('i' as u8) && d == ('c' as u8)) {
            Some(MediaKind::Image)
        } else if a == ('w' as u8) && b == ('e' as u8) && c == ('b' as u8) && d == ('m' as u8) {
            Some(MediaKind::Video)
        } else {
            None
        }
    } else {
        None
    }
}

} // verus!
