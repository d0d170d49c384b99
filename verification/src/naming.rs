//! Names of the files of a run. A texture is named after its tile's offset
//! from the origin tile, so that the textures can be laid out again from
//! their names alone.

use vstd::prelude::*;

use crate::decimal::{
    decimal, decimal_string, i16_value, is_digit, lemma_decimal_value, parse_i16,
};

verus! {

/// How a coordinate is written in a file name: in decimal, with the letter
/// `n` in place of a minus sign.
pub open spec fn coordinate_name(value: int) -> Seq<char> {
    if value < 0 {
        seq!['n'] + decimal((-value) as nat)
    } else {
        decimal(value as nat)
    }
}

/// The coordinate that a name stands for, if it stands for one: the
/// letter `n`, if present, is read as a minus sign, and no other sign is
/// accepted.
pub open spec fn coordinate_of_name(name: Seq<char>) -> Option<i16> {
    if name.len() > 0 && name[0] == 'n' {
        i16_value(seq!['-'] + name.skip(1))
    } else if name.len() > 0 && (name[0] == '-' || name[0] == '+') {
        None
    } else {
        i16_value(name)
    }
}

/// The name of the texture file of the tile at the given offset, within the
/// folder `folder`.
pub open spec fn texture_path_of(folder: Seq<char>, offset: (i16, i16)) -> Seq<char> {
    folder + "/img_"@ + coordinate_name(offset.0 as int) + "_"@ + coordinate_name(offset.1 as int)
        + ".exr"@
}

/// Writes a coordinate as it stands in a file name: `n` and the absolute
/// value if it is negative, the plain number otherwise.
pub fn get_coordinate_name(value: i16) -> (name: String)
    ensures
        name@ == coordinate_name(value as int),
{
    if value < 0 {
        proof {
            reveal_strlit("n");
        }
        let mut name: String = String::from_str("n");
        let digits: String = decimal_string((-(value as i32)) as u32);
        name.append(digits.as_str());
        assert(name@ =~= coordinate_name(value as int));
        name
    } else {
        decimal_string(value as u32)
    }
}

/// Reads a coordinate back from its name.
pub fn parse_coordinate_name(name: &str) -> (value: Option<i16>)
    ensures
        value == coordinate_of_name(name@),
{
    let n: usize = name.unicode_len();
    if n == 0 {
        return parse_i16(name);
    }
    let first: char = name.get_char(0);
    if first == 'n' {
        proof {
            reveal_strlit("-");
        }
        let mut numeral: String = String::from_str("-");
        numeral.append(name.substring_char(1, n));
        proof {
            assert(name@.subrange(1, n as int) =~= name@.skip(1));
            assert(numeral@ =~= seq!['-'] + name@.skip(1));
        }
        parse_i16(numeral.as_str())
    } else if first == '-' || first == '+' {
        None
    } else {
        parse_i16(name)
    }
}

/// The path of the texture file of the tile at the given offset from the
/// origin tile.
pub fn texture_path(folder: &str, offset: (i16, i16)) -> (path: String)
    ensures
        path@ == texture_path_of(folder@, offset),
{
    let mut path: String = String::from_str(folder);
    path.append("/img_");
    path.append(get_coordinate_name(offset.0).as_str());
    path.append("_");
    path.append(get_coordinate_name(offset.1).as_str());
    path.append(".exr");
    path
}

/// The path of the file that records the parameters of a run.
pub fn metadata_path(folder: &str) -> (path: String)
    ensures
        path@ == folder@ + "/config.json"@,
{
    String::from_str(folder).concat("/config.json")
}

/// A coordinate's name holds the letter `n` at its start or nowhere, digits
/// everywhere else, and at least one digit.
pub proof fn lemma_coordinate_name_shape(value: int)
    ensures
        coordinate_name(value).len() > 0,
        forall|i: int|
            0 <= i < coordinate_name(value).len() ==> is_digit(#[trigger] coordinate_name(value)[i])
                || (i == 0 && value < 0 && coordinate_name(value)[i] == 'n'),
{
    if value < 0 {
        lemma_decimal_value((-value) as nat);
        let digits = decimal((-value) as nat);
        assert forall|i: int| 0 <= i < coordinate_name(value).len() implies is_digit(
            #[trigger] coordinate_name(value)[i],
        ) || (i == 0 && value < 0 && coordinate_name(value)[i] == 'n') by {
            if i > 0 {
                assert(coordinate_name(value)[i] == digits[i - 1]);
            }
        }
    } else {
        lemma_decimal_value(value as nat);
    }
}

/// A coordinate is read back from its name.
pub proof fn lemma_coordinate_name_round_trip(value: i16)
    ensures
        coordinate_of_name(coordinate_name(value as int)) == Some(value),
{
    let name = coordinate_name(value as int);
    if value < 0 {
        let digits = decimal((-value) as nat);
        lemma_decimal_value((-value) as nat);
        assert(name.skip(1) =~= digits);
        let numeral = seq!['-'] + name.skip(1);
        assert(numeral.skip(1) =~= digits);
        assert(numeral[0] == '-');
    } else {
        let digits = decimal(value as nat);
        lemma_decimal_value(value as nat);
        assert(is_digit(digits[0]));
    }
}

/// Different coordinates have different names.
pub proof fn lemma_coordinate_names_differ(a: i16, b: i16)
    requires
        a != b,
    ensures
        coordinate_name(a as int) != coordinate_name(b as int),
{
    lemma_coordinate_name_round_trip(a);
    lemma_coordinate_name_round_trip(b);
}

/// Tiles at different offsets get different texture files: a file's name
/// tells its tile's offset.
pub proof fn lemma_texture_paths_differ(folder: Seq<char>, a: (i16, i16), b: (i16, i16))
    requires
        a != b,
    ensures
        texture_path_of(folder, a) != texture_path_of(folder, b),
{
    reveal_strlit("/img_");
    reveal_strlit("_");
    reveal_strlit(".exr");
    let ax = coordinate_name(a.0 as int);
    let ay = coordinate_name(a.1 as int);
    let bx = coordinate_name(b.0 as int);
    let by = coordinate_name(b.1 as int);
    let pa = texture_path_of(folder, a);
    let pb = texture_path_of(folder, b);
    lemma_coordinate_name_shape(a.0 as int);
    lemma_coordinate_name_shape(a.1 as int);
    lemma_coordinate_name_shape(b.0 as int);
    lemma_coordinate_name_shape(b.1 as int);
    if pa == pb {
        let base: int = folder.len() as int + 5;
        assert(pa.len() == base + ax.len() + 1 + ay.len() + 4);
        assert(pb.len() == base + bx.len() + 1 + by.len() + 4);
        assert forall|i: int| 0 <= i < ax.len() implies pa[base + i] == ax[i] by {}
        assert forall|i: int| 0 <= i < bx.len() implies pb[base + i] == bx[i] by {}
        assert(pa[base + ax.len()] == '_');
        assert(pb[base + bx.len()] == '_');
        if ax.len() < bx.len() {
            assert(pb[base + ax.len()] == bx[ax.len() as int]);
            assert(false);
        }
        if bx.len() < ax.len() {
            assert(pa[base + bx.len()] == ax[bx.len() as int]);
            assert(false);
        }
        assert(ax =~= bx) by {
            assert forall|i: int| 0 <= i < ax.len() implies ax[i] == bx[i] by {
                assert(pa[base + i] == pb[base + i]);
            }
        }
        let second: int = base + ax.len() as int + 1;
        assert forall|i: int| 0 <= i < ay.len() implies pa[second + i] == ay[i] by {}
        assert forall|i: int| 0 <= i < by.len() implies pb[second + i] == by[i] by {}
        assert(ay =~= by) by {
            assert forall|i: int| 0 <= i < ay.len() implies ay[i] == by[i] by {
                assert(pa[second + i] == pb[second + i]);
            }
        }
        if a.0 != b.0 {
            lemma_coordinate_names_differ(a.0, b.0);
        } else {
            lemma_coordinate_names_differ(a.1, b.1);
        }
    }
}

} // verus!
