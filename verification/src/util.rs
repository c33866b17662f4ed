use vstd::prelude::*;

verus! {

/// The square reached from `square` by `dx` files and `dy` ranks, or nothing
/// when that leaves the board.
pub open spec fn spec_try_offset(square: u8, dx: i8, dy: i8) -> Option<u8> {
    let nf = (square % 8) + dx;
    let nr = (square / 8) + dy;
    if nf < 0 || nf > 7 || nr < 0 || nr > 7 {
        None
    } else {
        Some((nr * 8 + nf) as u8)
    }
}

pub fn try_square_offset(square: u8, dx: i8, dy: i8) -> (r: Option<u8>)
    requires
        square < 64,
        -8 <= dx <= 8,
        -8 <= dy <= 8,
    ensures
        r == spec_try_offset(square, dx, dy),
        (r matches Some(s) ==> s < 64),
{
    let file: u8 = square % 8;
    let rank: u8 = square / 8;
    let new_file: i8 = file as i8 + dx;
    let new_rank: i8 = rank as i8 + dy;
    if new_file < 0 || new_file > 7 || new_rank < 0 || new_rank > 7 {
        None
    } else {
        Some((new_rank * 8 + new_file) as u8)
    }
}

/// Relies on String's FromIterator: collecting characters yields the string
/// of exactly those characters in order.
#[verifier::external_body]
fn chars_to_string(v: Vec<char>) -> (r: String)
    ensures
        r@ == v@,
{
    v.into_iter().collect()
}

/// Relies on str::chars: iterating a string's characters and collecting them
/// yields exactly the characters of the string in order.
#[verifier::external_body]
fn str_to_chars(s: &str) -> (r: Vec<char>)
    ensures
        r@ == s@,
{
    s.chars().collect()
}

/// The upper-case name of a square: file letter then rank digit.
pub open spec fn spec_square_name(square: u8) -> Seq<char> {
    seq![((square % 8 + 65) as u8) as char, ((square / 8 + 49) as u8) as char]
}

pub fn string_from_square(square: u8) -> (r: String)
    requires
        square < 64,
    ensures
        r@ == spec_square_name(square),
{
    let file: u8 = square % 8 + 97;
    let rank: u8 = square / 8 + 49;
    // The file letter is printed in upper case.
    let mut chars: Vec<char> = Vec::new();
    chars.push((file - 32) as char);
    chars.push(rank as char);
    proof {
        assert(chars@ =~= spec_square_name(square));
    }
    chars_to_string(chars)
}

/// The lower-case name of a square: file letter then rank digit.
pub open spec fn spec_square_name_lower(square: u8) -> Seq<char> {
    seq![((square % 8 + 97) as u8) as char, ((square / 8 + 49) as u8) as char]
}

pub fn get_printable_square_from_index(index: &usize) -> (r: String)
    requires
        *index < 64,
    ensures
        r@ == spec_square_name_lower(*index as u8),
{
    let file: usize = index % 8;
    let rank: usize = index / 8;
    let file_char = (file as u8 + 97) as char;
    let rank_char = (rank as u8 + 49) as char;
    let mut chars: Vec<char> = Vec::new();
    chars.push(file_char);
    chars.push(rank_char);
    proof {
        assert(chars@ =~= spec_square_name_lower(*index as u8));
    }
    chars_to_string(chars)
}

/// The file index a letter names, or 8 when it names none.
pub open spec fn spec_file_index(c: char) -> u8 {
    if c == 'a' {
        0
    } else if c == 'b' {
        1
    } else if c == 'c' {
        2
    } else if c == 'd' {
        3
    } else if c == 'e' {
        4
    } else if c == 'f' {
        5
    } else if c == 'g' {
        6
    } else if c == 'h' {
        7
    } else {
        8
    }
}

/// The rank index a digit names, or 8 when it names none.
pub open spec fn spec_rank_index(c: char) -> u8 {
    if c == '1' {
        0
    } else if c == '2' {
        1
    } else if c == '3' {
        2
    } else if c == '4' {
        3
    } else if c == '5' {
        4
    } else if c == '6' {
        5
    } else if c == '7' {
        6
    } else if c == '8' {
        7
    } else {
        8
    }
}

/// Whether the input names the request for the legal-move list.
pub open spec fn spec_is_legal_word(s: Seq<char>) -> bool {
    s.len() == 5 && s[0] == 'l' && s[1] == 'e' && s[2] == 'g' && s[3] == 'a' && s[4] == 'l'
}

/// Whether the input parses: empty and the legal-move word are commands, and
/// anything else must be five characters naming two valid squares.
pub open spec fn spec_input_ok(s: Seq<char>) -> bool {
    ||| s.len() == 0
    ||| spec_is_legal_word(s)
    ||| (s.len() == 5 && spec_file_index(s[0]) < 8 && spec_rank_index(s[1]) < 8
        && spec_file_index(s[3]) < 8 && spec_rank_index(s[4]) < 8)
}

/// The two square indices an accepted input names; the commands map to the
/// sentinel pairs 97,97 and 98,98.
pub open spec fn spec_input_squares(s: Seq<char>) -> (u8, u8) {
    if s.len() == 0 {
        (97, 97)
    } else if spec_is_legal_word(s) {
        (98, 98)
    } else {
        (
            (spec_file_index(s[0]) + spec_rank_index(s[1]) * 8) as u8,
            (spec_file_index(s[3]) + spec_rank_index(s[4]) * 8) as u8,
        )
    }
}

fn file_index_of(c: char) -> (r: u8)
    ensures
        r == spec_file_index(c),
{
    if c == 'a' {
        0
    } else if c == 'b' {
        1
    } else if c == 'c' {
        2
    } else if c == 'd' {
        3
    } else if c == 'e' {
        4
    } else if c == 'f' {
        5
    } else if c == 'g' {
        6
    } else if c == 'h' {
        7
    } else {
        8
    }
}

fn rank_index_of(c: char) -> (r: u8)
    ensures
        r == spec_rank_index(c),
{
    if c == '1' {
        0
    } else if c == '2' {
        1
    } else if c == '3' {
        2
    } else if c == '4' {
        3
    } else if c == '5' {
        4
    } else if c == '6' {
        5
    } else if c == '7' {
        6
    } else if c == '8' {
        7
    } else {
        8
    }
}

/// Turns a typed move such as "a2 a4" into the two square indices, accepting
/// the empty input and the legal-move word as commands; everything else is
/// rejected with a message.
pub fn user_input_to_square_index(input: &str) -> (r: Result<[u8; 2], String>)
    ensures
        (r is Ok) == spec_input_ok(input@),
        (r matches Ok(a) ==> (a@[0], a@[1]) == spec_input_squares(input@)),
{
    let chars = str_to_chars(input);
    if chars.len() == 0 {
        let out: [u8; 2] = [97, 97];
        return Ok(out);
    }
    if chars.len() == 5 && chars[0] == 'l' && chars[1] == 'e' && chars[2]
        == 'g' && chars[3] == 'a' && chars[4] == 'l' {
        let out: [u8; 2] = [98, 98];
        return Ok(out);
    }
    if chars.len() != 5 {
        return Err("Invalid input length".to_owned());
    }
    let start_file_index = file_index_of(chars[0]);
    if start_file_index == 8 {
        return Err("Invalid file in first square".to_owned());
    }
    let rank_index = rank_index_of(chars[1]);
    if rank_index == 8 {
        return Err("Invalid rank in first square".to_owned());
    }
    let target_file_index = file_index_of(chars[3]);
    if target_file_index == 8 {
        return Err("Invalid file in second square".to_owned());
    }
    let target_rank_index = rank_index_of(chars[4]);
    if target_rank_index == 8 {
        return Err("Invalid rank in second square".to_owned());
    }
    let out: [u8; 2] = [
        start_file_index + rank_index * 8,
        target_file_index + target_rank_index * 8,
    ];
    Ok(out)
}

} // verus!
