//! Naming resolver: converts schema entity names to SQL table names.
//!
//! Entity names are written in PascalCase; table names are their snake_case
//! plural: `User` becomes `users`, `OrderItem` becomes `order_items`. An
//! underscore is inserted before an uppercase letter only when the previous
//! character is lowercase, so runs of capitals (acronyms) are not split.
//! Case conversion covers the ASCII letters; other characters pass through
//! unchanged.

use vstd::prelude::*;
use vstd::string::StrSliceExecFns;
use vstd::string::StringExecFns;
use crate::strutil::push_char;

verus! {

/// True for the ASCII capital letters.
pub open spec fn is_ascii_uppercase(c: char) -> bool {
    65 <= c as u32 && c as u32 <= 90
}

/// True for the ASCII small letters.
pub open spec fn is_ascii_lowercase(c: char) -> bool {
    97 <= c as u32 && c as u32 <= 122
}

/// Maps an ASCII capital letter to the corresponding small letter and
/// leaves every other character unchanged.
pub open spec fn spec_lower_char(c: char) -> char {
    match c {
        'A' => 'a',
        'B' => 'b',
        'C' => 'c',
        'D' => 'd',
        'E' => 'e',
        'F' => 'f',
        'G' => 'g',
        'H' => 'h',
        'I' => 'i',
        'J' => 'j',
        'K' => 'k',
        'L' => 'l',
        'M' => 'm',
        'N' => 'n',
        'O' => 'o',
        'P' => 'p',
        'Q' => 'q',
        'R' => 'r',
        'S' => 's',
        'T' => 't',
        'U' => 'u',
        'V' => 'v',
        'W' => 'w',
        'X' => 'x',
        'Y' => 'y',
        'Z' => 'z',
        _ => c,
    }
}

pub(crate) fn lower_char(c: char) -> (r: char)
    ensures
        r == spec_lower_char(c),
{
    match c {
        'A' => 'a',
        'B' => 'b',
        'C' => 'c',
        'D' => 'd',
        'E' => 'e',
        'F' => 'f',
        'G' => 'g',
        'H' => 'h',
        'I' => 'i',
        'J' => 'j',
        'K' => 'k',
        'L' => 'l',
        'M' => 'm',
        'N' => 'n',
        'O' => 'o',
        'P' => 'p',
        'Q' => 'q',
        'R' => 'r',
        'S' => 's',
        'T' => 't',
        'U' => 'u',
        'V' => 'v',
        'W' => 'w',
        'X' => 'x',
        'Y' => 'y',
        'Z' => 'z',
        _ => c,
    }
}

fn is_uppercase_char(c: char) -> (r: bool)
    ensures
        r == is_ascii_uppercase(c),
{
    let u = c as u32;
    65 <= u && u <= 90
}

fn is_lowercase_char(c: char) -> (r: bool)
    ensures
        r == is_ascii_lowercase(c),
{
    let u = c as u32;
    97 <= u && u <= 122
}

/// What position `i` of `s` contributes to the snake_case conversion: the
/// lowercased character, preceded by an underscore when it is a capital
/// that follows a small letter.
pub open spec fn spec_snake_piece(s: Seq<char>, i: int) -> Seq<char> {
    if is_ascii_uppercase(s[i]) && i > 0 && is_ascii_lowercase(s[i - 1]) {
        seq!['_', spec_lower_char(s[i])]
    } else {
        seq![spec_lower_char(s[i])]
    }
}

/// The snake_case conversion of the first `n` characters of `s`.
pub open spec fn spec_snake_prefix(s: Seq<char>, n: int) -> Seq<char>
    decreases n,
{
    if n <= 0 {
        Seq::empty()
    } else {
        spec_snake_prefix(s, n - 1) + spec_snake_piece(s, n - 1)
    }
}

/// The snake_case conversion of `s`.
pub open spec fn spec_pascal_to_snake(s: Seq<char>) -> Seq<char> {
    spec_snake_prefix(s, s.len() as int)
}

/// `s` with a plural `s` appended.
pub open spec fn spec_pluralize(s: Seq<char>) -> Seq<char> {
    s + seq!['s']
}

/// The table name for entity name `s`: snake_case, pluralized.
pub open spec fn spec_entity_to_table(s: Seq<char>) -> Seq<char> {
    spec_pluralize(spec_pascal_to_snake(s))
}

/// Convert PascalCase to snake_case: `OrderItem` becomes `order_item`. An
/// underscore is inserted only between a small letter and the capital that
/// follows it, so `ID` stays together.
pub fn pascal_to_snake(name: &str) -> (r: String)
    ensures
        r@ == spec_pascal_to_snake(name@),
{
    let len = name.unicode_len();
    let mut r = String::new();
    let mut i: usize = 0;
    while i < len
        invariant
            i <= len,
            len == name@.len(),
            r@ == spec_snake_prefix(name@, i as int),
        decreases len - i,
    {
        let c = name.get_char(i);
        if is_uppercase_char(c) && i > 0 {
            let prev = name.get_char(i - 1);
            if is_lowercase_char(prev) {
                push_char(&mut r, '_');
            }
        }
        push_char(&mut r, lower_char(c));
        proof {
            assert(r@ =~= spec_snake_prefix(name@, i + 1));
        }
        i = i + 1;
    }
    r
}

/// Append the fixed English plural suffix: `order_item` becomes
/// `order_items`.
pub fn pluralize(name: &str) -> (r: String)
    ensures
        r@ == spec_pluralize(name@),
{
    let mut r = String::from_str(name);
    push_char(&mut r, 's');
    proof {
        assert(r@ =~= spec_pluralize(name@));
    }
    r
}

/// Convert a PascalCase entity name to a snake_case plural table name:
/// `User` becomes `users`, `OrderItem` becomes `order_items`. Total and
/// deterministic: the result is a function of the name alone.
pub fn entity_to_table(entity_name: &str) -> (r: String)
    ensures
        r@ == spec_entity_to_table(entity_name@),
{
    let snake = pascal_to_snake(entity_name);
    pluralize(snake.as_str())
}

} // verus!
