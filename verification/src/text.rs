//! The tree as text: the leaves with their positions, then every level from
//! the root down, each digest in lowercase hexadecimal.

use vstd::prelude::*;

verus! {

/// The character of a decimal digit.
pub open spec fn digit_char(digit: nat) -> char
    recommends
        digit < 10,
{
    if digit == 0 {
        '0'
    } else if digit == 1 {
        '1'
    } else if digit == 2 {
        '2'
    } else if digit == 3 {
        '3'
    } else if digit == 4 {
        '4'
    } else if digit == 5 {
        '5'
    } else if digit == 6 {
        '6'
    } else if digit == 7 {
        '7'
    } else if digit == 8 {
        '8'
    } else {
        '9'
    }
}

/// The decimal numeral of `n`, without leading zeros.
pub open spec fn decimal_chars(n: nat) -> Seq<char>
    decreases n,
{
    if n < 10 {
        seq![digit_char(n)]
    } else {
        decimal_chars(n / 10).push(digit_char(n % 10))
    }
}

/// The character of a hexadecimal digit, in lower case.
pub open spec fn hex_digit_char(digit: nat) -> char
    recommends
        digit < 16,
{
    if digit < 10 {
        digit_char(digit)
    } else if digit == 10 {
        'a'
    } else if digit == 11 {
        'b'
    } else if digit == 12 {
        'c'
    } else if digit == 13 {
        'd'
    } else if digit == 14 {
        'e'
    } else {
        'f'
    }
}

/// Lowercase hexadecimal: two digits for every byte, the high half first.
pub open spec fn hex_chars(bytes: Seq<u8>) -> Seq<char> {
    Seq::new(
        2 * bytes.len(),
        |i: int|
            if i % 2 == 0 {
                hex_digit_char((bytes[i / 2] / 16) as nat)
            } else {
                hex_digit_char((bytes[i / 2] % 16) as nat)
            },
    )
}

/// The line of one leaf: two spaces, its position, a colon and a space, the
/// leaf itself.
pub open spec fn leaf_line(index: nat, leaf: Seq<char>) -> Seq<char> {
    "  "@ + decimal_chars(index) + ": "@ + leaf + "\n"@
}

/// The lines of the first `count` leaves, in order.
pub open spec fn leaf_lines(leaves: Seq<Seq<char>>, count: nat) -> Seq<char>
    decreases count,
{
    if count == 0 {
        Seq::empty()
    } else {
        leaf_lines(leaves, (count - 1) as nat) + leaf_line(
            (count - 1) as nat,
            leaves[count - 1],
        )
    }
}

/// The line of one digest: two spaces and its 64 hexadecimal digits.
pub open spec fn digest_line(digest: Seq<u8>) -> Seq<char> {
    "  "@ + hex_chars(digest) + "\n"@
}

/// The lines of the first `count` digests of a level, in order.
pub open spec fn digest_lines(level: Seq<Seq<u8>>, count: nat) -> Seq<char>
    decreases count,
{
    if count == 0 {
        Seq::empty()
    } else {
        digest_lines(level, (count - 1) as nat) + digest_line(level[count - 1])
    }
}

/// The heading of a level: `Root Hash:` for a level of a single digest,
/// otherwise `Level` and the level's position in the stored order.
pub open spec fn level_heading(index: nat, level: Seq<Seq<u8>>) -> Seq<char> {
    if level.len() == 1 {
        "Root Hash:\n"@
    } else {
        "Level "@ + decimal_chars(index) + ":\n"@
    }
}

/// One level as text: its heading, then a line for each of its digests.
pub open spec fn level_text(index: nat, level: Seq<Seq<u8>>) -> Seq<char> {
    level_heading(index, level) + digest_lines(level, level.len())
}

/// The first `count` levels as text, in stored order: the root level first.
pub open spec fn levels_text(levels: Seq<Seq<Seq<u8>>>, count: nat) -> Seq<char>
    decreases count,
{
    if count == 0 {
        Seq::empty()
    } else {
        levels_text(levels, (count - 1) as nat) + level_text(
            (count - 1) as nat,
            levels[count - 1],
        )
    }
}

/// A whole tree as text: the heading `Leaves:`, a line for each leaf, then
/// every level.
pub open spec fn tree_text(leaves: Seq<Seq<char>>, levels: Seq<Seq<Seq<u8>>>) -> Seq<char> {
    "Leaves:\n"@ + leaf_lines(leaves, leaves.len()) + levels_text(levels, levels.len())
}

/// Encodes a digest with `hex::encode`. Trusted: the result is the lowercase
/// hexadecimal form of the 32 bytes, two digits a byte, high half first.
#[verifier::external_body]
pub(crate) fn hex_encode(digest: &[u8; 32]) -> (text: String)
    ensures
        text@ == hex_chars(digest@),
{
    hex::encode(digest)
}

/// The text of one decimal digit.
fn digit_str(digit: usize) -> (text: &'static str)
    requires
        digit < 10,
    ensures
        text@ == seq![digit_char(digit as nat)],
{
    proof {
        reveal_strlit("0");
        reveal_strlit("1");
        reveal_strlit("2");
        reveal_strlit("3");
        reveal_strlit("4");
        reveal_strlit("5");
        reveal_strlit("6");
        reveal_strlit("7");
        reveal_strlit("8");
        reveal_strlit("9");
    }
    let text = if digit == 0 {
        "0"
    } else if digit == 1 {
        "1"
    } else if digit == 2 {
        "2"
    } else if digit == 3 {
        "3"
    } else if digit == 4 {
        "4"
    } else if digit == 5 {
        "5"
    } else if digit == 6 {
        "6"
    } else if digit == 7 {
        "7"
    } else if digit == 8 {
        "8"
    } else {
        "9"
    };
    assert(text@ =~= seq![digit_char(digit as nat)]);
    text
}

/// Writes `n` as a decimal numeral.
pub fn decimal(n: usize) -> (text: String)
    ensures
        text@ == decimal_chars(n as nat),
    decreases n,
{
    if n < 10 {
        String::from_str(digit_str(n))
    } else {
        let mut text = decimal(n / 10);
        text.append(digit_str(n % 10));
        assert(text@ =~= decimal_chars(n as nat));
        text
    }
}

/// Writes the line of every leaf, in order.
pub fn render_leaves(leaves: &Vec<String>) -> (text: String)
    ensures
        text@ == leaf_lines(leaves.deep_view(), leaves.len() as nat),
{
    let ghost all = leaves.deep_view();
    let mut text = String::new();
    let mut i: usize = 0;
    while i < leaves.len()
        invariant
            i <= leaves.len(),
            all == leaves.deep_view(),
            text@ == leaf_lines(all, i as nat),
        decreases leaves.len() - i,
    {
        let ghost before = text@;
        let number = decimal(i);
        text.append("  ");
        text.append(number.as_str());
        text.append(": ");
        text.append(leaves[i].as_str());
        text.append("\n");
        assert(text@ =~= before + leaf_line(i as nat, all[i as int]));
        i += 1;
    }
    text
}

/// Writes one level: its heading, then the line of every digest, in order.
pub fn render_level(index: usize, level: &Vec<[u8; 32]>) -> (text: String)
    ensures
        text@ == level_text(index as nat, level.deep_view()),
{
    let ghost digests = level.deep_view();
    let mut text = String::new();
    if level.len() == 1 {
        text.append("Root Hash:\n");
    } else {
        let number = decimal(index);
        text.append("Level ");
        text.append(number.as_str());
        text.append(":\n");
    }
    assert(text@ =~= level_heading(index as nat, digests));
    let mut i: usize = 0;
    while i < level.len()
        invariant
            i <= level.len(),
            digests == level.deep_view(),
            text@ == level_heading(index as nat, digests) + digest_lines(digests, i as nat),
        decreases level.len() - i,
    {
        let ghost before = text@;
        let digits = hex_encode(&level[i]);
        assert(level[i as int]@ =~= digests[i as int]);
        text.append("  ");
        text.append(digits.as_str());
        text.append("\n");
        assert(text@ =~= before + digest_line(digests[i as int]));
        i += 1;
    }
    text
}

/// Writes every level in stored order, the root level first.
pub fn render_levels(levels: &Vec<Vec<[u8; 32]>>) -> (text: String)
    ensures
        text@ == levels_text(levels.deep_view(), levels.len() as nat),
{
    let ghost all = levels.deep_view();
    let mut text = String::new();
    let mut i: usize = 0;
    while i < levels.len()
        invariant
            i <= levels.len(),
            all == levels.deep_view(),
            text@ == levels_text(all, i as nat),
        decreases levels.len() - i,
    {
        let part = render_level(i, &levels[i]);
        text.append(part.as_str());
        i += 1;
    }
    text
}

/// Writes a tree: the heading `Leaves:`, the leaves, then the levels.
pub fn render_tree(leaves: &Vec<String>, levels: &Vec<Vec<[u8; 32]>>) -> (text: String)
    ensures
        text@ == tree_text(leaves.deep_view(), levels.deep_view()),
{
    let mut text = String::new();
    let leaf_part = render_leaves(leaves);
    let level_part = render_levels(levels);
    text.append("Leaves:\n");
    text.append(leaf_part.as_str());
    text.append(level_part.as_str());
    assert(text@ =~= tree_text(leaves.deep_view(), levels.deep_view()));
    text
}

} // verus!
