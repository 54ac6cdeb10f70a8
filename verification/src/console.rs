//! What the operator's console needs of the library: the meaning of a
//! menu choice and the lines that list the neighbours.

use vstd::prelude::*;
use crate::addr::{dotted, push_dotted};
use crate::neighbor::{neighbor_views, Neighbor, NeighborView};
use crate::text::{chars_of, decimal, texts};

verus! {

/// What the operator can ask for.
#[derive(Clone, Copy, PartialEq, Eq, Structural, Debug)]
pub enum MenuChoice {
    /// Switch dynamic routing on or off.
    Toggle,
    /// List the neighbours that were published last.
    ListNeighbors,
    /// Leave.
    Exit,
}

/// The choice that the text `text` stands for: `1`, `2` or `3`.
pub open spec fn choice_of(text: Seq<char>) -> Option<MenuChoice> {
    if text == seq!['1'] {
        Some(MenuChoice::Toggle)
    } else if text == seq!['2'] {
        Some(MenuChoice::ListNeighbors)
    } else if text == seq!['3'] {
        Some(MenuChoice::Exit)
    } else {
        None
    }
}

/// The choice that `text` stands for, `None` where it stands for none.
/// The caller strips the white space around the operator's input.
pub fn parse_choice(text: &str) -> (choice: Option<MenuChoice>)
    ensures
        choice == choice_of(text@),
{
    let v = chars_of(text);
    if v.len() != 1 {
        return None;
    }
    let c = v[0];
    let ghost t = text@;
    assert(t =~= seq![c]);
    assert(seq!['1'][0] == '1' && seq!['2'][0] == '2' && seq!['3'][0] == '3');
    if c == '1' {
        Some(MenuChoice::Toggle)
    } else if c == '2' {
        Some(MenuChoice::ListNeighbors)
    } else if c == '3' {
        Some(MenuChoice::Exit)
    } else {
        None
    }
}

/// `n` spaces.
pub open spec fn spaces(n: int) -> Seq<char> {
    Seq::new(
        if n > 0 {
            n as nat
        } else {
            0
        },
        |i: int| ' ',
    )
}

/// The line that lists one neighbour: a bullet, the address filled up
/// with spaces to fifteen characters, and the router identifier.
pub open spec fn neighbor_line(n: NeighborView) -> Seq<char> {
    "  \u{2022} "@ + dotted(n.ip) + spaces(15 - dotted(n.ip).len()) + "  "@ + n.router_id
}

/// The lines that list the neighbours `n`: a heading and one line for
/// each, or a single line that says that there are none.
pub open spec fn neighbor_listing(n: Seq<NeighborView>) -> Seq<Seq<char>> {
    if n.len() == 0 {
        seq!["No neighbors discovered yet."@]
    } else {
        seq!["Last known neighbor routers:"@] + n.map_values(|x: NeighborView| neighbor_line(x))
    }
}

/// The number of digits of `n`.
fn decimal_len(n: u32) -> (len: usize)
    ensures
        len == decimal(n as nat).len(),
        1 <= len <= 10,
        n < 1000 ==> len <= 3,
    decreases n,
{
    if n < 10 {
        1
    } else {
        proof {
            lemma_decimal_len(n);
        }
        decimal_len(n / 10) + 1
    }
}

proof fn lemma_decimal_len(n: u32)
    ensures
        1 <= decimal(n as nat).len() <= 10,
        n < 10 ==> decimal(n as nat).len() == 1,
        n < 100 ==> decimal(n as nat).len() <= 2,
        n < 1000 ==> decimal(n as nat).len() <= 3,
{
    reveal_with_fuel(decimal, 11);
}

/// The line that lists the neighbour `n`.
pub fn line_of(n: &Neighbor) -> (line: String)
    ensures
        line@ == neighbor_line(n@),
{
    let ip = n.ip;
    let mut line = "  \u{2022} ".to_owned();
    push_dotted(&mut line, ip);
    let width: usize = decimal_len(ip / 16777216) + decimal_len((ip / 65536) % 256) + decimal_len(
        (ip / 256) % 256,
    ) + decimal_len(ip % 256) + 3;
    assert(width == dotted(ip).len());
    let ghost head = line@;
    let mut k: usize = width;
    while k < 15
        invariant
            width <= k <= 15,
            line@ == head + spaces(k - width),
        decreases 15 - k,
    {
        proof {
            reveal_strlit(" ");
        }
        line.append(" ");
        assert(line@ =~= head + spaces(k + 1 - width));
        k += 1;
    }
    line.append("  ");
    line.append(n.router_id.as_str());
    assert(line@ =~= neighbor_line(n@));
    line
}

/// The lines that list `neighbors`.
pub fn neighbor_lines(neighbors: &Vec<Neighbor>) -> (lines: Vec<String>)
    ensures
        texts(lines@) == neighbor_listing(neighbor_views(neighbors@)),
{
    let mut lines: Vec<String> = Vec::new();
    if neighbors.len() == 0 {
        lines.push("No neighbors discovered yet.".to_owned());
        assert(texts(lines@) =~= neighbor_listing(neighbor_views(neighbors@)));
        return lines;
    }
    lines.push("Last known neighbor routers:".to_owned());
    let mut i: usize = 0;
    while i < neighbors.len()
        invariant
            i <= neighbors.len(),
            lines@.len() == i + 1,
            lines@[0]@ == "Last known neighbor routers:"@,
            forall|k: int|
                1 <= k <= i ==> (#[trigger] lines@[k])@ == neighbor_line(neighbors@[k - 1]@),
        decreases neighbors.len() - i,
    {
        lines.push(line_of(&neighbors[i]));
        i += 1;
    }
    proof {
        let listing = neighbor_listing(neighbor_views(neighbors@));
        assert(listing.len() == lines@.len());
        assert forall|k: int| 0 <= k < listing.len() implies texts(lines@)[k] == listing[k] by {
            if k > 0 {
                assert(lines@[k]@ == neighbor_line(neighbors@[k - 1]@));
            }
        }
    }
    assert(texts(lines@) =~= neighbor_listing(neighbor_views(neighbors@)));
    lines
}

} // verus!
