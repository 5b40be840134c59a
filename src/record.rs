//! One task line: a checkbox marker, a space, and the description.

use vstd::prelude::*;

verus! {

/// The four characters that open a line: `[ ] ` or `[*] `.
pub open spec fn marker(completed: bool) -> Seq<char> {
    if completed {
        seq!['[', '*', ']', ' ']
    } else {
        seq!['[', ' ', ']', ' ']
    }
}

/// The line that stores a task.
pub open spec fn encode(completed: bool, description: Seq<char>) -> Seq<char> {
    marker(completed) + description
}

/// A line opens with one of the two markers.
pub open spec fn well_formed_line(l: Seq<char>) -> bool {
    &&& l.len() >= 4
    &&& l[0] == '['
    &&& (l[1] == ' ' || l[1] == '*')
    &&& l[2] == ']'
    &&& l[3] == ' '
}

/// The completion flag that a line stores.
pub open spec fn is_done(l: Seq<char>) -> bool {
    l[1] == '*'
}

/// The description that a line stores: all that follows the marker.
pub open spec fn description(l: Seq<char>) -> Seq<char> {
    l.subrange(4, l.len() as int)
}

/// The escape sequence that turns strikethrough on.
pub open spec fn strike_on() -> Seq<char> {
    seq!['\x1b', '[', '9', 'm']
}

/// The escape sequence that resets all styling.
pub open spec fn style_reset() -> Seq<char> {
    seq!['\x1b', '[', '0', 'm']
}

/// How a description is shown: struck through once completed.
pub open spec fn shown(completed: bool, description: Seq<char>) -> Seq<char> {
    if completed {
        strike_on() + description + style_reset()
    } else {
        description
    }
}

pub proof fn lemma_encode_decode(completed: bool, d: Seq<char>)
    ensures
        well_formed_line(encode(completed, d)),
        is_done(encode(completed, d)) == completed,
        description(encode(completed, d)) == d,
{
    assert(description(encode(completed, d)) =~= d);
}

/// Relies on vibrance::style::strikethrough followed by ColouredString::format,
/// which write the text between the strikethrough code and the reset code.
#[verifier::external_body]
fn strikethrough(s: &str) -> (r: String)
    ensures
        r@ == strike_on() + s@ + style_reset(),
{
    vibrance::style::strikethrough(s).format()
}

/// The line that stores a task with this flag and description.
pub fn encode_line(completed: bool, description: &str) -> (r: String)
    ensures
        r@ == encode(completed, description@),
{
    let mut r = if completed {
        proof {
            reveal_strlit("[*] ");
        }
        String::from_str("[*] ")
    } else {
        proof {
            reveal_strlit("[ ] ");
        }
        String::from_str("[ ] ")
    };
    assert(r@ =~= marker(completed));
    r.append(description);
    r
}

/// Whether a line opens with one of the two markers.
pub fn is_well_formed_line(line: &str) -> (r: bool)
    ensures
        r == well_formed_line(line@),
{
    if line.unicode_len() < 4 {
        return false;
    }
    let c1 = line.get_char(1);
    line.get_char(0) == '[' && (c1 == ' ' || c1 == '*') && line.get_char(2) == ']'
        && line.get_char(3) == ' '
}

/// Splits a well-formed line into its completion flag and description.
pub fn decode_line(line: &str) -> (r: (bool, String))
    requires
        well_formed_line(line@),
    ensures
        r.0 == is_done(line@),
        r.1@ == description(line@),
{
    let n = line.unicode_len();
    let completed = line.get_char(1) == '*';
    let d = line.substring_char(4, n);
    (completed, String::from_str(d))
}

/// The description as the listing shows it.
pub fn render_description(completed: bool, description: &str) -> (r: String)
    ensures
        r@ == shown(completed, description@),
{
    if completed {
        strikethrough(description)
    } else {
        String::from_str(description)
    }
}

} // verus!
