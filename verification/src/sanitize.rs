//! Making text from outside safe to show: control characters, which a terminal
//! would obey, are replaced by a visible mark.

use vstd::prelude::*;

use crate::text;

verus! {

/// Unicode's control characters.
pub open spec fn is_control(c: char) -> bool {
    c as int <= 0x1f || 0x7f <= c as int <= 0x9f
}

fn control(c: char) -> (r: bool)
    ensures
        r == is_control(c),
{
    let n: u32 = c as u32;
    n <= 0x1f || (0x7f <= n && n <= 0x9f)
}

/// What is shown in place of a control character.
pub const PLACEHOLDER: char = '\u{fffd}';

pub open spec fn visible_char(c: char, keep_newlines: bool) -> char {
    if is_control(c) && !(keep_newlines && c == '\n') {
        PLACEHOLDER
    } else {
        c
    }
}

/// `s` with every control character replaced; line breaks stay where
/// `keep_newlines` says so.
pub open spec fn visible(s: Seq<char>, keep_newlines: bool) -> Seq<char> {
    Seq::new(s.len(), |i: int| visible_char(s[i], keep_newlines))
}

/// `s` on one line.
pub open spec fn line(s: Seq<char>) -> Seq<char> {
    visible(s, false)
}

fn replace_controls(s: &str, keep_newlines: bool) -> (r: String)
    ensures
        r@ == visible(s@, keep_newlines),
{
    let chars = text::chars_of(s);
    let mut out = String::new();
    for i in 0..chars.len()
        invariant
            chars@ == s@,
            out@ =~= visible(s@.take(i as int), keep_newlines),
    {
        let c = chars[i];
        if control(c) && !(keep_newlines && c == '\n') {
            out.push(PLACEHOLDER);
        } else {
            out.push(c);
        }
    }
    assert(s@.take(s@.len() as int) =~= s@);
    out
}

/// Text for a single line: no control character is left.
pub fn terminal_line(s: &str) -> (r: String)
    ensures
        r@ == line(s@),
{
    replace_controls(s, false)
}

/// Text for several lines: line breaks are kept, no other control character is.
pub fn terminal_text(s: &str) -> (r: String)
    ensures
        r@ == visible(s@, true),
{
    replace_controls(s, true)
}

/// Nothing that is shown on a line can steer the terminal.
pub proof fn law_lines_hold_no_controls(s: Seq<char>)
    ensures
        line(s).len() == s.len(),
        forall|i: int| 0 <= i < s.len() ==> !is_control(#[trigger] line(s)[i]),
{
}

/// In a text of several lines only the line breaks are control characters.
pub proof fn law_texts_hold_only_newlines(s: Seq<char>)
    ensures
        forall|i: int|
            0 <= i < s.len() && is_control(#[trigger] visible(s, true)[i]) ==> visible(s, true)[i]
                == '\n',
{
}

/// Harmless text is shown as it is, so making a line safe twice is the same as
/// doing it once.
pub proof fn law_safe_text_is_unchanged(s: Seq<char>)
    ensures
        (forall|i: int| 0 <= i < s.len() ==> !is_control(#[trigger] s[i])) ==> line(s) == s,
        line(line(s)) == line(s),
{
    if forall|i: int| 0 <= i < s.len() ==> !is_control(#[trigger] s[i]) {
        assert(line(s) =~= s);
    }
    assert(line(line(s)) =~= line(s));
}

/// A control character becomes the replacement mark, and any other character stays;
/// line breaks stay where several lines are shown.
pub proof fn law_only_controls_are_replaced(s: Seq<char>, keep_newlines: bool, i: int)
    requires
        0 <= i < s.len(),
    ensures
        visible(s, keep_newlines).len() == s.len(),
        ({
            let c = s[i];
            let n = c as int;
            let stays = (0x20 <= n < 0x7f) || n > 0x9f || (keep_newlines && c == '\n');
            &&& stays ==> visible(s, keep_newlines)[i] == c
            &&& !stays ==> visible(s, keep_newlines)[i] == '\u{fffd}'
        }),
{
}

} // verus!
