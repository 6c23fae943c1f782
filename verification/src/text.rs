//! Building blocks for lines of text: runs of one character and aligned cells.

use vstd::prelude::*;

verus! {

/// `String::push` appends the given character to the end of the string and
/// leaves what was there before in place.
pub assume_specification[ String::push ](s: &mut String, ch: char)
    ensures
        final(s)@ == old(s)@.push(ch),
;

/// The character `c` written `n` times.
pub open spec fn repeated(c: char, n: nat) -> Seq<char> {
    Seq::new(n, |i: int| c)
}

/// `text`, followed by as many spaces as it takes to fill `width` characters.
/// A text that is already that long is left as it is.
pub open spec fn left_aligned(text: Seq<char>, width: nat) -> Seq<char> {
    if text.len() >= width {
        text
    } else {
        text + repeated(' ', (width - text.len()) as nat)
    }
}

/// `text` in the middle of `width` characters. Where the spaces cannot be
/// shared out evenly, the odd one goes to the right. A text that is already
/// that long is left as it is.
pub open spec fn centered(text: Seq<char>, width: nat) -> Seq<char> {
    if text.len() >= width {
        text
    } else {
        let room = (width - text.len()) as nat;
        repeated(' ', room / 2) + text + repeated(' ', (room - room / 2) as nat)
    }
}

/// Whether two texts are the same, character by character.
pub fn same_text(a: &str, b: &str) -> (same: bool)
    ensures
        same == (a@ == b@),
{
    let n = a.unicode_len();
    if n != b.unicode_len() {
        return false;
    }
    let mut i: usize = 0;
    while i < n
        invariant
            i <= n,
            n == a@.len(),
            n == b@.len(),
            forall|j: int| 0 <= j < i ==> a@[j] == b@[j],
        decreases n - i,
    {
        if a.get_char(i) != b.get_char(i) {
            return false;
        }
        i += 1;
    }
    assert(a@ =~= b@);
    true
}

/// Appends `n` copies of `c` to `out`.
pub fn push_repeated(out: &mut String, c: char, n: usize)
    ensures
        final(out)@ == old(out)@ + repeated(c, n as nat),
{
    let mut i: usize = 0;
    while i < n
        invariant
            i <= n,
            out@ == old(out)@ + repeated(c, i as nat),
        decreases n - i,
    {
        out.push(c);
        i += 1;
    }
}

/// Appends `text` to `out`, left-aligned in a cell of `width` characters.
pub fn push_left_aligned(out: &mut String, text: &str, width: usize)
    ensures
        final(out)@ == old(out)@ + left_aligned(text@, width as nat),
{
    let used = text.unicode_len();
    out.append(text);
    if used < width {
        push_repeated(out, ' ', width - used);
    }
}

/// Appends `text` to `out`, centered in a cell of `width` characters.
pub fn push_centered(out: &mut String, text: &str, width: usize)
    ensures
        final(out)@ == old(out)@ + centered(text@, width as nat),
{
    let used = text.unicode_len();
    if used < width {
        let room = width - used;
        push_repeated(out, ' ', room / 2);
        out.append(text);
        push_repeated(out, ' ', room - room / 2);
    } else {
        out.append(text);
    }
}

} // verus!
