//! Finding the host's nameserver in the text of a resolver configuration.

use vstd::prelude::*;

verus! {

/// Whether a character is white space.
pub open spec fn is_white(c: char) -> bool {
    ||| '\u{9}' <= c <= '\u{D}'
    ||| c == ' '
    ||| c == '\u{85}'
    ||| c == '\u{A0}'
    ||| c == '\u{1680}'
    ||| '\u{2000}' <= c <= '\u{200A}'
    ||| c == '\u{2028}'
    ||| c == '\u{2029}'
    ||| c == '\u{202F}'
    ||| c == '\u{205F}'
    ||| c == '\u{3000}'
}

fn check_white(c: char) -> (held: bool)
    ensures
        held == is_white(c),
{
    ('\u{9}' <= c && c <= '\u{D}') || c == ' ' || c == '\u{85}' || c == '\u{A0}' || c == '\u{1680}' || ('\u{2000}' <= c
        && c <= '\u{200A}') || c == '\u{2028}' || c == '\u{2029}' || c == '\u{202F}' || c == '\u{205F}' || c == '\u{3000}'
}

/// Where the line that holds `from` ends.
pub open spec fn line_end(text: Seq<char>, from: int) -> int
    decreases text.len() - from,
{
    if from < 0 || from >= text.len() || text[from] == '\n' {
        from
    } else {
        line_end(text, from + 1)
    }
}

/// Where the white space at `from` ends.
pub open spec fn white_end(text: Seq<char>, from: int, end: int) -> int
    decreases end - from,
{
    if from >= end || !is_white(text[from]) {
        from
    } else {
        white_end(text, from + 1, end)
    }
}

/// Where the field at `from` ends.
pub open spec fn field_end(text: Seq<char>, from: int, end: int) -> int
    decreases end - from,
{
    if from >= end || is_white(text[from]) {
        from
    } else {
        field_end(text, from + 1, end)
    }
}

/// The word in front of a nameserver's address.
pub open spec fn keyword() -> Seq<char> {
    seq!['n', 'a', 'm', 'e', 's', 'e', 'r', 'v', 'e', 'r']
}

/// The second field of the first line from `from` on whose first field is the keyword.
pub open spec fn nameserver_from(text: Seq<char>, from: int) -> Option<Seq<char>>
    decreases text.len() - from,
{
    if from < 0 || from >= text.len() {
        None
    } else {
        let end = line_end(text, from);
        let start = white_end(text, from, end);
        let stop = field_end(text, start, end);
        if text.subrange(start, stop) == keyword() {
            let address = white_end(text, stop, end);
            let address_end = field_end(text, address, end);
            if address == address_end {
                None
            } else {
                Some(text.subrange(address, address_end))
            }
        } else if from <= end < text.len() {
            nameserver_from(text, end + 1)
        } else {
            None
        }
    }
}

fn find_line_end(text: &[char], from: usize) -> (end: usize)
    requires
        from <= text@.len(),
    ensures
        end == line_end(text@, from as int),
        from <= end <= text@.len(),
{
    let mut index: usize = from;
    while index < text.len() && text[index] != '\n'
        invariant
            from <= index <= text@.len(),
            line_end(text@, index as int) == line_end(text@, from as int),
        decreases text@.len() - index,
    {
        index = index + 1;
    }
    index
}

fn skip_white(text: &[char], from: usize, end: usize) -> (at: usize)
    requires
        from <= end <= text@.len(),
    ensures
        at == white_end(text@, from as int, end as int),
        from <= at <= end,
{
    let mut index: usize = from;
    while index < end
        invariant
            from <= index <= end <= text@.len(),
            white_end(text@, index as int, end as int) == white_end(text@, from as int, end as int),
        decreases end - index,
    {
        if !check_white(text[index]) {
            return index;
        }
        index = index + 1;
    }
    index
}

fn skip_field(text: &[char], from: usize, end: usize) -> (at: usize)
    requires
        from <= end <= text@.len(),
    ensures
        at == field_end(text@, from as int, end as int),
        from <= at <= end,
{
    let mut index: usize = from;
    while index < end
        invariant
            from <= index <= end <= text@.len(),
            field_end(text@, index as int, end as int) == field_end(text@, from as int, end as int),
        decreases end - index,
    {
        if check_white(text[index]) {
            return index;
        }
        index = index + 1;
    }
    index
}

/// Whether a stretch of the text is the keyword.
fn is_keyword(text: &[char], start: usize, stop: usize) -> (held: bool)
    requires
        start <= stop <= text@.len(),
    ensures
        held == (text@.subrange(start as int, stop as int) == keyword()),
{
    let ghost word = text@.subrange(start as int, stop as int);
    assert(word == keyword() ==> word.len() == 10);
    if stop - start != 10 {
        return false;
    }
    let held = text[start] == 'n' && text[start + 1] == 'a' && text[start + 2] == 'm' && text[start + 3] == 'e'
        && text[start + 4] == 's' && text[start + 5] == 'e' && text[start + 6] == 'r' && text[start + 7] == 'v'
        && text[start + 8] == 'e' && text[start + 9] == 'r';
    assert(held ==> word =~= keyword());
    assert(word == keyword() ==> held) by {
        if word == keyword() {
            assert(word[0] == 'n' && word[1] == 'a' && word[2] == 'm' && word[3] == 'e' && word[4] == 's');
            assert(word[5] == 'e' && word[6] == 'r' && word[7] == 'v' && word[8] == 'e' && word[9] == 'r');
        }
    }
    held
}

/// The address of the first nameserver that the text lists.
pub fn first_nameserver(text: &[char]) -> (address: Option<Vec<char>>)
    ensures
        match nameserver_from(text@, 0) {
            None => address is None,
            Some(field) => address matches Some(found) && found@ == field,
        },
{
    let mut from: usize = 0;
    while from < text.len()
        invariant
            from <= text@.len() + 1,
            nameserver_from(text@, 0) == nameserver_from(text@, from as int),
        decreases text@.len() + 1 - from,
    {
        let end = find_line_end(text, from);
        let start = skip_white(text, from, end);
        let stop = skip_field(text, start, end);
        if is_keyword(text, start, stop) {
            let address = skip_white(text, stop, end);
            let address_end = skip_field(text, address, end);
            if address == address_end {
                return None;
            }
            let mut found: Vec<char> = Vec::new();
            let mut index: usize = address;
            while index < address_end
                invariant
                    address <= index <= address_end <= text@.len(),
                    found@ == text@.subrange(address as int, index as int),
                decreases address_end - index,
            {
                found.push(text[index]);
                index = index + 1;
                assert(found@ =~= text@.subrange(address as int, index as int));
            }
            return Some(found);
        }
        if end == text.len() {
            return None;
        }
        from = end + 1;
    }
    None
}

} // verus!
