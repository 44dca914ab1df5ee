//! What the library takes for granted of `String`, and the conversions between strings and
//! vectors of characters that are built on it.

use vstd::prelude::*;

verus! {

/// `String::push` appends the character to the end of the string.
pub assume_specification[ String::push ](text: &mut String, c: char)
    ensures
        final(text)@ == old(text)@.push(c),
;

/// `String::pop` removes the last character and returns it; on the empty string it returns
/// nothing and leaves the string empty.
pub assume_specification[ String::pop ](text: &mut String) -> (last: Option<char>)
    ensures
        old(text)@.len() == 0 ==> last is None && final(text)@ == old(text)@,
        old(text)@.len() > 0 ==> last == Some(old(text)@.last()) && final(text)@ == old(
            text,
        )@.drop_last(),
;

/// `String::clear` removes every character.
pub assume_specification[ String::clear ](text: &mut String)
    ensures
        final(text)@ == Seq::<char>::empty(),
;

/// Returns the characters of `text`, in order.
pub fn characters(text: &str) -> (data: Vec<char>)
    ensures
        data@ == text@,
{
    let mut data: Vec<char> = Vec::new();
    for c in it: text.chars()
        invariant
            data@ == it.seq().take(it.index()),
            it.seq() == text@,
    {
        data.push(c);
    }
    data
}

/// Returns the string made of the characters of `data` from `from` up to, not including, `to`.
pub fn string_of(data: &Vec<char>, from: usize, to: usize) -> (text: String)
    requires
        from <= to <= data.len(),
    ensures
        text@ == data@.subrange(from as int, to as int),
{
    let mut text = String::new();
    let mut i: usize = from;
    while i < to
        invariant
            from <= i <= to <= data.len(),
            text@ == data@.subrange(from as int, i as int),
        decreases to - i,
    {
        text.push(data[i]);
        i += 1;
        assert(data@.subrange(from as int, i as int) == data@.subrange(from as int, i - 1).push(
            data@[i - 1],
        ));
    }
    text
}

} // verus!
