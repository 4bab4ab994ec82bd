//! Small pieces of text that the labels are made of.

use vstd::prelude::*;

verus! {

/// The texts that a sequence of strings holds.
pub open spec fn texts(strings: Seq<String>) -> Seq<Seq<char>>
    decreases strings.len(),
{
    if strings.len() == 0 {
        Seq::empty()
    } else {
        texts(strings.drop_last()).push(strings.last()@)
    }
}

/// The texts of a sequence of strings, one by one.
pub proof fn lemma_texts(strings: Seq<String>)
    ensures
        texts(strings).len() == strings.len(),
        forall|i: int| 0 <= i < strings.len() ==> #[trigger] texts(strings)[i] == strings[i]@,
    decreases strings.len(),
{
    if strings.len() > 0 {
        lemma_texts(strings.drop_last());
    }
}

/// The character of a decimal digit.
pub open spec fn digit(d: nat) -> char {
    if d == 0 {
        '0'
    } else if d == 1 {
        '1'
    } else if d == 2 {
        '2'
    } else if d == 3 {
        '3'
    } else if d == 4 {
        '4'
    } else if d == 5 {
        '5'
    } else if d == 6 {
        '6'
    } else if d == 7 {
        '7'
    } else if d == 8 {
        '8'
    } else {
        '9'
    }
}

/// A number in decimal, without leading zeros.
pub open spec fn decimal(n: nat) -> Seq<char>
    decreases n,
{
    if n < 10 {
        seq![digit(n)]
    } else {
        decimal(n / 10).push(digit(n % 10))
    }
}

/// The texts with one space between neighbours.
pub open spec fn spaced(words: Seq<Seq<char>>) -> Seq<char>
    decreases words.len(),
{
    if words.len() == 0 {
        Seq::empty()
    } else if words.len() == 1 {
        words[0]
    } else {
        spaced(words.drop_last()) + seq![' '] + words.last()
    }
}

/// Calls `String::push`. Assumed, not proved: `c` is appended to the text.
#[verifier::external_body]
pub(crate) fn push_char(text: &mut String, c: char)
    ensures
        final(text)@ == old(text)@.push(c),
{
    text.push(c)
}

fn digit_char(d: usize) -> (c: char)
    requires
        d < 10,
    ensures
        c == digit(d as nat),
{
    if d == 0 {
        '0'
    } else if d == 1 {
        '1'
    } else if d == 2 {
        '2'
    } else if d == 3 {
        '3'
    } else if d == 4 {
        '4'
    } else if d == 5 {
        '5'
    } else if d == 6 {
        '6'
    } else if d == 7 {
        '7'
    } else if d == 8 {
        '8'
    } else {
        '9'
    }
}

/// Appends `n` in decimal to `text`.
pub fn push_decimal(text: &mut String, n: usize)
    ensures
        final(text)@ == old(text)@ + decimal(n as nat),
    decreases n,
{
    if n >= 10 {
        push_decimal(text, n / 10);
    }
    push_char(text, digit_char(n % 10));
}

/// Appends the words to `text`, with one space between neighbours.
pub fn push_spaced(text: &mut String, words: &Vec<String>)
    ensures
        final(text)@ == old(text)@ + spaced(texts(words@)),
{
    let mut i: usize = 0;
    while i < words.len()
        invariant
            i <= words.len(),
            text@ == old(text)@ + spaced(texts(words@.take(i as int))),
        decreases words.len() - i,
    {
        let ghost before = texts(words@.take(i as int));
        let ghost after = texts(words@.take(i + 1));
        proof {
            assert(words@.take(i + 1).drop_last() == words@.take(i as int));
            lemma_texts(words@.take(i as int));
            assert(after.drop_last() == before);
        }
        if i > 0 {
            push_char(text, ' ');
        }
        text.append(words[i].as_str());
        assert(text@ == old(text)@ + spaced(after));
        i = i + 1;
    }
    assert(words@.take(i as int) == words@);
}

} // verus!
