use vstd::prelude::*;

verus! {

/// `String::push` of std: the character is appended and the rest of the
/// text stays as it was.
pub assume_specification[ String::push ](text: &mut String, c: char)
    ensures
        final(text)@ == old(text)@.push(c),
;

/// The character of a decimal digit.
pub open spec fn digit_char(d: nat) -> char
    recommends
        d < 10,
{
    seq!['0', '1', '2', '3', '4', '5', '6', '7', '8', '9'][d as int]
}

/// A number in decimal, without sign or leading zeros.
pub open spec fn decimal(n: nat) -> Seq<char>
    decreases n,
{
    if n < 10 {
        seq![digit_char(n)]
    } else {
        decimal(n / 10).push(digit_char(n % 10))
    }
}

/// Numbers in decimal, a comma and a blank between neighbours.
pub open spec fn joined(numbers: Seq<u32>) -> Seq<char>
    decreases numbers.len(),
{
    if numbers.len() == 0 {
        Seq::empty()
    } else if numbers.len() == 1 {
        decimal(numbers[0] as nat)
    } else {
        joined(numbers.drop_last()) + seq![',', ' '] + decimal(numbers.last() as nat)
    }
}

fn digit(d: u32) -> (c: char)
    requires
        d < 10,
    ensures
        c == digit_char(d as nat),
{
    match d {
        0 => '0',
        1 => '1',
        2 => '2',
        3 => '3',
        4 => '4',
        5 => '5',
        6 => '6',
        7 => '7',
        8 => '8',
        _ => '9',
    }
}

/// Appends a number in decimal to a text.
pub fn push_decimal(text: &mut String, n: u32)
    ensures
        final(text)@ == old(text)@ + decimal(n as nat),
    decreases n,
{
    if n >= 10 {
        push_decimal(text, n / 10);
    }
    let c: char = digit(n % 10);
    text.push(c);
    proof {
        if n >= 10 {
            assert(final(text)@ =~= old(text)@ + decimal(n as nat));
        } else {
            assert(final(text)@ =~= old(text)@ + decimal(n as nat));
        }
    }
}

/// Appends numbers in decimal to a text, a comma and a blank between
/// neighbours.
pub fn push_joined(text: &mut String, numbers: &[u32])
    ensures
        final(text)@ == old(text)@ + joined(numbers@),
{
    let mut i: usize = 0;
    while i < numbers.len()
        invariant
            0 <= i <= numbers.len(),
            text@ == old(text)@ + joined(numbers@.take(i as int)),
        decreases numbers.len() - i,
    {
        let ghost before = text@;
        if i > 0 {
            text.push(',');
            text.push(' ');
        }
        push_decimal(text, numbers[i]);
        proof {
            let head = numbers@.take(i as int);
            let next = numbers@.take(i as int + 1);
            assert(next.drop_last() =~= head);
            assert(next.last() == numbers@[i as int]);
            if i > 0 {
                assert(before.push(',').push(' ') =~= before + seq![',', ' ']);
                assert(text@ =~= old(text)@ + joined(next));
            } else {
                assert(joined(head) =~= Seq::<char>::empty());
                assert(text@ =~= old(text)@ + joined(next));
            }
        }
        i += 1;
    }
    assert(numbers@.take(i as int) =~= numbers@);
}

} // verus!
