//! Small text helpers: building repeated-character strings for the
//! surrounding interface and parsing the user's positional input.

use vstd::prelude::*;

use crate::ext::push_char;

verus! {

/// A string of `count` copies of `c`.
pub fn repeat_char(c: char, count: usize) -> (r: String)
    ensures
        r@ == Seq::new(count as nat, |i: int| c),
{
    let mut r = String::new();
    let mut i: usize = 0;
    while i < count
        invariant
            i <= count,
            r@ == Seq::new(i as nat, |j: int| c),
        decreases count - i,
    {
        push_char(&mut r, c);
        proof {
            assert(r@ =~= Seq::new((i + 1) as nat, |j: int| c));
        }
        i = i + 1;
    }
    r
}

/// A decimal digit.
pub open spec fn is_digit(c: char) -> bool {
    48 <= (c as u32) <= 57
}

pub open spec fn all_digits(s: Seq<char>) -> bool {
    forall|i: int| 0 <= i < s.len() ==> is_digit(s[i])
}

/// The number written in decimal, most significant digit first.
pub open spec fn digits_val(s: Seq<char>) -> int
    decreases s.len(),
{
    if s.len() == 0 {
        0
    } else {
        10 * digits_val(s.drop_last()) + (s.last() as u32 - 48)
    }
}

proof fn lemma_digits_val_nonneg(s: Seq<char>)
    requires
        all_digits(s),
    ensures
        digits_val(s) >= 0,
    decreases s.len(),
{
    if s.len() > 0 {
        lemma_digits_val_nonneg(s.drop_last());
    }
}

proof fn lemma_digits_val_prefix(s: Seq<char>, k: int)
    requires
        all_digits(s),
        0 <= k <= s.len(),
    ensures
        digits_val(s.take(k)) <= digits_val(s),
    decreases s.len() - k,
{
    if k < s.len() {
        lemma_digits_val_prefix(s, k + 1);
        assert(s.take(k + 1).drop_last() =~= s.take(k));
        assert(all_digits(s.take(k)));
        lemma_digits_val_nonneg(s.take(k));
        assert(digits_val(s.take(k + 1)) == 10 * digits_val(s.take(k)) + (s[k] as u32 - 48));
    } else {
        assert(s.take(k) =~= s);
    }
}

/// Reads the position the user typed: a plain decimal number. Anything
/// else — empty input, other characters, a number too large to address
/// anything — is no position.
pub fn parse_position(s: &str) -> (r: Option<usize>)
    ensures
        match r {
            Some(v) => s@.len() > 0 && all_digits(s@) && digits_val(s@) == v as int,
            None => s@.len() == 0 || !all_digits(s@) || digits_val(s@) > usize::MAX,
        },
{
    let n = s.unicode_len();
    if n == 0 {
        return None;
    }
    let mut acc: usize = 0;
    let mut i: usize = 0;
    proof {
        assert(s@.take(0) =~= Seq::<char>::empty());
    }
    while i < n
        invariant
            i <= n,
            n == s@.len(),
            all_digits(s@.take(i as int)),
            acc as int == digits_val(s@.take(i as int)),
        decreases n - i,
    {
        let c = s.get_char(i);
        let cv = c as u32;
        if cv < 48 || cv > 57 {
            proof {
                assert(!is_digit(s@[i as int]));
            }
            return None;
        }
        let d = (cv - 48) as usize;
        if acc > (usize::MAX - d) / 10 {
            proof {
                assert(s@.take(i + 1).drop_last() =~= s@.take(i as int));
                assert(digits_val(s@.take(i + 1)) == 10 * acc as int + d);
                assert(10 * acc as int + d > usize::MAX);
                assert(all_digits(s@.take(i + 1)));
                if all_digits(s@) {
                    lemma_digits_val_prefix(s@, i + 1);
                    assert(digits_val(s@) > usize::MAX);
                }
            }
            return None;
        }
        proof {
            assert(10 * acc as int + d <= usize::MAX);
            assert(s@.take(i + 1).drop_last() =~= s@.take(i as int));
        }
        acc = acc * 10 + d;
        i = i + 1;
    }
    proof {
        assert(s@.take(n as int) =~= s@);
    }
    Some(acc)
}

/// What the user asked for at the main prompt.
#[derive(Clone, Copy, PartialEq, Eq, Structural, Debug)]
pub enum MenuChoice {
    List,
    Add,
    Finish,
    Remove,
    Exit,
    Invalid,
}

/// The command each prompt answer stands for; anything unknown is invalid
/// and asked again.
pub open spec fn menu_choice_of(s: Seq<char>) -> MenuChoice {
    if s == seq!['1'] {
        MenuChoice::List
    } else if s == seq!['2'] {
        MenuChoice::Add
    } else if s == seq!['3'] {
        MenuChoice::Finish
    } else if s == seq!['4'] {
        MenuChoice::Remove
    } else if s == seq!['X'] || s == seq!['x'] {
        MenuChoice::Exit
    } else {
        MenuChoice::Invalid
    }
}

pub fn parse_menu_choice(s: &str) -> (r: MenuChoice)
    ensures
        r == menu_choice_of(s@),
{
    if s.unicode_len() == 1 {
        let c = s.get_char(0);
        proof {
            assert(s@ =~= seq![c]);
        }
        if c == '1' {
            MenuChoice::List
        } else if c == '2' {
            MenuChoice::Add
        } else if c == '3' {
            MenuChoice::Finish
        } else if c == '4' {
            MenuChoice::Remove
        } else if c == 'X' || c == 'x' {
            MenuChoice::Exit
        } else {
            MenuChoice::Invalid
        }
    } else {
        MenuChoice::Invalid
    }
}

} // verus!
