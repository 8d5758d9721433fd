//! The `Inputs` parameter of Sum and Product blocks: which operator each
//! input port carries.

use crate::text::{chars_of, parse_usize, parse_usize_chars, trim, trim_chars};
use vstd::prelude::*;

verus! {

/// Whether `c` is one of the operator characters `+ - * /`.
pub open spec fn is_operator(c: char) -> bool {
    c == '+' || c == '-' || c == '*' || c == '/'
}

/// The operator characters of `s`, in order.
pub open spec fn operators_of(s: Seq<char>) -> Seq<char>
    decreases s.len(),
{
    if s.len() == 0 {
        Seq::empty()
    } else if is_operator(s.last()) {
        operators_of(s.drop_last()).push(s.last())
    } else {
        operators_of(s.drop_last())
    }
}

/// The per-port operators an `Inputs` string describes: two `default`
/// ports when it is blank or holds no operator, `n` (at least one)
/// `default` ports for a number `n`, else its operator characters (layout
/// characters such as `|` are ignored).
pub open spec fn input_operators(inputs: Seq<char>, default: char) -> Seq<char> {
    let s = trim(inputs);
    if s.len() == 0 {
        seq![default, default]
    } else {
        match parse_usize(s) {
            Some(n) => Seq::new(if n == 0 { 1 } else { n as nat }, |i: int| default),
            None => if operators_of(s).len() == 0 {
                seq![default, default]
            } else {
                operators_of(s)
            },
        }
    }
}

/// `n` copies of `c`.
fn repeat<T: Copy>(c: T, n: usize) -> (r: Vec<T>)
    ensures
        r@ == Seq::new(n as nat, |i: int| c),
{
    let mut r: Vec<T> = Vec::new();
    let mut i: usize = 0;
    while i < n
        invariant
            i <= n,
            r@ == Seq::new(i as nat, |k: int| c),
        decreases n - i,
    {
        r.push(c);
        i = i + 1;
        assert(r@ =~= Seq::new(i as nat, |k: int| c));
    }
    r
}

/// The per-port operators of a Sum or Product `Inputs` string.
pub fn parse_input_operators(inputs: &str, default: char) -> (r: Vec<char>)
    ensures
        r@ == input_operators(inputs@, default),
{
    let cs = chars_of(inputs);
    let s = trim_chars(cs.as_slice());
    if s.len() == 0 {
        let r = vec![default, default];
        assert(r@ =~= seq![default, default]);
        return r;
    }
    match parse_usize_chars(s.as_slice()) {
        Some(n) => {
            let count = if n == 0 {
                1
            } else {
                n
            };
            return repeat(default, count);
        },
        None => {},
    }
    let mut ops: Vec<char> = Vec::new();
    let mut i: usize = 0;
    while i < s.len()
        invariant
            i <= s@.len(),
            ops@ == operators_of(s@.take(i as int)),
        decreases s@.len() - i,
    {
        assert(s@.take(i + 1).drop_last() =~= s@.take(i as int));
        let c = s[i];
        if c == '+' || c == '-' || c == '*' || c == '/' {
            ops.push(c);
        }
        i = i + 1;
    }
    assert(s@.take(s@.len() as int) =~= s@);
    if ops.len() == 0 {
        let r = vec![default, default];
        assert(r@ =~= seq![default, default]);
        r
    } else {
        ops
    }
}

/// The slots of a round Sum's `Inputs` string: `Some(c)` for each operator
/// port (`+ - * /`), `None` for each `|` spacer; other characters are
/// layout and make no slot.
pub open spec fn slots_of(s: Seq<char>) -> Seq<Option<char>>
    decreases s.len(),
{
    if s.len() == 0 {
        Seq::empty()
    } else if s.last() == '|' {
        slots_of(s.drop_last()).push(None)
    } else if is_operator(s.last()) {
        slots_of(s.drop_last()).push(Some(s.last()))
    } else {
        slots_of(s.drop_last())
    }
}

/// The slots a Sum `Inputs` string describes: two `+` ports when it is
/// blank or describes no slot, `n` (at least one) `+` ports for a number
/// `n`, else its operator ports and `|` spacers in order.
pub open spec fn sum_slots(inputs: Seq<char>) -> Seq<Option<char>> {
    let s = trim(inputs);
    if s.len() == 0 {
        seq![Some('+'), Some('+')]
    } else {
        match parse_usize(s) {
            Some(n) => Seq::new(if n == 0 { 1 } else { n as nat }, |i: int| Some('+')),
            None => if slots_of(s).len() == 0 {
                seq![Some('+'), Some('+')]
            } else {
                slots_of(s)
            },
        }
    }
}

/// The slots of a Sum `Inputs` string, spacers kept.
pub fn parse_sum_slots(inputs: &str) -> (r: Vec<Option<char>>)
    ensures
        r@ == sum_slots(inputs@),
{
    let cs = chars_of(inputs);
    let s = trim_chars(cs.as_slice());
    if s.len() == 0 {
        let r = vec![Some('+'), Some('+')];
        assert(r@ =~= seq![Some('+'), Some('+')]);
        return r;
    }
    match parse_usize_chars(s.as_slice()) {
        Some(n) => {
            let count = if n == 0 {
                1
            } else {
                n
            };
            return repeat(Some('+'), count);
        },
        None => {},
    }
    let mut r: Vec<Option<char>> = Vec::new();
    let mut i: usize = 0;
    while i < s.len()
        invariant
            i <= s@.len(),
            r@ == slots_of(s@.take(i as int)),
        decreases s@.len() - i,
    {
        assert(s@.take(i + 1).drop_last() =~= s@.take(i as int));
        let c = s[i];
        if c == '|' {
            r.push(None);
        } else if c == '+' || c == '-' || c == '*' || c == '/' {
            r.push(Some(c));
        }
        i = i + 1;
    }
    assert(s@.take(s@.len() as int) =~= s@);
    if r.len() == 0 {
        let d = vec![Some('+'), Some('+')];
        assert(d@ =~= seq![Some('+'), Some('+')]);
        d
    } else {
        r
    }
}

} // verus!
