//! Small text helpers of the user programs: trimming blanks and splitting
//! a command line into a command and its argument.
use vstd::prelude::*;

verus! {

/// Whether `b` is a blank: a space, and a tab when `tabs`.
pub open spec fn blank(b: u8, tabs: bool) -> bool {
    b == 32 || (tabs && b == 9)
}

/// `s` without its leading blanks.
pub open spec fn trim_start(s: Seq<u8>, tabs: bool) -> Seq<u8>
    decreases s.len(),
{
    if s.len() > 0 && blank(s[0], tabs) { trim_start(s.drop_first(), tabs) } else { s }
}

/// `s` without its trailing blanks.
pub open spec fn trim_end(s: Seq<u8>, tabs: bool) -> Seq<u8>
    decreases s.len(),
{
    if s.len() > 0 && blank(s.last(), tabs) { trim_end(s.drop_last(), tabs) } else { s }
}

/// `s` without leading and trailing blanks.
pub open spec fn trimmed(s: Seq<u8>, tabs: bool) -> Seq<u8> {
    trim_end(trim_start(s, tabs), tabs)
}

proof fn lemma_trim_start_skip(s: Seq<u8>, i: int, tabs: bool)
    requires 0 <= i < s.len(), blank(s[i], tabs),
    ensures trim_start(s.subrange(i, s.len() as int), tabs) == trim_start(s.subrange(i + 1, s.len() as int), tabs),
{
    assert(s.subrange(i, s.len() as int).drop_first() =~= s.subrange(i + 1, s.len() as int));
}

proof fn lemma_trim_end_skip(s: Seq<u8>, j: int, tabs: bool)
    requires 0 < j <= s.len(), blank(s[j - 1], tabs),
    ensures trim_end(s.subrange(0, j), tabs) == trim_end(s.subrange(0, j - 1), tabs),
{
    assert(s.subrange(0, j).drop_last() =~= s.subrange(0, j - 1));
}

/// `input` without leading and trailing blanks (tabs count when `tabs`).
pub fn trim(input: &[u8], tabs: bool) -> (r: Vec<u8>)
    ensures r@ == trimmed(input@, tabs),
{
    let mut start: usize = 0;
    proof { assert(input@.subrange(0, input@.len() as int) =~= input@); }
    while start < input.len() && (input[start] == 32 || (tabs && input[start] == 9))
        invariant
            start <= input@.len(),
            trim_start(input@, tabs) == trim_start(input@.subrange(start as int, input@.len() as int), tabs),
        decreases input@.len() - start,
    {
        proof { lemma_trim_start_skip(input@, start as int, tabs); }
        start += 1;
    }
    let ghost rest = input@.subrange(start as int, input@.len() as int);
    assert(trim_start(input@, tabs) == rest);
    let mut end: usize = input.len();
    proof { assert(rest.subrange(0, rest.len() as int) =~= rest); }
    while end > start && (input[end - 1] == 32 || (tabs && input[end - 1] == 9))
        invariant
            start <= end <= input@.len(),
            rest == input@.subrange(start as int, input@.len() as int),
            trim_end(rest, tabs) == trim_end(input@.subrange(start as int, end as int), tabs),
        decreases end - start,
    {
        proof {
            let t = input@.subrange(start as int, end as int);
            assert(t.subrange(0, t.len() as int) =~= t);
            lemma_trim_end_skip(t, t.len() as int, tabs);
            assert(t.subrange(0, t.len() - 1) =~= input@.subrange(start as int, end - 1));
        }
        end -= 1;
    }
    crate::userland::slice_copy(input, start, end)
}

/// The first space in `s` at or after `i`, or -1.
pub open spec fn space_from(s: Seq<u8>, i: int) -> int
    decreases s.len() - i,
{
    if i < 0 || i >= s.len() { -1 } else if s[i] == 32 { i } else { space_from(s, i + 1) }
}

/// A command line split at its first space: the command and, when
/// something is left after trimming, the argument.
pub open spec fn split_spec(s: Seq<u8>) -> (Seq<u8>, Option<Seq<u8>>) {
    let i = space_from(s, 0);
    if i < 0 {
        (s, None)
    } else {
        let arg = trimmed(s.subrange(i + 1, s.len() as int), false);
        (trimmed(s.subrange(0, i), false), if arg.len() == 0 { None } else { Some(arg) })
    }
}

/// Splits `input` at its first space (see `split_spec`).
pub fn split_first(input: &[u8]) -> (r: (Vec<u8>, Option<Vec<u8>>))
    ensures
        r.0@ == split_spec(input@).0,
        r.1 is Some == split_spec(input@).1 is Some,
        r.1 matches Some(a) ==> Some(a@) == split_spec(input@).1,
{
    let mut index: usize = 0;
    while index < input.len()
        invariant index <= input@.len(), space_from(input@, 0) == space_from(input@, index as int),
        decreases input@.len() - index,
    {
        if input[index] == 32 {
            let head = crate::userland::slice_copy(input, 0, index);
            let tail = crate::userland::slice_copy(input, index + 1, input.len());
            let cmd = trim(&head, false);
            let arg = trim(&tail, false);
            if arg.len() == 0 {
                return (cmd, None);
            }
            return (cmd, Some(arg));
        }
        index += 1;
    }
    (crate::userland::slice_copy(input, 0, input.len()), None)
}

} // verus!
