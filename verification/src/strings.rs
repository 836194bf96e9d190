use vstd::prelude::*;

verus! {

/// `String::push` of std appends one character: the string afterwards is the string
/// before with `ch` added at the end.
pub assume_specification[ String::push ](s: &mut String, ch: char)
    ensures
        final(s)@ == old(s)@.push(ch),
;

/// `String::pop` of std removes the last character and returns it; on an empty string
/// it returns `None` and leaves the string empty.
pub assume_specification[ String::pop ](s: &mut String) -> (r: Option<char>)
    ensures
        old(s)@.len() == 0 ==> r is None && final(s)@ == old(s)@,
        old(s)@.len() > 0 ==> r == Some(old(s)@.last()) && final(s)@ == old(s)@.drop_last(),
;

} // verus!
