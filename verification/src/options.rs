//! Command-line option values.

use vstd::prelude::*;

use crate::text::{find_from, first_of, from_chars, join2, to_chars};

verus! {

/// What is wrong with an option, or its key and its value: the key ends at the
/// first `=`, and neither is empty.
pub open spec fn parsed_option(text: Seq<char>) -> Result<(Seq<char>, Seq<char>), Seq<char>> {
    let at = first_of(text, '=') as int;
    if at == text.len() {
        Err("Storage option must use key=value: "@ + text)
    } else if at == 0 || at == text.len() - 1 {
        Err("Storage option must use non-empty key=value: "@ + text)
    } else {
        Ok((text.take(at), text.skip(at + 1)))
    }
}

/// Parses an object-store option in `key=value` form.
pub fn parse_storage_option(text: &str) -> (r: Result<(String, String), String>)
    ensures
        match r {
            Ok(option) => {
                &&& parsed_option(text@) == Ok::<(Seq<char>, Seq<char>), Seq<char>>(
                    (option.0@, option.1@),
                )
                &&& option.0@ + seq!['='] + option.1@ == text@
                &&& !option.0@.contains('=')
            },
            Err(reason) => parsed_option(text@) == Err::<(Seq<char>, Seq<char>), Seq<char>>(
                reason@,
            ),
        },
{
    let chars = to_chars(text);
    let at = find_from(&chars, '=', 0);
    assert(chars@.skip(0) =~= text@);
    proof {
        lemma_before_first(text@, '=');
    }
    if at == chars.len() {
        return Err(join2("Storage option must use key=value: ", text));
    }
    if at == 0 || at == chars.len() - 1 {
        return Err(join2("Storage option must use non-empty key=value: ", text));
    }
    let key = from_chars(&chars, 0, at);
    let value = from_chars(&chars, at + 1, chars.len());
    assert(key@ =~= text@.take(at as int));
    assert(value@ =~= text@.skip(at + 1));
    assert(key@ + seq!['='] + value@ =~= text@);
    Ok((key, value))
}

/// The first mark is where it is said to be, and there is none before it.
proof fn lemma_before_first(s: Seq<char>, mark: char)
    ensures
        first_of(s, mark) <= s.len(),
        first_of(s, mark) < s.len() ==> s[first_of(s, mark) as int] == mark,
        !s.take(first_of(s, mark) as int).contains(mark),
    decreases s.len(),
{
    if s.len() > 0 && s[0] != mark {
        lemma_before_first(s.drop_first(), mark);
        let n = first_of(s, mark) as int;
        let head = s.take(n);
        if head.contains(mark) {
            let i = choose|i: int| 0 <= i < head.len() && head[i] == mark;
            assert(s.drop_first().take(n - 1)[i - 1] == mark);
        }
    }
}

} // verus!
