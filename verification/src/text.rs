//! Text as sequences of characters: the model that the contracts of this
//! library speak of, and the executable helpers that work on it.

use vstd::prelude::*;

verus! {

/// `String::push` appends one character to the end of the string.
pub assume_specification[ std::string::String::push ](s: &mut std::string::String, c: char)
    ensures
        final(s)@ == old(s)@.push(c),
;

/// Whether `pattern` stands at the very start of `s`.
pub open spec fn starts_with(s: Seq<char>, pattern: Seq<char>) -> bool {
    pattern.len() <= s.len() && s.take(pattern.len() as int) == pattern
}

/// Whether `pattern` stands at the very end of `s`.
pub open spec fn ends_with(s: Seq<char>, pattern: Seq<char>) -> bool {
    pattern.len() <= s.len() && s.skip(s.len() - pattern.len()) == pattern
}

/// Whether `pattern` occurs somewhere in `s`.
pub open spec fn occurs_in(s: Seq<char>, pattern: Seq<char>) -> bool {
    exists|i: int| 0 <= i <= s.len() && #[trigger] starts_with(s.skip(i), pattern)
}

/// `s` with every occurrence of `from` replaced by `to`. Occurrences are
/// taken from the left and do not overlap; what was put in is not searched
/// again. An empty `from` leaves `s` as it is.
pub open spec fn replace_all(s: Seq<char>, from: Seq<char>, to: Seq<char>) -> Seq<char>
    decreases s.len(),
{
    if from.len() == 0 || s.len() < from.len() {
        s
    } else if starts_with(s, from) {
        to + replace_all(s.skip(from.len() as int), from, to)
    } else {
        seq![s[0]] + replace_all(s.skip(1), from, to)
    }
}

/// The position of the first `c` in `s`, or the length of `s` if there is
/// none.
pub open spec fn first_index_of(s: Seq<char>, c: char) -> nat
    decreases s.len(),
{
    if s.len() == 0 {
        0
    } else if s[0] == c {
        0
    } else {
        1 + first_index_of(s.skip(1), c)
    }
}

/// The position of the first occurrence of `pattern` in `s`, or the length
/// of `s` if there is none.
pub open spec fn first_occurrence(s: Seq<char>, pattern: Seq<char>) -> nat
    decreases s.len(),
{
    if s.len() == 0 || starts_with(s, pattern) {
        0
    } else {
        1 + first_occurrence(s.skip(1), pattern)
    }
}

/// `c` in upper case if it is an ASCII lower-case letter, else `c` itself.
pub open spec fn ascii_upper(c: char) -> char {
    if 'a' <= c <= 'z' {
        ((c as u8) - 32) as char
    } else {
        c
    }
}

/// `s` with each ASCII lower-case letter in upper case.
pub open spec fn ascii_uppercase(s: Seq<char>) -> Seq<char> {
    s.map_values(|c: char| ascii_upper(c))
}

/// The first index is within the text, no `c` stands before it, and `c`
/// stands at it unless it is the length.
pub proof fn first_index_of_is_first(s: Seq<char>, c: char)
    ensures
        0 <= first_index_of(s, c) <= s.len(),
        forall|j: int| 0 <= j < first_index_of(s, c) ==> s[j] != c,
        first_index_of(s, c) < s.len() ==> s[first_index_of(s, c) as int] == c,
    decreases s.len(),
{
    if s.len() == 0 || s[0] == c {
    } else {
        first_index_of_is_first(s.skip(1), c);
        assert forall|j: int| 0 <= j < first_index_of(s, c) implies s[j] != c by {
            if j > 0 {
                assert(s[j] == s.skip(1)[j - 1]);
            }
        }
    }
}

/// The characters of `s`, in order.
pub fn chars_of(s: &str) -> (out: Vec<char>)
    ensures
        out@ == s@,
{
    let mut out: Vec<char> = Vec::new();
    for c in it: s.chars()
        invariant
            it.seq() == s@,
            out@ == s@.take(it.index() as int),
    {
        out.push(c);
    }
    out
}

/// The string that holds exactly the characters `chars`.
pub fn string_of(chars: &Vec<char>) -> (out: String)
    ensures
        out@ == chars@,
{
    let mut out = String::new();
    let mut i: usize = 0;
    while i < chars.len()
        invariant
            i <= chars.len(),
            out@ == chars@.take(i as int),
        decreases chars.len() - i,
    {
        out.push(chars[i]);
        i = i + 1;
        assert(chars@.take(i as int) == chars@.take(i - 1).push(chars@[i - 1]));
    }
    assert(chars@.take(chars.len() as int) == chars@);
    out
}

/// Whether `pattern` stands in `s` at position `at`.
pub fn matches_at(s: &Vec<char>, at: usize, pattern: &Vec<char>) -> (found: bool)
    ensures
        found == (at <= s.len() && starts_with(s@.skip(at as int), pattern@)),
{
    if at > s.len() || pattern.len() > s.len() - at {
        return false;
    }
    let ghost tail = s@.skip(at as int);
    let mut j: usize = 0;
    while j < pattern.len()
        invariant
            at <= s.len(),
            pattern.len() <= s.len() - at,
            j <= pattern.len(),
            tail == s@.skip(at as int),
            tail.take(j as int) == pattern@.take(j as int),
        decreases pattern.len() - j,
    {
        if s[at + j] != pattern[j] {
            proof {
                assert(tail[j as int] == s@[at + j]);
                assert(tail.take(pattern.len() as int)[j as int] != pattern@[j as int]);
            }
            return false;
        }
        proof {
            assert(tail[j as int] == s@[at + j]);
            assert(tail.take(j + 1) == tail.take(j as int).push(tail[j as int]));
            assert(pattern@.take(j + 1) == pattern@.take(j as int).push(pattern@[j as int]));
        }
        j = j + 1;
    }
    proof {
        assert(pattern@.take(pattern.len() as int) == pattern@);
    }
    true
}

/// `s` with every occurrence of `from` replaced by `to`.
pub fn replace_chars(s: &Vec<char>, from: &Vec<char>, to: &Vec<char>) -> (out: Vec<char>)
    ensures
        out@ == replace_all(s@, from@, to@),
{
    if from.len() == 0 {
        return s.clone();
    }
    let mut out: Vec<char> = Vec::new();
    let mut i: usize = 0;
    proof {
        assert(s@.skip(0) == s@);
    }
    while i < s.len()
        invariant
            i <= s.len(),
            from.len() > 0,
            out@ + replace_all(s@.skip(i as int), from@, to@) == replace_all(s@, from@, to@),
        decreases s.len() - i,
    {
        let ghost tail = s@.skip(i as int);
        if matches_at(s, i, from) {
            let mut k: usize = 0;
            let ghost before = out@;
            while k < to.len()
                invariant
                    k <= to.len(),
                    out@ == before + to@.take(k as int),
                decreases to.len() - k,
            {
                out.push(to[k]);
                proof {
                    assert(to@.take(k + 1) == to@.take(k as int).push(to@[k as int]));
                }
                k = k + 1;
            }
            proof {
                assert(to@.take(to.len() as int) == to@);
                assert(tail.skip(from.len() as int) == s@.skip(i + from.len()));
                assert(out@ + replace_all(s@.skip(i + from.len()), from@, to@) == before + (to@
                    + replace_all(tail.skip(from.len() as int), from@, to@)));
            }
            i = i + from.len();
        } else {
            let ghost before = out@;
            out.push(s[i]);
            proof {
                assert(tail.skip(1) == s@.skip(i + 1));
                assert(tail[0] == s@[i as int]);
                if tail.len() < from.len() {
                    assert(tail == seq![tail[0]] + tail.skip(1));
                    replace_short(tail.skip(1), from@, to@);
                }
                assert(out@ + replace_all(s@.skip(i + 1), from@, to@) == before + (seq![tail[0]]
                    + replace_all(tail.skip(1), from@, to@)));
            }
            i = i + 1;
        }
    }
    proof {
        assert(s@.skip(s.len() as int) == Seq::<char>::empty());
        assert(out@ + Seq::<char>::empty() == out@);
    }
    out
}

/// A text shorter than `from` holds no occurrence of it and stays.
proof fn replace_short(s: Seq<char>, from: Seq<char>, to: Seq<char>)
    requires
        s.len() < from.len(),
    ensures
        replace_all(s, from, to) == s,
{
}

/// `s` with each ASCII lower-case letter in upper case.
pub fn uppercase_chars(s: &Vec<char>) -> (out: Vec<char>)
    ensures
        out@ == ascii_uppercase(s@),
{
    let mut out: Vec<char> = Vec::new();
    let mut i: usize = 0;
    while i < s.len()
        invariant
            i <= s.len(),
            out@ == ascii_uppercase(s@).take(i as int),
        decreases s.len() - i,
    {
        let c = s[i];
        let u = if 'a' <= c && c <= 'z' {
            ((c as u8) - 32) as char
        } else {
            c
        };
        out.push(u);
        proof {
            assert(ascii_uppercase(s@).take(i + 1) == ascii_uppercase(s@).take(i as int).push(
                ascii_upper(s@[i as int]),
            ));
        }
        i = i + 1;
    }
    proof {
        assert(ascii_uppercase(s@).take(s.len() as int) == ascii_uppercase(s@));
    }
    out
}

} // verus!
