//! Environments: named values that fill the `{key}` tokens of a text.

use crate::dict::{distinct_keys, has_key, lookup, position, position_is_first, Dict, Entries};
use crate::text::{chars_of, matches_at, occurs_in, starts_with, string_of};
use vstd::prelude::*;

verus! {

/// A mapping from variable names to their values.
pub type Environment = Dict<String>;

/// The token that stands for the variable `key` in a text: the key between
/// braces.
pub open spec fn token(key: Seq<char>) -> Seq<char> {
    seq!['{'] + key + seq!['}']
}

/// The position of the first entry of `entries` whose token stands at the
/// start of `s`, or the length of `entries` if there is none.
pub open spec fn first_match(entries: Entries, s: Seq<char>) -> int
    decreases entries.len(),
{
    if entries.len() == 0 {
        0
    } else if starts_with(s, token(entries[0].0)) {
        0
    } else {
        1 + first_match(entries.skip(1), s)
    }
}

/// `s` after one environment was applied to it, in one pass from left to
/// right: where the token of a key of the environment stands, the value
/// under that key takes its place, and the pass goes on behind the token.
/// What was put in is not searched again.
pub open spec fn apply_entries(entries: Entries, s: Seq<char>) -> Seq<char>
    decreases s.len(),
{
    let at = first_match(entries, s);
    if s.len() == 0 {
        s
    } else if 0 <= at < entries.len() && starts_with(s, token(entries[at].0)) {
        entries[at].1 + apply_entries(entries, s.skip(token(entries[at].0).len() as int))
    } else {
        seq![s[0]] + apply_entries(entries, s.skip(1))
    }
}

/// The first match is within bounds, the token of no entry before it
/// stands at the start of `s`, and the token of the entry at it does,
/// unless it is the length.
pub proof fn first_match_is_first(entries: Entries, s: Seq<char>)
    ensures
        0 <= first_match(entries, s) <= entries.len(),
        forall|j: int|
            0 <= j < first_match(entries, s) ==> !starts_with(s, token((#[trigger] entries[j]).0)),
        first_match(entries, s) < entries.len() ==> starts_with(
            s,
            token(entries[first_match(entries, s)].0),
        ),
    decreases entries.len(),
{
    if entries.len() == 0 || starts_with(s, token(entries[0].0)) {
    } else {
        first_match_is_first(entries.skip(1), s);
        assert forall|j: int| 0 <= j < first_match(entries, s) implies !starts_with(
            s,
            token((#[trigger] entries[j]).0),
        ) by {
            if j > 0 {
                assert(entries[j] == entries.skip(1)[j - 1]);
            }
        }
    }
}

/// An index before which the token of no entry stands at the start of
/// `s`, and which is the length or holds an entry whose token does, is the
/// first match.
pub proof fn first_match_found(entries: Entries, s: Seq<char>, at: int)
    requires
        0 <= at <= entries.len(),
        forall|j: int| 0 <= j < at ==> !starts_with(s, token((#[trigger] entries[j]).0)),
        at < entries.len() ==> starts_with(s, token(entries[at].0)),
    ensures
        first_match(entries, s) == at,
{
    first_match_is_first(entries, s);
}

/// `s` after the environments were applied to it one after another, the
/// first of them first.
pub open spec fn apply_all(envs: Seq<Entries>, s: Seq<char>) -> Seq<char>
    decreases envs.len(),
{
    if envs.len() == 0 {
        s
    } else {
        apply_entries(envs.last(), apply_all(envs.drop_last(), s))
    }
}

/// The entries of each environment of a list.
pub open spec fn entries_of(envs: Seq<Environment>) -> Seq<Entries> {
    envs.map_values(|e: Environment| e@)
}

/// Whether the token of some key of `entries` occurs in `s`.
pub open spec fn mentions(s: Seq<char>, entries: Entries) -> bool {
    exists|j: int| 0 <= j < entries.len() && occurs_in(s, token((#[trigger] entries[j]).0))
}

/// Whether `key` holds no brace.
pub open spec fn brace_free(key: Seq<char>) -> bool {
    !key.contains('{') && !key.contains('}')
}

/// A text without an opening brace holds no token.
pub proof fn no_brace_no_token(s: Seq<char>, key: Seq<char>)
    requires
        !s.contains('{'),
    ensures
        !occurs_in(s, token(key)),
{
    if occurs_in(s, token(key)) {
        let i = choose|i: int| 0 <= i <= s.len() && #[trigger] starts_with(s.skip(i), token(key));
        let tail = s.skip(i);
        assert(tail.take(token(key).len() as int)[0] == token(key)[0]);
        assert(tail[0] == s[i]);
        assert(s[i] == '{');
    }
}

/// The only token that occurs in the token of a key without braces is
/// that token itself.
pub proof fn token_within_token(key: Seq<char>, other: Seq<char>)
    requires
        brace_free(key),
        occurs_in(token(key), token(other)),
    ensures
        other == key,
{
    let whole = token(key);
    let part = token(other);
    let i = choose|i: int| 0 <= i <= whole.len() && #[trigger] starts_with(whole.skip(i), part);
    let tail = whole.skip(i);
    assert(tail.take(part.len() as int)[0] == part[0]);
    assert(tail[0] == whole[i]);
    if i > 0 {
        if i < whole.len() - 1 {
            assert(whole[i] == key[i - 1]);
            assert(key.contains('{'));
        }
    }
    assert(i == 0);
    assert(tail == whole);
    let last = part.len() - 1;
    assert(whole.take(part.len() as int)[last] == part[last]);
    assert(whole[last] == '}');
    if last < whole.len() - 1 {
        assert(whole[last] == key[last - 1]);
        assert(key.contains('}'));
    }
    assert(part.len() == whole.len());
    assert(whole.take(whole.len() as int) == whole);
    assert(other == part.subrange(1, part.len() - 1));
    assert(key == whole.subrange(1, whole.len() - 1));
}

/// An environment none of whose tokens occurs in a text leaves the text
/// as it is.
pub proof fn unmentioned_environment_changes_nothing(entries: Entries, s: Seq<char>)
    requires
        !mentions(s, entries),
    ensures
        apply_entries(entries, s) == s,
    decreases s.len(),
{
    if s.len() > 0 {
        first_match_is_first(entries, s);
        let at = first_match(entries, s);
        if at < entries.len() {
            assert(s.skip(0) == s);
            assert(occurs_in(s, token(entries[at].0)));
        }
        let rest = s.skip(1);
        assert forall|j: int| 0 <= j < entries.len() implies !occurs_in(
            rest,
            token((#[trigger] entries[j]).0),
        ) by {
            if occurs_in(rest, token(entries[j].0)) {
                let i = choose|i: int|
                    0 <= i <= rest.len() && #[trigger] starts_with(
                        rest.skip(i),
                        token(entries[j].0),
                    );
                assert(rest.skip(i) == s.skip(i + 1));
                assert(occurs_in(s, token(entries[j].0)));
            }
        }
        unmentioned_environment_changes_nothing(entries, rest);
        assert(seq![s[0]] + rest == s);
    }
}

/// Keys without a definition are left as they are: a text in which the
/// token of no key of any of the environments occurs comes out unchanged.
pub proof fn unresolved_keys_stay(envs: Seq<Entries>, s: Seq<char>)
    requires
        forall|i: int| 0 <= i < envs.len() ==> !mentions(s, #[trigger] envs[i]),
    ensures
        apply_all(envs, s) == s,
    decreases envs.len(),
{
    if envs.len() > 0 {
        let before = envs.drop_last();
        assert forall|i: int| 0 <= i < before.len() implies !mentions(s, #[trigger] before[i]) by {
            assert(before[i] == envs[i]);
        }
        unresolved_keys_stay(before, s);
        assert(envs.last() == envs[envs.len() - 1]);
        unmentioned_environment_changes_nothing(envs.last(), s);
    }
}

/// Environments work one after another: what a list of environments
/// makes of a text is what its later part makes of what its earlier part
/// made of it, so no earlier environment sees what a later one put in.
pub proof fn environments_apply_in_sequence(
    earlier: Seq<Entries>,
    later: Seq<Entries>,
    s: Seq<char>,
)
    ensures
        apply_all(earlier + later, s) == apply_all(later, apply_all(earlier, s)),
    decreases later.len(),
{
    if later.len() == 0 {
        assert(earlier + later == earlier);
    } else {
        assert((earlier + later).drop_last() == earlier + later.drop_last());
        assert((earlier + later).last() == later.last());
        environments_apply_in_sequence(earlier, later.drop_last(), s);
    }
}

/// A text without an opening brace passes through any environments
/// unchanged.
pub proof fn text_without_brace_stays(envs: Seq<Entries>, s: Seq<char>)
    requires
        !s.contains('{'),
    ensures
        apply_all(envs, s) == s,
{
    assert forall|i: int| 0 <= i < envs.len() implies !mentions(s, #[trigger] envs[i]) by {
        let entries = envs[i];
        assert forall|j: int| 0 <= j < entries.len() implies !occurs_in(
            s,
            token((#[trigger] entries[j]).0),
        ) by {
            no_brace_no_token(s, entries[j].0);
        }
    }
    unresolved_keys_stay(envs, s);
}

/// An environment without the key `key` does not mention the token of
/// `key`, where `key` holds no brace.
proof fn undefined_key_is_unmentioned(entries: Entries, key: Seq<char>)
    requires
        brace_free(key),
        !has_key(entries, key),
    ensures
        !mentions(token(key), entries),
{
    position_is_first(entries, key);
    assert forall|j: int| 0 <= j < entries.len() implies !occurs_in(
        token(key),
        token((#[trigger] entries[j]).0),
    ) by {
        if occurs_in(token(key), token(entries[j].0)) {
            token_within_token(key, entries[j].0);
        }
    }
}

/// A key that none of the environments defines is left literal: its
/// token comes out as it went in, where the key holds no brace.
pub proof fn undefined_key_stays(envs: Seq<Entries>, key: Seq<char>)
    requires
        brace_free(key),
        forall|i: int| 0 <= i < envs.len() ==> !has_key(#[trigger] envs[i], key),
    ensures
        apply_all(envs, token(key)) == token(key),
{
    assert forall|i: int| 0 <= i < envs.len() implies !mentions(token(key), #[trigger] envs[i]) by {
        undefined_key_is_unmentioned(envs[i], key);
    }
    unresolved_keys_stay(envs, token(key));
}

/// Two tokens of keys without braces that both stand at the start of a
/// text are the same token.
pub proof fn tokens_at_start_agree(s: Seq<char>, key: Seq<char>, other: Seq<char>)
    requires
        brace_free(key),
        brace_free(other),
        starts_with(s, token(key)),
        starts_with(s, token(other)),
    ensures
        key == other,
{
    let a = token(key);
    let b = token(other);
    if a.len() <= b.len() {
        assert(b.skip(0) == b);
        assert(b.take(a.len() as int) == s.take(b.len() as int).take(a.len() as int));
        assert(s.take(b.len() as int).take(a.len() as int) == s.take(a.len() as int));
        assert(starts_with(b.skip(0), a));
        token_within_token(other, key);
    } else {
        assert(a.skip(0) == a);
        assert(a.take(b.len() as int) == s.take(a.len() as int).take(b.len() as int));
        assert(s.take(a.len() as int).take(b.len() as int) == s.take(b.len() as int));
        assert(starts_with(a.skip(0), b));
        token_within_token(key, other);
    }
}

/// A value is not searched again within its own environment: the token of
/// a key that the environment defines gives the value under that key as it
/// stands, whatever tokens the value holds, where the key holds no brace.
pub proof fn value_is_not_searched_again(entries: Entries, key: Seq<char>)
    requires
        distinct_keys(entries),
        brace_free(key),
        has_key(entries, key),
    ensures
        apply_entries(entries, token(key)) == entries[position(entries, key)].1,
{
    let s = token(key);
    position_is_first(entries, key);
    first_match_is_first(entries, s);
    let p = position(entries, key);
    let at = first_match(entries, s);
    assert(s.take(s.len() as int) == s);
    assert(starts_with(s, token(entries[p].0)));
    assert(at <= p);
    assert(s.skip(0) == s);
    assert(occurs_in(s, token(entries[at].0)));
    token_within_token(key, entries[at].0);
    assert(at == p);
    assert(s.skip(s.len() as int) == Seq::<char>::empty());
    assert(apply_entries(entries, Seq::<char>::empty()) == Seq::<char>::empty());
    assert(entries[p].1 + Seq::<char>::empty() == entries[p].1);
}

/// The order of the keys within an environment does not matter: two
/// environments that hold the same values under the same keys, none of
/// which holds a brace, make the same of every text.
pub proof fn key_order_does_not_matter(first: Entries, second: Entries, s: Seq<char>)
    requires
        distinct_keys(first),
        distinct_keys(second),
        forall|j: int| 0 <= j < first.len() ==> brace_free((#[trigger] first[j]).0),
        forall|j: int| 0 <= j < second.len() ==> brace_free((#[trigger] second[j]).0),
        forall|key: Seq<char>| lookup(first, key) == lookup(second, key),
    ensures
        apply_entries(first, s) == apply_entries(second, s),
    decreases s.len(),
{
    if s.len() > 0 {
        first_match_is_first(first, s);
        first_match_is_first(second, s);
        let a = first_match(first, s);
        let b = first_match(second, s);
        if a < first.len() {
            same_entry_matches(first, second, s);
            key_order_does_not_matter(first, second, s.skip(token(first[a].0).len() as int));
        } else if b < second.len() {
            same_entry_matches(second, first, s);
        } else {
            key_order_does_not_matter(first, second, s.skip(1));
        }
    }
}

/// Where the token of an entry of one environment stands at the start of a
/// text, the first match of an environment with the same keys and values
/// is an entry with that key and that value.
proof fn same_entry_matches(first: Entries, second: Entries, s: Seq<char>)
    requires
        distinct_keys(first),
        distinct_keys(second),
        forall|j: int| 0 <= j < first.len() ==> brace_free((#[trigger] first[j]).0),
        forall|j: int| 0 <= j < second.len() ==> brace_free((#[trigger] second[j]).0),
        forall|key: Seq<char>| lookup(first, key) == lookup(second, key),
        first_match(first, s) < first.len(),
    ensures
        first_match(second, s) < second.len(),
        second[first_match(second, s)] == first[first_match(first, s)],
{
    first_match_is_first(first, s);
    first_match_is_first(second, s);
    let a = first_match(first, s);
    let key = first[a].0;
    position_is_first(first, key);
    assert(position(first, key) == a);
    assert(lookup(first, key) == Some(first[a].1));
    assert(lookup(second, key) == Some(first[a].1));
    position_is_first(second, key);
    let p = position(second, key);
    assert(second[p].0 == key);
    let b = first_match(second, s);
    assert(b <= p);
    tokens_at_start_agree(s, key, second[b].0);
    assert(b == p);
}

/// Overlay precedence: where several environments define a key, the first
/// of them in the list decides. For a key without braces, and a value in
/// that first environment without an opening brace, the token of the key
/// resolves to that value, whatever the later environments hold under the
/// key.
pub proof fn first_environment_wins(envs: Seq<Entries>, key: Seq<char>, first: int)
    requires
        0 <= first < envs.len(),
        distinct_keys(envs[first]),
        brace_free(key),
        forall|i: int| 0 <= i < first ==> !has_key(#[trigger] envs[i], key),
        has_key(envs[first], key),
        !lookup(envs[first], key)->Some_0.contains('{'),
    ensures
        apply_all(envs, token(key)) == lookup(envs[first], key)->Some_0,
    decreases envs.len(),
{
    let before = envs.drop_last();
    let value = lookup(envs[first], key)->Some_0;
    if first == envs.len() - 1 {
        assert forall|i: int| 0 <= i < before.len() implies !has_key(#[trigger] before[i], key) by {
            assert(before[i] == envs[i]);
        }
        undefined_key_stays(before, key);
        value_is_not_searched_again(envs[first], key);
    } else {
        assert forall|i: int| 0 <= i < first implies !has_key(#[trigger] before[i], key) by {
            assert(before[i] == envs[i]);
        }
        assert(before[first] == envs[first]);
        first_environment_wins(before, key, first);
        let last = envs.last();
        assert forall|j: int| 0 <= j < last.len() implies !occurs_in(
            value,
            token((#[trigger] last[j]).0),
        ) by {
            no_brace_no_token(value, last[j].0);
        }
        unmentioned_environment_changes_nothing(last, value);
    }
}

pub trait ApplyEnvironment {
    /// What `apply_environment` makes of a text.
    spec fn applied(&self, s: Seq<char>) -> Seq<char>;

    /// Apply the environment to the given string. Variables in the string
    /// are surrounded by braces: where the environment has a key `foo` and
    /// the string holds `{foo}`, the value under `foo` takes its place.
    fn apply_environment(&self, s: &str) -> (out: String)
        ensures
            out@ == self.applied(s@),
    ;
}

/// The token of `key` as characters.
fn token_chars(key: &str) -> (out: Vec<char>)
    ensures
        out@ == token(key@),
{
    let name = chars_of(key);
    let mut out: Vec<char> = Vec::new();
    out.push('{');
    let mut i: usize = 0;
    while i < name.len()
        invariant
            i <= name.len(),
            out@ == seq!['{'] + name@.take(i as int),
        decreases name.len() - i,
    {
        out.push(name[i]);
        proof {
            assert(name@.take(i + 1) == name@.take(i as int).push(name@[i as int]));
        }
        i = i + 1;
    }
    proof {
        assert(name@.take(name.len() as int) == name@);
    }
    out.push('}');
    out
}

/// The position of the first of `tokens` that stands in `text` at `at`.
fn match_at(env: &Environment, tokens: &Vec<Vec<char>>, text: &Vec<char>, at: usize) -> (found:
    usize)
    requires
        at < text.len(),
        tokens.len() == env@.len(),
        forall|j: int| 0 <= j < tokens.len() ==> (#[trigger] tokens[j])@ == token(env@[j].0),
    ensures
        found == first_match(env@, text@.skip(at as int)),
{
    let ghost tail = text@.skip(at as int);
    let mut j: usize = 0;
    while j < tokens.len()
        invariant
            j <= tokens.len(),
            at < text.len(),
            tokens.len() == env@.len(),
            tail == text@.skip(at as int),
            forall|k: int| 0 <= k < tokens.len() ==> (#[trigger] tokens[k])@ == token(env@[k].0),
            forall|k: int| 0 <= k < j ==> !starts_with(tail, token((#[trigger] env@[k]).0)),
        decreases tokens.len() - j,
    {
        if matches_at(text, at, &tokens[j]) {
            proof {
                first_match_found(env@, tail, j as int);
            }
            return j;
        }
        j = j + 1;
    }
    proof {
        first_match_found(env@, tail, j as int);
    }
    j
}

/// Applies one environment to `text` in one pass from left to right.
pub fn apply_one(env: &Environment, text: Vec<char>) -> (out: Vec<char>)
    ensures
        out@ == apply_entries(env@, text@),
{
    let mut tokens: Vec<Vec<char>> = Vec::new();
    let mut values: Vec<Vec<char>> = Vec::new();
    let mut j: usize = 0;
    while j < env.len()
        invariant
            j <= env@.len(),
            tokens.len() == j,
            values.len() == j,
            forall|k: int| 0 <= k < j ==> (#[trigger] tokens[k])@ == token(env@[k].0),
            forall|k: int| 0 <= k < j ==> (#[trigger] values[k])@ == env@[k].1,
        decreases env@.len() - j,
    {
        tokens.push(token_chars(env.key_at(j).as_str()));
        values.push(chars_of(env.value_at(j).as_str()));
        j = j + 1;
    }
    let mut out: Vec<char> = Vec::new();
    let mut i: usize = 0;
    proof {
        assert(text@.skip(0) == text@);
    }
    while i < text.len()
        invariant
            i <= text.len(),
            tokens.len() == env@.len(),
            values.len() == env@.len(),
            forall|k: int| 0 <= k < tokens.len() ==> (#[trigger] tokens[k])@ == token(env@[k].0),
            forall|k: int| 0 <= k < values.len() ==> (#[trigger] values[k])@ == env@[k].1,
            out@ + apply_entries(env@, text@.skip(i as int)) == apply_entries(env@, text@),
        decreases text.len() - i,
    {
        let ghost tail = text@.skip(i as int);
        let ghost before = out@;
        let found = match_at(env, &tokens, &text, i);
        proof {
            first_match_is_first(env@, tail);
        }
        if found < tokens.len() {
            let value = &values[found];
            let mut k: usize = 0;
            while k < value.len()
                invariant
                    k <= value.len(),
                    out@ == before + value@.take(k as int),
                decreases value.len() - k,
            {
                out.push(value[k]);
                proof {
                    assert(value@.take(k + 1) == value@.take(k as int).push(value@[k as int]));
                }
                k = k + 1;
            }
            let step = tokens[found].len();
            proof {
                assert(value@.take(value.len() as int) == value@);
                assert(tail.skip(step as int) == text@.skip(i + step));
                assert(out@ + apply_entries(env@, text@.skip(i + step)) == before + (value@
                    + apply_entries(env@, tail.skip(step as int))));
            }
            i = i + step;
        } else {
            out.push(text[i]);
            proof {
                assert(tail.skip(1) == text@.skip(i + 1));
                assert(tail[0] == text@[i as int]);
                assert(out@ + apply_entries(env@, text@.skip(i + 1)) == before + (seq![tail[0]]
                    + apply_entries(env@, tail.skip(1))));
            }
            i = i + 1;
        }
    }
    proof {
        assert(text@.skip(text.len() as int) == Seq::<char>::empty());
        assert(out@ + Seq::<char>::empty() == out@);
    }
    out
}

impl ApplyEnvironment for [Environment] {
    open spec fn applied(&self, s: Seq<char>) -> Seq<char> {
        apply_all(entries_of(self@), s)
    }

    /// Applies each environment of the list in turn, each in one pass. The
    /// order matters: an earlier environment is applied first, so where two
    /// of them hold the same key, the value of the earlier one is used.
    fn apply_environment(&self, s: &str) -> (out: String) {
        let mut current = chars_of(s);
        let mut i: usize = 0;
        while i < self.len()
            invariant
                i <= self@.len(),
                current@ == apply_all(entries_of(self@).take(i as int), s@),
            decreases self@.len() - i,
        {
            current = apply_one(&self[i], current);
            proof {
                let all = entries_of(self@);
                assert(all.take(i + 1).drop_last() == all.take(i as int));
                assert(all.take(i + 1).last() == self@[i as int]@);
            }
            i = i + 1;
        }
        proof {
            assert(entries_of(self@).take(self@.len() as int) == entries_of(self@));
        }
        string_of(&current)
    }
}

} // verus!
