//! Text as sequences of characters: searching, trimming, splitting, replacing.
use vstd::prelude::*;
use vstd::string::*;

verus! {

/// `pattern` stands in `s` at position `i`.
pub open spec fn stands_at(s: Seq<char>, pattern: Seq<char>, i: int) -> bool {
    &&& 0 <= i
    &&& i + pattern.len() <= s.len()
    &&& s.subrange(i, i + pattern.len()) == pattern
}

/// `pattern` stands somewhere in `s`.
pub open spec fn contains_text(s: Seq<char>, pattern: Seq<char>) -> bool {
    exists|i: int| #[trigger] stands_at(s, pattern, i)
}

/// `s` with every occurrence of `pattern`, found from left to right and not
/// overlapping, replaced by `to`.
pub open spec fn replaced(s: Seq<char>, pattern: Seq<char>, to: Seq<char>) -> Seq<char>
    decreases s.len(),
{
    if s.len() == 0 || pattern.len() == 0 {
        s
    } else if stands_at(s, pattern, 0) {
        to + replaced(s.skip(pattern.len() as int), pattern, to)
    } else {
        seq![s[0]] + replaced(s.skip(1), pattern, to)
    }
}

/// `s` without the characters of `set` that it starts with.
pub open spec fn trimmed_start(s: Seq<char>, set: Seq<char>) -> Seq<char>
    decreases s.len(),
{
    if s.len() > 0 && set.contains(s[0]) {
        trimmed_start(s.skip(1), set)
    } else {
        s
    }
}

/// `s` without the characters of `set` that it ends with.
pub open spec fn trimmed_end(s: Seq<char>, set: Seq<char>) -> Seq<char>
    decreases s.len(),
{
    if s.len() > 0 && set.contains(s.last()) {
        trimmed_end(s.drop_last(), set)
    } else {
        s
    }
}

/// `s` without the characters of `set` at either end.
pub open spec fn trimmed(s: Seq<char>, set: Seq<char>) -> Seq<char> {
    trimmed_end(trimmed_start(s, set), set)
}

/// The position of the first `c` in `s`, or the length of `s` where there is none.
pub open spec fn first_position(s: Seq<char>, c: char) -> int
    decreases s.len(),
{
    if s.len() == 0 || s[0] == c {
        0
    } else {
        1 + first_position(s.skip(1), c)
    }
}

/// What stands in `s` before its first `c`: all of `s` where there is none.
pub open spec fn before(s: Seq<char>, c: char) -> Seq<char> {
    s.take(first_position(s, c))
}

/// What stands in `s` after its first `c`.
pub open spec fn after(s: Seq<char>, c: char) -> Seq<char>
    recommends
        s.contains(c),
{
    s.skip(first_position(s, c) + 1)
}

/// The texts of a list of strings.
pub open spec fn texts(v: Seq<String>) -> Seq<Seq<char>> {
    v.map_values(|s: String| s@)
}

/// The text of an optional string.
pub open spec fn option_text(s: Option<String>) -> Option<Seq<char>> {
    match s {
        Some(t) => Some(t@),
        None => None,
    }
}

pub proof fn lemma_first_position(s: Seq<char>, c: char)
    ensures
        0 <= first_position(s, c) <= s.len(),
        forall|i: int| 0 <= i < first_position(s, c) ==> s[i] != c,
        first_position(s, c) < s.len() ==> s[first_position(s, c)] == c,
        s.contains(c) <==> first_position(s, c) < s.len(),
    decreases s.len(),
{
    if s.len() > 0 && s[0] != c {
        lemma_first_position(s.skip(1), c);
        assert forall|i: int| 0 <= i < first_position(s, c) implies s[i] != c by {
            if i > 0 {
                assert(s[i] == s.skip(1)[i - 1]);
            }
        }
        if first_position(s, c) < s.len() {
            assert(s[first_position(s, c)] == s.skip(1)[first_position(s, c) - 1]);
        }
        if s.contains(c) {
            let i = choose|i: int| 0 <= i < s.len() && s[i] == c;
            assert(first_position(s, c) <= i);
        }
    }
}

/// The position of the first occurrence of a character is the only one with
/// no occurrence before it.
proof fn lemma_first_position_is(s: Seq<char>, c: char, n: int)
    requires
        0 <= n <= s.len(),
        forall|i: int| 0 <= i < n ==> s[i] != c,
        n < s.len() ==> s[n] == c,
    ensures
        first_position(s, c) == n,
{
    lemma_first_position(s, c);
    let p = first_position(s, c);
    if p < n {
        assert(s[p] != c);
    } else if n < p {
        assert(s[n] != c);
    }
}

/// A text splits at its first `c` into what stands before and what stands after.
pub proof fn law_split_parts(s: Seq<char>, c: char)
    requires
        s.contains(c),
    ensures
        s == before(s, c) + seq![c] + after(s, c),
        !before(s, c).contains(c),
{
    lemma_first_position(s, c);
    assert(s =~= before(s, c) + seq![c] + after(s, c));
    assert forall|i: int| 0 <= i < before(s, c).len() implies before(s, c)[i] != c by {
        assert(s[i] != c);
    }
}

/// Replacing a pattern that does not stand in a text leaves the text as it is.
pub proof fn law_replaced_absent(s: Seq<char>, pattern: Seq<char>, to: Seq<char>)
    requires
        !contains_text(s, pattern),
    ensures
        replaced(s, pattern, to) == s,
    decreases s.len(),
{
    if s.len() > 0 && pattern.len() > 0 {
        assert(!stands_at(s, pattern, 0));
        assert forall|i: int| !stands_at(s.skip(1), pattern, i) by {
            if stands_at(s.skip(1), pattern, i) {
                assert(s.subrange(i + 1, i + 1 + pattern.len()) =~= s.skip(1).subrange(
                    i,
                    i + pattern.len(),
                ));
                assert(stands_at(s, pattern, i + 1));
            }
        }
        law_replaced_absent(s.skip(1), pattern, to);
        assert(seq![s[0]] + s.skip(1) =~= s);
    }
}

/// What stands before every occurrence of a pattern is left as it is.
pub proof fn law_replaced_behind(
    start: Seq<char>,
    rest: Seq<char>,
    pattern: Seq<char>,
    to: Seq<char>,
)
    requires
        forall|i: int| 0 <= i < start.len() ==> !#[trigger] stands_at(start + rest, pattern, i),
    ensures
        replaced(start + rest, pattern, to) == start + replaced(rest, pattern, to),
    decreases start.len(),
{
    let all = start + rest;
    if start.len() == 0 {
        assert(all =~= rest);
        assert(start + replaced(rest, pattern, to) =~= replaced(rest, pattern, to));
    } else if pattern.len() == 0 {
        assert(start + replaced(rest, pattern, to) =~= all);
    } else {
        let less = start.skip(1);
        assert(!stands_at(all, pattern, 0));
        assert(all.skip(1) =~= less + rest);
        assert forall|i: int| 0 <= i < less.len() implies !#[trigger] stands_at(
            less + rest,
            pattern,
            i,
        ) by {
            assert(!stands_at(all, pattern, i + 1));
            if stands_at(less + rest, pattern, i) {
                assert(all.subrange(i + 1, i + 1 + pattern.len()) =~= (less + rest).subrange(
                    i,
                    i + pattern.len(),
                ));
            }
        }
        law_replaced_behind(less, rest, pattern, to);
        assert(seq![all[0]] + (less + replaced(rest, pattern, to)) =~= start + replaced(
            rest,
            pattern,
            to,
        ));
    }
}

/// A pattern stands at a position if and only if each of its characters does, one
/// after the other.
pub proof fn law_stands_at(s: Seq<char>, pattern: Seq<char>, i: int)
    ensures
        stands_at(s, pattern, i) <==> 0 <= i && i + pattern.len() <= s.len() && forall|k: int|
            0 <= k < pattern.len() ==> #[trigger] s[i + k] == pattern[k],
{
    if 0 <= i && i + pattern.len() <= s.len() {
        let part = s.subrange(i, i + pattern.len());
        assert forall|k: int| 0 <= k < pattern.len() implies part[k] == #[trigger] s[i + k] by {}
        if forall|k: int| 0 <= k < pattern.len() ==> #[trigger] s[i + k] == pattern[k] {
            assert forall|k: int| 0 <= k < pattern.len() implies part[k] == pattern[k] by {
                assert(s[i + k] == pattern[k]);
            }
            assert(part =~= pattern);
        }
    }
}

/// A text contains whatever stands between two parts of it.
pub proof fn law_parts_are_contained(a: Seq<char>, pattern: Seq<char>, b: Seq<char>)
    ensures
        contains_text(a + pattern + b, pattern),
{
    let s = a + pattern + b;
    assert(s.subrange(a.len() as int, (a.len() + pattern.len()) as int) =~= pattern);
    assert(stands_at(s, pattern, a.len() as int));
}

/// What is contained in a text has a part of the text before it and one behind it.
pub proof fn law_contained_is_a_part(s: Seq<char>, pattern: Seq<char>)
    requires
        contains_text(s, pattern),
    ensures
        exists|i: int|
            0 <= i && i + pattern.len() <= s.len() && #[trigger] s.take(i) + pattern + s.skip(
                i + pattern.len(),
            ) == s,
{
    let i = choose|i: int| #[trigger] stands_at(s, pattern, i);
    assert(s.take(i) + pattern + s.skip(i + pattern.len()) =~= s) by {
        assert forall|k: int| 0 <= k < pattern.len() implies pattern[k] == #[trigger] s[i + k] by {
            assert(s.subrange(i, i + pattern.len())[k] == s[i + k]);
        }
    }
}

/// The first occurrence of a pattern is replaced, what stands before it is left as it
/// is, and what stands behind it is replaced in turn.
pub proof fn law_first_occurrence_is_replaced(
    a: Seq<char>,
    pattern: Seq<char>,
    b: Seq<char>,
    to: Seq<char>,
)
    requires
        pattern.len() > 0,
        forall|i: int|
            0 <= i < a.len() ==> !#[trigger] stands_at(a + (pattern + b), pattern, i),
    ensures
        replaced(a + pattern + b, pattern, to) == a + to + replaced(b, pattern, to),
{
    let rest = pattern + b;
    law_replaced_behind(a, rest, pattern, to);
    assert(rest.subrange(0, pattern.len() as int) =~= pattern);
    assert(stands_at(rest, pattern, 0));
    assert(rest.skip(pattern.len() as int) =~= b);
    assert(a + pattern + b =~= a + rest);
    assert(a + (to + replaced(b, pattern, to)) =~= a + to + replaced(b, pattern, to));
}

/// What stands before the first of some character and what stands behind it are found
/// again.
pub proof fn law_parts_are_found(a: Seq<char>, c: char, b: Seq<char>)
    requires
        !a.contains(c),
    ensures
        before(a + seq![c] + b, c) == a,
        after(a + seq![c] + b, c) == b,
        before(a, c) == a,
{
    let s = a + seq![c] + b;
    assert forall|i: int| 0 <= i < a.len() implies s[i] != c && a[i] != c by {
        assert(a.contains(a[i]));
    }
    lemma_first_position_is(s, c, a.len() as int);
    lemma_first_position_is(a, c, a.len() as int);
    assert(before(s, c) =~= a);
    assert(after(s, c) =~= b);
    assert(before(a, c) =~= a);
}

/// What is left of a text once it is trimmed stands in the text, between characters of
/// the set alone, and neither starts nor ends with one of the set.
pub proof fn law_trimmed_is_the_middle(s: Seq<char>, set: Seq<char>)
    ensures
        ({
            let t = trimmed(s, set);
            &&& t.len() > 0 ==> !set.contains(t[0]) && !set.contains(t[t.len() - 1])
            &&& exists|a: int|
                0 <= a && a + t.len() <= s.len() && #[trigger] s.subrange(a, a + t.len()) == t
                    && (forall|i: int| 0 <= i < a ==> set.contains(#[trigger] s[i])) && (forall|
                    i: int,
                |
                    a + t.len() <= i < s.len() ==> set.contains(#[trigger] s[i]))
        }),
{
    let m = trimmed_start(s, set);
    let t = trimmed(s, set);
    lemma_trimmed_start(s, set);
    lemma_trimmed_end(m, set);
    let a = s.len() - m.len();
    assert(t =~= s.subrange(a, a + t.len()));
    assert forall|i: int| a + t.len() <= i < s.len() implies set.contains(#[trigger] s[i]) by {
        assert(m[i - a] == s[i]);
    }
    if t.len() > 0 {
        assert(t[0] == m[0]);
    }
}

proof fn lemma_trimmed_start(s: Seq<char>, set: Seq<char>)
    ensures
        trimmed_start(s, set).len() <= s.len(),
        trimmed_start(s, set) == s.skip(s.len() - trimmed_start(s, set).len()),
        forall|i: int|
            0 <= i < s.len() - trimmed_start(s, set).len() ==> set.contains(#[trigger] s[i]),
        trimmed_start(s, set).len() > 0 ==> !set.contains(trimmed_start(s, set)[0]),
    decreases s.len(),
{
    if s.len() > 0 && set.contains(s[0]) {
        let rest = s.skip(1);
        lemma_trimmed_start(rest, set);
        let t = trimmed_start(s, set);
        assert(t =~= s.skip(s.len() - t.len()));
        assert forall|i: int| 0 <= i < s.len() - t.len() implies set.contains(#[trigger] s[i]) by {
            if i > 0 {
                assert(rest[i - 1] == s[i]);
            }
        }
    } else {
        assert(s.skip(0) =~= s);
    }
}

proof fn lemma_trimmed_end(s: Seq<char>, set: Seq<char>)
    ensures
        trimmed_end(s, set).len() <= s.len(),
        trimmed_end(s, set) == s.take(trimmed_end(s, set).len() as int),
        forall|i: int|
            trimmed_end(s, set).len() <= i < s.len() ==> set.contains(#[trigger] s[i]),
        trimmed_end(s, set).len() > 0 ==> !set.contains(trimmed_end(s, set).last()),
    decreases s.len(),
{
    if s.len() > 0 && set.contains(s.last()) {
        let rest = s.drop_last();
        lemma_trimmed_end(rest, set);
        let t = trimmed_end(s, set);
        assert(t =~= s.take(t.len() as int));
        assert forall|i: int| t.len() <= i < s.len() implies set.contains(#[trigger] s[i]) by {
            if i < rest.len() {
                assert(rest[i] == s[i]);
            }
        }
    } else {
        assert(s.take(s.len() as int) =~= s);
    }
}

/// The texts of a list are those of its strings, one for one.
pub proof fn law_texts(v: Seq<String>)
    ensures
        texts(v).len() == v.len(),
        forall|i: int| 0 <= i < v.len() ==> #[trigger] texts(v)[i] == v[i]@,
{
}

/// The text of an optional string is there if and only if the string is.
pub proof fn law_option_text(s: Option<String>)
    ensures
        option_text(s) is Some <==> s is Some,
        s is Some ==> option_text(s) == Some(s->0@),
{
}

/// The characters of a string.
pub fn chars_of(s: &str) -> (v: Vec<char>)
    ensures
        v@ == s@,
{
    let mut v: Vec<char> = Vec::new();
    for c in it: s.chars()
        invariant
            v@ == s@.take(it.index()),
            it.seq() == s@,
    {
        v.push(c);
    }
    v
}

/// Two strings hold the same text.
pub fn same_text(a: &str, b: &str) -> (r: bool)
    ensures
        r == (a@ == b@),
{
    a.to_owned() == b.to_owned()
}

fn stands_here(s: &Vec<char>, pattern: &Vec<char>, i: usize) -> (r: bool)
    requires
        i <= s.len(),
    ensures
        r == stands_at(s@, pattern@, i as int),
{
    if pattern.len() > s.len() - i {
        return false;
    }
    let mut k: usize = 0;
    while k < pattern.len()
        invariant
            i + pattern.len() <= s.len(),
            k <= pattern.len(),
            forall|j: int| 0 <= j < k ==> s@[i + j] == pattern@[j],
        decreases pattern.len() - k,
    {
        if s[i + k] != pattern[k] {
            proof {
                assert(s@.subrange(i as int, i + pattern.len())[k as int] == s@[i + k]);
            }
            return false;
        }
        k = k + 1;
    }
    proof {
        assert(s@.subrange(i as int, i + pattern.len()) =~= pattern@);
    }
    true
}

/// Whether `s` starts with `pattern`.
pub fn starts_with(s: &str, pattern: &str) -> (r: bool)
    ensures
        r == stands_at(s@, pattern@, 0),
{
    let chars = chars_of(s);
    let wanted = chars_of(pattern);
    stands_here(&chars, &wanted, 0)
}

/// Whether `pattern` stands somewhere in `s`.
pub fn contains(s: &str, pattern: &str) -> (r: bool)
    ensures
        r == contains_text(s@, pattern@),
{
    let chars = chars_of(s);
    let wanted = chars_of(pattern);
    let mut i: usize = 0;
    while i < chars.len()
        invariant
            chars@ == s@,
            wanted@ == pattern@,
            i <= chars.len(),
            forall|j: int| 0 <= j < i ==> !stands_at(s@, pattern@, j),
        decreases chars.len() - i,
    {
        if stands_here(&chars, &wanted, i) {
            return true;
        }
        i = i + 1;
    }
    stands_here(&chars, &wanted, i)
}

/// Replaces every occurrence of `pattern` in `s` by `to`.
pub fn replace(s: &str, pattern: &str, to: &str) -> (r: String)
    requires
        pattern@.len() > 0,
    ensures
        r@ == replaced(s@, pattern@, to@),
{
    let chars = chars_of(s);
    let wanted = chars_of(pattern);
    let mut r = String::new();
    let mut from: usize = 0;
    let mut i: usize = 0;
    proof {
        assert(s@.skip(0) =~= s@);
        assert(r@ + s@.subrange(0, 0) + replaced(s@.skip(0), pattern@, to@) =~= replaced(
            s@,
            pattern@,
            to@,
        ));
    }
    while i < chars.len()
        invariant
            chars@ == s@,
            wanted@ == pattern@,
            pattern@.len() > 0,
            from <= i <= chars.len(),
            replaced(s@, pattern@, to@) == r@ + s@.subrange(from as int, i as int) + replaced(
                s@.skip(i as int),
                pattern@,
                to@,
            ),
        decreases chars.len() - i,
    {
        let ghost rest = s@.skip(i as int);
        if stands_here(&chars, &wanted, i) {
            let ghost before_r = r@;
            r.append(s.substring_char(from, i));
            r.append(to);
            proof {
                assert(rest.subrange(0, pattern@.len() as int) =~= s@.subrange(
                    i as int,
                    i + pattern@.len(),
                ));
                assert(stands_at(rest, pattern@, 0));
                assert(rest.skip(pattern@.len() as int) =~= s@.skip(i + pattern@.len()));
            }
            i = i + wanted.len();
            from = i;
            proof {
                assert(s@.subrange(from as int, i as int) =~= Seq::<char>::empty());
                assert(r@ + s@.subrange(from as int, i as int) + replaced(
                    s@.skip(i as int),
                    pattern@,
                    to@,
                ) =~= replaced(s@, pattern@, to@));
            }
        } else {
            proof {
                if stands_at(rest, pattern@, 0) {
                    assert(rest.subrange(0, pattern@.len() as int) =~= s@.subrange(
                        i as int,
                        i + pattern@.len(),
                    ));
                    assert(false);
                }
                assert(rest.skip(1) =~= s@.skip(i + 1));
                assert(s@.subrange(from as int, i + 1) =~= s@.subrange(from as int, i as int)
                    + seq![rest[0]]);
            }
            i = i + 1;
            proof {
                assert(r@ + s@.subrange(from as int, i as int) + replaced(
                    s@.skip(i as int),
                    pattern@,
                    to@,
                ) =~= replaced(s@, pattern@, to@));
            }
        }
    }
    r.append(s.substring_char(from, i));
    proof {
        assert(s@.skip(i as int) =~= Seq::<char>::empty());
        assert(r@ =~= replaced(s@, pattern@, to@));
    }
    r
}

fn is_in(c: char, set: &Vec<char>) -> (r: bool)
    ensures
        r == set@.contains(c),
{
    let mut i: usize = 0;
    while i < set.len()
        invariant
            i <= set.len(),
            forall|j: int| 0 <= j < i ==> set@[j] != c,
        decreases set.len() - i,
    {
        if set[i] == c {
            return true;
        }
        i = i + 1;
    }
    false
}

/// Takes the characters of `set` off both ends of `s`.
pub fn trim(s: &str, set: &str) -> (r: String)
    ensures
        r@ == trimmed(s@, set@),
{
    let chars = chars_of(s);
    let wanted = chars_of(set);
    let mut from: usize = 0;
    proof {
        assert(s@.skip(0) =~= s@);
    }
    while from < chars.len() && is_in(chars[from], &wanted)
        invariant
            chars@ == s@,
            wanted@ == set@,
            from <= chars.len(),
            trimmed_start(s@, set@) == trimmed_start(s@.skip(from as int), set@),
        decreases chars.len() - from,
    {
        proof {
            assert(s@.skip(from as int).skip(1) =~= s@.skip(from + 1));
        }
        from = from + 1;
    }
    let ghost kept = trimmed_start(s@, set@);
    proof {
        assert(kept == s@.skip(from as int));
        assert(s@.subrange(from as int, chars.len() as int) =~= kept);
    }
    let mut to: usize = chars.len();
    while from < to && is_in(chars[to - 1], &wanted)
        invariant
            chars@ == s@,
            wanted@ == set@,
            from <= to <= chars.len(),
            trimmed_end(kept, set@) == trimmed_end(s@.subrange(from as int, to as int), set@),
        decreases to,
    {
        proof {
            assert(s@.subrange(from as int, to as int).drop_last() =~= s@.subrange(
                from as int,
                to - 1,
            ));
        }
        to = to - 1;
    }
    s.substring_char(from, to).to_owned()
}

/// What stands before and after the first `c` in `s`, where `s` holds one.
pub fn split_once(s: &str, c: char) -> (r: Option<(String, String)>)
    ensures
        match r {
            Some((a, b)) => s@.contains(c) && a@ == before(s@, c) && b@ == after(s@, c),
            None => !s@.contains(c),
        },
{
    let chars = chars_of(s);
    let mut i: usize = 0;
    while i < chars.len()
        invariant
            chars@ == s@,
            i <= chars.len(),
            forall|j: int| 0 <= j < i ==> s@[j] != c,
        decreases chars.len() - i,
    {
        if chars[i] == c {
            proof {
                lemma_first_position_is(s@, c, i as int);
                assert(s@.subrange(0, i as int) =~= before(s@, c));
                assert(s@.subrange(i + 1, chars.len() as int) =~= after(s@, c));
            }
            return Some(
                (
                    s.substring_char(0, i).to_owned(),
                    s.substring_char(i + 1, chars.len()).to_owned(),
                ),
            );
        }
        i = i + 1;
    }
    None
}

} // verus!
