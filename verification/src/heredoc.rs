//! Heredocs in Ruby sources, as far as the scanner of the grammar can take them.
//!
//! After every token the scanner saves the literals and the heredocs that are open:
//! two bytes, five for each literal, and for each heredoc four and its word. It saves
//! the length of a word in one byte, and drops a state that is too large for its
//! buffer, except that one byte too many is written all the same.
use crate::text::chars_of;
use vstd::prelude::*;

verus! {

/// The characters that the word of a heredoc can have.
pub const WORD_LIMIT: usize = 255;

/// The bytes of the buffer for the state.
pub const STATE_LIMIT: usize = 1024;

/// The character lies outside ASCII: whether it belongs to a word depends on the
/// machine.
pub open spec fn is_foreign(c: char) -> bool {
    c > '\u{7f}'
}

/// The character may belong to the word of a heredoc.
pub open spec fn is_word_char(c: char) -> bool {
    '0' <= c <= '9' || 'a' <= c <= 'z' || 'A' <= c <= 'Z' || c == '_' || is_foreign(c)
}

/// The character quotes the word of a heredoc.
pub open spec fn is_quote(c: char) -> bool {
    c == '\'' || c == '"' || c == '`'
}

/// The character may start a literal.
pub open spec fn starts_literal(c: char) -> bool {
    is_quote(c) || c == '/' || c == '%'
}

/// Where the characters of a word end that stand from position `i` on.
pub open spec fn word_end(s: Seq<char>, i: int) -> int
    decreases s.len() - i,
{
    if 0 <= i < s.len() && is_word_char(s[i]) {
        word_end(s, i + 1)
    } else {
        i
    }
}

/// Where the quote stands that ends a word, or where the source ends.
pub open spec fn quote_end(s: Seq<char>, i: int, quote: char) -> int
    decreases s.len() - i,
{
    if 0 <= i < s.len() && s[i] != quote {
        quote_end(s, i + 1, quote)
    } else {
        i
    }
}

/// Where the word starts of a heredoc at position `i`: behind the two signs and the
/// mark for indentation.
pub open spec fn word_start(s: Seq<char>, i: int) -> int {
    if i + 2 < s.len() && (s[i + 2] == '-' || s[i + 2] == '~') {
        i + 3
    } else {
        i + 2
    }
}

/// A heredoc whose word has `length` characters may open at position `i`.
pub open spec fn opens(s: Seq<char>, i: int, length: int) -> bool {
    let start = word_start(s, i);
    &&& 0 <= i
    &&& i + 2 <= s.len()
    &&& s[i] == '<'
    &&& s[i + 1] == '<'
    &&& length > 0
    &&& if start < s.len() && is_quote(s[start]) {
        start + 1 + length == quote_end(s, start + 1, s[start])
    } else {
        &&& start + length <= word_end(s, start)
        &&& start + length == word_end(s, start) || is_foreign(s[start + length])
    }
}

/// Heredocs that open at some of the first `n` positions may take `size` bytes.
pub open spec fn may_take(s: Seq<char>, n: int, size: int) -> bool
    decreases n,
{
    if n <= 0 {
        size == 0
    } else {
        may_take(s, n - 1, size) || exists|length: int| #[trigger]
            opens(s, n - 1, length) && may_take(s, n - 1, size - 4 - length)
    }
}

/// How many of the first `n` characters may start a literal.
pub open spec fn literal_starts(s: Seq<char>, n: int) -> int
    decreases n,
{
    if n <= 0 {
        0
    } else {
        literal_starts(s, n - 1) + if starts_literal(s[n - 1]) {
            1int
        } else {
            0
        }
    }
}

/// With a number of open literals the state may have one byte too many.
pub open spec fn may_exceed(s: Seq<char>, literals: int) -> bool {
    may_take(s, s.len() as int, STATE_LIMIT + 1 - (2 + 5 * literals))
}

/// Whatever of the source is taken for a heredoc or a literal, each word has a length that can be
/// saved, and no state is written past its buffer.
pub open spec fn heredocs_surely_fit(s: Seq<char>) -> bool {
    &&& forall|i: int, length: int| #[trigger] opens(s, i, length) ==> length <= WORD_LIMIT
    &&& forall|literals: int|
        0 <= literals <= literal_starts(s, s.len() as int) ==> !#[trigger] may_exceed(s, literals)
}

/// A source without heredocs surely fits.
pub proof fn law_source_without_heredocs_fits(s: Seq<char>)
    requires
        forall|i: int| 0 <= i < s.len() - 1 ==> !(#[trigger] s[i] == '<' && s[i + 1] == '<'),
    ensures
        heredocs_surely_fit(s),
{
    assert forall|i: int, length: int| !#[trigger] opens(s, i, length) by {
        if opens(s, i, length) {
            assert(s[i] == '<' && s[i + 1] == '<');
        }
    }
    assert forall|literals: int|
        0 <= literals <= literal_starts(s, s.len() as int) implies !#[trigger] may_exceed(
        s,
        literals,
    ) by {
        lemma_nothing_opens(s, s.len() as int, STATE_LIMIT + 1 - (2 + 5 * literals));
    }
}

proof fn lemma_nothing_opens(s: Seq<char>, n: int, size: int)
    requires
        forall|i: int, length: int| !#[trigger] opens(s, i, length),
        size != 0,
    ensures
        !may_take(s, n, size),
    decreases n,
{
    if n > 0 {
        lemma_nothing_opens(s, n - 1, size);
    }
}

proof fn lemma_no_negative_size(s: Seq<char>, n: int, size: int)
    requires
        size < 0,
    ensures
        !may_take(s, n, size),
    decreases n,
{
    if n > 0 {
        lemma_no_negative_size(s, n - 1, size);
        assert forall|length: int| #[trigger] opens(s, n - 1, length) implies !may_take(
            s,
            n - 1,
            size - 4 - length,
        ) by {
            lemma_no_negative_size(s, n - 1, size - 4 - length);
        }
    }
}

/// Where the characters of a word end.
pub(crate) fn find_word_end(chars: &Vec<char>, from: usize) -> (r: usize)
    requires
        from <= chars@.len(),
    ensures
        r == word_end(chars@, from as int),
        from <= r <= chars@.len(),
{
    let mut i: usize = from;
    while i < chars.len() && (('0' <= chars[i] && chars[i] <= '9') || ('a' <= chars[i] && chars[i]
        <= 'z') || ('A' <= chars[i] && chars[i] <= 'Z') || chars[i] == '_' || chars[i] > '\u{7f}')
        invariant
            from <= i <= chars@.len(),
            word_end(chars@, from as int) == word_end(chars@, i as int),
        decreases chars.len() - i,
    {
        i = i + 1;
    }
    i
}

/// Where the quote stands that ends a word, or where the source ends.
pub(crate) fn find_quote_end(chars: &Vec<char>, from: usize, quote: char) -> (r: usize)
    requires
        from <= chars@.len(),
    ensures
        r == quote_end(chars@, from as int, quote),
        from <= r <= chars@.len(),
{
    let mut i: usize = from;
    while i < chars.len() && chars[i] != quote
        invariant
            from <= i <= chars@.len(),
            quote_end(chars@, from as int, quote) == quote_end(chars@, i as int, quote),
        decreases chars.len() - i,
    {
        i = i + 1;
    }
    i
}

/// The lengths that the word of a heredoc at position `i` may have.
pub(crate) fn word_lengths(chars: &Vec<char>, i: usize) -> (r: Vec<usize>)
    requires
        i < chars@.len(),
    ensures
        forall|length: int| #[trigger]
            opens(chars@, i as int, length) ==> exists|j: int|
                0 <= j < r@.len() && #[trigger] r@[j] == length,
        forall|j: int| 0 <= j < r@.len() ==> opens(chars@, i as int, #[trigger] r@[j] as int),
{
    let mut lengths: Vec<usize> = Vec::new();
    if chars.len() - i < 2 || chars[i] != '<' || chars[i + 1] != '<' {
        return lengths;
    }
    let mut start: usize = i + 2;
    if start < chars.len() && (chars[start] == '-' || chars[start] == '~') {
        start = start + 1;
    }
    if start < chars.len() && (chars[start] == '\'' || chars[start] == '"' || chars[start] == '`') {
        let end = find_quote_end(chars, start + 1, chars[start]);
        if end > start + 1 {
            lengths.push(end - (start + 1));
            assert(lengths@[0] == end - (start + 1));
        }
        return lengths;
    }
    let end = find_word_end(chars, start);
    let mut length: usize = 1;
    while length <= end - start
        invariant
            i + 2 <= chars@.len(),
            chars@[i as int] == '<' && chars@[i + 1] == '<',
            start == word_start(chars@, i as int),
            !(start < chars@.len() && is_quote(chars@[start as int])),
            end == word_end(chars@, start as int),
            start <= end <= chars@.len(),
            1 <= length <= end - start + 1,
            forall|n: int|
                n < length && #[trigger] opens(chars@, i as int, n) ==> exists|j: int|
                    0 <= j < lengths@.len() && #[trigger] lengths@[j] == n,
            forall|j: int|
                0 <= j < lengths@.len() ==> opens(chars@, i as int, #[trigger] lengths@[j] as int),
        decreases end - start + 1 - length,
    {
        let ghost held = lengths@;
        if length == end - start || chars[start + length] > '\u{7f}' {
            lengths.push(length);
            assert(lengths@[held.len() as int] == length);
        }
        proof {
            assert forall|n: int|
                n < length + 1 && #[trigger] opens(chars@, i as int, n) implies exists|j: int|
                0 <= j < lengths@.len() && #[trigger] lengths@[j] == n by {
                if n < length {
                    let j = choose|j: int| 0 <= j < held.len() && #[trigger] held[j] == n;
                    assert(lengths@[j] == n);
                }
            }
        }
        length = length + 1;
    }
    lengths
}

/// The sizes up to that of the buffer that the heredocs of the first `n` positions may
/// take.
spec fn is_table(s: Seq<char>, n: int, table: Seq<bool>) -> bool {
    &&& table.len() == STATE_LIMIT
    &&& forall|size: int| 0 <= size < STATE_LIMIT ==> #[trigger] table[size] == may_take(s, n, size)
}

/// The sizes once a heredoc with a word of one of the lengths may have opened.
fn with_word(chars: &Vec<char>, n: usize, table: &Vec<bool>, lengths: &Vec<usize>) -> (r: Vec<bool>)
    requires
        n < chars@.len(),
        is_table(chars@, n as int, table@),
        forall|length: int| #[trigger]
            opens(chars@, n as int, length) ==> exists|j: int|
                0 <= j < lengths@.len() && #[trigger] lengths@[j] == length,
        forall|j: int|
            0 <= j < lengths@.len() ==> opens(chars@, n as int, #[trigger] lengths@[j] as int)
                && lengths@[j] <= WORD_LIMIT,
    ensures
        is_table(chars@, n + 1, r@),
{
    let mut r: Vec<bool> = Vec::new();
    let mut size: usize = 0;
    while size < STATE_LIMIT
        invariant
            n < chars@.len(),
            is_table(chars@, n as int, table@),
            forall|length: int| #[trigger]
                opens(chars@, n as int, length) ==> exists|j: int|
                    0 <= j < lengths@.len() && #[trigger] lengths@[j] == length,
            forall|j: int|
                0 <= j < lengths@.len() ==> opens(chars@, n as int, #[trigger] lengths@[j] as int)
                    && lengths@[j] <= WORD_LIMIT,
            size <= STATE_LIMIT,
            r@.len() == size,
            forall|t: int| 0 <= t < size ==> #[trigger] r@[t] == may_take(chars@, n + 1, t),
        decreases STATE_LIMIT - size,
    {
        let mut taken: bool = table[size];
        let mut j: usize = 0;
        while j < lengths.len() && !taken
            invariant
                size < STATE_LIMIT,
                j <= lengths@.len(),
                is_table(chars@, n as int, table@),
                forall|k: int|
                    0 <= k < lengths@.len() ==> opens(
                        chars@,
                        n as int,
                        #[trigger] lengths@[k] as int,
                    ) && lengths@[k] <= WORD_LIMIT,
                taken ==> may_take(chars@, n as int, size as int) || exists|length: int| #[trigger]
                    opens(chars@, n as int, length) && may_take(
                        chars@,
                        n as int,
                        size - 4 - length,
                    ),
                !taken ==> !may_take(chars@, n as int, size as int) && forall|k: int|
                    0 <= k < j ==> !may_take(
                        chars@,
                        n as int,
                        size - 4 - #[trigger] lengths@[k],
                    ),
            decreases lengths.len() - j,
        {
            let length: usize = lengths[j];
            assert(opens(chars@, n as int, lengths@[j as int] as int));
            if size >= 4 + length {
                taken = table[size - 4 - length];
            } else {
                proof {
                    lemma_no_negative_size(chars@, n as int, size - 4 - length);
                }
            }
            j = j + 1;
        }
        proof {
            if !taken {
                assert forall|length: int| #[trigger]
                    opens(chars@, n as int, length) implies !may_take(
                    chars@,
                    n as int,
                    size - 4 - length,
                ) by {
                    let k = choose|k: int| 0 <= k < lengths@.len() && #[trigger] lengths@[k]
                        == length;
                    assert(!may_take(chars@, n as int, size - 4 - lengths@[k]));
                }
            }
            assert(taken == may_take(chars@, n + 1, size as int));
        }
        r.push(taken);
        size = size + 1;
    }
    r
}

fn within_limit(lengths: &Vec<usize>) -> (r: bool)
    ensures
        r == forall|j: int| 0 <= j < lengths@.len() ==> #[trigger] lengths@[j] <= WORD_LIMIT,
{
    let mut j: usize = 0;
    while j < lengths.len()
        invariant
            j <= lengths@.len(),
            forall|k: int| 0 <= k < j ==> #[trigger] lengths@[k] <= WORD_LIMIT,
        decreases lengths.len() - j,
    {
        if lengths[j] > WORD_LIMIT {
            return false;
        }
        j = j + 1;
    }
    true
}

/// The size of nothing alone.
fn empty_table(chars: &Vec<char>) -> (r: Vec<bool>)
    ensures
        is_table(chars@, 0, r@),
{
    let mut table: Vec<bool> = Vec::new();
    while table.len() < STATE_LIMIT
        invariant
            table@.len() <= STATE_LIMIT,
            forall|size: int| 0 <= size < table@.len() ==> #[trigger] table@[size] == (size == 0),
        decreases STATE_LIMIT - table.len(),
    {
        let first = table.len() == 0;
        table.push(first);
    }
    table
}

/// Whether the heredocs of a source surely fit.
pub fn check_heredocs(source: &str) -> (r: bool)
    ensures
        r == heredocs_surely_fit(source@),
{
    let chars = chars_of(source);
    let ghost s = source@;
    let mut table = empty_table(&chars);
    let mut starts: usize = 0;
    let mut i: usize = 0;
    while i < chars.len()
        invariant
            chars@ == s,
            i <= chars@.len(),
            is_table(s, i as int, table@),
            starts <= i,
            starts == literal_starts(s, i as int),
            forall|j: int, length: int|
                j < i && #[trigger] opens(s, j, length) ==> length <= WORD_LIMIT,
            s == source@,
        decreases chars.len() - i,
    {
        let lengths = word_lengths(&chars, i);
        if !within_limit(&lengths) {
            proof {
                let j = choose|j: int| 0 <= j < lengths@.len() && #[trigger] lengths@[j]
                    > WORD_LIMIT;
                assert(opens(s, i as int, lengths@[j] as int));
            }
            return false;
        }
        if lengths.len() > 0 {
            table = with_word(&chars, i, &table, &lengths);
        } else {
            proof {
                assert(forall|length: int| !#[trigger] opens(s, i as int, length));
                assert forall|size: int| 0 <= size < STATE_LIMIT implies #[trigger] table@[size]
                    == may_take(s, i + 1, size) by {
                    assert(table@[size] == may_take(s, i as int, size));
                }
            }
        }
        let c = chars[i];
        if c == '\'' || c == '"' || c == '`' || c == '/' || c == '%' {
            starts = starts + 1;
        }
        i = i + 1;
    }
    proof {
        assert forall|j: int, length: int| #[trigger] opens(s, j, length) implies length
            <= WORD_LIMIT by {
            assert(j < i);
        }
    }
    let mut literals: usize = 0;
    while literals <= starts && 5 * literals <= STATE_LIMIT - 1
        invariant
            s == source@,
            is_table(s, s.len() as int, table@),
            starts == literal_starts(s, s.len() as int),
            literals <= starts + 1,
            literals <= STATE_LIMIT,
            forall|k: int| 0 <= k < literals ==> !#[trigger] may_exceed(s, k),
        decreases STATE_LIMIT - literals,
    {
        let size: usize = STATE_LIMIT - 1 - 5 * literals;
        assert(table@[size as int] == may_exceed(s, literals as int));
        if table[size] {
            return false;
        }
        literals = literals + 1;
    }
    proof {
        assert forall|k: int| 0 <= k <= literal_starts(s, s.len() as int) implies !#[trigger] may_exceed(
            s,
            k,
        ) by {
            if k >= literals {
                lemma_no_negative_size(s, s.len() as int, STATE_LIMIT + 1 - (2 + 5 * k));
            }
        }
    }
    true
}

/// Where a heredoc opens, two signs stand, and its word is not empty.
pub proof fn law_heredoc_opens_with_two_signs(s: Seq<char>, i: int, length: int)
    requires
        opens(s, i, length),
    ensures
        0 <= i,
        i + 2 < s.len(),
        s[i] == '<',
        s[i + 1] == '<',
        0 < length < s.len() - i - 1,
{
    let start = word_start(s, i);
    if start < s.len() && is_quote(s[start]) {
        lemma_quote_end_within(s, start + 1, s[start]);
    } else {
        lemma_word_end_within(s, start);
    }
}

proof fn lemma_quote_end_within(s: Seq<char>, i: int, quote: char)
    requires
        0 <= i <= s.len(),
    ensures
        i <= quote_end(s, i, quote) <= s.len(),
    decreases s.len() - i,
{
    if i < s.len() && s[i] != quote {
        lemma_quote_end_within(s, i + 1, quote);
    }
}

proof fn lemma_word_end_within(s: Seq<char>, i: int)
    requires
        0 <= i <= s.len(),
    ensures
        i <= word_end(s, i) <= s.len(),
    decreases s.len() - i,
{
    if i < s.len() && is_word_char(s[i]) {
        lemma_word_end_within(s, i + 1);
    }
}

/// The characters of a word end where the first stands that belongs to none.
pub proof fn lemma_word_end_is(s: Seq<char>, i: int, n: int)
    requires
        0 <= i <= n <= s.len(),
        forall|k: int| i <= k < n ==> is_word_char(#[trigger] s[k]),
        n < s.len() ==> !is_word_char(s[n]),
    ensures
        word_end(s, i) == n,
    decreases n - i,
{
    if i < n {
        assert(is_word_char(s[i]));
        lemma_word_end_is(s, i + 1, n);
    }
}

/// The first quote of its kind ends a word.
pub proof fn lemma_quote_end_is(s: Seq<char>, i: int, n: int, quote: char)
    requires
        0 <= i <= n <= s.len(),
        forall|k: int| i <= k < n ==> #[trigger] s[k] != quote,
        n < s.len() ==> s[n] == quote,
    ensures
        quote_end(s, i, quote) == n,
    decreases n - i,
{
    if i < n {
        assert(s[i] != quote);
        lemma_quote_end_is(s, i + 1, n, quote);
    }
}

/// Letters, digits and underscores behind the two signs, and behind a mark for indentation
/// where there is one, are the word of a heredoc, and of no other length.
pub proof fn law_plain_word_opens(
    a: Seq<char>,
    mark: Option<char>,
    word: Seq<char>,
    rest: Seq<char>,
    length: int,
)
    requires
        mark is Some ==> mark->0 == '-' || mark->0 == '~',
        word.len() > 0,
        forall|k: int|
            0 <= k < word.len() ==> '0' <= #[trigger] word[k] <= '9' || 'a' <= word[k] <= 'z'
                || 'A' <= word[k] <= 'Z' || word[k] == '_',
        rest.len() > 0 ==> !('0' <= rest[0] <= '9' || 'a' <= rest[0] <= 'z' || 'A' <= rest[0]
            <= 'Z' || rest[0] == '_' || rest[0] > '\u{7f}'),
    ensures
        ({
            let signs = match mark {
                Some(m) => seq!['<', '<', m],
                None => seq!['<', '<'],
            };
            opens(a + signs + word + rest, a.len() as int, length) <==> length == word.len()
        }),
{
    let signs = match mark {
        Some(m) => seq!['<', '<', m],
        None => seq!['<', '<'],
    };
    let s = a + signs + word + rest;
    let i = a.len() as int;
    let start = i + signs.len();
    assert(s[i] == '<' && s[i + 1] == '<');
    assert(s[start] == word[0]);
    if mark is Some {
        assert(s[i + 2] == mark->0);
    }
    assert(word_start(s, i) == start);
    assert forall|k: int| start <= k < start + word.len() implies is_word_char(#[trigger] s[k])
        && !is_foreign(s[k]) by {
        assert(s[k] == word[k - start]);
    }
    if rest.len() > 0 {
        assert(s[start + word.len()] == rest[0]);
    }
    lemma_word_end_is(s, start, start + word.len());
    if opens(s, i, length) && length < word.len() {
        assert(is_foreign(s[start + length]));
        assert(!is_foreign(s[start + length]));
    }
}

/// What stands between quotes of one kind behind the two signs, and behind a mark for
/// indentation where there is one, is the word of a heredoc, and nothing else is.
pub proof fn law_quoted_word_opens(
    a: Seq<char>,
    mark: Option<char>,
    quote: char,
    word: Seq<char>,
    rest: Seq<char>,
    length: int,
)
    requires
        mark is Some ==> mark->0 == '-' || mark->0 == '~',
        quote == '\'' || quote == '"' || quote == '`',
        word.len() > 0,
        !word.contains(quote),
    ensures
        ({
            let signs = match mark {
                Some(m) => seq!['<', '<', m],
                None => seq!['<', '<'],
            };
            opens(
                a + signs + seq![quote] + word + seq![quote] + rest,
                a.len() as int,
                length,
            ) <==> length == word.len()
        }),
{
    let signs = match mark {
        Some(m) => seq!['<', '<', m],
        None => seq!['<', '<'],
    };
    let s = a + signs + seq![quote] + word + seq![quote] + rest;
    let i = a.len() as int;
    let start = i + signs.len();
    assert(s[i] == '<' && s[i + 1] == '<');
    assert(s[start] == quote);
    if mark is Some {
        assert(s[i + 2] == mark->0);
    }
    assert(word_start(s, i) == start);
    assert forall|k: int| start + 1 <= k < start + 1 + word.len() implies #[trigger] s[k]
        != quote by {
        assert(s[k] == word[k - start - 1]);
        assert(word.contains(word[k - start - 1]));
    }
    assert(s[start + 1 + word.len()] == quote);
    lemma_quote_end_is(s, start + 1, start + 1 + word.len(), quote);
}

/// Some heredocs: where each opens and how long its word is.
pub open spec fn may_open_together(s: Seq<char>, n: int, chosen: Seq<(int, int)>) -> bool {
    &&& forall|k: int|
        0 <= k < chosen.len() ==> (#[trigger] chosen[k]).0 < n && opens(
            s,
            chosen[k].0,
            chosen[k].1,
        )
    &&& forall|j: int, k: int|
        0 <= j < k < chosen.len() ==> (#[trigger] chosen[j]).0 < (#[trigger] chosen[k]).0
}

/// The bytes that some heredocs take: for each its word, and four more.
pub open spec fn bytes_of(chosen: Seq<(int, int)>) -> int {
    4 * chosen.len() + chosen.fold_left(0int, |sum: int, h: (int, int)| sum + h.1)
}

/// Heredocs may take a number of bytes if and only if some that can be open together take
/// exactly that number.
pub proof fn law_heredocs_take_their_words(s: Seq<char>, n: int, size: int)
    requires
        0 <= n,
    ensures
        may_take(s, n, size) <==> exists|chosen: Seq<(int, int)>|
            may_open_together(s, n, chosen) && #[trigger] bytes_of(chosen) == size,
    decreases n,
{
    if may_take(s, n, size) {
        if n == 0 {
            let none = Seq::<(int, int)>::empty();
            assert(bytes_of(none) == 0);
            assert(may_open_together(s, n, none));
        } else if may_take(s, n - 1, size) {
            law_heredocs_take_their_words(s, n - 1, size);
            let chosen = choose|chosen: Seq<(int, int)>|
                may_open_together(s, n - 1, chosen) && #[trigger] bytes_of(chosen) == size;
            assert(may_open_together(s, n, chosen));
        } else {
            let length = choose|length: int| #[trigger]
                opens(s, n - 1, length) && may_take(s, n - 1, size - 4 - length);
            law_heredocs_take_their_words(s, n - 1, size - 4 - length);
            let less = choose|less: Seq<(int, int)>|
                may_open_together(s, n - 1, less) && #[trigger] bytes_of(less) == size - 4
                    - length;
            let chosen = less.push((n - 1, length));
            lemma_one_more(less, (n - 1, length));
            assert forall|k: int| 0 <= k < chosen.len() implies (#[trigger] chosen[k]).0 < n
                && opens(s, chosen[k].0, chosen[k].1) by {
                if k < less.len() {
                    assert(less[k].0 < n - 1);
                }
            }
            assert(may_open_together(s, n, chosen));
        }
    }
    if exists|chosen: Seq<(int, int)>|
        may_open_together(s, n, chosen) && #[trigger] bytes_of(chosen) == size {
        let chosen = choose|chosen: Seq<(int, int)>|
            may_open_together(s, n, chosen) && #[trigger] bytes_of(chosen) == size;
        if chosen.len() == 0 {
            assert(size == 0);
            lemma_nothing_takes_nothing(s, n);
        } else {
            let last = chosen.len() - 1;
            let less = chosen.drop_last();
            let (at, length) = chosen[last];
            assert(chosen =~= less.push((at, length)));
            lemma_one_more(less, (at, length));
            assert(opens(s, at, length));
            assert forall|k: int| 0 <= k < less.len() implies (#[trigger] less[k]).0 < at && opens(
                s,
                less[k].0,
                less[k].1,
            ) by {
                assert(chosen[k].0 < chosen[last].0);
            }
            assert(may_open_together(s, at, less)) by {
                assert forall|j: int, k: int| 0 <= j < k < less.len() implies (
                #[trigger] less[j]).0 < (#[trigger] less[k]).0 by {
                    assert(chosen[j].0 < chosen[k].0);
                }
            }
            law_heredocs_take_their_words(s, at, size - 4 - length);
            assert(may_take(s, at + 1, size));
            lemma_more_positions(s, at + 1, n, size);
        }
    }
}

proof fn lemma_one_more(less: Seq<(int, int)>, h: (int, int))
    ensures
        bytes_of(less.push(h)) == bytes_of(less) + 4 + h.1,
{
    let f = |sum: int, h: (int, int)| sum + h.1;
    assert(less.push(h).drop_last() =~= less);
    reveal_with_fuel(Seq::fold_left, 2);
    assert(less.push(h).fold_left(0int, f) == less.fold_left(0int, f) + h.1);
}

proof fn lemma_nothing_takes_nothing(s: Seq<char>, n: int)
    ensures
        may_take(s, n, 0),
    decreases n,
{
    if n > 0 {
        lemma_nothing_takes_nothing(s, n - 1);
    }
}

proof fn lemma_more_positions(s: Seq<char>, m: int, n: int, size: int)
    requires
        m <= n,
        may_take(s, m, size),
    ensures
        may_take(s, n, size),
    decreases n - m,
{
    if m < n {
        lemma_more_positions(s, m, n - 1, size);
        if n <= 0 {
            assert(size == 0);
        }
    }
}

/// The literals that may start are as many as there are quotes, slashes and percent signs.
pub proof fn law_literal_starts(s: Seq<char>, n: int)
    requires
        0 <= n <= s.len(),
    ensures
        literal_starts(s, n) == s.take(n).filter(
            |c: char| c == '\'' || c == '"' || c == '`' || c == '/' || c == '%',
        ).len(),
    decreases n,
{
    reveal(Seq::filter);
    if n > 0 {
        law_literal_starts(s, n - 1);
        assert(s.take(n).drop_last() =~= s.take(n - 1));
        assert(s.take(n).last() == s[n - 1]);
    }
}

/// The heredocs of a source surely fit if and only if no word has more than 255 characters,
/// and no heredocs and literals that may be open together take 1025 bytes: two, five for
/// each literal, and those of the heredocs.
pub proof fn law_what_surely_fits(s: Seq<char>, literals: int)
    ensures
        heredocs_surely_fit(s) <==> {
            &&& forall|i: int, length: int| #[trigger] opens(s, i, length) ==> length <= 255
            &&& forall|count: int|
                0 <= count <= literal_starts(s, s.len() as int) ==> !#[trigger] may_exceed(
                    s,
                    count,
                )
        },
        may_exceed(s, literals) <==> may_take(s, s.len() as int, 1025 - 2 - 5 * literals),
{
}

} // verus!
