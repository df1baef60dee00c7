//! The text that tree-sitter parses in the place of a Ruby source whose heredocs may
//! not fit.
//!
//! A heredoc reads the same whatever its word is. So each word is given a name of one
//! letter, where it opens a heredoc and where it ends one, and blanks fill the place
//! that it leaves. A state with such names alone never has one byte too many. Every
//! character stays in its place, so that what a node spans is read from the source
//! itself.
use crate::heredoc::{
    check_heredocs, find_quote_end, find_word_end, heredocs_surely_fit, is_foreign, is_quote,
    is_word_char, law_heredoc_opens_with_two_signs, law_source_without_heredocs_fits,
    lemma_quote_end_is, lemma_word_end_is, opens, quote_end, word_end, word_lengths, word_start,
};
use crate::text::chars_of;
use vstd::prelude::*;
use vstd::string::*;
use vstd::utf8::*;

verus! {

/// `String::push` of std puts a character at the end.
pub assume_specification[ String::push ](s: &mut String, c: char)
    ensures
        final(s)@ == old(s)@.push(c),
;

/// The character ends a line.
pub open spec fn is_break(c: char) -> bool {
    c == '\n' || c == '\r'
}

/// The character is blank.
pub open spec fn is_blank(c: char) -> bool {
    c == ' ' || c == '\t'
}

/// Only blanks stand before position `i` in its line.
pub open spec fn starts_text(s: Seq<char>, i: int) -> bool
    decreases i,
{
    i <= 0 || is_break(s[i - 1]) || (is_blank(s[i - 1]) && starts_text(s, i - 1))
}

/// Where the line ends that position `i` stands in.
pub open spec fn line_end(s: Seq<char>, i: int) -> int
    decreases s.len() - i,
{
    if 0 <= i < s.len() && !is_break(s[i]) {
        line_end(s, i + 1)
    } else {
        i
    }
}

/// Where the text between two positions ends, without the blanks behind it.
pub open spec fn text_end(s: Seq<char>, from: int, to: int) -> int
    decreases to - from,
{
    if from < to && is_blank(s[to - 1]) {
        text_end(s, from, to - 1)
    } else {
        to
    }
}

/// The text of a line without the blanks around it, where it starts at position `i`.
pub open spec fn line_text(s: Seq<char>, i: int) -> Option<Seq<char>> {
    if 0 <= i < s.len() && !is_blank(s[i]) && !is_break(s[i]) && starts_text(s, i) {
        Some(s.subrange(i, text_end(s, i, line_end(s, i))))
    } else {
        None
    }
}

/// A line holds the word and nothing else but blanks.
pub open spec fn stands_alone(s: Seq<char>, word: Seq<char>) -> bool {
    exists|i: int| #[trigger] line_text(s, i) == Some(word)
}

/// A line holds the letter, once or more, and nothing else but blanks.
pub open spec fn letter_line(s: Seq<char>, i: int, letter: char) -> bool {
    &&& line_text(s, i) is Some
    &&& forall|k: int|
        0 <= k < line_text(s, i)->0.len() ==> is_blank(#[trigger] line_text(s, i)->0[k])
            || line_text(s, i)->0[k] == letter
}

/// The letter can be a name: no line could be taken for the end of a heredoc with it.
pub open spec fn is_free(s: Seq<char>, letter: char) -> bool {
    forall|i: int| !#[trigger] letter_line(s, i, letter)
}

/// The word has a meaning of its own in a line that holds nothing else.
pub open spec fn is_reserved(word: Seq<char>) -> bool {
    ||| word == "end"@
    ||| word == "else"@
    ||| word == "begin"@
    ||| word == "ensure"@
    ||| word == "rescue"@
    ||| word == "do"@
    ||| word == "then"@
    ||| word == "__END__"@
}

/// The text between two positions can be given a name: it is ASCII, stands in one
/// line, starts like a word and has no meaning of its own.
pub open spec fn can_be_named(s: Seq<char>, from: int, to: int) -> bool {
    &&& from < to
    &&& is_word_char(s[from])
    &&& forall|k: int| from <= k < to ==> !is_foreign(#[trigger] s[k]) && !is_break(s[k])
    &&& !is_reserved(s.subrange(from, to))
}

/// The word of a heredoc: where it stands, and the quote around it.
pub struct WordPlace {
    pub start: int,
    pub end: int,
    pub quote: Option<char>,
}

/// The word of the heredoc that may open at position `i`, where it can be given a name.
/// What stands between quotes counts only where it ends a heredoc too.
pub open spec fn named_word(s: Seq<char>, i: int) -> Option<WordPlace> {
    let start = word_start(s, i);
    if !(0 <= i && i + 2 <= s.len() && s[i] == '<' && s[i + 1] == '<') {
        None
    } else if start < s.len() && is_quote(s[start]) {
        let end = quote_end(s, start + 1, s[start]);
        if end < s.len() && can_be_named(s, start + 1, end) && stands_alone(
            s,
            s.subrange(start + 1, end),
        ) {
            Some(WordPlace { start: start + 1, end, quote: Some(s[start]) })
        } else {
            None
        }
    } else if can_be_named(s, start, word_end(s, start)) {
        Some(WordPlace { start, end: word_end(s, start), quote: None })
    } else {
        None
    }
}

/// A heredoc may open at position `i`.
pub open spec fn may_open(s: Seq<char>, i: int) -> bool {
    exists|length: int| #[trigger] opens(s, i, length)
}

/// The words of the heredocs that may open at the first `n` positions, each once.
pub open spec fn words(s: Seq<char>, n: int) -> Seq<Seq<char>>
    decreases n,
{
    if n <= 0 {
        Seq::empty()
    } else {
        let front = words(s, n - 1);
        match named_word(s, n - 1) {
            Some(place) => {
                let word = s.subrange(place.start, place.end);
                if front.contains(word) {
                    front
                } else {
                    front.push(word)
                }
            },
            None => front,
        }
    }
}

/// The letters among the first `n` of some that can be names.
pub open spec fn free_letters(s: Seq<char>, letters: Seq<char>, n: int) -> Seq<char>
    decreases n,
{
    if n <= 0 {
        Seq::empty()
    } else if is_free(s, letters[n - 1]) {
        free_letters(s, letters, n - 1).push(letters[n - 1])
    } else {
        free_letters(s, letters, n - 1)
    }
}

/// The letters.
pub open spec fn all_letters() -> Seq<char> {
    "ABCDEFGHIJKLMNOPQRSTUVWXYZabcdefghijklmnopqrstuvwxyz"@
}

/// The names for the words of a source.
pub open spec fn names(s: Seq<char>) -> Seq<char> {
    free_letters(s, all_letters(), all_letters().len() as int)
}

/// Where a word stands in a list, or the length of the list where it does not.
pub open spec fn place_of(list: Seq<Seq<char>>, word: Seq<char>) -> int
    decreases list.len(),
{
    if list.len() == 0 || list[0] == word {
        0
    } else {
        1 + place_of(list.skip(1), word)
    }
}

/// The character at an offset in a name, and in the quote and the blanks behind it.
pub open spec fn name_text(name: char, quote: Option<char>, k: int) -> char {
    if k == 0 {
        name
    } else if k == 1 && quote is Some {
        quote->0
    } else {
        ' '
    }
}

/// The text with a name from a position on, in a place of the given width.
pub open spec fn overwritten(
    t: Seq<char>,
    start: int,
    width: int,
    name: char,
    quote: Option<char>,
) -> Seq<char> {
    Seq::new(
        t.len(),
        |k: int|
            if start <= k < start + width {
                name_text(name, quote, k - start)
            } else {
                t[k]
            },
    )
}

/// The width of the place for a name: that of the word, with the quote behind it.
pub open spec fn place_width(place: WordPlace) -> int {
    place.end - place.start + if place.quote is Some {
        1int
    } else {
        0
    }
}

/// The source with the words named that may open heredocs at the first `n` positions.
/// Where a word cannot be named, a comparison takes the place of the opening.
pub open spec fn with_openings(s: Seq<char>, list: Seq<Seq<char>>, ns: Seq<char>, n: int) -> Seq<
    char,
>
    decreases n,
{
    if n <= 0 {
        s
    } else {
        let t = with_openings(s, list, ns, n - 1);
        match named_word(s, n - 1) {
            Some(place) => overwritten(
                t,
                place.start,
                place_width(place),
                ns[place_of(list, s.subrange(place.start, place.end))],
                place.quote,
            ),
            None => if may_open(s, n - 1) {
                t.update(n, '=')
            } else {
                t
            },
        }
    }
}

/// The text with the words named that stand alone in lines of the source that start at
/// the first `n` positions.
pub open spec fn with_ends(
    s: Seq<char>,
    t: Seq<char>,
    list: Seq<Seq<char>>,
    ns: Seq<char>,
    n: int,
) -> Seq<char>
    decreases n,
{
    if n <= 0 {
        t
    } else {
        let front = with_ends(s, t, list, ns, n - 1);
        match line_text(s, n - 1) {
            Some(word) => if place_of(list, word) < list.len() {
                overwritten(front, n - 1, word.len() as int, ns[place_of(list, word)], None)
            } else {
                front
            },
            None => front,
        }
    }
}

/// The source with the words of its heredocs named, where there are names enough.
pub open spec fn renamed(s: Seq<char>) -> Option<Seq<char>> {
    let n = s.len() as int;
    let list = words(s, n);
    if list.len() <= names(s).len() {
        Some(with_ends(s, with_openings(s, list, names(s), n), list, names(s), n))
    } else {
        None
    }
}

/// The source with a comparison in the place of every opening.
pub open spec fn without_openings(s: Seq<char>) -> Seq<char> {
    Seq::new(
        s.len(),
        |i: int|
            if 0 < i && s[i - 1] == '<' && s[i] == '<' {
                '='
            } else {
                s[i]
            },
    )
}

/// The text to parse for a source: the source itself where its heredocs surely fit, else the
/// source with their words named, and without openings where even that may not fit.
pub open spec fn stand_in(s: Seq<char>) -> Seq<char> {
    if heredocs_surely_fit(s) {
        s
    } else {
        match renamed(s) {
            Some(t) => if heredocs_surely_fit(t) {
                t
            } else {
                without_openings(s)
            },
            None => without_openings(s),
        }
    }
}

/// The texts differ in ASCII characters alone, each in the same place.
pub open spec fn keeps_places(s: Seq<char>, t: Seq<char>) -> bool {
    &&& t.len() == s.len()
    &&& forall|i: int|
        0 <= i < s.len() ==> #[trigger] t[i] == s[i] || (!is_foreign(t[i]) && !is_foreign(s[i]))
}

/// Whether only blanks stand before position `i` in its line.
fn is_text_start(chars: &Vec<char>, i: usize) -> (r: bool)
    requires
        i <= chars@.len(),
    ensures
        r == starts_text(chars@, i as int),
{
    let mut j: usize = i;
    while j > 0 && (chars[j - 1] == ' ' || chars[j - 1] == '\t')
        invariant
            j <= i <= chars@.len(),
            starts_text(chars@, i as int) == starts_text(chars@, j as int),
        decreases j,
    {
        j = j - 1;
    }
    j == 0 || chars[j - 1] == '\n' || chars[j - 1] == '\r'
}

/// Where the text of a line ends that starts at position `i`.
fn find_line_text(chars: &Vec<char>, i: usize) -> (r: Option<usize>)
    requires
        i < chars@.len(),
    ensures
        match r {
            Some(end) => i < end <= chars@.len() && line_text(chars@, i as int) == Some(
                chars@.subrange(i as int, end as int),
            ),
            None => line_text(chars@, i as int) is None,
        },
{
    let c = chars[i];
    if c == ' ' || c == '\t' || c == '\n' || c == '\r' || !is_text_start(chars, i) {
        return None;
    }
    assert(i < chars.len());
    let mut end: usize = i + 1;
    while end < chars.len() && chars[end] != '\n' && chars[end] != '\r'
        invariant
            i < end <= chars@.len(),
            line_end(chars@, i as int) == line_end(chars@, end as int),
        decreases chars.len() - end,
    {
        end = end + 1;
    }
    while end > i + 1 && (chars[end - 1] == ' ' || chars[end - 1] == '\t')
        invariant
            i < end <= chars@.len(),
            !is_blank(chars@[i as int]),
            text_end(chars@, i as int, line_end(chars@, i as int)) == text_end(
                chars@,
                i as int,
                end as int,
            ),
        decreases end,
    {
        end = end - 1;
    }
    Some(end)
}

/// Whether two parts of a text are the same.
fn same_part(chars: &Vec<char>, from: usize, to: usize, start: usize, end: usize) -> (r: bool)
    requires
        from <= to <= chars@.len(),
        start <= end <= chars@.len(),
    ensures
        r == (chars@.subrange(from as int, to as int) == chars@.subrange(
            start as int,
            end as int,
        )),
{
    let ghost a = chars@.subrange(from as int, to as int);
    let ghost b = chars@.subrange(start as int, end as int);
    if to - from != end - start {
        assert(a.len() != b.len());
        return false;
    }
    let mut k: usize = 0;
    while k < to - from
        invariant
            from <= to <= chars@.len(),
            start <= end <= chars@.len(),
            to - from == end - start,
            k <= to - from,
            a == chars@.subrange(from as int, to as int),
            b == chars@.subrange(start as int, end as int),
            forall|j: int| 0 <= j < k ==> #[trigger] a[j] == b[j],
        decreases to - from - k,
    {
        if chars[from + k] != chars[start + k] {
            assert(a[k as int] != b[k as int]);
            return false;
        }
        k = k + 1;
    }
    assert(a =~= b);
    true
}

/// Whether a part of a text is a word.
fn part_is(chars: &Vec<char>, from: usize, to: usize, word: &str) -> (r: bool)
    requires
        from <= to <= chars@.len(),
    ensures
        r == (chars@.subrange(from as int, to as int) == word@),
{
    let wanted = chars_of(word);
    part_is_chars(chars, from, to, &wanted)
}

fn part_is_chars(chars: &Vec<char>, from: usize, to: usize, wanted: &Vec<char>) -> (r: bool)
    requires
        from <= to <= chars@.len(),
    ensures
        r == (chars@.subrange(from as int, to as int) == wanted@),
{
    let ghost a = chars@.subrange(from as int, to as int);
    if to - from != wanted.len() {
        assert(a.len() != wanted@.len());
        return false;
    }
    let mut k: usize = 0;
    while k < wanted.len()
        invariant
            from <= to <= chars@.len(),
            to - from == wanted@.len(),
            k <= wanted@.len(),
            a == chars@.subrange(from as int, to as int),
            forall|j: int| 0 <= j < k ==> #[trigger] a[j] == wanted@[j],
        decreases wanted.len() - k,
    {
        if chars[from + k] != wanted[k] {
            assert(a[k as int] != wanted@[k as int]);
            return false;
        }
        k = k + 1;
    }
    assert(a =~= wanted@);
    true
}

/// Whether a line holds a part of the text and nothing else but blanks.
fn part_stands_alone(chars: &Vec<char>, from: usize, to: usize) -> (r: bool)
    requires
        from <= to <= chars@.len(),
    ensures
        r == stands_alone(chars@, chars@.subrange(from as int, to as int)),
{
    let ghost word = chars@.subrange(from as int, to as int);
    let mut i: usize = 0;
    while i < chars.len()
        invariant
            from <= to <= chars@.len(),
            word == chars@.subrange(from as int, to as int),
            i <= chars@.len(),
            forall|j: int| j < i ==> #[trigger] line_text(chars@, j) != Some(word),
        decreases chars.len() - i,
    {
        if let Some(end) = find_line_text(chars, i) {
            if same_part(chars, i, end, from, to) {
                return true;
            }
        }
        i = i + 1;
    }
    false
}

/// Whether a letter can be a name.
fn letter_is_free(chars: &Vec<char>, letter: char) -> (r: bool)
    ensures
        r == is_free(chars@, letter),
{
    let mut i: usize = 0;
    while i < chars.len()
        invariant
            i <= chars@.len(),
            forall|j: int| j < i ==> !#[trigger] letter_line(chars@, j, letter),
        decreases chars.len() - i,
    {
        if let Some(end) = find_line_text(chars, i) {
            let ghost text = line_text(chars@, i as int)->0;
            let mut k: usize = i;
            while k < end && (chars[k] == ' ' || chars[k] == '\t' || chars[k] == letter)
                invariant
                    i <= k <= end <= chars@.len(),
                    text == chars@.subrange(i as int, end as int),
                    forall|j: int|
                        0 <= j < k - i ==> is_blank(#[trigger] text[j]) || text[j] == letter,
                decreases end - k,
            {
                assert(text[k - i] == chars@[k as int]);
                k = k + 1;
            }
            if k == end {
                assert(letter_line(chars@, i as int, letter));
                return false;
            }
            assert(text[k - i] == chars@[k as int]);
        }
        i = i + 1;
    }
    true
}

/// Whether the text between two positions can be given a name.
fn part_can_be_named(chars: &Vec<char>, from: usize, to: usize) -> (r: bool)
    requires
        from <= to <= chars@.len(),
    ensures
        r == can_be_named(chars@, from as int, to as int),
{
    if from == to {
        return false;
    }
    let c = chars[from];
    if !(('0' <= c && c <= '9') || ('a' <= c && c <= 'z') || ('A' <= c && c <= 'Z') || c == '_'
        || c > '\u{7f}') {
        return false;
    }
    let mut k: usize = from;
    while k < to
        invariant
            from <= k <= to <= chars@.len(),
            forall|j: int| from <= j < k ==> !is_foreign(#[trigger] chars@[j]) && !is_break(chars@[j]),
        decreases to - k,
    {
        if chars[k] > '\u{7f}' || chars[k] == '\n' || chars[k] == '\r' {
            return false;
        }
        k = k + 1;
    }
    !(part_is(chars, from, to, "end") || part_is(chars, from, to, "else") || part_is(
        chars,
        from,
        to,
        "begin",
    ) || part_is(chars, from, to, "ensure") || part_is(chars, from, to, "rescue") || part_is(
        chars,
        from,
        to,
        "do",
    ) || part_is(chars, from, to, "then") || part_is(chars, from, to, "__END__"))
}

/// The word of a heredoc: where it stands, and the quote around it.
struct WordRange {
    start: usize,
    end: usize,
    quote: Option<char>,
}

impl WordRange {
    spec fn view(&self) -> WordPlace {
        WordPlace { start: self.start as int, end: self.end as int, quote: self.quote }
    }
}

/// The word of the heredoc that may open at position `i`, where it can be given a name.
fn find_named_word(chars: &Vec<char>, i: usize) -> (r: Option<WordRange>)
    requires
        i < chars@.len(),
    ensures
        match r {
            Some(place) => named_word(chars@, i as int) == Some(place@),
            None => named_word(chars@, i as int) is None,
        },
{
    if chars.len() - i < 2 || chars[i] != '<' || chars[i + 1] != '<' {
        return None;
    }
    let mut start: usize = i + 2;
    if start < chars.len() && (chars[start] == '-' || chars[start] == '~') {
        start = start + 1;
    }
    if start < chars.len() && (chars[start] == '\'' || chars[start] == '"' || chars[start] == '`') {
        let end = find_quote_end(chars, start + 1, chars[start]);
        if end < chars.len() && part_can_be_named(chars, start + 1, end) && part_stands_alone(
            chars,
            start + 1,
            end,
        ) {
            return Some(WordRange { start: start + 1, end, quote: Some(chars[start]) });
        }
        return None;
    }
    let end = find_word_end(chars, start);
    if part_can_be_named(chars, start, end) {
        Some(WordRange { start, end, quote: None })
    } else {
        None
    }
}

/// Some words, as models.
spec fn word_views(list: Seq<Vec<char>>) -> Seq<Seq<char>> {
    list.map_values(|w: Vec<char>| w@)
}

proof fn lemma_place_of(list: Seq<Seq<char>>, word: Seq<char>)
    ensures
        0 <= place_of(list, word) <= list.len(),
        place_of(list, word) < list.len() ==> list[place_of(list, word)] == word,
        list.contains(word) <==> place_of(list, word) < list.len(),
    decreases list.len(),
{
    if list.len() > 0 && list[0] != word {
        lemma_place_of(list.skip(1), word);
        if list.contains(word) {
            let j = choose|j: int| 0 <= j < list.len() && list[j] == word;
            assert(list.skip(1)[j - 1] == word);
        }
        if list.skip(1).contains(word) {
            let j = choose|j: int| 0 <= j < list.skip(1).len() && list.skip(1)[j] == word;
            assert(list[j + 1] == word);
        }
    } else if list.len() > 0 {
        assert(list[0] == word);
    }
}

/// Where a part of a text stands in a list of words.
fn find_place(list: &Vec<Vec<char>>, chars: &Vec<char>, from: usize, to: usize) -> (r: usize)
    requires
        from <= to <= chars@.len(),
    ensures
        r == place_of(word_views(list@), chars@.subrange(from as int, to as int)),
        r <= list@.len(),
{
    let ghost word = chars@.subrange(from as int, to as int);
    let ghost all = word_views(list@);
    let mut i: usize = 0;
    proof {
        assert(all.skip(0) =~= all);
    }
    while i < list.len()
        invariant
            from <= to <= chars@.len(),
            word == chars@.subrange(from as int, to as int),
            all == word_views(list@),
            i <= list@.len(),
            place_of(all, word) == i + place_of(all.skip(i as int), word),
        decreases list.len() - i,
    {
        proof {
            assert(all.skip(i as int)[0] == list@[i as int]@);
            assert(all.skip(i as int).skip(1) =~= all.skip(i + 1));
        }
        if part_is_chars(chars, from, to, &list[i]) {
            return i;
        }
        i = i + 1;
    }
    i
}

/// A copy of a part of a text.
fn copy_part(chars: &Vec<char>, from: usize, to: usize) -> (r: Vec<char>)
    requires
        from <= to <= chars@.len(),
    ensures
        r@ == chars@.subrange(from as int, to as int),
{
    let mut part: Vec<char> = Vec::new();
    let mut k: usize = from;
    while k < to
        invariant
            from <= k <= to <= chars@.len(),
            part@ == chars@.subrange(from as int, k as int),
        decreases to - k,
    {
        part.push(chars[k]);
        k = k + 1;
        assert(part@ =~= chars@.subrange(from as int, k as int));
    }
    part
}

proof fn lemma_named_word(s: Seq<char>, i: int)
    ensures
        match named_word(s, i) {
            Some(place) => {
                &&& i < place.start < place.end
                &&& place.start + place_width(place) <= s.len()
                &&& forall|k: int|
                    place.start <= k < place.start + place_width(place) ==> !is_foreign(
                        #[trigger] s[k],
                    )
                &&& place.quote is Some ==> !is_foreign(place.quote->0)
            },
            None => true,
        },
{
    let start = word_start(s, i);
    if named_word(s, i) is Some {
        if start < s.len() && is_quote(s[start]) {
            lemma_quote_end(s, start + 1, s[start]);
        } else {
            lemma_word_end(s, start);
        }
    }
}

proof fn lemma_quote_end(s: Seq<char>, i: int, quote: char)
    requires
        0 <= i <= s.len(),
    ensures
        i <= quote_end(s, i, quote) <= s.len(),
        quote_end(s, i, quote) < s.len() ==> s[quote_end(s, i, quote)] == quote,
    decreases s.len() - i,
{
    if i < s.len() && s[i] != quote {
        lemma_quote_end(s, i + 1, quote);
    }
}

proof fn lemma_word_end(s: Seq<char>, i: int)
    requires
        0 <= i <= s.len(),
    ensures
        i <= word_end(s, i) <= s.len(),
    decreases s.len() - i,
{
    if i < s.len() && is_word_char(s[i]) {
        lemma_word_end(s, i + 1);
    }
}

/// The words of the heredocs of a source, each once.
fn collect_words(chars: &Vec<char>) -> (r: Vec<Vec<char>>)
    ensures
        word_views(r@) == words(chars@, chars@.len() as int),
{
    let mut list: Vec<Vec<char>> = Vec::new();
    let mut i: usize = 0;
    proof {
        assert(word_views(list@) =~= words(chars@, 0));
    }
    while i < chars.len()
        invariant
            i <= chars@.len(),
            word_views(list@) == words(chars@, i as int),
        decreases chars.len() - i,
    {
        proof {
            lemma_named_word(chars@, i as int);
        }
        if let Some(place) = find_named_word(chars, i) {
            let ghost held = word_views(list@);
            let ghost word = chars@.subrange(place.start as int, place.end as int);
            proof {
                lemma_place_of(held, word);
            }
            if find_place(&list, chars, place.start, place.end) == list.len() {
                let part = copy_part(chars, place.start, place.end);
                list.push(part);
                assert(word_views(list@) =~= held.push(word));
            }
        }
        i = i + 1;
    }
    list
}

/// The names for the words of a source.
fn collect_names(chars: &Vec<char>) -> (r: Vec<char>)
    ensures
        r@ == names(chars@),
{
    let letters = chars_of("ABCDEFGHIJKLMNOPQRSTUVWXYZabcdefghijklmnopqrstuvwxyz");
    let mut free: Vec<char> = Vec::new();
    let mut i: usize = 0;
    while i < letters.len()
        invariant
            letters@ == all_letters(),
            i <= letters@.len(),
            free@ == free_letters(chars@, letters@, i as int),
        decreases letters.len() - i,
    {
        if letter_is_free(chars, letters[i]) {
            free.push(letters[i]);
        }
        i = i + 1;
    }
    free
}

/// Puts a name into a text.
fn overwrite(t: &mut Vec<char>, start: usize, width: usize, name: char, quote: Option<char>)
    requires
        start + width <= old(t)@.len(),
    ensures
        final(t)@ == overwritten(old(t)@, start as int, width as int, name, quote),
{
    let ghost before = t@;
    let mut k: usize = 0;
    while k < width
        invariant
            start + width <= t.len(),
            t@.len() == before.len(),
            k <= width,
            t@ == overwritten(before, start as int, k as int, name, quote),
        decreases width - k,
    {
        let c = if k == 0 {
            name
        } else {
            match quote {
                Some(q) => if k == 1 {
                    q
                } else {
                    ' '
                },
                None => ' ',
            }
        };
        t.set(start + k, c);
        k = k + 1;
        assert(t@ =~= overwritten(before, start as int, k as int, name, quote));
    }
    assert(t@ =~= overwritten(before, start as int, width as int, name, quote));
}

/// What can be named is in the list, and is ASCII.
proof fn lemma_words(s: Seq<char>, n: int)
    ensures
        forall|i: int|
            0 <= i < n && (#[trigger] named_word(s, i)) is Some ==> words(s, n).contains(
                s.subrange(named_word(s, i)->0.start, named_word(s, i)->0.end),
            ),
        forall|j: int, k: int|
            0 <= j < words(s, n).len() && 0 <= k < words(s, n)[j].len() ==> !is_foreign(
                #[trigger] words(s, n)[j][k],
            ),
    decreases n,
{
    if n > 0 {
        lemma_words(s, n - 1);
        lemma_named_word(s, n - 1);
        let front = words(s, n - 1);
        let all = words(s, n);
        assert forall|w: Seq<char>| front.contains(w) implies #[trigger] all.contains(w) by {
            let j = choose|j: int| 0 <= j < front.len() && front[j] == w;
            assert(all[j] == w);
        }
        if named_word(s, n - 1) is Some {
            let place = named_word(s, n - 1)->0;
            let word = s.subrange(place.start, place.end);
            if !front.contains(word) {
                assert(all[front.len() as int] == word);
            }
            assert(all.contains(word));
            assert forall|k: int| 0 <= k < word.len() implies !is_foreign(#[trigger] word[k]) by {
                assert(word[k] == s[place.start + k]);
            }
        }
        assert forall|j: int, k: int| 0 <= j < all.len() && 0 <= k < all[j].len() implies !is_foreign(
            #[trigger] all[j][k],
        ) by {
            if j < front.len() {
                assert(all[j] == front[j]);
                assert(!is_foreign(front[j][k]));
            }
        }
    }
}

/// A name is a letter.
proof fn lemma_names(s: Seq<char>, n: int)
    requires
        n <= all_letters().len(),
    ensures
        forall|i: int|
            0 <= i < free_letters(s, all_letters(), n).len() ==> !is_foreign(
                #[trigger] free_letters(s, all_letters(), n)[i],
            ),
    decreases n,
{
    if n > 0 {
        lemma_names(s, n - 1);
        reveal_strlit("ABCDEFGHIJKLMNOPQRSTUVWXYZabcdefghijklmnopqrstuvwxyz");
        assert(is_ascii("ABCDEFGHIJKLMNOPQRSTUVWXYZabcdefghijklmnopqrstuvwxyz"));
        assert('\0' <= all_letters()[n - 1] <= '\u{7f}');
        assert(!is_foreign(all_letters()[n - 1]));
        let front = free_letters(s, all_letters(), n - 1);
        let all = free_letters(s, all_letters(), n);
        assert forall|i: int| 0 <= i < all.len() implies !is_foreign(#[trigger] all[i]) by {
            if i < front.len() {
                assert(!is_foreign(front[i]));
            }
        }
    }
}

proof fn lemma_overwritten_keeps(
    s: Seq<char>,
    t: Seq<char>,
    start: int,
    width: int,
    name: char,
    quote: Option<char>,
)
    requires
        keeps_places(s, t),
        0 <= start,
        start + width <= s.len(),
        forall|k: int| start <= k < start + width ==> !is_foreign(#[trigger] s[k]),
        !is_foreign(name),
        quote is Some ==> !is_foreign(quote->0),
    ensures
        keeps_places(s, overwritten(t, start, width, name, quote)),
{
    let r = overwritten(t, start, width, name, quote);
    assert forall|i: int| 0 <= i < s.len() implies #[trigger] r[i] == s[i] || (!is_foreign(r[i])
        && !is_foreign(s[i])) by {
        assert(t[i] == s[i] || (!is_foreign(t[i]) && !is_foreign(s[i])));
    }
}

proof fn lemma_openings_keep(s: Seq<char>, ns: Seq<char>, n: int)
    requires
        n <= s.len(),
        words(s, s.len() as int).len() <= ns.len(),
        forall|i: int| 0 <= i < ns.len() ==> !is_foreign(#[trigger] ns[i]),
    ensures
        keeps_places(s, with_openings(s, words(s, s.len() as int), ns, n)),
    decreases n,
{
    if n > 0 {
        let list = words(s, s.len() as int);
        lemma_openings_keep(s, ns, n - 1);
        lemma_named_word(s, n - 1);
        lemma_words(s, s.len() as int);
        let t = with_openings(s, list, ns, n - 1);
        match named_word(s, n - 1) {
            Some(place) => {
                let word = s.subrange(place.start, place.end);
                lemma_place_of(list, word);
                lemma_overwritten_keeps(
                    s,
                    t,
                    place.start,
                    place_width(place),
                    ns[place_of(list, word)],
                    place.quote,
                );
            },
            None => if may_open(s, n - 1) {
                let r = t.update(n, '=');
                assert(s[n] == '<');
                assert forall|i: int| 0 <= i < s.len() implies #[trigger] r[i] == s[i] || (
                !is_foreign(r[i]) && !is_foreign(s[i])) by {
                    assert(t[i] == s[i] || (!is_foreign(t[i]) && !is_foreign(s[i])));
                }
            },
        }
    }
}

proof fn lemma_line_text(s: Seq<char>, i: int)
    ensures
        line_text(s, i) is Some ==> i + line_text(s, i)->0.len() <= s.len() && forall|k: int|
            0 <= k < line_text(s, i)->0.len() ==> #[trigger] line_text(s, i)->0[k] == s[i + k],
{
    if line_text(s, i) is Some {
        lemma_line_end(s, i);
        lemma_text_end(s, i, line_end(s, i));
    }
}

proof fn lemma_line_end(s: Seq<char>, i: int)
    requires
        0 <= i <= s.len(),
    ensures
        i <= line_end(s, i) <= s.len(),
    decreases s.len() - i,
{
    if i < s.len() && !is_break(s[i]) {
        lemma_line_end(s, i + 1);
    }
}

proof fn lemma_text_end(s: Seq<char>, from: int, to: int)
    requires
        from <= to,
    ensures
        from <= text_end(s, from, to) <= to,
    decreases to - from,
{
    if from < to && is_blank(s[to - 1]) {
        lemma_text_end(s, from, to - 1);
    }
}

proof fn lemma_ends_keep(s: Seq<char>, t: Seq<char>, ns: Seq<char>, n: int)
    requires
        n <= s.len(),
        keeps_places(s, t),
        words(s, s.len() as int).len() <= ns.len(),
        forall|i: int| 0 <= i < ns.len() ==> !is_foreign(#[trigger] ns[i]),
    ensures
        keeps_places(s, with_ends(s, t, words(s, s.len() as int), ns, n)),
    decreases n,
{
    if n > 0 {
        let list = words(s, s.len() as int);
        lemma_ends_keep(s, t, ns, n - 1);
        lemma_words(s, s.len() as int);
        lemma_line_text(s, n - 1);
        if let Some(word) = line_text(s, n - 1) {
            lemma_place_of(list, word);
            if place_of(list, word) < list.len() {
                assert forall|k: int| n - 1 <= k < n - 1 + word.len() implies !is_foreign(
                    #[trigger] s[k],
                ) by {
                    assert(word[k - (n - 1)] == s[k]);
                    assert(!is_foreign(list[place_of(list, word)][k - (n - 1)]));
                }
                lemma_overwritten_keeps(
                    s,
                    with_ends(s, t, list, ns, n - 1),
                    n - 1,
                    word.len() as int,
                    ns[place_of(list, word)],
                    None,
                );
            }
        }
    }
}

proof fn lemma_renamed_keeps(s: Seq<char>)
    ensures
        renamed(s) is Some ==> keeps_places(s, renamed(s)->0),
{
    let n = s.len() as int;
    if words(s, n).len() <= names(s).len() {
        lemma_names(s, all_letters().len() as int);
        lemma_openings_keep(s, names(s), n);
        lemma_ends_keep(s, with_openings(s, words(s, n), names(s), n), names(s), n);
    }
}

/// Whatever a source holds, the text that is parsed for it fits.
pub proof fn law_stand_in_fits(s: Seq<char>)
    ensures
        heredocs_surely_fit(stand_in(s)),
{
    let t = without_openings(s);
    assert forall|i: int| 0 <= i < t.len() - 1 implies !(#[trigger] t[i] == '<' && t[i + 1]
        == '<') by {}
    law_source_without_heredocs_fits(t);
}

/// What is parsed for a source differs from it in ASCII characters alone, each in the
/// same place.
pub proof fn law_stand_in_keeps_places(s: Seq<char>)
    ensures
        keeps_places(s, stand_in(s)),
{
    lemma_renamed_keeps(s);
}

proof fn lemma_foreign(c: char)
    ensures
        !is_foreign(c) <==> '\0' <= c <= '\u{7f}',
        !is_foreign(c) ==> encode_scalar(c as u32).len() == 1,
{
}

/// Texts that differ in ASCII characters alone have equally many bytes, and are ASCII
/// together or not at all.
pub proof fn law_places_are_bytes(s: Seq<char>, t: Seq<char>)
    requires
        keeps_places(s, t),
    ensures
        encode_utf8(t).len() == encode_utf8(s).len(),
        is_ascii_chars(t) <==> is_ascii_chars(s),
    decreases s.len(),
{
    if is_ascii_chars(t) {
        assert forall|i: int| 0 <= i < s.len() implies '\0' <= #[trigger] s[i] <= '\u{7f}' by {
            assert('\0' <= t[i] <= '\u{7f}');
            lemma_foreign(s[i]);
        }
    }
    if is_ascii_chars(s) {
        assert forall|i: int| 0 <= i < t.len() implies '\0' <= #[trigger] t[i] <= '\u{7f}' by {
            assert('\0' <= s[i] <= '\u{7f}');
            lemma_foreign(t[i]);
        }
    }
    if s.len() > 0 {
        let s1 = s.drop_first();
        let t1 = t.drop_first();
        assert forall|i: int| 0 <= i < s1.len() implies #[trigger] t1[i] == s1[i] || (!is_foreign(
            t1[i],
        ) && !is_foreign(s1[i])) by {
            assert(t[i + 1] == s[i + 1] || (!is_foreign(t[i + 1]) && !is_foreign(s[i + 1])));
        }
        law_places_are_bytes(s1, t1);
        lemma_foreign(s[0]);
        lemma_foreign(t[0]);
        assert(t[0] == s[0] || (!is_foreign(t[0]) && !is_foreign(s[0])));
    }
}

/// Every place in what is parsed for a source is at the same byte as in the source.
pub proof fn law_stand_in_keeps_bytes(s: Seq<char>, n: int)
    requires
        0 <= n <= s.len(),
    ensures
        encode_utf8(stand_in(s).take(n)).len() == encode_utf8(s.take(n)).len(),
{
    law_stand_in_keeps_places(s);
    let t = stand_in(s);
    assert forall|i: int| 0 <= i < n implies #[trigger] t.take(n)[i] == s.take(n)[i] || (
    !is_foreign(t.take(n)[i]) && !is_foreign(s.take(n)[i])) by {
        assert(t[i] == s[i] || (!is_foreign(t[i]) && !is_foreign(s[i])));
    }
    law_places_are_bytes(s.take(n), t.take(n));
}

/// The source with the words of its heredocs named, where there are names enough.
fn rename(chars: &Vec<char>) -> (r: Option<Vec<char>>)
    ensures
        match r {
            Some(t) => renamed(chars@) == Some(t@),
            None => renamed(chars@) is None,
        },
{
    let ghost s = chars@;
    let list = collect_words(chars);
    let ns = collect_names(chars);
    let ghost wl = word_views(list@);
    if list.len() > ns.len() {
        return None;
    }
    let mut t = copy_part(chars, 0, chars.len());
    let mut i: usize = 0;
    proof {
        assert(t@ =~= s);
        lemma_words(s, s.len() as int);
    }
    while i < chars.len()
        invariant
            s == chars@,
            wl == word_views(list@),
            wl == words(s, s.len() as int),
            list@.len() <= ns@.len(),
            forall|j: int|
                0 <= j < s.len() && (#[trigger] named_word(s, j)) is Some ==> wl.contains(
                    s.subrange(named_word(s, j)->0.start, named_word(s, j)->0.end),
                ),
            i <= s.len(),
            t@.len() == s.len(),
            t@ == with_openings(s, wl, ns@, i as int),
        decreases chars.len() - i,
    {
        proof {
            lemma_named_word(s, i as int);
        }
        match find_named_word(chars, i) {
            Some(place) => {
                proof {
                    lemma_place_of(wl, s.subrange(place.start as int, place.end as int));
                }
                let k = find_place(&list, chars, place.start, place.end);
                let mut width: usize = place.end - place.start;
                if place.quote.is_some() {
                    width = width + 1;
                }
                overwrite(&mut t, place.start, width, ns[k], place.quote);
            },
            None => {
                let lengths = word_lengths(chars, i);
                if lengths.len() > 0 {
                    proof {
                        assert(opens(s, i as int, lengths@[0] as int));
                    }
                    t.set(i + 1, '=');
                } else {
                    assert(!may_open(s, i as int));
                }
            },
        }
        i = i + 1;
    }
    let ghost opened = t@;
    i = 0;
    while i < chars.len()
        invariant
            s == chars@,
            wl == word_views(list@),
            list@.len() <= ns@.len(),
            i <= s.len(),
            t@.len() == s.len(),
            t@ == with_ends(s, opened, wl, ns@, i as int),
        decreases chars.len() - i,
    {
        if let Some(end) = find_line_text(chars, i) {
            let k = find_place(&list, chars, i, end);
            if k < list.len() {
                overwrite(&mut t, i, end - i, ns[k], None);
            }
        }
        i = i + 1;
    }
    Some(t)
}

/// A text with the given characters.
fn text_of_chars(chars: &Vec<char>) -> (r: String)
    ensures
        r@ == chars@,
{
    let mut text = String::new();
    let mut i: usize = 0;
    while i < chars.len()
        invariant
            i <= chars@.len(),
            text@ == chars@.take(i as int),
        decreases chars.len() - i,
    {
        text.push(chars[i]);
        i = i + 1;
        assert(text@ =~= chars@.take(i as int));
    }
    assert(chars@.take(i as int) =~= chars@);
    text
}

/// The source with a comparison in the place of every opening.
fn close_openings(chars: &Vec<char>) -> (r: Vec<char>)
    ensures
        r@ == without_openings(chars@),
{
    let mut t: Vec<char> = Vec::new();
    let mut i: usize = 0;
    while i < chars.len()
        invariant
            i <= chars@.len(),
            t@ == without_openings(chars@).take(i as int),
        decreases chars.len() - i,
    {
        if i > 0 && chars[i - 1] == '<' && chars[i] == '<' {
            t.push('=');
        } else {
            t.push(chars[i]);
        }
        i = i + 1;
        assert(t@ =~= without_openings(chars@).take(i as int));
    }
    assert(without_openings(chars@).take(i as int) =~= without_openings(chars@));
    t
}

/// The text to parse for a source; none where it is the source itself.
pub fn find_stand_in(source: &str) -> (r: Option<String>)
    ensures
        match r {
            Some(t) => !heredocs_surely_fit(source@) && stand_in(source@) == t@,
            None => heredocs_surely_fit(source@) && stand_in(source@) == source@,
        },
{
    if check_heredocs(source) {
        return None;
    }
    let chars = chars_of(source);
    if let Some(t) = rename(&chars) {
        let text = text_of_chars(&t);
        if check_heredocs(text.as_str()) {
            return Some(text);
        }
    }
    Some(text_of_chars(&close_openings(&chars)))
}

/// A source whose heredocs surely fit stands for itself. For any other the source with its
/// words named stands in where there are names enough and the heredocs then surely fit, and
/// else the source without openings.
pub proof fn law_what_stands_in(s: Seq<char>)
    ensures
        heredocs_surely_fit(s) ==> stand_in(s) == s,
        !heredocs_surely_fit(s) && renamed(s) is Some && heredocs_surely_fit(renamed(s)->0)
            ==> stand_in(s) == renamed(s)->0,
        !heredocs_surely_fit(s) && (renamed(s) is None || !heredocs_surely_fit(renamed(s)->0))
            ==> stand_in(s) == without_openings(s),
        renamed(s) is Some <==> words(s, s.len() as int).len() <= names(s).len(),
{
}

/// Of two signs that follow each other the second becomes a comparison, and every other
/// character stays.
pub proof fn law_openings_become_comparisons(s: Seq<char>, i: int)
    requires
        0 <= i < s.len(),
    ensures
        without_openings(s).len() == s.len(),
        i > 0 && s[i - 1] == '<' && s[i] == '<' ==> without_openings(s)[i] == '=',
        !(i > 0 && s[i - 1] == '<' && s[i] == '<') ==> without_openings(s)[i] == s[i],
{
}

/// The words that get names are those of the openings, each once.
pub proof fn law_words_of_the_openings(s: Seq<char>, n: int)
    requires
        0 <= n <= s.len(),
    ensures
        words(s, n).no_duplicates(),
        forall|w: Seq<char>| #[trigger]
            words(s, n).contains(w) <==> exists|i: int|
                0 <= i < n && (#[trigger] named_word(s, i)) is Some && w == s.subrange(
                    named_word(s, i)->0.start,
                    named_word(s, i)->0.end,
                ),
    decreases n,
{
    lemma_words(s, n);
    if n > 0 {
        law_words_of_the_openings(s, n - 1);
        let front = words(s, n - 1);
        let all = words(s, n);
        assert forall|i: int, j: int|
            0 <= i < all.len() && 0 <= j < all.len() && i != j implies all[i] != all[j] by {
            if i < front.len() {
                assert(all[i] == front[i]);
                assert(front.contains(front[i]));
            }
            if j < front.len() {
                assert(all[j] == front[j]);
                assert(front.contains(front[j]));
            }
        }
        assert forall|w: Seq<char>| #[trigger] all.contains(w) implies exists|i: int|
            0 <= i < n && (#[trigger] named_word(s, i)) is Some && w == s.subrange(
                named_word(s, i)->0.start,
                named_word(s, i)->0.end,
            ) by {
            let j = choose|j: int| 0 <= j < all.len() && all[j] == w;
            if j < front.len() {
                assert(front[j] == w);
                assert(front.contains(w));
                let i = choose|i: int|
                    0 <= i < n - 1 && (#[trigger] named_word(s, i)) is Some && w == s.subrange(
                        named_word(s, i)->0.start,
                        named_word(s, i)->0.end,
                    );
                assert(named_word(s, i) is Some);
            } else {
                assert(named_word(s, n - 1) is Some);
            }
        }
    }
}

/// The names are the letters with which no line could be taken for the end of a heredoc, in
/// the order of the alphabet, capitals first.
pub proof fn law_names_are_free_letters(s: Seq<char>)
    ensures
        names(s) == "ABCDEFGHIJKLMNOPQRSTUVWXYZabcdefghijklmnopqrstuvwxyz"@.filter(
            |c: char| is_free(s, c),
        ),
{
    let letters = all_letters();
    lemma_free_letters(s, letters, letters.len() as int);
    assert(letters.take(letters.len() as int) =~= letters);
}

proof fn lemma_free_letters(s: Seq<char>, letters: Seq<char>, n: int)
    requires
        0 <= n <= letters.len(),
    ensures
        free_letters(s, letters, n) == letters.take(n).filter(|c: char| is_free(s, c)),
    decreases n,
{
    reveal(Seq::filter);
    if n > 0 {
        lemma_free_letters(s, letters, n - 1);
        assert(letters.take(n).drop_last() =~= letters.take(n - 1));
        assert(letters.take(n).last() == letters[n - 1]);
    }
}

/// A letter is free if and only if every line with a text has in it something that is neither
/// blank nor the letter.
pub proof fn law_free_letter(s: Seq<char>, letter: char)
    ensures
        is_free(s, letter) <==> forall|i: int|
            (#[trigger] line_text(s, i)) is Some ==> exists|k: int|
                0 <= k < line_text(s, i)->0.len() && #[trigger] line_text(s, i)->0[k] != letter
                    && line_text(s, i)->0[k] != ' ' && line_text(s, i)->0[k] != '\t',
{
    if is_free(s, letter) {
        assert forall|i: int| (#[trigger] line_text(s, i)) is Some implies exists|k: int|
            0 <= k < line_text(s, i)->0.len() && #[trigger] line_text(s, i)->0[k] != letter
                && line_text(s, i)->0[k] != ' ' && line_text(s, i)->0[k] != '\t' by {
            assert(!letter_line(s, i, letter));
        }
    } else {
        let i = choose|i: int| #[trigger] letter_line(s, i, letter);
        assert(line_text(s, i) is Some);
    }
}

/// The text of a line is what stands in it without the blanks around it.
pub proof fn law_line_text(
    a: Seq<char>,
    lead: Seq<char>,
    text: Seq<char>,
    trail: Seq<char>,
    b: Seq<char>,
)
    requires
        a.len() > 0 ==> a[a.len() - 1] == '\n' || a[a.len() - 1] == '\r',
        forall|k: int| 0 <= k < lead.len() ==> #[trigger] lead[k] == ' ' || lead[k] == '\t',
        text.len() > 0,
        text[0] != ' ' && text[0] != '\t',
        text[text.len() - 1] != ' ' && text[text.len() - 1] != '\t',
        forall|k: int| 0 <= k < text.len() ==> #[trigger] text[k] != '\n' && text[k] != '\r',
        forall|k: int| 0 <= k < trail.len() ==> #[trigger] trail[k] == ' ' || trail[k] == '\t',
        b.len() > 0 ==> b[0] == '\n' || b[0] == '\r',
    ensures
        line_text(a + lead + text + trail + b, (a.len() + lead.len()) as int) == Some(text),
{
    let s = a + lead + text + trail + b;
    let i = (a.len() + lead.len()) as int;
    let t = i + text.len();
    let e = t + trail.len();
    assert forall|k: int| a.len() <= k < i implies is_blank(#[trigger] s[k]) by {
        assert(s[k] == lead[k - a.len()]);
    }
    if a.len() > 0 {
        assert(s[a.len() - 1] == a[a.len() - 1]);
    }
    lemma_starts_after_blanks(s, a.len() as int, i);
    assert forall|k: int| i <= k < e implies !is_break(#[trigger] s[k]) by {
        if k < t {
            assert(s[k] == text[k - i]);
        } else {
            assert(s[k] == trail[k - t]);
        }
    }
    if b.len() > 0 {
        assert(s[e] == b[0]);
    }
    lemma_line_end_is(s, i, e);
    assert forall|k: int| t <= k < e implies is_blank(#[trigger] s[k]) by {
        assert(s[k] == trail[k - t]);
    }
    assert(s[t - 1] == text[text.len() - 1]);
    assert(s[i] == text[0]);
    lemma_text_end_is(s, i, t, e);
    assert(s.subrange(i, t) =~= text);
}

proof fn lemma_starts_after_blanks(s: Seq<char>, from: int, i: int)
    requires
        0 <= from <= i <= s.len(),
        from > 0 ==> is_break(s[from - 1]),
        forall|k: int| from <= k < i ==> is_blank(#[trigger] s[k]),
    ensures
        starts_text(s, i),
    decreases i,
{
    if from < i {
        lemma_starts_after_blanks(s, from, i - 1);
        assert(is_blank(s[i - 1]));
    }
}

proof fn lemma_line_end_is(s: Seq<char>, i: int, e: int)
    requires
        0 <= i <= e <= s.len(),
        forall|k: int| i <= k < e ==> !is_break(#[trigger] s[k]),
        e < s.len() ==> is_break(s[e]),
    ensures
        line_end(s, i) == e,
    decreases e - i,
{
    if i < e {
        assert(!is_break(s[i]));
        lemma_line_end_is(s, i + 1, e);
    }
}

proof fn lemma_text_end_is(s: Seq<char>, from: int, t: int, e: int)
    requires
        0 <= from < t <= e <= s.len(),
        !is_blank(s[t - 1]),
        forall|k: int| t <= k < e ==> is_blank(#[trigger] s[k]),
    ensures
        text_end(s, from, e) == t,
    decreases e - t,
{
    if t < e {
        assert(is_blank(s[e - 1]));
        lemma_text_end_is(s, from, t, e - 1);
    }
}

/// Where a line has a text, the text stands there, in one line, and starts with no blank; and
/// two lines with texts do not meet.
pub proof fn law_line_texts_are_apart(s: Seq<char>, i: int, j: int)
    requires
        line_text(s, i) is Some,
        line_text(s, j) is Some,
        i < j,
    ensures
        0 <= i,
        0 < line_text(s, i)->0.len(),
        i + line_text(s, i)->0.len() <= j,
        j + line_text(s, j)->0.len() <= s.len(),
        s.subrange(i, i + line_text(s, i)->0.len()) == line_text(s, i)->0,
        forall|k: int|
            0 <= k < line_text(s, i)->0.len() ==> !is_break(#[trigger] line_text(s, i)->0[k]),
        !is_blank(line_text(s, i)->0[0]),
{
    lemma_line_text(s, i);
    lemma_line_text(s, j);
    lemma_line_end(s, i);
    lemma_text_end(s, i, line_end(s, i));
    lemma_no_break_before_end(s, i);
    assert(line_end(s, i) > i) by {
        lemma_line_end(s, i + 1);
    }
    lemma_text_starts(s, i, line_end(s, i));
    let w = line_text(s, i)->0;
    assert forall|k: int| 0 <= k < w.len() implies !is_break(#[trigger] w[k]) by {
        assert(w[k] == s[i + k]);
    }
    assert(s.subrange(i, i + w.len()) =~= w);
    if j < line_end(s, i) {
        lemma_one_start_in_a_line(s, i, j);
    }
    if j == line_end(s, i) {
        lemma_one_start_in_a_line(s, i, j);
    }
}

proof fn lemma_text_starts(s: Seq<char>, from: int, to: int)
    requires
        0 <= from < to <= s.len(),
        !is_blank(s[from]),
    ensures
        from < text_end(s, from, to),
    decreases to - from,
{
    if is_blank(s[to - 1]) {
        lemma_text_starts(s, from, to - 1);
    }
}

proof fn lemma_no_break_before_end(s: Seq<char>, i: int)
    requires
        0 <= i <= s.len(),
    ensures
        forall|k: int| i <= k < line_end(s, i) ==> !is_break(#[trigger] s[k]),
    decreases s.len() - i,
{
    if i < s.len() && !is_break(s[i]) {
        lemma_no_break_before_end(s, i + 1);
    }
}

proof fn lemma_one_start_in_a_line(s: Seq<char>, i: int, j: int)
    requires
        0 <= i < j <= s.len(),
        !is_blank(s[i]),
        forall|k: int| i <= k < j ==> !is_break(#[trigger] s[k]),
    ensures
        !starts_text(s, j),
    decreases j,
{
    assert(!is_break(s[j - 1]));
    if i < j - 1 {
        lemma_one_start_in_a_line(s, i, j - 1);
    }
}

/// What can be named is ASCII in one line that starts like a word, and is none of the words
/// that have a meaning of their own.
pub proof fn law_what_can_be_named(s: Seq<char>, from: int, to: int)
    ensures
        can_be_named(s, from, to) <==> {
            let word = s.subrange(from, to);
            &&& from < to
            &&& '0' <= s[from] <= '9' || 'a' <= s[from] <= 'z' || 'A' <= s[from] <= 'Z' || s[from]
                == '_'
            &&& forall|k: int|
                from <= k < to ==> #[trigger] s[k] <= '\u{7f}' && s[k] != '\n' && s[k] != '\r'
            &&& word != "end"@ && word != "else"@ && word != "begin"@ && word != "ensure"@
            &&& word != "rescue"@ && word != "do"@ && word != "then"@ && word != "__END__"@
        },
{
    if can_be_named(s, from, to) {
        assert(!is_foreign(s[from]));
        assert forall|k: int| from <= k < to implies #[trigger] s[k] <= '\u{7f}' && s[k] != '\n'
            && s[k] != '\r' by {
            assert(!is_foreign(s[k]) && !is_break(s[k]));
        }
    } else {
        if forall|k: int|
            from <= k < to ==> #[trigger] s[k] <= '\u{7f}' && s[k] != '\n' && s[k] != '\r' {
            assert forall|k: int| from <= k < to implies !is_foreign(#[trigger] s[k]) && !is_break(
                s[k],
            ) by {
                assert(s[k] <= '\u{7f}');
            }
        }
    }
}

/// A word gets the first place at which it stands in a list.
pub proof fn law_place_of(list: Seq<Seq<char>>, word: Seq<char>, i: int)
    requires
        0 <= i <= list.len(),
        i < list.len() ==> list[i] == word,
        forall|j: int| 0 <= j < i ==> #[trigger] list[j] != word,
    ensures
        place_of(list, word) == i,
{
    lemma_place_of(list, word);
    let p = place_of(list, word);
    if i < list.len() {
        assert(list.contains(list[i]));
    }
    if p < i {
        assert(list[p] != word);
    }
    if i < p && p < list.len() {
        lemma_nothing_before_place(list, word, i);
    }
    if i < p && p == list.len() {
        assert(list.contains(word));
    }
}

proof fn lemma_nothing_before_place(list: Seq<Seq<char>>, word: Seq<char>, i: int)
    requires
        0 <= i < place_of(list, word),
        i < list.len(),
    ensures
        list[i] != word,
    decreases list.len(),
{
    if i > 0 {
        lemma_nothing_before_place(list.skip(1), word, i - 1);
    }
}

/// A word of letters, digits and underscores that may open a heredoc gets a name in its own
/// place, unless it has a meaning of its own.
pub proof fn law_plain_word_is_named(
    a: Seq<char>,
    mark: Option<char>,
    word: Seq<char>,
    rest: Seq<char>,
)
    requires
        mark is Some ==> mark->0 == '-' || mark->0 == '~',
        word.len() > 0,
        forall|k: int|
            0 <= k < word.len() ==> '0' <= #[trigger] word[k] <= '9' || 'a' <= word[k] <= 'z'
                || 'A' <= word[k] <= 'Z' || word[k] == '_',
        rest.len() > 0 ==> !('0' <= rest[0] <= '9' || 'a' <= rest[0] <= 'z' || 'A' <= rest[0]
            <= 'Z' || rest[0] == '_' || rest[0] > '\u{7f}'),
        !is_reserved(word),
    ensures
        ({
            let signs = match mark {
                Some(m) => seq!['<', '<', m],
                None => seq!['<', '<'],
            };
            let start = (a.len() + signs.len()) as int;
            named_word(a + signs + word + rest, a.len() as int) == Some(
                WordPlace { start, end: start + word.len(), quote: None },
            )
        }),
{
    let signs = match mark {
        Some(m) => seq!['<', '<', m],
        None => seq!['<', '<'],
    };
    let s = a + signs + word + rest;
    let i = a.len() as int;
    let start = i + signs.len();
    assert(s[i] == '<' && s[i + 1] == '<');
    assert(s[start] == word[0]);
    if mark is Some {
        assert(s[i + 2] == mark->0);
    }
    assert(word_start(s, i) == start);
    assert forall|k: int| start <= k < start + word.len() implies is_word_char(#[trigger] s[k])
        && !is_foreign(s[k]) && !is_break(s[k]) by {
        assert(s[k] == word[k - start]);
    }
    if rest.len() > 0 {
        assert(s[start + word.len()] == rest[0]);
    }
    lemma_word_end_is(s, start, start + word.len());
    assert(s.subrange(start, start + word.len()) =~= word);
}

/// A word between quotes that may open a heredoc and stands alone in a line gets a name in its
/// own place, where it is ASCII in one line, starts like a word and has no meaning of its own.
pub proof fn law_quoted_word_is_named(
    a: Seq<char>,
    mark: Option<char>,
    quote: char,
    word: Seq<char>,
    rest: Seq<char>,
)
    requires
        mark is Some ==> mark->0 == '-' || mark->0 == '~',
        quote == '\'' || quote == '"' || quote == '`',
        word.len() > 0,
        !word.contains(quote),
        '0' <= word[0] <= '9' || 'a' <= word[0] <= 'z' || 'A' <= word[0] <= 'Z' || word[0] == '_',
        forall|k: int|
            0 <= k < word.len() ==> #[trigger] word[k] <= '\u{7f}' && word[k] != '\n' && word[k]
                != '\r',
        !is_reserved(word),
    ensures
        ({
            let signs = match mark {
                Some(m) => seq!['<', '<', m],
                None => seq!['<', '<'],
            };
            let s = a + signs + seq![quote] + word + seq![quote] + rest;
            let start = (a.len() + signs.len() + 1) as int;
            named_word(s, a.len() as int) == (if stands_alone(s, word) {
                Some(WordPlace { start, end: start + word.len(), quote: Some(quote) })
            } else {
                None
            })
        }),
{
    let signs = match mark {
        Some(m) => seq!['<', '<', m],
        None => seq!['<', '<'],
    };
    let s = a + signs + seq![quote] + word + seq![quote] + rest;
    let i = a.len() as int;
    let q = i + signs.len();
    assert(s[i] == '<' && s[i + 1] == '<');
    assert(s[q] == quote);
    if mark is Some {
        assert(s[i + 2] == mark->0);
    }
    assert(word_start(s, i) == q);
    let start = q + 1;
    assert forall|k: int| start <= k < start + word.len() implies #[trigger] s[k] != quote
        && !is_foreign(s[k]) && !is_break(s[k]) by {
        assert(s[k] == word[k - start]);
        assert(word.contains(word[k - start]));
    }
    assert(s[start + word.len()] == quote);
    lemma_quote_end_is(s, start, start + word.len(), quote);
    assert(s.subrange(start, start + word.len()) =~= word);
    assert(s[start] == word[0]);
}

proof fn lemma_openings_len(s: Seq<char>, list: Seq<Seq<char>>, ns: Seq<char>, n: int)
    ensures
        with_openings(s, list, ns, n).len() == s.len(),
    decreases n,
{
    if n > 0 {
        lemma_openings_len(s, list, ns, n - 1);
    }
}

proof fn lemma_ends_len(
    s: Seq<char>,
    t: Seq<char>,
    list: Seq<Seq<char>>,
    ns: Seq<char>,
    n: int,
)
    ensures
        with_ends(s, t, list, ns, n).len() == t.len(),
    decreases n,
{
    if n > 0 {
        lemma_ends_len(s, t, list, ns, n - 1);
    }
}

/// The position belongs to the word of the heredoc that may open at position `j`, or is that of
/// the second sign where the word gets no name.
pub open spec fn opening_covers(s: Seq<char>, j: int, p: int) -> bool {
    match named_word(s, j) {
        Some(place) => place.start <= p < place.start + place_width(place),
        None => may_open(s, j) && p == j + 1,
    }
}

/// The position belongs to a word that stands alone in the line whose text starts at position
/// `j`.
pub open spec fn end_covers(s: Seq<char>, j: int, p: int) -> bool {
    match line_text(s, j) {
        Some(word) => words(s, s.len() as int).contains(word) && j <= p < j + word.len(),
        None => false,
    }
}

proof fn lemma_opening_kept(s: Seq<char>, list: Seq<Seq<char>>, ns: Seq<char>, m: int, n: int, p: int)
    requires
        0 <= m <= n <= s.len(),
        0 <= p < s.len(),
        forall|j: int| m <= j < n ==> !#[trigger] opening_covers(s, j, p),
    ensures
        with_openings(s, list, ns, n)[p] == with_openings(s, list, ns, m)[p],
    decreases n,
{
    lemma_openings_len(s, list, ns, n);
    if m < n {
        lemma_opening_kept(s, list, ns, m, n - 1, p);
        lemma_openings_len(s, list, ns, n - 1);
        assert(!opening_covers(s, n - 1, p));
        if named_word(s, n - 1) is None && may_open(s, n - 1) {
            let length = choose|length: int| #[trigger] opens(s, n - 1, length);
            law_heredoc_opens_with_two_signs(s, n - 1, length);
        }
    }
}

proof fn lemma_end_kept(
    s: Seq<char>,
    t: Seq<char>,
    ns: Seq<char>,
    m: int,
    n: int,
    p: int,
)
    requires
        0 <= m <= n <= s.len(),
        0 <= p < s.len(),
        t.len() == s.len(),
        forall|j: int| m <= j < n ==> !#[trigger] end_covers(s, j, p),
    ensures
        with_ends(s, t, words(s, s.len() as int), ns, n)[p] == with_ends(
            s,
            t,
            words(s, s.len() as int),
            ns,
            m,
        )[p],
    decreases n,
{
    let list = words(s, s.len() as int);
    if m < n {
        lemma_end_kept(s, t, ns, m, n - 1, p);
        lemma_ends_len(s, t, list, ns, n - 1);
        assert(!end_covers(s, n - 1, p));
        if let Some(word) = line_text(s, n - 1) {
            lemma_place_of(list, word);
        }
    }
}

/// What belongs to no word that gets a name, and to no opening whose word gets none, stays as
/// it is.
pub proof fn law_other_places_are_kept(s: Seq<char>, p: int)
    requires
        renamed(s) is Some,
        0 <= p < s.len(),
        forall|j: int| 0 <= j < s.len() ==> !#[trigger] opening_covers(s, j, p),
        forall|j: int| 0 <= j < s.len() ==> !#[trigger] end_covers(s, j, p),
    ensures
        renamed(s)->0[p] == s[p],
{
    let n = s.len() as int;
    let list = words(s, n);
    lemma_opening_kept(s, list, names(s), 0, n, p);
    lemma_openings_len(s, list, names(s), n);
    lemma_end_kept(s, with_openings(s, list, names(s), n), names(s), 0, n, p);
}

/// A word that stands alone in a line and may open a heredoc is named there: the name of the
/// word stands in its place, and blanks fill the rest of it.
pub proof fn law_end_is_named(s: Seq<char>, i: int, k: int)
    requires
        renamed(s) is Some,
        line_text(s, i) is Some,
        words(s, s.len() as int).contains(line_text(s, i)->0),
        0 <= k < line_text(s, i)->0.len(),
    ensures
        k == 0 ==> renamed(s)->0[i] == names(s)[place_of(
            words(s, s.len() as int),
            line_text(s, i)->0,
        )],
        k > 0 ==> renamed(s)->0[i + k] == ' ',
{
    let n = s.len() as int;
    let list = words(s, n);
    let ns = names(s);
    let word = line_text(s, i)->0;
    let t = with_openings(s, list, ns, n);
    lemma_openings_len(s, list, ns, n);
    lemma_ends_len(s, t, list, ns, i);
    lemma_place_of(list, word);
    lemma_line_text(s, i);
    let p = i + k;
    assert(with_ends(s, t, list, ns, i + 1) == overwritten(
        with_ends(s, t, list, ns, i),
        i,
        word.len() as int,
        ns[place_of(list, word)],
        None,
    ));
    assert forall|j: int| i + 1 <= j < n implies !#[trigger] end_covers(s, j, p) by {
        if line_text(s, j) is Some {
            law_line_texts_are_apart(s, i, j);
        }
    }
    lemma_end_kept(s, t, ns, i + 1, n, p);
}

/// A word that opens a heredoc and gets a name is named in its place: the name, its closing
/// quote where it has one, and blanks for the rest of it, as far as nothing later takes the
/// same place.
pub proof fn law_opening_is_named(s: Seq<char>, i: int, p: int)
    requires
        renamed(s) is Some,
        0 <= i < s.len(),
        named_word(s, i) is Some,
        named_word(s, i)->0.start <= p < named_word(s, i)->0.start + place_width(
            named_word(s, i)->0,
        ),
        forall|j: int| i < j < s.len() ==> !#[trigger] opening_covers(s, j, p),
        forall|j: int| 0 <= j < s.len() ==> !#[trigger] end_covers(s, j, p),
    ensures
        ({
            let place = named_word(s, i)->0;
            let word = s.subrange(place.start, place.end);
            let t = renamed(s)->0;
            if p == place.start {
                t[p] == names(s)[place_of(words(s, s.len() as int), word)]
            } else if p == place.start + 1 && place.quote is Some {
                t[p] == place.quote->0
            } else {
                t[p] == ' '
            }
        }),
{
    let n = s.len() as int;
    let list = words(s, n);
    let ns = names(s);
    let place = named_word(s, i)->0;
    lemma_named_word(s, i);
    lemma_openings_len(s, list, ns, i);
    lemma_openings_len(s, list, ns, n);
    lemma_opening_kept(s, list, ns, i + 1, n, p);
    lemma_end_kept(s, with_openings(s, list, ns, n), ns, 0, n, p);
}

/// Where a heredoc may open whose word gets no name, a comparison takes the place of the
/// opening, as far as nothing later takes the same place.
pub proof fn law_other_opening_becomes_comparison(s: Seq<char>, i: int)
    requires
        renamed(s) is Some,
        0 <= i < s.len(),
        named_word(s, i) is None,
        may_open(s, i),
        forall|j: int| i < j < s.len() ==> !#[trigger] opening_covers(s, j, i + 1),
        forall|j: int| 0 <= j < s.len() ==> !#[trigger] end_covers(s, j, i + 1),
    ensures
        renamed(s)->0[i + 1] == '=',
{
    let n = s.len() as int;
    let list = words(s, n);
    let ns = names(s);
    let length = choose|length: int| #[trigger] opens(s, i, length);
    law_heredoc_opens_with_two_signs(s, i, length);
    lemma_openings_len(s, list, ns, i);
    lemma_openings_len(s, list, ns, n);
    lemma_opening_kept(s, list, ns, i + 1, n, i + 1);
    lemma_end_kept(s, with_openings(s, list, ns, n), ns, 0, n, i + 1);
}

/// A word that gets a name stands behind two signs and can be named. Where it has quotes they
/// stand around it, and it stands alone in a line; where it has none it ends where the word
/// ends.
pub proof fn law_named_word_can_be_named(s: Seq<char>, i: int)
    requires
        named_word(s, i) is Some,
    ensures
        ({
            let place = named_word(s, i)->0;
            &&& 0 <= i && i + 2 <= place.start <= i + 4 && place.start < place.end <= s.len()
            &&& s[i] == '<' && s[i + 1] == '<'
            &&& can_be_named(s, place.start, place.end)
            &&& place.quote is Some ==> {
                &&& place.quote->0 == '\'' || place.quote->0 == '"' || place.quote->0 == '`'
                &&& s[place.start - 1] == place.quote->0
                &&& place.end < s.len() && s[place.end] == place.quote->0
                &&& stands_alone(s, s.subrange(place.start, place.end))
            }
            &&& place.quote is None && place.end < s.len() ==> !is_word_char(s[place.end])
        }),
{
    let start = word_start(s, i);
    lemma_named_word(s, i);
    if start < s.len() && is_quote(s[start]) {
        lemma_quote_end(s, start + 1, s[start]);
    } else {
        lemma_word_ends(s, start);
    }
}

proof fn lemma_word_ends(s: Seq<char>, i: int)
    requires
        0 <= i <= s.len(),
    ensures
        i <= word_end(s, i) <= s.len(),
        word_end(s, i) < s.len() ==> !is_word_char(s[word_end(s, i)]),
    decreases s.len() - i,
{
    if i < s.len() && is_word_char(s[i]) {
        lemma_word_ends(s, i + 1);
    }
}

/// Between two positions there are only blanks.
pub open spec fn only_blanks(s: Seq<char>, from: int, to: int) -> bool {
    forall|k: int| from <= k < to ==> is_blank(#[trigger] s[k])
}

/// The text of a line has only blanks before it and behind it in its line, and neither starts
/// nor ends with one.
pub proof fn law_line_text_has_blanks_around(s: Seq<char>, i: int)
    requires
        line_text(s, i) is Some,
    ensures
        ({
            let text = line_text(s, i)->0;
            &&& 0 <= i && 0 < text.len() && i + text.len() <= s.len()
            &&& s.subrange(i, i + text.len()) == text
            &&& !is_blank(text[0]) && !is_blank(text[text.len() - 1])
            &&& forall|k: int| 0 <= k < text.len() ==> !is_break(#[trigger] text[k])
            &&& exists|from: int|
                0 <= from <= i && (from == 0 || is_break(s[from - 1])) && #[trigger] only_blanks(
                    s,
                    from,
                    i,
                )
            &&& exists|to: int|
                i + text.len() <= to <= s.len() && (to == s.len() || is_break(s[to]))
                    && #[trigger] only_blanks(s, i + text.len(), to)
        }),
{
    let end = line_end(s, i);
    let text = line_text(s, i)->0;
    lemma_line_text(s, i);
    lemma_line_end(s, i);
    lemma_line_end(s, i + 1);
    lemma_no_break_before_end(s, i);
    lemma_break_at_end(s, i);
    lemma_text_end(s, i, end);
    lemma_text_starts(s, i, end);
    lemma_blanks_behind(s, i, end);
    assert(s.subrange(i, i + text.len()) =~= text);
    assert forall|k: int| 0 <= k < text.len() implies !is_break(#[trigger] text[k]) by {
        assert(text[k] == s[i + k]);
    }
    let from = lemma_blanks_before(s, i);
    assert(only_blanks(s, from, i));
    assert(only_blanks(s, i + text.len(), end));
    assert(text[text.len() - 1] == s[i + text.len() - 1]);
}

proof fn lemma_break_at_end(s: Seq<char>, i: int)
    requires
        0 <= i <= s.len(),
    ensures
        line_end(s, i) < s.len() ==> is_break(s[line_end(s, i)]),
    decreases s.len() - i,
{
    if i < s.len() && !is_break(s[i]) {
        lemma_break_at_end(s, i + 1);
    }
}

proof fn lemma_blanks_behind(s: Seq<char>, from: int, to: int)
    requires
        0 <= from <= to <= s.len(),
    ensures
        forall|k: int| text_end(s, from, to) <= k < to ==> is_blank(#[trigger] s[k]),
        from < text_end(s, from, to) ==> !is_blank(s[text_end(s, from, to) - 1]),
    decreases to - from,
{
    if from < to && is_blank(s[to - 1]) {
        lemma_blanks_behind(s, from, to - 1);
    }
}

proof fn lemma_blanks_before(s: Seq<char>, i: int) -> (from: int)
    requires
        0 <= i <= s.len(),
        starts_text(s, i),
    ensures
        0 <= from <= i,
        from == 0 || is_break(s[from - 1]),
        forall|k: int| from <= k < i ==> is_blank(#[trigger] s[k]),
    decreases i,
{
    if i == 0 || is_break(s[i - 1]) {
        i
    } else {
        lemma_blanks_before(s, i - 1)
    }
}

} // verus!
