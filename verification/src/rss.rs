//! How much memory the process holds, from what the operating system says.

use vstd::prelude::*;

verus! {

/// Whether `c` is white space: the characters with the Unicode property
/// `White_Space`.
pub open spec fn is_white_space(c: char) -> bool {
    ||| '\u{9}' <= c <= '\u{d}'
    ||| c == ' '
    ||| c == '\u{85}'
    ||| c == '\u{a0}'
    ||| c == '\u{1680}'
    ||| '\u{2000}' <= c <= '\u{200a}'
    ||| c == '\u{2028}'
    ||| c == '\u{2029}'
    ||| c == '\u{202f}'
    ||| c == '\u{205f}'
    ||| c == '\u{3000}'
}

/// How many characters at the start of `text` come before any white space.
pub open spec fn word_len(text: Seq<char>) -> nat
    decreases text.len(),
{
    if text.len() == 0 || is_white_space(text[0]) {
        0
    } else {
        1 + word_len(text.skip(1))
    }
}

/// The words of `text`: its longest parts without white space, in order.
pub open spec fn words(text: Seq<char>) -> Seq<Seq<char>>
    decreases text.len(),
    via words_decreases
{
    if text.len() == 0 {
        Seq::empty()
    } else if is_white_space(text[0]) {
        words(text.skip(1))
    } else {
        seq![text.take(word_len(text) as int)] + words(text.skip(word_len(text) as int))
    }
}

/// The number of resident pages in the contents of `/proc/self/statm`: its
/// second word, where that is a number.
pub open spec fn resident_pages(statm: Seq<char>) -> Option<u64> {
    if words(statm).len() > 1 {
        crate::text::parsed_u64(words(statm)[1])
    } else {
        None
    }
}

/// Whether `c` is white space.
pub fn char_is_white_space(c: char) -> (white: bool)
    ensures
        white == is_white_space(c),
{
    ('\u{9}' <= c && c <= '\u{d}') || c == ' ' || c == '\u{85}' || c == '\u{a0}' || c == '\u{1680}'
        || ('\u{2000}' <= c && c <= '\u{200a}') || c == '\u{2028}' || c == '\u{2029}' || c
        == '\u{202f}' || c == '\u{205f}' || c == '\u{3000}'
}

proof fn lemma_word_len(text: Seq<char>)
    ensures
        word_len(text) <= text.len(),
        text.len() > 0 && !is_white_space(text[0]) ==> word_len(text) > 0,
    decreases text.len(),
{
    if text.len() > 0 && !is_white_space(text[0]) {
        lemma_word_len(text.skip(1));
    }
}

#[via_fn]
proof fn words_decreases(text: Seq<char>) {
    lemma_word_len(text);
}

/// The end of the word that starts at `start`.
fn word_end(text: &[char], start: usize) -> (end: usize)
    requires
        start <= text@.len(),
    ensures
        end == start + word_len(text@.skip(start as int)),
        end <= text@.len(),
{
    let mut end: usize = start;
    while end < text.len() && !char_is_white_space(text[end])
        invariant
            start <= end <= text@.len(),
            word_len(text@.skip(start as int)) == end - start + word_len(text@.skip(end as int)),
        decreases text.len() - end,
    {
        assert(text@.skip(end as int).skip(1) =~= text@.skip(end + 1));
        end = end + 1;
    }
    end
}

/// Splits `text` at its white space.
pub fn split_words(text: &[char]) -> (found: Vec<Vec<char>>)
    ensures
        found.deep_view() == words(text@),
{
    let mut found: Vec<Vec<char>> = Vec::new();
    let mut i: usize = 0;
    assert(text@.skip(0) =~= text@);
    assert(found.deep_view() =~= Seq::<Seq<char>>::empty());
    while i < text.len()
        invariant
            i <= text@.len(),
            words(text@) =~= found.deep_view() + words(text@.skip(i as int)),
        decreases text.len() - i,
    {
        let ghost rest = text@.skip(i as int);
        if char_is_white_space(text[i]) {
            assert(rest.skip(1) =~= text@.skip(i + 1));
            i = i + 1;
        } else {
            let end: usize = word_end(text, i);
            let mut word: Vec<char> = Vec::new();
            let mut j: usize = i;
            while j < end
                invariant
                    i <= j <= end <= text@.len(),
                    word@ == text@.subrange(i as int, j as int),
                decreases end - j,
            {
                word.push(text[j]);
                j = j + 1;
            }
            let ghost before = found.deep_view();
            let ghost word_chars = word@;
            found.push(word);
            proof {
                lemma_word_len(rest);
                assert(rest.take(word_len(rest) as int) =~= word_chars);
                assert(rest.skip(word_len(rest) as int) =~= text@.skip(end as int));
                assert(word.deep_view() =~= word_chars);
                assert(found.deep_view() =~= before.push(word_chars));
            }
            i = end;
        }
    }
    found
}

/// Reads the number of resident pages out of the contents of
/// `/proc/self/statm`.
pub fn statm_resident_pages(statm: &str) -> (pages: Option<u64>)
    ensures
        pages == resident_pages(statm@),
{
    let chars = crate::text::chars_of(statm);
    let found = split_words(chars.as_slice());
    assert(found.deep_view().len() == found@.len());
    if found.len() > 1 {
        assert(found.deep_view()[1] =~= found@[1]@);
        crate::text::parse_u64(found[1].as_slice())
    } else {
        None
    }
}

/// The resident memory in kilobytes by the contents of `/proc/self/statm`
/// (`None` where the file cannot be read), or 0 where they do not say. A page
/// of memory has `page_kb` kilobytes.
pub fn get_rss_kb(statm: Option<&str>, page_kb: u64) -> (kb: u64)
    requires
        statm is Some && resident_pages(statm->0@) is Some ==> resident_pages(statm->0@)->0
            * page_kb <= u64::MAX,
    ensures
        kb == match statm {
            Some(text) => match resident_pages(text@) {
                Some(pages) => pages * page_kb,
                None => 0,
            },
            None => 0,
        },
{
    match statm {
        Some(text) => match statm_resident_pages(text) {
            Some(pages) => pages * page_kb,
            None => 0,
        },
        None => 0,
    }
}

/// The resident memory in kilobytes where the operating system gives it in
/// bytes, or 0 where it does not (`None`).
pub fn resident_kb(resident_bytes: Option<u64>) -> (kb: u64)
    ensures
        kb == match resident_bytes {
            Some(bytes) => bytes / 1024,
            None => 0,
        },
{
    match resident_bytes {
        Some(bytes) => bytes / 1024,
        None => 0,
    }
}

/// Whether `text` is white space throughout.
pub open spec fn is_blank(text: Seq<char>) -> bool {
    forall|i: int| 0 <= i < text.len() ==> is_white_space(#[trigger] text[i])
}

/// Whether `text` is a word: not empty, and without white space.
pub open spec fn is_word(text: Seq<char>) -> bool {
    text.len() > 0 && forall|i: int| 0 <= i < text.len() ==> !is_white_space(#[trigger] text[i])
}

/// Whether a word that stands before `text` ends there.
pub open spec fn ends_word(text: Seq<char>) -> bool {
    text.len() > 0 ==> is_white_space(text[0])
}

/// White space before a text makes no difference to its words, and by itself it
/// has none.
pub proof fn lemma_blanks_are_no_words(blank: Seq<char>, rest: Seq<char>)
    requires
        is_blank(blank),
    ensures
        words(blank + rest) == words(rest),
        words(blank) == Seq::<Seq<char>>::empty(),
    decreases blank.len(),
{
    if blank.len() > 0 {
        let shorter = blank.skip(1);
        assert forall|i: int| 0 <= i < shorter.len() implies is_white_space(
            #[trigger] shorter[i],
        ) by {
            assert(is_white_space(blank[i + 1]));
        }
        lemma_blanks_are_no_words(shorter, rest);
        assert(is_white_space(blank[0]));
        assert((blank + rest)[0] == blank[0]);
        assert((blank + rest).skip(1) =~= shorter + rest);
    } else {
        assert(blank + rest =~= rest);
    }
}

proof fn lemma_word_len_of(word: Seq<char>, rest: Seq<char>)
    requires
        forall|i: int| 0 <= i < word.len() ==> !is_white_space(#[trigger] word[i]),
        ends_word(rest),
    ensures
        word_len(word + rest) == word.len(),
    decreases word.len(),
{
    let text = word + rest;
    if word.len() > 0 {
        let shorter = word.skip(1);
        assert forall|i: int| 0 <= i < shorter.len() implies !is_white_space(
            #[trigger] shorter[i],
        ) by {
            assert(!is_white_space(word[i + 1]));
        }
        lemma_word_len_of(shorter, rest);
        assert(!is_white_space(word[0]));
        assert(text[0] == word[0]);
        assert(text.skip(1) =~= shorter + rest);
    } else {
        assert(text =~= rest);
    }
}

/// A word at the start of a text is the first of its words, and the others are
/// those of what comes after.
pub proof fn lemma_word_comes_first(word: Seq<char>, rest: Seq<char>)
    requires
        is_word(word),
        ends_word(rest),
    ensures
        words(word + rest) == seq![word] + words(rest),
{
    let text = word + rest;
    lemma_word_len_of(word, rest);
    assert(!is_white_space(word[0]));
    assert(text[0] == word[0]);
    assert(text.take(word.len() as int) =~= word);
    assert(text.skip(word.len() as int) =~= rest);
}

/// The resident pages depend on the second word alone: whatever the first word
/// is, whatever white space stands around them, and whatever comes after.
pub proof fn lemma_pages_are_the_second_word(
    lead: Seq<char>,
    first: Seq<char>,
    gap: Seq<char>,
    second: Seq<char>,
    rest: Seq<char>,
)
    requires
        is_blank(lead),
        is_word(first),
        is_blank(gap),
        gap.len() > 0,
        is_word(second),
        ends_word(rest),
    ensures
        resident_pages(lead + first + gap + second + rest) == crate::text::parsed_u64(second),
{
    let from_second = second + rest;
    let from_gap = gap + from_second;
    let from_first = first + from_gap;
    assert(lead + first + gap + second + rest =~= lead + from_first);
    lemma_blanks_are_no_words(lead, from_first);
    assert(is_white_space(gap[0]));
    assert(from_gap[0] == gap[0]);
    lemma_word_comes_first(first, from_gap);
    lemma_blanks_are_no_words(gap, from_second);
    lemma_word_comes_first(second, rest);
    assert(words(lead + from_first) =~= seq![first] + (seq![second] + words(rest)));
}

/// Where the second word is a number in decimal notation, that is the number of
/// resident pages, whatever the first word is and whatever comes after.
pub proof fn lemma_pages_are_read(first: Seq<char>, pages: u64, rest: Seq<char>)
    requires
        is_word(first),
    ensures
        resident_pages(
            first + seq![' '] + crate::text::decimal(pages as nat) + (seq![' '] + rest),
        ) == Some(pages),
        resident_pages(first + seq![' '] + crate::text::decimal(pages as nat)) == Some(pages),
{
    let second = crate::text::decimal(pages as nat);
    let none = Seq::<char>::empty();
    crate::text::lemma_decimal_places(pages as nat);
    crate::text::lemma_decimal_is_distinct(pages as nat, pages as nat);
    crate::text::lemma_parse_reads_decimal(pages);
    assert forall|i: int| 0 <= i < second.len() implies !is_white_space(#[trigger] second[i]) by {
        assert(crate::text::is_digit(second[i]));
    }
    lemma_pages_are_the_second_word(none, first, seq![' '], second, seq![' '] + rest);
    lemma_pages_are_the_second_word(none, first, seq![' '], second, none);
    assert(none + first + seq![' '] + second + (seq![' '] + rest) =~= first + seq![' '] + second + (
    seq![' '] + rest));
    assert(none + first + seq![' '] + second + none =~= first + seq![' '] + second);
}

/// Where there is no second word, there is no number of pages.
pub proof fn lemma_no_pages_without_second_word(
    lead: Seq<char>,
    first: Seq<char>,
    rest: Seq<char>,
)
    requires
        is_blank(lead),
        is_word(first),
        is_blank(rest),
    ensures
        resident_pages(lead + first + rest) is None,
        resident_pages(lead) is None,
{
    assert(lead + first + rest =~= lead + (first + rest));
    lemma_blanks_are_no_words(lead, first + rest);
    lemma_blanks_are_no_words(rest, Seq::empty());
    if rest.len() > 0 {
        assert(is_white_space(rest[0]));
    }
    lemma_word_comes_first(first, rest);
    assert(words(lead + (first + rest)).len() == 1);
}

} // verus!
