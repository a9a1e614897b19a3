//! Which texts fit a pattern.

use vstd::prelude::*;

use crate::dtype::TypeModel;
use crate::scalar::Value;
use crate::scalar_fn::{fits_pattern, small, small_text, FnModel, LikeOptions};

verus! {

/// Whether a pattern has no character with a meaning of its own.
pub open spec fn is_plain(pattern: Seq<char>) -> bool {
    forall|i: int|
        0 <= i < pattern.len() ==> (#[trigger] pattern[i]) != '%' && pattern[i] != '_' && pattern[i]
            != '\\'
}

/// Whether a pattern has no backslash.
pub open spec fn has_no_escape(pattern: Seq<char>) -> bool {
    forall|i: int| 0 <= i < pattern.len() ==> #[trigger] pattern[i] != '\\'
}

/// Whether each character of a text is the one of the pattern at its place, or the pattern has `_`
/// there.
pub open spec fn fits_places(pattern: Seq<char>, text: Seq<char>) -> bool {
    &&& pattern.len() == text.len()
    &&& forall|i: int|
        0 <= i < text.len() ==> (#[trigger] pattern[i]) == '_' || pattern[i] == text[i]
}

/// A pattern without `%` and backslash fits exactly the texts of its own length that agree with it at
/// every place where it does not have `_`.
pub proof fn law_places(pattern: Seq<char>, text: Seq<char>)
    requires
        has_no_escape(pattern),
        forall|i: int| 0 <= i < pattern.len() ==> #[trigger] pattern[i] != '%',
    ensures
        fits_pattern(pattern, text) <==> fits_places(pattern, text),
    decreases pattern.len(),
{
    if pattern.len() > 0 {
        assert(pattern[0] != '%' && pattern[0] != '\\');
        if text.len() > 0 {
            let (p, t) = (pattern.skip(1), text.skip(1));
            assert forall|i: int| 0 <= i < p.len() implies #[trigger] p[i] != '%' && p[i]
                != '\\' by {
                assert(p[i] == pattern[i + 1]);
            }
            law_places(p, t);
            if fits_places(pattern, text) {
                assert(pattern[0] == '_' || pattern[0] == text[0]);
                assert forall|i: int| 0 <= i < t.len() implies (#[trigger] p[i]) == '_' || p[i]
                    == t[i] by {
                    assert(p[i] == pattern[i + 1] && t[i] == text[i + 1]);
                }
            }
            if fits_pattern(pattern, text) {
                assert forall|i: int| 0 <= i < text.len() implies (#[trigger] pattern[i]) == '_'
                    || pattern[i] == text[i] by {
                    if i > 0 {
                        assert(p[i - 1] == pattern[i] && t[i - 1] == text[i]);
                    }
                }
            }
        }
    }
}

/// A plain pattern fits the text that it is, and no other.
pub proof fn law_plain_patterns(pattern: Seq<char>, text: Seq<char>)
    requires
        is_plain(pattern),
    ensures
        fits_pattern(pattern, text) <==> text == pattern,
{
    law_places(pattern, text);
    if fits_places(pattern, text) {
        assert forall|i: int| 0 <= i < text.len() implies text[i] == pattern[i] by {
            assert(pattern[i] != '_');
        }
        assert(text =~= pattern);
    }
}

/// Whether a text is something that fits `before`, then anything, then something that fits `behind`.
pub open spec fn fits_around(
    before: Seq<char>,
    behind: Seq<char>,
    text: Seq<char>,
    i: int,
    j: int,
) -> bool {
    &&& 0 <= i <= j <= text.len()
    &&& fits_pattern(before, text.take(i))
    &&& fits_pattern(behind, text.skip(j))
}

/// A `%` stands for any characters, and for none: a pattern with one fits exactly the texts that have
/// a part that fits what is before it and, further on, a rest that fits what is behind it.
pub proof fn law_any_characters(before: Seq<char>, behind: Seq<char>, text: Seq<char>)
    requires
        has_no_escape(before),
    ensures
        fits_pattern(before + seq!['%'] + behind, text) <==> exists|i: int, j: int|
            fits_around(before, behind, text, i, j),
    decreases before.len(), text.len(), 1int,
{
    let whole = before + seq!['%'] + behind;
    if before.len() == 0 {
        assert(whole[0] == '%');
        assert(whole.skip(1) =~= behind);
        if text.len() > 0 {
            law_any_characters(before, behind, text.skip(1));
        }
        if fits_pattern(behind, text) {
            assert(text.take(0) =~= Seq::empty());
            assert(text.skip(0) =~= text);
            assert(fits_around(before, behind, text, 0, 0));
        } else if text.len() > 0 && fits_pattern(whole, text.skip(1)) {
            let (i, j) = choose|i: int, j: int| fits_around(before, behind, text.skip(1), i, j);
            assert(text.take(0) =~= Seq::empty());
            assert(text.skip(1).skip(j) =~= text.skip(j + 1));
            assert(fits_around(before, behind, text, 0, j + 1));
        }
        if exists|i: int, j: int| fits_around(before, behind, text, i, j) {
            let (i, j) = choose|i: int, j: int| fits_around(before, behind, text, i, j);
            if j == 0 {
                assert(text.skip(0) =~= text);
            } else {
                let rest = text.skip(1);
                assert(rest.take(0) =~= Seq::empty());
                assert(rest.skip(j - 1) =~= text.skip(j));
                assert(fits_around(before, behind, rest, 0, j - 1));
            }
        }
    } else {
        let c = before[0];
        let tail = before.skip(1);
        assert(c != '\\');
        assert(whole[0] == c);
        assert(whole.skip(1) =~= tail + seq!['%'] + behind);
        assert forall|i: int| 0 <= i < tail.len() implies #[trigger] tail[i] != '\\' by {
            assert(tail[i] == before[i + 1]);
        }
        if c == '%' {
            lemma_any_first(before, behind, text);
        } else if text.len() == 0 {
            assert forall|i: int, j: int| !fits_around(before, behind, text, i, j) by {
                if fits_around(before, behind, text, i, j) {
                    assert(text.take(i).len() == 0);
                }
            }
        } else {
            let rest = text.skip(1);
            law_any_characters(tail, behind, rest);
            if fits_pattern(whole, text) {
                let (i, j) = choose|i: int, j: int| fits_around(tail, behind, rest, i, j);
                assert(text.take(i + 1)[0] == text[0]);
                assert(text.take(i + 1).skip(1) =~= rest.take(i));
                assert(text.skip(j + 1) =~= rest.skip(j));
                assert(fits_around(before, behind, text, i + 1, j + 1));
            }
            if exists|i: int, j: int| fits_around(before, behind, text, i, j) {
                let (i, j) = choose|i: int, j: int| fits_around(before, behind, text, i, j);
                assert(i > 0);
                assert(text.take(i)[0] == text[0]);
                assert(text.take(i).skip(1) =~= rest.take(i - 1));
                assert(text.skip(j) =~= rest.skip(j - 1));
                assert(fits_around(tail, behind, rest, i - 1, j - 1));
            }
        }
    }
}

/// The part of [`law_any_characters`] in which what is before the `%` starts with one itself.
proof fn lemma_any_first(before: Seq<char>, behind: Seq<char>, text: Seq<char>)
    requires
        has_no_escape(before),
        before.len() > 0,
        before[0] == '%',
    ensures
        fits_pattern(before + seq!['%'] + behind, text) <==> exists|i: int, j: int|
            fits_around(before, behind, text, i, j),
    decreases before.len(), text.len(), 0int,
{
    let whole = before + seq!['%'] + behind;
    let tail = before.skip(1);
    assert(whole[0] == '%');
    assert(whole.skip(1) =~= tail + seq!['%'] + behind);
    assert forall|i: int| 0 <= i < tail.len() implies #[trigger] tail[i] != '\\' by {
        assert(tail[i] == before[i + 1]);
    }
    law_any_characters(tail, behind, text);
    let rest = text.skip(1);
    if text.len() > 0 {
        lemma_any_first(before, behind, rest);
    }
    if fits_pattern(tail + seq!['%'] + behind, text) {
        let (i, j) = choose|i: int, j: int| fits_around(tail, behind, text, i, j);
        assert(fits_around(before, behind, text, i, j));
    } else if text.len() > 0 && fits_pattern(whole, rest) {
        let (i, j) = choose|i: int, j: int| fits_around(before, behind, rest, i, j);
        assert(text.take(i + 1).skip(1) =~= rest.take(i));
        assert(text.skip(j + 1) =~= rest.skip(j));
        assert(fits_around(before, behind, text, i + 1, j + 1));
    }
    if exists|i: int, j: int| fits_around(before, behind, text, i, j) {
        let (i, j) = choose|i: int, j: int| fits_around(before, behind, text, i, j);
        if fits_pattern(tail, text.take(i)) {
            assert(fits_around(tail, behind, text, i, j));
        } else {
            assert(i > 0);
            assert(text.take(i).skip(1) =~= rest.take(i - 1));
            assert(text.skip(j) =~= rest.skip(j - 1));
            assert(fits_around(before, behind, rest, i - 1, j - 1));
        }
    }
}

/// A plain pattern with `%` behind it fits exactly the texts that start with it, with `%` before it
/// those that end with it, and with `%` on both sides those that hold it.
pub proof fn law_prefixes_and_suffixes(part: Seq<char>, text: Seq<char>)
    requires
        is_plain(part),
    ensures
        fits_pattern(part + seq!['%'], text) <==> part.len() <= text.len() && text.take(
            part.len() as int,
        ) == part,
        fits_pattern(seq!['%'] + part, text) <==> part.len() <= text.len() && text.skip(
            text.len() - part.len(),
        ) == part,
        fits_pattern(seq!['%'] + part + seq!['%'], text) <==> exists|i: int|
            0 <= i <= text.len() - part.len() && #[trigger] text.skip(i).take(part.len() as int)
                == part,
        fits_pattern(seq!['%'], text),
{
    let none = Seq::<char>::empty();
    let n = part.len() as int;
    let len = text.len() as int;
    assert(part + seq!['%'] =~= part + seq!['%'] + none);
    assert(seq!['%'] + part =~= none + seq!['%'] + part);
    assert(seq!['%'] =~= none + seq!['%'] + none);
    assert(text.skip(len) =~= none);
    assert(text.take(0) =~= none);
    law_any_characters(part, none, text);
    law_any_characters(none, part, text);
    law_any_characters(none, none, text);
    assert(fits_around(none, none, text, 0, len));
    if exists|i: int, j: int| fits_around(part, none, text, i, j) {
        let (i, j) = choose|i: int, j: int| fits_around(part, none, text, i, j);
        law_plain_patterns(part, text.take(i));
    }
    if n <= len && text.take(n) == part {
        law_plain_patterns(part, text.take(n));
        assert(fits_around(part, none, text, n, len));
    }
    if exists|i: int, j: int| fits_around(none, part, text, i, j) {
        let (i, j) = choose|i: int, j: int| fits_around(none, part, text, i, j);
        law_plain_patterns(part, text.skip(j));
    }
    if n <= len && text.skip(len - n) == part {
        law_plain_patterns(part, text.skip(len - n));
        assert(fits_around(none, part, text, 0, len - n));
    }
    lemma_held(part, text);
}

/// A plain pattern with `%` on both sides fits exactly the texts that hold it.
proof fn lemma_held(part: Seq<char>, text: Seq<char>)
    requires
        is_plain(part),
    ensures
        fits_pattern(seq!['%'] + part + seq!['%'], text) <==> exists|i: int|
            0 <= i <= text.len() - part.len() && #[trigger] text.skip(i).take(part.len() as int)
                == part,
{
    let none = Seq::<char>::empty();
    let n = part.len() as int;
    let behind = part + seq!['%'];
    assert(seq!['%'] + part + seq!['%'] =~= none + seq!['%'] + behind);
    assert(behind =~= part + seq!['%'] + none);
    assert(text.take(0) =~= none);
    law_any_characters(none, behind, text);
    if exists|i: int, j: int| fits_around(none, behind, text, i, j) {
        let (i, j) = choose|i: int, j: int| fits_around(none, behind, text, i, j);
        law_any_characters(part, none, text.skip(j));
        let (k, l) = choose|k: int, l: int| fits_around(part, none, text.skip(j), k, l);
        law_plain_patterns(part, text.skip(j).take(k));
        assert(text.skip(j).take(n) == part);
    }
    if exists|i: int|
        0 <= i <= text.len() - part.len() && #[trigger] text.skip(i).take(part.len() as int)
            == part {
        let i = choose|i: int|
            0 <= i <= text.len() - part.len() && #[trigger] text.skip(i).take(part.len() as int)
                == part;
        let rest = text.skip(i);
        law_any_characters(part, none, rest);
        law_plain_patterns(part, rest.take(n));
        assert(rest.skip(rest.len() as int) =~= none);
        assert(fits_around(part, none, rest, n, rest.len() as int));
        assert(fits_around(none, behind, text, 0, i));
    }
}

/// A backslash stands for the character behind it, even where that has a meaning of its own, and at
/// the end of a pattern for itself.
pub proof fn law_escapes(c: char, rest: Seq<char>, text: Seq<char>)
    ensures
        fits_pattern(seq!['\\', c] + rest, text) <==> text.len() > 0 && text[0] == c
            && fits_pattern(rest, text.skip(1)),
        fits_pattern(seq!['\\'], text) <==> text == seq!['\\'],
{
    let pattern = seq!['\\', c] + rest;
    assert(pattern[0] == '\\' && pattern[1] == c);
    assert(pattern.skip(2) =~= rest);
    let lone = seq!['\\'];
    assert(lone.skip(1) =~= Seq::empty());
    if text.len() > 0 {
        assert(fits_pattern(lone, text) == (text[0] == '\\' && fits_pattern(
            lone.skip(1),
            text.skip(1),
        )));
        assert(fits_pattern(lone.skip(1), text.skip(1)) == (text.skip(1).len() == 0));
    }
    if fits_pattern(lone, text) {
        assert(text =~= lone);
    }
}

/// A character without a meaning of its own stands for itself, and `_` for any one character,
/// whatever follows in the pattern. The empty pattern fits the empty text only.
pub proof fn law_single_characters(c: char, rest: Seq<char>, text: Seq<char>)
    requires
        c != '%' && c != '_' && c != '\\',
    ensures
        fits_pattern(seq![c] + rest, text) <==> text.len() > 0 && text[0] == c && fits_pattern(
            rest,
            text.skip(1),
        ),
        fits_pattern(seq!['_'] + rest, text) <==> text.len() > 0 && fits_pattern(
            rest,
            text.skip(1),
        ),
        fits_pattern(Seq::empty(), text) <==> text.len() == 0,
{
    assert((seq![c] + rest)[0] == c);
    assert((seq![c] + rest).skip(1) =~= rest);
    assert((seq!['_'] + rest)[0] == '_');
    assert((seq!['_'] + rest).skip(1) =~= rest);
}

/// What matching a text against a pattern gives.
pub open spec fn matches(options: LikeOptions, text: Seq<char>, pattern: Seq<char>) -> bool {
    FnModel::Like(options).row(
        TypeModel::Null,
        seq![Value::Text(text), Value::Text(pattern)],
    ) == Some(Value::Bool(true))
}

/// Without options a match is a fit, and the negated match of a text is the opposite of its match.
pub proof fn law_negated_matches(case_insensitive: bool, text: Seq<char>, pattern: Seq<char>)
    ensures
        matches(
            LikeOptions { negated: false, case_insensitive: false },
            text,
            pattern,
        ) <==> fits_pattern(pattern, text),
        matches(LikeOptions { negated: true, case_insensitive }, text, pattern) == !matches(
            LikeOptions { negated: false, case_insensitive },
            text,
            pattern,
        ),
{
}

/// Whether two characters are the same, or the same ASCII letter in two cases.
pub open spec fn same_letter(a: char, b: char) -> bool {
    ||| a == b
    ||| 'A' <= a && a <= 'Z' && b as int == a as int + 32
    ||| 'A' <= b && b <= 'Z' && a as int == b as int + 32
}

/// Whether two texts differ in the case of ASCII letters at most.
pub open spec fn same_letters(s: Seq<char>, t: Seq<char>) -> bool {
    &&& s.len() == t.len()
    &&& forall|i: int| 0 <= i < s.len() ==> same_letter(#[trigger] s[i], t[i])
}

proof fn lemma_small(a: char, b: char)
    ensures
        small(a) == small(b) <==> same_letter(a, b),
        small(a) == '%' <==> a == '%',
        small(a) == '_' <==> a == '_',
        small(a) == '\\' <==> a == '\\',
{
}

/// Where case does not count, a plain pattern matches exactly the texts that differ from it in the
/// case of ASCII letters at most.
pub proof fn law_case_insensitive_matches(text: Seq<char>, pattern: Seq<char>)
    requires
        is_plain(pattern),
    ensures
        matches(
            LikeOptions { negated: false, case_insensitive: true },
            text,
            pattern,
        ) <==> same_letters(text, pattern),
{
    let (t, p) = (small_text(text), small_text(pattern));
    assert forall|i: int| 0 <= i < p.len() implies (#[trigger] p[i]) != '%' && p[i] != '_' && p[i]
        != '\\' by {
        lemma_small(pattern[i], pattern[i]);
        assert(pattern[i] != '%' && pattern[i] != '_' && pattern[i] != '\\');
    }
    law_plain_patterns(p, t);
    if same_letters(text, pattern) {
        assert forall|i: int| 0 <= i < t.len() implies t[i] == p[i] by {
            lemma_small(text[i], pattern[i]);
            assert(same_letter(text[i], pattern[i]));
        }
        assert(t =~= p);
    }
    if t == p {
        assert(t.len() == p.len());
        assert forall|i: int| 0 <= i < text.len() implies same_letter(
            #[trigger] text[i],
            pattern[i],
        ) by {
            lemma_small(text[i], pattern[i]);
            assert(t[i] == p[i]);
        }
    }
}

/// Where case does not count, changing the case of ASCII letters in the text or in the pattern
/// changes no match.
pub proof fn law_case_does_not_count(
    negated: bool,
    text: Seq<char>,
    pattern: Seq<char>,
    other_text: Seq<char>,
    other_pattern: Seq<char>,
)
    requires
        same_letters(text, other_text),
        same_letters(pattern, other_pattern),
    ensures
        matches(LikeOptions { negated, case_insensitive: true }, text, pattern) == matches(
            LikeOptions { negated, case_insensitive: true },
            other_text,
            other_pattern,
        ),
{
    assert forall|i: int| 0 <= i < text.len() implies small_text(text)[i] == small_text(
        other_text,
    )[i] by {
        assert(same_letter(text[i], other_text[i]));
        lemma_small(text[i], other_text[i]);
    }
    assert(small_text(text) =~= small_text(other_text));
    assert forall|i: int| 0 <= i < pattern.len() implies small_text(pattern)[i] == small_text(
        other_pattern,
    )[i] by {
        assert(same_letter(pattern[i], other_pattern[i]));
        lemma_small(pattern[i], other_pattern[i]);
    }
    assert(small_text(pattern) =~= small_text(other_pattern));
}

/// Where there is no ASCII capital in the text or in the pattern, it makes no difference whether case
/// counts.
pub proof fn law_small_letters_match_alike(negated: bool, text: Seq<char>, pattern: Seq<char>)
    requires
        forall|i: int| 0 <= i < text.len() ==> !('A' <= #[trigger] text[i] && text[i] <= 'Z'),
        forall|i: int|
            0 <= i < pattern.len() ==> !('A' <= #[trigger] pattern[i] && pattern[i] <= 'Z'),
    ensures
        matches(LikeOptions { negated, case_insensitive: true }, text, pattern) == matches(
            LikeOptions { negated, case_insensitive: false },
            text,
            pattern,
        ),
{
    assert(small_text(text) =~= text);
    assert(small_text(pattern) =~= pattern);
}

} // verus!
