//! Character-level building blocks shared by the parsers: white space,
//! trimming, searching and splitting over sequences of `char`.
//!
//! The executable functions work on a buffer of characters and on index
//! ranges into it, so that no intermediate text is allocated; each contract
//! relates the returned indices to a function on `Seq<char>`.

use vstd::prelude::*;

verus! {

/// The Unicode `White_Space` property, as a predicate on scalar values.
pub open spec fn is_whitespace(c: char) -> bool {
    let n = c as u32;
    ||| 0x09 <= n <= 0x0D
    ||| n == 0x20
    ||| n == 0x85
    ||| n == 0xA0
    ||| n == 0x1680
    ||| 0x2000 <= n <= 0x200A
    ||| n == 0x2028
    ||| n == 0x2029
    ||| n == 0x202F
    ||| n == 0x205F
    ||| n == 0x3000
}

/// `s` without its leading white space.
pub open spec fn trim_start(s: Seq<char>) -> Seq<char>
    decreases s.len(),
{
    if s.len() > 0 && is_whitespace(s.first()) {
        trim_start(s.drop_first())
    } else {
        s
    }
}

/// `s` without its trailing white space.
pub open spec fn trim_end(s: Seq<char>) -> Seq<char>
    decreases s.len(),
{
    if s.len() > 0 && is_whitespace(s.last()) {
        trim_end(s.drop_last())
    } else {
        s
    }
}

/// `s` without the white space at either end.
pub open spec fn trim(s: Seq<char>) -> Seq<char> {
    trim_end(trim_start(s))
}

/// Every character of `s` is white space.
pub open spec fn all_whitespace(s: Seq<char>) -> bool {
    forall|i: int| 0 <= i < s.len() ==> is_whitespace(#[trigger] s[i])
}

/// The pieces of `s` between occurrences of `sep`, in order. A text without
/// `sep` is one piece; `n` separators always give `n + 1` pieces, some of
/// which may be empty.
pub open spec fn split(s: Seq<char>, sep: char) -> Seq<Seq<char>>
    decreases s.len(),
{
    if s.len() == 0 {
        seq![Seq::<char>::empty()]
    } else {
        let before = split(s.drop_last(), sep);
        if s.last() == sep {
            before.push(Seq::<char>::empty())
        } else {
            before.drop_last().push(before.last().push(s.last()))
        }
    }
}

/// The pieces joined again, with `sep` between neighbours.
pub open spec fn join(pieces: Seq<Seq<char>>, sep: char) -> Seq<char>
    decreases pieces.len(),
{
    if pieces.len() == 0 {
        Seq::<char>::empty()
    } else if pieces.len() == 1 {
        pieces[0]
    } else {
        join(pieces.drop_last(), sep).push(sep) + pieces.last()
    }
}

/// The texts that a list of index ranges cuts out of `chars`.
pub open spec fn ranges_of(chars: Seq<char>, bounds: Seq<(usize, usize)>) -> Seq<Seq<char>> {
    Seq::new(bounds.len(), |k: int| chars.subrange(bounds[k].0 as int, bounds[k].1 as int))
}

/// The least index at which `pattern` occurs in `s`, if it occurs at all.
pub open spec fn first_match(s: Seq<char>, pattern: Seq<char>) -> Option<int> {
    first_match_from(s, pattern, 0)
}

/// `pattern` occurs in `s` at index `i`.
pub open spec fn matches_at(s: Seq<char>, pattern: Seq<char>, i: int) -> bool {
    &&& 0 <= i
    &&& i + pattern.len() <= s.len()
    &&& s.subrange(i, i + pattern.len()) == pattern
}

/// The least index at or after `from` at which `pattern` occurs in `s`.
pub open spec fn first_match_from(s: Seq<char>, pattern: Seq<char>, from: int) -> Option<int>
    decreases s.len() + 1 - from,
{
    if from < 0 || from + pattern.len() > s.len() {
        None
    } else if matches_at(s, pattern, from) {
        Some(from)
    } else {
        first_match_from(s, pattern, from + 1)
    }
}

/// The end of a line: carriage return, line feed.
pub open spec fn line_end() -> Seq<char> {
    seq!['\r', '\n']
}

/// `s` holds neither a carriage return nor a line feed.
pub open spec fn line_safe(s: Seq<char>) -> bool {
    forall|i: int| 0 <= i < s.len() ==> #[trigger] s[i] != '\r' && s[i] != '\n'
}

/// The lines one after the other, each followed by a line end.
pub open spec fn block(lines: Seq<Seq<char>>) -> Seq<char>
    decreases lines.len(),
{
    if lines.len() == 0 {
        Seq::<char>::empty()
    } else {
        block(lines.drop_last()) + lines.last() + line_end()
    }
}

/// `split` never produces an empty list.
pub proof fn lemma_split_nonempty(s: Seq<char>, sep: char)
    ensures
        split(s, sep).len() >= 1,
    decreases s.len(),
{
    if s.len() > 0 {
        lemma_split_nonempty(s.drop_last(), sep);
    }
}

/// Splitting loses nothing: no piece contains the separator, and joining the
/// pieces with the separator gives the text back.
pub proof fn lemma_split_join(s: Seq<char>, sep: char)
    ensures
        join(split(s, sep), sep) == s,
        forall|k: int|
            0 <= k < split(s, sep).len() ==> !(#[trigger] split(s, sep)[k]).contains(sep),
    decreases s.len(),
{
    let pieces = split(s, sep);
    if s.len() == 0 {
        assert(pieces.len() == 1);
        assert(pieces[0] =~= Seq::<char>::empty());
        assert(join(pieces, sep) =~= s);
    } else {
        let before = split(s.drop_last(), sep);
        lemma_split_nonempty(s.drop_last(), sep);
        lemma_split_join(s.drop_last(), sep);
        if s.last() == sep {
            assert(pieces.drop_last() =~= before);
            assert(join(pieces, sep) =~= s);
            assert forall|k: int| 0 <= k < pieces.len() implies !(#[trigger] pieces[k]).contains(
                sep,
            ) by {
                if k < before.len() {
                    assert(pieces[k] == before[k]);
                }
            }
        } else {
            let grown = before.last().push(s.last());
            assert(pieces.drop_last() =~= before.drop_last());
            if before.len() == 1 {
                assert(join(before, sep) == before[0]);
                assert(join(pieces, sep) =~= s);
            } else {
                assert(join(before, sep) == join(before.drop_last(), sep).push(sep)
                    + before.last());
                assert(join(pieces, sep) =~= (join(before.drop_last(), sep).push(sep)
                    + before.last()).push(s.last()));
                assert(join(pieces, sep) =~= s);
            }
            assert forall|k: int| 0 <= k < pieces.len() implies !(#[trigger] pieces[k]).contains(
                sep,
            ) by {
                if k < before.len() - 1 {
                    assert(pieces[k] == before[k]);
                } else {
                    assert(pieces[k] == grown);
                    assert(!before[before.len() - 1].contains(sep));
                    if grown.contains(sep) {
                        let j = choose|j: int| 0 <= j < grown.len() && grown[j] == sep;
                        assert(before.last()[j] == sep);
                    }
                }
            }
        }
    }
}

/// What `first_match_from` returns is an occurrence, and the first one at or
/// after `from`; `None` means that there is none there.
pub proof fn lemma_first_match_from(s: Seq<char>, pattern: Seq<char>, from: int)
    requires
        0 <= from,
    ensures
        match first_match_from(s, pattern, from) {
            Some(i) => {
                &&& from <= i
                &&& matches_at(s, pattern, i)
                &&& forall|j: int| from <= j < i ==> !matches_at(s, pattern, j)
            },
            None => forall|j: int| from <= j ==> !matches_at(s, pattern, j),
        },
    decreases s.len() + 1 - from,
{
    if from + pattern.len() > s.len() {
    } else if matches_at(s, pattern, from) {
    } else {
        lemma_first_match_from(s, pattern, from + 1);
    }
}

/// Trimming the start of a text of white space leaves nothing.
pub proof fn lemma_trim_start_of_whitespace(s: Seq<char>)
    requires
        all_whitespace(s),
    ensures
        trim_start(s).len() == 0,
    decreases s.len(),
{
    if s.len() > 0 {
        assert(is_whitespace(s[0]));
        assert forall|i: int| 0 <= i < s.drop_first().len() implies is_whitespace(
            #[trigger] s.drop_first()[i],
        ) by {
            assert(s.drop_first()[i] == s[i + 1]);
        }
        lemma_trim_start_of_whitespace(s.drop_first());
    }
}

/// White space in front of a text does not change what `trim_start` keeps.
pub proof fn lemma_trim_start_padded(a: Seq<char>, s: Seq<char>)
    requires
        all_whitespace(a),
    ensures
        trim_start(a + s) == trim_start(s),
    decreases a.len(),
{
    if a.len() == 0 {
        assert(a + s =~= s);
    } else {
        assert((a + s).first() == a[0]);
        assert(is_whitespace(a[0]));
        assert((a + s).drop_first() =~= a.drop_first() + s);
        assert forall|i: int| 0 <= i < a.drop_first().len() implies is_whitespace(
            #[trigger] a.drop_first()[i],
        ) by {
            assert(a.drop_first()[i] == a[i + 1]);
        }
        lemma_trim_start_padded(a.drop_first(), s);
    }
}

/// White space behind a text does not change what `trim_end` keeps.
pub proof fn lemma_trim_end_padded(s: Seq<char>, b: Seq<char>)
    requires
        all_whitespace(b),
    ensures
        trim_end(s + b) == trim_end(s),
    decreases b.len(),
{
    if b.len() == 0 {
        assert(s + b =~= s);
    } else {
        assert((s + b).last() == b.last());
        assert(is_whitespace(b[b.len() - 1]));
        assert((s + b).drop_last() =~= s + b.drop_last());
        assert forall|i: int| 0 <= i < b.drop_last().len() implies is_whitespace(
            #[trigger] b.drop_last()[i],
        ) by {
            assert(b.drop_last()[i] == b[i]);
        }
        lemma_trim_end_padded(s, b.drop_last());
    }
}

/// What `trim_start` does to a text that is followed by more text: it trims
/// the text itself, unless that is all white space.
pub proof fn lemma_trim_start_followed(s: Seq<char>, b: Seq<char>)
    ensures
        trim_start(s + b) == if all_whitespace(s) {
            trim_start(b)
        } else {
            trim_start(s) + b
        },
    decreases s.len(),
{
    if s.len() == 0 {
        assert(s + b =~= b);
    } else if is_whitespace(s[0]) {
        let rest = s.drop_first();
        assert((s + b).first() == s[0]);
        assert((s + b).drop_first() =~= rest + b);
        lemma_trim_start_followed(rest, b);
        if all_whitespace(rest) {
            assert forall|i: int| 0 <= i < s.len() implies is_whitespace(#[trigger] s[i]) by {
                if i > 0 {
                    assert(s[i] == rest[i - 1]);
                }
            }
        } else {
            let i = choose|i: int| 0 <= i < rest.len() && !is_whitespace(rest[i]);
            assert(s[i + 1] == rest[i]);
        }
    } else {
        assert((s + b).first() == s[0]);
    }
}

/// White space around a text does not change what `trim` keeps of it.
pub proof fn lemma_trim_padded(a: Seq<char>, s: Seq<char>, b: Seq<char>)
    requires
        all_whitespace(a),
        all_whitespace(b),
    ensures
        trim(a + s + b) == trim(s),
{
    assert(a + s + b =~= a + (s + b));
    lemma_trim_start_padded(a, s + b);
    lemma_trim_start_followed(s, b);
    if all_whitespace(s) {
        lemma_trim_start_of_whitespace(b);
        lemma_trim_start_of_whitespace(s);
        assert(trim_start(b) =~= trim_start(s));
    } else {
        lemma_trim_end_padded(trim_start(s), b);
    }
}

/// What `trim_start` drops is white space, and what it keeps is the rest.
pub proof fn lemma_trim_start_parts(s: Seq<char>)
    ensures
        trim_start(s).len() <= s.len(),
        s == s.take(s.len() - trim_start(s).len()) + trim_start(s),
        all_whitespace(s.take(s.len() - trim_start(s).len())),
        trim_start(s).len() > 0 ==> !is_whitespace(trim_start(s).first()),
    decreases s.len(),
{
    if s.len() > 0 && is_whitespace(s.first()) {
        let rest = s.drop_first();
        lemma_trim_start_parts(rest);
        let n = s.len() - trim_start(s).len();
        let dropped = s.take(n);
        assert(trim_start(s) == trim_start(rest));
        assert(rest == rest.take(n - 1) + trim_start(rest));
        assert(s =~= seq![s[0]] + rest);
        assert(dropped =~= seq![s[0]] + rest.take(n - 1));
        assert(s =~= dropped + trim_start(s));
        assert forall|i: int| 0 <= i < dropped.len() implies is_whitespace(
            #[trigger] dropped[i],
        ) by {
            if i > 0 {
                assert(dropped[i] == rest.take(n - 1)[i - 1]);
            }
        }
    } else {
        assert(s.take(0) =~= Seq::<char>::empty());
        assert(s =~= s.take(0) + s);
    }
}

/// What `trim_end` drops is white space, and what it keeps is the rest.
pub proof fn lemma_trim_end_parts(s: Seq<char>)
    ensures
        trim_end(s).len() <= s.len(),
        s == trim_end(s) + s.skip(trim_end(s).len() as int),
        all_whitespace(s.skip(trim_end(s).len() as int)),
        trim_end(s).len() > 0 ==> !is_whitespace(trim_end(s).last()),
    decreases s.len(),
{
    if s.len() > 0 && is_whitespace(s.last()) {
        let rest = s.drop_last();
        lemma_trim_end_parts(rest);
        let m = trim_end(s).len() as int;
        let dropped = s.skip(m);
        assert(trim_end(s) == trim_end(rest));
        assert(rest == trim_end(rest) + rest.skip(m));
        assert(s =~= rest.push(s.last()));
        assert(dropped =~= rest.skip(m).push(s.last()));
        assert(s =~= trim_end(s) + dropped);
        assert forall|i: int| 0 <= i < dropped.len() implies is_whitespace(
            #[trigger] dropped[i],
        ) by {
            if i < dropped.len() - 1 {
                assert(dropped[i] == rest.skip(m)[i]);
            }
        }
    } else {
        assert(s.skip(s.len() as int) =~= Seq::<char>::empty());
        assert(s =~= s + s.skip(s.len() as int));
    }
}

/// Text without the separator, added behind a text, becomes part of the
/// last piece.
pub proof fn lemma_split_suffix(s: Seq<char>, b: Seq<char>, sep: char)
    requires
        !b.contains(sep),
    ensures
        split(s, sep).len() >= 1,
        split(s + b, sep) == split(s, sep).drop_last().push(split(s, sep).last() + b),
    decreases b.len(),
{
    lemma_split_nonempty(s, sep);
    let pieces = split(s, sep);
    if b.len() == 0 {
        assert(s + b =~= s);
        assert(pieces.last() + b =~= pieces.last());
        assert(pieces =~= pieces.drop_last().push(pieces.last()));
    } else {
        let shorter = b.drop_last();
        assert(b[b.len() - 1] == b.last());
        assert(b.last() != sep);
        assert forall|i: int| 0 <= i < shorter.len() implies shorter[i] != sep by {
            assert(shorter[i] == b[i]);
        }
        lemma_split_suffix(s, shorter, sep);
        assert((s + b).drop_last() =~= s + shorter);
        assert((s + b).last() == b.last());
        assert((pieces.last() + shorter).push(b.last()) =~= pieces.last() + b);
        assert(split(s + b, sep) =~= pieces.drop_last().push(pieces.last() + b));
    }
}

/// Text without the separator, added in front of a text, becomes part of
/// the first piece.
pub proof fn lemma_split_prefix(a: Seq<char>, s: Seq<char>, sep: char)
    requires
        !a.contains(sep),
    ensures
        split(s, sep).len() >= 1,
        split(a + s, sep) == seq![a + split(s, sep)[0]] + split(s, sep).drop_first(),
    decreases s.len(),
{
    lemma_split_nonempty(s, sep);
    let pieces = split(s, sep);
    if s.len() == 0 {
        lemma_split_suffix(s, a, sep);
        assert(s + a =~= a + s);
        assert(pieces[0] =~= Seq::<char>::empty());
        assert(split(a + s, sep) =~= seq![a + pieces[0]] + pieces.drop_first());
    } else {
        let shorter = s.drop_last();
        let before = split(shorter, sep);
        lemma_split_prefix(a, shorter, sep);
        let joined = split(a + shorter, sep);
        assert((a + s).drop_last() =~= a + shorter);
        assert((a + s).last() == s.last());
        if s.last() == sep {
            assert(split(a + s, sep) =~= seq![a + pieces[0]] + pieces.drop_first());
        } else if before.len() == 1 {
            assert((a + before[0]).push(s.last()) =~= a + before[0].push(s.last()));
            assert(split(a + s, sep) =~= seq![a + pieces[0]] + pieces.drop_first());
        } else {
            assert(joined.last() == before.last());
            assert(split(a + s, sep) =~= seq![a + pieces[0]] + pieces.drop_first());
        }
    }
}

/// In a block of lines that are not empty and hold no line break of their
/// own, a carriage return stands two places before the end of the block or
/// two places before a character that is no carriage return.
pub proof fn lemma_block_line_ends(lines: Seq<Seq<char>>, p: int)
    requires
        forall|k: int|
            0 <= k < lines.len() ==> (#[trigger] lines[k]).len() > 0 && line_safe(lines[k]),
        0 <= p < block(lines).len(),
        block(lines)[p] == '\r',
    ensures
        p + 2 <= block(lines).len(),
        block(lines)[p + 1] == '\n',
        p + 2 < block(lines).len() ==> block(lines)[p + 2] != '\r',
    decreases lines.len(),
{
    if lines.len() > 0 {
        let before = block(lines.drop_last());
        let line = lines.last();
        let whole = block(lines);
        assert(lines[lines.len() - 1] == line);
        assert(whole =~= before + line + line_end());
        if p < before.len() {
            assert(whole[p] == before[p]);
            assert forall|k: int| 0 <= k < lines.drop_last().len() implies (
            #[trigger] lines.drop_last()[k]).len() > 0 && line_safe(lines.drop_last()[k]) by {
                assert(lines.drop_last()[k] == lines[k]);
            }
            lemma_block_line_ends(lines.drop_last(), p);
            assert(whole[p + 1] == before[p + 1]);
            if p + 2 < before.len() {
                assert(whole[p + 2] == before[p + 2]);
            } else {
                assert(whole[p + 2] == line[0]);
            }
        } else if p < before.len() + line.len() {
            assert(whole[p] == line[p - before.len()]);
        } else if p == before.len() + line.len() {
            assert(whole[p + 1] == line_end()[1]);
        } else {
            assert(whole[p] == line_end()[1]);
        }
    }
}

/// A block of lines that are not empty and hold no line break of their own,
/// followed by a blank line and anything else: the first blank line is the
/// one that follows the block.
pub proof fn lemma_first_blank_line(lines: Seq<Seq<char>>, rest: Seq<char>)
    requires
        lines.len() > 0,
        forall|k: int|
            0 <= k < lines.len() ==> (#[trigger] lines[k]).len() > 0 && line_safe(lines[k]),
    ensures
        block(lines).len() >= 2,
        first_match(block(lines) + line_end() + rest, line_end() + line_end()) == Some(
            block(lines).len() - 2,
        ),
{
    let head = block(lines);
    let blank = line_end() + line_end();
    let whole = head + line_end() + rest;
    let at = head.len() - 2;
    assert(head =~= block(lines.drop_last()) + lines.last() + line_end());
    assert(whole.subrange(at, at + 4) =~= blank);
    assert(matches_at(whole, blank, at));
    assert forall|p: int| 0 <= p < at implies !matches_at(whole, blank, p) by {
        if matches_at(whole, blank, p) {
            let found = whole.subrange(p, p + 4);
            assert(found[0] == whole[p] && found[2] == whole[p + 2]);
            assert(blank[0] == '\r' && blank[2] == '\r');
            assert(whole[p] == head[p]);
            lemma_block_line_ends(lines, p);
            assert(whole[p + 2] == head[p + 2]);
        }
    }
    lemma_first_match_from(whole, blank, 0);
}

/// Decides whether `c` is Unicode white space.
pub fn char_is_whitespace(c: char) -> (r: bool)
    ensures
        r == is_whitespace(c),
{
    let n: u32 = c as u32;
    (0x09 <= n && n <= 0x0D) || n == 0x20 || n == 0x85 || n == 0xA0 || n == 0x1680 || (0x2000 <= n
        && n <= 0x200A) || n == 0x2028 || n == 0x2029 || n == 0x202F || n == 0x205F || n == 0x3000
}

/// The characters of `s`, in order.
pub fn chars_of(s: &str) -> (v: Vec<char>)
    ensures
        v@ == s@,
{
    let mut v: Vec<char> = Vec::new();
    for c in it: s.chars()
        invariant
            v@ == it.seq().take(it.index() as int),
    {
        v.push(c);
    }
    v
}

/// Narrows the range `from..to` of `chars` to what `trim` keeps of it.
pub fn trim_bounds(chars: &Vec<char>, from: usize, to: usize) -> (r: (usize, usize))
    requires
        from <= to <= chars.len(),
    ensures
        from <= r.0 <= r.1 <= to,
        chars@.subrange(r.0 as int, r.1 as int) == trim(chars@.subrange(from as int, to as int)),
{
    let mut a: usize = from;
    while a < to && char_is_whitespace(chars[a])
        invariant
            from <= a <= to <= chars.len(),
            trim_start(chars@.subrange(from as int, to as int)) == trim_start(
                chars@.subrange(a as int, to as int),
            ),
        decreases to - a,
    {
        assert(chars@.subrange(a as int, to as int).drop_first() =~= chars@.subrange(
            a + 1,
            to as int,
        ));
        a += 1;
    }
    let mut b: usize = to;
    while a < b && char_is_whitespace(chars[b - 1])
        invariant
            a <= b <= to <= chars.len(),
            trim_end(chars@.subrange(a as int, to as int)) == trim_end(
                chars@.subrange(a as int, b as int),
            ),
        decreases b - a,
    {
        assert(chars@.subrange(a as int, b as int).drop_last() =~= chars@.subrange(
            a as int,
            b - 1,
        ));
        b -= 1;
    }
    (a, b)
}

/// Finds the first `c` in the range `from..to` of `chars`.
pub fn find_char(chars: &Vec<char>, from: usize, to: usize, c: char) -> (r: Option<usize>)
    requires
        from <= to <= chars.len(),
    ensures
        match r {
            Some(i) => from <= i < to && chars@.subrange(from as int, to as int).index_of_first(c)
                == Some(i - from),
            None => chars@.subrange(from as int, to as int).index_of_first(c) is None,
        },
{
    let ghost piece = chars@.subrange(from as int, to as int);
    let mut i: usize = from;
    while i < to
        invariant
            from <= i <= to <= chars.len(),
            piece == chars@.subrange(from as int, to as int),
            forall|j: int| 0 <= j < i - from ==> piece[j] != c,
        decreases to - i,
    {
        if chars[i] == c {
            proof {
                assert(piece[i - from] == c);
                piece.index_of_first_ensures(c);
            }
            return Some(i);
        }
        i += 1;
    }
    proof {
        piece.index_of_first_ensures(c);
    }
    None
}

/// Cuts the range `from..to` of `chars` at every `sep`, and returns the index
/// range of each piece.
pub fn split_bounds(chars: &Vec<char>, from: usize, to: usize, sep: char) -> (r: Vec<
    (usize, usize),
>)
    requires
        from <= to <= chars.len(),
    ensures
        ranges_of(chars@, r@) == split(chars@.subrange(from as int, to as int), sep),
        forall|k: int| 0 <= k < r.len() ==> from <= (#[trigger] r[k]).0 <= r[k].1 <= to,
{
    let mut pieces: Vec<(usize, usize)> = Vec::new();
    let mut start: usize = from;
    let mut i: usize = from;
    assert(chars@.subrange(from as int, from as int) =~= Seq::<char>::empty());
    assert(ranges_of(chars@, pieces@).push(chars@.subrange(start as int, i as int)) =~= split(
        chars@.subrange(from as int, i as int),
        sep,
    ));
    while i < to
        invariant
            from <= start <= i <= to <= chars.len(),
            ranges_of(chars@, pieces@).push(chars@.subrange(start as int, i as int)) == split(
                chars@.subrange(from as int, i as int),
                sep,
            ),
            forall|k: int|
                0 <= k < pieces.len() ==> from <= (#[trigger] pieces[k]).0 <= pieces[k].1 <= to,
        decreases to - i,
    {
        let ghost before = ranges_of(chars@, pieces@).push(chars@.subrange(start as int, i as int));
        let ghost grown = chars@.subrange(from as int, i + 1);
        assert(grown.drop_last() =~= chars@.subrange(from as int, i as int));
        assert(grown.last() == chars@[i as int]);
        if chars[i] == sep {
            pieces.push((start, i));
            start = i + 1;
            assert(chars@.subrange(start as int, start as int) =~= Seq::<char>::empty());
            assert(ranges_of(chars@, pieces@) =~= before);
        } else {
            assert(before.drop_last() =~= ranges_of(chars@, pieces@));
            assert(before.last().push(chars@[i as int]) =~= chars@.subrange(start as int, i + 1));
        }
        i += 1;
    }
    pieces.push((start, to));
    assert(ranges_of(chars@, pieces@) =~= split(chars@.subrange(from as int, to as int), sep));
    pieces
}

/// Finds the first occurrence of `pattern` in `chars`.
pub fn find_pattern(chars: &Vec<char>, pattern: &Vec<char>) -> (r: Option<usize>)
    ensures
        match r {
            Some(i) => first_match(chars@, pattern@) == Some(i as int),
            None => first_match(chars@, pattern@) is None,
        },
{
    if pattern.len() > chars.len() {
        return None;
    }
    let last: usize = chars.len() - pattern.len();
    let mut i: usize = 0;
    loop
        invariant
            0 <= i <= last,
            last == chars.len() - pattern.len(),
            first_match(chars@, pattern@) == first_match_from(chars@, pattern@, i as int),
        decreases last - i,
    {
        if occurs_at(chars, pattern, i) {
            return Some(i);
        }
        if i == last {
            assert(first_match_from(chars@, pattern@, i + 1) is None);
            return None;
        }
        i += 1;
    }
}

/// Decides whether `pattern` occurs in `chars` at index `i`.
pub fn occurs_at(chars: &Vec<char>, pattern: &Vec<char>, i: usize) -> (r: bool)
    ensures
        r == matches_at(chars@, pattern@, i as int),
{
    if pattern.len() > chars.len() || i > chars.len() - pattern.len() {
        return false;
    }
    let mut k: usize = 0;
    while k < pattern.len()
        invariant
            0 <= k <= pattern.len(),
            i + pattern.len() <= chars.len(),
            forall|j: int| 0 <= j < k ==> chars@[i + j] == pattern@[j],
        decreases pattern.len() - k,
    {
        if chars[i + k] != pattern[k] {
            assert(chars@.subrange(i as int, i + pattern.len())[k as int] != pattern@[k as int]);
            return false;
        }
        k += 1;
    }
    assert(chars@.subrange(i as int, i + pattern.len()) =~= pattern@);
    true
}

} // verus!
