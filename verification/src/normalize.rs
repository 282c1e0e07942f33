//! The loose-JSON normaliser: turns informal `key:value,key2:value2` text,
//! with or without surrounding braces, into the text of a JSON object whose
//! values are all strings.

use crate::entries::{
    distinct_keys, key_index, lemma_key_index, lemma_put_distinct, lemma_put_value, put, value_of,
};
use crate::json::{compact_json, insert_string, new_object, object_entries, object_to_string};
use crate::text::{
    all_whitespace, chars_of, find_char, is_whitespace, lemma_split_prefix, lemma_split_suffix,
    lemma_trim_end_parts, lemma_trim_padded, lemma_trim_start_parts, split, split_bounds, trim,
    trim_bounds, trim_end, trim_start,
};
use vstd::prelude::*;
use vstd::string::StrSliceExecFns;

verus! {

/// Why a loose-JSON text could not be turned into a request body.
#[derive(Debug, Clone, Copy, PartialEq, Eq, Structural)]
pub enum ParseError {
    /// A comma-separated segment holds no `:`.
    MissingColon,
    /// The JSON encoder reported an error for the collected entries.
    Unencodable,
}

impl From<serde_json::Error> for ParseError {
    fn from(cause: serde_json::Error) -> (e: ParseError) {
        ParseError::Unencodable
    }
}

impl vstd::std_specs::convert::FromSpecImpl<serde_json::Error> for ParseError {
    open spec fn obeys_from_spec() -> bool {
        true
    }

    open spec fn from_spec(cause: serde_json::Error) -> ParseError {
        ParseError::Unencodable
    }
}

impl ParseError {
    /// A one-line description for the user.
    pub fn message(&self) -> (text: &'static str)
        ensures
            text@ == match *self {
                ParseError::MissingColon => "body segment without ':'"@,
                ParseError::Unencodable => "body cannot be encoded as JSON"@,
            },
    {
        match self {
            ParseError::MissingColon => "body segment without ':'",
            ParseError::Unencodable => "body cannot be encoded as JSON",
        }
    }
}

/// `s` without one leading `{` and, after that, without one trailing `}`.
/// Braces are not matched against each other.
pub open spec fn strip_braces(s: Seq<char>) -> Seq<char> {
    let rest = if s.len() > 0 && s.first() == '{' {
        s.drop_first()
    } else {
        s
    };
    if rest.len() > 0 && rest.last() == '}' {
        rest.drop_last()
    } else {
        rest
    }
}

/// The comma-separated segments of a loose-JSON text.
pub open spec fn segments(input: Seq<char>) -> Seq<Seq<char>> {
    split(strip_braces(trim(input)), ',')
}

/// The key and the value that a segment stands for: what lies before and
/// after its first `:`, trimmed. `None` for a segment without `:`.
pub open spec fn pair_of(segment: Seq<char>) -> Option<(Seq<char>, Seq<char>)> {
    match segment.index_of_first(':') {
        Some(i) => Some((trim(segment.take(i)), trim(segment.skip(i + 1)))),
        None => None,
    }
}

/// Every segment holds a `:`.
pub open spec fn all_paired(segments: Seq<Seq<char>>) -> bool {
    forall|k: int| 0 <= k < segments.len() ==> pair_of(#[trigger] segments[k]) is Some
}

/// The object that results from setting, segment by segment, each key to its
/// value.
pub open spec fn collect(segments: Seq<Seq<char>>) -> Seq<(Seq<char>, Seq<char>)>
    decreases segments.len(),
{
    if segments.len() == 0 {
        Seq::empty()
    } else {
        let before = collect(segments.drop_last());
        match pair_of(segments.last()) {
            Some((key, value)) => put(before, key, value),
            None => before,
        }
    }
}

/// The entries of the JSON object that a loose-JSON text denotes. Text that
/// is empty once trimmed denotes the empty object; otherwise every segment
/// must hold a `:`.
pub open spec fn normalized(input: Seq<char>) -> Result<Seq<(Seq<char>, Seq<char>)>, ParseError> {
    if trim(input).len() == 0 {
        Ok(Seq::empty())
    } else if all_paired(segments(input)) {
        Ok(collect(segments(input)))
    } else {
        Err(ParseError::MissingColon)
    }
}

/// The request body that a loose-JSON text denotes: the compact JSON text of
/// its object.
pub open spec fn body_text(input: Seq<char>) -> Result<Seq<char>, ParseError> {
    match normalized(input) {
        Ok(entries) => match compact_json(entries) {
            Some(text) => Ok(text),
            None => Err(ParseError::Unencodable),
        },
        Err(e) => Err(e),
    }
}

/// Narrows the range `from..to` of `chars` to what `strip_braces` keeps.
pub fn strip_brace_bounds(chars: &Vec<char>, from: usize, to: usize) -> (r: (usize, usize))
    requires
        from <= to <= chars.len(),
    ensures
        from <= r.0 <= r.1 <= to,
        chars@.subrange(r.0 as int, r.1 as int) == strip_braces(
            chars@.subrange(from as int, to as int),
        ),
{
    let mut a: usize = from;
    let mut b: usize = to;
    if a < b && chars[a] == '{' {
        assert(chars@.subrange(from as int, to as int).drop_first() =~= chars@.subrange(
            from + 1,
            to as int,
        ));
        a += 1;
    }
    if a < b && chars[b - 1] == '}' {
        assert(chars@.subrange(a as int, to as int).drop_last() =~= chars@.subrange(
            a as int,
            to - 1,
        ));
        b -= 1;
    }
    (a, b)
}

/// Reads a loose-JSON text into a JSON object with string values.
///
/// Fails with `MissingColon` exactly when the text is not empty once trimmed
/// and one of its segments holds no `:`.
pub fn loose_object(input: &str) -> (r: Result<
    serde_json::Map<String, serde_json::Value>,
    ParseError,
>)
    ensures
        match r {
            Ok(object) => normalized(input@) == Ok::<_, ParseError>(object_entries(object)),
            Err(e) => normalized(input@) == Err::<Seq<(Seq<char>, Seq<char>)>, _>(e),
        },
{
    let chars = chars_of(input);
    let mut object = new_object();
    assert(chars@.subrange(0, chars.len() as int) =~= chars@);
    let (from, to) = trim_bounds(&chars, 0, chars.len());
    if from == to {
        return Ok(object);
    }
    let (from, to) = strip_brace_bounds(&chars, from, to);
    let pieces = split_bounds(&chars, from, to, ',');
    let ghost all = segments(input@);
    let mut k: usize = 0;
    while k < pieces.len()
        invariant
            0 <= k <= pieces.len(),
            chars@ == input@,
            trim(input@).len() > 0,
            all == segments(input@),
            pieces.len() == all.len(),
            forall|j: int|
                0 <= j < pieces.len() ==> (#[trigger] pieces[j]).0 <= pieces[j].1 <= chars.len()
                    && chars@.subrange(pieces[j].0 as int, pieces[j].1 as int) == all[j],
            all_paired(all.take(k as int)),
            object_entries(object) == collect(all.take(k as int)),
        decreases pieces.len() - k,
    {
        let (start, end) = pieces[k];
        let ghost segment = all[k as int];
        let ghost grown = all.take(k + 1);
        assert(grown.drop_last() =~= all.take(k as int));
        assert(grown.last() == segment);
        match find_char(&chars, start, end, ':') {
            None => {
                assert(pair_of(all[k as int]) is None);
                return Err(ParseError::MissingColon);
            },
            Some(colon) => {
                let (key_from, key_to) = trim_bounds(&chars, start, colon);
                let (value_from, value_to) = trim_bounds(&chars, colon + 1, end);
                assert(chars@.subrange(start as int, colon as int) =~= segment.take(
                    colon - start,
                ));
                assert(chars@.subrange(colon + 1, end as int) =~= segment.skip(
                    colon - start + 1,
                ));
                let key = input.substring_char(key_from, key_to).to_owned();
                let value = input.substring_char(value_from, value_to).to_owned();
                insert_string(&mut object, key, value);
                assert forall|j: int| 0 <= j < grown.len() implies pair_of(
                    #[trigger] grown[j],
                ) is Some by {
                    if j < k {
                        assert(grown[j] == all.take(k as int)[j]);
                    }
                }
            },
        }
        k += 1;
    }
    assert(all.take(k as int) =~= all);
    Ok(object)
}

/// Turns a loose-JSON text into the text of a JSON object: the request body.
///
/// The keys keep the order in which they first occur, a repeated key keeps
/// its last value, and every value is encoded as a JSON string.
pub fn parse_loose_json(input: &str) -> (r: Result<String, ParseError>)
    ensures
        match r {
            Ok(text) => body_text(input@) == Ok::<_, ParseError>(text@),
            Err(e) => body_text(input@) == Err::<Seq<char>, _>(e),
        },
{
    match loose_object(input) {
        Ok(object) => match object_to_string(&object) {
            Ok(text) => Ok(text),
            Err(cause) => Err(ParseError::from(cause)),
        },
        Err(e) => Err(e),
    }
}

/// The value of the last segment whose key is `key`, if there is such a
/// segment.
pub open spec fn last_value(segments: Seq<Seq<char>>, key: Seq<char>) -> Option<Seq<char>>
    decreases segments.len(),
{
    if segments.len() == 0 {
        None
    } else {
        match pair_of(segments.last()) {
            Some((k, v)) => if k == key {
                Some(v)
            } else {
                last_value(segments.drop_last(), key)
            },
            None => last_value(segments.drop_last(), key),
        }
    }
}

/// The key and value of every segment, in order.
pub open spec fn pairs_of(segments: Seq<Seq<char>>) -> Seq<(Seq<char>, Seq<char>)> {
    Seq::new(segments.len(), |i: int| pair_of(segments[i]).unwrap())
}

/// The collected object holds no key twice.
pub proof fn lemma_collect_distinct(segments: Seq<Seq<char>>)
    ensures
        distinct_keys(collect(segments)),
    decreases segments.len(),
{
    if segments.len() > 0 {
        lemma_collect_distinct(segments.drop_last());
        match pair_of(segments.last()) {
            Some((key, value)) => {
                lemma_put_distinct(collect(segments.drop_last()), key, value);
            },
            None => {},
        }
    }
}

/// The collected object holds exactly the keys of the segments, each with
/// the trimmed value of the last segment that names it.
pub proof fn lemma_collect_values(segments: Seq<Seq<char>>, key: Seq<char>)
    ensures
        value_of(collect(segments), key) == last_value(segments, key),
    decreases segments.len(),
{
    if segments.len() > 0 {
        lemma_collect_values(segments.drop_last(), key);
        match pair_of(segments.last()) {
            Some((k, v)) => {
                lemma_put_value(collect(segments.drop_last()), k, v, key);
            },
            None => {},
        }
    }
}

/// Where no two segments have the same key, the collected object holds the
/// key and value of every segment, in the order of the segments.
pub proof fn lemma_collect_in_order(segments: Seq<Seq<char>>)
    requires
        all_paired(segments),
        distinct_keys(pairs_of(segments)),
    ensures
        collect(segments) == pairs_of(segments),
    decreases segments.len(),
{
    if segments.len() == 0 {
        assert(collect(segments) =~= pairs_of(segments));
    } else {
        let before = segments.drop_last();
        let pairs = pairs_of(segments);
        assert(pairs_of(before) =~= pairs.drop_last());
        assert forall|i: int, j: int| 0 <= i < j < pairs_of(before).len() implies (
        #[trigger] pairs_of(before)[i]).0 != (#[trigger] pairs_of(before)[j]).0 by {
            assert(pairs_of(before)[i] == pairs[i]);
            assert(pairs_of(before)[j] == pairs[j]);
        }
        assert forall|k: int| 0 <= k < before.len() implies pair_of(
            #[trigger] before[k],
        ) is Some by {
            assert(before[k] == segments[k]);
        }
        lemma_collect_in_order(before);
        let last = pair_of(segments.last()).unwrap();
        assert(pairs.last() == last);
        lemma_key_index(pairs_of(before), last.0);
        if let Some(i) = key_index(pairs_of(before), last.0) {
            assert(pairs[i] == pairs_of(before)[i]);
            assert(pairs[i].0 != pairs[pairs.len() - 1].0);
        }
        assert(collect(segments) =~= pairs);
    }
}

/// The object of a loose-JSON text that is accepted: no key occurs twice in
/// it, and it maps each key of the text to the trimmed value of the last
/// segment that names the key, and no other key to anything.
pub proof fn lemma_normalized_object(input: Seq<char>, key: Seq<char>)
    requires
        normalized(input) is Ok,
    ensures
        distinct_keys(normalized(input).unwrap()),
        value_of(normalized(input).unwrap(), key) == if trim(input).len() == 0 {
            None
        } else {
            last_value(segments(input), key)
        },
{
    if trim(input).len() > 0 {
        lemma_collect_distinct(segments(input));
        lemma_collect_values(segments(input), key);
    }
}

/// White space around a segment changes neither its key nor its value.
pub proof fn lemma_pair_of_padded(a: Seq<char>, segment: Seq<char>, b: Seq<char>)
    requires
        all_whitespace(a),
        all_whitespace(b),
    ensures
        pair_of(a + segment + b) == pair_of(segment),
{
    let whole = a + segment + b;
    let none = Seq::<char>::empty();
    assert(!is_whitespace(':'));
    segment.index_of_first_ensures(':');
    whole.index_of_first_ensures(':');
    match segment.index_of_first(':') {
        Some(i) => {
            let k = a.len() + i;
            assert(whole[k] == ':');
            assert(whole.contains(':'));
            let found = whole.index_of_first(':').unwrap();
            if found < a.len() {
                assert(whole[found] == a[found]);
            } else if found < k {
                assert(whole[found] == segment[found - a.len()]);
            }
            assert(found == k);
            assert(whole.take(k) =~= a + segment.take(i) + none);
            assert(whole.skip(k + 1) =~= none + segment.skip(i + 1) + b);
            lemma_trim_padded(a, segment.take(i), none);
            lemma_trim_padded(none, segment.skip(i + 1), b);
        },
        None => {
            if whole.contains(':') {
                let j = choose|j: int| 0 <= j < whole.len() && whole[j] == ':';
                if j < a.len() {
                    assert(whole[j] == a[j]);
                } else if j < a.len() + segment.len() {
                    assert(whole[j] == segment[j - a.len()]);
                    assert(segment.contains(':'));
                } else {
                    assert(whole[j] == b[j - a.len() - segment.len()]);
                }
            }
        },
    }
}

/// The collected object depends on the segments only through their keys
/// and values.
pub proof fn lemma_collect_same_pairs(left: Seq<Seq<char>>, right: Seq<Seq<char>>)
    requires
        left.len() == right.len(),
        forall|i: int| 0 <= i < left.len() ==> pair_of(#[trigger] left[i]) == pair_of(right[i]),
    ensures
        collect(left) == collect(right),
        all_paired(left) == all_paired(right),
    decreases left.len(),
{
    if left.len() > 0 {
        assert forall|i: int| 0 <= i < left.drop_last().len() implies pair_of(
            #[trigger] left.drop_last()[i],
        ) == pair_of(right.drop_last()[i]) by {
            assert(left.drop_last()[i] == left[i]);
            assert(right.drop_last()[i] == right[i]);
        }
        lemma_collect_same_pairs(left.drop_last(), right.drop_last());
        assert(pair_of(left[left.len() - 1]) == pair_of(right[left.len() - 1]));
    }
    if all_paired(left) {
        assert forall|i: int| 0 <= i < right.len() implies pair_of(#[trigger] right[i]) is Some by {
            assert(pair_of(left[i]) is Some);
        }
    }
    if all_paired(right) {
        assert forall|i: int| 0 <= i < left.len() implies pair_of(#[trigger] left[i]) is Some by {
            assert(pair_of(right[i]) is Some);
        }
    }
}

/// White space around a whole text changes neither the number of its
/// segments nor the key and value of any of them.
pub proof fn lemma_segments_padded(a: Seq<char>, text: Seq<char>, b: Seq<char>)
    requires
        all_whitespace(a),
        all_whitespace(b),
    ensures
        split(a + text + b, ',').len() == split(text, ',').len(),
        forall|i: int|
            0 <= i < split(text, ',').len() ==> pair_of(#[trigger] split(a + text + b, ',')[i])
                == pair_of(split(text, ',')[i]),
{
    let none = Seq::<char>::empty();
    let inner = split(text, ',');
    let outer = split(a + text + b, ',');
    assert(!is_whitespace(','));
    if a.contains(',') {
        let j = choose|j: int| 0 <= j < a.len() && a[j] == ',';
        assert(is_whitespace(a[j]));
    }
    if b.contains(',') {
        let j = choose|j: int| 0 <= j < b.len() && b[j] == ',';
        assert(is_whitespace(b[j]));
    }
    lemma_split_suffix(text, b, ',');
    lemma_split_prefix(a, text + b, ',');
    assert(a + text + b =~= a + (text + b));
    let middle = split(text + b, ',');
    assert(middle == inner.drop_last().push(inner.last() + b));
    assert(outer == seq![a + middle[0]] + middle.drop_first());
    assert(outer.len() == inner.len());
    assert forall|i: int| 0 <= i < inner.len() implies pair_of(#[trigger] outer[i]) == pair_of(
        inner[i],
    ) by {
        let last = inner.len() - 1;
        if i == 0 && i == last {
            assert(outer[i] =~= a + inner[i] + b);
            lemma_pair_of_padded(a, inner[i], b);
        } else if i == 0 {
            assert(middle[0] == inner[0]);
            assert(outer[i] =~= a + inner[i] + none);
            lemma_pair_of_padded(a, inner[i], none);
        } else if i == last {
            assert(outer[i] == middle[i]);
            assert(outer[i] =~= none + inner[i] + b);
            lemma_pair_of_padded(none, inner[i], b);
        } else {
            assert(outer[i] == middle[i]);
            assert(middle[i] == inner[i]);
        }
    }
}

/// A segment has a key and a value exactly when it holds a `:`.
pub proof fn lemma_pair_needs_colon(segment: Seq<char>)
    ensures
        pair_of(segment) is Some <==> segment.contains(':'),
{
    segment.index_of_first_ensures(':');
}

/// Text without `,` and `:` around a whole text changes neither the number
/// of its segments nor which of them hold a `:`.
pub proof fn lemma_colons_padded(p: Seq<char>, text: Seq<char>, q: Seq<char>)
    requires
        !p.contains(',') && !p.contains(':'),
        !q.contains(',') && !q.contains(':'),
    ensures
        all_paired(split(p + text + q, ',')) == all_paired(split(text, ',')),
{
    let inner = split(text, ',');
    let outer = split(p + text + q, ',');
    lemma_split_suffix(text, q, ',');
    lemma_split_prefix(p, text + q, ',');
    assert(p + text + q =~= p + (text + q));
    let middle = split(text + q, ',');
    assert(outer.len() == inner.len());
    assert forall|i: int| 0 <= i < inner.len() implies (pair_of(#[trigger] outer[i]) is Some
        <==> pair_of(inner[i]) is Some) by {
        let last = inner.len() - 1;
        let front = if i == 0 {
            p
        } else {
            Seq::<char>::empty()
        };
        let back = if i == last {
            q
        } else {
            Seq::<char>::empty()
        };
        if i == 0 {
            assert(middle[0] == if last == 0 {
                inner[0] + q
            } else {
                inner[0]
            });
        } else {
            assert(outer[i] == middle[i]);
        }
        assert(outer[i] =~= front + inner[i] + back);
        lemma_pair_needs_colon(outer[i]);
        lemma_pair_needs_colon(inner[i]);
        if outer[i].contains(':') {
            let j = choose|j: int| 0 <= j < outer[i].len() && outer[i][j] == ':';
            if j < front.len() {
                assert(front[j] == ':');
            } else if j < front.len() + inner[i].len() {
                assert(inner[i][j - front.len()] == ':');
            } else {
                assert(back[j - front.len() - inner[i].len()] == ':');
            }
        }
        if inner[i].contains(':') {
            let j = choose|j: int| 0 <= j < inner[i].len() && inner[i][j] == ':';
            assert(outer[i][front.len() + j] == ':');
        }
    }
    if all_paired(outer) {
        assert forall|i: int| 0 <= i < inner.len() implies pair_of(#[trigger] inner[i]) is Some by {
            assert(pair_of(outer[i]) is Some);
        }
    }
    if all_paired(inner) {
        assert forall|i: int| 0 <= i < outer.len() implies pair_of(#[trigger] outer[i]) is Some by {
            assert(pair_of(inner[i]) is Some);
        }
    }
}

/// Braces around a loose-JSON text are optional: with them or without, the
/// text denotes the same object or is rejected alike.
///
/// This holds of a text that holds more than white space (such a text is
/// the empty object without braces, and rejected with them) and that, where
/// it starts with `{` or ends with `}` once trimmed, is rejected anyway (a
/// text that is accepted loses its own brace, and keeps it as part of a key
/// or a value when further braces are put around it).
pub proof fn lemma_braces_are_optional(text: Seq<char>)
    requires
        trim(text).len() > 0,
        trim(text).first() == '{' || trim(text).last() == '}' ==> normalized(text) is Err,
    ensures
        normalized(seq!['{'] + text + seq!['}']) == normalized(text),
{
    let wrapped = seq!['{'] + text + seq!['}'];
    assert(!is_whitespace('{') && !is_whitespace('}'));
    assert(!is_whitespace(',') && !is_whitespace(':'));
    assert(wrapped.first() == '{');
    assert(wrapped.last() == '}');
    assert(trim(wrapped) == wrapped);
    assert(wrapped.drop_first() =~= text + seq!['}']);
    assert(wrapped.drop_first().drop_last() =~= text);
    assert(strip_braces(wrapped) == text);
    assert(segments(wrapped) == split(text, ','));

    let core = trim(text);
    lemma_trim_start_parts(text);
    lemma_trim_end_parts(trim_start(text));
    let a = text.take(text.len() - trim_start(text).len());
    let b = trim_start(text).skip(core.len() as int);
    assert(text =~= a + core + b);
    if core.first() != '{' && core.last() != '}' {
        assert(strip_braces(core) == core);
        lemma_segments_padded(a, core, b);
        lemma_collect_same_pairs(split(text, ','), split(core, ','));
    } else {
        let inner = strip_braces(core);
        let opened = if core.first() == '{' {
            seq!['{']
        } else {
            Seq::<char>::empty()
        };
        let rest = if core.first() == '{' {
            core.drop_first()
        } else {
            core
        };
        let closed = if rest.len() > 0 && rest.last() == '}' {
            seq!['}']
        } else {
            Seq::<char>::empty()
        };
        assert(core =~= opened + rest);
        assert(rest =~= inner + closed);
        let front = a + opened;
        let back = closed + b;
        assert(text =~= front + inner + back);
        assert forall|j: int| 0 <= j < front.len() implies #[trigger] front[j] != ',' && front[j]
            != ':' by {
            if j < a.len() {
                assert(front[j] == a[j]);
                assert(is_whitespace(a[j]));
            }
        }
        assert forall|j: int| 0 <= j < back.len() implies #[trigger] back[j] != ',' && back[j]
            != ':' by {
            if j >= closed.len() {
                assert(back[j] == b[j - closed.len()]);
                assert(is_whitespace(b[j - closed.len()]));
            }
        }
        lemma_colons_padded(front, inner, back);
    }
}

} // verus!
