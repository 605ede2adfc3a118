//! Text as a sequence of characters: comparing, splitting at a separator,
//! and reading decimal numbers.

use vstd::prelude::*;

verus! {

/// The index of the first `sep` in `s`, or the length of `s` where it has
/// none.
pub open spec fn find(s: Seq<char>, sep: char) -> int
    decreases s.len(),
{
    if s.len() == 0 || s[0] == sep {
        0
    } else {
        1 + find(s.skip(1), sep)
    }
}

/// The pieces of `s` between its separators, in order. A text without a
/// separator is one piece; a separator at either end bounds an empty piece.
pub open spec fn split(s: Seq<char>, sep: char) -> Seq<Seq<char>>
    decreases s.len(),
{
    let cut = find(s, sep);
    if 0 <= cut < s.len() {
        seq![s.take(cut)] + split(s.skip(cut + 1), sep)
    } else {
        seq![s]
    }
}

/// `find` is the one index that has no separator before it and either a
/// separator at it or the end of the text.
pub proof fn lemma_find(s: Seq<char>, sep: char, cut: int)
    requires
        0 <= cut <= s.len(),
        forall|j: int| 0 <= j < cut ==> s[j] != sep,
        cut < s.len() ==> s[cut] == sep,
    ensures
        find(s, sep) == cut,
    decreases s.len(),
{
    if s.len() > 0 && s[0] != sep {
        assert forall|j: int| 0 <= j < cut - 1 implies s.skip(1)[j] != sep by {
            assert(s.skip(1)[j] == s[j + 1]);
        }
        lemma_find(s.skip(1), sep, cut - 1);
    }
}

/// What `find` returns lies in the text or at its end; no separator stands
/// before it, and where it lies in the text a separator stands at it.
pub proof fn lemma_find_bounds(s: Seq<char>, sep: char)
    ensures
        0 <= find(s, sep) <= s.len(),
        forall|j: int| 0 <= j < find(s, sep) ==> s[j] != sep,
        find(s, sep) < s.len() ==> s[find(s, sep)] == sep,
    decreases s.len(),
{
    if s.len() > 0 && s[0] != sep {
        lemma_find_bounds(s.skip(1), sep);
        assert forall|j: int| 0 <= j < find(s, sep) implies s[j] != sep by {
            if j > 0 {
                assert(s.skip(1)[j - 1] == s[j]);
            }
        }
        if find(s, sep) < s.len() {
            assert(s.skip(1)[find(s.skip(1), sep)] == s[find(s, sep)]);
        }
    }
}

/// The pieces put together again, with the separator between them.
pub open spec fn join(pieces: Seq<Seq<char>>, sep: char) -> Seq<char>
    decreases pieces.len(),
{
    if pieces.len() == 0 {
        Seq::empty()
    } else if pieces.len() == 1 {
        pieces[0]
    } else {
        pieces[0] + seq![sep] + join(pieces.skip(1), sep)
    }
}

/// Splitting loses nothing and leaves no separator: there is at least one
/// piece, no piece holds the separator, and the pieces joined by the
/// separator are the text.
pub proof fn lemma_split_is_sound(s: Seq<char>, sep: char)
    ensures
        split(s, sep).len() >= 1,
        forall|k: int, j: int|
            0 <= k < split(s, sep).len() && 0 <= j < split(s, sep)[k].len() ==> split(
                s,
                sep,
            )[k][j] != sep,
        join(split(s, sep), sep) == s,
    decreases s.len(),
{
    lemma_find_bounds(s, sep);
    let cut = find(s, sep);
    if cut < s.len() {
        let rest = s.skip(cut + 1);
        lemma_split_is_sound(rest, sep);
        let pieces = split(s, sep);
        assert(pieces.skip(1) =~= split(rest, sep));
        assert forall|k: int, j: int|
            0 <= k < pieces.len() && 0 <= j < pieces[k].len() implies pieces[k][j] != sep by {
            if k > 0 {
                assert(pieces[k] == split(rest, sep)[k - 1]);
            }
        }
        assert(s.take(cut) + seq![sep] + rest =~= s);
    }
}

/// A character of a decimal number.
pub open spec fn is_digit(c: char) -> bool {
    '0' <= c <= '9'
}

/// The number that a decimal digit stands for.
pub open spec fn digit_value(c: char) -> nat
    recommends
        is_digit(c),
{
    (c as u32 - '0' as u32) as nat
}

/// Every character is a decimal digit.
pub open spec fn all_digits(s: Seq<char>) -> bool {
    forall|i: int| 0 <= i < s.len() ==> is_digit(#[trigger] s[i])
}

/// The number that a sequence of decimal digits stands for.
pub open spec fn decimal_value(s: Seq<char>) -> nat
    decreases s.len(),
{
    if s.len() == 0 {
        0
    } else {
        decimal_value(s.drop_last()) * 10 + digit_value(s.last())
    }
}

/// The digits of a number text: the text without the plus sign that may
/// stand in front.
pub open spec fn unsigned_digits(s: Seq<char>) -> Seq<char> {
    if s.len() > 0 && s[0] == '+' {
        s.skip(1)
    } else {
        s
    }
}

/// The `u64` that a text stands for: decimal digits, at least one, with at
/// most a plus sign in front and nothing else, and a value that fits.
pub open spec fn decimal_u64(s: Seq<char>) -> Option<u64> {
    let digits = unsigned_digits(s);
    if digits.len() > 0 && all_digits(digits) && decimal_value(digits) <= u64::MAX {
        Some(decimal_value(digits) as u64)
    } else {
        None
    }
}

/// A number does not shrink when digits are appended.
pub proof fn lemma_decimal_value_grows(s: Seq<char>, shorter: int)
    requires
        0 <= shorter <= s.len(),
    ensures
        decimal_value(s.take(shorter)) <= decimal_value(s),
    decreases s.len() - shorter,
{
    if shorter == s.len() {
        assert(s.take(shorter) =~= s);
    } else {
        lemma_decimal_value_grows(s.drop_last(), shorter);
        assert(s.drop_last().take(shorter) =~= s.take(shorter));
    }
}

/// The characters of a text, in order.
pub fn chars_of(s: &str) -> (v: Vec<char>)
    ensures
        v@ == s@,
{
    let mut v: Vec<char> = Vec::new();
    for c in it: s.chars()
        invariant
            it.seq() == s@,
            v@ == s@.take(it.index() as int),
    {
        v.push(c);
        assert(v@ =~= s@.take(it.index() + 1));
    }
    assert(s@.take(s@.len() as int) =~= s@);
    v
}

/// Whether the characters of `s` from `from` up to `to` spell `word`.
pub fn spells(s: &Vec<char>, from: usize, to: usize, word: &Vec<char>) -> (r: bool)
    requires
        from <= to <= s@.len(),
    ensures
        r == (s@.subrange(from as int, to as int) == word@),
{
    if to - from != word.len() {
        return false;
    }
    let mut i: usize = 0;
    while i < word.len()
        invariant
            from <= to <= s@.len(),
            to - from == word@.len(),
            i <= word@.len(),
            forall|j: int| 0 <= j < i ==> s@[from + j] == word@[j],
        decreases word@.len() - i,
    {
        if s[from + i] != word[i] {
            assert(s@.subrange(from as int, to as int)[i as int] != word@[i as int]);
            return false;
        }
        i = i + 1;
    }
    assert(s@.subrange(from as int, to as int) =~= word@);
    true
}

/// Whether two texts have the same characters.
pub fn same_text(a: &str, b: &str) -> (r: bool)
    ensures
        r == (a@ == b@),
{
    let left = chars_of(a);
    let right = chars_of(b);
    let whole = spells(&left, 0, left.len(), &right);
    assert(left@.subrange(0, left@.len() as int) =~= left@);
    whole
}

/// The bounds of the pieces that the separators cut out of the characters
/// between `from` and `to`: piece `k` runs from its first bound up to its
/// second.
pub fn split_bounds(s: &Vec<char>, from: usize, to: usize, sep: char) -> (bounds: Vec<
    (usize, usize),
>)
    requires
        from <= to <= s@.len(),
    ensures
        bounds@.len() == split(s@.subrange(from as int, to as int), sep).len(),
        forall|k: int|
            0 <= k < bounds@.len() ==> from <= (#[trigger] bounds@[k]).0 <= bounds@[k].1 <= to,
        forall|k: int|
            0 <= k < bounds@.len() ==> s@.subrange(
                (#[trigger] bounds@[k]).0 as int,
                bounds@[k].1 as int,
            ) == split(s@.subrange(from as int, to as int), sep)[k],
{
    let ghost whole = s@.subrange(from as int, to as int);
    let mut bounds: Vec<(usize, usize)> = Vec::new();
    let mut start: usize = from;
    let mut i: usize = from;
    assert(whole.skip(0) =~= whole);
    while i < to
        invariant
            from <= start <= i <= to <= s@.len(),
            whole == s@.subrange(from as int, to as int),
            forall|j: int| start <= j < i ==> s@[j] != sep,
            split(whole, sep) =~= Seq::new(
                bounds@.len(),
                |k: int| s@.subrange(bounds@[k].0 as int, bounds@[k].1 as int),
            ) + split(whole.skip(start - from), sep),
            forall|k: int|
                0 <= k < bounds@.len() ==> from <= (#[trigger] bounds@[k]).0 <= bounds@[k].1 <= to,
        decreases to - i,
    {
        if s[i] == sep {
            let ghost rest = whole.skip(start - from);
            let ghost done = Seq::new(
                bounds@.len(),
                |k: int| s@.subrange(bounds@[k].0 as int, bounds@[k].1 as int),
            );
            proof {
                assert forall|j: int| 0 <= j < i - start implies rest[j] != sep by {
                    assert(rest[j] == s@[start + j]);
                }
                assert(rest[i - start] == s@[i as int]);
                lemma_find(rest, sep, i - start);
                assert(rest.take(i - start) =~= s@.subrange(start as int, i as int));
                assert(rest.skip(i - start + 1) =~= whole.skip(i + 1 - from));
            }
            bounds.push((start, i));
            start = i + 1;
            proof {
                let now = Seq::new(
                    bounds@.len(),
                    |k: int| s@.subrange(bounds@[k].0 as int, bounds@[k].1 as int),
                );
                assert(now =~= done + seq![s@.subrange(bounds@.last().0 as int, i as int)]);
            }
        }
        i = i + 1;
    }
    proof {
        let rest = whole.skip(start - from);
        assert forall|j: int| 0 <= j < to - start implies rest[j] != sep by {
            assert(rest[j] == s@[start + j]);
        }
        lemma_find(rest, sep, to - start);
        assert(rest =~= s@.subrange(start as int, to as int));
    }
    let ghost done = Seq::new(
        bounds@.len(),
        |k: int| s@.subrange(bounds@[k].0 as int, bounds@[k].1 as int),
    );
    bounds.push((start, to));
    proof {
        let now = Seq::new(
            bounds@.len(),
            |k: int| s@.subrange(bounds@[k].0 as int, bounds@[k].1 as int),
        );
        assert(now =~= done + seq![s@.subrange(start as int, to as int)]);
        assert(split(whole, sep) =~= now);
        assert forall|k: int| 0 <= k < bounds@.len() implies s@.subrange(
            (#[trigger] bounds@[k]).0 as int,
            bounds@[k].1 as int,
        ) == split(whole, sep)[k] by {
            assert(now[k] == s@.subrange(bounds@[k].0 as int, bounds@[k].1 as int));
        }
    }
    bounds
}

/// Reads the characters of `s` from `from` up to `to` as a `u64`, the way
/// the standard library reads one from a text.
pub fn read_u64(s: &Vec<char>, from: usize, to: usize) -> (r: Option<u64>)
    requires
        from <= to <= s@.len(),
    ensures
        r == decimal_u64(s@.subrange(from as int, to as int)),
{
    let ghost text = s@.subrange(from as int, to as int);
    let first = if from < to && s[from] == '+' {
        from + 1
    } else {
        from
    };
    let ghost digits = unsigned_digits(text);
    assert(digits =~= s@.subrange(first as int, to as int)) by {
        if from < to {
            assert(text[0] == s@[from as int]);
        }
    }
    if first == to {
        return None;
    }
    let mut value: u64 = 0;
    let mut i: usize = first;
    assert(digits.take(0) =~= Seq::<char>::empty());
    while i < to
        invariant
            from <= first <= i <= to <= s@.len(),
            first < to,
            digits == s@.subrange(first as int, to as int),
            digits == unsigned_digits(s@.subrange(from as int, to as int)),
            all_digits(digits.take(i - first)),
            value == decimal_value(digits.take(i - first)),
        decreases to - i,
    {
        let c = s[i];
        let ghost longer = digits.take(i - first + 1);
        proof {
            assert(digits[i - first] == c);
            assert(longer.drop_last() =~= digits.take(i - first));
            assert(longer.last() == c);
        }
        if !(c >= '0' && c <= '9') {
            assert(!all_digits(digits));
            return None;
        }
        let d: u64 = (c as u32 - '0' as u32) as u64;
        proof {
            assert forall|j: int| 0 <= j < longer.len() implies is_digit(#[trigger] longer[j]) by {
                if j < i - first {
                    assert(digits.take(i - first)[j] == longer[j]);
                }
            }
            lemma_decimal_value_grows(digits, i - first + 1);
        }
        let scaled = match value.checked_mul(10) {
            Some(scaled) => scaled,
            None => {
                return None;
            },
        };
        value = match scaled.checked_add(d) {
            Some(sum) => sum,
            None => {
                return None;
            },
        };
        i = i + 1;
    }
    assert(digits.take(to - first) =~= digits);
    Some(value)
}

/// The characters of each text of a list.
pub open spec fn texts(list: Seq<String>) -> Seq<Seq<char>> {
    Seq::new(list.len(), |i: int| list[i]@)
}

/// The order of texts: character by character, by the numbers of the
/// characters, a text coming before every text that it begins.
pub open spec fn text_le(a: Seq<char>, b: Seq<char>) -> bool
    decreases a.len(),
{
    if a.len() == 0 {
        true
    } else if b.len() == 0 {
        false
    } else if a[0] != b[0] {
        a[0] < b[0]
    } else {
        text_le(a.skip(1), b.skip(1))
    }
}

/// Each text of the list comes before the texts that follow it.
pub open spec fn ascending(list: Seq<Seq<char>>) -> bool {
    forall|i: int, j: int| 0 <= i < j < list.len() ==> text_le(list[i], list[j])
}

/// Of two texts one comes before the other.
pub proof fn lemma_text_le_total(a: Seq<char>, b: Seq<char>)
    ensures
        text_le(a, b) || text_le(b, a),
    decreases a.len(),
{
    if a.len() > 0 && b.len() > 0 && a[0] == b[0] {
        lemma_text_le_total(a.skip(1), b.skip(1));
    }
}

/// What comes before a text comes before every text after it.
pub proof fn lemma_text_le_transitive(a: Seq<char>, b: Seq<char>, c: Seq<char>)
    requires
        text_le(a, b),
        text_le(b, c),
    ensures
        text_le(a, c),
    decreases a.len(),
{
    if a.len() > 0 && b.len() > 0 && c.len() > 0 && a[0] == b[0] && b[0] == c[0] {
        lemma_text_le_transitive(a.skip(1), b.skip(1), c.skip(1));
    }
}

/// Two texts that come before each other are the same.
pub proof fn lemma_text_le_antisymmetric(a: Seq<char>, b: Seq<char>)
    requires
        text_le(a, b),
        text_le(b, a),
    ensures
        a == b,
    decreases a.len(),
{
    if a.len() > 0 && b.len() > 0 {
        lemma_text_le_antisymmetric(a.skip(1), b.skip(1));
        assert(a =~= seq![a[0]] + a.skip(1));
        assert(b =~= seq![b[0]] + b.skip(1));
    } else {
        assert(a =~= b);
    }
}

/// Whether the characters of `a` from `from` on come before those of `b`
/// from `from` on.
fn tail_le(a: &Vec<char>, b: &Vec<char>, from: usize) -> (r: bool)
    requires
        from <= a@.len(),
        from <= b@.len(),
    ensures
        r == text_le(a@.skip(from as int), b@.skip(from as int)),
{
    let mut i: usize = from;
    while i < a.len() && i < b.len() && a[i] == b[i]
        invariant
            from <= i <= a@.len(),
            i <= b@.len(),
            text_le(a@.skip(from as int), b@.skip(from as int)) == text_le(
                a@.skip(i as int),
                b@.skip(i as int),
            ),
        decreases a@.len() - i,
    {
        assert(a@.skip(i as int).skip(1) =~= a@.skip(i + 1));
        assert(b@.skip(i as int).skip(1) =~= b@.skip(i + 1));
        i = i + 1;
    }
    if i == a.len() {
        true
    } else if i == b.len() {
        false
    } else {
        a[i] < b[i]
    }
}

/// Whether text `a` comes before text `b`, or is the same.
pub fn comes_before(a: &str, b: &str) -> (r: bool)
    ensures
        r == text_le(a@, b@),
{
    let left = chars_of(a);
    let right = chars_of(b);
    assert(left@.skip(0) =~= left@);
    assert(right@.skip(0) =~= right@);
    tail_le(&left, &right, 0)
}

/// Inserting into a sequence adds one element to what it holds.
proof fn lemma_insert_to_multiset<A>(s: Seq<A>, pos: int, x: A)
    requires
        0 <= pos <= s.len(),
    ensures
        s.insert(pos, x).to_multiset() =~= s.to_multiset().insert(x),
{
    let front = s.subrange(0, pos);
    let back = s.subrange(pos, s.len() as int);
    assert(s =~= front + back);
    vstd::seq_lib::lemma_multiset_commutative(front, back);
    vstd::seq_lib::lemma_multiset_commutative(front.push(x), back);
    vstd::seq_lib::to_multiset_build(front, x);
}

/// Sorts texts into ascending order. The result holds the same texts, each
/// as often as before.
pub fn sort_texts(list: Vec<String>) -> (r: Vec<String>)
    ensures
        ascending(texts(r@)),
        texts(r@).to_multiset() == texts(list@).to_multiset(),
{
    let mut rest = list;
    let mut out: Vec<String> = Vec::new();
    assert(texts(out@) =~= Seq::<Seq<char>>::empty());
    assert(texts(out@).to_multiset() =~= vstd::multiset::Multiset::<Seq<char>>::empty()) by {
        broadcast use vstd::seq_lib::group_to_multiset_ensures;

    }
    while rest.len() > 0
        invariant
            ascending(texts(out@)),
            texts(out@).to_multiset().add(texts(rest@).to_multiset()) =~= texts(
                list@,
            ).to_multiset(),
        decreases rest@.len(),
    {
        let ghost before = rest@;
        let ghost sorted = out@;
        let item = rest.pop().unwrap();
        let mut pos: usize = 0;
        while pos < out.len() && comes_before(out[pos].as_str(), item.as_str())
            invariant
                pos <= out@.len(),
                forall|j: int| 0 <= j < pos ==> text_le(#[trigger] out@[j]@, item@),
            decreases out@.len() - pos,
        {
            pos = pos + 1;
        }
        out.insert(pos, item);
        proof {
            assert(texts(before) =~= texts(rest@).push(item@));
            vstd::seq_lib::to_multiset_build(texts(rest@), item@);
            assert(texts(out@) =~= texts(sorted).insert(pos as int, item@));
            lemma_insert_to_multiset(texts(sorted), pos as int, item@);
            assert forall|i: int, j: int| 0 <= i < j < out@.len() implies text_le(
                texts(out@)[i],
                texts(out@)[j],
            ) by {
                if j < pos {
                    assert(texts(sorted)[i] == texts(out@)[i]);
                    assert(texts(sorted)[j] == texts(out@)[j]);
                } else if j == pos {
                    assert(texts(out@)[i] == sorted[i]@);
                } else if i == pos {
                    assert(texts(out@)[j] == texts(sorted)[j - 1]);
                    lemma_text_le_total(sorted[pos as int]@, item@);
                    if j - 1 > pos {
                        assert(text_le(texts(sorted)[pos as int], texts(sorted)[j - 1]));
                        lemma_text_le_transitive(item@, sorted[pos as int]@, sorted[j - 1]@);
                    }
                } else if i < pos {
                    assert(texts(out@)[i] == texts(sorted)[i]);
                    assert(texts(out@)[j] == texts(sorted)[j - 1]);
                    assert(text_le(texts(sorted)[i], texts(sorted)[j - 1]));
                } else {
                    assert(texts(out@)[i] == texts(sorted)[i - 1]);
                    assert(texts(out@)[j] == texts(sorted)[j - 1]);
                    assert(text_le(texts(sorted)[i - 1], texts(sorted)[j - 1]));
                }
            }
        }
    }
    assert(texts(rest@) =~= Seq::<Seq<char>>::empty());
    assert(texts(rest@).to_multiset() =~= vstd::multiset::Multiset::<Seq<char>>::empty()) by {
        broadcast use vstd::seq_lib::group_to_multiset_ensures;

    }
    out
}

} // verus!
